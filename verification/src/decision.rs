//! The decision engine.
//!
//! Once per tick the active non-player actor picks exactly one action, as a
//! pure function of its position, its visible actors, the other actors'
//! positions in a fixed enumeration order, the map, and the drawn random
//! values. Seeing the player overrides everything: the actor follows.
//! Otherwise a coin flip decides between moving — the first drawn direction
//! whose destination is present, walkable and unoccupied, with boundedly
//! many draws and a shout at itself as the fallback when they are exhausted —
//! and turning towards the closest other actor: attack within squared
//! distance eight (two diagonal tiles), shout beyond it, shout at itself
//! when alone. Ties for the closest actor go to the earliest actor in the
//! enumeration order.

use vstd::prelude::*;
use crate::grid::{dist2, distance_squared, neighbor, spec_neighbor, Coordinate, Direction};
use crate::terrain::{walkable_pt, GridMap, Tile};

verus! {

/// The single action an actor intends this tick; targets are actor
/// identities.
#[derive(Clone, Copy, PartialEq, Eq, Structural, Debug)]
pub enum Action {
    Move(Direction),
    Attack(u64),
    Follow(u64),
    Shout(u64),
}

/// Largest squared distance at which the closest actor is attacked rather
/// than shouted at: two tiles diagonally.
pub const ATTACK_RANGE2: i128 = 8;

/// How many direction draws one decision may consume before the move
/// attempt degrades to a shout: the bounded-retry correction of an
/// otherwise unbounded sampling loop.
pub const MOVE_RETRY_LIMIT: usize = 16;

/// The direction a random draw stands for.
pub open spec fn draw_direction(draw: u8) -> Direction {
    if draw % 8 == 0 {
        Direction::N
    } else if draw % 8 == 1 {
        Direction::NE
    } else if draw % 8 == 2 {
        Direction::E
    } else if draw % 8 == 3 {
        Direction::SE
    } else if draw % 8 == 4 {
        Direction::S
    } else if draw % 8 == 5 {
        Direction::SW
    } else if draw % 8 == 6 {
        Direction::W
    } else {
        Direction::NW
    }
}

/// The direction a random draw stands for.
pub fn direction_from_draw(draw: u8) -> (d: Direction)
    ensures
        d == draw_direction(draw),
{
    let m = draw % 8;
    if m == 0 {
        Direction::N
    } else if m == 1 {
        Direction::NE
    } else if m == 2 {
        Direction::E
    } else if m == 3 {
        Direction::SE
    } else if m == 4 {
        Direction::S
    } else if m == 5 {
        Direction::SW
    } else if m == 6 {
        Direction::W
    } else {
        Direction::NW
    }
}

/// Whether some actor of the enumeration stands on `c`.
pub open spec fn occupied(others: Seq<(u64, Coordinate)>, c: Coordinate) -> bool {
    exists|i: int| 0 <= i < others.len() && (#[trigger] others[i]).1 == c
}

/// Whether one step from `pos` in direction `d` lands on a coordinate that
/// is present in the map, walkable, and unoccupied by any other actor.
pub open spec fn move_legal(
    m: Map<(int, int), Tile>,
    others: Seq<(u64, Coordinate)>,
    pos: Coordinate,
    d: Direction,
) -> bool {
    match spec_neighbor(pos, d) {
        Option::None => false,
        Option::Some(dest) => walkable_pt(m, dest.pt()) && !occupied(others, dest),
    }
}

/// The direction of the first draw whose step is legal, if any draw yields
/// one.
pub open spec fn first_legal_move(
    m: Map<(int, int), Tile>,
    others: Seq<(u64, Coordinate)>,
    pos: Coordinate,
    draws: Seq<u8>,
) -> Option<Direction>
    decreases draws.len(),
{
    if draws.len() == 0 {
        None
    } else if move_legal(m, others, pos, draw_direction(draws[0])) {
        Some(draw_direction(draws[0]))
    } else {
        first_legal_move(m, others, pos, draws.skip(1))
    }
}

/// The first other actor at minimum squared distance from `pos`, scanning
/// in enumeration order; a later actor replaces the running choice only at
/// strictly smaller distance.
pub open spec fn closest_other(pos: Coordinate, others: Seq<(u64, Coordinate)>) -> Option<
    (u64, Coordinate),
>
    decreases others.len(),
{
    if others.len() == 0 {
        None
    } else {
        let prior = closest_other(pos, others.drop_last());
        let last = others[others.len() - 1];
        match prior {
            Option::None => Some(last),
            Option::Some(p) => if dist2(pos.pt(), last.1.pt()) < dist2(pos.pt(), p.1.pt()) {
                Some(last)
            } else {
                Some(p)
            },
        }
    }
}

/// The decision once the player is out of sight: move on a true coin flip,
/// otherwise turn towards the closest other actor.
pub open spec fn spec_choose_rest(
    active_id: u64,
    pos: Coordinate,
    others: Seq<(u64, Coordinate)>,
    m: Map<(int, int), Tile>,
    will_move: bool,
    draws: Seq<u8>,
) -> Action {
    if will_move {
        match first_legal_move(m, others, pos, draws) {
            Option::Some(d) => Action::Move(d),
            Option::None => Action::Shout(active_id),
        }
    } else {
        match closest_other(pos, others) {
            Option::None => Action::Shout(active_id),
            Option::Some(oc) => if dist2(pos.pt(), oc.1.pt()) <= ATTACK_RANGE2 {
                Action::Attack(oc.0)
            } else {
                Action::Shout(oc.0)
            },
        }
    }
}

/// The whole decision: follow the player on sight, else as
/// `spec_choose_rest`. A missing player counts as not visible.
pub open spec fn spec_choose_action(
    active_id: u64,
    pos: Coordinate,
    visible_ids: Seq<u64>,
    others: Seq<(u64, Coordinate)>,
    m: Map<(int, int), Tile>,
    player: Option<u64>,
    will_move: bool,
    draws: Seq<u8>,
) -> Action {
    match player {
        Option::Some(p) => if visible_ids.contains(p) {
            Action::Follow(p)
        } else {
            spec_choose_rest(active_id, pos, others, m, will_move, draws)
        },
        Option::None => spec_choose_rest(active_id, pos, others, m, will_move, draws),
    }
}

/// Whether a vector of identities contains `id`.
pub fn contains_id(v: &Vec<u64>, id: u64) -> (r: bool)
    ensures
        r == v@.contains(id),
{
    let mut i: usize = 0;
    while i < v.len()
        invariant
            i <= v@.len(),
            forall|j: int| 0 <= j < i ==> v@[j] != id,
        decreases v@.len() - i,
    {
        if v[i] == id {
            return true;
        }
        i = i + 1;
    }
    false
}

/// Whether some actor of the enumeration stands on `c`.
pub fn occupied_at(others: &Vec<(u64, Coordinate)>, c: Coordinate) -> (r: bool)
    ensures
        r == occupied(others@, c),
{
    let mut i: usize = 0;
    while i < others.len()
        invariant
            i <= others@.len(),
            forall|j: int| 0 <= j < i ==> (#[trigger] others@[j]).1 != c,
        decreases others@.len() - i,
    {
        let (_, oc) = others[i];
        if oc.x == c.x && oc.y == c.y {
            proof {
                assert(others@[i as int].1 == c);
            }
            return true;
        }
        i = i + 1;
    }
    false
}

/// Whether one step from `pos` in direction `d` is legal.
pub fn check_move_legal(
    map: &GridMap,
    others: &Vec<(u64, Coordinate)>,
    pos: Coordinate,
    d: Direction,
) -> (r: bool)
    ensures
        r == move_legal(map@, others@, pos, d),
{
    match neighbor(pos, d) {
        Option::None => false,
        Option::Some(dest) => map.walkable_at(dest) && !occupied_at(others, dest),
    }
}

/// Choose the active non-player actor's action from its position, its
/// visible actors, the other actors in enumeration order, the map, the
/// designated player, and the drawn random values. The result is exactly
/// the specified decision, and seeing the player forces following it.
pub fn choose_action(
    active_id: u64,
    pos: Coordinate,
    visible_ids: &Vec<u64>,
    others: &Vec<(u64, Coordinate)>,
    map: &GridMap,
    player: Option<u64>,
    will_move: bool,
    draws: &Vec<u8>,
) -> (a: Action)
    ensures
        a == spec_choose_action(
            active_id,
            pos,
            visible_ids@,
            others@,
            map@,
            player,
            will_move,
            draws@,
        ),
        forall|p: u64| player == Some(p) && visible_ids@.contains(p) ==> a == Action::Follow(p),
{
    match player {
        Option::Some(p) => {
            if contains_id(visible_ids, p) {
                return Action::Follow(p);
            }
        },
        Option::None => {},
    }
    if will_move {
        proof {
            assert(draws@.skip(0) =~= draws@);
        }
        let mut i: usize = 0;
        while i < draws.len()
            invariant
                i <= draws@.len(),
                will_move,
                match player {
                    Option::Some(p) => !visible_ids@.contains(p),
                    Option::None => true,
                },
                first_legal_move(map@, others@, pos, draws@) == first_legal_move(
                    map@,
                    others@,
                    pos,
                    draws@.skip(i as int),
                ),
            decreases draws@.len() - i,
        {
            proof {
                assert(draws@.skip(i as int)[0] == draws@[i as int]);
                assert(draws@.skip(i as int).skip(1) =~= draws@.skip(i + 1));
            }
            let d = direction_from_draw(draws[i]);
            if check_move_legal(map, others, pos, d) {
                return Action::Move(d);
            }
            i = i + 1;
        }
        proof {
            assert(draws@.skip(draws@.len() as int) =~= Seq::<u8>::empty());
        }
        return Action::Shout(active_id);
    }
    let mut best: Option<(u64, Coordinate)> = None;
    let mut i: usize = 0;
    while i < others.len()
        invariant
            i <= others@.len(),
            best == closest_other(pos, others@.take(i as int)),
        decreases others@.len() - i,
    {
        proof {
            assert(others@.take(i + 1).drop_last() =~= others@.take(i as int));
            assert(others@.take(i + 1).last() == others@[i as int]);
        }
        let (oid, oc) = others[i];
        let replace = match best {
            Option::None => true,
            Option::Some(b) => distance_squared(pos, oc) < distance_squared(pos, b.1),
        };
        if replace {
            best = Some((oid, oc));
        }
        i = i + 1;
    }
    proof {
        assert(others@.take(others@.len() as int) =~= others@);
    }
    match best {
        Option::None => Action::Shout(active_id),
        Option::Some(b) => {
            if distance_squared(pos, b.1) <= ATTACK_RANGE2 {
                Action::Attack(b.0)
            } else {
                Action::Shout(b.0)
            }
        },
    }
}

/// Law: the decision is a pure function of its inputs — the same position,
/// visibility, enumeration, map, player and drawn values always give the
/// same action.
pub proof fn lemma_choose_action_deterministic(
    active_id: u64,
    pos: Coordinate,
    visible_ids: Seq<u64>,
    others: Seq<(u64, Coordinate)>,
    m: Map<(int, int), Tile>,
    player: Option<u64>,
    will_move: bool,
    draws: Seq<u8>,
    other_visible_ids: Seq<u64>,
    other_others: Seq<(u64, Coordinate)>,
    other_draws: Seq<u8>,
)
    requires
        visible_ids == other_visible_ids,
        others == other_others,
        draws == other_draws,
    ensures
        spec_choose_action(active_id, pos, visible_ids, others, m, player, will_move, draws)
            == spec_choose_action(
            active_id,
            pos,
            other_visible_ids,
            other_others,
            m,
            player,
            will_move,
            other_draws,
        ),
{
}

/// Relies on rand::random: a draw from the thread-local generator; nothing
/// can be promised of the result.
pub assume_specification<T>[ rand::random::<T> ]() -> (r: T)
    where
        rand::distributions::Standard: rand::distributions::Distribution<T>,
;

/// Choose the active non-player actor's action, drawing the coin flip and
/// the bounded direction draws from the thread-local random number
/// generator. Whatever is drawn, the result is the deterministic decision
/// for some coin flip and some sequence of draws of the fixed retry length,
/// and seeing the player forces following it.
pub fn decide(
    active_id: u64,
    pos: Coordinate,
    visible_ids: &Vec<u64>,
    others: &Vec<(u64, Coordinate)>,
    map: &GridMap,
    player: Option<u64>,
) -> (a: Action)
    ensures
        exists|will_move: bool, draws: Seq<u8>|
            draws.len() == MOVE_RETRY_LIMIT && a == spec_choose_action(
                active_id,
                pos,
                visible_ids@,
                others@,
                map@,
                player,
                will_move,
                draws,
            ),
        forall|p: u64| player == Some(p) && visible_ids@.contains(p) ==> a == Action::Follow(p),
{
    let will_move: bool = rand::random::<bool>();
    let mut draws: Vec<u8> = Vec::new();
    while draws.len() < MOVE_RETRY_LIMIT
        invariant
            draws@.len() <= MOVE_RETRY_LIMIT,
        decreases MOVE_RETRY_LIMIT - draws@.len(),
    {
        let b: u8 = rand::random::<u8>();
        draws.push(b);
    }
    let a = choose_action(active_id, pos, visible_ids, others, map, player, will_move, &draws);
    proof {
        assert(draws@.len() == MOVE_RETRY_LIMIT && a == spec_choose_action(
            active_id,
            pos,
            visible_ids@,
            others@,
            map@,
            player,
            will_move,
            draws@,
        ));
    }
    a
}

} // verus!
