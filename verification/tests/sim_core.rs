use escape_pod::actor::{Actor, Role};
use escape_pod::decision::{choose_action, decide, Action};
use escape_pod::grid::{delta_to_direction, direction_to_delta, Coordinate, Direction};
use escape_pod::scheduler::TurnScheduler;
use escape_pod::terrain::{GridMap, TerrainKind, Tile};

fn floor() -> Tile {
    Tile { kind: TerrainKind::Floor, walkable: true }
}

fn open_map(half: i32) -> GridMap {
    let mut m = GridMap::new();
    let mut x = -half;
    while x <= half {
        let mut y = -half;
        while y <= half {
            m.set_tile(Coordinate::new(x, y), floor());
            y += 1;
        }
        x += 1;
    }
    m
}

fn all_directions() -> Vec<Direction> {
    vec![
        Direction::N,
        Direction::NE,
        Direction::E,
        Direction::SE,
        Direction::S,
        Direction::SW,
        Direction::W,
        Direction::NW,
    ]
}

#[test]
fn direction_round_trip_all_eight() {
    for d in all_directions() {
        let delta = direction_to_delta(d);
        assert_eq!(delta_to_direction(delta), Some(d));
        assert!(delta.x.abs() <= 1 && delta.y.abs() <= 1);
        assert!(delta.x != 0 || delta.y != 0);
    }
}

#[test]
fn non_unit_delta_fails_conversion() {
    assert_eq!(delta_to_direction(Coordinate::new(0, 0)), None);
    assert_eq!(delta_to_direction(Coordinate::new(2, 0)), None);
    assert_eq!(delta_to_direction(Coordinate::new(1, 2)), None);
    assert_eq!(delta_to_direction(Coordinate::new(0, -2)), None);
    assert_eq!(delta_to_direction(Coordinate::new(-3, 5)), None);
}

#[test]
fn north_is_positive_y() {
    let delta = direction_to_delta(Direction::N);
    assert_eq!((delta.x, delta.y), (0, 1));
    let delta = direction_to_delta(Direction::SE);
    assert_eq!((delta.x, delta.y), (1, -1));
}

#[test]
fn decision_attack_within_two_tiles() {
    let map = open_map(6);
    let others = vec![(7u64, Coordinate::new(1, 1))];
    let visible: Vec<u64> = Vec::new();
    let draws: Vec<u8> = Vec::new();
    let a = choose_action(3, Coordinate::new(0, 0), &visible, &others, &map, Some(99), false, &draws);
    assert_eq!(a, Action::Attack(7));
}

#[test]
fn decision_shout_beyond_two_tiles() {
    let map = open_map(6);
    let others = vec![(7u64, Coordinate::new(5, 5))];
    let visible: Vec<u64> = Vec::new();
    let draws: Vec<u8> = Vec::new();
    let a = choose_action(3, Coordinate::new(0, 0), &visible, &others, &map, Some(99), false, &draws);
    assert_eq!(a, Action::Shout(7));
}

#[test]
fn decision_shout_at_self_when_alone() {
    let map = open_map(6);
    let others: Vec<(u64, Coordinate)> = Vec::new();
    let visible: Vec<u64> = Vec::new();
    let draws: Vec<u8> = Vec::new();
    let a = choose_action(3, Coordinate::new(0, 0), &visible, &others, &map, Some(99), false, &draws);
    assert_eq!(a, Action::Shout(3));
}

#[test]
fn decision_closest_tie_breaks_by_enumeration_order() {
    let map = open_map(6);
    // both at squared distance 1; the first in the enumeration wins
    let others = vec![(7u64, Coordinate::new(1, 0)), (8u64, Coordinate::new(0, 1))];
    let visible: Vec<u64> = Vec::new();
    let draws: Vec<u8> = Vec::new();
    let a = choose_action(3, Coordinate::new(0, 0), &visible, &others, &map, None, false, &draws);
    assert_eq!(a, Action::Attack(7));
}

#[test]
fn decision_move_takes_first_legal_draw() {
    let map = open_map(6);
    let others: Vec<(u64, Coordinate)> = Vec::new();
    let visible: Vec<u64> = Vec::new();
    // draw 0 is north; open and unoccupied, so it is taken at once
    let draws: Vec<u8> = vec![0];
    let a = choose_action(3, Coordinate::new(0, 0), &visible, &others, &map, None, true, &draws);
    assert_eq!(a, Action::Move(Direction::N));
}

#[test]
fn decision_move_skips_occupied_and_blocked_draws() {
    let map = open_map(6);
    // north neighbour occupied: draw 0 (north) is skipped, draw 2 (east) taken
    let others = vec![(7u64, Coordinate::new(0, 1))];
    let visible: Vec<u64> = Vec::new();
    let draws: Vec<u8> = vec![0, 2];
    let a = choose_action(3, Coordinate::new(0, 0), &visible, &others, &map, None, true, &draws);
    assert_eq!(a, Action::Move(Direction::E));
}

#[test]
fn decision_enclosed_actor_falls_back_to_shout() {
    // a single floor tile surrounded by nothing: every step leaves the map
    let mut map = GridMap::new();
    map.set_tile(Coordinate::new(0, 0), floor());
    let others: Vec<(u64, Coordinate)> = Vec::new();
    let visible: Vec<u64> = Vec::new();
    let draws: Vec<u8> = vec![0, 1, 2, 3, 4, 5, 6, 7, 0, 1, 2, 3, 4, 5, 6, 7];
    let a = choose_action(3, Coordinate::new(0, 0), &visible, &others, &map, None, true, &draws);
    assert_eq!(a, Action::Shout(3));
}

#[test]
fn follow_overrides_move_and_act() {
    let map = open_map(6);
    let others = vec![(7u64, Coordinate::new(1, 1))];
    let visible = vec![99u64];
    let draws: Vec<u8> = vec![0, 1, 2, 3];
    for will_move in [false, true] {
        let a = choose_action(
            3,
            Coordinate::new(0, 0),
            &visible,
            &others,
            &map,
            Some(99),
            will_move,
            &draws,
        );
        assert_eq!(a, Action::Follow(99));
    }
}

#[test]
fn follow_overrides_through_random_decision() {
    // whatever the generator draws, a visible player forces following
    let map = open_map(6);
    let others = vec![(7u64, Coordinate::new(1, 1))];
    let visible = vec![99u64];
    for _ in 0..20 {
        let a = decide(3, Coordinate::new(0, 0), &visible, &others, &map, Some(99));
        assert_eq!(a, Action::Follow(99));
    }
}

#[test]
fn missing_player_is_treated_as_not_visible() {
    let map = open_map(6);
    let others = vec![(7u64, Coordinate::new(1, 1))];
    let visible = vec![99u64];
    let draws: Vec<u8> = Vec::new();
    let a = choose_action(3, Coordinate::new(0, 0), &visible, &others, &map, None, false, &draws);
    assert_eq!(a, Action::Attack(7));
}

fn fresh_actor(id: u64, quickness: u32) -> Actor {
    Actor {
        id,
        pos: Coordinate::new(id as i32, 0),
        role: Role::NonPlayer,
        quickness,
        budget: 0,
        times_active: 0,
        viewshed: None,
    }
}

#[test]
fn scheduler_threshold_timing() {
    let mut sched = TurnScheduler::new();
    let mut actors = vec![fresh_actor(0, 50), fresh_actor(1, 50), fresh_actor(2, 50)];
    // one tick of 50 is below the threshold of 100: nobody acts
    assert_eq!(sched.advance(&mut actors), None);
    assert_eq!(sched.tick, 1);
    // the second tick reaches 100 for everyone; the earliest wins the tie
    assert_eq!(sched.advance(&mut actors), Some(0));
    assert_eq!(actors[0].budget, 0);
    assert_eq!(actors[1].budget, 100);
    // actor 1 now has the greatest budget
    assert_eq!(sched.advance(&mut actors), Some(1));
    assert_eq!(sched.advance(&mut actors), Some(2));
}

#[test]
fn scheduler_fairness_uniform_quickness() {
    let mut sched = TurnScheduler::new();
    let mut actors = vec![fresh_actor(0, 100), fresh_actor(1, 100), fresh_actor(2, 100)];
    let ticks = 30;
    for _ in 0..ticks {
        assert!(sched.advance(&mut actors).is_some());
    }
    let counts: Vec<u64> = actors.iter().map(|a| a.times_active).collect();
    let total: u64 = counts.iter().sum();
    assert_eq!(total, ticks);
    let max = *counts.iter().max().unwrap();
    let min = *counts.iter().min().unwrap();
    assert!(max - min <= 1, "activation counts drifted: {:?}", counts);
    // every actor was active close to its proportional share
    for c in counts {
        assert!(c >= ticks / 3 - 1 && c <= ticks / 3 + 1);
    }
}

#[test]
fn scheduler_round_counts_full_cycles() {
    let mut sched = TurnScheduler::new();
    let mut actors = vec![fresh_actor(0, 100), fresh_actor(1, 100), fresh_actor(2, 100)];
    for _ in 0..30 {
        sched.advance(&mut actors);
    }
    // uniform quickness at the threshold: one activation per tick, a full
    // round every three ticks
    assert_eq!(sched.round, 10);
}

#[test]
fn scheduler_pause_freezes_everything() {
    let mut sched = TurnScheduler::new();
    let mut actors = vec![fresh_actor(0, 100)];
    sched.advance(&mut actors);
    let tick_before = sched.tick;
    let budget_before = actors[0].budget;
    sched.pause();
    for _ in 0..5 {
        assert_eq!(sched.advance(&mut actors), None);
    }
    assert_eq!(sched.tick, tick_before);
    assert_eq!(actors[0].budget, budget_before);
    sched.resume();
    assert!(sched.advance(&mut actors).is_some() || actors[0].budget > budget_before);
}

#[test]
fn scheduler_no_actor_is_not_an_error() {
    let mut sched = TurnScheduler::new();
    let mut actors: Vec<Actor> = Vec::new();
    assert_eq!(sched.advance(&mut actors), None);
    assert_eq!(sched.tick, 1);
    assert_eq!(sched.round, 0);
}
