use escape_pod::actor::Role;
use escape_pod::decision::Action;
use escape_pod::grid::{Coordinate, Direction};
use escape_pod::scheduler::TurnScheduler;
use escape_pod::terrain::{GridMap, TerrainKind, Tile};
use escape_pod::visibility::compute_visible_tiles;
use escape_pod::world::{ActionOutcome, TickOutcome, World};

fn floor_tile() -> Tile {
    Tile { kind: TerrainKind::Floor, walkable: true }
}

fn wall_tile() -> Tile {
    Tile { kind: TerrainKind::Wall, walkable: false }
}

fn open_floor_map(half: i32) -> GridMap {
    let mut m = GridMap::new();
    let mut x = -half;
    while x <= half {
        let mut y = -half;
        while y <= half {
            m.set_tile(Coordinate::new(x, y), floor_tile());
            y += 1;
        }
        x += 1;
    }
    m
}

#[test]
fn map_lookup_and_overwrite() {
    let mut m = GridMap::new();
    assert_eq!(m.tile_at(Coordinate::new(0, 0)), None);
    m.set_tile(Coordinate::new(0, 0), floor_tile());
    m.set_tile(Coordinate::new(1, 0), wall_tile());
    assert_eq!(m.tile_at(Coordinate::new(0, 0)), Some(floor_tile()));
    assert_eq!(m.tile_at(Coordinate::new(1, 0)), Some(wall_tile()));
    assert_eq!(m.tile_at(Coordinate::new(9, 9)), None);
    assert!(m.walkable_at(Coordinate::new(0, 0)));
    assert!(!m.walkable_at(Coordinate::new(1, 0)));
    // absent coordinates are non-walkable
    assert!(!m.walkable_at(Coordinate::new(9, 9)));
    // a later tile replaces an earlier one
    m.set_tile(Coordinate::new(1, 0), floor_tile());
    assert!(m.walkable_at(Coordinate::new(1, 0)));
}

#[test]
fn nearest_walkable_picks_minimum_distance() {
    let mut m = GridMap::new();
    m.set_tile(Coordinate::new(0, 0), wall_tile());
    m.set_tile(Coordinate::new(2, 0), floor_tile());
    m.set_tile(Coordinate::new(5, 5), floor_tile());
    let r = m.nearest_walkable(Coordinate::new(0, 0)).unwrap();
    assert_eq!((r.x, r.y), (2, 0));
    let mut all_wall = GridMap::new();
    all_wall.set_tile(Coordinate::new(0, 0), wall_tile());
    assert_eq!(all_wall.nearest_walkable(Coordinate::new(0, 0)), None);
}

#[test]
fn open_map_visibility_is_exactly_the_disc() {
    let map = open_floor_map(6);
    let pos = Coordinate::new(0, 0);
    let radius = 3i64;
    let tiles = compute_visible_tiles(&map, pos, radius as u16);
    for dx in -5i64..=5 {
        for dy in -5i64..=5 {
            let c = Coordinate::new(dx as i32, dy as i32);
            let inside = dx * dx + dy * dy <= radius * radius;
            assert_eq!(tiles.contains(&c), inside, "at ({}, {})", dx, dy);
        }
    }
}

#[test]
fn occlusion_removes_the_far_tile_and_nothing_off_ray() {
    let mut map = open_floor_map(6);
    // a wall two tiles north of the viewer
    map.set_tile(Coordinate::new(0, 2), wall_tile());
    let tiles = compute_visible_tiles(&map, Coordinate::new(0, 0), 4);
    // the wall itself is visible, everything beyond it on the ray is not
    assert!(tiles.contains(&Coordinate::new(0, 1)));
    assert!(tiles.contains(&Coordinate::new(0, 2)));
    assert!(!tiles.contains(&Coordinate::new(0, 3)));
    assert!(!tiles.contains(&Coordinate::new(0, 4)));
    // tiles on different rays are untouched
    assert!(tiles.contains(&Coordinate::new(2, 0)));
    assert!(tiles.contains(&Coordinate::new(1, 3)));
    assert!(tiles.contains(&Coordinate::new(-2, 2)));
}

#[test]
fn viewer_on_radius_zero_sees_only_itself() {
    let map = open_floor_map(3);
    let tiles = compute_visible_tiles(&map, Coordinate::new(0, 0), 0);
    assert_eq!(tiles.len(), 1);
    assert!(tiles.contains(&Coordinate::new(0, 0)));
}

#[test]
fn spawn_registers_occupancy_and_refuses_collisions() {
    let mut w = World::new(open_floor_map(5));
    let a = w.spawn(Role::Player, Coordinate::new(0, 0), 100, 5).unwrap();
    let b = w.spawn(Role::NonPlayer, Coordinate::new(1, 0), 100, 5).unwrap();
    assert_eq!(a, 0);
    assert_eq!(b, 1);
    // occupied coordinate
    assert_eq!(w.spawn(Role::NonPlayer, Coordinate::new(1, 0), 100, 5), None);
    // wall / missing coordinate
    assert_eq!(w.spawn(Role::NonPlayer, Coordinate::new(9, 9), 100, 5), None);
    assert_eq!(w.actor_count(), 2);
    assert!(w.occupied(Coordinate::new(0, 0)));
    assert!(!w.occupied(Coordinate::new(2, 2)));
}

#[test]
fn move_commits_and_rejects_silently() {
    let mut map = open_floor_map(3);
    map.set_tile(Coordinate::new(0, 1), wall_tile());
    let mut w = World::new(map);
    let _a = w.spawn(Role::NonPlayer, Coordinate::new(0, 0), 100, 3).unwrap();
    let _b = w.spawn(Role::NonPlayer, Coordinate::new(1, 0), 100, 3).unwrap();
    // into a wall: silent rejection
    assert_eq!(w.apply_action(0, Action::Move(Direction::N)), ActionOutcome::Blocked);
    assert_eq!(w.actor_position(0), Coordinate::new(0, 0));
    // into another actor: silent rejection
    assert_eq!(w.apply_action(0, Action::Move(Direction::E)), ActionOutcome::Blocked);
    assert_eq!(w.actor_position(0), Coordinate::new(0, 0));
    // into free floor: committed
    assert_eq!(
        w.apply_action(0, Action::Move(Direction::W)),
        ActionOutcome::Moved(Coordinate::new(-1, 0))
    );
    assert_eq!(w.actor_position(0), Coordinate::new(-1, 0));
}

#[test]
fn occupancy_invariant_holds_after_move_sequences() {
    let mut w = World::new(open_floor_map(3));
    w.spawn(Role::NonPlayer, Coordinate::new(0, 0), 100, 3).unwrap();
    w.spawn(Role::NonPlayer, Coordinate::new(1, 0), 100, 3).unwrap();
    w.spawn(Role::NonPlayer, Coordinate::new(0, 1), 100, 3).unwrap();
    let moves = [
        (0usize, Direction::E),
        (0, Direction::N),
        (1, Direction::W),
        (2, Direction::SE),
        (2, Direction::S),
        (1, Direction::NE),
        (0, Direction::S),
    ];
    for (idx, d) in moves {
        w.apply_action(idx, Action::Move(d));
        // no two actors ever share a coordinate, and all stand on floor
        for i in 0..w.actor_count() {
            for j in 0..w.actor_count() {
                if i != j {
                    assert_ne!(w.actor_position(i), w.actor_position(j));
                }
            }
        }
    }
}

#[test]
fn cache_is_recomputed_exactly_when_position_changes() {
    let mut map = open_floor_map(4);
    map.set_tile(Coordinate::new(2, 0), wall_tile());
    let mut w = World::new(map);
    w.spawn(Role::NonPlayer, Coordinate::new(0, 0), 100, 3).unwrap();
    // a fresh viewshed is dirty: the cache must not be read
    assert!(w.cached_visible_tiles(0).is_none());
    w.refresh_viewshed(0);
    let before = w.cached_visible_tiles(0).unwrap().clone();
    assert!(before.contains(&Coordinate::new(2, 0)));
    assert!(!before.contains(&Coordinate::new(3, 0)));
    // refreshing a clean cache recomputes nothing and changes nothing
    w.refresh_viewshed(0);
    assert_eq!(w.cached_visible_tiles(0).unwrap(), &before);
    // moving dirties the cache, so the stale sets cannot be read
    assert_eq!(
        w.apply_action(0, Action::Move(Direction::N)),
        ActionOutcome::Moved(Coordinate::new(0, 1))
    );
    assert!(w.cached_visible_tiles(0).is_none());
    assert!(w.cached_visible_actors(0).is_none());
    // recomputation after the move yields the new position's view
    w.refresh_viewshed(0);
    let after = w.cached_visible_tiles(0).unwrap();
    assert_ne!(after, &before);
    assert!(after.contains(&Coordinate::new(0, 4)));
    assert!(!before.contains(&Coordinate::new(0, 4)));
}

#[test]
fn visible_actor_cache_tracks_other_actors() {
    let mut w = World::new(open_floor_map(4));
    let _a = w.spawn(Role::NonPlayer, Coordinate::new(0, 0), 100, 3).unwrap();
    let b = w.spawn(Role::Player, Coordinate::new(2, 0), 100, 3).unwrap();
    w.refresh_viewshed(0);
    let seen = w.cached_visible_actors(0).unwrap();
    assert_eq!(seen, &vec![b]);
}

#[test]
fn follow_resolves_to_distance_reducing_step() {
    let mut w = World::new(open_floor_map(4));
    let mover = w.spawn(Role::NonPlayer, Coordinate::new(0, 0), 100, 3).unwrap();
    let target = w.spawn(Role::Player, Coordinate::new(3, 0), 100, 3).unwrap();
    assert_eq!(mover, 0);
    assert_eq!(
        w.apply_action(0, Action::Follow(target)),
        ActionOutcome::Moved(Coordinate::new(1, 0))
    );
    // adjacent to the target: no step strictly reduces the distance
    w.apply_action(0, Action::Move(Direction::E));
    assert_eq!(w.actor_position(0), Coordinate::new(2, 0));
    assert_eq!(w.apply_action(0, Action::Follow(target)), ActionOutcome::Blocked);
    assert_eq!(w.actor_position(0), Coordinate::new(2, 0));
}

#[test]
fn attack_and_shout_resolve_targets_without_state_change() {
    let mut w = World::new(open_floor_map(3));
    let a = w.spawn(Role::NonPlayer, Coordinate::new(0, 0), 100, 3).unwrap();
    let b = w.spawn(Role::NonPlayer, Coordinate::new(1, 1), 100, 3).unwrap();
    assert_eq!(w.apply_action(0, Action::Attack(b)), ActionOutcome::Attacked(b));
    assert_eq!(w.apply_action(0, Action::Attack(77)), ActionOutcome::TargetGone);
    assert_eq!(w.apply_action(0, Action::Follow(77)), ActionOutcome::TargetGone);
    assert_eq!(w.apply_action(0, Action::Shout(a)), ActionOutcome::Shouted(a));
    assert_eq!(w.actor_position(0), Coordinate::new(0, 0));
    assert_eq!(w.actor_position(1), Coordinate::new(1, 1));
}

#[test]
fn run_tick_hands_player_turn_back() {
    let mut w = World::new(open_floor_map(3));
    w.spawn(Role::Player, Coordinate::new(0, 0), 100, 3).unwrap();
    let mut sched = TurnScheduler::new();
    assert_eq!(w.run_tick(&mut sched), TickOutcome::PlayerTurn(0));
}

#[test]
fn run_tick_follows_visible_player() {
    let mut w = World::new(open_floor_map(4));
    let player = w.spawn(Role::Player, Coordinate::new(2, 0), 50, 4).unwrap();
    let invader = w.spawn(Role::NonPlayer, Coordinate::new(0, 0), 100, 4).unwrap();
    let mut sched = TurnScheduler::new();
    // the invader reaches the threshold first and sees the player, so
    // whatever is drawn it must follow
    match w.run_tick(&mut sched) {
        TickOutcome::Acted(id, action, _) => {
            assert_eq!(id, invader);
            assert_eq!(action, Action::Follow(player));
        },
        other => panic!("expected the invader to act, got {:?}", other),
    }
}

#[test]
fn run_tick_idles_while_paused() {
    let mut w = World::new(open_floor_map(3));
    w.spawn(Role::NonPlayer, Coordinate::new(0, 0), 100, 3).unwrap();
    let mut sched = TurnScheduler::new();
    sched.pause();
    assert_eq!(w.run_tick(&mut sched), TickOutcome::Idle);
    assert_eq!(sched.tick, 0);
    assert_eq!(w.actor_position(0), Coordinate::new(0, 0));
}

#[test]
fn run_tick_simulation_preserves_occupancy() {
    let mut w = World::new(open_floor_map(5));
    w.spawn(Role::Player, Coordinate::new(0, 0), 100, 5).unwrap();
    w.spawn(Role::NonPlayer, Coordinate::new(-2, 2), 100, 5).unwrap();
    w.spawn(Role::NonPlayer, Coordinate::new(-1, -2), 100, 5).unwrap();
    w.spawn(Role::NonPlayer, Coordinate::new(3, 0), 100, 5).unwrap();
    let mut sched = TurnScheduler::new();
    for _ in 0..40 {
        w.run_tick(&mut sched);
        for i in 0..w.actor_count() {
            for j in 0..w.actor_count() {
                if i != j {
                    assert_ne!(w.actor_position(i), w.actor_position(j));
                }
            }
        }
    }
    assert_eq!(sched.tick, 40);
}
