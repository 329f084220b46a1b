use tilegrid::action::{Buttons, Dir, LocalActions, MoveTimer, INPUT_DELAY_MICROS, MICROS_TO_RUN, MICROS_TO_WALK};
use tilegrid::arbiter::{apply_approval, arbitrate, insert_request, MoveApproval, MoveRequest, TurnCount};
use tilegrid::level::{EntityId, Grid, Pos, PosState};
use tilegrid::types::TimeStamped;

fn held(timestamp: u64) -> TimeStamped<bool> {
    TimeStamped { timestamp, value: true }
}

fn released(timestamp: u64) -> TimeStamped<bool> {
    TimeStamped { timestamp, value: false }
}

fn actions(north: TimeStamped<bool>, south: TimeStamped<bool>, east: TimeStamped<bool>, west: TimeStamped<bool>) -> LocalActions {
    LocalActions { north, south, east, west, ..LocalActions::default() }
}

const LATER: u64 = 1_000_000;

#[test]
fn opposite_keys_pressed_together_cancel() {
    let a = actions(held(500), held(500), released(0), released(0));
    assert_eq!(a.dir(LATER), None);
    let a = actions(released(0), released(0), held(700), held(700));
    assert_eq!(a.dir(LATER), None);
    // the north/south tie leaves the east/west axis alone
    let a = actions(held(500), held(500), held(300), released(0));
    assert_eq!(a.dir(LATER), Some(Dir::East));
}

#[test]
fn later_key_wins_on_an_axis() {
    let a = actions(held(500), held(600), released(0), released(0));
    assert_eq!(a.dir(LATER), Some(Dir::South));
    let a = actions(held(600), held(500), released(0), released(0));
    assert_eq!(a.dir(LATER), Some(Dir::North));
    let a = actions(released(0), released(0), held(10), held(20));
    assert_eq!(a.dir(LATER), Some(Dir::West));
}

#[test]
fn two_axes_combine_into_diagonals() {
    let cases = [
        (true, false, true, false, Dir::Northeast),
        (false, true, true, false, Dir::Southeast),
        (false, true, false, true, Dir::Southwest),
        (true, false, false, true, Dir::Northwest),
    ];
    for (n, s, e, w, expected) in cases {
        let flag = |v: bool| TimeStamped { timestamp: 10, value: v };
        let a = actions(flag(n), flag(s), flag(e), flag(w));
        assert_eq!(a.dir(LATER), Some(expected));
    }
    assert_eq!(LocalActions::default().dir(LATER), None);
}

#[test]
fn debounce_window_keeps_axis_neutral() {
    let now = 1_000_000;
    // both flags of the axis changed within the window
    let a = actions(held(now - 10), released(now - 20), released(0), released(0));
    assert_eq!(a.dir(now), None);
    // one flag changed long ago: the window is over
    let a = actions(held(now - 10), released(0), released(0), released(0));
    assert_eq!(a.dir(now), Some(Dir::North));
    // right at the edge of the window
    let a = actions(held(now - INPUT_DELAY_MICROS), released(now - 1), released(0), released(0));
    assert_eq!(a.dir(now), Some(Dir::North));
    let a = actions(held(now - INPUT_DELAY_MICROS + 1), released(now - 1), released(0), released(0));
    assert_eq!(a.dir(now), None);
}

#[test]
fn steps_from_origin() {
    let o = Pos { x: 0, y: 0, z: 0 };
    let expected = [
        (Dir::North, 0, -1),
        (Dir::Northeast, 1, -1),
        (Dir::East, 1, 0),
        (Dir::Southeast, 1, 1),
        (Dir::South, 0, 1),
        (Dir::Southwest, -1, 1),
        (Dir::West, -1, 0),
        (Dir::Northwest, -1, -1),
    ];
    for (d, dx, dy) in expected {
        assert_eq!(o.step(d), Pos { x: dx, y: dy, z: 0 });
    }
    assert_eq!(Pos { x: 3, y: 7, z: 2 }.step(Dir::Northeast), Pos { x: 4, y: 6, z: 2 });
}

#[test]
fn timestamped_update_moves_timestamp_only_on_change() {
    let mut f = TimeStamped { timestamp: 5, value: false };
    f.update(9, false);
    assert_eq!((f.timestamp, f.value), (5, false));
    f.update(12, true);
    assert_eq!((f.timestamp, f.value), (12, true));
    f.update(20, true);
    assert_eq!((f.timestamp, f.value), (12, true));
}

#[test]
fn move_timer_finishes_and_resets() {
    let mut t = MoveTimer::from_micros(100);
    t.tick(60);
    assert!(!t.finished());
    assert_eq!(t.elapsed, 60);
    t.tick(60);
    assert!(t.finished());
    assert_eq!(t.elapsed, 100);
    t.tick(u64::MAX);
    assert!(t.finished());
    t.reset();
    assert!(!t.finished());
    assert_eq!(t.elapsed, 0);
    t.set_duration(30);
    t.tick(u64::MAX);
    assert!(t.finished());
    assert_eq!(t.elapsed, 30);
}

#[test]
fn update_waits_for_cooldown_and_switches_to_run() {
    let mut a = LocalActions::default();
    let north = Buttons { north: true, ..Buttons::default() };
    // the key goes down at 1 s: the cooldown has not elapsed yet
    assert_eq!(a.update(1_000_000, 16_000, &north), None);
    assert_eq!(a.move_timer.duration, MICROS_TO_WALK);
    assert_eq!(a.north.timestamp, 1_000_000);
    // after a full walking cooldown the move is attempted
    assert_eq!(a.update(1_200_000, MICROS_TO_WALK, &north), Some(Dir::North));
    let run = Buttons { north: true, run: true, ..Buttons::default() };
    a.move_timer.reset();
    assert_eq!(a.update(1_300_000, MICROS_TO_RUN, &run), Some(Dir::North));
    assert_eq!(a.move_timer.duration, MICROS_TO_RUN);
    assert_eq!(a.north.timestamp, 1_000_000);
}

#[test]
fn grid_get_is_total() {
    let mut g = Grid::new(3, 2, 2);
    g.set(&Pos { x: 2, y: 1, z: 1 }, PosState::Solid);
    assert_eq!(g.get(&Pos { x: 2, y: 1, z: 1 }), PosState::Solid);
    assert_eq!(g.get(&Pos { x: 0, y: 0, z: 0 }), PosState::Empty);
    for p in [
        Pos { x: -1, y: 0, z: 0 },
        Pos { x: 0, y: -1, z: 0 },
        Pos { x: 0, y: 0, z: -1 },
        Pos { x: 3, y: 0, z: 0 },
        Pos { x: 0, y: 2, z: 0 },
        Pos { x: 0, y: 0, z: 2 },
        Pos { x: i32::MAX, y: i32::MIN, z: i32::MAX },
    ] {
        assert_eq!(g.get(&p), PosState::Empty);
    }
}

#[test]
fn grid_set_outside_is_dropped() {
    let mut g = Grid::new(2, 2, 1);
    g.set(&Pos { x: -1, y: 0, z: 0 }, PosState::Solid);
    g.set(&Pos { x: 2, y: 0, z: 0 }, PosState::Solid);
    g.set(&Pos { x: 0, y: 0, z: 1 }, PosState::Solid);
    assert_eq!(g.0, vec![vec![vec![PosState::Empty; 2]; 2]]);
    g.set(&Pos { x: 1, y: 0, z: 0 }, PosState::Damaging(7));
    assert_eq!(g.0[0][0][1], PosState::Damaging(7));
}

#[test]
fn blocking_states() {
    assert!(!PosState::Empty.is_blocking());
    assert!(!PosState::Damaging(1.5f32.to_bits()).is_blocking());
    assert!(PosState::Solid.is_blocking());
    assert!(PosState::Floorless.is_blocking());
    assert!(PosState::Entity(EntityId(4)).is_blocking());
    assert_eq!(PosState::default(), PosState::Empty);
}

fn one_request(target_state: PosState) -> (Grid, Vec<MoveApproval>, TurnCount) {
    let level = EntityId(100);
    let e = EntityId(1);
    let mut g = Grid::new(3, 3, 1);
    g.set(&Pos { x: 0, y: 0, z: 0 }, PosState::Entity(e));
    g.set(&Pos { x: 1, y: 0, z: 0 }, target_state);
    let reqs = vec![MoveRequest { entity: e, level, from: Pos { x: 0, y: 0, z: 0 }, dir: Dir::East }];
    let mut turn = TurnCount(7);
    let approvals = arbitrate(level, &mut g, &reqs, &mut turn);
    (g, approvals, turn)
}

#[test]
fn move_into_solid_is_rejected() {
    let (g, approvals, turn) = one_request(PosState::Solid);
    assert!(approvals.is_empty());
    assert_eq!(turn, TurnCount(7));
    assert_eq!(g.get(&Pos { x: 0, y: 0, z: 0 }), PosState::Entity(EntityId(1)));
    assert_eq!(g.get(&Pos { x: 1, y: 0, z: 0 }), PosState::Solid);
    let mut pos = Pos { x: 0, y: 0, z: 0 };
    let mut a = LocalActions::default();
    a.move_timer.tick(u64::MAX);
    assert!(!apply_approval(&approvals, EntityId(1), &mut pos, &mut a));
    assert_eq!(pos, Pos { x: 0, y: 0, z: 0 });
    assert!(a.move_timer.finished());
}

#[test]
fn move_into_empty_is_approved() {
    let (g, approvals, turn) = one_request(PosState::Empty);
    assert_eq!(approvals, vec![MoveApproval { entity: EntityId(1), target: Pos { x: 1, y: 0, z: 0 } }]);
    assert_eq!(turn, TurnCount(8));
    assert_eq!(g.get(&Pos { x: 0, y: 0, z: 0 }), PosState::Empty);
    assert_eq!(g.get(&Pos { x: 1, y: 0, z: 0 }), PosState::Entity(EntityId(1)));
    let mut pos = Pos { x: 0, y: 0, z: 0 };
    let mut a = LocalActions::default();
    a.move_timer.tick(u64::MAX);
    assert!(apply_approval(&approvals, EntityId(1), &mut pos, &mut a));
    assert_eq!(pos, Pos { x: 1, y: 0, z: 0 });
    assert!(!a.move_timer.finished());
    assert_eq!(a.move_timer.elapsed, 0);
}

#[test]
fn move_into_hazard_is_approved() {
    let (_, approvals, turn) = one_request(PosState::Damaging(2.0f32.to_bits()));
    assert_eq!(approvals.len(), 1);
    assert_eq!(turn, TurnCount(8));
}

#[test]
fn same_target_first_entity_wins() {
    let level = EntityId(9);
    let (a, b) = (EntityId(3), EntityId(5));
    let mut g = Grid::new(3, 3, 1);
    g.set(&Pos { x: 0, y: 1, z: 0 }, PosState::Entity(a));
    g.set(&Pos { x: 2, y: 1, z: 0 }, PosState::Entity(b));
    let mut reqs = Vec::new();
    // collected in any order, resolved in ascending entity order
    insert_request(&mut reqs, MoveRequest { entity: b, level, from: Pos { x: 2, y: 1, z: 0 }, dir: Dir::West });
    insert_request(&mut reqs, MoveRequest { entity: a, level, from: Pos { x: 0, y: 1, z: 0 }, dir: Dir::East });
    assert_eq!(reqs[0].entity, a);
    let mut turn = TurnCount(0);
    let approvals = arbitrate(level, &mut g, &reqs, &mut turn);
    assert_eq!(approvals, vec![MoveApproval { entity: a, target: Pos { x: 1, y: 1, z: 0 } }]);
    assert_eq!(turn, TurnCount(1));
    assert_eq!(g.get(&Pos { x: 1, y: 1, z: 0 }), PosState::Entity(a));
    assert_eq!(g.get(&Pos { x: 2, y: 1, z: 0 }), PosState::Entity(b));
    let mut pos_b = Pos { x: 2, y: 1, z: 0 };
    let mut actions_b = LocalActions::default();
    actions_b.move_timer.tick(u64::MAX);
    assert!(!apply_approval(&approvals, b, &mut pos_b, &mut actions_b));
    assert_eq!(pos_b, Pos { x: 2, y: 1, z: 0 });
    assert!(actions_b.move_timer.finished());
}

#[test]
fn no_eligible_requests_keep_turn() {
    let mut g = Grid::new(2, 2, 1);
    let mut turn = TurnCount(4);
    assert!(arbitrate(EntityId(1), &mut g, &Vec::new(), &mut turn).is_empty());
    assert_eq!(turn, TurnCount(4));
    // a request of another level is not eligible on this grid
    let reqs = vec![MoveRequest { entity: EntityId(2), level: EntityId(8), from: Pos { x: 0, y: 0, z: 0 }, dir: Dir::South }];
    assert!(arbitrate(EntityId(1), &mut g, &reqs, &mut turn).is_empty());
    assert_eq!(turn, TurnCount(4));
    assert_eq!(g.get(&Pos { x: 0, y: 1, z: 0 }), PosState::Empty);
}

#[test]
fn insert_request_keeps_entity_order() {
    let level = EntityId(0);
    let r = |e: u64| MoveRequest { entity: EntityId(e), level, from: Pos::default(), dir: Dir::North };
    let mut reqs = Vec::new();
    for e in [5, 1, 9, 3, 5, 0] {
        insert_request(&mut reqs, r(e));
    }
    let ids: Vec<u64> = reqs.iter().map(|q| q.entity.0).collect();
    assert_eq!(ids, vec![0, 1, 3, 5, 5, 9]);
}

#[test]
fn walking_off_the_grid_is_not_blocked() {
    let level = EntityId(1);
    let mut g = Grid::new(1, 1, 1);
    g.set(&Pos { x: 0, y: 0, z: 0 }, PosState::Entity(EntityId(2)));
    let reqs = vec![MoveRequest { entity: EntityId(2), level, from: Pos { x: 0, y: 0, z: 0 }, dir: Dir::West }];
    let mut turn = TurnCount(0);
    let approvals = arbitrate(level, &mut g, &reqs, &mut turn);
    assert_eq!(approvals[0].target, Pos { x: -1, y: 0, z: 0 });
    assert_eq!(g.get(&Pos { x: 0, y: 0, z: 0 }), PosState::Empty);
    assert_eq!(turn, TurnCount(1));
}
