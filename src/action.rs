use vstd::prelude::*;

use crate::types::TimeStamped;

verus! {

/// Cooldown between two moves while walking, in microseconds.
pub const MICROS_TO_WALK: u64 = 200_000;

/// Cooldown between two moves while running, in microseconds.
pub const MICROS_TO_RUN: u64 = 100_000;

/// Debounce window (five frames at 60 Hz): while both keys of an axis changed within it,
/// the axis stays neutral, so that a key pressed slightly later can still join a diagonal.
pub const INPUT_DELAY_MICROS: u64 = 83_333;

/// Axis encoding: north/south contribute `±1`, east/west `±4`, so every sum of one
/// component per axis names one compass direction.
pub const IDX_NORTH: i32 = 1;
pub const IDX_NORTHEAST: i32 = 5;
pub const IDX_EAST: i32 = 4;
pub const IDX_SOUTHEAST: i32 = 3;
pub const IDX_SOUTH: i32 = -1;
pub const IDX_SOUTHWEST: i32 = -5;
pub const IDX_WEST: i32 = -4;
pub const IDX_NORTHWEST: i32 = -3;
pub const IDX_NONE: i32 = 0;

/// One of the eight compass directions.
#[derive(Clone, Copy, Debug, PartialEq, Eq, Structural)]
pub enum Dir {
    North,
    Northeast,
    East,
    Southeast,
    South,
    Southwest,
    West,
    Northwest,
}

/// The step a direction makes, as `(dx, dy)`; `y` grows to the south.
pub open spec fn dir_delta(d: Dir) -> (int, int) {
    match d {
        Dir::North => (0, -1),
        Dir::Northeast => (1, -1),
        Dir::East => (1, 0),
        Dir::Southeast => (1, 1),
        Dir::South => (0, 1),
        Dir::Southwest => (-1, 1),
        Dir::West => (-1, 0),
        Dir::Northwest => (-1, -1),
    }
}

/// The direction that an axis sum names, if any.
pub open spec fn dir_of_index(idx: int) -> Option<Dir> {
    if idx == IDX_NORTH {
        Some(Dir::North)
    } else if idx == IDX_NORTHEAST {
        Some(Dir::Northeast)
    } else if idx == IDX_EAST {
        Some(Dir::East)
    } else if idx == IDX_SOUTHEAST {
        Some(Dir::Southeast)
    } else if idx == IDX_SOUTH {
        Some(Dir::South)
    } else if idx == IDX_SOUTHWEST {
        Some(Dir::Southwest)
    } else if idx == IDX_WEST {
        Some(Dir::West)
    } else if idx == IDX_NORTHWEST {
        Some(Dir::Northwest)
    } else {
        None
    }
}

/// Has `flag` changed within the debounce window that ends at `now`?
pub open spec fn recently_changed(flag: TimeStamped<bool>, now: u64) -> bool {
    flag.timestamp + INPUT_DELAY_MICROS > now
}

/// One axis: neutral while both keys changed recently; otherwise the pressed key, and of
/// two pressed keys the one that changed last (neutral on a tie).
pub open spec fn axis_component(
    res_a: int,
    res_b: int,
    a: TimeStamped<bool>,
    b: TimeStamped<bool>,
    now: u64,
) -> int {
    if recently_changed(a, now) && recently_changed(b, now) {
        0
    } else if a.value && b.value {
        if a.timestamp > b.timestamp {
            res_a
        } else if a.timestamp < b.timestamp {
            res_b
        } else {
            0
        }
    } else if a.value {
        res_a
    } else if b.value {
        res_b
    } else {
        0
    }
}

fn index_component(
    res_a: i32,
    res_b: i32,
    a: &TimeStamped<bool>,
    b: &TimeStamped<bool>,
    now: u64,
) -> (r: i32)
    ensures
        r == axis_component(res_a as int, res_b as int, *a, *b, now),
{
    let a_recent = a.timestamp as u128 + INPUT_DELAY_MICROS as u128 > now as u128;
    let b_recent = b.timestamp as u128 + INPUT_DELAY_MICROS as u128 > now as u128;
    if a_recent && b_recent {
        IDX_NONE
    } else if a.value && b.value {
        if a.timestamp > b.timestamp {
            res_a
        } else if a.timestamp < b.timestamp {
            res_b
        } else {
            IDX_NONE
        }
    } else if a.value {
        res_a
    } else if b.value {
        res_b
    } else {
        IDX_NONE
    }
}

fn index_to_direction(idx: i32) -> (r: Option<Dir>)
    ensures
        r == dir_of_index(idx as int),
{
    match idx {
        IDX_NORTH => Some(Dir::North),
        IDX_NORTHEAST => Some(Dir::Northeast),
        IDX_EAST => Some(Dir::East),
        IDX_SOUTHEAST => Some(Dir::Southeast),
        IDX_SOUTH => Some(Dir::South),
        IDX_SOUTHWEST => Some(Dir::Southwest),
        IDX_WEST => Some(Dir::West),
        IDX_NORTHWEST => Some(Dir::Northwest),
        _ => None,
    }
}

/// Two keys of one axis that are both held and changed at the same instant cancel out:
/// the axis is neutral.
pub proof fn lemma_simultaneous_keys_cancel(
    res_a: int,
    res_b: int,
    a: TimeStamped<bool>,
    b: TimeStamped<bool>,
    now: u64,
)
    requires
        a.value && b.value,
        a.timestamp == b.timestamp,
    ensures
        axis_component(res_a, res_b, a, b, now) == 0,
{
}

/// Every direction that the axis encoding can produce moves as the axes say: a
/// north/south component `c1` and an east/west component `c2` give a direction exactly
/// when one of them is non-neutral, and that direction steps by `(c2 / 4, -c1)`.
pub proof fn lemma_encoding_matches_step(c1: int, c2: int)
    requires
        c1 == IDX_NORTH || c1 == IDX_SOUTH || c1 == IDX_NONE,
        c2 == IDX_EAST || c2 == IDX_WEST || c2 == IDX_NONE,
    ensures
        dir_of_index(c1 + c2) is Some <==> (c1 != 0 || c2 != 0),
        dir_of_index(c1 + c2) matches Some(d) ==> dir_delta(d) == (c2 / 4, -c1),
{
}

/// A one-shot cooldown: once `elapsed` reaches `duration` it stays finished until reset.
#[derive(Clone, Copy, Debug)]
pub struct MoveTimer {
    pub duration: u64,
    pub elapsed: u64,
    pub finished: bool,
}

impl MoveTimer {
    pub open spec fn ticked(self, delta: u64) -> MoveTimer {
        if self.finished {
            self
        } else if self.elapsed + delta >= self.duration {
            MoveTimer { elapsed: self.duration, finished: true, ..self }
        } else {
            MoveTimer { elapsed: (self.elapsed + delta) as u64, ..self }
        }
    }

    pub open spec fn from_micros_spec(duration: u64) -> MoveTimer {
        MoveTimer { duration, elapsed: 0, finished: false }
    }

    /// A fresh timer of the given length.
    pub fn from_micros(duration: u64) -> (t: MoveTimer)
        ensures
            t == MoveTimer::from_micros_spec(duration),
    {
        MoveTimer { duration, elapsed: 0, finished: false }
    }

    /// Changes the length; time already elapsed is kept.
    pub fn set_duration(&mut self, duration: u64)
        ensures
            *final(self) == (MoveTimer { duration, ..*old(self) }),
    {
        self.duration = duration;
    }

    /// Advances the timer by `delta` microseconds.
    pub fn tick(&mut self, delta: u64)
        ensures
            *final(self) == old(self).ticked(delta),
    {
        if !self.finished {
            if self.elapsed >= self.duration || delta >= self.duration - self.elapsed {
                self.elapsed = self.duration;
                self.finished = true;
            } else {
                self.elapsed = self.elapsed + delta;
            }
        }
    }

    pub fn finished(&self) -> (r: bool)
        ensures
            r == self.finished,
    {
        self.finished
    }

    /// Starts the cooldown over.
    pub fn reset(&mut self)
        ensures
            *final(self) == (MoveTimer { elapsed: 0, finished: false, ..*old(self) }),
    {
        self.elapsed = 0;
        self.finished = false;
    }
}

/// Which of the logical buttons are held down in this tick.
#[derive(Clone, Copy, Debug, Default)]
pub struct Buttons {
    pub north: bool,
    pub south: bool,
    pub east: bool,
    pub west: bool,
    pub run: bool,
}

/// Per-entity input state: one timestamped flag per button and the move cooldown.
#[derive(Clone, Copy, Debug)]
pub struct LocalActions {
    pub north: TimeStamped<bool>,
    pub south: TimeStamped<bool>,
    pub east: TimeStamped<bool>,
    pub west: TimeStamped<bool>,
    pub run: TimeStamped<bool>,
    pub interact: TimeStamped<bool>,
    pub move_timer: MoveTimer,
}

pub open spec fn released() -> TimeStamped<bool> {
    TimeStamped { timestamp: 0, value: false }
}

pub open spec fn flag_after(flag: TimeStamped<bool>, now: u64, pressed: bool) -> TimeStamped<bool> {
    if flag.value == pressed {
        flag
    } else {
        TimeStamped { timestamp: now, value: pressed }
    }
}

impl LocalActions {
    pub open spec fn spec_dir(self, now: u64) -> Option<Dir> {
        dir_of_index(
            axis_component(IDX_NORTH as int, IDX_SOUTH as int, self.north, self.south, now)
                + axis_component(IDX_EAST as int, IDX_WEST as int, self.east, self.west, now),
        )
    }

    /// The state after the buttons of one tick: flags updated at `now`, the cooldown set
    /// to the run or walk length and advanced by `delta`.
    pub open spec fn after_input(self, now: u64, delta: u64, pressed: Buttons) -> LocalActions {
        let run = flag_after(self.run, now, pressed.run);
        let length = if run.value { MICROS_TO_RUN } else { MICROS_TO_WALK };
        LocalActions {
            north: flag_after(self.north, now, pressed.north),
            south: flag_after(self.south, now, pressed.south),
            east: flag_after(self.east, now, pressed.east),
            west: flag_after(self.west, now, pressed.west),
            run,
            interact: self.interact,
            move_timer: MoveTimer { duration: length, ..self.move_timer }.ticked(delta),
        }
    }

    /// No button held, and a walking cooldown that has not started.
    pub fn new() -> (r: LocalActions)
        ensures
            r.north == released() && r.south == released(),
            r.east == released() && r.west == released(),
            r.run == released() && r.interact == released(),
            r.move_timer == MoveTimer::from_micros_spec(MICROS_TO_WALK),
    {
        LocalActions {
            north: TimeStamped { timestamp: 0, value: false },
            south: TimeStamped { timestamp: 0, value: false },
            east: TimeStamped { timestamp: 0, value: false },
            west: TimeStamped { timestamp: 0, value: false },
            run: TimeStamped { timestamp: 0, value: false },
            interact: TimeStamped { timestamp: 0, value: false },
            move_timer: MoveTimer::from_micros(MICROS_TO_WALK),
        }
    }

    /// The direction the held keys ask for at instant `now`, combining the north/south
    /// and east/west axes.
    pub fn dir(&self, now: u64) -> (r: Option<Dir>)
        ensures
            r == self.spec_dir(now),
    {
        let ns = index_component(IDX_NORTH, IDX_SOUTH, &self.north, &self.south, now);
        let ew = index_component(IDX_EAST, IDX_WEST, &self.east, &self.west, now);
        index_to_direction(ns + ew)
    }

    /// Takes the buttons of one tick at instant `now`, `delta` microseconds after the
    /// previous one. Returns the direction to attempt, only once the cooldown is over.
    pub fn update(&mut self, now: u64, delta: u64, pressed: &Buttons) -> (r: Option<Dir>)
        ensures
            *final(self) == old(self).after_input(now, delta, *pressed),
            r == (if final(self).move_timer.finished { final(self).spec_dir(now) } else { None }),
    {
        self.north.update(now, pressed.north);
        self.south.update(now, pressed.south);
        self.east.update(now, pressed.east);
        self.west.update(now, pressed.west);
        self.run.update(now, pressed.run);
        if self.run.value {
            self.move_timer.set_duration(MICROS_TO_RUN);
        } else {
            self.move_timer.set_duration(MICROS_TO_WALK);
        }
        self.move_timer.tick(delta);
        match self.dir(now) {
            Some(d) => {
                if self.move_timer.finished() {
                    Some(d)
                } else {
                    None
                }
            },
            None => None,
        }
    }
}

impl Default for LocalActions {
    fn default() -> (r: LocalActions)
        ensures
            r.north == released() && r.south == released(),
            r.east == released() && r.west == released(),
            r.run == released() && r.interact == released(),
            r.move_timer == MoveTimer::from_micros_spec(MICROS_TO_WALK),
    {
        LocalActions::new()
    }
}

} // verus!
