use vstd::prelude::*;
use vstd::std_specs::cmp::PartialEqSpec;

verus! {

/// A value together with the instant (microseconds since start) at which it last changed.
#[derive(Clone, Copy, Debug, Default)]
pub struct TimeStamped<T> {
    pub timestamp: u64,
    pub value: T,
}

impl<T: PartialEq> TimeStamped<T> {
    /// Records `new_value`; the timestamp moves to `timestamp` only when the value changes.
    pub fn update(&mut self, timestamp: u64, new_value: T)
        requires
            T::obeys_eq_spec(),
        ensures
            if old(self).value.eq_spec(&new_value) {
                *final(self) == *old(self)
            } else {
                final(self).value == new_value && final(self).timestamp == timestamp
            },
    {
        if self.value != new_value {
            self.value = new_value;
            self.timestamp = timestamp;
        }
    }
}

/// Content given either inline or by the path of a file that holds it.
#[derive(Clone, Debug, PartialEq)]
pub enum Embeddable<T> {
    Embedded(T),
    File(String),
}

} // verus!
