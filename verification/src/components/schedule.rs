use vstd::prelude::*;

verus! {

/// A time of day and the weekdays on which a task recurs.
///
/// `weekdays[0]` is Monday and `weekdays[6]` is Sunday. A schedule with no
/// weekday flagged fires once; one with any weekday flagged recurs on the
/// flagged days.
#[derive(Copy, Clone, PartialEq, Eq, Debug)]
pub struct Schedule {
    pub hour: i8,
    pub min: i8,
    pub sec: i8,
    pub weekdays: [bool; 7],
}

impl Schedule {
    /// The fields name a time of day: `hour` in 0..=23, `min` and `sec` in
    /// 0..=59.
    pub open spec fn valid(self) -> bool {
        &&& 0 <= self.hour <= 23
        &&& 0 <= self.min <= 59
        &&& 0 <= self.sec <= 59
    }

    /// Whether the fields name a time of day.
    pub fn is_valid(&self) -> (b: bool)
        ensures
            b == self.valid(),
    {
        0 <= self.hour && self.hour <= 23 && 0 <= self.min && self.min <= 59 && 0 <= self.sec
            && self.sec <= 59
    }
}

impl Default for Schedule {
    fn default() -> (s: Schedule)
        ensures
            s.hour == 0,
            s.min == 0,
            s.sec == 0,
            forall|i: int| 0 <= i < 7 ==> !s.weekdays[i],
    {
        Schedule { hour: 0, min: 0, sec: 0, weekdays: [false; 7] }
    }
}

} // verus!
