//! How precisely a point in time is written into a date path.

use vstd::prelude::*;

verus! {

/// The finest unit that a date path spells out.
#[derive(Clone, PartialEq, Eq, PartialOrd, Ord, Debug)]
pub enum Accuracy {
    Year,
    Month,
    Day,
    Hour,
    Minute,
    Second,
}

impl Accuracy {
    /// The position of this accuracy on the scale from year (0) to second (5).
    pub open spec fn rank(&self) -> nat {
        match self {
            Accuracy::Year => 0,
            Accuracy::Month => 1,
            Accuracy::Day => 2,
            Accuracy::Hour => 3,
            Accuracy::Minute => 4,
            Accuracy::Second => 5,
        }
    }

    /// Every accuracy includes the year.
    pub fn has_year_accuracy(&self) -> (r: bool)
        ensures
            r == (self.rank() >= 0),
            r,
    {
        true
    }

    /// Whether the month is spelled out.
    pub fn has_month_accuracy(&self) -> (r: bool)
        ensures
            r == (self.rank() >= 1),
    {
        match self {
            Accuracy::Year => false,
            _ => true,
        }
    }

    /// Whether the day is spelled out.
    pub fn has_day_accuracy(&self) -> (r: bool)
        ensures
            r == (self.rank() >= 2),
    {
        match self {
            Accuracy::Year | Accuracy::Month => false,
            _ => true,
        }
    }

    /// Whether the hour is spelled out.
    pub fn has_hour_accuracy(&self) -> (r: bool)
        ensures
            r == (self.rank() >= 3),
    {
        match self {
            Accuracy::Hour | Accuracy::Minute | Accuracy::Second => true,
            _ => false,
        }
    }

    /// Whether the minute is spelled out.
    pub fn has_minute_accuracy(&self) -> (r: bool)
        ensures
            r == (self.rank() >= 4),
    {
        match self {
            Accuracy::Minute | Accuracy::Second => true,
            _ => false,
        }
    }

    /// Whether the second is spelled out.
    pub fn has_second_accuracy(&self) -> (r: bool)
        ensures
            r == (self.rank() >= 5),
    {
        match self {
            Accuracy::Second => true,
            _ => false,
        }
    }
}

impl Default for Accuracy {
    /// The default is the finest accuracy.
    fn default() -> (r: Accuracy)
        ensures
            r == Accuracy::Second,
    {
        Accuracy::Second
    }
}

} // verus!
