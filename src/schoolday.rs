use vstd::prelude::*;

verus! {

/// The weekdays on which a substitution document is published.
#[derive(Debug, Clone, Copy, PartialEq, Eq, Structural, Hash, PartialOrd, Ord)]
pub enum Schoolday {
    Monday,
    Tuesday,
    Wednesday,
    Thursday,
    Friday,
}

/// Position of a school day in the week, Monday being 0.
pub open spec fn day_index(d: Schoolday) -> nat {
    match d {
        Schoolday::Monday => 0,
        Schoolday::Tuesday => 1,
        Schoolday::Wednesday => 2,
        Schoolday::Thursday => 3,
        Schoolday::Friday => 4,
    }
}

/// The school day at a position of the week, Monday being 0.
pub open spec fn day_at(i: nat) -> Schoolday
    recommends
        i < 5,
{
    if i == 0 {
        Schoolday::Monday
    } else if i == 1 {
        Schoolday::Tuesday
    } else if i == 2 {
        Schoolday::Wednesday
    } else if i == 3 {
        Schoolday::Thursday
    } else {
        Schoolday::Friday
    }
}

/// The school day that follows `d`, Friday wrapping round to Monday.
pub open spec fn next_spec(d: Schoolday) -> Schoolday {
    day_at((day_index(d) + 1) % 5)
}

/// The school day whose document is relevant on a calendar weekday given as
/// days since Monday: weekdays map to themselves, Saturday and Sunday to Monday.
pub open spec fn relevant_spec(days_from_monday: nat) -> Schoolday {
    if days_from_monday < 5 {
        day_at(days_from_monday)
    } else {
        Schoolday::Monday
    }
}

impl Schoolday {
    /// The following school day; Friday is followed by Monday.
    pub fn next_day(self) -> (r: Self)
        ensures
            r == next_spec(self),
    {
        match self {
            Schoolday::Monday => Schoolday::Tuesday,
            Schoolday::Tuesday => Schoolday::Wednesday,
            Schoolday::Wednesday => Schoolday::Thursday,
            Schoolday::Thursday => Schoolday::Friday,
            Schoolday::Friday => Schoolday::Monday,
        }
    }

    /// Position of the day in the week, Monday being 0.
    pub fn index(self) -> (r: usize)
        ensures
            r == day_index(self),
            r < 5,
    {
        match self {
            Schoolday::Monday => 0,
            Schoolday::Tuesday => 1,
            Schoolday::Wednesday => 2,
            Schoolday::Thursday => 3,
            Schoolday::Friday => 4,
        }
    }

    /// The school day that is current on a calendar weekday, given as days
    /// since Monday (0 to 6); Saturday and Sunday map to Monday.
    pub fn from_weekday(days_from_monday: u32) -> (r: Self)
        requires
            days_from_monday < 7,
        ensures
            r == relevant_spec(days_from_monday as nat),
    {
        match days_from_monday {
            1 => Schoolday::Tuesday,
            2 => Schoolday::Wednesday,
            3 => Schoolday::Thursday,
            4 => Schoolday::Friday,
            _ => Schoolday::Monday,
        }
    }

    /// The two school days whose documents are refreshed on a calendar weekday
    /// (days since Monday): the current one and the one after it.
    pub fn refresh_targets(days_from_monday: u32) -> (r: (Self, Self))
        requires
            days_from_monday < 7,
        ensures
            r.0 == relevant_spec(days_from_monday as nat),
            r.1 == next_spec(r.0),
    {
        let today = Schoolday::from_weekday(days_from_monday);
        (today, today.next_day())
    }

    /// The English name of the day.
    pub fn name(self) -> (r: &'static str)
        ensures
            r@ == day_name(self),
    {
        match self {
            Schoolday::Monday => "Monday",
            Schoolday::Tuesday => "Tuesday",
            Schoolday::Wednesday => "Wednesday",
            Schoolday::Thursday => "Thursday",
            Schoolday::Friday => "Friday",
        }
    }
}

/// The English name of a school day.
pub open spec fn day_name(d: Schoolday) -> Seq<char> {
    match d {
        Schoolday::Monday => "Monday"@,
        Schoolday::Tuesday => "Tuesday"@,
        Schoolday::Wednesday => "Wednesday"@,
        Schoolday::Thursday => "Thursday"@,
        Schoolday::Friday => "Friday"@,
    }
}

/// Taking the next school day five times comes back to the day one started from.
pub proof fn lemma_next_five_cycle(d: Schoolday)
    ensures
        next_spec(next_spec(next_spec(next_spec(next_spec(d))))) == d,
{
}

} // verus!
