//! Days of the week, times of day and the moment a scan pass is judged at.

use vstd::prelude::*;

verus! {

/// Number of seconds in one day; a time of day lies strictly below it.
pub const SECONDS_PER_DAY: u32 = 86400;

/// A day of the week, Monday first.
#[derive(Clone, Copy, PartialEq, Eq, Structural, Debug, Hash)]
pub enum Weekday {
    Mon,
    Tue,
    Wed,
    Thu,
    Fri,
    Sat,
    Sun,
}

impl Weekday {
    /// Position of the day in the week, counting from Monday = 0.
    pub open spec fn index(self) -> nat {
        match self {
            Weekday::Mon => 0,
            Weekday::Tue => 1,
            Weekday::Wed => 2,
            Weekday::Thu => 3,
            Weekday::Fri => 4,
            Weekday::Sat => 5,
            Weekday::Sun => 6,
        }
    }

    pub fn num_days_from_monday(&self) -> (r: u32)
        ensures
            r == self.index(),
            r < 7,
    {
        match self {
            Weekday::Mon => 0,
            Weekday::Tue => 1,
            Weekday::Wed => 2,
            Weekday::Thu => 3,
            Weekday::Fri => 4,
            Weekday::Sat => 5,
            Weekday::Sun => 6,
        }
    }

    /// The day at position `n` of the week (Monday = 0), if `n < 7`.
    pub fn from_days_from_monday(n: u32) -> (r: Option<Weekday>)
        ensures
            r.is_some() <==> n < 7,
            r matches Some(d) ==> d.index() == n,
    {
        match n {
            0 => Some(Weekday::Mon),
            1 => Some(Weekday::Tue),
            2 => Some(Weekday::Wed),
            3 => Some(Weekday::Thu),
            4 => Some(Weekday::Fri),
            5 => Some(Weekday::Sat),
            6 => Some(Weekday::Sun),
            _ => None,
        }
    }
}

/// A time of day with one-second resolution, as seconds past midnight.
#[derive(Clone, Copy, PartialEq, Eq, Structural, Debug, Hash)]
pub struct TimeOfDay {
    secs: u32,
}

impl View for TimeOfDay {
    type V = nat;

    /// Seconds past midnight.
    closed spec fn view(&self) -> nat {
        self.secs as nat
    }
}

/// Seconds past midnight of the time `h:m:s`.
pub open spec fn hms_seconds(h: nat, m: nat, s: nat) -> nat {
    3600 * h + 60 * m + s
}

impl TimeOfDay {
    #[verifier::type_invariant]
    spec fn inv(self) -> bool {
        self.secs < SECONDS_PER_DAY
    }

    /// The time `h:m:s`, if `h < 24`, `m < 60` and `s < 60`.
    pub fn from_hms_opt(h: u32, m: u32, s: u32) -> (r: Option<TimeOfDay>)
        ensures
            r.is_some() <==> (h < 24 && m < 60 && s < 60),
            r matches Some(t) ==> t@ == hms_seconds(h as nat, m as nat, s as nat),
    {
        if h < 24 && m < 60 && s < 60 {
            let t = TimeOfDay { secs: 3600 * h + 60 * m + s };
            proof {
                assert(t@ == hms_seconds(h as nat, m as nat, s as nat));
            }
            Some(t)
        } else {
            None
        }
    }

    /// The time `h:m:s`.
    pub fn from_hms(h: u32, m: u32, s: u32) -> (r: TimeOfDay)
        requires
            h < 24,
            m < 60,
            s < 60,
        ensures
            r@ == hms_seconds(h as nat, m as nat, s as nat),
    {
        TimeOfDay { secs: 3600 * h + 60 * m + s }
    }

    /// The time lying `secs` seconds past midnight, if that is within one day.
    pub fn from_num_seconds_from_midnight(secs: u32) -> (r: Option<TimeOfDay>)
        ensures
            r.is_some() <==> secs < SECONDS_PER_DAY,
            r matches Some(t) ==> t@ == secs,
    {
        if secs < SECONDS_PER_DAY {
            Some(TimeOfDay { secs })
        } else {
            None
        }
    }

    pub fn num_seconds_from_midnight(&self) -> (r: u32)
        ensures
            r == self@,
            r < SECONDS_PER_DAY,
    {
        proof {
            use_type_invariant(self);
        }
        self.secs
    }

    pub fn hour(&self) -> (r: u32)
        ensures
            r == self@ / 3600,
            r < 24,
    {
        proof {
            use_type_invariant(self);
        }
        self.secs / 3600
    }

    pub fn minute(&self) -> (r: u32)
        ensures
            r == (self@ % 3600) / 60,
            r < 60,
    {
        self.secs % 3600 / 60
    }

    pub fn second(&self) -> (r: u32)
        ensures
            r == self@ % 60,
            r < 60,
    {
        self.secs % 60
    }
}

/// A set of weekdays that holds at least one day.
#[derive(Clone, Copy, Debug, Hash)]
pub struct DaySet {
    days: [bool; 7],
}

impl View for DaySet {
    type V = Set<Weekday>;

    closed spec fn view(&self) -> Set<Weekday> {
        Set::new(|d: Weekday| self.days@[d.index() as int])
    }
}

impl DaySet {
    #[verifier::type_invariant]
    spec fn inv(self) -> bool {
        self.days@.contains(true)
    }

    /// The set that holds `d` alone.
    pub fn single(d: Weekday) -> (r: DaySet)
        ensures
            r@ == set![d],
    {
        let mut days: [bool; 7] = [false, false, false, false, false, false, false];
        let i = d.num_days_from_monday() as usize;
        days[i] = true;
        assert(0 <= i < 7 && days@[i as int]);
        assert(days@.contains(true));
        let r = DaySet { days };
        assert(r@ =~= set![d]) by {
            assert forall|e: Weekday| r@.contains(e) <==> e == d by {
                if e.index() == d.index() {
                    assert(e == d);
                }
            }
        }
        r
    }

    /// Adds `d` to the set.
    pub fn insert(&mut self, d: Weekday)
        ensures
            final(self)@ == old(self)@.insert(d),
    {
        proof {
            use_type_invariant(&*self);
        }
        let mut days = self.days;
        let i = d.num_days_from_monday() as usize;
        days[i] = true;
        assert(0 <= i < 7 && days@[i as int]);
        assert(days@.contains(true));
        *self = DaySet { days };
        assert(final(self)@ =~= old(self)@.insert(d)) by {
            assert forall|e: Weekday| final(self)@.contains(e) <==> old(self)@.insert(d).contains(e) by {
                if e.index() == d.index() {
                    assert(e == d);
                }
            }
        }
    }

    pub fn contains(&self, d: Weekday) -> (r: bool)
        ensures
            r == self@.contains(d),
    {
        let i = d.num_days_from_monday() as usize;
        self.days[i]
    }
}

/// The weekday and time of day at which processes are judged.
#[derive(Clone, Copy, PartialEq, Eq, Structural, Debug, Hash)]
pub struct Moment {
    pub weekday: Weekday,
    pub time: TimeOfDay,
}

impl Moment {
    pub fn new(weekday: Weekday, time: TimeOfDay) -> (r: Moment)
        ensures
            r.weekday == weekday,
            r.time == time,
    {
        Moment { weekday, time }
    }

    /// The moment on day `day` of the week (Monday = 0) at `secs` seconds past
    /// midnight, if both are in range.
    pub fn from_parts(day: u32, secs: u32) -> (r: Option<Moment>)
        ensures
            r.is_some() <==> (day < 7 && secs < SECONDS_PER_DAY),
            r matches Some(m) ==> m.weekday.index() == day && m.time@ == secs,
    {
        match Weekday::from_days_from_monday(day) {
            Some(weekday) => match TimeOfDay::from_num_seconds_from_midnight(secs) {
                Some(time) => Some(Moment { weekday, time }),
                None => None,
            },
            None => None,
        }
    }
}

}
