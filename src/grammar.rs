//! The rule grammar and its parser.
//!
//! ```text
//! rule      := process_name "=" period ("|" period)*
//! period    := time_spec ";" days_spec
//! time_spec := element ("," element)*
//! element   := "*" | slot
//! slot      := time "~" time
//! time      := hours ":" minutes
//! days_spec := day ("," day)*
//! day       := "MO" | "TU" | "WE" | "TH" | "FR" | "SA" | "SU"
//! ```
//!
//! `*` stands for the whole day, 00:00:00 to 23:59:59.
//! A rule file holds one rule per line; blank lines are skipped. Any other
//! line that does not follow the grammar fails the whole file.

use vstd::prelude::*;

use crate::error::SwytError;
use crate::rules::{periods_view, Period, PeriodView, Rule, RuleStore};
use crate::text::{
    is_blank, is_blank_chars, lemma_split_nonempty, lines, lines_of, parse_u32, split, split_on,
    string_from_chars, u32_value,
};
use crate::time::{hms_seconds, DaySet, TimeOfDay, Weekday};

verus! {

/// The day that a two-letter code names.
pub open spec fn day_code(code: Seq<char>) -> Option<Weekday> {
    if code == seq!['M', 'O'] {
        Some(Weekday::Mon)
    } else if code == seq!['T', 'U'] {
        Some(Weekday::Tue)
    } else if code == seq!['W', 'E'] {
        Some(Weekday::Wed)
    } else if code == seq!['T', 'H'] {
        Some(Weekday::Thu)
    } else if code == seq!['F', 'R'] {
        Some(Weekday::Fri)
    } else if code == seq!['S', 'A'] {
        Some(Weekday::Sat)
    } else if code == seq!['S', 'U'] {
        Some(Weekday::Sun)
    } else {
        None
    }
}

/// The days that a list of valid day codes names.
pub open spec fn days_named(codes: Seq<Seq<char>>) -> Set<Weekday>
    decreases codes.len(),
{
    if codes.len() == 0 {
        Set::empty()
    } else {
        days_named(codes.drop_last()).insert(day_code(codes.last()).unwrap())
    }
}

/// The days of a `days_spec`, if it is one.
pub open spec fn days_spec(text: Seq<char>) -> Option<Set<Weekday>> {
    let codes = split(text, ',');
    if forall|i: int| 0 <= i < codes.len() ==> (#[trigger] day_code(codes[i])) is Some {
        Some(days_named(codes))
    } else {
        None
    }
}

/// Seconds past midnight of a `time`, if it is one: hours below 24 and
/// minutes below 60, written as `u32::from_str` reads them; seconds are 0.
pub open spec fn time_spec(text: Seq<char>) -> Option<nat> {
    let parts = split(text, ':');
    if parts.len() == 2 && u32_value(parts[0]) is Some && u32_value(parts[1]) is Some
        && u32_value(parts[0]).unwrap() < 24 && u32_value(parts[1]).unwrap() < 60 {
        Some(hms_seconds(u32_value(parts[0]).unwrap() as nat, u32_value(parts[1]).unwrap() as nat, 0))
    } else {
        None
    }
}

/// The bounds of a `slot`, if it is one.
pub open spec fn slot_spec(text: Seq<char>) -> Option<(nat, nat)> {
    let parts = split(text, '~');
    if parts.len() == 2 && time_spec(parts[0]) is Some && time_spec(parts[1]) is Some {
        Some((time_spec(parts[0]).unwrap(), time_spec(parts[1]).unwrap()))
    } else {
        None
    }
}

/// Seconds past midnight of 23:59:59, the end of the wildcard slot.
pub open spec fn last_second() -> nat {
    hms_seconds(23, 59, 59)
}

/// The bounds of one comma-separated element of a `time_spec`, if it is
/// one: `*` is the whole day, from 00:00:00 to 23:59:59; anything else is
/// read as a `slot`.
pub open spec fn period_time_spec(text: Seq<char>) -> Option<(nat, nat)> {
    if text == seq!['*'] {
        Some((0nat, last_second()))
    } else {
        slot_spec(text)
    }
}

/// The slots of a `time_spec`, if it is one: the bounds of each of its
/// comma-separated elements, in order.
pub open spec fn slots_spec(text: Seq<char>) -> Option<Seq<(nat, nat)>> {
    let parts = split(text, ',');
    if forall|i: int| 0 <= i < parts.len() ==> (#[trigger] period_time_spec(parts[i])) is Some {
        Some(parts.map_values(|p: Seq<char>| period_time_spec(p).unwrap()))
    } else {
        None
    }
}

/// The periods of a `period` segment, if it is one: one per slot, each with
/// the segment's days.
pub open spec fn segment_spec(text: Seq<char>) -> Option<Seq<PeriodView>> {
    let parts = split(text, ';');
    if parts.len() == 2 && slots_spec(parts[0]) is Some && days_spec(parts[1]) is Some {
        Some(
            slots_spec(parts[0]).unwrap().map_values(
                |b: (nat, nat)| PeriodView { days: days_spec(parts[1]).unwrap(), begin: b.0, end: b.1 },
            ),
        )
    } else {
        None
    }
}

/// The periods of valid segments, in order.
pub open spec fn segments_periods(segments: Seq<Seq<char>>) -> Seq<PeriodView>
    decreases segments.len(),
{
    if segments.len() == 0 {
        Seq::empty()
    } else {
        segments_periods(segments.drop_last()) + segment_spec(segments.last()).unwrap()
    }
}

/// The process name and periods of a `rule`, if the line is one.
pub open spec fn rule_spec(line: Seq<char>) -> Option<(Seq<char>, Seq<PeriodView>)> {
    let parts = split(line, '=');
    let segments = split(parts[1], '|');
    if parts.len() == 2 && forall|i: int|
        0 <= i < segments.len() ==> (#[trigger] segment_spec(segments[i])) is Some {
        Some((parts[0], segments_periods(segments)))
    } else {
        None
    }
}

/// The rules that the lines give, one after the other, or `None` where a
/// line that is not blank is no rule.
pub open spec fn rules_spec(lines: Seq<Seq<char>>) -> Option<Map<Seq<char>, Seq<PeriodView>>>
    decreases lines.len(),
{
    if lines.len() == 0 {
        Some(Map::empty())
    } else {
        match rules_spec(lines.drop_last()) {
            None => None,
            Some(m) => if is_blank(lines.last()) {
                Some(m)
            } else {
                match rule_spec(lines.last()) {
                    None => None,
                    Some(r) => Some(m.insert(r.0, r.1)),
                }
            },
        }
    }
}

/// Reads a day code.
pub fn parse_day_of_week(code: &Vec<char>) -> (r: Result<Weekday, SwytError>)
    ensures
        match day_code(code@) {
            Some(d) => r matches Ok(x) && x == d,
            None => r matches Err(SwytError::RuleParseError),
        },
{
    if code.len() != 2 {
        assert(day_code(code@) is None);
        return Err(SwytError::RuleParseError);
    }
    let a = code[0];
    let b = code[1];
    proof {
        assert(code@ =~= seq![a, b]);
    }
    if a == 'M' && b == 'O' {
        Ok(Weekday::Mon)
    } else if a == 'T' && b == 'U' {
        Ok(Weekday::Tue)
    } else if a == 'W' && b == 'E' {
        Ok(Weekday::Wed)
    } else if a == 'T' && b == 'H' {
        Ok(Weekday::Thu)
    } else if a == 'F' && b == 'R' {
        Ok(Weekday::Fri)
    } else if a == 'S' && b == 'A' {
        Ok(Weekday::Sat)
    } else if a == 'S' && b == 'U' {
        Ok(Weekday::Sun)
    } else {
        Err(SwytError::RuleParseError)
    }
}

/// Reads a `days_spec`.
pub fn parse_days_of_week(text: &Vec<char>) -> (r: Result<DaySet, SwytError>)
    ensures
        match days_spec(text@) {
            Some(ds) => r matches Ok(x) && x@ == ds,
            None => r matches Err(SwytError::RuleParseError),
        },
{
    let parts = split_on(text, ',');
    let ghost codes = split(text@, ',');
    proof {
        lemma_split_nonempty(text@, ',');
    }
    let first = match parse_day_of_week(&parts[0]) {
        Ok(d) => d,
        Err(e) => {
            assert(day_code(codes[0]) is None);
            return Err(e);
        },
    };
    let mut set = DaySet::single(first);
    proof {
        assert(parts@[0]@ == codes[0]);
        assert(codes.take(1).last() == codes[0]);
        assert(codes.take(1).drop_last() =~= Seq::<Seq<char>>::empty());
        assert(days_named(Seq::<Seq<char>>::empty()) == Set::<Weekday>::empty());
        assert(day_code(codes[0]) == Some(first));
        assert(set@ =~= days_named(codes.take(1)));
    }
    let mut k: usize = 1;
    while k < parts.len()
        invariant
            codes == split(text@, ','),
            parts@.len() == codes.len(),
            forall|j: int| 0 <= j < parts@.len() ==> #[trigger] parts@[j]@ == codes[j],
            1 <= k <= codes.len(),
            forall|i: int| 0 <= i < k ==> (#[trigger] day_code(codes[i])) is Some,
            set@ == days_named(codes.take(k as int)),
        decreases codes.len() - k,
    {
        match parse_day_of_week(&parts[k]) {
            Ok(d) => {
                set.insert(d);
                proof {
                    assert(codes.take(k + 1).drop_last() =~= codes.take(k as int));
                }
            },
            Err(e) => {
                assert(day_code(codes[k as int]) is None);
                return Err(e);
            },
        }
        k = k + 1;
    }
    assert(codes.take(k as int) =~= codes);
    Ok(set)
}

/// Reads a `time`.
pub fn parse_time(text: &Vec<char>) -> (r: Result<TimeOfDay, SwytError>)
    ensures
        match time_spec(text@) {
            Some(t) => r matches Ok(x) && x@ == t,
            None => r matches Err(SwytError::RuleParseError),
        },
{
    let parts = split_on(text, ':');
    if parts.len() != 2 {
        return Err(SwytError::RuleParseError);
    }
    assert(parts@[0]@ == split(text@, ':')[0]);
    assert(parts@[1]@ == split(text@, ':')[1]);
    let hours = match parse_u32(&parts[0]) {
        Some(h) => h,
        None => return Err(SwytError::RuleParseError),
    };
    let minutes = match parse_u32(&parts[1]) {
        Some(m) => m,
        None => return Err(SwytError::RuleParseError),
    };
    match TimeOfDay::from_hms_opt(hours, minutes, 0) {
        Some(t) => Ok(t),
        None => Err(SwytError::RuleParseError),
    }
}

/// Reads one comma-separated element of a `time_spec`: `*` or a `slot`.
pub fn parse_period_time(text: &Vec<char>) -> (r: Result<(TimeOfDay, TimeOfDay), SwytError>)
    ensures
        match period_time_spec(text@) {
            Some(b) => r matches Ok(x) && x.0@ == b.0 && x.1@ == b.1,
            None => r matches Err(SwytError::RuleParseError),
        },
{
    if text.len() == 1 && text[0] == '*' {
        assert(text@ =~= seq!['*']);
        return Ok((TimeOfDay::from_hms(0, 0, 0), TimeOfDay::from_hms(23, 59, 59)));
    }
    assert(text@ != seq!['*']) by {
        if text@ == seq!['*'] {
            assert(text@.len() == 1 && text@[0] == '*');
        }
    }
    let parts = split_on(text, '~');
    if parts.len() != 2 {
        return Err(SwytError::RuleParseError);
    }
    assert(parts@[0]@ == split(text@, '~')[0]);
    assert(parts@[1]@ == split(text@, '~')[1]);
    let begin_time = match parse_time(&parts[0]) {
        Ok(t) => t,
        Err(e) => return Err(e),
    };
    let end_time = match parse_time(&parts[1]) {
        Ok(t) => t,
        Err(e) => return Err(e),
    };
    Ok((begin_time, end_time))
}

/// The bounds of parsed slots, in seconds past midnight.
pub open spec fn slots_view(s: Seq<(TimeOfDay, TimeOfDay)>) -> Seq<(nat, nat)> {
    s.map_values(|b: (TimeOfDay, TimeOfDay)| (b.0@, b.1@))
}

/// Reads a `time_spec`.
pub fn parse_period_times(text: &Vec<char>) -> (r: Result<Vec<(TimeOfDay, TimeOfDay)>, SwytError>)
    ensures
        match slots_spec(text@) {
            Some(sl) => r matches Ok(v) && slots_view(v@) == sl,
            None => r matches Err(SwytError::RuleParseError),
        },
{
    let mut out: Vec<(TimeOfDay, TimeOfDay)> = Vec::new();
    let parts = split_on(text, ',');
    let ghost p = split(text@, ',');
    let mut k: usize = 0;
    while k < parts.len()
        invariant
            p == split(text@, ','),
            parts@.len() == p.len(),
            forall|j: int| 0 <= j < parts@.len() ==> #[trigger] parts@[j]@ == p[j],
            k <= p.len(),
            forall|i: int| 0 <= i < k ==> (#[trigger] period_time_spec(p[i])) is Some,
            out@.len() == k,
            slots_view(out@) == p.take(k as int).map_values(
                |q: Seq<char>| period_time_spec(q).unwrap(),
            ),
        decreases p.len() - k,
    {
        assert(parts@[k as int]@ == p[k as int]);
        match parse_period_time(&parts[k]) {
            Ok(b) => {
                let ghost before = out@;
                out.push(b);
                let ghost want = p.take(k + 1).map_values(
                    |q: Seq<char>| period_time_spec(q).unwrap(),
                );
                assert forall|i: int| 0 <= i < k + 1 implies #[trigger] slots_view(out@)[i]
                    == want[i] by {
                    if i < k {
                        assert(out@[i] == before[i]);
                        assert(slots_view(before)[i] == want[i]);
                    }
                }
                assert(slots_view(out@) =~= want);
            },
            Err(e) => {
                assert(period_time_spec(p[k as int]) is None);
                return Err(e);
            },
        }
        k = k + 1;
    }
    assert(p.take(k as int) =~= p);
    Ok(out)
}

/// Reads a `period` segment.
pub fn parse_periods(text: &Vec<char>) -> (r: Result<Vec<Period>, SwytError>)
    ensures
        match segment_spec(text@) {
            Some(ps) => r matches Ok(v) && periods_view(v@) == ps,
            None => r matches Err(SwytError::RuleParseError),
        },
{
    let parts = split_on(text, ';');
    if parts.len() != 2 {
        return Err(SwytError::RuleParseError);
    }
    assert(parts@[0]@ == split(text@, ';')[0]);
    assert(parts@[1]@ == split(text@, ';')[1]);
    let start_ends = match parse_period_times(&parts[0]) {
        Ok(v) => v,
        Err(e) => return Err(e),
    };
    let days_of_week = match parse_days_of_week(&parts[1]) {
        Ok(d) => d,
        Err(e) => return Err(e),
    };
    let ghost sl = slots_view(start_ends@);
    let ghost ds = days_of_week@;
    let mut out: Vec<Period> = Vec::new();
    let mut k: usize = 0;
    while k < start_ends.len()
        invariant
            sl == slots_view(start_ends@),
            ds == days_of_week@,
            k <= start_ends@.len(),
            out@.len() == k,
            periods_view(out@) == sl.take(k as int).map_values(
                |b: (nat, nat)| PeriodView { days: ds, begin: b.0, end: b.1 },
            ),
        decreases start_ends@.len() - k,
    {
        let (begin_time, end_time) = start_ends[k];
        let ghost before = out@;
        out.push(Period::new(days_of_week, begin_time, end_time));
        let ghost want = sl.take(k + 1).map_values(
            |b: (nat, nat)| PeriodView { days: ds, begin: b.0, end: b.1 },
        );
        assert forall|i: int| 0 <= i < k + 1 implies #[trigger] periods_view(out@)[i]
            == want[i] by {
            if i < k {
                assert(out@[i] == before[i]);
                assert(periods_view(before)[i] == want[i]);
            } else {
                assert(sl[i] == (begin_time@, end_time@));
            }
        }
        assert(periods_view(out@) =~= want);
        k = k + 1;
    }
    assert(sl.take(k as int) =~= sl);
    Ok(out)
}

/// Reads a `rule`.
pub fn parse_rule(line: &Vec<char>) -> (r: Result<Rule, SwytError>)
    ensures
        match rule_spec(line@) {
            Some(nr) => r matches Ok(x) && x.process_name@ == nr.0 && periods_view(
                x.allowed_periods@,
            ) == nr.1,
            None => r matches Err(SwytError::RuleParseError),
        },
{
    let parts = split_on(line, '=');
    proof {
        lemma_split_nonempty(line@, '=');
    }
    if parts.len() != 2 {
        return Err(SwytError::RuleParseError);
    }
    assert(parts@[0]@ == split(line@, '=')[0]);
    assert(parts@[1]@ == split(line@, '=')[1]);
    let segments = split_on(&parts[1], '|');
    let ghost sg = split(parts@[1]@, '|');
    let mut allowed_periods: Vec<Period> = Vec::new();
    let mut k: usize = 0;
    while k < segments.len()
        invariant
            split(line@, '=').len() == 2,
            parts@[0]@ == split(line@, '=')[0],
            parts@[1]@ == split(line@, '=')[1],
            sg == split(parts@[1]@, '|'),
            segments@.len() == sg.len(),
            forall|j: int| 0 <= j < segments@.len() ==> #[trigger] segments@[j]@ == sg[j],
            k <= sg.len(),
            forall|i: int| 0 <= i < k ==> (#[trigger] segment_spec(sg[i])) is Some,
            periods_view(allowed_periods@) == segments_periods(sg.take(k as int)),
        decreases sg.len() - k,
    {
        match parse_periods(&segments[k]) {
            Ok(mut ps) => {
                let ghost before = allowed_periods@;
                allowed_periods.append(&mut ps);
                assert(sg.take(k + 1).drop_last() =~= sg.take(k as int));
                assert(periods_view(allowed_periods@) =~= segments_periods(sg.take(k + 1)));
            },
            Err(e) => {
                assert(segment_spec(sg[k as int]) is None);
                return Err(e);
            },
        }
        k = k + 1;
    }
    assert(sg.take(k as int) =~= sg);
    let process_name = string_from_chars(&parts[0]);
    Ok(Rule { process_name, allowed_periods })
}

/// Reads a rule file's text into a rule store; a later rule for a process
/// name replaces an earlier one.
pub fn parse_rules_text(text: &str) -> (r: Result<RuleStore, SwytError>)
    ensures
        match rules_spec(lines_of(text@)) {
            Some(m) => r matches Ok(st) && st@ == m,
            None => r matches Err(SwytError::RuleParseError),
        },
{
    let ls = lines(text);
    let ghost l = lines_of(text@);
    let mut rules = RuleStore::new();
    let mut k: usize = 0;
    while k < ls.len()
        invariant
            l == lines_of(text@),
            ls@.len() == l.len(),
            forall|j: int| 0 <= j < ls@.len() ==> #[trigger] ls@[j]@ == l[j],
            k <= l.len(),
            rules_spec(l.take(k as int)) == Some(rules@),
        decreases l.len() - k,
    {
        assert(l.take(k + 1).drop_last() =~= l.take(k as int));
        if !is_blank_chars(&ls[k]) {
            match parse_rule(&ls[k]) {
                Ok(rule) => {
                    rules.insert(rule);
                },
                Err(e) => {
                    proof {
                        lemma_rules_spec_fails(l, k + 1);
                    }
                    return Err(e);
                },
            }
        }
        k = k + 1;
    }
    assert(l.take(k as int) =~= l);
    Ok(rules)
}

proof fn lemma_rules_spec_fails(l: Seq<Seq<char>>, k: int)
    requires
        0 <= k <= l.len(),
        rules_spec(l.take(k)) is None,
    ensures
        rules_spec(l) is None,
    decreases l.len() - k,
{
    if k < l.len() {
        assert(l.take(k + 1).drop_last() =~= l.take(k));
        lemma_rules_spec_fails(l, k + 1);
    } else {
        assert(l.take(k) =~= l);
    }
}

}
