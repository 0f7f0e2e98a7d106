//! Properties that relate the parser and the decision engine, stated over
//! their specifications and proved.

use vstd::prelude::*;

use crate::config::{config_spec, DEFAULT_CHECK_INTERVAL};
use crate::grammar::{days_spec, rule_spec, rules_spec, segment_spec, segments_periods, slots_spec};
use crate::rules::{allowed, PeriodView, RuleStore};
use crate::scan::{to_terminate, ProcessEntry};
use crate::text::{is_blank, lines_of, split, trim};
use crate::time::Moment;

verus! {

/// Slot `j` of the period segment `seg` covers `m`: the moment's day is one
/// of the segment's days, and its time lies within the slot, bounds included.
pub open spec fn slot_covers(seg: Seq<char>, j: int, m: Moment) -> bool {
    let parts = split(seg, ';');
    let slots = slots_spec(parts[0]).unwrap();
    &&& 0 <= j < slots.len()
    &&& days_spec(parts[1]).unwrap().contains(m.weekday)
    &&& slots[j].0 <= m.time@
    &&& m.time@ <= slots[j].1
}

/// One of the windows that the rule line declares covers `m`.
pub open spec fn declared_window_covers(line: Seq<char>, m: Moment) -> bool {
    let segments = split(split(line, '=')[1], '|');
    exists|i: int, j: int| 0 <= i < segments.len() && #[trigger] slot_covers(segments[i], j, m)
}

proof fn lemma_segments_cover(segments: Seq<Seq<char>>, m: Moment)
    requires
        forall|i: int| 0 <= i < segments.len() ==> (#[trigger] segment_spec(segments[i])) is Some,
    ensures
        (exists|k: int|
            0 <= k < segments_periods(segments).len() && #[trigger] segments_periods(
                segments,
            )[k].admits(m)) <==> (exists|i: int, j: int|
            0 <= i < segments.len() && #[trigger] slot_covers(segments[i], j, m)),
    decreases segments.len(),
{
    if segments.len() > 0 {
        let init = segments.drop_last();
        let last = segments.last();
        assert forall|i: int| 0 <= i < init.len() implies (#[trigger] segment_spec(init[i])) is Some by {
            assert(init[i] == segments[i]);
        }
        lemma_segments_cover(init, m);
        let a = segments_periods(init);
        let b = segment_spec(last).unwrap();
        let all = segments_periods(segments);
        assert(segment_spec(segments[segments.len() - 1]) is Some);
        assert(all == a + b);
        let parts = split(last, ';');
        let slots = slots_spec(parts[0]).unwrap();
        let days = days_spec(parts[1]).unwrap();
        assert(b.len() == slots.len());
        if exists|k: int| 0 <= k < all.len() && #[trigger] all[k].admits(m) {
            let k = choose|k: int| 0 <= k < all.len() && #[trigger] all[k].admits(m);
            if k < a.len() {
                assert(all[k] == a[k]);
                let (i, j) = choose|i: int, j: int|
                    0 <= i < init.len() && #[trigger] slot_covers(init[i], j, m);
                assert(init[i] == segments[i]);
                assert(slot_covers(segments[i], j, m));
            } else {
                let j = k - a.len();
                assert(all[k] == b[j]);
                assert(b[j] == PeriodView { days: days, begin: slots[j].0, end: slots[j].1 });
                assert(slot_covers(segments[segments.len() - 1], j, m));
            }
        }
        if exists|i: int, j: int| 0 <= i < segments.len() && #[trigger] slot_covers(segments[i], j, m) {
            let (i, j) = choose|i: int, j: int|
                0 <= i < segments.len() && #[trigger] slot_covers(segments[i], j, m);
            if i < init.len() {
                assert(init[i] == segments[i]);
                assert(slot_covers(init[i], j, m));
                let k = choose|k: int| 0 <= k < a.len() && #[trigger] a[k].admits(m);
                assert(all[k] == a[k]);
            } else {
                assert(segments[i] == last);
                assert(b[j] == PeriodView { days: days, begin: slots[j].0, end: slots[j].1 });
                assert(all[a.len() + j] == b[j]);
                assert(all[a.len() + j].admits(m));
            }
        }
    }
}

proof fn lemma_split_without_separator(s: Seq<char>, sep: char)
    requires
        forall|i: int| 0 <= i < s.len() ==> s[i] != sep,
    ensures
        split(s, sep) == seq![s],
    decreases s.len(),
{
    if s.len() > 0 {
        lemma_split_without_separator(s.drop_last(), sep);
        assert(s.drop_last().push(s.last()) =~= s);
        assert(split(s, sep) =~= seq![s]);
    } else {
        assert(s =~= Seq::<char>::empty());
    }
}

/// Parsing then evaluating reproduces the declared windows: a file that holds
/// the one valid rule line `line` (no line feed in it, no carriage return at
/// its end) yields a store with one rule, for the
/// line's process name, and that process may run at `m` exactly when one of
/// the windows the line declares covers `m`.
pub proof fn law_rule_line_windows(line: Seq<char>, m: Moment)
    requires
        forall|i: int| 0 <= i < line.len() ==> line[i] != '\n',
        line.len() == 0 || line.last() != '\r',
        rule_spec(line) is Some,
    ensures
        ({
            let name = split(line, '=')[0];
            let periods = rule_spec(line).unwrap().1;
            &&& rules_spec(lines_of(line)) == Some(map![name => periods])
            &&& allowed(map![name => periods], name, m) <==> declared_window_covers(line, m)
        }),
{
    lemma_split_without_separator(line, '\n');
    let l = lines_of(line);
    assert(l =~= seq![line]);
    if is_blank(line) {
        assert forall|i: int| 0 <= i < line.len() implies line[i] != '=' by {
            assert(crate::text::is_white_space(line[i]));
        }
        lemma_split_without_separator(line, '=');
    }
    assert(l.drop_last() =~= Seq::<Seq<char>>::empty());
    let name = split(line, '=')[0];
    let periods = rule_spec(line).unwrap().1;
    assert(rules_spec(l.drop_last()) == Some(Map::<Seq<char>, Seq<PeriodView>>::empty()));
    assert(rules_spec(l) == Some(Map::<Seq<char>, Seq<PeriodView>>::empty().insert(name, periods)));
    let store = map![name => periods];
    let segments = split(split(line, '=')[1], '|');
    lemma_segments_cover(segments, m);
    assert(store[name] == periods);
}

/// A process whose name has no rule is never stopped: it may run at every
/// moment.
pub proof fn law_unmanaged_always_allowed(rules: RuleStore, name: Seq<char>, m: Moment)
    requires
        !rules@.contains_key(name),
    ensures
        allowed(rules@, name, m),
{
}

/// An empty rule file, as one that was missing is created, gives a store
/// without rules, under which every process may run at every moment.
pub proof fn law_empty_rules_allow_all(text: Seq<char>, name: Seq<char>, m: Moment)
    requires
        text.len() == 0,
    ensures
        rules_spec(lines_of(text)) == Some(Map::<Seq<char>, Seq<PeriodView>>::empty()),
        allowed(Map::<Seq<char>, Seq<PeriodView>>::empty(), name, m),
{
    let l = lines_of(text);
    assert(text =~= Seq::<char>::empty());
    assert(split(text, '\n') == seq![Seq::<char>::empty()]);
    assert(l =~= seq![Seq::<char>::empty()]);
    assert(l.drop_last() =~= Seq::<Seq<char>>::empty());
    assert(is_blank(l.last()));
    assert(rules_spec(l.drop_last()) == Some(Map::<Seq<char>, Seq<PeriodView>>::empty()));
}

/// A line that is neither blank nor a rule fails the whole file, wherever it
/// stands: no store is built from the lines around it.
pub proof fn law_malformed_line_fails(lines: Seq<Seq<char>>, k: int)
    requires
        0 <= k < lines.len(),
        !is_blank(lines[k]),
        rule_spec(lines[k]) is None,
    ensures
        rules_spec(lines) is None,
    decreases lines.len(),
{
    if k < lines.len() - 1 {
        let init = lines.drop_last();
        assert(init[k] == lines[k]);
        law_malformed_line_fails(init, k);
    }
}

/// The decision is a function of the rules, the name and the moment alone:
/// two evaluations on the same three agree.
pub proof fn law_decision_deterministic(
    rules: RuleStore,
    name: Seq<char>,
    m: Moment,
    first: bool,
    second: bool,
)
    requires
        first == allowed(rules@, name, m),
        second == allowed(rules@, name, m),
    ensures
        first == second,
{
}

proof fn lemma_terminated_entry(
    store: Map<Seq<char>, Seq<PeriodView>>,
    processes: Seq<ProcessEntry>,
    m: Moment,
    x: i32,
)
    requires
        to_terminate(store, processes, m).contains(x),
    ensures
        exists|i: int|
            0 <= i < processes.len() && #[trigger] processes[i].pid == x
                && processes[i].name is Some && !allowed(store, processes[i].name.unwrap()@, m),
    decreases processes.len(),
{
    let init = processes.drop_last();
    let rest = to_terminate(store, init, m);
    let last = processes.len() - 1;
    assert(processes.last() == processes[last]);
    if rest.contains(x) {
        lemma_terminated_entry(store, init, m, x);
        let i = choose|i: int|
            0 <= i < init.len() && #[trigger] init[i].pid == x && init[i].name is Some && !allowed(
                store,
                init[i].name.unwrap()@,
                m,
            );
        assert(init[i] == processes[i]);
    } else {
        assert(processes[last].pid == x);
    }
}

/// A scan pass never stops a process whose name has no rule, whatever the
/// moment, when the listed process ids are distinct.
pub proof fn law_unmanaged_never_stopped(
    rules: RuleStore,
    processes: Seq<ProcessEntry>,
    m: Moment,
    k: int,
)
    requires
        0 <= k < processes.len(),
        processes[k].name is Some,
        !rules@.contains_key(processes[k].name.unwrap()@),
        forall|i: int, j: int|
            0 <= i < j < processes.len() ==> #[trigger] processes[i].pid != #[trigger] processes[j].pid,
    ensures
        !to_terminate(rules@, processes, m).contains(processes[k].pid),
{
    if to_terminate(rules@, processes, m).contains(processes[k].pid) {
        lemma_terminated_entry(rules@, processes, m, processes[k].pid);
        let i = choose|i: int|
            0 <= i < processes.len() && #[trigger] processes[i].pid == processes[k].pid
                && processes[i].name is Some && !allowed(rules@, processes[i].name.unwrap()@, m);
        if i < k {
            assert(processes[i].pid != processes[k].pid);
        } else if k < i {
            assert(processes[k].pid != processes[i].pid);
        }
    }
}

/// A configuration whose lines do not name `check_interval` gives the
/// default interval, as long as each line that is not blank holds an `=`.
pub proof fn law_config_default_without_key(lines: Seq<Seq<char>>)
    requires
        forall|i: int|
            0 <= i < lines.len() && !is_blank(#[trigger] lines[i]) ==> split(lines[i], '=').len()
                >= 2 && trim(split(lines[i], '=')[0]) != "check_interval"@,
    ensures
        config_spec(lines) == Some(DEFAULT_CHECK_INTERVAL),
    decreases lines.len(),
{
    if lines.len() > 0 {
        let init = lines.drop_last();
        assert forall|i: int|
            0 <= i < init.len() && !is_blank(#[trigger] init[i]) implies split(init[i], '=').len()
                >= 2 && trim(split(init[i], '=')[0]) != "check_interval"@ by {
            assert(init[i] == lines[i]);
        }
        law_config_default_without_key(init);
        assert(lines.last() == lines[lines.len() - 1]);
    }
}

}
