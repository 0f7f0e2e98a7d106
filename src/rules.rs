//! Allowed periods, rules and the rule store, and the decision of whether a
//! process may run at a given moment.

use vstd::prelude::*;

use crate::time::{DaySet, Moment, TimeOfDay, Weekday};

verus! {

/// What a period means: the days it covers and its inclusive bounds, in
/// seconds past midnight.
pub struct PeriodView {
    pub days: Set<Weekday>,
    pub begin: nat,
    pub end: nat,
}

impl PeriodView {
    /// The period covers the moment: its day is one of the period's days and
    /// its time lies between the bounds, both included.
    pub open spec fn admits(self, m: Moment) -> bool {
        &&& self.days.contains(m.weekday)
        &&& self.begin <= m.time@
        &&& m.time@ <= self.end
    }
}

/// A window during which a process may run: a set of days and a range of
/// times of day, both bounds included. The bounds are kept as given: a
/// period whose begin lies after its end covers no time.
#[derive(Clone, Copy, Debug)]
pub struct Period {
    pub days_of_week: DaySet,
    pub begin_time: TimeOfDay,
    pub end_time: TimeOfDay,
}

impl View for Period {
    type V = PeriodView;

    open spec fn view(&self) -> PeriodView {
        PeriodView { days: self.days_of_week@, begin: self.begin_time@, end: self.end_time@ }
    }
}

/// The meanings of a list of periods.
pub open spec fn periods_view(s: Seq<Period>) -> Seq<PeriodView> {
    s.map_values(|p: Period| p@)
}

impl Period {
    pub fn new(days_of_week: DaySet, begin_time: TimeOfDay, end_time: TimeOfDay) -> (r: Period)
        ensures
            r@ == (PeriodView { days: days_of_week@, begin: begin_time@, end: end_time@ }),
    {
        Period { days_of_week, begin_time, end_time }
    }

    /// Whether the period covers the moment `m`.
    pub fn admits(&self, m: &Moment) -> (r: bool)
        ensures
            r == self@.admits(*m),
    {
        let t = m.time.num_seconds_from_midnight();
        self.days_of_week.contains(m.weekday) && self.begin_time.num_seconds_from_midnight() <= t
            && t <= self.end_time.num_seconds_from_midnight()
    }
}

/// A process name bound to the periods in which it may run; the process may
/// run when any of them covers the moment.
#[derive(Debug)]
pub struct Rule {
    pub process_name: String,
    pub allowed_periods: Vec<Period>,
}

/// The mapping built by inserting each rule in turn, keyed by process name:
/// a later rule for a name replaces an earlier one.
pub open spec fn rules_map(s: Seq<Rule>) -> Map<Seq<char>, Seq<PeriodView>>
    decreases s.len(),
{
    if s.len() == 0 {
        Map::empty()
    } else {
        rules_map(s.drop_last()).insert(
            s.last().process_name@,
            periods_view(s.last().allowed_periods@),
        )
    }
}

pub open spec fn names_unique(s: Seq<Rule>) -> bool {
    forall|i: int, j: int|
        0 <= i < j < s.len() ==> #[trigger] s[i].process_name@ != #[trigger] s[j].process_name@
}

proof fn lemma_rules_map_has(s: Seq<Rule>, i: int)
    requires
        names_unique(s),
        0 <= i < s.len(),
    ensures
        rules_map(s).contains_key(s[i].process_name@),
        rules_map(s)[s[i].process_name@] == periods_view(s[i].allowed_periods@),
    decreases s.len(),
{
    if i < s.len() - 1 {
        let t = s.drop_last();
        assert(t[i] == s[i]);
        assert(s.last() == s[s.len() - 1]);
        lemma_rules_map_has(t, i);
    }
}

proof fn lemma_rules_map_lacks(s: Seq<Rule>, k: Seq<char>)
    requires
        forall|i: int| 0 <= i < s.len() ==> #[trigger] s[i].process_name@ != k,
    ensures
        !rules_map(s).contains_key(k),
    decreases s.len(),
{
    if s.len() > 0 {
        let t = s.drop_last();
        assert forall|i: int| 0 <= i < t.len() implies #[trigger] t[i].process_name@ != k by {
            assert(t[i] == s[i]);
        }
        lemma_rules_map_lacks(t, k);
        assert(s.last() == s[s.len() - 1]);
    }
}

proof fn lemma_rules_map_len(s: Seq<Rule>)
    requires
        names_unique(s),
    ensures
        rules_map(s).dom().finite(),
        rules_map(s).dom().len() == s.len(),
    decreases s.len(),
{
    if s.len() > 0 {
        let t = s.drop_last();
        lemma_rules_map_len(t);
        assert forall|i: int| 0 <= i < t.len() implies #[trigger] t[i].process_name@
            != s.last().process_name@ by {
            assert(t[i] == s[i]);
            assert(s.last() == s[s.len() - 1]);
        }
        lemma_rules_map_lacks(t, s.last().process_name@);
    }
}

proof fn lemma_rules_map_replace(s: Seq<Rule>, j: int, r: Rule)
    requires
        names_unique(s),
        0 <= j < s.len(),
        s[j].process_name@ == r.process_name@,
    ensures
        rules_map(s.update(j, r)) == rules_map(s).insert(
            r.process_name@,
            periods_view(r.allowed_periods@),
        ),
    decreases s.len(),
{
    let u = s.update(j, r);
    let t = s.drop_last();
    if j == s.len() - 1 {
        assert(u.drop_last() =~= t);
        assert(rules_map(u) =~= rules_map(s).insert(
            r.process_name@,
            periods_view(r.allowed_periods@),
        ));
    } else {
        assert(t[j] == s[j]);
        lemma_rules_map_replace(t, j, r);
        assert(u.drop_last() =~= t.update(j, r));
        assert(s.last() == s[s.len() - 1]);
        assert(s[j].process_name@ != s.last().process_name@);
        assert(rules_map(u) =~= rules_map(s).insert(
            r.process_name@,
            periods_view(r.allowed_periods@),
        ));
    }
}

/// The index of the rule for `name` in `entries`, if there is one.
fn position_of(entries: &Vec<Rule>, name: &String) -> (r: Option<usize>)
    ensures
        r matches Some(j) ==> j < entries@.len() && entries@[j as int].process_name@ == name@,
        r is None ==> forall|i: int|
            0 <= i < entries@.len() ==> #[trigger] entries@[i].process_name@ != name@,
{
    let mut j: usize = 0;
    while j < entries.len()
        invariant
            j <= entries@.len(),
            forall|i: int| 0 <= i < j ==> #[trigger] entries@[i].process_name@ != name@,
        decreases entries@.len() - j,
    {
        if entries[j].process_name == *name {
            return Some(j);
        }
        j = j + 1;
    }
    None
}

/// The rules in force: at most one per process name.
pub struct RuleStore {
    entries: Vec<Rule>,
}

impl View for RuleStore {
    type V = Map<Seq<char>, Seq<PeriodView>>;

    /// Each process name that has a rule, mapped to the meanings of its periods.
    closed spec fn view(&self) -> Map<Seq<char>, Seq<PeriodView>> {
        rules_map(self.entries@)
    }
}

impl RuleStore {
    #[verifier::type_invariant]
    spec fn inv(self) -> bool {
        names_unique(self.entries@)
    }

    /// The store without rules.
    pub fn new() -> (r: RuleStore)
        ensures
            r@ == Map::<Seq<char>, Seq<PeriodView>>::empty(),
    {
        RuleStore { entries: Vec::new() }
    }

    /// Binds the rule's process name to its periods, replacing what the name
    /// was bound to before.
    pub fn insert(&mut self, rule: Rule)
        ensures
            final(self)@ == old(self)@.insert(
                rule.process_name@,
                periods_view(rule.allowed_periods@),
            ),
    {
        proof {
            use_type_invariant(&*self);
        }
        let mut entries: Vec<Rule> = Vec::new();
        std::mem::swap(&mut entries, &mut self.entries);
        let ghost s = entries@;
        let found = position_of(&entries, &rule.process_name);
        if let Some(j) = found {
            proof {
                lemma_rules_map_replace(s, j as int, rule);
            }
            entries.set(j, rule);
            assert(names_unique(entries@)) by {
                assert forall|a: int, b: int|
                    0 <= a < b < entries@.len() implies #[trigger] entries@[a].process_name@
                    != #[trigger] entries@[b].process_name@ by {
                    assert(s[a].process_name@ != s[b].process_name@);
                }
            }
        } else {
            proof {
                lemma_rules_map_lacks(s, rule.process_name@);
            }
            entries.push(rule);
            assert(entries@.drop_last() =~= s);
        }
        self.entries = entries;
    }

    /// The periods bound to `process_name`, if it has a rule.
    pub fn get(&self, process_name: &str) -> (r: Option<&Vec<Period>>)
        ensures
            r.is_some() == self@.contains_key(process_name@),
            r matches Some(v) ==> periods_view(v@) == self@[process_name@],
    {
        proof {
            use_type_invariant(self);
        }
        let name = String::from_str(process_name);
        match position_of(&self.entries, &name) {
            Some(j) => {
                proof {
                    lemma_rules_map_has(self.entries@, j as int);
                }
                Some(&self.entries[j].allowed_periods)
            },
            None => {
                proof {
                    lemma_rules_map_lacks(self.entries@, process_name@);
                }
                None
            },
        }
    }

    /// The number of process names that have a rule.
    pub fn len(&self) -> (r: usize)
        ensures
            r == self@.len(),
    {
        proof {
            use_type_invariant(self);
            lemma_rules_map_len(self.entries@);
        }
        self.entries.len()
    }

    pub fn is_empty(&self) -> (r: bool)
        ensures
            r == (self@.len() == 0),
    {
        self.len() == 0
    }
}

/// Whether a process named `name` may run at `m` under the rules `store`: a
/// name without a rule is not managed and may always run; one with a rule
/// may run when one of its periods covers the moment.
pub open spec fn allowed(store: Map<Seq<char>, Seq<PeriodView>>, name: Seq<char>, m: Moment) -> bool {
    !store.contains_key(name) || exists|i: int|
        0 <= i < store[name].len() && #[trigger] store[name][i].admits(m)
}

/// Whether the process named `process_name` may run at `now`.
pub fn is_allowed(rules: &RuleStore, process_name: &str, now: &Moment) -> (r: bool)
    ensures
        r == allowed(rules@, process_name@, *now),
{
    match rules.get(process_name) {
        None => true,
        Some(periods) => {
            let ghost pv = periods_view(periods@);
            let mut i: usize = 0;
            while i < periods.len()
                invariant
                    pv == periods_view(periods@),
                    pv == rules@[process_name@],
                    i <= periods@.len(),
                    forall|k: int| 0 <= k < i ==> !(#[trigger] pv[k]).admits(*now),
                decreases periods@.len() - i,
            {
                if periods[i].admits(now) {
                    assert(pv[i as int].admits(*now));
                    return true;
                }
                i = i + 1;
            }
            false
        }
    }
}

}
