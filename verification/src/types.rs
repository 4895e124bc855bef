//! Core data model: fixed-point quantities, error taxonomy, and the
//! per-person profile state that the allocation model is built from.
//!
//! All hour, rank and bonus quantities are fixed-point integers counted in
//! thousandths (so `1500` is one and a half hours, and a bonus of `1250`
//! multiplies effective output by one and a quarter).  String-keyed maps of
//! the profile are association lists with pairwise-distinct keys.

use vstd::prelude::*;

verus! {

broadcast use vstd::string::group_string_axioms;

/// Fixed-point scale: quantities are counted in thousandths.
pub const SCALE: i64 = 1000;

/// Capacity bound on every list in a profile (skills, segments, combos,
/// targets).  Keeps all model arithmetic well inside `i64`/`i128` range.
pub const MAX_LIST: usize = 1000;

/// Largest accepted time quantity (durations, limits, per-day allocations),
/// in thousandths of an hour.
pub const MAX_TIME: i64 = 1_000_000_000;

/// Largest accepted bonus multiplier or preference weight, in thousandths.
pub const MAX_BONUS: i64 = 1_000_000;

/// Largest accepted skill rank, in thousandths of a rank.
pub const MAX_RANK: i64 = 1_000_000_000;

/// Largest remaining-hours-needed value, in thousandths of an hour.  The
/// classifier's output always fits: a rank of at most `MAX_RANK` costs at
/// most `MAX_RANK / SCALE * 192 * SCALE` thousandths.
pub const MAX_NEED: i64 = 1_000_000_000_000;

/// Largest simulated day number accepted from the timeline.
pub const MAX_DAY: i64 = 1_000_000_000;

/// The error taxonomy.  Every failure of the core is one of these; none is
/// a panic.
#[derive(Clone, Copy, Debug, PartialEq, Eq, Structural)]
pub enum Error {
    /// Duplicate individual, unknown individual or skill, capacity overflow,
    /// or a non-monotonic date advance.
    ConfigurationError,
    /// A skill name that belongs to no category.
    ClassificationError,
    /// A target skill has no eligible segment-and-combo pair, so no
    /// allocation can make progress on it.
    ModelInfeasible,
    /// The solver handed back an assignment that violates the model.
    SolverFailure,
}

/// A set of skills trained concurrently, with a bonus multiplier (in
/// thousandths) on the effective output.  A singleton combo with bonus
/// `SCALE` is the non-overlapped baseline.
#[derive(Clone, Debug)]
pub struct Overlap {
    pub combo: Vec<String>,
    pub bonus: i64,
}

/// An active training goal for one skill: the rank aimed for and the
/// remaining effective hours (thousandths) still needed to reach it.
#[derive(Clone, Debug)]
pub struct Target {
    pub target_ranks: i64,
    pub hours_needed: i64,
}

/// One individual's full state: ranks, recurring daily schedule, safety
/// caps, per-segment eligibility limits, overlap bonuses, active targets
/// and preference weights.
#[derive(Clone, Debug)]
pub struct Person {
    pub name: String,
    /// Skill name to current rank (thousandths of a rank).
    pub skills: Vec<(String, i64)>,
    /// Segment name to duration (thousandths of an hour).
    pub schedule: Vec<(String, i64)>,
    /// Skill name to the most raw hours (thousandths) it may get per day.
    pub safety_limit: Vec<(String, i64)>,
    /// Segment name to the set of skills allowed there.  Segments absent
    /// from this list are unrestricted.
    pub schedule_limit: Vec<(String, Vec<String>)>,
    /// Overlap bonuses, including the trivial singleton combos.
    pub overlap: Vec<Overlap>,
    /// Skill name to its active target.
    pub target: Vec<(String, Target)>,
    /// Skill name to preference weight (thousandths); skills absent here
    /// weigh `SCALE`.
    pub preference: Vec<(String, i64)>,
}

/// One configuration event of the timeline, applied in chronological order.
/// Dates are day numbers; the caller converts calendar dates to them.
#[derive(Clone, Debug)]
pub enum Task {
    At { day: i64 },
    Baseline { name: String, skills: Vec<(String, i64)> },
    Schedule { name: String, segment: Vec<(String, i64)> },
    SafetyLimit { name: String, limit: Vec<(String, i64)> },
    ScheduleLimit { name: String, limit: Vec<(String, Vec<String>)> },
    Overlap { name: String, when: Vec<Overlap> },
    Target { name: String, target: Vec<(String, i64)> },
}

// ---------------------------------------------------------------------
// Association lists
// ---------------------------------------------------------------------

/// The keys of the association list are pairwise distinct.
pub open spec fn al_distinct<V>(s: Seq<(String, V)>) -> bool {
    forall|i: int, j: int| 0 <= i < j < s.len() ==> s[i].0@ != s[j].0@
}

/// Some entry of the association list has key `k`.
pub open spec fn al_contains<V>(s: Seq<(String, V)>, k: Seq<char>) -> bool {
    exists|i: int| 0 <= i < s.len() && s[i].0@ == k
}

/// The index of an entry with key `k` (meaningful when `al_contains`).
pub open spec fn al_index<V>(s: Seq<(String, V)>, k: Seq<char>) -> int {
    choose|i: int| 0 <= i < s.len() && s[i].0@ == k
}

/// The value bound to key `k` (meaningful when `al_contains`).
pub open spec fn al_value<V>(s: Seq<(String, V)>, k: Seq<char>) -> V {
    s[al_index(s, k)].1
}

/// On a distinct association list, any entry with key `k` is the one that
/// `al_index`/`al_value` denote.
pub proof fn lemma_al_found<V>(s: Seq<(String, V)>, k: Seq<char>, i: int)
    requires
        al_distinct(s),
        0 <= i < s.len(),
        s[i].0@ == k,
    ensures
        al_contains(s, k),
        al_index(s, k) == i,
        al_value(s, k) == s[i].1,
{
    assert(al_contains(s, k));
    let j = al_index(s, k);
    assert(0 <= j < s.len() && s[j].0@ == k);
    if i < j {
        assert(s[i].0@ != s[j].0@);
    } else if j < i {
        assert(s[j].0@ != s[i].0@);
    }
}

/// Finds the entry keyed by `k`, if any.
pub fn al_find<V>(v: &Vec<(String, V)>, k: &String) -> (r: Option<usize>)
    ensures
        match r {
            Some(i) => i < v.len() && v@[i as int].0@ == k@,
            None => !al_contains(v@, k@),
        },
{
    let n: usize = v.len();
    let mut i: usize = 0;
    while i < n
        invariant
            n == v@.len(),
            i <= n,
            forall|j: int| 0 <= j < i ==> v@[j].0@ != k@,
        decreases n - i,
    {
        if v[i].0 == *k {
            return Some(i);
        }
        i = i + 1;
    }
    None
}

/// Whether some entry of the list equals `k`, for plain string lists.
pub open spec fn names_contain(s: Seq<String>, k: Seq<char>) -> bool {
    exists|i: int| 0 <= i < s.len() && s[i]@ == k
}

/// Membership test on a plain string list.
pub fn names_find(v: &Vec<String>, k: &String) -> (r: bool)
    ensures
        r == names_contain(v@, k@),
{
    let n: usize = v.len();
    let mut i: usize = 0;
    while i < n
        invariant
            n == v@.len(),
            i <= n,
            forall|j: int| 0 <= j < i ==> v@[j]@ != k@,
        decreases n - i,
    {
        if v[i] == *k {
            return true;
        }
        i = i + 1;
    }
    false
}

// ---------------------------------------------------------------------
// Well-formedness
// ---------------------------------------------------------------------

/// Every quantity list of the profile is within capacity, keys are
/// distinct, and all quantities are non-negative and bounded.  Target
/// skills are always possessed skills.
pub open spec fn person_wf(p: Person) -> bool {
    &&& p.skills@.len() <= MAX_LIST
    &&& al_distinct(p.skills@)
    &&& forall|i: int| 0 <= i < p.skills@.len() ==> 0 <= #[trigger] p.skills@[i].1 <= MAX_RANK
    &&& p.schedule@.len() <= MAX_LIST
    &&& al_distinct(p.schedule@)
    &&& forall|i: int| 0 <= i < p.schedule@.len() ==> 0 <= #[trigger] p.schedule@[i].1 <= MAX_TIME
    &&& p.safety_limit@.len() <= MAX_LIST
    &&& al_distinct(p.safety_limit@)
    &&& forall|i: int| 0 <= i < p.safety_limit@.len() ==> 0 <= #[trigger] p.safety_limit@[i].1 <= MAX_TIME
    &&& p.schedule_limit@.len() <= MAX_LIST
    &&& al_distinct(p.schedule_limit@)
    &&& forall|i: int| 0 <= i < p.schedule_limit@.len() ==> #[trigger] p.schedule_limit@[i].1@.len() <= MAX_LIST
    &&& p.overlap@.len() <= MAX_LIST
    &&& forall|i: int| 0 <= i < p.overlap@.len() ==> 1 <= #[trigger] p.overlap@[i].combo@.len() <= MAX_LIST
    &&& forall|i: int| 0 <= i < p.overlap@.len() ==> 0 <= #[trigger] p.overlap@[i].bonus <= MAX_BONUS
    &&& p.target@.len() <= MAX_LIST
    &&& al_distinct(p.target@)
    &&& forall|i: int| 0 <= i < p.target@.len() ==> 0 <= #[trigger] p.target@[i].1.hours_needed <= MAX_NEED
    &&& forall|i: int| 0 <= i < p.target@.len() ==> 0 <= #[trigger] p.target@[i].1.target_ranks <= MAX_RANK
    &&& forall|i: int| 0 <= i < p.target@.len() ==> al_contains(p.skills@, #[trigger] p.target@[i].0@)
    &&& p.preference@.len() <= MAX_LIST
    &&& al_distinct(p.preference@)
    &&& forall|i: int| 0 <= i < p.preference@.len() ==> 0 <= #[trigger] p.preference@[i].1 <= MAX_BONUS
}

/// The objective weight of skill `k`: its preference entry, or `SCALE`
/// (neutral) when none is configured.
pub open spec fn weight_of(p: Person, k: Seq<char>) -> int {
    if al_contains(p.preference@, k) {
        al_value(p.preference@, k) as int
    } else {
        SCALE as int
    }
}

/// The default preference list: the fixed priority ordering, each entry at
/// the neutral weight (the configured offset between consecutive entries
/// is zero).
pub open spec fn is_default_preference(s: Seq<(String, i64)>) -> bool {
    &&& s.len() == 4
    &&& s[0].0@ == "Lore"@ && s[0].1 == SCALE
    &&& s[1].0@ == "Illusion"@ && s[1].1 == SCALE
    &&& s[2].0@ == "Dreamwalking"@ && s[2].1 == SCALE
    &&& s[3].0@ == "Integrity"@ && s[3].1 == SCALE
}

/// Spacing between consecutive default preference weights, in thousandths.
/// Zero keeps overlap bonuses decisive in the objective.
pub const DEFAULT_PRIORITY_OFFSET: i64 = 0;

impl Person {
    /// A fresh individual: baseline skills, everything else empty, and the
    /// default preference weights.
    pub fn new(name: String, skills: Vec<(String, i64)>) -> (p: Person)
        ensures
            p.name == name,
            p.skills == skills,
            p.schedule@.len() == 0,
            p.safety_limit@.len() == 0,
            p.schedule_limit@.len() == 0,
            p.overlap@.len() == 0,
            p.target@.len() == 0,
            is_default_preference(p.preference@),
            al_distinct(p.preference@),
            forall|i: int| 0 <= i < p.preference@.len()
                ==> 0 <= #[trigger] p.preference@[i].1 <= MAX_BONUS,
    {
        let mut preference: Vec<(String, i64)> = Vec::new();
        preference.push(("Lore".to_owned(), SCALE + 0 * DEFAULT_PRIORITY_OFFSET));
        preference.push(("Illusion".to_owned(), SCALE + 1 * DEFAULT_PRIORITY_OFFSET));
        preference.push(("Dreamwalking".to_owned(), SCALE + 2 * DEFAULT_PRIORITY_OFFSET));
        preference.push(("Integrity".to_owned(), SCALE + 3 * DEFAULT_PRIORITY_OFFSET));
        proof {
            reveal_strlit("Lore");
            reveal_strlit("Illusion");
            reveal_strlit("Dreamwalking");
            reveal_strlit("Integrity");
            assert("Lore"@.len() == 4 && "Illusion"@.len() == 8 && "Dreamwalking"@.len() == 12
                && "Integrity"@.len() == 9);
            assert("Lore"@ != "Illusion"@);
            assert("Lore"@ != "Dreamwalking"@);
            assert("Lore"@ != "Integrity"@);
            assert("Illusion"@ != "Dreamwalking"@);
            assert("Illusion"@ != "Integrity"@);
            assert("Dreamwalking"@ != "Integrity"@);
        }
        Person {
            name,
            skills,
            schedule: Vec::new(),
            safety_limit: Vec::new(),
            schedule_limit: Vec::new(),
            overlap: Vec::new(),
            target: Vec::new(),
            preference,
        }
    }
}

} // verus!
