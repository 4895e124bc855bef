//! Timeline interpretation: replaying configuration events onto the
//! simulation state.  Each event either advances the calendar (handed
//! back to the caller as the number of the day to simulate up to),
//! creates an individual, or fully replaces one part of an individual's
//! profile.  Referencing an unknown individual, re-creating an existing
//! one, or jumping backward in time is a configuration error, reported
//! before any state changes.

use vstd::prelude::*;
use crate::types::{
    Person, Target, Overlap, Task, Error, al_contains, al_value, al_distinct, person_wf,
    is_default_preference, lemma_al_found, al_find, SCALE, MAX_LIST, MAX_TIME, MAX_BONUS,
    MAX_NEED, MAX_RANK, MAX_DAY,
};
use crate::classifier::{spec_category, spec_hours_needed, effective_training_hours_needed, Category};

verus! {

// ---------------------------------------------------------------------
// The world
// ---------------------------------------------------------------------

/// The simulation state: the current day number and every individual.
pub struct World {
    pub now: i64,
    pub persons: Vec<Person>,
}

/// Some individual carries this name.
pub open spec fn has_person(persons: Seq<Person>, name: Seq<char>) -> bool {
    exists|i: int| 0 <= i < persons.len() && persons[i].name@ == name
}

/// The index of the individual with this name (meaningful when
/// `has_person`).
pub open spec fn person_index(persons: Seq<Person>, name: Seq<char>) -> int {
    choose|i: int| 0 <= i < persons.len() && persons[i].name@ == name
}

/// The day number is in range, every individual is well formed, and
/// names are unique.
pub open spec fn world_wf(w: World) -> bool {
    &&& -MAX_DAY <= w.now <= MAX_DAY
    &&& forall|i: int| 0 <= i < w.persons@.len() ==> person_wf(#[trigger] w.persons@[i])
    &&& forall|i: int, j: int| 0 <= i < j < w.persons@.len() ==> w.persons@[i].name@
        != w.persons@[j].name@
}

/// On a world with unique names, any individual carrying the name is the
/// one `person_index` denotes.
pub proof fn lemma_person_found(persons: Seq<Person>, name: Seq<char>, i: int)
    requires
        forall|a: int, b: int| 0 <= a < b < persons.len() ==> persons[a].name@ != persons[b].name@,
        0 <= i < persons.len(),
        persons[i].name@ == name,
    ensures
        has_person(persons, name),
        person_index(persons, name) == i,
{
    assert(has_person(persons, name));
    let j = person_index(persons, name);
    if i < j {
        assert(persons[i].name@ != persons[j].name@);
    } else if j < i {
        assert(persons[j].name@ != persons[i].name@);
    }
}

/// Finds the individual with this name, if any.
fn find_person(persons: &Vec<Person>, name: &String) -> (r: Option<usize>)
    ensures
        match r {
            Some(i) => i < persons.len() && persons@[i as int].name@ == name@,
            None => !has_person(persons@, name@),
        },
{
    let n: usize = persons.len();
    let mut i: usize = 0;
    while i < n
        invariant
            n == persons@.len(),
            i <= n,
            forall|q: int| 0 <= q < i ==> (#[trigger] persons@[q]).name@ != name@,
        decreases n - i,
    {
        if persons[i].name == *name {
            return Some(i);
        }
        i = i + 1;
    }
    None
}

/// Advances the calendar by one day.
pub fn advance_one_day(w: &mut World)
    requires
        world_wf(*old(w)),
        old(w).now < MAX_DAY,
    ensures
        final(w).now == old(w).now + 1,
        final(w).persons == old(w).persons,
        world_wf(*final(w)),
{
    w.now = w.now + 1;
}

/// Whether any individual still has an active target.
pub fn anyone_training(w: &World) -> (r: bool)
    ensures
        r == exists|i: int| 0 <= i < w.persons@.len() && (#[trigger] w.persons@[i]).target@.len()
            > 0,
{
    let n: usize = w.persons.len();
    let mut i: usize = 0;
    while i < n
        invariant
            n == w.persons@.len(),
            i <= n,
            forall|q: int| 0 <= q < i ==> (#[trigger] w.persons@[q]).target@.len() == 0,
        decreases n - i,
    {
        if w.persons[i].target.len() > 0 {
            return true;
        }
        i = i + 1;
    }
    false
}

// ---------------------------------------------------------------------
// Event well-formedness
// ---------------------------------------------------------------------

/// A quantity-valued association list within capacity: few enough
/// entries, distinct keys, values in `[0, max]`.
pub open spec fn entries_wf(s: Seq<(String, i64)>, max: i64) -> bool {
    &&& s.len() <= MAX_LIST
    &&& al_distinct(s)
    &&& forall|i: int| 0 <= i < s.len() ==> 0 <= (#[trigger] s[i]).1 <= max
}

/// The event's payload is within the capacity and range bounds that keep
/// all model arithmetic exact.
pub open spec fn task_wf(t: Task) -> bool {
    match t {
        Task::At { day } => -MAX_DAY <= day <= MAX_DAY,
        Task::Baseline { name: _, skills } => entries_wf(skills@, MAX_RANK),
        Task::Schedule { name: _, segment } => entries_wf(segment@, MAX_TIME),
        Task::SafetyLimit { name: _, limit } => entries_wf(limit@, MAX_TIME),
        Task::ScheduleLimit { name: _, limit } => limit@.len() <= MAX_LIST && al_distinct(limit@)
            && forall|i: int| 0 <= i < limit@.len() ==> (#[trigger] limit@[i]).1@.len() <= MAX_LIST,
        Task::Overlap { name: _, when: combos } => combos@.len() <= MAX_LIST && forall|i: int|
            0 <= i < combos@.len() ==> 1 <= (#[trigger] combos@[i]).combo@.len() <= MAX_LIST && 0
                <= combos@[i].bonus <= MAX_BONUS,
        Task::Target { name: _, target } => entries_wf(target@, MAX_RANK),
    }
}

// ---------------------------------------------------------------------
// Seeding targets from the classifier
// ---------------------------------------------------------------------

/// The target seeded for one entry: the demanded rank, and the effective
/// hours the classifier computes from the skill's current rank.
pub open spec fn seeded_target(skills: Seq<(String, i64)>, key: String, ranks: i64) -> Target {
    Target {
        target_ranks: ranks,
        hours_needed: (match spec_category(key@) {
            Some(c) => spec_hours_needed(c, al_value(skills, key@) as int),
            None => 0,
        }) as i64,
    }
}

/// Seeds targets for the entries in order: an entry whose skill is not
/// possessed is a configuration error, one whose skill is unclassifiable
/// a classification error; the first offending entry decides.
pub open spec fn seed_targets(skills: Seq<(String, i64)>, entries: Seq<(String, i64)>) -> Result<
    Seq<(String, Target)>,
    Error,
>
    decreases entries.len(),
{
    if entries.len() == 0 {
        Ok(Seq::empty())
    } else {
        let k = entries[0].0@;
        if !al_contains(skills, k) {
            Err(Error::ConfigurationError)
        } else if spec_category(k) == None::<Category> {
            Err(Error::ClassificationError)
        } else {
            match seed_targets(skills, entries.drop_first()) {
                Err(e) => Err(e),
                Ok(rest) => Ok(
                    seq![(entries[0].0, seeded_target(skills, entries[0].0, entries[0].1))] + rest,
                ),
            }
        }
    }
}

/// When every entry is possessed and classifiable, seeding succeeds with
/// one target per entry, in order.
proof fn lemma_seed_ok(skills: Seq<(String, i64)>, entries: Seq<(String, i64)>)
    requires
        forall|q: int| 0 <= q < entries.len() ==> al_contains(skills, (#[trigger] entries[q]).0@)
            && spec_category(entries[q].0@) != None::<Category>,
    ensures
        seed_targets(skills, entries) matches Ok(s) && s.len() == entries.len() && forall|q: int|
            0 <= q < entries.len() ==> #[trigger] s[q] == (
            entries[q].0,
            seeded_target(skills, entries[q].0, entries[q].1),
        ),
    decreases entries.len(),
{
    if entries.len() > 0 {
        assert(entries[0] == entries[0]);
        lemma_seed_ok(skills, entries.drop_first());
        let rest = seed_targets(skills, entries.drop_first())->Ok_0;
        let s = seed_targets(skills, entries)->Ok_0;
        assert forall|q: int| 0 <= q < entries.len() implies #[trigger] s[q] == (
            entries[q].0,
            seeded_target(skills, entries[q].0, entries[q].1),
        ) by {
            if q > 0 {
                assert(s[q] == rest[q - 1]);
                assert(entries.drop_first()[q - 1] == entries[q]);
            }
        };
    }
}

/// When the first offending entry is at position `i`, seeding fails with
/// that entry's error.
proof fn lemma_seed_err(skills: Seq<(String, i64)>, entries: Seq<(String, i64)>, i: int)
    requires
        0 <= i < entries.len(),
        forall|q: int| 0 <= q < i ==> al_contains(skills, (#[trigger] entries[q]).0@)
            && spec_category(entries[q].0@) != None::<Category>,
        !al_contains(skills, entries[i].0@) || spec_category(entries[i].0@) == None::<Category>,
    ensures
        seed_targets(skills, entries) == Err::<Seq<(String, Target)>, Error>(
            if !al_contains(skills, entries[i].0@) {
                Error::ConfigurationError
            } else {
                Error::ClassificationError
            },
        ),
    decreases entries.len(),
{
    if i == 0 {
    } else {
        assert(entries[0] == entries[0]);
        assert forall|q: int| 0 <= q < i - 1 implies al_contains(
            skills,
            (#[trigger] entries.drop_first()[q]).0@,
        ) && spec_category(entries.drop_first()[q].0@) != None::<Category> by {
            assert(entries.drop_first()[q] == entries[q + 1]);
        };
        assert(entries.drop_first()[i - 1] == entries[i]);
        lemma_seed_err(skills, entries.drop_first(), i - 1);
    }
}

/// `b` is `a` with only its target list changed.
pub open spec fn same_except_target(a: Person, b: Person) -> bool {
    &&& b.name == a.name
    &&& b.skills == a.skills
    &&& b.schedule == a.schedule
    &&& b.safety_limit == a.safety_limit
    &&& b.schedule_limit == a.schedule_limit
    &&& b.overlap == a.overlap
    &&& b.preference == a.preference
}

/// Replaces the person's targets with freshly seeded ones, leaving the
/// person untouched when any entry is rejected.
fn set_targets(p: &mut Person, entries: &Vec<(String, i64)>) -> (r: Result<(), Error>)
    requires
        person_wf(*old(p)),
        entries_wf(entries@, MAX_RANK),
    ensures
        match seed_targets(old(p).skills@, entries@) {
            Ok(s) => r == Ok::<(), Error>(()) && final(p).target@ == s && same_except_target(
                *old(p),
                *final(p),
            ) && person_wf(*final(p)),
            Err(e) => r == Err::<(), Error>(e) && *final(p) == *old(p),
        },
{
    let n: usize = entries.len();
    let mut built: Vec<(String, Target)> = Vec::new();
    let mut q: usize = 0;
    while q < n
        invariant
            person_wf(*p),
            *p == *old(p),
            entries_wf(entries@, MAX_RANK),
            n == entries@.len(),
            q <= n,
            built@.len() == q,
            forall|x: int| 0 <= x < q ==> al_contains(p.skills@, (#[trigger] entries@[x]).0@)
                && spec_category(entries@[x].0@) != None::<Category>,
            forall|x: int| 0 <= x < q ==> #[trigger] built@[x] == (
                entries@[x].0,
                seeded_target(p.skills@, entries@[x].0, entries@[x].1),
            ),
            forall|x: int| 0 <= x < q ==> 0 < (#[trigger] built@[x]).1.hours_needed <= MAX_NEED,
        decreases n - q,
    {
        let rank: i64 = match al_find(&p.skills, &entries[q].0) {
            Some(si) => {
                proof {
                    lemma_al_found(p.skills@, entries@[q as int].0@, si as int);
                }
                p.skills[si].1
            },
            None => {
                proof {
                    lemma_seed_err(p.skills@, entries@, q as int);
                }
                return Err(Error::ConfigurationError);
            },
        };
        let hours: i64 = match effective_training_hours_needed(&entries[q].0, rank) {
            Ok(h) => h,
            Err(e) => {
                proof {
                    lemma_seed_err(p.skills@, entries@, q as int);
                }
                return Err(e);
            },
        };
        built.push((entries[q].0.clone(), Target { target_ranks: entries[q].1, hours_needed: hours }));
        q = q + 1;
    }
    proof {
        lemma_seed_ok(p.skills@, entries@);
        let s = seed_targets(p.skills@, entries@)->Ok_0;
        assert(built@ =~= s);
    }
    p.target = built;
    Ok(())
}

// ---------------------------------------------------------------------
// Overlap lists and their synthesized singletons
// ---------------------------------------------------------------------

/// The list holds a trivial one-skill combo for `k`.
pub open spec fn has_singleton(os: Seq<Overlap>, k: Seq<char>) -> bool {
    exists|x: int| 0 <= x < os.len() && (#[trigger] os[x]).combo@.len() == 1 && os[x].combo@[0]@
        == k
}

/// `result` is `when` extended with neutral singleton combos: the
/// configured list is kept as a prefix, every possessed skill ends up
/// with a singleton, and the additions are exactly one neutral singleton
/// for each possessed skill that had none configured.
pub open spec fn overlap_extended(
    skills: Seq<(String, i64)>,
    combos: Seq<Overlap>,
    result: Seq<Overlap>,
) -> bool {
    &&& combos.len() <= result.len() <= combos.len() + skills.len()
    &&& forall|x: int| 0 <= x < combos.len() ==> #[trigger] result[x] == combos[x]
    &&& forall|x: int|
        combos.len() <= x < result.len() ==> (#[trigger] result[x]).combo@.len() == 1
            && result[x].bonus == SCALE && al_contains(skills, result[x].combo@[0]@)
            && !has_singleton(combos, result[x].combo@[0]@)
    &&& forall|s: int| 0 <= s < skills.len() ==> has_singleton(result, (#[trigger] skills[s]).0@)
    &&& forall|x: int, y: int|
        combos.len() <= x < y < result.len() ==> (#[trigger] result[x]).combo@[0]@
            != (#[trigger] result[y]).combo@[0]@
}

/// `b` is `a` with only its overlap list changed.
pub open spec fn same_except_overlap(a: Person, b: Person) -> bool {
    &&& b.name == a.name
    &&& b.skills == a.skills
    &&& b.schedule == a.schedule
    &&& b.safety_limit == a.safety_limit
    &&& b.schedule_limit == a.schedule_limit
    &&& b.target == a.target
    &&& b.preference == a.preference
}

/// Scans for a trivial one-skill combo for `k`.
fn find_singleton(os: &Vec<Overlap>, k: &String) -> (r: bool)
    ensures
        r == has_singleton(os@, k@),
{
    let n: usize = os.len();
    let mut x: usize = 0;
    while x < n
        invariant
            n == os@.len(),
            x <= n,
            forall|q: int| 0 <= q < x ==> !((#[trigger] os@[q]).combo@.len() == 1 && os@[q].combo@[0]@
                == k@),
        decreases n - x,
    {
        if os[x].combo.len() == 1 {
            if os[x].combo[0] == *k {
                return true;
            }
        }
        x = x + 1;
    }
    false
}

/// Replaces the person's overlap list with the given combos plus a
/// neutral singleton for every possessed skill not already covered.
/// Rejects a list that would overflow the profile's capacity.
fn set_overlap(p: &mut Person, combos: Vec<Overlap>) -> (r: Result<(), Error>)
    requires
        person_wf(*old(p)),
        combos@.len() <= MAX_LIST,
        forall|i: int| 0 <= i < combos@.len() ==> 1 <= (#[trigger] combos@[i]).combo@.len() <= MAX_LIST
            && 0 <= combos@[i].bonus <= MAX_BONUS,
    ensures
        old(p).skills@.len() + combos@.len() > MAX_LIST ==> r == Err::<(), Error>(
            Error::ConfigurationError,
        ) && *final(p) == *old(p),
        old(p).skills@.len() + combos@.len() <= MAX_LIST ==> r == Ok::<(), Error>(())
            && same_except_overlap(*old(p), *final(p)) && overlap_extended(
            old(p).skills@,
            combos@,
            final(p).overlap@,
        ) && person_wf(*final(p)),
{
    if p.skills.len() + combos.len() > MAX_LIST {
        return Err(Error::ConfigurationError);
    }
    let ghost when0 = combos@;
    let mut result = combos;
    let s_count: usize = p.skills.len();
    let mut s: usize = 0;
    while s < s_count
        invariant
            person_wf(*p),
            *p == *old(p),
            s_count == p.skills@.len(),
            s <= s_count,
            forall|i: int| 0 <= i < when0.len() ==> 1 <= (#[trigger] when0[i]).combo@.len()
                <= MAX_LIST && 0 <= when0[i].bonus <= MAX_BONUS,
            when0.len() <= result@.len() <= when0.len() + s,
            s_count + when0.len() <= MAX_LIST,
            forall|x: int| 0 <= x < when0.len() ==> #[trigger] result@[x] == when0[x],
            forall|x: int|
                when0.len() <= x < result@.len() ==> (#[trigger] result@[x]).combo@.len() == 1
                    && result@[x].bonus == SCALE && !has_singleton(when0, result@[x].combo@[0]@),
            forall|x: int|
                when0.len() <= x < result@.len() ==> exists|s2: int|
                    0 <= s2 < s && (#[trigger] result@[x]).combo@[0]@ == p.skills@[s2].0@,
            forall|q: int| 0 <= q < s ==> has_singleton(result@, (#[trigger] p.skills@[q]).0@),
            forall|x: int, y: int|
                when0.len() <= x < y < result@.len() ==> (#[trigger] result@[x]).combo@[0]@ != (
                #[trigger] result@[y]).combo@[0]@,
        decreases s_count - s,
    {
        let k = &p.skills[s].0;
        let ghost result0 = result@;
        if !find_singleton(&result, k) {
            let mut combo: Vec<String> = Vec::new();
            combo.push(k.clone());
            result.push(Overlap { combo, bonus: SCALE });
            proof {
                assert(result@.last().combo@[0]@ == p.skills@[s as int].0@);
                assert(!has_singleton(result0, p.skills@[s as int].0@));
                assert(!has_singleton(when0, p.skills@[s as int].0@)) by {
                    if has_singleton(when0, p.skills@[s as int].0@) {
                        let x = choose|x: int|
                            0 <= x < when0.len() && (#[trigger] when0[x]).combo@.len() == 1
                                && when0[x].combo@[0]@ == p.skills@[s as int].0@;
                        assert(result0[x] == when0[x]);
                        assert(has_singleton(result0, p.skills@[s as int].0@));
                    }
                };
                assert forall|x: int|
                    when0.len() <= x < result@.len() implies exists|s2: int|
                        0 <= s2 < s + 1 && (#[trigger] result@[x]).combo@[0]@
                            == p.skills@[s2].0@ by {
                    if x < result0.len() {
                        assert(result@[x] == result0[x]);
                        let s2 = choose|s2: int|
                            0 <= s2 < s && (#[trigger] result0[x]).combo@[0]@ == p.skills@[s2].0@;
                        assert(result@[x].combo@[0]@ == p.skills@[s2].0@);
                    } else {
                        assert(result@[x].combo@[0]@ == p.skills@[s as int].0@);
                    }
                };
                assert forall|q: int| 0 <= q < s + 1 implies has_singleton(
                    result@,
                    (#[trigger] p.skills@[q]).0@,
                ) by {
                    if q < s {
                        let x = choose|x: int|
                            0 <= x < result0.len() && (#[trigger] result0[x]).combo@.len() == 1
                                && result0[x].combo@[0]@ == p.skills@[q].0@;
                        assert(result@[x] == result0[x]);
                        assert(has_singleton(result@, p.skills@[q].0@));
                    } else {
                        assert(result@.len() - 1 >= 0 && result@[result@.len() - 1].combo@.len()
                            == 1 && result@[result@.len() - 1].combo@[0]@ == p.skills@[q].0@);
                    }
                };
                assert forall|x: int, y: int|
                    when0.len() <= x < y < result@.len() implies (#[trigger] result@[x]).combo@[0]@
                    != (#[trigger] result@[y]).combo@[0]@ by {
                    if y < result0.len() {
                        assert(result@[x] == result0[x] && result@[y] == result0[y]);
                    } else {
                        assert(result@[x] == result0[x]);
                        assert(result@[y].combo@[0]@ == p.skills@[s as int].0@);
                        if result0[x].combo@[0]@ == p.skills@[s as int].0@ {
                            assert(result0[x].combo@.len() == 1);
                            assert(has_singleton(result0, p.skills@[s as int].0@));
                            assert(false);
                        }
                    }
                };
            }
        } else {
            proof {
                assert forall|q: int| 0 <= q < s + 1 implies has_singleton(
                    result@,
                    (#[trigger] p.skills@[q]).0@,
                ) by {
                };
            }
        }
        s = s + 1;
    }
    proof {
        assert forall|x: int|
            when0.len() <= x < result@.len() implies al_contains(
            p.skills@,
            (#[trigger] result@[x]).combo@[0]@,
        ) by {
            let s2 = choose|s2: int|
                0 <= s2 < s_count && (#[trigger] result@[x]).combo@[0]@ == p.skills@[s2].0@;
            assert(p.skills@[s2].0@ == result@[x].combo@[0]@);
        };
    }
    p.overlap = result;
    Ok(())
}

// ---------------------------------------------------------------------
// Applying one event
// ---------------------------------------------------------------------

/// `b` is `a` with only its schedule changed.
pub open spec fn same_except_schedule(a: Person, b: Person) -> bool {
    &&& b.name == a.name
    &&& b.skills == a.skills
    &&& b.safety_limit == a.safety_limit
    &&& b.schedule_limit == a.schedule_limit
    &&& b.overlap == a.overlap
    &&& b.target == a.target
    &&& b.preference == a.preference
}

/// `b` is `a` with only its safety limits changed.
pub open spec fn same_except_safety(a: Person, b: Person) -> bool {
    &&& b.name == a.name
    &&& b.skills == a.skills
    &&& b.schedule == a.schedule
    &&& b.schedule_limit == a.schedule_limit
    &&& b.overlap == a.overlap
    &&& b.target == a.target
    &&& b.preference == a.preference
}

/// `b` is `a` with only its schedule limits changed.
pub open spec fn same_except_schedule_limit(a: Person, b: Person) -> bool {
    &&& b.name == a.name
    &&& b.skills == a.skills
    &&& b.schedule == a.schedule
    &&& b.safety_limit == a.safety_limit
    &&& b.overlap == a.overlap
    &&& b.target == a.target
    &&& b.preference == a.preference
}

/// A freshly created individual: the given name and baseline skills,
/// everything else empty, the default preference weights.
pub open spec fn is_fresh_person(np: Person, name: String, skills: Seq<(String, i64)>) -> bool {
    &&& np.name == name
    &&& np.skills@ == skills
    &&& np.schedule@.len() == 0
    &&& np.safety_limit@.len() == 0
    &&& np.schedule_limit@.len() == 0
    &&& np.overlap@.len() == 0
    &&& np.target@.len() == 0
    &&& is_default_preference(np.preference@)
}

/// The state is unchanged: same day, same individuals.
pub open spec fn world_unchanged(w0: World, w1: World) -> bool {
    &&& w1.now == w0.now
    &&& w1.persons@ == w0.persons@
}

/// All individuals other than the one at `pi` are unchanged, and the
/// calendar stands still.
pub open spec fn only_person_changed(w0: World, w1: World, pi: int) -> bool {
    &&& w1.now == w0.now
    &&& w1.persons@.len() == w0.persons@.len()
    &&& forall|i: int| 0 <= i < w0.persons@.len() && i != pi ==> #[trigger] w1.persons@[i]
        == w0.persons@[i]
}

/// What applying one event does: the full case analysis over the event
/// kinds, with every error condition stated if and only if.
pub open spec fn apply_task_post(
    w0: World,
    task: Task,
    w1: World,
    r: Result<Option<i64>, Error>,
) -> bool {
    match task {
        Task::At { day } => {
            if day <= w0.now {
                r == Err::<Option<i64>, Error>(Error::ConfigurationError) && world_unchanged(w0, w1)
            } else {
                r == Ok::<Option<i64>, Error>(Some(day)) && world_unchanged(w0, w1)
            }
        },
        Task::Baseline { name, skills } => {
            if has_person(w0.persons@, name@) {
                r == Err::<Option<i64>, Error>(Error::ConfigurationError) && world_unchanged(w0, w1)
            } else {
                &&& r == Ok::<Option<i64>, Error>(None)
                &&& w1.now == w0.now
                &&& w1.persons@.len() == w0.persons@.len() + 1
                &&& forall|i: int| 0 <= i < w0.persons@.len() ==> #[trigger] w1.persons@[i]
                    == w0.persons@[i]
                &&& is_fresh_person(w1.persons@.last(), name, skills@)
            }
        },
        Task::Schedule { name, segment } => {
            if !has_person(w0.persons@, name@) {
                r == Err::<Option<i64>, Error>(Error::ConfigurationError) && world_unchanged(w0, w1)
            } else {
                let pi = person_index(w0.persons@, name@);
                &&& r == Ok::<Option<i64>, Error>(None)
                &&& only_person_changed(w0, w1, pi)
                &&& same_except_schedule(w0.persons@[pi], w1.persons@[pi])
                &&& w1.persons@[pi].schedule == segment
            }
        },
        Task::SafetyLimit { name, limit } => {
            if !has_person(w0.persons@, name@) {
                r == Err::<Option<i64>, Error>(Error::ConfigurationError) && world_unchanged(w0, w1)
            } else {
                let pi = person_index(w0.persons@, name@);
                &&& r == Ok::<Option<i64>, Error>(None)
                &&& only_person_changed(w0, w1, pi)
                &&& same_except_safety(w0.persons@[pi], w1.persons@[pi])
                &&& w1.persons@[pi].safety_limit == limit
            }
        },
        Task::ScheduleLimit { name, limit } => {
            if !has_person(w0.persons@, name@) {
                r == Err::<Option<i64>, Error>(Error::ConfigurationError) && world_unchanged(w0, w1)
            } else {
                let pi = person_index(w0.persons@, name@);
                &&& r == Ok::<Option<i64>, Error>(None)
                &&& only_person_changed(w0, w1, pi)
                &&& same_except_schedule_limit(w0.persons@[pi], w1.persons@[pi])
                &&& w1.persons@[pi].schedule_limit == limit
            }
        },
        Task::Overlap { name, when: combos } => {
            if !has_person(w0.persons@, name@) {
                r == Err::<Option<i64>, Error>(Error::ConfigurationError) && world_unchanged(w0, w1)
            } else {
                let pi = person_index(w0.persons@, name@);
                if w0.persons@[pi].skills@.len() + combos@.len() > MAX_LIST {
                    r == Err::<Option<i64>, Error>(Error::ConfigurationError) && world_unchanged(w0, w1)
                } else {
                    &&& r == Ok::<Option<i64>, Error>(None)
                    &&& only_person_changed(w0, w1, pi)
                    &&& same_except_overlap(w0.persons@[pi], w1.persons@[pi])
                    &&& overlap_extended(
                        w0.persons@[pi].skills@,
                        combos@,
                        w1.persons@[pi].overlap@,
                    )
                }
            }
        },
        Task::Target { name, target } => {
            if !has_person(w0.persons@, name@) {
                r == Err::<Option<i64>, Error>(Error::ConfigurationError) && world_unchanged(w0, w1)
            } else {
                let pi = person_index(w0.persons@, name@);
                match seed_targets(w0.persons@[pi].skills@, target@) {
                    Ok(s) => {
                        &&& r == Ok::<Option<i64>, Error>(None)
                        &&& only_person_changed(w0, w1, pi)
                        &&& same_except_target(w0.persons@[pi], w1.persons@[pi])
                        &&& w1.persons@[pi].target@ == s
                    },
                    Err(e) => r == Err::<Option<i64>, Error>(e) && world_unchanged(w0, w1),
                }
            }
        },
    }
}

/// Applies one configuration event.  An advance-to-date event leaves the
/// state untouched and hands back the day to simulate up to; every other
/// event mutates exactly one individual (or creates one).  Every error is
/// reported before any state changes.
pub fn apply_task(w: &mut World, task: Task) -> (r: Result<Option<i64>, Error>)
    requires
        world_wf(*old(w)),
        task_wf(task),
    ensures
        world_wf(*final(w)),
        apply_task_post(*old(w), task, *final(w), r),
{
    match task {
        Task::At { day } => {
            if day <= w.now {
                Err(Error::ConfigurationError)
            } else {
                Ok(Some(day))
            }
        },
        Task::Baseline { name, skills } => {
            match find_person(&w.persons, &name) {
                Some(i) => {
                    proof {
                        lemma_person_found(w.persons@, name@, i as int);
                    }
                    Err(Error::ConfigurationError)
                },
                None => {
                    let np = Person::new(name, skills);
                    w.persons.push(np);
                    Ok(None)
                },
            }
        },
        Task::Schedule { name, segment } => {
            match find_person(&w.persons, &name) {
                None => Err(Error::ConfigurationError),
                Some(i) => {
                    proof {
                        lemma_person_found(w.persons@, name@, i as int);
                    }
                    let pr = &mut w.persons[i];
                    pr.schedule = segment;
                    Ok(None)
                },
            }
        },
        Task::SafetyLimit { name, limit } => {
            match find_person(&w.persons, &name) {
                None => Err(Error::ConfigurationError),
                Some(i) => {
                    proof {
                        lemma_person_found(w.persons@, name@, i as int);
                    }
                    let pr = &mut w.persons[i];
                    pr.safety_limit = limit;
                    Ok(None)
                },
            }
        },
        Task::ScheduleLimit { name, limit } => {
            match find_person(&w.persons, &name) {
                None => Err(Error::ConfigurationError),
                Some(i) => {
                    proof {
                        lemma_person_found(w.persons@, name@, i as int);
                    }
                    let pr = &mut w.persons[i];
                    pr.schedule_limit = limit;
                    Ok(None)
                },
            }
        },
        Task::Overlap { name, when: combos } => {
            match find_person(&w.persons, &name) {
                None => Err(Error::ConfigurationError),
                Some(i) => {
                    proof {
                        lemma_person_found(w.persons@, name@, i as int);
                    }
                    let pr = &mut w.persons[i];
                    match set_overlap(pr, combos) {
                        Ok(()) => Ok(None),
                        Err(e) => {
                            proof {
                                assert(w.persons@ =~= old(w).persons@);
                            }
                            Err(e)
                        },
                    }
                },
            }
        },
        Task::Target { name, target } => {
            match find_person(&w.persons, &name) {
                None => Err(Error::ConfigurationError),
                Some(i) => {
                    proof {
                        lemma_person_found(w.persons@, name@, i as int);
                    }
                    let pr = &mut w.persons[i];
                    match set_targets(pr, &target) {
                        Ok(()) => Ok(None),
                        Err(e) => {
                            proof {
                                assert(w.persons@ =~= old(w).persons@);
                            }
                            Err(e)
                        },
                    }
                },
            }
        },
    }
}

} // verus!
