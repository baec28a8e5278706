//! The checker: a structural diff of a target locale against the base
//! locale, classifying every key as current, outdated, missing or unused.
//!
//! Classification compares the `original` field of the normalized entries,
//! never the translated `value`. Entries that lack `original` (for
//! instance V1-normalized entries) compare by plain option equality: two
//! absent originals count as current, an original absent on one side only
//! counts as outdated.

use crate::kv::keys_distinct;
use crate::kv::lemma_remove_key_props;
use crate::kv::lookup;
use crate::kv::remove_key;
use crate::store::EntryView;
use crate::store::RoseyLocale;
use crate::store::RoseyTranslation;
use crate::store::lemma_dv2;
use crate::store::v2_find;
use crate::store::v2_remove;
use vstd::prelude::*;

verus! {

/// The state the checker assigns to one key.
#[derive(PartialEq, Eq, Structural, Clone, Copy, Debug)]
pub enum RoseyCheckStates {
    Current,
    Outdated,
    Missing,
    Unused,
}

impl View for RoseyCheckStates {
    type V = RoseyCheckStates;

    open spec fn view(&self) -> RoseyCheckStates {
        *self
    }
}

impl DeepView for RoseyCheckStates {
    type V = RoseyCheckStates;

    open spec fn deep_view(&self) -> RoseyCheckStates {
        *self
    }
}

/// Per-state counters of a check report.
pub struct RoseyCheckCounts {
    pub current: i32,
    pub outdated: i32,
    pub missing: i32,
    pub unused: i32,
}

/// The coverage report for one target locale.
pub struct RoseyCheck {
    pub current: bool,
    pub base_total: i32,
    pub total: i32,
    pub states: RoseyCheckCounts,
    pub keys: Vec<(String, RoseyCheckStates)>,
}

/// How one base key is classified against the target store: absent keys
/// are missing; present keys are current exactly when the two `original`
/// fields agree, else outdated.
pub open spec fn classify(base_entry: EntryView, target_entry: Option<EntryView>) -> RoseyCheckStates {
    match target_entry {
        None => RoseyCheckStates::Missing,
        Some(t) => if t.original == base_entry.original {
            RoseyCheckStates::Current
        } else {
            RoseyCheckStates::Outdated
        },
    }
}

/// The classification of every base key, in base-store order.
pub open spec fn classified(
    base: Seq<(Seq<char>, EntryView)>,
    target: Seq<(Seq<char>, EntryView)>,
) -> Seq<(Seq<char>, RoseyCheckStates)> {
    base.map_values(|p: (Seq<char>, EntryView)| (p.0, classify(p.1, lookup(target, p.0))))
}

/// The target store after the first `i` base keys have been visited and
/// removed from a working copy.
pub open spec fn drained(
    target: Seq<(Seq<char>, EntryView)>,
    base: Seq<(Seq<char>, EntryView)>,
    i: int,
) -> Seq<(Seq<char>, EntryView)>
    decreases i,
{
    if i <= 0 {
        target
    } else {
        remove_key(drained(target, base, i - 1), base[i - 1].0)
    }
}

/// Marks a leftover pair unused (one shared term, so that mapped
/// sequences built in different places compare equal).
pub open spec fn unused_fn() -> spec_fn((Seq<char>, EntryView)) -> (Seq<char>, RoseyCheckStates) {
    |p: (Seq<char>, EntryView)| (p.0, RoseyCheckStates::Unused)
}

/// The keys left over in the target after the full base traversal, each
/// marked unused.
pub open spec fn unused_keys(
    base: Seq<(Seq<char>, EntryView)>,
    target: Seq<(Seq<char>, EntryView)>,
) -> Seq<(Seq<char>, RoseyCheckStates)> {
    drained(target, base, base.len() as int).map_values(unused_fn())
}

/// Bridges a report vector's deep view to plain indexing.
pub proof fn lemma_dvc(keys: Vec<(String, RoseyCheckStates)>)
    ensures
        keys.deep_view().len() == keys@.len(),
        forall|j: int|
            0 <= j < keys@.len() ==> #[trigger] keys.deep_view()[j] == (keys@[j].0@, keys@[j].1),
{
}

/// The full key classification of a report: every base key in order, then
/// every leftover target key marked unused.
pub open spec fn report_keys(
    base: Seq<(Seq<char>, EntryView)>,
    target: Seq<(Seq<char>, EntryView)>,
) -> Seq<(Seq<char>, RoseyCheckStates)> {
    classified(base, target) + unused_keys(base, target)
}

/// How many keys of a report carry the given state.
pub open spec fn count_state(ks: Seq<(Seq<char>, RoseyCheckStates)>, s: RoseyCheckStates) -> int
    decreases ks.len(),
{
    if ks.len() == 0 {
        0
    } else {
        count_state(ks.drop_last(), s) + if ks.last().1 == s {
            1int
        } else {
            0int
        }
    }
}

/// Counting distributes over concatenation.
proof fn lemma_count_concat(
    a: Seq<(Seq<char>, RoseyCheckStates)>,
    b: Seq<(Seq<char>, RoseyCheckStates)>,
    s: RoseyCheckStates,
)
    ensures
        count_state(a + b, s) == count_state(a, s) + count_state(b, s),
    decreases b.len(),
{
    if b.len() == 0 {
        assert(a + b =~= a);
    } else {
        assert((a + b).drop_last() =~= a + b.drop_last());
        lemma_count_concat(a, b.drop_last(), s);
        assert((a + b).last() == b.last());
    }
}

/// Every pair of an unused-marked sequence counts as unused, and nothing
/// else.
proof fn lemma_count_unused_mapped(t: Seq<(Seq<char>, EntryView)>)
    ensures
        count_state(t.map_values(unused_fn()), RoseyCheckStates::Unused) == t.len(),
    decreases t.len(),
{
    let m = t.map_values(unused_fn());
    if t.len() > 0 {
        lemma_count_unused_mapped(t.drop_last());
        assert(m.drop_last() =~= t.drop_last().map_values(unused_fn()));
        assert(m.last().1 is Unused);
    }
}

/// Classification of base keys never yields the unused state.
proof fn lemma_classified_no_unused(
    base: Seq<(Seq<char>, EntryView)>,
    target: Seq<(Seq<char>, EntryView)>,
)
    ensures
        count_state(classified(base, target), RoseyCheckStates::Unused) == 0,
    decreases base.len(),
{
    let c = classified(base, target);
    if base.len() > 0 {
        lemma_classified_no_unused(base.drop_last(), target);
        assert(c.drop_last() =~= classified(base.drop_last(), target));
        assert(!(c.last().1 is Unused));
    }
}

/// Draining keeps the working copy well formed and never grows it.
proof fn lemma_drained_wf(
    target: Seq<(Seq<char>, EntryView)>,
    base: Seq<(Seq<char>, EntryView)>,
    i: int,
)
    requires
        keys_distinct(target),
        0 <= i,
    ensures
        keys_distinct(drained(target, base, i)),
        drained(target, base, i).len() <= target.len(),
    decreases i,
{
    if i > 0 {
        lemma_drained_wf(target, base, i - 1);
        lemma_remove_key_props(drained(target, base, i - 1), base[i - 1].0);
    }
}

/// While the visited base keys are distinct from `k`, draining them does
/// not change `k`'s lookup.
proof fn lemma_drained_lookup(
    target: Seq<(Seq<char>, EntryView)>,
    base: Seq<(Seq<char>, EntryView)>,
    i: int,
    k: Seq<char>,
)
    requires
        keys_distinct(target),
        0 <= i,
        forall|j: int| 0 <= j < i ==> base[j].0 != k,
    ensures
        lookup(drained(target, base, i), k) == lookup(target, k),
    decreases i,
{
    if i > 0 {
        lemma_drained_lookup(target, base, i - 1, k);
        lemma_drained_wf(target, base, i - 1);
        lemma_remove_key_props(drained(target, base, i - 1), base[i - 1].0);
    }
}

/// Equality of two optional strings, read at the view level.
fn opt_str_eq(a: &Option<String>, b: &Option<String>) -> (r: bool)
    ensures
        r == (a.deep_view() == b.deep_view()),
{
    match (a, b) {
        (None, None) => true,
        (Some(x), Some(y)) => {
            assert(a.deep_view() == Some(x@));
            assert(b.deep_view() == Some(y@));
            *x == *y
        },
        (Some(x), None) => {
            assert(a.deep_view() == Some(x@));
            assert(b.deep_view() is None);
            false
        },
        (None, Some(y)) => {
            assert(a.deep_view() is None);
            assert(b.deep_view() == Some(y@));
            false
        },
    }
}

/// The checker: holds the base locale and the per-locale reports built so
/// far (one per target locale file, keyed by locale code).
pub struct RoseyChecker {
    pub check: Vec<(String, RoseyCheck)>,
    pub base_locale: RoseyLocale,
}

impl RoseyChecker {
    /// Diff one target store against the base locale (see the module
    /// description for the classification rules).
    #[verifier::loop_isolation(false)]
    pub fn check_translation(&self, target_keys: &RoseyTranslation) -> (r: RoseyCheck)
        requires
            self.base_locale.wf(),
            target_keys.wf(),
            self.base_locale.keys.entries().len() <= i32::MAX,
            target_keys.entries().len() <= i32::MAX,
        ensures
            ({
                let base = self.base_locale.keys.entries();
                let target = target_keys.entries();
                let report = report_keys(base, target);
                &&& r.keys.deep_view() == report
                &&& r.base_total == base.len()
                &&& r.total == target.len()
                &&& r.states.current == count_state(report, RoseyCheckStates::Current)
                &&& r.states.outdated == count_state(report, RoseyCheckStates::Outdated)
                &&& r.states.missing == count_state(report, RoseyCheckStates::Missing)
                &&& r.states.unused == count_state(report, RoseyCheckStates::Unused)
                &&& r.current == (count_state(report, RoseyCheckStates::Outdated) == 0
                    && count_state(report, RoseyCheckStates::Missing) == 0 && count_state(
                    report,
                    RoseyCheckStates::Unused,
                ) == 0)
            }),
    {
        let ghost base = self.base_locale.keys.entries();
        let ghost target = target_keys.entries();
        let base_norm = self.base_locale.keys.normalize();
        let mut work = target_keys.normalize();
        proof {
            lemma_dv2(base_norm);
            lemma_dv2(work);
        }

        let base_total = base_norm.len() as i32;
        let total = work.len() as i32;
        let mut keys_out: Vec<(String, RoseyCheckStates)> = Vec::new();
        let mut n_current: i32 = 0;
        let mut n_outdated: i32 = 0;
        let mut n_missing: i32 = 0;
        let mut n_unused: i32 = 0;
        let mut current = true;

        let n = base_norm.len();
        let mut i: usize = 0;
        while i < n
            invariant
                0 <= i <= n,
                work.deep_view() == drained(target, base, i as int),
                keys_distinct(work.deep_view()),
                forall|j: int| 0 <= j < work@.len() ==> (#[trigger] work@[j]).1.wf(),
                keys_out.deep_view() == classified(base.subrange(0, i as int), target),
                n_current == count_state(keys_out.deep_view(), RoseyCheckStates::Current),
                n_outdated == count_state(keys_out.deep_view(), RoseyCheckStates::Outdated),
                n_missing == count_state(keys_out.deep_view(), RoseyCheckStates::Missing),
                n_unused == count_state(keys_out.deep_view(), RoseyCheckStates::Unused),
                0 <= n_current + n_outdated + n_missing + n_unused <= i,
                0 <= n_current && 0 <= n_outdated && 0 <= n_missing && 0 <= n_unused,
                current == (n_outdated == 0 && n_missing == 0 && n_unused == 0),
            decreases n - i,
        {
            let key: &String = &base_norm[i].0;
            let ghost k = key@;
            assert(base[i as int].0 == k);
            let ghost cls = classify(base[i as int].1, lookup(target, k));
            let state = match v2_find(&work, key) {
                Some(widx) => {
                    proof {
                        crate::kv::lemma_lookup_at(work.deep_view(), widx as int);
                        lemma_drained_lookup(target, base, i as int, k);
                    }
                    let st = if opt_str_eq(&base_norm[i].1.original, &work[widx].1.original) {
                        RoseyCheckStates::Current
                    } else {
                        RoseyCheckStates::Outdated
                    };
                    proof {
                        assert(base_norm.deep_view()[i as int].1 == base[i as int].1);
                        assert(work.deep_view()[widx as int].1 == lookup(target, k)->0);
                        assert(work@[widx as int].1@.original == work@[widx as int].1.original.deep_view());
                        assert(base_norm@[i as int].1@.original == base_norm@[i as int].1.original.deep_view());
                        assert(st == cls);
                    }
                    st
                },
                None => {
                    proof {
                        crate::kv::lemma_lookup_none(work.deep_view(), k);
                        lemma_drained_lookup(target, base, i as int, k);
                        assert(cls is Missing);
                    }
                    RoseyCheckStates::Missing
                },
            };
            assert(state == cls);
            proof {
                lemma_dvc(keys_out);
            }
            match state {
                RoseyCheckStates::Current => {
                    n_current = n_current + 1;
                },
                RoseyCheckStates::Outdated => {
                    n_outdated = n_outdated + 1;
                    current = false;
                },
                RoseyCheckStates::Missing => {
                    n_missing = n_missing + 1;
                    current = false;
                },
                RoseyCheckStates::Unused => {
                    n_unused = n_unused + 1;
                    current = false;
                },
            }
            keys_out.push((key.clone(), state));
            v2_remove(&mut work, key.as_str());
            proof {
                lemma_dvc(keys_out);
                lemma_dv2(work);
                assert(work.deep_view() == drained(target, base, i + 1 as int));
                assert(base.subrange(0, i + 1 as int) =~= base.subrange(0, i as int).push(
                    base[i as int],
                ));
                assert(keys_out.deep_view().last() == (k, cls));
                assert(classified(base.subrange(0, i + 1 as int), target)[i as int] == (k, cls));
                assert forall|jj: int| 0 <= jj < keys_out.deep_view().len() implies keys_out
                    .deep_view()[jj] == classified(base.subrange(0, i + 1 as int), target)[jj] by {
                    if jj < i {
                        assert(base.subrange(0, i + 1 as int)[jj] == base.subrange(0, i as int)[jj]);
                        assert(keys_out.deep_view()[jj] == classified(
                            base.subrange(0, i as int),
                            target,
                        )[jj]);
                    }
                }
                assert(keys_out.deep_view() =~= classified(base.subrange(0, i + 1 as int), target));
                assert(keys_out.deep_view().drop_last() =~= classified(
                    base.subrange(0, i as int),
                    target,
                ));
            }
            i = i + 1;
        }

        proof {
            assert(base.subrange(0, n as int) =~= base);
            lemma_drained_wf(target, base, n as int);
        }

        // Everything still in the working copy is unused.
        let ghost ghost_classified = classified(base, target);
        let ghost leftover = drained(target, base, base.len() as int);
        proof {
            lemma_classified_no_unused(base, target);
            assert(ghost_classified + leftover.subrange(0, 0).map_values(unused_fn())
                =~= ghost_classified);
        }
        let m = work.len();
        let mut j: usize = 0;
        while j < m
            invariant
                0 <= j <= m,
                m == work@.len(),
                work.deep_view() == leftover,
                keys_out.deep_view() == ghost_classified + leftover.subrange(0, j as int)
                    .map_values(unused_fn()),
                n_current == count_state(keys_out.deep_view(), RoseyCheckStates::Current),
                n_outdated == count_state(keys_out.deep_view(), RoseyCheckStates::Outdated),
                n_missing == count_state(keys_out.deep_view(), RoseyCheckStates::Missing),
                n_unused == count_state(keys_out.deep_view(), RoseyCheckStates::Unused),
                n_unused == j,
                0 <= n_current && 0 <= n_outdated && 0 <= n_missing,
                current == (n_outdated == 0 && n_missing == 0 && n_unused == 0),
            decreases m - j,
        {
            current = false;
            proof {
                lemma_dvc(keys_out);
                lemma_count_concat(
                    ghost_classified,
                    leftover.subrange(0, j as int).map_values(unused_fn()),
                    RoseyCheckStates::Unused,
                );
                lemma_count_unused_mapped(leftover.subrange(0, j as int));
            }
            n_unused = n_unused + 1;
            keys_out.push((work[j].0.clone(), RoseyCheckStates::Unused));
            proof {
                lemma_dv2(work);
                lemma_dvc(keys_out);
                assert(leftover.subrange(0, j + 1 as int) =~= leftover.subrange(0, j as int).push(
                    leftover[j as int],
                ));
                assert(keys_out.deep_view().last() == (work@[j as int].0@,
                RoseyCheckStates::Unused));
                assert(leftover[j as int].0 == work@[j as int].0@);
                assert forall|jj: int| 0 <= jj < keys_out.deep_view().len() implies keys_out
                    .deep_view()[jj] == (ghost_classified + leftover.subrange(0, j + 1 as int)
                    .map_values(unused_fn()))[jj] by {
                    if jj < ghost_classified.len() + j {
                        assert(keys_out.deep_view()[jj] == (ghost_classified + leftover.subrange(
                            0,
                            j as int,
                        ).map_values(unused_fn()))[jj]);
                        if jj >= ghost_classified.len() {
                            assert(leftover.subrange(0, j + 1 as int)[jj
                                - ghost_classified.len()] == leftover.subrange(0, j as int)[jj
                                - ghost_classified.len()]);
                        }
                    } else {
                        assert(jj == ghost_classified.len() + j);
                        assert(leftover.subrange(0, j + 1 as int)[j as int] == leftover[j as int]);
                    }
                }
                assert(keys_out.deep_view() =~= ghost_classified + leftover.subrange(
                    0,
                    j + 1 as int,
                ).map_values(unused_fn()));
                assert(keys_out.deep_view().drop_last() =~= ghost_classified + leftover.subrange(
                    0,
                    j as int,
                ).map_values(unused_fn()));
            }
            j = j + 1;
        }

        proof {
            assert(leftover.subrange(0, m as int) =~= leftover);
            assert(keys_out.deep_view() =~= report_keys(base, target));
        }

        RoseyCheck {
            current,
            base_total,
            total,
            states: RoseyCheckCounts {
                current: n_current,
                outdated: n_outdated,
                missing: n_missing,
                unused: n_unused,
            },
            keys: keys_out,
        }
    }
}

} // verus!
