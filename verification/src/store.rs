//! The versioned locale store: translation entries, the two on-disk shapes
//! (V1 flat string map, V2 entry map), and the locale wrapper.
//!
//! A store is modelled as an association sequence of `(key, entry)` pairs
//! with distinct keys (see [`crate::kv`]); V1 stores are read through the
//! same model by viewing each plain string as an entry with only `value`
//! populated, which is exactly what `normalize` produces.

use crate::kv::keys_distinct;
use crate::kv::lemma_lookup_at;
use crate::kv::lemma_lookup_map_values;
use crate::kv::lemma_lookup_none;
use crate::kv::lemma_remove_key_absent;
use crate::kv::lemma_remove_key_at;
use crate::kv::lemma_remove_key_map_values;
use crate::kv::lemma_remove_key_props;
use crate::kv::lemma_set_key_map_values;
use crate::kv::remove_key;
use crate::kv::lemma_set_key_props;
use crate::kv::lemma_set_key_push;
use crate::kv::lemma_set_key_update;
use crate::kv::lookup;
use crate::kv::map_entry_values;
use crate::kv::set_key;
use crate::text::replace_char;
use crate::text::replaced;
use vstd::prelude::*;

verus! {

/// The mathematical reading of one translation entry.
pub ghost struct EntryView {
    pub original: Option<Seq<char>>,
    pub value: Option<Seq<char>>,
    pub pages: Option<Seq<(Seq<char>, u32)>>,
    pub total: Option<u32>,
}

/// One translation record in a locale store. `original` is the
/// source-language text captured at generation time, `value` the
/// human-supplied translation, and `pages`/`total` usage statistics
/// accumulated during extraction.
pub struct RoseyTranslationEntry {
    pub original: Option<String>,
    pub value: Option<String>,
    pub pages: Option<Vec<(String, u32)>>,
    pub total: Option<u32>,
}

impl View for RoseyTranslationEntry {
    type V = EntryView;

    open spec fn view(&self) -> EntryView {
        EntryView {
            original: self.original.deep_view(),
            value: self.value.deep_view(),
            pages: match self.pages {
                Some(p) => Some(p.deep_view()),
                None => None,
            },
            total: self.total,
        }
    }
}

impl DeepView for RoseyTranslationEntry {
    type V = EntryView;

    open spec fn deep_view(&self) -> EntryView {
        self.view()
    }
}

/// The entry recorded for freshly extracted source text.
pub open spec fn fresh_entry(original: Seq<char>) -> EntryView {
    EntryView { original: Some(original), value: None, pages: Some(Seq::empty()), total: Some(0) }
}

/// The entry a V1 store implies for a plain translated string.
pub open spec fn v1_entry(value: Seq<char>) -> EntryView {
    EntryView { original: None, value: Some(value), pages: None, total: None }
}

/// [`v1_entry`] as a value-map function (one shared term, so that mapped
/// sequences built in different places compare equal).
pub open spec fn v1_entry_fn() -> spec_fn(Seq<char>) -> EntryView {
    |v: Seq<char>| v1_entry(v)
}

impl RoseyTranslationEntry {
    /// Page counters must not repeat a page.
    pub open spec fn wf(self) -> bool {
        match self@.pages {
            Some(p) => keys_distinct(p),
            None => true,
        }
    }

    /// A fresh entry for newly extracted source text: statistics start at
    /// zero and no translation is present yet.
    pub fn new(original: String) -> (e: RoseyTranslationEntry)
        ensures
            e@ == fresh_entry(original@),
            e.wf(),
    {
        let e = RoseyTranslationEntry {
            original: Some(original),
            pages: Some(Vec::new()),
            total: Some(0),
            value: None,
        };
        assert(e@.pages->0 =~= Seq::<(Seq<char>, u32)>::empty());
        e
    }
}

/// Saturating increment: a counter sticks at the largest value rather than
/// overflowing.
pub open spec fn sat_inc(c: u32) -> u32 {
    if c == u32::MAX {
        u32::MAX
    } else {
        (c + 1) as u32
    }
}

/// The count a page reaches after one more observation.
pub open spec fn bumped_count(pages: Seq<(Seq<char>, u32)>, page: Seq<char>) -> u32 {
    match lookup(pages, page) {
        Some(c) => sat_inc(c),
        None => 1u32,
    }
}

/// What a counted insert does to an entry: a missing key starts from a
/// fresh entry for the inserted text; an entry that tracks statistics has
/// its total and the current page's counter bumped; one that does not
/// (a V1-normalized entry) is left as it stands.
pub open spec fn counted_entry(
    prev: Option<EntryView>,
    value: Seq<char>,
    page: Seq<char>,
) -> EntryView {
    let base = match prev {
        Some(e) => e,
        None => fresh_entry(value),
    };
    match (base.total, base.pages) {
        (Some(t), Some(p)) => EntryView {
            original: base.original,
            value: base.value,
            total: Some(sat_inc(t)),
            pages: Some(set_key(p, page, bumped_count(p, page))),
        },
        _ => base,
    }
}

/// Bridges a V1 vector's deep view to plain indexing.
pub proof fn lemma_dv1(keys: Vec<(String, String)>)
    ensures
        keys.deep_view().len() == keys@.len(),
        forall|j: int|
            0 <= j < keys@.len() ==> #[trigger] keys.deep_view()[j] == (keys@[j].0@, keys@[j].1@),
{
}

/// Bridges a V2 vector's deep view to plain indexing.
pub proof fn lemma_dv2(keys: Vec<(String, RoseyTranslationEntry)>)
    ensures
        keys.deep_view().len() == keys@.len(),
        forall|j: int|
            0 <= j < keys@.len() ==> #[trigger] keys.deep_view()[j] == (keys@[j].0@, keys@[j].1@),
{
}

/// Bridges a pages vector's deep view to plain indexing.
pub proof fn lemma_dvp(pages: Vec<(String, u32)>)
    ensures
        pages.deep_view().len() == pages@.len(),
        forall|j: int|
            0 <= j < pages@.len() ==> #[trigger] pages.deep_view()[j] == (pages@[j].0@, pages@[j].1),
{
}

/// A locale store's key map, in one of its two on-disk shapes: V1 maps each
/// key to a translated string only, V2 to a full entry.
pub enum RoseyTranslation {
    V1(Vec<(String, String)>),
    V2(Vec<(String, RoseyTranslationEntry)>),
}

impl RoseyTranslation {
    /// The store read as an association sequence of normalized entries.
    /// For a V1 store this reading *is* the normalization: each entry has
    /// only `value` populated.
    pub open spec fn entries(self) -> Seq<(Seq<char>, EntryView)> {
        match self {
            RoseyTranslation::V1(keys) => map_entry_values(
                keys.deep_view(),
                v1_entry_fn(),
            ),
            RoseyTranslation::V2(keys) => keys.deep_view(),
        }
    }

    /// Keys are distinct, and every entry's page counters are well formed.
    pub open spec fn wf(self) -> bool {
        match self {
            RoseyTranslation::V1(keys) => keys_distinct(keys.deep_view()),
            RoseyTranslation::V2(keys) => keys_distinct(keys.deep_view()) && forall|i: int|
                0 <= i < keys@.len() ==> (#[trigger] keys@[i]).1.wf(),
        }
    }

    /// The translated text the store holds for `key`: the mapped string of
    /// a V1 store, the entry's `value` field of a V2 store.
    pub open spec fn spec_get(self, key: Seq<char>) -> Option<Seq<char>> {
        match lookup(self.entries(), key) {
            Some(e) => e.value,
            None => None,
        }
    }

    #[verifier::loop_isolation(false)]
    pub fn get(&self, key: &str) -> (r: Option<&String>)
        requires
            self.wf(),
        ensures
            r.deep_view() == self.spec_get(key@),
    {
        let k: String = key.to_owned();
        match self {
            RoseyTranslation::V1(keys) => {
                proof {
                    lemma_dv1(*keys);
                }
                let n = keys.len();
                let mut i: usize = 0;
                while i < n
                    invariant
                        n == keys@.len(),
                        0 <= i <= n,
                        forall|j: int| 0 <= j < i ==> keys.deep_view()[j].0 != k@,
                        k@ == key@,
                        keys_distinct(keys.deep_view()),
                    decreases n - i,
                {
                    if keys[i].0 == k {
                        proof {
                            lemma_lookup_at(keys.deep_view(), i as int);
                            lemma_lookup_map_values(keys.deep_view(), v1_entry_fn(), key@);
                        }
                        return Some(&keys[i].1);
                    }
                    i = i + 1;
                }
                proof {
                    lemma_lookup_none(keys.deep_view(), key@);
                    lemma_lookup_map_values(keys.deep_view(), v1_entry_fn(), key@);
                }
                None
            },
            RoseyTranslation::V2(keys) => {
                proof {
                    lemma_dv2(*keys);
                }
                let n = keys.len();
                let mut i: usize = 0;
                while i < n
                    invariant
                        n == keys@.len(),
                        0 <= i <= n,
                        forall|j: int| 0 <= j < i ==> keys.deep_view()[j].0 != k@,
                        k@ == key@,
                        keys_distinct(keys.deep_view()),
                    decreases n - i,
                {
                    if keys[i].0 == k {
                        proof {
                            lemma_lookup_at(keys.deep_view(), i as int);
                        }
                        return keys[i].1.value.as_ref();
                    }
                    i = i + 1;
                }
                proof {
                    lemma_lookup_none(keys.deep_view(), key@);
                }
                None
            },
        }
    }

    /// Record an observation of `key` with source text `value` on `page`.
    /// A V1 store simply binds the key to the text; a V2 store binds a
    /// missing key to a fresh entry and bumps the statistics of the entry
    /// it now holds (see [`counted_entry`]). The page path is normalized
    /// to forward slashes first.
    pub fn insert(&mut self, key: String, value: String, page: &str)
        requires
            old(self).wf(),
        ensures
            final(self).wf(),
            *final(self) is V1 <==> *old(self) is V1,
            final(self).entries() == set_key(
                old(self).entries(),
                key@,
                if *old(self) is V1 {
                    v1_entry(value@)
                } else {
                    counted_entry(
                        lookup(old(self).entries(), key@),
                        value@,
                        replaced(page@, '\\', '/'),
                    )
                },
            ),
    {
        match self {
            RoseyTranslation::V1(keys) => {
                proof {
                    lemma_set_key_map_values(
                        old(self).entries_raw_v1(),
                        v1_entry_fn(),
                        key@,
                        value@,
                    );
                }
                v1_set(keys, key, value);
            },
            RoseyTranslation::V2(keys) => {
                let page_norm = replace_char(page, '\\', '/');
                v2_insert_counted(keys, key, value, page_norm);
            },
        }
    }

    /// Bind `key` to `value` without touching any statistics: a V1 store
    /// binds the plain text, a V2 store binds a fresh entry (resetting any
    /// previous statistics for the key).
    pub fn insert_uncounted(&mut self, key: String, value: String)
        requires
            old(self).wf(),
        ensures
            final(self).wf(),
            *final(self) is V1 <==> *old(self) is V1,
            final(self).entries() == set_key(
                old(self).entries(),
                key@,
                if *old(self) is V1 {
                    v1_entry(value@)
                } else {
                    fresh_entry(value@)
                },
            ),
    {
        match self {
            RoseyTranslation::V1(keys) => {
                proof {
                    lemma_set_key_map_values(
                        old(self).entries_raw_v1(),
                        v1_entry_fn(),
                        key@,
                        value@,
                    );
                }
                v1_set(keys, key, value);
            },
            RoseyTranslation::V2(keys) => {
                proof {
                    lemma_dv2(*keys);
                }
                let e = RoseyTranslationEntry::new(value);
                v2_set(keys, key, e);
            },
        }
    }

    /// The raw deep view of a V1 store's vector (spec convenience).
    pub open spec fn entries_raw_v1(self) -> Seq<(Seq<char>, Seq<char>)> {
        match self {
            RoseyTranslation::V1(keys) => keys.deep_view(),
            RoseyTranslation::V2(keys) => Seq::empty(),
        }
    }

    /// Drop `key` from the store; an absent key leaves it unchanged.
    pub fn remove(&mut self, key: &str)
        requires
            old(self).wf(),
        ensures
            final(self).wf(),
            *final(self) is V1 <==> *old(self) is V1,
            final(self).entries() == remove_key(old(self).entries(), key@),
    {
        match self {
            RoseyTranslation::V1(keys) => {
                proof {
                    lemma_remove_key_map_values(
                        old(self).entries_raw_v1(),
                        v1_entry_fn(),
                        key@,
                    );
                }
                v1_remove(keys, key);
            },
            RoseyTranslation::V2(keys) => {
                v2_remove(keys, key);
            },
        }
    }

    /// The store as a V2-shaped entry map. A V1 store yields entries with
    /// only `value` populated — `original`, `total` and `pages` stay
    /// absent; a V2 store is reproduced as it stands.
    #[verifier::loop_isolation(false)]
    pub fn normalize(&self) -> (r: Vec<(String, RoseyTranslationEntry)>)
        requires
            self.wf(),
        ensures
            r.deep_view() == self.entries(),
            keys_distinct(r.deep_view()),
            forall|i: int| 0 <= i < r@.len() ==> (#[trigger] r@[i]).1.wf(),
    {
        match self {
            RoseyTranslation::V1(keys) => {
                proof {
                    lemma_dv1(*keys);
                }
                let mut out: Vec<(String, RoseyTranslationEntry)> = Vec::new();
                let n = keys.len();
                let mut i: usize = 0;
                while i < n
                    invariant
                        n == keys@.len(),
                        0 <= i <= n,
                        out.deep_view() == map_entry_values(
                            keys.deep_view().subrange(0, i as int),
                            v1_entry_fn(),
                        ),
                        forall|j: int| 0 <= j < out@.len() ==> (#[trigger] out@[j]).1.wf(),
                    decreases n - i,
                {
                    let e = RoseyTranslationEntry {
                        value: Some(keys[i].1.clone()),
                        original: None,
                        total: None,
                        pages: None,
                    };
                    out.push((keys[i].0.clone(), e));
                    proof {
                        lemma_dv2(out);
                        assert(e@ == v1_entry(keys@[i as int].1@));
                        assert(out@[i as int].1 == e);
                        assert(out.deep_view()[i as int] == (keys@[i as int].0@, e@));
                        assert(keys.deep_view().subrange(0, i + 1 as int) =~= keys
                            .deep_view()
                            .subrange(0, i as int)
                            .push(keys.deep_view()[i as int]));
                        assert forall|j: int| 0 <= j < out.deep_view().len() implies out
                            .deep_view()[j] == map_entry_values(
                            keys.deep_view().subrange(0, i + 1 as int),
                            v1_entry_fn(),
                        )[j] by {
                            if j < i {
                                assert(out.deep_view()[j] == map_entry_values(
                                    keys.deep_view().subrange(0, i as int),
                                    v1_entry_fn(),
                                )[j]);
                            }
                        }
                        assert(out.deep_view() =~= map_entry_values(
                            keys.deep_view().subrange(0, i + 1 as int),
                            v1_entry_fn(),
                        ));
                    }
                    i = i + 1;
                }
                proof {
                    assert(keys.deep_view().subrange(0, n as int) =~= keys.deep_view());
                    lemma_lookup_map_values(keys.deep_view(), v1_entry_fn(), Seq::<char>::empty());
                }
                out
            },
            RoseyTranslation::V2(keys) => {
                proof {
                    lemma_dv2(*keys);
                }
                let mut out: Vec<(String, RoseyTranslationEntry)> = Vec::new();
                let n = keys.len();
                let mut i: usize = 0;
                while i < n
                    invariant
                        n == keys@.len(),
                        0 <= i <= n,
                        out.deep_view() == keys.deep_view().subrange(0, i as int),
                        forall|j: int| 0 <= j < i ==> (#[trigger] keys@[j]).1.wf(),
                        forall|j: int| 0 <= j < out@.len() ==> (#[trigger] out@[j]).1.wf(),
                    decreases n - i,
                {
                    let e = clone_entry(&keys[i].1);
                    out.push((keys[i].0.clone(), e));
                    proof {
                        lemma_dv2(out);
                        assert(keys.deep_view().subrange(0, i + 1 as int) =~= keys
                            .deep_view()
                            .subrange(0, i as int)
                            .push(keys.deep_view()[i as int]));
                        assert(out.deep_view() =~= keys.deep_view().subrange(0, i + 1 as int));
                    }
                    i = i + 1;
                }
                proof {
                    assert(keys.deep_view().subrange(0, n as int) =~= keys.deep_view());
                }
                out
            },
        }
    }

    /// The number of keys the store holds.
    pub fn len(&self) -> (n: usize)
        ensures
            n == self.entries().len(),
    {
        match self {
            RoseyTranslation::V1(keys) => keys.len(),
            RoseyTranslation::V2(keys) => keys.len(),
        }
    }

    pub fn is_empty(&self) -> (b: bool)
        ensures
            b == (self.entries().len() == 0),
    {
        self.len() == 0
    }
}

/// A copy of an optional string, equal to the original.
pub fn clone_opt_string(o: &Option<String>) -> (r: Option<String>)
    ensures
        r.deep_view() == o.deep_view(),
        r is Some <==> o is Some,
{
    match o {
        Some(s) => Some(s.clone()),
        None => None,
    }
}

/// A copy of a page-counter vector, equal to the original.
pub fn clone_pages(p: &Vec<(String, u32)>) -> (r: Vec<(String, u32)>)
    ensures
        r@ == p@,
{
    let mut r: Vec<(String, u32)> = Vec::new();
    let n = p.len();
    let mut i: usize = 0;
    while i < n
        invariant
            n == p@.len(),
            0 <= i <= n,
            r@ == p@.subrange(0, i as int),
        decreases n - i,
    {
        r.push((p[i].0.clone(), p[i].1));
        assert(p@.subrange(0, i + 1 as int) =~= p@.subrange(0, i as int).push(p@[i as int]));
        i = i + 1;
    }
    assert(p@.subrange(0, n as int) =~= p@);
    r
}

/// A copy of a translation entry, equal to the original.
pub fn clone_entry(e: &RoseyTranslationEntry) -> (r: RoseyTranslationEntry)
    ensures
        r@ == e@,
{
    RoseyTranslationEntry {
        original: clone_opt_string(&e.original),
        value: clone_opt_string(&e.value),
        pages: match &e.pages {
            Some(p) => Some(clone_pages(p)),
            None => None,
        },
        total: e.total,
    }
}

/// First index holding `key` in a V1 vector.
#[verifier::loop_isolation(false)]
fn v1_find(keys: &Vec<(String, String)>, key: &String) -> (r: Option<usize>)
    ensures
        match r {
            Some(i) => i < keys@.len() && keys.deep_view()[i as int].0 == key@ && forall|j: int|
                0 <= j < i ==> keys.deep_view()[j].0 != key@,
            None => forall|j: int| 0 <= j < keys@.len() ==> keys.deep_view()[j].0 != key@,
        },
{
    proof {
        lemma_dv1(*keys);
    }
    let n = keys.len();
    let mut i: usize = 0;
    while i < n
        invariant
            0 <= i <= n,
            forall|j: int| 0 <= j < i ==> keys.deep_view()[j].0 != key@,
        decreases n - i,
    {
        if keys[i].0 == *key {
            return Some(i);
        }
        i = i + 1;
    }
    None
}

/// First index holding `key` in a V2 vector.
#[verifier::loop_isolation(false)]
pub(crate) fn v2_find(keys: &Vec<(String, RoseyTranslationEntry)>, key: &String) -> (r: Option<usize>)
    ensures
        match r {
            Some(i) => i < keys@.len() && keys.deep_view()[i as int].0 == key@ && forall|j: int|
                0 <= j < i ==> keys.deep_view()[j].0 != key@,
            None => forall|j: int| 0 <= j < keys@.len() ==> keys.deep_view()[j].0 != key@,
        },
{
    proof {
        lemma_dv2(*keys);
    }
    let n = keys.len();
    let mut i: usize = 0;
    while i < n
        invariant
            0 <= i <= n,
            forall|j: int| 0 <= j < i ==> keys.deep_view()[j].0 != key@,
        decreases n - i,
    {
        if keys[i].0 == *key {
            return Some(i);
        }
        i = i + 1;
    }
    None
}

/// First index holding `page` in a page-counter vector.
#[verifier::loop_isolation(false)]
fn pages_find(pages: &Vec<(String, u32)>, page: &String) -> (r: Option<usize>)
    ensures
        match r {
            Some(i) => i < pages@.len() && pages.deep_view()[i as int].0 == page@ && forall|j: int|
                0 <= j < i ==> pages.deep_view()[j].0 != page@,
            None => forall|j: int| 0 <= j < pages@.len() ==> pages.deep_view()[j].0 != page@,
        },
{
    proof {
        lemma_dvp(*pages);
    }
    let n = pages.len();
    let mut i: usize = 0;
    while i < n
        invariant
            0 <= i <= n,
            forall|j: int| 0 <= j < i ==> pages.deep_view()[j].0 != page@,
        decreases n - i,
    {
        if pages[i].0 == *page {
            return Some(i);
        }
        i = i + 1;
    }
    None
}

/// Bind `key` to `value` in a V1 vector.
pub(crate) fn v1_set(keys: &mut Vec<(String, String)>, key: String, value: String)
    requires
        keys_distinct(old(keys).deep_view()),
    ensures
        final(keys).deep_view() == set_key(old(keys).deep_view(), key@, value@),
        keys_distinct(final(keys).deep_view()),
{
    proof {
        lemma_dv1(*old(keys));
        lemma_set_key_props(old(keys).deep_view(), key@, value@);
    }
    match v1_find(keys, &key) {
        Some(i) => {
            proof {
                lemma_lookup_at(old(keys).deep_view(), i as int);
                lemma_set_key_update(old(keys).deep_view(), i as int, value@);
            }
            let p = &mut keys[i];
            p.1 = value;
            proof {
                lemma_dv1(*keys);
                assert(keys.deep_view() =~= old(keys).deep_view().update(
                    i as int,
                    (key@, value@),
                ));
            }
        },
        None => {
            proof {
                lemma_lookup_none(old(keys).deep_view(), key@);
                lemma_set_key_push(old(keys).deep_view(), key@, value@);
            }
            keys.push((key, value));
            proof {
                lemma_dv1(*keys);
                assert(keys.deep_view() =~= old(keys).deep_view().push(
                    (keys@.last().0@, keys@.last().1@),
                ));
            }
        },
    }
}

/// Bind `key` to entry `e` in a V2 vector.
fn v2_set(keys: &mut Vec<(String, RoseyTranslationEntry)>, key: String, e: RoseyTranslationEntry)
    requires
        keys_distinct(old(keys).deep_view()),
        forall|i: int| 0 <= i < old(keys)@.len() ==> (#[trigger] old(keys)@[i]).1.wf(),
        e.wf(),
    ensures
        final(keys).deep_view() == set_key(old(keys).deep_view(), key@, e@),
        keys_distinct(final(keys).deep_view()),
        forall|i: int| 0 <= i < final(keys)@.len() ==> (#[trigger] final(keys)@[i]).1.wf(),
{
    proof {
        lemma_dv2(*old(keys));
        lemma_set_key_props(old(keys).deep_view(), key@, e@);
    }
    match v2_find(keys, &key) {
        Some(i) => {
            proof {
                lemma_lookup_at(old(keys).deep_view(), i as int);
                lemma_set_key_update(old(keys).deep_view(), i as int, e@);
            }
            let p = &mut keys[i];
            p.1 = e;
            proof {
                lemma_dv2(*keys);
                assert(keys.deep_view() =~= old(keys).deep_view().update(i as int, (key@, e@)));
            }
        },
        None => {
            proof {
                lemma_lookup_none(old(keys).deep_view(), key@);
                lemma_set_key_push(old(keys).deep_view(), key@, e@);
            }
            keys.push((key, e));
            proof {
                lemma_dv2(*keys);
                assert(keys.deep_view() =~= old(keys).deep_view().push(
                    (keys@.last().0@, keys@.last().1@),
                ));
            }
        },
    }
}

/// Bump the counter of `page`, starting a missing page at one.
fn bump_page(pages: &mut Vec<(String, u32)>, page: &String)
    requires
        keys_distinct(old(pages).deep_view()),
    ensures
        final(pages).deep_view() == set_key(
            old(pages).deep_view(),
            page@,
            bumped_count(old(pages).deep_view(), page@),
        ),
        keys_distinct(final(pages).deep_view()),
{
    proof {
        lemma_dvp(*old(pages));
        lemma_set_key_props(
            old(pages).deep_view(),
            page@,
            bumped_count(old(pages).deep_view(), page@),
        );
    }
    match pages_find(pages, page) {
        Some(i) => {
            let c = pages[i].1;
            proof {
                lemma_lookup_at(old(pages).deep_view(), i as int);
                lemma_set_key_update(
                    old(pages).deep_view(),
                    i as int,
                    bumped_count(old(pages).deep_view(), page@),
                );
            }
            let p = &mut pages[i];
            p.1 = c.saturating_add(1);
            proof {
                lemma_dvp(*pages);
                assert(pages.deep_view() =~= old(pages).deep_view().update(
                    i as int,
                    (page@, sat_inc(c)),
                ));
            }
        },
        None => {
            proof {
                lemma_lookup_none(old(pages).deep_view(), page@);
                lemma_set_key_push(old(pages).deep_view(), page@, 1u32);
            }
            pages.push((page.clone(), 1));
            proof {
                lemma_dvp(*pages);
                assert(pages.deep_view() =~= old(pages).deep_view().push((page@, 1u32)));
            }
        },
    }
}

/// Record a counted observation of `key` in a V2 vector (see
/// [`counted_entry`]).
fn v2_insert_counted(
    keys: &mut Vec<(String, RoseyTranslationEntry)>,
    key: String,
    value: String,
    page_norm: String,
)
    requires
        keys_distinct(old(keys).deep_view()),
        forall|i: int| 0 <= i < old(keys)@.len() ==> (#[trigger] old(keys)@[i]).1.wf(),
    ensures
        final(keys).deep_view() == set_key(
            old(keys).deep_view(),
            key@,
            counted_entry(lookup(old(keys).deep_view(), key@), value@, page_norm@),
        ),
        keys_distinct(final(keys).deep_view()),
        forall|i: int| 0 <= i < final(keys)@.len() ==> (#[trigger] final(keys)@[i]).1.wf(),
{
    proof {
        lemma_dv2(*old(keys));
    }
    match v2_find(keys, &key) {
        Some(i) => {
            proof {
                lemma_lookup_at(old(keys).deep_view(), i as int);
            }
            let has_stats = keys[i].1.total.is_some() && keys[i].1.pages.is_some();
            if has_stats {
                let t = match keys[i].1.total {
                    Some(t) => t,
                    None => 0,
                };
                let new_entry = RoseyTranslationEntry {
                    original: clone_opt_string(&keys[i].1.original),
                    value: clone_opt_string(&keys[i].1.value),
                    total: Some(t.saturating_add(1)),
                    pages: match &keys[i].1.pages {
                        Some(p) => {
                            let mut p2 = clone_pages(p);
                            proof {
                                lemma_dvp(*p);
                                lemma_dvp(p2);
                                assert(p2.deep_view() =~= p.deep_view());
                            }
                            bump_page(&mut p2, &page_norm);
                            Some(p2)
                        },
                        None => None,
                    },
                };
                proof {
                    lemma_set_key_update(old(keys).deep_view(), i as int, new_entry@);
                }
                let p = &mut keys[i];
                p.1 = new_entry;
                proof {
                    lemma_dv2(*keys);
                    assert(keys.deep_view() =~= old(keys).deep_view().update(
                        i as int,
                        (key@, new_entry@),
                    ));
                }
            } else {
                // No statistics to bump: the entry stays as it is, and so
                // does the whole vector.
                proof {
                    let e = old(keys).deep_view()[i as int].1;
                    assert(counted_entry(Some(e), value@, page_norm@) == e);
                    lemma_set_key_update(old(keys).deep_view(), i as int, e);
                    assert(old(keys).deep_view().update(
                        i as int,
                        (key@, e),
                    ) =~= old(keys).deep_view());
                }
            }
        },
        None => {
            proof {
                lemma_lookup_none(old(keys).deep_view(), key@);
            }
            let mut pages0: Vec<(String, u32)> = Vec::new();
            pages0.push((page_norm, 1));
            let e = RoseyTranslationEntry {
                original: Some(value),
                value: None,
                total: Some(1),
                pages: Some(pages0),
            };
            proof {
                lemma_dvp(e.pages->0);
                assert(e@.pages->0 =~= Seq::<(Seq<char>, u32)>::empty().push((page_norm@, 1u32)));
                assert(set_key(Seq::<(Seq<char>, u32)>::empty(), page_norm@, 1u32)
                    =~= Seq::<(Seq<char>, u32)>::empty().push((page_norm@, 1u32)));
                lemma_set_key_push(old(keys).deep_view(), key@, e@);
            }
            keys.push((key, e));
            proof {
                lemma_dv2(*keys);
                assert(keys.deep_view() =~= old(keys).deep_view().push(
                    (keys@.last().0@, keys@.last().1@),
                ));
            }
        },
    }
}

/// Drop `key` from a V1 vector.
fn v1_remove(keys: &mut Vec<(String, String)>, key: &str)
    requires
        keys_distinct(old(keys).deep_view()),
    ensures
        final(keys).deep_view() == remove_key(old(keys).deep_view(), key@),
        keys_distinct(final(keys).deep_view()),
{
    proof {
        lemma_dv1(*old(keys));
        lemma_remove_key_props(old(keys).deep_view(), key@);
    }
    let k: String = key.to_owned();
    match v1_find(keys, &k) {
        Some(i) => {
            proof {
                lemma_remove_key_at(old(keys).deep_view(), i as int);
            }
            keys.remove(i);
            proof {
                lemma_dv1(*keys);
                assert(keys.deep_view() =~= old(keys).deep_view().remove(i as int));
            }
        },
        None => {
            proof {
                lemma_remove_key_absent(old(keys).deep_view(), key@);
            }
        },
    }
}

/// A locale: the persisted key-entry map for one language, together with
/// the on-disk format version it was read from or will be written in.
pub struct RoseyLocale {
    pub version: u8,
    pub keys: RoseyTranslation,
}

impl RoseyLocale {
    pub open spec fn wf(self) -> bool {
        self.keys.wf()
    }

    /// An empty store in the given on-disk shape. Only versions one and
    /// two exist.
    pub fn new(version: u8) -> (r: RoseyLocale)
        requires
            version == 1 || version == 2,
        ensures
            r.version == version,
            r.keys.entries() == Seq::<(Seq<char>, EntryView)>::empty(),
            (r.keys is V1) == (version == 1),
            r.wf(),
    {
        let keys = if version == 2 {
            RoseyTranslation::V2(Vec::new())
        } else {
            RoseyTranslation::V1(Vec::new())
        };
        proof {
            if version == 2 {
                assert(keys.entries() =~= Seq::<(Seq<char>, EntryView)>::empty());
            } else {
                assert(keys.entries() =~= Seq::<(Seq<char>, EntryView)>::empty());
            }
        }
        RoseyLocale { version, keys }
    }

    /// Record a counted observation (see [`RoseyTranslation::insert`]).
    pub fn insert(&mut self, key: String, value: String, page: &str)
        requires
            old(self).wf(),
        ensures
            final(self).wf(),
            final(self).version == old(self).version,
            final(self).keys is V1 <==> old(self).keys is V1,
            final(self).keys.entries() == set_key(
                old(self).keys.entries(),
                key@,
                if old(self).keys is V1 {
                    v1_entry(value@)
                } else {
                    counted_entry(
                        lookup(old(self).keys.entries(), key@),
                        value@,
                        replaced(page@, '\\', '/'),
                    )
                },
            ),
    {
        self.keys.insert(key, value, page);
    }

    /// Bind without counting (see [`RoseyTranslation::insert_uncounted`]).
    pub fn insert_uncounted(&mut self, key: String, value: String)
        requires
            old(self).wf(),
        ensures
            final(self).wf(),
            final(self).version == old(self).version,
            final(self).keys is V1 <==> old(self).keys is V1,
            final(self).keys.entries() == set_key(
                old(self).keys.entries(),
                key@,
                if old(self).keys is V1 {
                    v1_entry(value@)
                } else {
                    fresh_entry(value@)
                },
            ),
    {
        self.keys.insert_uncounted(key, value);
    }
}

impl Default for RoseyLocale {
    /// An empty V2 locale.
    fn default() -> (r: RoseyLocale)
        ensures
            r.version == 2,
            r.keys.entries() == Seq::<(Seq<char>, EntryView)>::empty(),
            r.keys is V2,
            r.wf(),
    {
        RoseyLocale::new(2)
    }
}

/// Drop `key` from a V2 vector.
pub(crate) fn v2_remove(keys: &mut Vec<(String, RoseyTranslationEntry)>, key: &str)
    requires
        keys_distinct(old(keys).deep_view()),
        forall|i: int| 0 <= i < old(keys)@.len() ==> (#[trigger] old(keys)@[i]).1.wf(),
    ensures
        final(keys).deep_view() == remove_key(old(keys).deep_view(), key@),
        keys_distinct(final(keys).deep_view()),
        forall|i: int| 0 <= i < final(keys)@.len() ==> (#[trigger] final(keys)@[i]).1.wf(),
{
    proof {
        lemma_dv2(*old(keys));
        lemma_remove_key_props(old(keys).deep_view(), key@);
    }
    let k: String = key.to_owned();
    match v2_find(keys, &k) {
        Some(i) => {
            proof {
                lemma_remove_key_at(old(keys).deep_view(), i as int);
            }
            keys.remove(i);
            proof {
                lemma_dv2(*keys);
                assert(keys.deep_view() =~= old(keys).deep_view().remove(i as int));
            }
        },
        None => {
            proof {
                lemma_remove_key_absent(old(keys).deep_view(), key@);
            }
        },
    }
}

} // verus!
