//! The schema-driven JSON variant of extraction and injection: a source
//! document is walked in lock-step with a structurally parallel schema
//! document whose string values carry pipe-delimited directives
//! (`rosey-ns`, `rosey-array-ns`, `rosey:<name>`).
//!
//! A mismatch of shapes at any position skips that subtree and nothing
//! else. A `rosey-ns` directive contributes the source value, lower-cased,
//! as a namespace segment and emits no key at that node; a `rosey:<name>`
//! directive emits (extraction) or rewrites (injection) the source string
//! under the accumulated namespace plus `name`.

use crate::generate::RoseyGenerator;
use crate::generate::insert_pairs;
use crate::generate::lemma_insert_pairs_concat;
use crate::store::RoseyTranslation;
use crate::text::has_prefix;
use crate::text::lemma_dv_strings;
use crate::text::split_char;
use crate::text::split_on;
use crate::text::trim_str;
use crate::text::trimmed;
use vstd::prelude::*;
use vstd::string::StrSliceExecFns;
use vstd::string::StringExecFns;

verus! {

/// One JSON value. Only the structure the walkers read is modelled:
/// numbers keep their literal text and booleans and nulls are bare, since
/// the engines never look inside them.
pub enum JsonValue {
    Object(Vec<(String, JsonValue)>),
    Array(Vec<JsonValue>),
    String(String),
    Number(String),
    Bool(bool),
    Null,
}

/// First-match lookup among an object's members.
pub open spec fn jlookup(pairs: Seq<(String, JsonValue)>, k: Seq<char>) -> Option<JsonValue>
    decreases pairs.len(),
{
    if pairs.len() == 0 {
        None
    } else if pairs[0].0@ == k {
        Some(pairs[0].1)
    } else {
        jlookup(pairs.drop_first(), k)
    }
}

/// The member of an object named `key`.
#[verifier::loop_isolation(false)]
pub fn json_obj_get<'a>(pairs: &'a Vec<(String, JsonValue)>, key: &str) -> (r: Option<
    &'a JsonValue,
>)
    ensures
        match r {
            Some(v) => jlookup(pairs@, key@) == Some(*v),
            None => jlookup(pairs@, key@) is None,
        },
{
    let n = pairs.len();
    let mut i: usize = 0;
    while i < n
        invariant
            0 <= i <= n,
            n == pairs@.len(),
            forall|j: int| 0 <= j < i ==> pairs@[j].0@ != key@,
        decreases n - i,
    {
        if crate::text::str_eq(pairs[i].0.as_str(), key) {
            proof {
                lemma_jlookup_at(pairs@, i as int);
            }
            return Some(&pairs[i].1);
        }
        i = i + 1;
    }
    proof {
        lemma_jlookup_none(pairs@, key@);
    }
    None
}

/// A member whose prefix misses the key is found further right.
proof fn lemma_jlookup_at(pairs: Seq<(String, JsonValue)>, i: int)
    requires
        0 <= i < pairs.len(),
        forall|j: int| 0 <= j < i ==> pairs[j].0@ != pairs[i].0@,
    ensures
        jlookup(pairs, pairs[i].0@) == Some(pairs[i].1),
    decreases i,
{
    if i > 0 {
        lemma_jlookup_at(pairs.drop_first(), i - 1);
        assert(pairs.drop_first()[i - 1] == pairs[i]);
    }
}

/// A key missed by every member looks up to nothing.
proof fn lemma_jlookup_none(pairs: Seq<(String, JsonValue)>, k: Seq<char>)
    requires
        forall|j: int| 0 <= j < pairs.len() ==> pairs[j].0@ != k,
    ensures
        jlookup(pairs, k) is None,
    decreases pairs.len(),
{
    if pairs.len() > 0 {
        lemma_jlookup_none(pairs.drop_first(), k);
    }
}

/// The lower-casing of a string.
pub uninterp spec fn lower_of(s: Seq<char>) -> Seq<char>;

/// Relies on `str::to_lowercase`: the result depends on the characters
/// alone, and an empty string stays empty.
#[verifier::external_body]
pub(crate) fn lowercase(s: &str) -> (r: String)
    ensures
        r@ == lower_of(s@),
        s@.len() == 0 ==> r@.len() == 0,
{
    s.to_lowercase()
}

/// The reading of a pipe-delimited schema directive list: whether it
/// carries `rosey-ns`, whether it carries `rosey-array-ns`, and the last
/// `rosey:<name>` if any.
pub open spec fn directive_fold(parts: Seq<Seq<char>>) -> (bool, bool, Option<Seq<char>>)
    decreases parts.len(),
{
    if parts.len() == 0 {
        (false, false, None)
    } else {
        let (ns, ans, nm) = directive_fold(parts.drop_last());
        let p = parts.last();
        if p == "rosey-ns"@ {
            (true, ans, nm)
        } else if p == "rosey-array-ns"@ {
            (ns, true, nm)
        } else if has_prefix(p, "rosey:"@) {
            (ns, ans, Some(p.skip(6)))
        } else {
            (ns, ans, nm)
        }
    }
}

/// The directives of one schema string value.
pub open spec fn schema_directives(sv: Seq<char>) -> (bool, bool, Option<Seq<char>>) {
    directive_fold(split_on(trimmed(sv), '|'))
}

/// Parse one schema string value's directives.
#[verifier::loop_isolation(false)]
pub fn parse_schema_directives(sv: &str) -> (r: (bool, bool, Option<String>))
    ensures
        (r.0, r.1, r.2.deep_view()) == schema_directives(sv@),
{
    let t = trim_str(sv);
    let parts = split_char(t.as_str(), '|');
    proof {
        lemma_dv_strings(parts);
    }
    let ghost pdv = parts.deep_view();
    let mut has_ns = false;
    let mut has_array_ns = false;
    let mut name: Option<String> = None;
    let n = parts.len();
    let mut i: usize = 0;
    while i < n
        invariant
            0 <= i <= n,
            n == parts@.len(),
            (has_ns, has_array_ns, name.deep_view()) == directive_fold(pdv.subrange(0, i as int)),
        decreases n - i,
    {
        let p = &parts[i];
        proof {
            assert(pdv.subrange(0, i + 1 as int).drop_last() =~= pdv.subrange(0, i as int));
            assert(pdv.subrange(0, i + 1 as int).last() == pdv[i as int]);
        }
        if crate::text::str_eq(p.as_str(), "rosey-ns") {
            has_ns = true;
        } else if crate::text::str_eq(p.as_str(), "rosey-array-ns") {
            has_array_ns = true;
        } else if crate::text::starts_with_str(p.as_str(), "rosey:") {
            proof {
                reveal_strlit("rosey:");
            }
            let nm = p.as_str().substring_char(6, p.as_str().unicode_len());
            name = Some(nm.to_owned());
            assert(nm@ =~= pdv[i as int].skip(6));
        }
        i = i + 1;
    }
    proof {
        assert(pdv.subrange(0, n as int) =~= pdv);
    }
    (has_ns, has_array_ns, name)
}

/// The namespace string an optional inherited namespace starts from.
pub open spec fn ns_or_empty(ns: Option<Seq<char>>) -> Seq<char> {
    match ns {
        Some(n) => n,
        None => Seq::empty(),
    }
}

/// The observations the members of an object contribute: walked in order,
/// each `rosey-ns` directive extends the namespace carried to everything
/// after it.
pub open spec fn extract_json_obj(
    sp: Seq<(String, JsonValue)>,
    hp: Seq<(String, JsonValue)>,
    nsacc: Seq<char>,
) -> Seq<(Seq<char>, Seq<char>)>
    decreases sp,
{
    if sp.len() == 0 {
        Seq::empty()
    } else {
        let sval = sp[0].1;
        match jlookup(hp, sp[0].0@) {
            None => extract_json_obj(sp.drop_first(), hp, nsacc),
            Some(hval) => match (sval, hval) {
                (JsonValue::String(s), JsonValue::String(h)) => {
                    let (has_ns, _array_ns, name) = schema_directives(h@);
                    if has_ns {
                        extract_json_obj(sp.drop_first(), hp, nsacc + lower_of(s@) + "."@)
                    } else {
                        (match name {
                            Some(nm) => seq![(nsacc + nm, s@)],
                            None => Seq::empty(),
                        }) + extract_json_obj(sp.drop_first(), hp, nsacc)
                    }
                },
                _ => extract_json(sval, hval, Some(nsacc)) + extract_json_obj(
                    sp.drop_first(),
                    hp,
                    nsacc,
                ),
            },
        }
    }
}

/// The observations of an array under a directive-bearing schema string:
/// each string element emits under the namespace (plus itself as a
/// segment when `rosey-array-ns` is set) and the directive's name.
pub open spec fn extract_json_arr(
    elems: Seq<JsonValue>,
    nsacc: Seq<char>,
    array_ns: bool,
    name: Option<Seq<char>>,
) -> Seq<(Seq<char>, Seq<char>)>
    decreases elems.len(),
{
    if elems.len() == 0 {
        Seq::empty()
    } else {
        extract_json_arr(elems.drop_last(), nsacc, array_ns, name) + match elems.last() {
            JsonValue::String(s) => match name {
                Some(nm) => seq![
                    (
                        nsacc + (if array_ns {
                            s@ + "."@
                        } else {
                            Seq::empty()
                        }) + nm,
                        s@,
                    ),
                ],
                None => Seq::empty(),
            },
            _ => Seq::empty(),
        }
    }
}

/// The observations of an array whose schema repeats one structural
/// element for every source element.
pub open spec fn extract_json_arr_rec(
    elems: Seq<JsonValue>,
    schema_elem: JsonValue,
) -> Seq<(Seq<char>, Seq<char>)>
    decreases elems,
{
    if elems.len() == 0 {
        Seq::empty()
    } else {
        extract_json_arr_rec(elems.drop_last(), schema_elem) + extract_json(
            elems.last(),
            schema_elem,
            None,
        )
    }
}

/// The observations one source value contributes under its schema value.
/// Mismatched shapes contribute nothing.
pub open spec fn extract_json(
    source: JsonValue,
    schema: JsonValue,
    ns: Option<Seq<char>>,
) -> Seq<(Seq<char>, Seq<char>)>
    decreases source,
{
    match (source, schema) {
        (JsonValue::Object(sp), JsonValue::Object(hp)) => extract_json_obj(
            sp@,
            hp@,
            ns_or_empty(ns),
        ),
        (JsonValue::Array(sa), JsonValue::Array(ha)) => {
            if ha@.len() == 0 {
                Seq::empty()
            } else {
                match ha@[0] {
                    JsonValue::String(h) => {
                        let (_has_ns, array_ns, name) = schema_directives(h@);
                        extract_json_arr(sa@, ns_or_empty(ns), array_ns, name)
                    },
                    other => extract_json_arr_rec(sa@, other),
                }
            }
        },
        _ => Seq::empty(),
    }
}

impl RoseyGenerator {
    /// Walk one JSON source value in lock-step with its schema value,
    /// recording every observation of [`extract_json`] into the locale,
    /// in order.
    #[verifier::loop_isolation(false)]
    #[verifier::rlimit(100)]
    #[verifier::spinoff_prover]
    pub fn process_json_node(
        &mut self,
        source: &JsonValue,
        schema: &JsonValue,
        namespace: Option<String>,
    )
        requires
            old(self).wf(),
        ensures
            final(self).wf(),
            final(self).locale.keys is V1 <==> old(self).locale.keys is V1,
            final(self).locale.keys.entries() == insert_pairs(
                old(self).locale.keys.entries(),
                extract_json(*source, *schema, namespace.deep_view()),
                old(self).page_of(),
                old(self).locale.keys is V1,
            ),
            final(self).locale.version == old(self).locale.version,
            final(self).urls_locale == old(self).urls_locale,
            final(self).current_file == old(self).current_file,
            final(self).options == old(self).options,
        decreases *source,
    {
        let ghost e0 = self.locale.keys.entries();
        let ghost v1 = self.locale.keys is V1;
        let ghost page = self.page_of();
        match (source, schema) {
            (JsonValue::Object(sp), JsonValue::Object(hp)) => {
                let mut nsacc: String = match namespace {
                    Some(n) => n,
                    None => String::new(),
                };
                let ghost ns0 = nsacc@;
                assert(ns0 == ns_or_empty(namespace.deep_view()));
                let ghost whole = extract_json_obj(sp@, hp@, ns0);
                let ghost mut emitted: Seq<(Seq<char>, Seq<char>)> = Seq::empty();
                let n = sp.len();
                let mut i: usize = 0;
                proof {
                    assert(sp@.skip(0) =~= sp@);
                }
                while i < n
                    invariant
                        0 <= i <= n,
                        n == sp@.len(),
                        self.locale.keys.entries() == insert_pairs(e0, emitted, page, v1),
                        emitted + extract_json_obj(sp@.skip(i as int), hp@, nsacc@) == whole,
                        self.locale.keys is V1 <==> v1,
                        self.wf(),
                        self.locale.version == old(self).locale.version,
                        self.urls_locale == old(self).urls_locale,
                        self.current_file == old(self).current_file,
                        self.options == old(self).options,
                    decreases n - i,
                {
                    let ghost rest = sp@.skip(i as int);
                    proof {
                        assert(rest.len() > 0);
                        assert(rest[0] == sp@[i as int]);
                        assert(rest.drop_first() =~= sp@.skip(i + 1 as int));
                    }
                    match json_obj_get(hp, sp[i].0.as_str()) {
                        None => {
                            proof {
                                assert(extract_json_obj(rest, hp@, nsacc@) == extract_json_obj(
                                    rest.drop_first(),
                                    hp@,
                                    nsacc@,
                                ));
                            }
                        },
                        Some(hval) => {
                            let is_both_string = (match (&sp[i].1, hval) {
                                (JsonValue::String(_), JsonValue::String(_)) => true,
                                _ => false,
                            });
                            if is_both_string {
                                let sval = match &sp[i].1 {
                                    JsonValue::String(s) => s.clone(),
                                    _ => String::new(),
                                };
                                let hstr = match hval {
                                    JsonValue::String(h) => h.clone(),
                                    _ => String::new(),
                                };
                                let (has_ns, _has_array_ns, name) = parse_schema_directives(
                                    hstr.as_str(),
                                );
                                if has_ns {
                                    let low = lowercase(sval.as_str());
                                    nsacc.append(low.as_str());
                                    nsacc.append(".");
                                } else {
                                    match name {
                                        Some(nm) => {
                                            let mut key = nsacc.clone();
                                            key.append(nm.as_str());
                                            let ghost pair = (nsacc@ + nm@, sval@);
                                            self.locale.insert(
                                                key,
                                                sval,
                                                self.current_file.as_str(),
                                            );
                                            proof {
                                                assert((emitted + seq![pair]).drop_last()
                                                    =~= emitted);
                                                emitted = emitted + seq![pair];
                                            }
                                        },
                                        None => {},
                                    }
                                }
                            } else {
                                let ghost before = self.locale.keys.entries();
                                let ns_arg = Some(nsacc.clone());
                                proof {
                                    assert(decreases_to!(*source => sp@[i as int].1));
                                }
                                self.process_json_node(&sp[i].1, hval, ns_arg);
                                proof {
                                    let part = extract_json(sp@[i as int].1, *hval, Some(nsacc@));
                                    lemma_insert_pairs_concat(e0, emitted, part, page, v1);
                                    emitted = emitted + part;
                                }
                            }
                        },
                    }
                    i = i + 1;
                }
                proof {
                    assert(sp@.skip(n as int) =~= Seq::<(String, JsonValue)>::empty());
                    assert(emitted + extract_json_obj(sp@.skip(n as int), hp@, nsacc@)
                        =~= emitted);
                    assert(emitted == whole);
                }
            },
            (JsonValue::Array(sa), JsonValue::Array(ha)) => {
                if ha.len() > 0 {
                    let is_string_schema = (match &ha[0] {
                        JsonValue::String(_) => true,
                        _ => false,
                    });
                    if is_string_schema {
                        let hstr = match &ha[0] {
                            JsonValue::String(h) => h.clone(),
                            _ => String::new(),
                        };
                        let (_has_ns, array_ns, name) = parse_schema_directives(hstr.as_str());
                        let nsacc: String = match namespace {
                            Some(n) => n,
                            None => String::new(),
                        };
                        let ghost ns0 = nsacc@;
                        let ghost name_v = name.deep_view();
                        let n = sa.len();
                        let mut i: usize = 0;
                        while i < n
                            invariant
                                0 <= i <= n,
                                n == sa@.len(),
                                self.locale.keys.entries() == insert_pairs(
                                    e0,
                                    extract_json_arr(
                                        sa@.subrange(0, i as int),
                                        ns0,
                                        array_ns,
                                        name_v,
                                    ),
                                    page,
                                    v1,
                                ),
                                self.locale.keys is V1 <==> v1,
                                self.wf(),
                                self.locale.version == old(self).locale.version,
                                self.urls_locale == old(self).urls_locale,
                                self.current_file == old(self).current_file,
                                self.options == old(self).options,
                            decreases n - i,
                        {
                            let ghost pre = extract_json_arr(
                                sa@.subrange(0, i as int),
                                ns0,
                                array_ns,
                                name_v,
                            );
                            match (&sa[i], &name) {
                                (JsonValue::String(s), Some(nm)) => {
                                    let mut key = nsacc.clone();
                                    if array_ns {
                                        key.append(s.as_str());
                                        key.append(".");
                                    }
                                    key.append(nm.as_str());
                                    let ghost pair = (
                                        ns0 + (if array_ns {
                                            s@ + "."@
                                        } else {
                                            Seq::<char>::empty()
                                        }) + nm@,
                                        s@,
                                    );
                                    assert(key@ =~= pair.0);
                                    self.locale.insert(
                                        key,
                                        s.clone(),
                                        self.current_file.as_str(),
                                    );
                                    proof {
                                        assert((pre + seq![pair]).drop_last() =~= pre);
                                    }
                                },
                                _ => {},
                            }
                            proof {
                                assert(sa@.subrange(0, i + 1 as int).drop_last() =~= sa@.subrange(
                                    0,
                                    i as int,
                                ));
                                assert(sa@.subrange(0, i + 1 as int).last() == sa@[i as int]);
                            }
                            i = i + 1;
                        }
                        proof {
                            assert(sa@.subrange(0, n as int) =~= sa@);
                        }
                    } else {
                        let n = sa.len();
                        let mut i: usize = 0;
                        while i < n
                            invariant
                                0 <= i <= n,
                                n == sa@.len(),
                                self.locale.keys.entries() == insert_pairs(
                                    e0,
                                    extract_json_arr_rec(sa@.subrange(0, i as int), ha@[0]),
                                    page,
                                    v1,
                                ),
                                self.locale.keys is V1 <==> v1,
                                self.wf(),
                                self.locale.version == old(self).locale.version,
                                self.urls_locale == old(self).urls_locale,
                                self.current_file == old(self).current_file,
                                self.options == old(self).options,
                            decreases n - i,
                        {
                            let ghost pre = extract_json_arr_rec(sa@.subrange(0, i as int), ha@[0]);
                            proof {
                                assert(decreases_to!(*source => sa@[i as int]));
                            }
                            self.process_json_node(&sa[i], &ha[0], None);
                            proof {
                                lemma_insert_pairs_concat(
                                    e0,
                                    pre,
                                    extract_json(sa@[i as int], ha@[0], None),
                                    page,
                                    v1,
                                );
                                assert(sa@.subrange(0, i + 1 as int).drop_last() =~= sa@.subrange(
                                    0,
                                    i as int,
                                ));
                                assert(sa@.subrange(0, i + 1 as int).last() == sa@[i as int]);
                            }
                            i = i + 1;
                        }
                        proof {
                            assert(sa@.subrange(0, n as int) =~= sa@);
                        }
                    }
                }
            },
            _ => {},
        }
    }

    /// Extract one schema-paired JSON document: note its path as the page
    /// being walked, then walk source and schema in lock-step.
    pub fn process_json_file(&mut self, relative_path: &str, source: &JsonValue, schema: &JsonValue)
        requires
            old(self).wf(),
        ensures
            final(self).wf(),
            final(self).current_file@ == crate::text::replaced(relative_path@, '\\', '/'),
            final(self).locale.keys is V1 <==> old(self).locale.keys is V1,
            final(self).locale.keys.entries() == insert_pairs(
                old(self).locale.keys.entries(),
                extract_json(*source, *schema, None),
                crate::text::replaced(relative_path@, '\\', '/'),
                old(self).locale.keys is V1,
            ),
            final(self).urls_locale == old(self).urls_locale,
            final(self).options == old(self).options,
    {
        let cf = crate::text::replace_char(relative_path, '\\', '/');
        self.current_file = cf;
        proof {
            assert(crate::text::replaced(
                crate::text::replaced(relative_path@, '\\', '/'),
                '\\',
                '/',
            ) =~= crate::text::replaced(relative_path@, '\\', '/'));
        }
        self.process_json_node(source, schema, None);
    }
}

/// Structural equality of two JSON values, read at the view level.
pub open spec fn eq_rel(a: JsonValue, b: JsonValue) -> bool
    decreases a,
{
    match (a, b) {
        (JsonValue::Object(ap), JsonValue::Object(bp)) => eq_obj_rel(ap@, bp@),
        (JsonValue::Array(aa), JsonValue::Array(ba)) => eq_arr_rel(aa@, ba@),
        (JsonValue::String(x), JsonValue::String(y)) => x@ == y@,
        (JsonValue::Number(x), JsonValue::Number(y)) => x@ == y@,
        (JsonValue::Bool(x), JsonValue::Bool(y)) => x == y,
        (JsonValue::Null, JsonValue::Null) => true,
        _ => false,
    }
}

/// Structural equality of object member lists.
pub open spec fn eq_obj_rel(ap: Seq<(String, JsonValue)>, bp: Seq<(String, JsonValue)>) -> bool
    decreases ap,
{
    if ap.len() == 0 {
        bp.len() == 0
    } else {
        bp.len() == ap.len() && eq_obj_rel(ap.drop_last(), bp.drop_last()) && ap.last().0@
            == bp.last().0@ && eq_rel(ap.last().1, bp.last().1)
    }
}

/// Structural equality of arrays.
pub open spec fn eq_arr_rel(aa: Seq<JsonValue>, ba: Seq<JsonValue>) -> bool
    decreases aa,
{
    if aa.len() == 0 {
        ba.len() == 0
    } else {
        ba.len() == aa.len() && eq_arr_rel(aa.drop_last(), ba.drop_last()) && eq_rel(
            aa.last(),
            ba.last(),
        )
    }
}

/// The namespace accumulated after walking the given object members.
pub open spec fn ns_after(
    sp: Seq<(String, JsonValue)>,
    hp: Seq<(String, JsonValue)>,
    ns0: Seq<char>,
) -> Seq<char>
    decreases sp.len(),
{
    if sp.len() == 0 {
        ns0
    } else {
        let pre = ns_after(sp.drop_last(), hp, ns0);
        match (sp.last().1, jlookup(hp, sp.last().0@)) {
            (JsonValue::String(s), Some(JsonValue::String(h))) => {
                let (has_ns, _a, _n) = schema_directives(h@);
                if has_ns {
                    pre + lower_of(s@) + "."@
                } else {
                    pre
                }
            },
            _ => pre,
        }
    }
}

/// How one object member is rewritten, given the namespace accumulated
/// before it: a `rosey:<name>` directive replaces a string value with the
/// translation under `namespace + name` when one is present, everything
/// else is kept as it stands (including `rosey-ns` members, which only
/// extend the namespace), and structural members recurse.
pub open spec fn member_rel(
    m: (String, JsonValue),
    hp: Seq<(String, JsonValue)>,
    nsacc: Seq<char>,
    t: RoseyTranslation,
    o: (String, JsonValue),
) -> bool
    decreases m,
{
    o.0@ == m.0@ && match jlookup(hp, m.0@) {
        None => eq_rel(m.1, o.1),
        Some(hval) => match (m.1, hval) {
            (JsonValue::String(s), JsonValue::String(h)) => {
                let (has_ns, _a, name) = schema_directives(h@);
                if has_ns {
                    eq_rel(m.1, o.1)
                } else {
                    match name {
                        Some(nm) => match t.spec_get(nsacc + nm) {
                            Some(v) => o.1 matches JsonValue::String(s2) && s2@ == v,
                            None => eq_rel(m.1, o.1),
                        },
                        None => eq_rel(m.1, o.1),
                    }
                }
            },
            _ => inject_rel(m.1, hval, Some(nsacc), t, o.1),
        },
    }
}

/// How an object's members are rewritten, threading the namespace left to
/// right.
pub open spec fn inject_obj_rel(
    sp: Seq<(String, JsonValue)>,
    hp: Seq<(String, JsonValue)>,
    ns0: Seq<char>,
    t: RoseyTranslation,
    op: Seq<(String, JsonValue)>,
) -> bool
    decreases sp,
{
    if sp.len() == 0 {
        op.len() == 0
    } else {
        op.len() == sp.len() && inject_obj_rel(sp.drop_last(), hp, ns0, t, op.drop_last())
            && member_rel(sp.last(), hp, ns_after(sp.drop_last(), hp, ns0), t, op.last())
    }
}

/// How a directive-schema array is rewritten: each string element's
/// translation key is the namespace, the element itself as a further
/// segment when `rosey-array-ns` is set, then the directive's name.
pub open spec fn inject_arr_rel(
    sa: Seq<JsonValue>,
    nsacc: Seq<char>,
    array_ns: bool,
    name: Option<Seq<char>>,
    t: RoseyTranslation,
    oa: Seq<JsonValue>,
) -> bool
    decreases sa,
{
    if sa.len() == 0 {
        oa.len() == 0
    } else {
        oa.len() == sa.len() && inject_arr_rel(sa.drop_last(), nsacc, array_ns, name, t, oa.drop_last())
            && match sa.last() {
            JsonValue::String(s) => match name {
                Some(nm) => {
                    let k = nsacc + (if array_ns {
                        s@ + "."@
                    } else {
                        Seq::<char>::empty()
                    }) + nm;
                    match t.spec_get(k) {
                        Some(v) => oa.last() matches JsonValue::String(s2) && s2@ == v,
                        None => eq_rel(sa.last(), oa.last()),
                    }
                },
                None => eq_rel(sa.last(), oa.last()),
            },
            _ => eq_rel(sa.last(), oa.last()),
        }
    }
}

/// How a structural-schema array is rewritten: each element under the
/// schema's first element, with no namespace.
pub open spec fn inject_arr_rec_rel(
    sa: Seq<JsonValue>,
    schema_elem: JsonValue,
    t: RoseyTranslation,
    oa: Seq<JsonValue>,
) -> bool
    decreases sa,
{
    if sa.len() == 0 {
        oa.len() == 0
    } else {
        oa.len() == sa.len() && inject_arr_rec_rel(sa.drop_last(), schema_elem, t, oa.drop_last())
            && inject_rel(sa.last(), schema_elem, None, t, oa.last())
    }
}

/// How one source value is rewritten under its schema value: mismatched
/// shapes are kept as they stand.
pub open spec fn inject_rel(
    src: JsonValue,
    schema: JsonValue,
    ns: Option<Seq<char>>,
    t: RoseyTranslation,
    out: JsonValue,
) -> bool
    decreases src,
{
    match (src, schema) {
        (JsonValue::Object(sp), JsonValue::Object(hp)) => out matches JsonValue::Object(op)
            && inject_obj_rel(sp@, hp@, ns_or_empty(ns), t, op@),
        (JsonValue::Array(sa), JsonValue::Array(ha)) => {
            if ha@.len() == 0 {
                eq_rel(src, out)
            } else {
                match ha@[0] {
                    JsonValue::String(h) => {
                        let (_has_ns, array_ns, name) = schema_directives(h@);
                        out matches JsonValue::Array(oa) && inject_arr_rel(
                            sa@,
                            ns_or_empty(ns),
                            array_ns,
                            name,
                            t,
                            oa@,
                        )
                    },
                    other => out matches JsonValue::Array(oa) && inject_arr_rec_rel(
                        sa@,
                        other,
                        t,
                        oa@,
                    ),
                }
            }
        },
        _ => eq_rel(src, out),
    }
}

/// A structural copy of a JSON value.
#[verifier::loop_isolation(false)]
pub fn clone_json(v: &JsonValue) -> (r: JsonValue)
    ensures
        eq_rel(*v, r),
    decreases *v,
{
    match v {
        JsonValue::Object(pairs) => {
            let mut out: Vec<(String, JsonValue)> = Vec::new();
            let n = pairs.len();
            let mut i: usize = 0;
            while i < n
                invariant
                    0 <= i <= n,
                    n == pairs@.len(),
                    out@.len() == i,
                    eq_obj_rel(pairs@.subrange(0, i as int), out@),
                decreases n - i,
            {
                proof {
                    assert(decreases_to!(*v => pairs@[i as int]));
                    assert(decreases_to!(pairs@[i as int] => pairs@[i as int].1));
                }
                let c = clone_json(&pairs[i].1);
                let ghost out0 = out@;
                out.push((pairs[i].0.clone(), c));
                proof {
                    assert(pairs@.subrange(0, i + 1 as int).drop_last() =~= pairs@.subrange(
                        0,
                        i as int,
                    ));
                    assert(pairs@.subrange(0, i + 1 as int).last() == pairs@[i as int]);
                    assert(out@.drop_last() =~= out0);
                }
                i = i + 1;
            }
            proof {
                assert(pairs@.subrange(0, n as int) =~= pairs@);
            }
            JsonValue::Object(out)
        },
        JsonValue::Array(elems) => {
            let mut out: Vec<JsonValue> = Vec::new();
            let n = elems.len();
            let mut i: usize = 0;
            while i < n
                invariant
                    0 <= i <= n,
                    n == elems@.len(),
                    out@.len() == i,
                    eq_arr_rel(elems@.subrange(0, i as int), out@),
                decreases n - i,
            {
                proof {
                    assert(decreases_to!(*v => elems@[i as int]));
                }
                let c = clone_json(&elems[i]);
                let ghost out0 = out@;
                out.push(c);
                proof {
                    assert(elems@.subrange(0, i + 1 as int).drop_last() =~= elems@.subrange(
                        0,
                        i as int,
                    ));
                    assert(elems@.subrange(0, i + 1 as int).last() == elems@[i as int]);
                    assert(out@.drop_last() =~= out0);
                }
                i = i + 1;
            }
            proof {
                assert(elems@.subrange(0, n as int) =~= elems@);
            }
            JsonValue::Array(out)
        },
        JsonValue::String(s) => JsonValue::String(s.clone()),
        JsonValue::Number(s) => JsonValue::Number(s.clone()),
        JsonValue::Bool(b) => JsonValue::Bool(*b),
        JsonValue::Null => JsonValue::Null,
    }
}

/// Rewrite one source value under its schema value for one locale: every
/// `rosey:<name>` string whose key the store translates is replaced, and
/// everything else is kept as it stands (identity fallback).
#[verifier::loop_isolation(false)]
#[verifier::rlimit(100)]
#[verifier::spinoff_prover]
pub fn inject_json_value(
    source: &JsonValue,
    schema: &JsonValue,
    namespace: Option<String>,
    translation: &RoseyTranslation,
) -> (r: JsonValue)
    requires
        translation.wf(),
    ensures
        inject_rel(*source, *schema, namespace.deep_view(), *translation, r),
    decreases *source,
{
    match (source, schema) {
        (JsonValue::Object(sp), JsonValue::Object(hp)) => {
            let mut nsacc: String = match namespace {
                Some(n) => n,
                None => String::new(),
            };
            let ghost ns0 = nsacc@;
            assert(ns0 == ns_or_empty(namespace.deep_view()));
            let mut out: Vec<(String, JsonValue)> = Vec::new();
            let n = sp.len();
            let mut i: usize = 0;
            while i < n
                invariant
                    0 <= i <= n,
                    n == sp@.len(),
                    out@.len() == i,
                    inject_obj_rel(sp@.subrange(0, i as int), hp@, ns0, *translation, out@),
                    nsacc@ == ns_after(sp@.subrange(0, i as int), hp@, ns0),
                decreases n - i,
            {
                let ghost ns_here = nsacc@;
                let newval: JsonValue = match json_obj_get(hp, sp[i].0.as_str()) {
                    None => {
                        proof {
                            assert(decreases_to!(*source => sp@[i as int]));
                            assert(decreases_to!(sp@[i as int] => sp@[i as int].1));
                        }
                        clone_json(&sp[i].1)
                    },
                    Some(hval) => {
                        let is_both_string = (match (&sp[i].1, hval) {
                            (JsonValue::String(_), JsonValue::String(_)) => true,
                            _ => false,
                        });
                        if is_both_string {
                            let sval = match &sp[i].1 {
                                JsonValue::String(s) => s.clone(),
                                _ => String::new(),
                            };
                            let hstr = match hval {
                                JsonValue::String(h) => h.clone(),
                                _ => String::new(),
                            };
                            let (has_ns, _has_array_ns, name) = parse_schema_directives(
                                hstr.as_str(),
                            );
                            if has_ns {
                                let low = lowercase(sval.as_str());
                                nsacc.append(low.as_str());
                                nsacc.append(".");
                                JsonValue::String(sval)
                            } else {
                                match name {
                                    Some(nm) => {
                                        let mut key = nsacc.clone();
                                        key.append(nm.as_str());
                                        match translation.get(key.as_str()) {
                                            Some(v) => JsonValue::String(v.clone()),
                                            None => JsonValue::String(sval),
                                        }
                                    },
                                    None => JsonValue::String(sval),
                                }
                            }
                        } else {
                            proof {
                                assert(decreases_to!(*source => sp@[i as int]));
                                assert(decreases_to!(sp@[i as int] => sp@[i as int].1));
                            }
                            inject_json_value(
                                &sp[i].1,
                                hval,
                                Some(nsacc.clone()),
                                translation,
                            )
                        }
                    },
                };
                let ghost out0 = out@;
                out.push((sp[i].0.clone(), newval));
                proof {
                    assert(sp@.subrange(0, i + 1 as int).drop_last() =~= sp@.subrange(0, i as int));
                    assert(sp@.subrange(0, i + 1 as int).last() == sp@[i as int]);
                    assert(out@.drop_last() =~= out0);
                    assert(member_rel(
                        sp@[i as int],
                        hp@,
                        ns_here,
                        *translation,
                        out@.last(),
                    ));
                    assert(nsacc@ == ns_after(sp@.subrange(0, i + 1 as int), hp@, ns0));
                }
                i = i + 1;
            }
            proof {
                assert(sp@.subrange(0, n as int) =~= sp@);
            }
            JsonValue::Object(out)
        },
        (JsonValue::Array(sa), JsonValue::Array(ha)) => {
            if ha.len() == 0 {
                clone_json(source)
            } else {
                let is_string_schema = (match &ha[0] {
                    JsonValue::String(_) => true,
                    _ => false,
                });
                if is_string_schema {
                    let hstr = match &ha[0] {
                        JsonValue::String(h) => h.clone(),
                        _ => String::new(),
                    };
                    let (_has_ns, array_ns, name) = parse_schema_directives(hstr.as_str());
                    let nsacc: String = match namespace {
                        Some(n) => n,
                        None => String::new(),
                    };
                    let ghost ns0 = nsacc@;
                    let ghost name_v = name.deep_view();
                    let mut out: Vec<JsonValue> = Vec::new();
                    let n = sa.len();
                    let mut i: usize = 0;
                    while i < n
                        invariant
                            0 <= i <= n,
                            n == sa@.len(),
                            out@.len() == i,
                            inject_arr_rel(
                                sa@.subrange(0, i as int),
                                ns0,
                                array_ns,
                                name_v,
                                *translation,
                                out@,
                            ),
                        decreases n - i,
                    {
                        let newval: JsonValue = match (&sa[i], &name) {
                            (JsonValue::String(s), Some(nm)) => {
                                let mut key = nsacc.clone();
                                if array_ns {
                                    key.append(s.as_str());
                                    key.append(".");
                                }
                                key.append(nm.as_str());
                                proof {
                                    assert(key@ =~= ns0 + (if array_ns {
                                        s@ + "."@
                                    } else {
                                        Seq::<char>::empty()
                                    }) + nm@);
                                }
                                match translation.get(key.as_str()) {
                                    Some(v) => JsonValue::String(v.clone()),
                                    None => JsonValue::String(s.clone()),
                                }
                            },
                            _ => {
                                proof {
                                    assert(decreases_to!(*source => sa@[i as int]));
                                }
                                clone_json(&sa[i])
                            },
                        };
                        let ghost out0 = out@;
                        out.push(newval);
                        proof {
                            assert(sa@.subrange(0, i + 1 as int).drop_last() =~= sa@.subrange(
                                0,
                                i as int,
                            ));
                            assert(sa@.subrange(0, i + 1 as int).last() == sa@[i as int]);
                            assert(out@.drop_last() =~= out0);
                        }
                        i = i + 1;
                    }
                    proof {
                        assert(sa@.subrange(0, n as int) =~= sa@);
                    }
                    JsonValue::Array(out)
                } else {
                    let mut out: Vec<JsonValue> = Vec::new();
                    let n = sa.len();
                    let mut i: usize = 0;
                    while i < n
                        invariant
                            0 <= i <= n,
                            n == sa@.len(),
                            out@.len() == i,
                            inject_arr_rec_rel(
                                sa@.subrange(0, i as int),
                                ha@[0],
                                *translation,
                                out@,
                            ),
                        decreases n - i,
                    {
                        proof {
                            assert(decreases_to!(*source => sa@[i as int]));
                        }
                        let newval = inject_json_value(&sa[i], &ha[0], None, translation);
                        let ghost out0 = out@;
                        out.push(newval);
                        proof {
                            assert(sa@.subrange(0, i + 1 as int).drop_last() =~= sa@.subrange(
                                0,
                                i as int,
                            ));
                            assert(sa@.subrange(0, i + 1 as int).last() == sa@[i as int]);
                            assert(out@.drop_last() =~= out0);
                        }
                        i = i + 1;
                    }
                    proof {
                        assert(sa@.subrange(0, n as int) =~= sa@);
                    }
                    JsonValue::Array(out)
                }
            }
        },
        _ => clone_json(source),
    }
}

/// Rewrite a source value in place (see [`inject_json_value`]).
pub fn process_json_node(
    source: &mut JsonValue,
    schema: &JsonValue,
    namespace: Option<String>,
    translation: &RoseyTranslation,
)
    requires
        translation.wf(),
    ensures
        inject_rel(*old(source), *schema, namespace.deep_view(), *translation, *final(source)),
{
    let rewritten = inject_json_value(&*source, schema, namespace, translation);
    *source = rewritten;
}

} // verus!
