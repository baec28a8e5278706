//! The extractor: walks a source document, resolves a key at every marker
//! (see [`crate::resolve`]) and records the source text in the locale
//! store, together with a URL-store entry mapping the document's own path
//! to itself.
//!
//! The whole walk is captured by the spec function [`extract_node`]: the
//! ordered sequence of `(key, value)` observations a node contributes. The
//! executable walker is proved to fold exactly those observations into the
//! store, in order.

use crate::config::RoseyOptions;
use crate::html::HtmlNode;
use crate::html::get_attr;
use crate::html::inner_html;
use crate::html::inner_html_of;
use crate::html::ser_node;
use crate::kv::lookup;
use crate::kv::set_key;
use crate::resolve::attr_key;
use crate::resolve::attr_key_of;
use crate::resolve::apply_directives;
use crate::resolve::ctx_after;
use crate::resolve::json_str_map_of;
use crate::resolve::parse_string_map;
use crate::resolve::prefix_of;
use crate::resolve::prefix_spec;
use crate::resolve::resolve_key;
use crate::resolve::resolved_key;
use crate::store::EntryView;
use crate::store::RoseyLocale;
use crate::store::clone_opt_string;
use crate::store::counted_entry;
use crate::store::fresh_entry;
use crate::store::v1_entry;
use crate::text::lemma_dv_strings;
use crate::text::replace_char;
use crate::text::replaced;
use crate::text::split_char;
use crate::text::split_on;
use vstd::prelude::*;
use vstd::string::StringExecFns;

verus! {

/// What one pair insertion does to a store's entries (counted insert, in
/// either on-disk shape).
pub open spec fn insert_pair(
    entries: Seq<(Seq<char>, EntryView)>,
    p: (Seq<char>, Seq<char>),
    page: Seq<char>,
    v1: bool,
) -> Seq<(Seq<char>, EntryView)> {
    set_key(
        entries,
        p.0,
        if v1 {
            v1_entry(p.1)
        } else {
            counted_entry(lookup(entries, p.0), p.1, page)
        },
    )
}

/// A sequence of pair insertions, applied left to right.
pub open spec fn insert_pairs(
    entries: Seq<(Seq<char>, EntryView)>,
    ps: Seq<(Seq<char>, Seq<char>)>,
    page: Seq<char>,
    v1: bool,
) -> Seq<(Seq<char>, EntryView)>
    decreases ps.len(),
{
    if ps.len() == 0 {
        entries
    } else {
        insert_pair(insert_pairs(entries, ps.drop_last(), page, v1), ps.last(), page, v1)
    }
}

/// Insertions of concatenated observation sequences compose.
pub proof fn lemma_insert_pairs_concat(
    entries: Seq<(Seq<char>, EntryView)>,
    a: Seq<(Seq<char>, Seq<char>)>,
    b: Seq<(Seq<char>, Seq<char>)>,
    page: Seq<char>,
    v1: bool,
)
    ensures
        insert_pairs(entries, a + b, page, v1) == insert_pairs(
            insert_pairs(entries, a, page, v1),
            b,
            page,
            v1,
        ),
    decreases b.len(),
{
    if b.len() == 0 {
        assert(a + b =~= a);
    } else {
        assert((a + b).drop_last() =~= a + b.drop_last());
        lemma_insert_pairs_concat(entries, a, b.drop_last(), page, v1);
        assert((a + b).last() == b.last());
    }
}

/// The observations contributed by a comma-separated attribute list beside
/// a content marker: for each listed attribute that the element carries,
/// its value under the content key extended with the attribute name.
pub open spec fn extract_marker_attrs(
    parts: Seq<Seq<char>>,
    attrs: Seq<(Seq<char>, Seq<char>)>,
    key: Seq<char>,
) -> Seq<(Seq<char>, Seq<char>)>
    decreases parts.len(),
{
    if parts.len() == 0 {
        Seq::empty()
    } else {
        extract_marker_attrs(parts.drop_last(), attrs, key) + match lookup(attrs, parts.last()) {
            Some(v) => seq![(attr_key_of(key, parts.last()), v)],
            None => Seq::empty(),
        }
    }
}

/// The observations contributed by an explicit attribute map: for each
/// mapped attribute the element carries, its value under the prefix plus
/// the mapped key suffix.
pub open spec fn extract_explicit(
    pairs: Seq<(Seq<char>, Seq<char>)>,
    attrs: Seq<(Seq<char>, Seq<char>)>,
    prefix: Seq<char>,
) -> Seq<(Seq<char>, Seq<char>)>
    decreases pairs.len(),
{
    if pairs.len() == 0 {
        Seq::empty()
    } else {
        extract_explicit(pairs.drop_last(), attrs, prefix) + match lookup(
            attrs,
            pairs.last().0,
        ) {
            Some(v) => seq![(prefix + pairs.last().1, v)],
            None => Seq::empty(),
        }
    }
}

/// The observations one node contributes, in walk order: its listed
/// attributes, its content marker, its explicit attribute map, then its
/// children under the updated context.
pub open spec fn extract_node(
    n: HtmlNode,
    root: Option<Seq<char>>,
    ns: Option<Seq<char>>,
    tag: Seq<char>,
    sep: Seq<char>,
) -> Seq<(Seq<char>, Seq<char>)>
    decreases n,
{
    match n {
        HtmlNode::Element { name, attrs, children } => {
            let a = attrs.deep_view();
            let (root2, ns2) = ctx_after(
                root,
                ns,
                lookup(a, tag + "-root"@),
                lookup(a, tag + "-ns"@),
                sep,
            );
            let prefix = prefix_spec(root2, ns2, sep);
            let marker_part = match lookup(a, tag) {
                Some(k) => {
                    let key = resolved_key(prefix, k, ser_node(n));
                    (match lookup(a, tag + "-attrs"@) {
                        Some(list) => extract_marker_attrs(split_on(list, ','), a, key),
                        None => Seq::empty(),
                    }) + seq![(key, inner_html_of(name@, children@))]
                },
                None => Seq::empty(),
            };
            let explicit_part = match lookup(a, tag + "-attrs-explicit"@) {
                Some(json) => match json_str_map_of(json) {
                    Some(pairs) => extract_explicit(pairs, a, prefix),
                    None => Seq::empty(),
                },
                None => Seq::empty(),
            };
            marker_part + explicit_part + extract_nodes(children@, root2, ns2, tag, sep)
        },
        _ => Seq::empty(),
    }
}

/// The observations of a node sequence, in order.
pub open spec fn extract_nodes(
    s: Seq<HtmlNode>,
    root: Option<Seq<char>>,
    ns: Option<Seq<char>>,
    tag: Seq<char>,
    sep: Seq<char>,
) -> Seq<(Seq<char>, Seq<char>)>
    decreases s,
{
    if s.len() == 0 {
        Seq::empty()
    } else {
        extract_nodes(s.drop_last(), root, ns, tag, sep) + extract_node(
            s.last(),
            root,
            ns,
            tag,
            sep,
        )
    }
}

/// The extractor: accumulates the base locale and the URL store while
/// walking the source tree; `current_file` is the page attributed in the
/// statistics.
pub struct RoseyGenerator {
    pub options: RoseyOptions,
    pub locale: RoseyLocale,
    pub urls_locale: RoseyLocale,
    pub current_file: String,
}

impl RoseyGenerator {
    pub open spec fn wf(self) -> bool {
        self.locale.wf() && self.urls_locale.wf()
    }

    /// The page key attributed to observations of the current file.
    pub open spec fn page_of(self) -> Seq<char> {
        replaced(self.current_file@, '\\', '/')
    }

    /// Walk one node, applying the key resolution protocol and recording
    /// every observation of [`extract_node`] into the locale, in order.
    #[verifier::loop_isolation(false)]
    #[verifier::rlimit(100)]
    #[verifier::spinoff_prover]
    pub fn process_html_node(
        &mut self,
        node: &HtmlNode,
        root: Option<String>,
        namespace: Option<String>,
    )
        requires
            old(self).wf(),
        ensures
            final(self).wf(),
            final(self).locale.keys is V1 <==> old(self).locale.keys is V1,
            final(self).locale.keys.entries() == insert_pairs(
                old(self).locale.keys.entries(),
                extract_node(
                    *node,
                    root.deep_view(),
                    namespace.deep_view(),
                    old(self).options.config.tag@,
                    old(self).options.config.separator@,
                ),
                old(self).page_of(),
                old(self).locale.keys is V1,
            ),
            final(self).locale.version == old(self).locale.version,
            final(self).urls_locale == old(self).urls_locale,
            final(self).current_file == old(self).current_file,
            final(self).options == old(self).options,
        decreases *node,
    {
        let ghost e0 = self.locale.keys.entries();
        let ghost v1 = self.locale.keys is V1;
        let ghost page = self.page_of();
        let ghost tag_v = self.options.config.tag@;
        let ghost sep_v = self.options.config.separator@;
        match node {
            HtmlNode::Element { name, attrs, children } => {
                let ghost a = attrs.deep_view();
                let mut root_attr = self.options.config.tag.clone();
                root_attr.append("-root");
                let mut ns_attr = self.options.config.tag.clone();
                ns_attr.append("-ns");
                let mut attrs_attr = self.options.config.tag.clone();
                attrs_attr.append("-attrs");
                let mut explicit_attr = self.options.config.tag.clone();
                explicit_attr.append("-attrs-explicit");

                let new_root = clone_opt_string_ref(get_attr(attrs, root_attr.as_str()));
                let new_ns = clone_opt_string_ref(get_attr(attrs, ns_attr.as_str()));
                let (root2, ns2) = apply_directives(
                    &root,
                    &namespace,
                    &new_root,
                    &new_ns,
                    self.options.config.separator.as_str(),
                );
                let ghost root2_v = root2.deep_view();
                let ghost ns2_v = ns2.deep_view();
                let prefix = prefix_of(&root2, &ns2, self.options.config.separator.as_str());
                let ghost prefix_v = prefix_spec(root2_v, ns2_v, sep_v);
                assert(prefix@ == prefix_v);

                let ghost marker_part = match lookup(a, tag_v) {
                    Some(k) => {
                        let key = resolved_key(prefix_v, k, ser_node(*node));
                        (match lookup(a, tag_v + "-attrs"@) {
                            Some(list) => extract_marker_attrs(split_on(list, ','), a, key),
                            None => Seq::empty(),
                        }) + seq![(key, inner_html_of(name@, children@))]
                    },
                    None => Seq::empty(),
                };
                let marker = clone_opt_string_ref(get_attr(attrs, self.options.config.tag.as_str()));
                match marker {
                    Some(k) => {
                        let serialized = node.to_html();
                        let key = resolve_key(prefix.as_str(), k.as_str(), serialized.as_str());
                        let ghost key_v = resolved_key(prefix_v, k@, ser_node(*node));
                        assert(key@ == key_v);
                        let list = clone_opt_string_ref(get_attr(attrs, attrs_attr.as_str()));
                        match list {
                            Some(list) => {
                                let parts = split_char(list.as_str(), ',');
                                proof {
                                    lemma_dv_strings(parts);
                                }
                                let ghost pdv = parts.deep_view();
                                let n = parts.len();
                                let mut i: usize = 0;
                                while i < n
                                    invariant
                                        0 <= i <= n,
                                        n == parts@.len(),
                                        self.locale.keys.entries() == insert_pairs(
                                            e0,
                                            extract_marker_attrs(
                                                pdv.subrange(0, i as int),
                                                a,
                                                key_v,
                                            ),
                                            page,
                                            v1,
                                        ),
                                        self.locale.keys is V1 <==> v1,
                                        self.locale.wf(),
                                        self.locale.version == old(self).locale.version,
                                        self.urls_locale == old(self).urls_locale,
                                        self.current_file == old(self).current_file,
                                        self.options == old(self).options,
                                    decreases n - i,
                                {
                                    let ghost pre = extract_marker_attrs(
                                        pdv.subrange(0, i as int),
                                        a,
                                        key_v,
                                    );
                                    match get_attr(attrs, parts[i].as_str()) {
                                        Some(v) => {
                                            let v = v.clone();
                                            let ak = attr_key(key.as_str(), parts[i].as_str());
                                            self.locale.insert(
                                                ak,
                                                v,
                                                self.current_file.as_str(),
                                            );
                                        },
                                        None => {},
                                    }
                                    proof {
                                        assert(pdv.subrange(0, i + 1 as int).drop_last()
                                            =~= pdv.subrange(0, i as int));
                                        assert(pdv.subrange(0, i + 1 as int).last()
                                            == pdv[i as int]);
                                        match lookup(a, pdv[i as int]) {
                                            Some(v) => {
                                                assert(extract_marker_attrs(
                                                    pdv.subrange(0, i + 1 as int),
                                                    a,
                                                    key_v,
                                                ) =~= pre + seq![
                                                    (attr_key_of(key_v, pdv[i as int]), v),
                                                ]);
                                                assert(insert_pairs(
                                                    e0,
                                                    pre + seq![
                                                        (attr_key_of(key_v, pdv[i as int]), v),
                                                    ],
                                                    page,
                                                    v1,
                                                ) == insert_pair(
                                                    insert_pairs(e0, pre, page, v1),
                                                    (attr_key_of(key_v, pdv[i as int]), v),
                                                    page,
                                                    v1,
                                                )) by {
                                                    assert((pre + seq![
                                                        (attr_key_of(key_v, pdv[i as int]), v),
                                                    ]).drop_last() =~= pre);
                                                }
                                            },
                                            None => {
                                                assert(extract_marker_attrs(
                                                    pdv.subrange(0, i + 1 as int),
                                                    a,
                                                    key_v,
                                                ) =~= pre);
                                            },
                                        }
                                    }
                                    i = i + 1;
                                }
                                proof {
                                    assert(pdv.subrange(0, n as int) =~= pdv);
                                }
                            },
                            None => {},
                        }
                        let content = inner_html(name.as_str(), children);
                        let ghost before_content = self.locale.keys.entries();
                        self.locale.insert(key, content, self.current_file.as_str());
                        proof {
                            let whole = match lookup(a, tag_v + "-attrs"@) {
                                Some(list) => extract_marker_attrs(split_on(list, ','), a, key_v),
                                None => Seq::<(Seq<char>, Seq<char>)>::empty(),
                            };
                            assert(marker_part =~= whole + seq![
                                (key_v, inner_html_of(name@, children@)),
                            ]);
                            assert(marker_part.drop_last() =~= whole);
                            assert(before_content == insert_pairs(e0, whole, page, v1));
                            assert(self.locale.keys.entries() == insert_pair(
                                before_content,
                                (key_v, inner_html_of(name@, children@)),
                                page,
                                v1,
                            ));
                            assert(marker_part.last() == (
                                key_v,
                                inner_html_of(name@, children@),
                            ));
                            assert(insert_pairs(e0, marker_part, page, v1) == insert_pair(
                                insert_pairs(e0, marker_part.drop_last(), page, v1),
                                marker_part.last(),
                                page,
                                v1,
                            ));
                            assert(insert_pairs(e0, marker_part.drop_last(), page, v1)
                                == insert_pairs(e0, whole, page, v1));
                            assert(self.locale.keys.entries() == insert_pairs(
                                e0,
                                marker_part,
                                page,
                                v1,
                            ));
                        }
                    },
                    None => {
                        assert(marker_part =~= Seq::<(Seq<char>, Seq<char>)>::empty());
                        assert(self.locale.keys.entries() == insert_pairs(
                            e0,
                            marker_part,
                            page,
                            v1,
                        ));
                    },
                }

                let ghost e1 = self.locale.keys.entries();
                let ghost explicit_part = match lookup(a, tag_v + "-attrs-explicit"@) {
                    Some(json) => match json_str_map_of(json) {
                        Some(pairs) => extract_explicit(pairs, a, prefix_v),
                        None => Seq::empty(),
                    },
                    None => Seq::empty(),
                };
                let explicit_json = clone_opt_string_ref(get_attr(attrs, explicit_attr.as_str()));
                match explicit_json {
                    Some(json) => {
                        match parse_string_map(json.as_str()) {
                            Some(pairs) => {
                                proof {
                                    crate::store::lemma_dv1(pairs);
                                }
                                let ghost qdv = pairs.deep_view();
                                let n = pairs.len();
                                let mut i: usize = 0;
                                while i < n
                                    invariant
                                        0 <= i <= n,
                                        n == pairs@.len(),
                                        self.locale.keys.entries() == insert_pairs(
                                            e1,
                                            extract_explicit(
                                                qdv.subrange(0, i as int),
                                                a,
                                                prefix_v,
                                            ),
                                            page,
                                            v1,
                                        ),
                                        self.locale.keys is V1 <==> v1,
                                        self.locale.wf(),
                                        self.locale.version == old(self).locale.version,
                                        self.urls_locale == old(self).urls_locale,
                                        self.current_file == old(self).current_file,
                                        self.options == old(self).options,
                                    decreases n - i,
                                {
                                    let ghost pre = extract_explicit(
                                        qdv.subrange(0, i as int),
                                        a,
                                        prefix_v,
                                    );
                                    match get_attr(attrs, pairs[i].0.as_str()) {
                                        Some(v) => {
                                            let v = v.clone();
                                            let mut ek = prefix.clone();
                                            ek.append(pairs[i].1.as_str());
                                            self.locale.insert(
                                                ek,
                                                v,
                                                self.current_file.as_str(),
                                            );
                                        },
                                        None => {},
                                    }
                                    proof {
                                        assert(qdv.subrange(0, i + 1 as int).drop_last()
                                            =~= qdv.subrange(0, i as int));
                                        assert(qdv.subrange(0, i + 1 as int).last()
                                            == qdv[i as int]);
                                        match lookup(a, qdv[i as int].0) {
                                            Some(v) => {
                                                assert((pre + seq![
                                                    (prefix_v + qdv[i as int].1, v),
                                                ]).drop_last() =~= pre);
                                                assert(extract_explicit(
                                                    qdv.subrange(0, i + 1 as int),
                                                    a,
                                                    prefix_v,
                                                ) =~= pre + seq![(prefix_v + qdv[i as int].1, v)]);
                                            },
                                            None => {
                                                assert(extract_explicit(
                                                    qdv.subrange(0, i + 1 as int),
                                                    a,
                                                    prefix_v,
                                                ) =~= pre);
                                            },
                                        }
                                    }
                                    i = i + 1;
                                }
                                proof {
                                    assert(qdv.subrange(0, n as int) =~= qdv);
                                }
                            },
                            None => {},
                        }
                    },
                    None => {},
                }
                proof {
                    assert(self.locale.keys.entries() == insert_pairs(e1, explicit_part, page, v1));
                    lemma_insert_pairs_concat(e0, marker_part, explicit_part, page, v1);
                }

                let ghost e2 = self.locale.keys.entries();
                let n = children.len();
                let mut i: usize = 0;
                while i < n
                    invariant
                        0 <= i <= n,
                        n == children@.len(),
                        self.locale.keys.entries() == insert_pairs(
                            e2,
                            extract_nodes(
                                children@.subrange(0, i as int),
                                root2_v,
                                ns2_v,
                                tag_v,
                                sep_v,
                            ),
                            page,
                            v1,
                        ),
                        self.locale.keys is V1 <==> v1,
                        self.locale.wf(),
                        self.locale.version == old(self).locale.version,
                        self.urls_locale == old(self).urls_locale,
                        self.current_file == old(self).current_file,
                        self.options == old(self).options,
                        root2.deep_view() == root2_v,
                        ns2.deep_view() == ns2_v,
                    decreases n - i,
                {
                    let ghost pre = extract_nodes(
                        children@.subrange(0, i as int),
                        root2_v,
                        ns2_v,
                        tag_v,
                        sep_v,
                    );
                    let r2 = clone_opt_string(&root2);
                    let n2 = clone_opt_string(&ns2);
                    proof {
                        assert(decreases_to!(*node => children@[i as int]));
                    }
                    self.process_html_node(&children[i], r2, n2);
                    proof {
                        assert(children@.subrange(0, i + 1 as int).drop_last()
                            =~= children@.subrange(0, i as int));
                        assert(children@.subrange(0, i + 1 as int).last()
                            == children@[i as int]);
                        lemma_insert_pairs_concat(
                            e2,
                            pre,
                            extract_node(children@[i as int], root2_v, ns2_v, tag_v, sep_v),
                            page,
                            v1,
                        );
                        assert(extract_nodes(
                            children@.subrange(0, i + 1 as int),
                            root2_v,
                            ns2_v,
                            tag_v,
                            sep_v,
                        ) =~= pre + extract_node(
                            children@[i as int],
                            root2_v,
                            ns2_v,
                            tag_v,
                            sep_v,
                        ));
                    }
                    i = i + 1;
                }
                proof {
                    assert(children@.subrange(0, n as int) =~= children@);
                    lemma_insert_pairs_concat(
                        e0,
                        marker_part + explicit_part,
                        extract_nodes(children@, root2_v, ns2_v, tag_v, sep_v),
                        page,
                        v1,
                    );
                    assert(marker_part + explicit_part + extract_nodes(
                        children@,
                        root2_v,
                        ns2_v,
                        tag_v,
                        sep_v,
                    ) =~= (marker_part + explicit_part) + extract_nodes(
                        children@,
                        root2_v,
                        ns2_v,
                        tag_v,
                        sep_v,
                    ));
                }
            },
            _ => {},
        }
    }

    /// Extract one document: record its path in the URL store as an
    /// identity mapping, then walk its nodes with an empty context.
    #[verifier::loop_isolation(false)]
    pub fn process_html_file(&mut self, relative_path: &str, nodes: &Vec<HtmlNode>)
        requires
            old(self).wf(),
        ensures
            final(self).wf(),
            final(self).current_file@ == replaced(relative_path@, '\\', '/'),
            final(self).urls_locale.keys.entries() == set_key(
                old(self).urls_locale.keys.entries(),
                replaced(relative_path@, '\\', '/'),
                if old(self).urls_locale.keys is V1 {
                    v1_entry(replaced(relative_path@, '\\', '/'))
                } else {
                    fresh_entry(replaced(relative_path@, '\\', '/'))
                },
            ),
            final(self).locale.keys is V1 <==> old(self).locale.keys is V1,
            final(self).locale.keys.entries() == insert_pairs(
                old(self).locale.keys.entries(),
                extract_nodes(
                    nodes@,
                    None,
                    None,
                    old(self).options.config.tag@,
                    old(self).options.config.separator@,
                ),
                replaced(relative_path@, '\\', '/'),
                old(self).locale.keys is V1,
            ),
            final(self).options == old(self).options,
    {
        let cf = replace_char(relative_path, '\\', '/');
        self.current_file = cf;
        self.urls_locale.insert_uncounted(self.current_file.clone(), self.current_file.clone());
        let ghost e0 = self.locale.keys.entries();
        let ghost v1 = self.locale.keys is V1;
        let ghost page = self.page_of();
        let ghost tag_v = self.options.config.tag@;
        let ghost sep_v = self.options.config.separator@;
        proof {
            assert(replaced(replaced(relative_path@, '\\', '/'), '\\', '/') =~= replaced(
                relative_path@,
                '\\',
                '/',
            ));
        }
        let ghost urls1 = self.urls_locale;
        let n = nodes.len();
        let mut i: usize = 0;
        while i < n
            invariant
                0 <= i <= n,
                n == nodes@.len(),
                self.locale.keys.entries() == insert_pairs(
                    e0,
                    extract_nodes(nodes@.subrange(0, i as int), None, None, tag_v, sep_v),
                    page,
                    v1,
                ),
                self.locale.keys is V1 <==> v1,
                self.wf(),
                self.locale.version == old(self).locale.version,
                self.urls_locale == urls1,
                self.current_file@ == replaced(relative_path@, '\\', '/'),
                self.options == old(self).options,
            decreases n - i,
        {
            let ghost pre = extract_nodes(nodes@.subrange(0, i as int), None, None, tag_v, sep_v);
            self.process_html_node(&nodes[i], None, None);
            proof {
                assert(nodes@.subrange(0, i + 1 as int).drop_last() =~= nodes@.subrange(
                    0,
                    i as int,
                ));
                assert(nodes@.subrange(0, i + 1 as int).last() == nodes@[i as int]);
                lemma_insert_pairs_concat(
                    e0,
                    pre,
                    extract_node(nodes@[i as int], None, None, tag_v, sep_v),
                    page,
                    v1,
                );
                assert(extract_nodes(nodes@.subrange(0, i + 1 as int), None, None, tag_v, sep_v)
                    =~= pre + extract_node(nodes@[i as int], None, None, tag_v, sep_v));
            }
            i = i + 1;
        }
        proof {
            assert(nodes@.subrange(0, n as int) =~= nodes@);
        }
    }
}

/// A copy of an optional borrowed string, equal in view.
pub fn clone_opt_string_ref(o: Option<&String>) -> (r: Option<String>)
    ensures
        r.deep_view() == o.deep_view(),
        r is Some <==> o is Some,
{
    match o {
        Some(s) => Some(s.clone()),
        None => None,
    }
}

} // verus!
