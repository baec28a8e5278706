//! The library's laws: determinism of extraction and of both injection
//! back ends, round-trip identity of injection, per-key fallback, and
//! the V1/V2 normalization asymmetry, each proved from the contracts the
//! engines carry. Every stage of a build is deterministic; a rebuild
//! over unchanged inputs writes identical bytes (the per-file loop
//! around these stages is plain iteration in the shell).

use crate::generate::extract_node;
use crate::generate::extract_nodes;
use crate::generate::insert_pairs;
use crate::html::HtmlNode;
use crate::json::JsonValue;
use crate::html::inner_html_of;
use crate::html::is_void_name;
use crate::html::ser_attrs;
use crate::html::ser_node;
use crate::html::ser_nodes;
use crate::inject::content_nodes_rel;
use crate::inject::content_rel;
use crate::inject::eq_node_rel;
use crate::inject::eq_nodes_rel;
use crate::inject::explicit_attrs_set;
use crate::inject::injected_attrs;
use crate::inject::marker_attrs_set;
use crate::kv::lemma_set_key_props;
use crate::kv::lookup;
use crate::resolve::ctx_after;
use crate::resolve::prefix_spec;
use crate::resolve::resolved_key;
use crate::rewrite::RewriteContext;
use crate::store::EntryView;
use crate::store::RoseyTranslation;
use crate::store::v1_entry_fn;
use vstd::prelude::*;

verus! {

/// Law: extraction is deterministic. Two structurally equal documents —
/// in particular, two parses of the same bytes — contribute identical
/// observations under the same context: the same keys (hash-derived keys
/// included, since the serialized forms agree) bound to the same text,
/// in the same order. Extracting a document twice therefore yields an
/// identical store. That *distinct* content yields distinct hash keys is
/// the digest's collision resistance — a property of SHA-256 itself, not
/// one a contract can state.
pub proof fn lemma_extraction_deterministic(
    a: HtmlNode,
    b: HtmlNode,
    root: Option<Seq<char>>,
    ns: Option<Seq<char>>,
    tag: Seq<char>,
    sep: Seq<char>,
)
    requires
        eq_node_rel(a, b),
    ensures
        extract_node(a, root, ns, tag, sep) == extract_node(b, root, ns, tag, sep),
    decreases a,
{
    lemma_eq_ser(a, b);
    match (a, b) {
        (
            HtmlNode::Element { name: an, attrs: aa, children: ac },
            HtmlNode::Element { name: bn, attrs: ba, children: bc },
        ) => {
            let (root2, ns2) = ctx_after(
                root,
                ns,
                lookup(aa.deep_view(), tag + "-root"@),
                lookup(aa.deep_view(), tag + "-ns"@),
                sep,
            );
            lemma_eq_extract_nodes(ac@, bc@, root2, ns2, tag, sep);
            assert(inner_html_of(an@, ac@) == inner_html_of(bn@, bc@)) by {
                lemma_eq_ser_nodes(ac@, bc@, crate::html::is_raw_text_name(an@));
            }
        },
        _ => {},
    }
}

/// Structurally equal node sequences contribute identical observations.
pub proof fn lemma_eq_extract_nodes(
    a: Seq<HtmlNode>,
    b: Seq<HtmlNode>,
    root: Option<Seq<char>>,
    ns: Option<Seq<char>>,
    tag: Seq<char>,
    sep: Seq<char>,
)
    requires
        eq_nodes_rel(a, b),
    ensures
        extract_nodes(a, root, ns, tag, sep) == extract_nodes(b, root, ns, tag, sep),
    decreases a,
{
    if a.len() > 0 {
        lemma_eq_extract_nodes(a.drop_last(), b.drop_last(), root, ns, tag, sep);
        lemma_extraction_deterministic(a.last(), b.last(), root, ns, tag, sep);
    }
}

/// Structurally equal nodes serialize identically.
pub proof fn lemma_eq_ser(a: HtmlNode, b: HtmlNode)
    requires
        eq_node_rel(a, b),
    ensures
        ser_node(a) == ser_node(b),
    decreases a,
{
    match (a, b) {
        (
            HtmlNode::Element { name: an, attrs: aa, children: ac },
            HtmlNode::Element { name: bn, attrs: ba, children: bc },
        ) => {
            lemma_eq_ser_nodes(ac@, bc@, crate::html::is_raw_text_name(an@));
        },
        _ => {},
    }
}

/// Structurally equal node sequences serialize identically.
pub proof fn lemma_eq_ser_nodes(a: Seq<HtmlNode>, b: Seq<HtmlNode>, raw: bool)
    requires
        eq_nodes_rel(a, b),
    ensures
        ser_nodes(a, raw) == ser_nodes(b, raw),
    decreases a,
{
    if a.len() > 0 {
        lemma_eq_ser_nodes(a.drop_last(), b.drop_last(), raw);
        match (a.last(), b.last()) {
            (HtmlNode::Text(x), HtmlNode::Text(y)) => {},
            _ => {
                lemma_eq_ser(a.last(), b.last());
            },
        }
    }
}

/// A store none of whose entries carries a translated value.
pub open spec fn value_free(t: RoseyTranslation) -> bool {
    forall|k: Seq<char>| #[trigger] t.spec_get(k) is None
}

/// A freshly extracted V2 store is value-free: a counted insert never
/// invents a translation, it only captures the original text and bumps
/// statistics.
pub proof fn lemma_extracted_store_value_free(
    e: Seq<(Seq<char>, EntryView)>,
    ps: Seq<(Seq<char>, Seq<char>)>,
    page: Seq<char>,
)
    requires
        crate::kv::keys_distinct(e),
        forall|k: Seq<char>| (#[trigger] lookup(e, k)) matches Some(en) ==> en.value is None,
    ensures
        crate::kv::keys_distinct(insert_pairs(e, ps, page, false)),
        forall|k: Seq<char>|
            (#[trigger] lookup(insert_pairs(e, ps, page, false), k)) matches Some(en) ==> en.value
                is None,
    decreases ps.len(),
{
    if ps.len() > 0 {
        lemma_extracted_store_value_free(e, ps.drop_last(), page);
        let pre = insert_pairs(e, ps.drop_last(), page, false);
        let p = ps.last();
        let entry = crate::store::counted_entry(lookup(pre, p.0), p.1, page);
        assert(entry.value is None);
        lemma_set_key_props(pre, p.0, entry);
    }
}

/// Under a value-free store, the marker attribute rewrites change
/// nothing.
proof fn lemma_value_free_marker_attrs(
    attrs: Seq<(Seq<char>, Seq<char>)>,
    parts: Seq<Seq<char>>,
    key: Seq<char>,
    t: RoseyTranslation,
)
    requires
        value_free(t),
    ensures
        marker_attrs_set(attrs, parts, key, t) == attrs,
    decreases parts.len(),
{
    if parts.len() > 0 {
        lemma_value_free_marker_attrs(attrs, parts.drop_last(), key, t);
    }
}

/// Under a value-free store, the explicit attribute rewrites change
/// nothing.
proof fn lemma_value_free_explicit_attrs(
    attrs: Seq<(Seq<char>, Seq<char>)>,
    pairs: Seq<(Seq<char>, Seq<char>)>,
    prefix: Seq<char>,
    t: RoseyTranslation,
)
    requires
        value_free(t),
    ensures
        explicit_attrs_set(attrs, pairs, prefix, t) == attrs,
    decreases pairs.len(),
{
    if pairs.len() > 0 {
        lemma_value_free_explicit_attrs(attrs, pairs.drop_last(), prefix, t);
    }
}

/// Law: round-trip identity. Injecting the default language with a store
/// freshly extracted from the same document — a value-free store —
/// reproduces the original markup exactly: every marker falls back to
/// its captured content, and every attribute keeps its value.
pub proof fn lemma_round_trip_identity(
    n: HtmlNode,
    root: Option<Seq<char>>,
    ns: Option<Seq<char>>,
    sep: Seq<char>,
    t: RoseyTranslation,
    ctx: RewriteContext,
    out: HtmlNode,
)
    requires
        value_free(t),
        !ctx.should_wrap,
        content_rel(n, root, ns, sep, t, ctx, out),
    ensures
        ser_node(out) == ser_node(n),
    decreases n,
{
    match n {
        HtmlNode::Element { name, attrs, children } => {
            let a = attrs.deep_view();
            let tag = ctx.tag@;
            let (root2, ns2) = ctx_after(
                root,
                ns,
                lookup(a, tag + "-root"@),
                lookup(a, tag + "-ns"@),
                sep,
            );
            let prefix = prefix_spec(root2, ns2, sep);
            match lookup(a, tag) {
                Some(k) => {
                    let key = resolved_key(prefix, k, ser_node(n));
                    assert(t.spec_get(key) is None);
                    match lookup(a, tag + "-attrs"@) {
                        Some(list) => {
                            lemma_value_free_marker_attrs(
                                a,
                                crate::text::split_on(list, ','),
                                key,
                                t,
                            );
                        },
                        None => {},
                    }
                    match lookup(a, tag + "-attrs-explicit"@) {
                        Some(json) => {
                            match crate::resolve::json_str_map_of(json) {
                                Some(pairs) => {
                                    lemma_value_free_explicit_attrs(a, pairs, prefix, t);
                                },
                                None => {},
                            }
                        },
                        None => {},
                    }
                    assert(injected_attrs(a, tag, prefix, key, true, t) == a);
                    match out {
                        HtmlNode::Element { name: on, attrs: oa, children: oc } => {
                            assert(oa.deep_view() == a);
                            lemma_ser_attrs_eq(oa.deep_view(), a);
                            assert(ser_attrs(oa.deep_view()) == ser_attrs(a));
                            if !is_void_name(name@) {
                                assert(oc@[0] matches HtmlNode::Raw(raw) && raw@ == inner_html_of(
                                    name@,
                                    children@,
                                ));
                                assert(oc@.drop_last() =~= Seq::<HtmlNode>::empty());
                                let flag = crate::html::is_raw_text_name(on@);
                                assert(ser_nodes(Seq::<HtmlNode>::empty(), flag)
                                    == Seq::<char>::empty());
                                assert(oc@.last() == oc@[0]);
                                assert(ser_nodes(oc@, flag) == Seq::<char>::empty() + ser_node(
                                    oc@[0],
                                ));
                                assert(Seq::<char>::empty() + inner_html_of(name@, children@)
                                    =~= inner_html_of(name@, children@));
                                assert(ser_nodes(oc@, crate::html::is_raw_text_name(on@))
                                    == inner_html_of(name@, children@));
                            }
                            assert(ser_node(out) =~= ser_node(n));
                        },
                        _ => {
                            assert(false);
                        },
                    }
                },
                None => {
                    match lookup(a, tag + "-attrs-explicit"@) {
                        Some(json) => {
                            match crate::resolve::json_str_map_of(json) {
                                Some(pairs) => {
                                    lemma_value_free_explicit_attrs(a, pairs, prefix, t);
                                },
                                None => {},
                            }
                        },
                        None => {},
                    }
                    assert(injected_attrs(a, tag, prefix, Seq::empty(), false, t) == a);
                    match out {
                        HtmlNode::Element { name: on, attrs: oa, children: oc } => {
                            lemma_ser_attrs_eq(oa.deep_view(), a);
                            lemma_round_trip_nodes(children@, root2, ns2, sep, t, ctx, oc@);
                            assert(ser_nodes(oc@, crate::html::is_raw_text_name(on@))
                                == ser_nodes(children@, crate::html::is_raw_text_name(name@)));
                            assert(ser_node(out) =~= ser_node(n));
                        },
                        _ => {
                            assert(false);
                        },
                    }
                },
            }
        },
        _ => {
            lemma_eq_ser(n, out);
        },
    }
}

/// Equal attribute views serialize identically (a congruence step).
proof fn lemma_ser_attrs_eq(a: Seq<(Seq<char>, Seq<char>)>, b: Seq<(Seq<char>, Seq<char>)>)
    requires
        a == b,
    ensures
        ser_attrs(a) == ser_attrs(b),
{
}

/// Round-trip identity over a node sequence.
pub proof fn lemma_round_trip_nodes(
    s: Seq<HtmlNode>,
    root: Option<Seq<char>>,
    ns: Option<Seq<char>>,
    sep: Seq<char>,
    t: RoseyTranslation,
    ctx: RewriteContext,
    out: Seq<HtmlNode>,
)
    requires
        value_free(t),
        !ctx.should_wrap,
        content_nodes_rel(s, root, ns, sep, t, ctx, out),
    ensures
        forall|raw: bool| #[trigger] ser_nodes(out, raw) == ser_nodes(s, raw),
    decreases s,
{
    if s.len() > 0 {
        lemma_round_trip_nodes(s.drop_last(), root, ns, sep, t, ctx, out.drop_last());
        assert(content_rel(s.last(), root, ns, sep, t, ctx, out.last()));
        assert forall|raw: bool| #[trigger] ser_nodes(out, raw) == ser_nodes(s, raw) by {
            assert(ser_nodes(s.drop_last(), raw) == ser_nodes(out.drop_last(), raw));
            match s.last() {
                HtmlNode::Text(x) => {
                    assert(out.last() matches HtmlNode::Text(y) && y@ == x@);
                },
                HtmlNode::Element { .. } => {
                    lemma_round_trip_identity(s.last(), root, ns, sep, t, ctx, out.last());
                    assert(out.last() matches HtmlNode::Element { .. });
                },
                HtmlNode::Raw(x) => {
                    lemma_round_trip_identity(s.last(), root, ns, sep, t, ctx, out.last());
                    assert(out.last() matches HtmlNode::Raw(y));
                },
                HtmlNode::Comment(x) => {
                    lemma_round_trip_identity(s.last(), root, ns, sep, t, ctx, out.last());
                    assert(out.last() matches HtmlNode::Comment(y));
                },
                HtmlNode::Doctype(x) => {
                    lemma_round_trip_identity(s.last(), root, ns, sep, t, ctx, out.last());
                    assert(out.last() matches HtmlNode::Doctype(y));
                },
            }
        }
    }
}

/// Law: V1/V2 normalization asymmetry. Read through the normalized view,
/// every entry of a V1 store holds only its translated value — the
/// provenance fields stay absent, never fabricated — while a V2 store
/// normalizes to itself.
pub proof fn lemma_normalization_asymmetry(t: RoseyTranslation)
    ensures
        t is V1 ==> forall|j: int|
            0 <= j < t.entries().len() ==> {
                &&& (#[trigger] t.entries()[j]).1.value is Some
                &&& t.entries()[j].1.original is None
                &&& t.entries()[j].1.total is None
                &&& t.entries()[j].1.pages is None
            },
        t is V2 ==> (match t {
            RoseyTranslation::V2(keys) => t.entries() == keys.deep_view(),
            _ => true,
        }),
{
    match t {
        RoseyTranslation::V1(keys) => {
            assert forall|j: int| 0 <= j < t.entries().len() implies {
                &&& (#[trigger] t.entries()[j]).1.value is Some
                &&& t.entries()[j].1.original is None
                &&& t.entries()[j].1.total is None
                &&& t.entries()[j].1.pages is None
            } by {
                assert(t.entries()[j] == (keys.deep_view()[j].0, v1_entry_fn()(
                    keys.deep_view()[j].1,
                )));
            }
        },
        RoseyTranslation::V2(keys) => {},
    }
}

/// Law: per-key fallback. At a marker whose key the locale's store does
/// not translate, injection splices the original captured markup back —
/// never an empty node. (The injector's contract also covers the
/// translated case: fallback is per key, not per document.)
pub proof fn lemma_fallback_retains_source(
    n: HtmlNode,
    root: Option<Seq<char>>,
    ns: Option<Seq<char>>,
    sep: Seq<char>,
    t: RoseyTranslation,
    ctx: RewriteContext,
    out: HtmlNode,
)
    requires
        content_rel(n, root, ns, sep, t, ctx, out),
        n matches HtmlNode::Element { name, attrs, children },
        ({
            let a = (n->Element_attrs).deep_view();
            let (root2, ns2) = ctx_after(
                root,
                ns,
                lookup(a, ctx.tag@ + "-root"@),
                lookup(a, ctx.tag@ + "-ns"@),
                sep,
            );
            let prefix = prefix_spec(root2, ns2, sep);
            lookup(a, ctx.tag@) matches Some(k) && t.spec_get(
                resolved_key(prefix, k, ser_node(n)),
            ) is None
        }),
    ensures
        out matches HtmlNode::Element { children: oc, .. } && oc@.len() == 1 && (oc@[0]
            matches HtmlNode::Raw(raw) && raw@ == inner_html_of(
            n->Element_name@,
            n->Element_children@,
        )),
{
}

/// Structural equality joins for nodes: two structural copies of one
/// node are structurally equal to each other.
pub proof fn lemma_html_eq_joins(a: HtmlNode, b1: HtmlNode, b2: HtmlNode)
    requires
        eq_node_rel(a, b1),
        eq_node_rel(a, b2),
    ensures
        eq_node_rel(b1, b2),
    decreases a,
{
    match (a, b1, b2) {
        (
            HtmlNode::Element { children: ac, .. },
            HtmlNode::Element { children: c1, .. },
            HtmlNode::Element { children: c2, .. },
        ) => {
            lemma_html_eq_nodes_joins(ac@, c1@, c2@);
        },
        _ => {},
    }
}

/// Structural equality joins, over node sequences.
pub proof fn lemma_html_eq_nodes_joins(a: Seq<HtmlNode>, b1: Seq<HtmlNode>, b2: Seq<HtmlNode>)
    requires
        eq_nodes_rel(a, b1),
        eq_nodes_rel(a, b2),
    ensures
        eq_nodes_rel(b1, b2),
    decreases a,
{
    if a.len() > 0 {
        lemma_html_eq_nodes_joins(a.drop_last(), b1.drop_last(), b2.drop_last());
        lemma_html_eq_joins(a.last(), b1.last(), b2.last());
    }
}

/// Law: HTML injection is deterministic. Any two rewrites of one
/// document for one locale serialize identically — running the build
/// twice over unchanged inputs writes identical bytes. Every splice is
/// pinned: a translated value holding markup becomes exactly its
/// tokenization rendered under the context (see
/// [`crate::rewrite::rewritten_fragment`]).
pub proof fn lemma_injection_deterministic(
    n: HtmlNode,
    root: Option<Seq<char>>,
    ns: Option<Seq<char>>,
    sep: Seq<char>,
    t: RoseyTranslation,
    ctx: RewriteContext,
    o1: HtmlNode,
    o2: HtmlNode,
)
    requires
        content_rel(n, root, ns, sep, t, ctx, o1),
        content_rel(n, root, ns, sep, t, ctx, o2),
    ensures
        ser_node(o1) == ser_node(o2),
    decreases n,
{
    match n {
        HtmlNode::Element { name, attrs, children } => {
            let a = attrs.deep_view();
            let tag = ctx.tag@;
            let (root2, ns2) = ctx_after(
                root,
                ns,
                lookup(a, tag + "-root"@),
                lookup(a, tag + "-ns"@),
                sep,
            );
            match lookup(a, tag) {
                Some(k) => {
                    let key = resolved_key(prefix_spec(root2, ns2, sep), k, ser_node(n));
                    match (o1, o2) {
                        (
                            HtmlNode::Element { name: n1, attrs: a1, children: c1 },
                            HtmlNode::Element { name: n2, attrs: a2, children: c2 },
                        ) => {
                            lemma_ser_attrs_eq(a1.deep_view(), a2.deep_view());
                            assert(c1@[0] matches HtmlNode::Raw(r1) && (c2@[0]
                                matches HtmlNode::Raw(r2) && r1@ == r2@));
                            assert(c1@.drop_last() =~= Seq::<HtmlNode>::empty());
                            assert(c2@.drop_last() =~= Seq::<HtmlNode>::empty());
                            let flag = crate::html::is_raw_text_name(n1@);
                            assert(ser_nodes(Seq::<HtmlNode>::empty(), flag)
                                == Seq::<char>::empty());
                            assert(c1@.last() == c1@[0] && c2@.last() == c2@[0]);
                            assert(ser_nodes(c1@, flag) == Seq::<char>::empty() + ser_node(
                                c1@.last(),
                            ));
                            assert(ser_nodes(c2@, flag) == Seq::<char>::empty() + ser_node(
                                c2@.last(),
                            ));
                            assert(ser_node(c1@.last()) == ser_node(c2@.last()));
                            assert(ser_nodes(c1@, flag) == ser_nodes(c2@, flag));
                            assert(ser_node(o1) =~= ser_node(o2));
                        },
                        _ => {
                            assert(false);
                        },
                    }
                },
                None => {
                    match (o1, o2) {
                        (
                            HtmlNode::Element { name: n1, attrs: a1, children: c1 },
                            HtmlNode::Element { name: n2, attrs: a2, children: c2 },
                        ) => {
                            lemma_ser_attrs_eq(a1.deep_view(), a2.deep_view());
                            lemma_injection_deterministic_nodes(
                                children@,
                                root2,
                                ns2,
                                sep,
                                t,
                                ctx,
                                c1@,
                                c2@,
                            );
                            assert(ser_nodes(c1@, crate::html::is_raw_text_name(n1@))
                                == ser_nodes(c2@, crate::html::is_raw_text_name(n2@)));
                            assert(ser_node(o1) =~= ser_node(o2));
                        },
                        _ => {
                            assert(false);
                        },
                    }
                },
            }
        },
        _ => {
            lemma_html_eq_joins(n, o1, o2);
            lemma_eq_ser(o1, o2);
        },
    }
}

/// Determinism of injection over a node sequence.
pub proof fn lemma_injection_deterministic_nodes(
    s: Seq<HtmlNode>,
    root: Option<Seq<char>>,
    ns: Option<Seq<char>>,
    sep: Seq<char>,
    t: RoseyTranslation,
    ctx: RewriteContext,
    o1: Seq<HtmlNode>,
    o2: Seq<HtmlNode>,
)
    requires
        content_nodes_rel(s, root, ns, sep, t, ctx, o1),
        content_nodes_rel(s, root, ns, sep, t, ctx, o2),
    ensures
        forall|raw: bool| #[trigger] ser_nodes(o1, raw) == ser_nodes(o2, raw),
    decreases s,
{
    if s.len() > 0 {
        lemma_injection_deterministic_nodes(
            s.drop_last(),
            root,
            ns,
            sep,
            t,
            ctx,
            o1.drop_last(),
            o2.drop_last(),
        );
        assert(content_rel(s.last(), root, ns, sep, t, ctx, o1.last()));
        assert(content_rel(s.last(), root, ns, sep, t, ctx, o2.last()));
        assert forall|raw: bool| #[trigger] ser_nodes(o1, raw) == ser_nodes(o2, raw) by {
            match s.last() {
                HtmlNode::Text(x) => {
                    assert(o1.last() matches HtmlNode::Text(y1) && y1@ == x@);
                    assert(o2.last() matches HtmlNode::Text(y2) && y2@ == x@);
                    assert(ser_nodes(o1, raw) == ser_nodes(o1.drop_last(), raw) + (if raw {
                        x@
                    } else {
                        crate::html::esc_text(x@)
                    }));
                    assert(ser_nodes(o2, raw) == ser_nodes(o2.drop_last(), raw) + (if raw {
                        x@
                    } else {
                        crate::html::esc_text(x@)
                    }));
                },
                HtmlNode::Element { .. } => {
                    lemma_injection_deterministic(
                        s.last(),
                        root,
                        ns,
                        sep,
                        t,
                        ctx,
                        o1.last(),
                        o2.last(),
                    );
                    assert(o1.last() matches HtmlNode::Element { .. });
                    assert(o2.last() matches HtmlNode::Element { .. });
                    assert(ser_nodes(o1, raw) == ser_nodes(o1.drop_last(), raw) + ser_node(
                        o1.last(),
                    ));
                    assert(ser_nodes(o2, raw) == ser_nodes(o2.drop_last(), raw) + ser_node(
                        o2.last(),
                    ));
                },
                HtmlNode::Raw(x) => {
                    assert(o1.last() matches HtmlNode::Raw(y1) && y1@ == x@);
                    assert(o2.last() matches HtmlNode::Raw(y2) && y2@ == x@);
                    assert(ser_node(o1.last()) == ser_node(o2.last()));
                    assert(ser_nodes(o1, raw) == ser_nodes(o1.drop_last(), raw) + ser_node(
                        o1.last(),
                    ));
                    assert(ser_nodes(o2, raw) == ser_nodes(o2.drop_last(), raw) + ser_node(
                        o2.last(),
                    ));
                },
                HtmlNode::Comment(x) => {
                    assert(o1.last() matches HtmlNode::Comment(y1) && y1@ == x@);
                    assert(o2.last() matches HtmlNode::Comment(y2) && y2@ == x@);
                    assert(ser_node(o1.last()) == ser_node(o2.last()));
                    assert(ser_nodes(o1, raw) == ser_nodes(o1.drop_last(), raw) + ser_node(
                        o1.last(),
                    ));
                    assert(ser_nodes(o2, raw) == ser_nodes(o2.drop_last(), raw) + ser_node(
                        o2.last(),
                    ));
                },
                HtmlNode::Doctype(x) => {
                    assert(o1.last() matches HtmlNode::Doctype(y1) && y1@ == x@);
                    assert(o2.last() matches HtmlNode::Doctype(y2) && y2@ == x@);
                    assert(ser_node(o1.last()) == ser_node(o2.last()));
                    assert(ser_nodes(o1, raw) == ser_nodes(o1.drop_last(), raw) + ser_node(
                        o1.last(),
                    ));
                    assert(ser_nodes(o2, raw) == ser_nodes(o2.drop_last(), raw) + ser_node(
                        o2.last(),
                    ));
                },
            }
        }
    }
}

/// Structural equality joins: two structural copies of one value are
/// structurally equal to each other.
pub proof fn lemma_json_eq_joins(a: JsonValue, b1: JsonValue, b2: JsonValue)
    requires
        crate::json::eq_rel(a, b1),
        crate::json::eq_rel(a, b2),
    ensures
        crate::json::eq_rel(b1, b2),
    decreases a,
{
    match (a, b1, b2) {
        (JsonValue::Object(ap), JsonValue::Object(p1), JsonValue::Object(p2)) => {
            lemma_json_eq_obj_joins(ap@, p1@, p2@);
        },
        (JsonValue::Array(aa), JsonValue::Array(a1), JsonValue::Array(a2)) => {
            lemma_json_eq_arr_joins(aa@, a1@, a2@);
        },
        _ => {},
    }
}

/// Structural equality joins, over object members.
proof fn lemma_json_eq_obj_joins(
    a: Seq<(String, JsonValue)>,
    b1: Seq<(String, JsonValue)>,
    b2: Seq<(String, JsonValue)>,
)
    requires
        crate::json::eq_obj_rel(a, b1),
        crate::json::eq_obj_rel(a, b2),
    ensures
        crate::json::eq_obj_rel(b1, b2),
    decreases a,
{
    if a.len() > 0 {
        lemma_json_eq_obj_joins(a.drop_last(), b1.drop_last(), b2.drop_last());
        lemma_json_eq_joins(a.last().1, b1.last().1, b2.last().1);
    }
}

/// Structural equality joins, over arrays.
proof fn lemma_json_eq_arr_joins(a: Seq<JsonValue>, b1: Seq<JsonValue>, b2: Seq<JsonValue>)
    requires
        crate::json::eq_arr_rel(a, b1),
        crate::json::eq_arr_rel(a, b2),
    ensures
        crate::json::eq_arr_rel(b1, b2),
    decreases a,
{
    if a.len() > 0 {
        lemma_json_eq_arr_joins(a.drop_last(), b1.drop_last(), b2.drop_last());
        lemma_json_eq_joins(a.last(), b1.last(), b2.last());
    }
}

/// Law: JSON injection is deterministic. Any two rewrites of one source
/// under one schema and one store are structurally equal — running the
/// build twice over unchanged inputs writes identical documents.
pub proof fn lemma_json_injection_deterministic(
    src: JsonValue,
    schema: JsonValue,
    ns: Option<Seq<char>>,
    t: RoseyTranslation,
    o1: JsonValue,
    o2: JsonValue,
)
    requires
        crate::json::inject_rel(src, schema, ns, t, o1),
        crate::json::inject_rel(src, schema, ns, t, o2),
    ensures
        crate::json::eq_rel(o1, o2),
    decreases src,
{
    match (src, schema) {
        (JsonValue::Object(sp), JsonValue::Object(hp)) => {
            match (o1, o2) {
                (JsonValue::Object(p1), JsonValue::Object(p2)) => {
                    lemma_json_obj_injection_deterministic(
                        sp@,
                        hp@,
                        crate::json::ns_or_empty(ns),
                        t,
                        p1@,
                        p2@,
                    );
                },
                _ => {},
            }
        },
        (JsonValue::Array(sa), JsonValue::Array(ha)) => {
            if ha@.len() == 0 {
                lemma_json_eq_joins(src, o1, o2);
            } else {
                match ha@[0] {
                    JsonValue::String(h) => {
                        let (_n, array_ns, name) = crate::json::schema_directives(h@);
                        match (o1, o2) {
                            (JsonValue::Array(a1), JsonValue::Array(a2)) => {
                                lemma_json_arr_injection_deterministic(
                                    sa@,
                                    crate::json::ns_or_empty(ns),
                                    array_ns,
                                    name,
                                    t,
                                    a1@,
                                    a2@,
                                );
                            },
                            _ => {},
                        }
                    },
                    other => {
                        match (o1, o2) {
                            (JsonValue::Array(a1), JsonValue::Array(a2)) => {
                                lemma_json_arr_rec_injection_deterministic(
                                    sa@,
                                    other,
                                    t,
                                    a1@,
                                    a2@,
                                );
                            },
                            _ => {},
                        }
                    },
                }
            }
        },
        _ => {
            lemma_json_eq_joins(src, o1, o2);
        },
    }
}

/// Determinism of injection over an object's members.
proof fn lemma_json_obj_injection_deterministic(
    sp: Seq<(String, JsonValue)>,
    hp: Seq<(String, JsonValue)>,
    ns0: Seq<char>,
    t: RoseyTranslation,
    p1: Seq<(String, JsonValue)>,
    p2: Seq<(String, JsonValue)>,
)
    requires
        crate::json::inject_obj_rel(sp, hp, ns0, t, p1),
        crate::json::inject_obj_rel(sp, hp, ns0, t, p2),
    ensures
        crate::json::eq_obj_rel(p1, p2),
    decreases sp,
{
    if sp.len() > 0 {
        lemma_json_obj_injection_deterministic(
            sp.drop_last(),
            hp,
            ns0,
            t,
            p1.drop_last(),
            p2.drop_last(),
        );
        let m = sp.last();
        let nsacc = crate::json::ns_after(sp.drop_last(), hp, ns0);
        assert(crate::json::member_rel(m, hp, nsacc, t, p1.last()));
        assert(crate::json::member_rel(m, hp, nsacc, t, p2.last()));
        match crate::json::jlookup(hp, m.0@) {
            None => {
                lemma_json_eq_joins(m.1, p1.last().1, p2.last().1);
            },
            Some(hval) => {
                match (m.1, hval) {
                    (JsonValue::String(s), JsonValue::String(h)) => {
                        let (has_ns, _a, name) = crate::json::schema_directives(h@);
                        if has_ns {
                            lemma_json_eq_joins(m.1, p1.last().1, p2.last().1);
                        } else {
                            match name {
                                Some(nm) => {
                                    match t.spec_get(nsacc + nm) {
                                        Some(v) => {
                                            assert(p1.last().1 matches JsonValue::String(x)
                                                && x@ == v);
                                            assert(p2.last().1 matches JsonValue::String(y)
                                                && y@ == v);
                                            assert(crate::json::eq_rel(
                                                p1.last().1,
                                                p2.last().1,
                                            ));
                                        },
                                        None => {
                                            lemma_json_eq_joins(m.1, p1.last().1, p2.last().1);
                                        },
                                    }
                                },
                                None => {
                                    lemma_json_eq_joins(m.1, p1.last().1, p2.last().1);
                                },
                            }
                        }
                    },
                    _ => {
                        lemma_json_injection_deterministic(
                            m.1,
                            hval,
                            Some(nsacc),
                            t,
                            p1.last().1,
                            p2.last().1,
                        );
                    },
                }
            },
        }
    }
}

/// Determinism of injection over a directive-schema array.
proof fn lemma_json_arr_injection_deterministic(
    sa: Seq<JsonValue>,
    nsacc: Seq<char>,
    array_ns: bool,
    name: Option<Seq<char>>,
    t: RoseyTranslation,
    a1: Seq<JsonValue>,
    a2: Seq<JsonValue>,
)
    requires
        crate::json::inject_arr_rel(sa, nsacc, array_ns, name, t, a1),
        crate::json::inject_arr_rel(sa, nsacc, array_ns, name, t, a2),
    ensures
        crate::json::eq_arr_rel(a1, a2),
    decreases sa,
{
    if sa.len() > 0 {
        lemma_json_arr_injection_deterministic(
            sa.drop_last(),
            nsacc,
            array_ns,
            name,
            t,
            a1.drop_last(),
            a2.drop_last(),
        );
        match sa.last() {
            JsonValue::String(s) => {
                match name {
                    Some(nm) => {
                        let k = nsacc + (if array_ns {
                            s@ + "."@
                        } else {
                            Seq::<char>::empty()
                        }) + nm;
                        match t.spec_get(k) {
                            Some(v) => {
                                assert(a1.last() matches JsonValue::String(x) && x@ == v);
                                assert(a2.last() matches JsonValue::String(y) && y@ == v);
                                assert(crate::json::eq_rel(a1.last(), a2.last()));
                            },
                            None => {
                                lemma_json_eq_joins(sa.last(), a1.last(), a2.last());
                            },
                        }
                    },
                    None => {
                        lemma_json_eq_joins(sa.last(), a1.last(), a2.last());
                    },
                }
            },
            _ => {
                lemma_json_eq_joins(sa.last(), a1.last(), a2.last());
            },
        }
        assert(crate::json::eq_rel(a1.last(), a2.last()));
    }
}

/// Determinism of injection over a structural-schema array.
proof fn lemma_json_arr_rec_injection_deterministic(
    sa: Seq<JsonValue>,
    schema_elem: JsonValue,
    t: RoseyTranslation,
    a1: Seq<JsonValue>,
    a2: Seq<JsonValue>,
)
    requires
        crate::json::inject_arr_rec_rel(sa, schema_elem, t, a1),
        crate::json::inject_arr_rec_rel(sa, schema_elem, t, a2),
    ensures
        crate::json::eq_arr_rel(a1, a2),
    decreases sa,
{
    if sa.len() > 0 {
        lemma_json_arr_rec_injection_deterministic(
            sa.drop_last(),
            schema_elem,
            t,
            a1.drop_last(),
            a2.drop_last(),
        );
        lemma_json_injection_deterministic(
            sa.last(),
            schema_elem,
            None,
            t,
            a1.last(),
            a2.last(),
        );
    }
}

} // verus!
