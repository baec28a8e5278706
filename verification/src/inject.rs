//! The injector: per-locale rewriting of a source document. The same key
//! resolution protocol as extraction runs over the tree; at each marker
//! the translated text replaces the node's children (as a raw markup
//! splice), or the original content is restored when the locale has no
//! non-empty value for the key — fallback is per key, never per document.
//! Translated rich text containing markup is token-rewritten (see
//! [`crate::rewrite`]) so nested asset and link references are localized
//! too.

use crate::html::HtmlNode;
use crate::html::get_attr;
use crate::html::inner_html;
use crate::html::inner_html_of;
use crate::html::ser_node;
use crate::kv::keys_distinct;
use crate::kv::lookup;
use crate::kv::set_key;
use crate::resolve::apply_directives;
use crate::resolve::attr_key_of;
use crate::resolve::ctx_after;
use crate::resolve::json_str_map_of;
use crate::resolve::parse_string_map;
use crate::resolve::prefix_of;
use crate::resolve::prefix_spec;
use crate::resolve::resolve_key;
use crate::resolve::resolved_key;
use crate::rewrite::RewriteContext;
use crate::rewrite::rewrite_fragment;
use crate::rewrite::segments_of;
use crate::rewrite::wrap_fold;
use crate::rewrite::wrap_text;
use crate::store::RoseyTranslation;
use crate::store::clone_opt_string;
use crate::store::v1_set;
use crate::text::lemma_dv_strings;
use crate::text::split_char;
use crate::text::split_on;
use vstd::prelude::*;
use vstd::string::StrSliceExecFns;
use vstd::string::StringExecFns;

verus! {

/// Attribute lists are maps: no attribute name repeats, anywhere in the
/// tree.
pub open spec fn node_wf(n: HtmlNode) -> bool
    decreases n,
{
    match n {
        HtmlNode::Element { name, attrs, children } => keys_distinct(attrs.deep_view())
            && nodes_wf(children@),
        _ => true,
    }
}

/// Well-formedness of a node sequence.
pub open spec fn nodes_wf(s: Seq<HtmlNode>) -> bool
    decreases s,
{
    if s.len() == 0 {
        true
    } else {
        nodes_wf(s.drop_last()) && node_wf(s.last())
    }
}

/// Structural equality of two nodes, read at the view level.
pub open spec fn eq_node_rel(a: HtmlNode, b: HtmlNode) -> bool
    decreases a,
{
    match (a, b) {
        (
            HtmlNode::Element { name: an, attrs: aa, children: ac },
            HtmlNode::Element { name: bn, attrs: ba, children: bc },
        ) => an@ == bn@ && aa.deep_view() == ba.deep_view() && eq_nodes_rel(ac@, bc@),
        (HtmlNode::Text(x), HtmlNode::Text(y)) => x@ == y@,
        (HtmlNode::Comment(x), HtmlNode::Comment(y)) => x@ == y@,
        (HtmlNode::Doctype(x), HtmlNode::Doctype(y)) => x@ == y@,
        (HtmlNode::Raw(x), HtmlNode::Raw(y)) => x@ == y@,
        _ => false,
    }
}

/// Structural equality of node sequences.
pub open spec fn eq_nodes_rel(a: Seq<HtmlNode>, b: Seq<HtmlNode>) -> bool
    decreases a,
{
    if a.len() == 0 {
        b.len() == 0
    } else {
        b.len() == a.len() && eq_nodes_rel(a.drop_last(), b.drop_last()) && eq_node_rel(
            a.last(),
            b.last(),
        )
    }
}

/// Elements whose plain text is never wrapped.
pub open spec fn is_unsupported_wrap(name: Seq<char>) -> bool {
    name == "title"@ || name == "script"@ || name == "style"@
}

/// Whether the text holds any markup opener.
pub open spec fn contains_lt(v: Seq<char>) -> bool {
    exists|i: int| 0 <= i < v.len() && v[i] == '<'
}

/// Whether the string holds a markup opener.
#[verifier::loop_isolation(false)]
pub fn has_lt(s: &str) -> (r: bool)
    ensures
        r == contains_lt(s@),
{
    let v = crate::text::chars_vec(s);
    let n = v.len();
    let mut i: usize = 0;
    while i < n
        invariant
            0 <= i <= n,
            n == v@.len(),
            v@ == s@,
            forall|j: int| 0 <= j < i ==> s@[j] != '<',
        decreases n - i,
    {
        if v[i] == '<' {
            assert(contains_lt(s@)) by {
                assert(s@[i as int] == '<');
            }
            return true;
        }
        i = i + 1;
    }
    false
}

/// What the raw splice for a translated value is: token-rewritten (the
/// value's tokenization, rendered) when the value holds markup, wrapped
/// when the locale wraps words (and the element allows it), the plain
/// value otherwise.
pub open spec fn injected_content_ok(
    v: Seq<char>,
    ctx: RewriteContext,
    prevent_wrap: bool,
    raw: Seq<char>,
) -> bool {
    if contains_lt(v) {
        raw == crate::rewrite::rewritten_fragment(v, ctx)
    } else if ctx.should_wrap && !prevent_wrap {
        raw == wrap_fold(segments_of(v), ctx.wrap_class.deep_view())
    } else {
        raw == v
    }
}

/// The attribute list after the marker's listed attributes are rewritten:
/// each listed attribute whose key the store translates (non-empty) is
/// bound to the translation, the others stay as they stand.
pub open spec fn marker_attrs_set(
    attrs: Seq<(Seq<char>, Seq<char>)>,
    parts: Seq<Seq<char>>,
    key: Seq<char>,
    t: RoseyTranslation,
) -> Seq<(Seq<char>, Seq<char>)>
    decreases parts.len(),
{
    if parts.len() == 0 {
        attrs
    } else {
        let pre = marker_attrs_set(attrs, parts.drop_last(), key, t);
        match t.spec_get(attr_key_of(key, parts.last())) {
            Some(v) => if v.len() > 0 {
                set_key(pre, parts.last(), v)
            } else {
                pre
            },
            None => pre,
        }
    }
}

/// The attribute list after the explicit attribute map is rewritten.
pub open spec fn explicit_attrs_set(
    attrs: Seq<(Seq<char>, Seq<char>)>,
    pairs: Seq<(Seq<char>, Seq<char>)>,
    prefix: Seq<char>,
    t: RoseyTranslation,
) -> Seq<(Seq<char>, Seq<char>)>
    decreases pairs.len(),
{
    if pairs.len() == 0 {
        attrs
    } else {
        let pre = explicit_attrs_set(attrs, pairs.drop_last(), prefix, t);
        match t.spec_get(prefix + pairs.last().1) {
            Some(v) => if v.len() > 0 {
                set_key(pre, pairs.last().0, v)
            } else {
                pre
            },
            None => pre,
        }
    }
}

/// The attribute list an element ends up with after its marker and
/// explicit directives are applied.
pub open spec fn injected_attrs(
    attrs: Seq<(Seq<char>, Seq<char>)>,
    tag: Seq<char>,
    prefix: Seq<char>,
    key: Seq<char>,
    has_marker: bool,
    t: RoseyTranslation,
) -> Seq<(Seq<char>, Seq<char>)> {
    let after_marker = if has_marker {
        match lookup(attrs, tag + "-attrs"@) {
            Some(list) => marker_attrs_set(attrs, split_on(list, ','), key, t),
            None => attrs,
        }
    } else {
        attrs
    };
    match lookup(attrs, tag + "-attrs-explicit"@) {
        Some(json) => match json_str_map_of(json) {
            Some(pairs) => explicit_attrs_set(after_marker, pairs, prefix, t),
            None => after_marker,
        },
        None => after_marker,
    }
}

/// How one node is rewritten for a locale.
pub open spec fn content_rel(
    n: HtmlNode,
    root: Option<Seq<char>>,
    ns: Option<Seq<char>>,
    sep: Seq<char>,
    t: RoseyTranslation,
    ctx: RewriteContext,
    out: HtmlNode,
) -> bool
    decreases n,
{
    match n {
        HtmlNode::Element { name, attrs, children } => {
            let a = attrs.deep_view();
            let tag = ctx.tag@;
            let (root2, ns2) = ctx_after(root, ns, lookup(a, tag + "-root"@), lookup(a, tag + "-ns"@), sep);
            let prefix = prefix_spec(root2, ns2, sep);
            match lookup(a, tag) {
                Some(k) => {
                    let key = resolved_key(prefix, k, ser_node(n));
                    out matches HtmlNode::Element { name: on, attrs: oa, children: oc }
                        && on@ == name@ && oa.deep_view() == injected_attrs(
                        a,
                        tag,
                        prefix,
                        key,
                        true,
                        t,
                    ) && oc@.len() == 1 && (oc@[0] matches HtmlNode::Raw(raw) && (match t
                        .spec_get(key) {
                        Some(v) => if v.len() > 0 {
                            injected_content_ok(v, ctx, is_unsupported_wrap(name@), raw@)
                        } else {
                            raw@ == inner_html_of(name@, children@)
                        },
                        None => raw@ == inner_html_of(name@, children@),
                    }))
                },
                None => {
                    out matches HtmlNode::Element { name: on, attrs: oa, children: oc }
                        && on@ == name@ && oa.deep_view() == injected_attrs(
                        a,
                        tag,
                        prefix,
                        Seq::empty(),
                        false,
                        t,
                    ) && content_nodes_rel(children@, root2, ns2, sep, t, ctx, oc@)
                },
            }
        },
        _ => eq_node_rel(n, out),
    }
}

/// How a node sequence is rewritten for a locale.
pub open spec fn content_nodes_rel(
    s: Seq<HtmlNode>,
    root: Option<Seq<char>>,
    ns: Option<Seq<char>>,
    sep: Seq<char>,
    t: RoseyTranslation,
    ctx: RewriteContext,
    out: Seq<HtmlNode>,
) -> bool
    decreases s,
{
    if s.len() == 0 {
        out.len() == 0
    } else {
        out.len() == s.len() && content_nodes_rel(
            s.drop_last(),
            root,
            ns,
            sep,
            t,
            ctx,
            out.drop_last(),
        ) && content_rel(s.last(), root, ns, sep, t, ctx, out.last())
    }
}

/// Rewrite a node sequence for a locale (see [`content_nodes_rel`]).
#[verifier::loop_isolation(false)]
pub fn inject_content_nodes(
    nodes: &Vec<HtmlNode>,
    sep: &str,
    t: &RoseyTranslation,
    ctx: &RewriteContext,
) -> (out: Vec<HtmlNode>)
    requires
        nodes_wf(nodes@),
        t.wf(),
    ensures
        content_nodes_rel(nodes@, None, None, sep@, *t, *ctx, out@),
        nodes_wf(out@),
{
    let mut out: Vec<HtmlNode> = Vec::new();
    let n = nodes.len();
    let mut i: usize = 0;
    while i < n
        invariant
            0 <= i <= n,
            n == nodes@.len(),
            out@.len() == i,
            content_nodes_rel(nodes@.subrange(0, i as int), None, None, sep@, *t, *ctx, out@),
            nodes_wf(out@),
        decreases n - i,
    {
        proof {
            lemma_nodes_wf_index(nodes@, i as int);
        }
        let c = inject_content_node(&nodes[i], None, None, sep, t, ctx);
        let ghost out0 = out@;
        out.push(c);
        proof {
            assert(nodes@.subrange(0, i + 1 as int).drop_last() =~= nodes@.subrange(0, i as int));
            assert(nodes@.subrange(0, i + 1 as int).last() == nodes@[i as int]);
            assert(out@.drop_last() =~= out0);
        }
        i = i + 1;
    }
    proof {
        assert(nodes@.subrange(0, n as int) =~= nodes@);
    }
    out
}

/// A structural copy of a node sequence.
#[verifier::loop_isolation(false)]
pub fn clone_nodes(nodes: &Vec<HtmlNode>) -> (out: Vec<HtmlNode>)
    requires
        nodes_wf(nodes@),
    ensures
        eq_nodes_rel(nodes@, out@),
        nodes_wf(out@),
{
    let mut out: Vec<HtmlNode> = Vec::new();
    let n = nodes.len();
    let mut i: usize = 0;
    while i < n
        invariant
            0 <= i <= n,
            n == nodes@.len(),
            out@.len() == i,
            eq_nodes_rel(nodes@.subrange(0, i as int), out@),
            nodes_wf(out@),
        decreases n - i,
    {
        proof {
            lemma_nodes_wf_index(nodes@, i as int);
        }
        let c = clone_node(&nodes[i]);
        let ghost out0 = out@;
        out.push(c);
        proof {
            assert(nodes@.subrange(0, i + 1 as int).drop_last() =~= nodes@.subrange(0, i as int));
            assert(nodes@.subrange(0, i + 1 as int).last() == nodes@[i as int]);
            assert(out@.drop_last() =~= out0);
        }
        i = i + 1;
    }
    proof {
        assert(nodes@.subrange(0, n as int) =~= nodes@);
    }
    out
}

/// A structural copy of a node.
#[verifier::loop_isolation(false)]
pub fn clone_node(n: &HtmlNode) -> (r: HtmlNode)
    ensures
        eq_node_rel(*n, r),
        node_wf(*n) ==> node_wf(r),
    decreases *n,
{
    match n {
        HtmlNode::Element { name, attrs, children } => {
            let mut oa: Vec<(String, String)> = Vec::new();
            let an = attrs.len();
            let mut i: usize = 0;
            while i < an
                invariant
                    0 <= i <= an,
                    an == attrs@.len(),
                    oa.deep_view() == attrs.deep_view().subrange(0, i as int),
                decreases an - i,
            {
                proof {
                    crate::html::lemma_dv_attrs(*attrs);
                    crate::html::lemma_dv_attrs(oa);
                }
                oa.push((attrs[i].0.clone(), attrs[i].1.clone()));
                proof {
                    crate::html::lemma_dv_attrs(oa);
                    assert(oa.deep_view() =~= attrs.deep_view().subrange(0, i + 1 as int));
                }
                i = i + 1;
            }
            proof {
                assert(attrs.deep_view().subrange(0, an as int) =~= attrs.deep_view());
            }
            let mut oc: Vec<HtmlNode> = Vec::new();
            let cn = children.len();
            let mut j: usize = 0;
            while j < cn
                invariant
                    0 <= j <= cn,
                    cn == children@.len(),
                    oc@.len() == j,
                    eq_nodes_rel(children@.subrange(0, j as int), oc@),
                    nodes_wf(children@) ==> nodes_wf(oc@),
                    nodes_wf(children@) ==> nodes_wf(children@.subrange(0, j as int)),
                decreases cn - j,
            {
                proof {
                    assert(decreases_to!(*n => children@[j as int]));
                    if nodes_wf(children@) {
                        lemma_nodes_wf_index(children@, j as int);
                    }
                }
                let c = clone_node(&children[j]);
                let ghost oc0 = oc@;
                oc.push(c);
                proof {
                    assert(children@.subrange(0, j + 1 as int).drop_last() =~= children@.subrange(
                        0,
                        j as int,
                    ));
                    assert(children@.subrange(0, j + 1 as int).last() == children@[j as int]);
                    assert(oc@.drop_last() =~= oc0);
                }
                j = j + 1;
            }
            proof {
                assert(children@.subrange(0, cn as int) =~= children@);
            }
            HtmlNode::Element { name: name.clone(), attrs: oa, children: oc }
        },
        HtmlNode::Text(t) => HtmlNode::Text(t.clone()),
        HtmlNode::Comment(t) => HtmlNode::Comment(t.clone()),
        HtmlNode::Doctype(t) => HtmlNode::Doctype(t.clone()),
        HtmlNode::Raw(t) => HtmlNode::Raw(t.clone()),
    }
}

/// Every node of a well-formed sequence is well formed.
pub proof fn lemma_nodes_wf_index(s: Seq<HtmlNode>, i: int)
    requires
        nodes_wf(s),
        0 <= i < s.len(),
    ensures
        node_wf(s[i]),
        nodes_wf(s.subrange(0, i)),
        nodes_wf(s.subrange(0, i + 1)),
    decreases s.len(),
{
    if s.len() > 0 {
        if i == s.len() - 1 {
            assert(s.subrange(0, i) =~= s.drop_last());
            assert(s.subrange(0, i + 1) =~= s);
        } else {
            lemma_nodes_wf_index(s.drop_last(), i);
            assert(s.drop_last().subrange(0, i) =~= s.subrange(0, i));
            assert(s.drop_last().subrange(0, i + 1) =~= s.subrange(0, i + 1));
        }
    }
}

/// Apply the marker's listed attribute rewrites.
#[verifier::loop_isolation(false)]
fn apply_marker_attrs(
    attrs: &mut Vec<(String, String)>,
    list: &str,
    key: &str,
    t: &RoseyTranslation,
)
    requires
        keys_distinct(old(attrs).deep_view()),
        t.wf(),
    ensures
        final(attrs).deep_view() == marker_attrs_set(
            old(attrs).deep_view(),
            split_on(list@, ','),
            key@,
            *t,
        ),
        keys_distinct(final(attrs).deep_view()),
{
    let parts = split_char(list, ',');
    proof {
        lemma_dv_strings(parts);
    }
    let ghost pdv = parts.deep_view();
    let ghost a0 = old(attrs).deep_view();
    let n = parts.len();
    let mut i: usize = 0;
    while i < n
        invariant
            0 <= i <= n,
            n == parts@.len(),
            attrs.deep_view() == marker_attrs_set(a0, pdv.subrange(0, i as int), key@, *t),
            keys_distinct(attrs.deep_view()),
        decreases n - i,
    {
        let ak = crate::resolve::attr_key(key, parts[i].as_str());
        match t.get(ak.as_str()) {
            Some(v) => {
                if v.as_str().unicode_len() > 0 {
                    let v2 = v.clone();
                    v1_set(attrs, parts[i].clone(), v2);
                }
            },
            None => {},
        }
        proof {
            assert(pdv.subrange(0, i + 1 as int).drop_last() =~= pdv.subrange(0, i as int));
            assert(pdv.subrange(0, i + 1 as int).last() == pdv[i as int]);
        }
        i = i + 1;
    }
    proof {
        assert(pdv.subrange(0, n as int) =~= pdv);
    }
}

/// Apply the explicit attribute map rewrites.
#[verifier::loop_isolation(false)]
fn apply_explicit_attrs(
    attrs: &mut Vec<(String, String)>,
    pairs: &Vec<(String, String)>,
    prefix: &str,
    t: &RoseyTranslation,
)
    requires
        keys_distinct(old(attrs).deep_view()),
        t.wf(),
    ensures
        final(attrs).deep_view() == explicit_attrs_set(
            old(attrs).deep_view(),
            pairs.deep_view(),
            prefix@,
            *t,
        ),
        keys_distinct(final(attrs).deep_view()),
{
    proof {
        crate::store::lemma_dv1(*pairs);
    }
    let ghost qdv = pairs.deep_view();
    let ghost a0 = old(attrs).deep_view();
    let n = pairs.len();
    let mut i: usize = 0;
    while i < n
        invariant
            0 <= i <= n,
            n == pairs@.len(),
            attrs.deep_view() == explicit_attrs_set(a0, qdv.subrange(0, i as int), prefix@, *t),
            keys_distinct(attrs.deep_view()),
        decreases n - i,
    {
        let mut k = prefix.to_owned();
        k.append(pairs[i].1.as_str());
        match t.get(k.as_str()) {
            Some(v) => {
                if v.as_str().unicode_len() > 0 {
                    let v2 = v.clone();
                    v1_set(attrs, pairs[i].0.clone(), v2);
                }
            },
            None => {},
        }
        proof {
            assert(qdv.subrange(0, i + 1 as int).drop_last() =~= qdv.subrange(0, i as int));
            assert(qdv.subrange(0, i + 1 as int).last() == qdv[i as int]);
        }
        i = i + 1;
    }
    proof {
        assert(qdv.subrange(0, n as int) =~= qdv);
    }
}

/// Rewrite one node for a locale (see [`content_rel`]).
#[verifier::loop_isolation(false)]
#[verifier::rlimit(100)]
#[verifier::spinoff_prover]
pub fn inject_content_node(
    n: &HtmlNode,
    root: Option<String>,
    namespace: Option<String>,
    sep: &str,
    t: &RoseyTranslation,
    ctx: &RewriteContext,
) -> (out: HtmlNode)
    requires
        node_wf(*n),
        t.wf(),
    ensures
        content_rel(*n, root.deep_view(), namespace.deep_view(), sep@, *t, *ctx, out),
        node_wf(out),
    decreases *n,
{
    match n {
        HtmlNode::Element { name, attrs, children } => {
            let ghost a = attrs.deep_view();
            let mut root_attr = ctx.tag.clone();
            root_attr.append("-root");
            let mut ns_attr = ctx.tag.clone();
            ns_attr.append("-ns");
            let mut attrs_attr = ctx.tag.clone();
            attrs_attr.append("-attrs");
            let mut explicit_attr = ctx.tag.clone();
            explicit_attr.append("-attrs-explicit");

            let new_root = crate::generate::clone_opt_string_ref(get_attr(attrs, root_attr.as_str()));
            let new_ns = crate::generate::clone_opt_string_ref(get_attr(attrs, ns_attr.as_str()));
            let (root2, ns2) = apply_directives(&root, &namespace, &new_root, &new_ns, sep);
            let prefix = prefix_of(&root2, &ns2, sep);
            let ghost root2_v = root2.deep_view();
            let ghost ns2_v = ns2.deep_view();
            let ghost prefix_v = prefix_spec(root2_v, ns2_v, sep@);
            assert(prefix@ == prefix_v);

            let marker = crate::generate::clone_opt_string_ref(get_attr(attrs, ctx.tag.as_str()));
            // the element's rewritten attribute list
            let mut oa: Vec<(String, String)> = Vec::new();
            let an = attrs.len();
            let mut ai: usize = 0;
            while ai < an
                invariant
                    0 <= ai <= an,
                    an == attrs@.len(),
                    oa.deep_view() == attrs.deep_view().subrange(0, ai as int),
                decreases an - ai,
            {
                proof {
                    crate::html::lemma_dv_attrs(*attrs);
                    crate::html::lemma_dv_attrs(oa);
                }
                oa.push((attrs[ai].0.clone(), attrs[ai].1.clone()));
                proof {
                    crate::html::lemma_dv_attrs(oa);
                    assert(oa.deep_view() =~= attrs.deep_view().subrange(0, ai + 1 as int));
                }
                ai = ai + 1;
            }
            proof {
                assert(attrs.deep_view().subrange(0, an as int) =~= attrs.deep_view());
            }

            match marker {
                Some(k) => {
                    let serialized = n.to_html();
                    let key = resolve_key(prefix.as_str(), k.as_str(), serialized.as_str());
                    let ghost key_v = resolved_key(prefix_v, k@, ser_node(*n));
                    assert(key@ == key_v);
                    // listed attributes
                    match get_attr(attrs, attrs_attr.as_str()) {
                        Some(list) => {
                            let list = list.clone();
                            apply_marker_attrs(&mut oa, list.as_str(), key.as_str(), t);
                        },
                        None => {},
                    }
                    // explicit attribute map
                    match get_attr(attrs, explicit_attr.as_str()) {
                        Some(json) => {
                            let json = json.clone();
                            match parse_string_map(json.as_str()) {
                                Some(pairs) => {
                                    apply_explicit_attrs(&mut oa, &pairs, prefix.as_str(), t);
                                },
                                None => {},
                            }
                        },
                        None => {},
                    }
                    proof {
                        assert(oa.deep_view() == injected_attrs(a, ctx.tag@, prefix_v, key_v, true, *t));
                    }
                    // the content splice
                    let original = inner_html(name.as_str(), children);
                    let raw: String = match t.get(key.as_str()) {
                        Some(v) => {
                            if v.as_str().unicode_len() > 0 {
                                let v = v.clone();
                                if has_lt(v.as_str()) {
                                    rewrite_fragment(v.as_str(), ctx)
                                } else if ctx.should_wrap && !is_unsupported_wrap_name(
                                    name.as_str(),
                                ) {
                                    wrap_text(v.as_str(), &ctx.wrap_class)
                                } else {
                                    v
                                }
                            } else {
                                original
                            }
                        },
                        None => original,
                    };
                    let mut oc: Vec<HtmlNode> = Vec::new();
                    oc.push(HtmlNode::Raw(raw));
                    proof {
                        assert(oc@.drop_last() =~= Seq::<HtmlNode>::empty());
                        assert(nodes_wf(Seq::<HtmlNode>::empty()));
                        assert(node_wf(oc@.last()));
                        assert(nodes_wf(oc@));
                    }
                    HtmlNode::Element { name: name.clone(), attrs: oa, children: oc }
                },
                None => {
                    // explicit attribute map still applies
                    match get_attr(attrs, explicit_attr.as_str()) {
                        Some(json) => {
                            let json = json.clone();
                            match parse_string_map(json.as_str()) {
                                Some(pairs) => {
                                    apply_explicit_attrs(&mut oa, &pairs, prefix.as_str(), t);
                                },
                                None => {},
                            }
                        },
                        None => {},
                    }
                    proof {
                        assert(oa.deep_view() == injected_attrs(
                            a,
                            ctx.tag@,
                            prefix_v,
                            Seq::empty(),
                            false,
                            *t,
                        ));
                    }
                    let mut oc: Vec<HtmlNode> = Vec::new();
                    let cn = children.len();
                    let mut j: usize = 0;
                    while j < cn
                        invariant
                            0 <= j <= cn,
                            cn == children@.len(),
                            oc@.len() == j,
                            content_nodes_rel(
                                children@.subrange(0, j as int),
                                root2_v,
                                ns2_v,
                                sep@,
                                *t,
                                *ctx,
                                oc@,
                            ),
                            nodes_wf(oc@),
                            root2.deep_view() == root2_v,
                            ns2.deep_view() == ns2_v,
                        decreases cn - j,
                    {
                        proof {
                            assert(decreases_to!(*n => children@[j as int]));
                            lemma_nodes_wf_index(children@, j as int);
                        }
                        let r2 = clone_opt_string(&root2);
                        let n2 = clone_opt_string(&ns2);
                        let c = inject_content_node(&children[j], r2, n2, sep, t, ctx);
                        let ghost oc0 = oc@;
                        oc.push(c);
                        proof {
                            assert(children@.subrange(0, j + 1 as int).drop_last()
                                =~= children@.subrange(0, j as int));
                            assert(children@.subrange(0, j + 1 as int).last()
                                == children@[j as int]);
                            assert(oc@.drop_last() =~= oc0);
                        }
                        j = j + 1;
                    }
                    proof {
                        assert(children@.subrange(0, cn as int) =~= children@);
                    }
                    HtmlNode::Element { name: name.clone(), attrs: oa, children: oc }
                },
            }
        },
        _ => clone_node(n),
    }
}

/// Whether the element's plain text is never wrapped.
fn is_unsupported_wrap_name(name: &str) -> (r: bool)
    ensures
        r == is_unsupported_wrap(name@),
{
    crate::text::str_eq(name, "title") || crate::text::str_eq(name, "script")
        || crate::text::str_eq(name, "style")
}

/// A copy of a string vector, equal in view to the original.
pub fn clone_string_vec(v: &Vec<String>) -> (r: Vec<String>)
    ensures
        r@ == v@,
{
    let mut out: Vec<String> = Vec::new();
    let n = v.len();
    let mut i: usize = 0;
    while i < n
        invariant
            0 <= i <= n,
            n == v@.len(),
            out@ == v@.subrange(0, i as int),
        decreases n - i,
    {
        out.push(v[i].clone());
        proof {
            assert(v@.subrange(0, i + 1 as int) =~= v@.subrange(0, i as int).push(v@[i as int]));
        }
        i = i + 1;
    }
    proof {
        assert(v@.subrange(0, n as int) =~= v@);
        assert(out@ == v@);
    }
    out
}

} // verus!
