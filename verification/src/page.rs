//! Per-document orchestration of injection: the page wrapper that runs
//! the passes for each locale, the head metadata block (language meta and
//! alternate links), and the redirect-page ingredients (alternate link
//! markup and the locale lookup table). Reading documents and writing the
//! output tree is the caller's business; everything here is pure
//! computation.

use crate::assets::output_url_of;
use crate::html::HtmlNode;
use crate::html::ser_nodes;
use crate::inject::eq_node_rel;
use crate::inject::eq_nodes_rel;
use crate::inject::clone_node;
use crate::inject::content_nodes_rel;
use crate::inject::lemma_nodes_wf_index;
use crate::inject::node_wf;
use crate::inject::nodes_wf;
use crate::kv::keys_distinct;
use crate::kv::set_key;
use crate::refs::static_nodes_rel;
use crate::rewrite::RewriteContext;
use crate::store::RoseyTranslation;
use crate::store::clone_opt_string;
use crate::store::v1_set;
use crate::text::has_prefix;
use vstd::prelude::*;
use vstd::string::StringExecFns;

verus! {

/// The meta node the head block carries: `http-equiv="content-language"`
/// with the locale as its content.
pub open spec fn meta_node_ok(locale: Seq<char>, out: HtmlNode) -> bool {
    out matches HtmlNode::Element { name, attrs, children } && name@ == "meta"@
        && attrs.deep_view() == seq![
        ("http-equiv"@, "content-language"@),
        ("content"@, locale),
    ] && children@.len() == 0
}

/// One alternate link node: `rel="alternate"` with the given language and
/// target.
pub open spec fn link_node_ok(pair: (Seq<char>, Seq<char>), out: HtmlNode) -> bool {
    out matches HtmlNode::Element { name, attrs, children } && name@ == "link"@
        && attrs.deep_view() == seq![
        ("rel"@, "alternate"@),
        ("hreflang"@, pair.0),
        ("href"@, pair.1),
    ] && children@.len() == 0
}

/// A head's children after the metadata block is put in front: the meta
/// node, one link per alternate, then the children as they stood.
pub open spec fn head_aug_rel(
    children: Seq<HtmlNode>,
    locale: Seq<char>,
    alternates: Seq<(Seq<char>, Seq<char>)>,
    out: Seq<HtmlNode>,
) -> bool {
    &&& out.len() == 1 + alternates.len() + children.len()
    &&& meta_node_ok(locale, out[0])
    &&& forall|i: int| 0 <= i < alternates.len() ==> link_node_ok(alternates[i], #[trigger] out[1 + i])
    &&& eq_nodes_rel(children, out.skip(1 + alternates.len() as int))
}

/// The first element named `name` in a sequence.
pub open spec fn first_named_idx(s: Seq<HtmlNode>, name: Seq<char>) -> Option<int>
    decreases s.len(),
{
    if s.len() == 0 {
        None
    } else if s[0] matches HtmlNode::Element { name: n, .. } && n@ == name {
        Some(0int)
    } else {
        match first_named_idx(s.drop_first(), name) {
            Some(i) => Some(i + 1),
            None => None,
        }
    }
}

/// An html element after its head metadata is rewritten: its `lang`
/// attribute carries the locale, and its first `head` child gets the
/// metadata block; everything else stands as it was.
pub open spec fn html_aug_rel(
    n: HtmlNode,
    locale: Seq<char>,
    alternates: Seq<(Seq<char>, Seq<char>)>,
    out: HtmlNode,
) -> bool {
    n matches HtmlNode::Element { name, attrs, children } && (out matches HtmlNode::Element {
        name: on,
        attrs: oa,
        children: oc,
    } && on@ == name@ && oa.deep_view() == set_key(attrs.deep_view(), "lang"@, locale)
        && (match first_named_idx(children@, "head"@) {
        None => eq_nodes_rel(children@, oc@),
        Some(h) => {
            &&& oc@.len() == children@.len()
            &&& (forall|j: int|
                0 <= j < children@.len() && j != h ==> eq_node_rel(
                    children@[j],
                    #[trigger] oc@[j],
                ))
            &&& (children@[h] matches HtmlNode::Element { name: hn, attrs: ha, children: hc }
                && (oc@[h] matches HtmlNode::Element { name: ohn, attrs: oha, children: ohc }
                && ohn@ == hn@ && oha.deep_view() == ha.deep_view() && head_aug_rel(
                    hc@,
                    locale,
                    alternates,
                    ohc@,
                )))
        },
    }))
}

/// A document after its head metadata is rewritten: the first `html`
/// element is rewritten as [`html_aug_rel`], everything else stands.
pub open spec fn meta_rel(
    roots: Seq<HtmlNode>,
    locale: Seq<char>,
    alternates: Seq<(Seq<char>, Seq<char>)>,
    out: Seq<HtmlNode>,
) -> bool {
    match first_named_idx(roots, "html"@) {
        None => eq_nodes_rel(roots, out),
        Some(i) => {
            &&& out.len() == roots.len()
            &&& (forall|j: int|
                0 <= j < roots.len() && j != i ==> eq_node_rel(roots[j], #[trigger] out[j]))
            &&& html_aug_rel(roots[i], locale, alternates, out[i])
        },
    }
}

/// What the first-named index points at: an element of that name.
pub proof fn lemma_first_named(s: Seq<HtmlNode>, name: Seq<char>)
    ensures
        first_named_idx(s, name) matches Some(i) ==> 0 <= i < s.len() && (s[i]
            matches HtmlNode::Element { name: n2, .. } && n2@ == name),
    decreases s.len(),
{
    if s.len() > 0 {
        lemma_first_named(s.drop_first(), name);
        match first_named_idx(s, name) {
            Some(i) => {
                if i > 0 {
                    assert(s.drop_first()[i - 1] == s[i]);
                }
            },
            None => {},
        }
    }
}

/// The first element named `name`, as an index.
#[verifier::loop_isolation(false)]
fn find_named(s: &Vec<HtmlNode>, name: &str) -> (r: Option<usize>)
    ensures
        match r {
            Some(i) => i < s@.len() && first_named_idx(s@, name@) == Some(i as int),
            None => first_named_idx(s@, name@) is None,
        },
{
    let n = s.len();
    let mut i: usize = 0;
    proof {
        assert(s@.skip(0) =~= s@);
    }
    while i < n
        invariant
            0 <= i <= n,
            n == s@.len(),
            first_named_idx(s@, name@) == match first_named_idx(s@.skip(i as int), name@) {
                Some(j) => Some(j + i),
                None => None::<int>,
            },
        decreases n - i,
    {
        proof {
            assert(s@.skip(i as int)[0] == s@[i as int]);
            assert(s@.skip(i as int).drop_first() =~= s@.skip(i + 1 as int));
        }
        let hit = match &s[i] {
            HtmlNode::Element { name: en, .. } => crate::text::str_eq(en.as_str(), name),
            _ => false,
        };
        if hit {
            return Some(i);
        }
        i = i + 1;
    }
    proof {
        assert(s@.skip(n as int) =~= Seq::<HtmlNode>::empty());
    }
    None
}

/// Build the metadata block's meta node.
fn make_meta_node(locale: &str) -> (r: HtmlNode)
    ensures
        meta_node_ok(locale@, r),
{
    let mut attrs: Vec<(String, String)> = Vec::new();
    attrs.push(("http-equiv".to_owned(), "content-language".to_owned()));
    attrs.push(("content".to_owned(), locale.to_owned()));
    proof {
        crate::html::lemma_dv_attrs(attrs);
        assert(attrs.deep_view() =~= seq![
            ("http-equiv"@, "content-language"@),
            ("content"@, locale@),
        ]);
    }
    HtmlNode::Element { name: "meta".to_owned(), attrs, children: Vec::new() }
}

/// Build one alternate link node.
fn make_link_node(hreflang: &str, href: &str) -> (r: HtmlNode)
    ensures
        link_node_ok((hreflang@, href@), r),
{
    let mut attrs: Vec<(String, String)> = Vec::new();
    attrs.push(("rel".to_owned(), "alternate".to_owned()));
    attrs.push(("hreflang".to_owned(), hreflang.to_owned()));
    attrs.push(("href".to_owned(), href.to_owned()));
    proof {
        crate::html::lemma_dv_attrs(attrs);
        assert(attrs.deep_view() =~= seq![
            ("rel"@, "alternate"@),
            ("hreflang"@, hreflang@),
            ("href"@, href@),
        ]);
    }
    HtmlNode::Element { name: "link".to_owned(), attrs, children: Vec::new() }
}

/// Bridges an alternate vector's deep view to plain indexing.
pub proof fn lemma_dv_alts(alts: Vec<(String, String)>)
    ensures
        alts.deep_view().len() == alts@.len(),
        forall|j: int|
            0 <= j < alts@.len() ==> #[trigger] alts.deep_view()[j] == (alts@[j].0@, alts@[j].1@),
{
}

/// Rewrite a document's head metadata for one locale: the first `html`
/// element's `lang`, a fresh `content-language` meta and one alternate
/// link per other locale at the front of its head (see [`meta_rel`]).
///
/// The block is placed only into an existing `head` of an existing
/// `html` element — deliberately, and stated by the contract: a document
/// without them keeps its shape. Documents parsed from real pages always
/// carry both, because an HTML5 parse supplies them.
#[verifier::loop_isolation(false)]
#[verifier::rlimit(100)]
#[verifier::spinoff_prover]
pub fn rewrite_meta_tags(
    roots: &Vec<HtmlNode>,
    locale: &str,
    alternates: &Vec<(String, String)>,
) -> (out: Vec<HtmlNode>)
    requires
        nodes_wf(roots@),
    ensures
        meta_rel(roots@, locale@, alternates.deep_view(), out@),
{
    proof {
        lemma_dv_alts(*alternates);
    }
    let mut out: Vec<HtmlNode> = Vec::new();
    match find_named(roots, "html") {
        None => {
            let n = roots.len();
            let mut i: usize = 0;
            while i < n
                invariant
                    0 <= i <= n,
                    n == roots@.len(),
                    out@.len() == i,
                    eq_nodes_rel(roots@.subrange(0, i as int), out@),
                decreases n - i,
            {
                proof {
                    lemma_nodes_wf_index(roots@, i as int);
                }
                let c = clone_node(&roots[i]);
                let ghost out0 = out@;
                out.push(c);
                proof {
                    assert(roots@.subrange(0, i + 1 as int).drop_last() =~= roots@.subrange(
                        0,
                        i as int,
                    ));
                    assert(roots@.subrange(0, i + 1 as int).last() == roots@[i as int]);
                    assert(out@.drop_last() =~= out0);
                }
                i = i + 1;
            }
            proof {
                assert(roots@.subrange(0, n as int) =~= roots@);
            }
            out
        },
        Some(hi) => {
            proof {
                lemma_first_named(roots@, "html"@);
            }
            let n = roots.len();
            let mut i: usize = 0;
            while i < n
                invariant
                    0 <= i <= n,
                    n == roots@.len(),
                    hi < n,
                    out@.len() == i,
                    forall|j: int|
                        0 <= j < i && j != hi ==> eq_node_rel(roots@[j], #[trigger] out@[j]),
                    i > hi ==> html_aug_rel(
                        roots@[hi as int],
                        locale@,
                        alternates.deep_view(),
                        out@[hi as int],
                    ),
                decreases n - i,
            {
                proof {
                    lemma_nodes_wf_index(roots@, i as int);
                }
                let piece: HtmlNode = if i == hi {
                    augment_html(&roots[i], locale, alternates)
                } else {
                    clone_node(&roots[i])
                };
                out.push(piece);
                i = i + 1;
            }
            out
        },
    }
}

/// Rewrite one `html` element's metadata (see [`html_aug_rel`]). An
/// `html` element with no `head` child gets its `lang` set but no link
/// block (see [`rewrite_meta_tags`]).
#[verifier::loop_isolation(false)]
#[verifier::rlimit(100)]
#[verifier::spinoff_prover]
fn augment_html(n: &HtmlNode, locale: &str, alternates: &Vec<(String, String)>) -> (out: HtmlNode)
    requires
        node_wf(*n),
        n matches HtmlNode::Element { name, .. } && name@ == "html"@,
    ensures
        html_aug_rel(*n, locale@, alternates.deep_view(), out),
{
    proof {
        lemma_dv_alts(*alternates);
    }
    match n {
        HtmlNode::Element { name, attrs, children } => {
            // the lang attribute
            let mut oa: Vec<(String, String)> = Vec::new();
            let an = attrs.len();
            let mut ai: usize = 0;
            while ai < an
                invariant
                    0 <= ai <= an,
                    an == attrs@.len(),
                    oa.deep_view() == attrs.deep_view().subrange(0, ai as int),
                decreases an - ai,
            {
                proof {
                    crate::html::lemma_dv_attrs(*attrs);
                    crate::html::lemma_dv_attrs(oa);
                }
                oa.push((attrs[ai].0.clone(), attrs[ai].1.clone()));
                proof {
                    crate::html::lemma_dv_attrs(oa);
                    assert(oa.deep_view() =~= attrs.deep_view().subrange(0, ai + 1 as int));
                }
                ai = ai + 1;
            }
            proof {
                assert(attrs.deep_view().subrange(0, an as int) =~= attrs.deep_view());
            }
            v1_set(&mut oa, "lang".to_owned(), locale.to_owned());

            let mut oc: Vec<HtmlNode> = Vec::new();
            match find_named(children, "head") {
                None => {
                    let cn = children.len();
                    let mut j: usize = 0;
                    while j < cn
                        invariant
                            0 <= j <= cn,
                            cn == children@.len(),
                            oc@.len() == j,
                            eq_nodes_rel(children@.subrange(0, j as int), oc@),
                        decreases cn - j,
                    {
                        proof {
                            lemma_nodes_wf_index(children@, j as int);
                        }
                        let c = clone_node(&children[j]);
                        let ghost oc0 = oc@;
                        oc.push(c);
                        proof {
                            assert(children@.subrange(0, j + 1 as int).drop_last()
                                =~= children@.subrange(0, j as int));
                            assert(children@.subrange(0, j + 1 as int).last()
                                == children@[j as int]);
                            assert(oc@.drop_last() =~= oc0);
                        }
                        j = j + 1;
                    }
                    proof {
                        assert(children@.subrange(0, cn as int) =~= children@);
                    }
                },
                Some(hd) => {
                    proof {
                        lemma_first_named(children@, "head"@);
                    }
                    let cn = children.len();
                    let mut j: usize = 0;
                    while j < cn
                        invariant
                            0 <= j <= cn,
                            cn == children@.len(),
                            hd < cn,
                            oc@.len() == j,
                            forall|k: int|
                                0 <= k < j && k != hd ==> eq_node_rel(
                                    children@[k],
                                    #[trigger] oc@[k],
                                ),
                            j > hd ==> (children@[hd as int] matches HtmlNode::Element {
                                name: hn,
                                attrs: ha,
                                children: hc,
                            } && (oc@[hd as int] matches HtmlNode::Element {
                                name: ohn,
                                attrs: oha,
                                children: ohc,
                            } && ohn@ == hn@ && oha.deep_view() == ha.deep_view() && head_aug_rel(
                                hc@,
                                locale@,
                                alternates.deep_view(),
                                ohc@,
                            ))),
                        decreases cn - j,
                    {
                        proof {
                            lemma_nodes_wf_index(children@, j as int);
                        }
                        let piece: HtmlNode = if j == hd {
                            augment_head(&children[j], locale, alternates)
                        } else {
                            clone_node(&children[j])
                        };
                        oc.push(piece);
                        j = j + 1;
                    }
                },
            }
            HtmlNode::Element { name: name.clone(), attrs: oa, children: oc }
        },
        _ => clone_node(n),
    }
}

/// Put the metadata block in front of a `head` element's children.
#[verifier::loop_isolation(false)]
#[verifier::rlimit(100)]
#[verifier::spinoff_prover]
fn augment_head(n: &HtmlNode, locale: &str, alternates: &Vec<(String, String)>) -> (out: HtmlNode)
    requires
        node_wf(*n),
        n matches HtmlNode::Element { .. },
    ensures
        n matches HtmlNode::Element { name: hn, attrs: ha, children: hc } ==> (out
            matches HtmlNode::Element { name: ohn, attrs: oha, children: ohc } && ohn@ == hn@
            && oha.deep_view() == ha.deep_view() && head_aug_rel(
            hc@,
            locale@,
            alternates.deep_view(),
            ohc@,
        )),
{
    proof {
        lemma_dv_alts(*alternates);
    }
    match n {
        HtmlNode::Element { name, attrs, children } => {
            let mut oa: Vec<(String, String)> = Vec::new();
            let an = attrs.len();
            let mut ai: usize = 0;
            while ai < an
                invariant
                    0 <= ai <= an,
                    an == attrs@.len(),
                    oa.deep_view() == attrs.deep_view().subrange(0, ai as int),
                decreases an - ai,
            {
                proof {
                    crate::html::lemma_dv_attrs(*attrs);
                    crate::html::lemma_dv_attrs(oa);
                }
                oa.push((attrs[ai].0.clone(), attrs[ai].1.clone()));
                proof {
                    crate::html::lemma_dv_attrs(oa);
                    assert(oa.deep_view() =~= attrs.deep_view().subrange(0, ai + 1 as int));
                }
                ai = ai + 1;
            }
            proof {
                assert(attrs.deep_view().subrange(0, an as int) =~= attrs.deep_view());
            }
            let mut oc: Vec<HtmlNode> = Vec::new();
            oc.push(make_meta_node(locale));
            let m = alternates.len();
            let mut i: usize = 0;
            while i < m
                invariant
                    0 <= i <= m,
                    m == alternates@.len(),
                    oc@.len() == 1 + i,
                    meta_node_ok(locale@, oc@[0]),
                    forall|k: int|
                        0 <= k < i ==> link_node_ok(
                            alternates.deep_view()[k],
                            #[trigger] oc@[1 + k],
                        ),
                decreases m - i,
            {
                let l = make_link_node(alternates[i].0.as_str(), alternates[i].1.as_str());
                oc.push(l);
                i = i + 1;
            }
            let cn = children.len();
            let mut j: usize = 0;
            while j < cn
                invariant
                    0 <= j <= cn,
                    cn == children@.len(),
                    m == alternates@.len(),
                    oc@.len() == 1 + m + j,
                    meta_node_ok(locale@, oc@[0]),
                    forall|k: int|
                        0 <= k < m ==> link_node_ok(
                            alternates.deep_view()[k],
                            #[trigger] oc@[1 + k],
                        ),
                    eq_nodes_rel(children@.subrange(0, j as int), oc@.skip(1 + m as int)),
                decreases cn - j,
            {
                proof {
                    lemma_nodes_wf_index(children@, j as int);
                }
                let c = clone_node(&children[j]);
                let ghost oc0 = oc@;
                oc.push(c);
                proof {
                    assert(children@.subrange(0, j + 1 as int).drop_last() =~= children@.subrange(
                        0,
                        j as int,
                    ));
                    assert(children@.subrange(0, j + 1 as int).last() == children@[j as int]);
                    assert(oc@.skip(1 + m as int).drop_last() =~= oc0.skip(1 + m as int));
                    assert(oc@.skip(1 + m as int).last() == oc@.last());
                }
                j = j + 1;
            }
            proof {
                assert(children@.subrange(0, cn as int) =~= children@);
            }
            HtmlNode::Element { name: name.clone(), attrs: oa, children: oc }
        },
        _ => clone_node(n),
    }
}

/// One produced file: which locale's tree it belongs to, its
/// destination-relative path, and its full text.
pub struct RoseyOutput {
    pub locale: String,
    pub path: String,
    pub content: String,
}

/// The first locale key that owns the document's path: a document already
/// sitting under a locale directory is a manual override for that locale
/// alone.
pub open spec fn first_overwrite(keys: Seq<Seq<char>>, p: Seq<char>) -> Option<int>
    decreases keys.len(),
{
    if keys.len() == 0 {
        None
    } else if has_prefix(p, keys[0] + "/"@) {
        Some(0int)
    } else {
        match first_overwrite(keys.drop_first(), p) {
            Some(i) => Some(i + 1),
            None => None,
        }
    }
}

/// The builder: the per-locale translation stores and URL stores, read
/// once before any document is processed, plus the run's options.
pub struct RoseyBuilder {
    pub options: crate::config::RoseyOptions,
    pub translations: Vec<(String, RoseyTranslation)>,
    pub url_translations: Vec<(String, RoseyTranslation)>,
}

impl RoseyBuilder {
    /// Every store is well formed.
    pub open spec fn wf(self) -> bool {
        &&& forall|i: int|
            0 <= i < self.translations@.len() ==> (#[trigger] self.translations@[i]).1.wf()
        &&& forall|i: int|
            0 <= i < self.url_translations@.len() ==> (#[trigger] self.url_translations@[i]).1.wf()
    }

    /// The locale that owns this document's path, if any (see
    /// [`first_overwrite`]).
    #[verifier::loop_isolation(false)]
    pub fn find_locale_overwrite<'a>(&'a self, relative_path: &str) -> (r: Option<&'a String>)
        ensures
            ({
                let keys = Seq::new(
                    self.translations@.len(),
                    |i: int| self.translations@[i].0@,
                );
                match r {
                    Some(k) => first_overwrite(keys, relative_path@) matches Some(i) && keys[i]
                        == k@,
                    None => first_overwrite(keys, relative_path@) is None,
                }
            }),
    {
        let ghost keys = Seq::new(self.translations@.len(), |i: int| self.translations@[i].0@);
        let n = self.translations.len();
        let mut i: usize = 0;
        proof {
            assert(keys.skip(0) =~= keys);
        }
        while i < n
            invariant
                0 <= i <= n,
                n == self.translations@.len(),
                keys == Seq::new(self.translations@.len(), |j: int| self.translations@[j].0@),
                first_overwrite(keys, relative_path@) == match first_overwrite(
                    keys.skip(i as int),
                    relative_path@,
                ) {
                    Some(j) => Some(j + i),
                    None => None::<int>,
                },
            decreases n - i,
        {
            proof {
                assert(keys.skip(i as int)[0] == keys[i as int]);
                assert(keys.skip(i as int).drop_first() =~= keys.skip(i + 1 as int));
            }
            let mut probe = self.translations[i].0.clone();
            probe.append("/");
            if crate::text::starts_with_str(relative_path, probe.as_str()) {
                return Some(&self.translations[i].0);
            }
            i = i + 1;
        }
        proof {
            assert(keys.skip(n as int) =~= Seq::<Seq<char>>::empty());
        }
        None
    }

    /// Rewrite one schema-paired JSON document for every locale: per
    /// locale, every translated `rosey:<name>` string is replaced and
    /// everything else kept (see [`crate::json::inject_rel`]). The
    /// default language keeps the source as it stands, so no entry is
    /// produced for it.
    #[verifier::loop_isolation(false)]
    pub fn process_json_file(
        &self,
        source: &crate::json::JsonValue,
        schema: &crate::json::JsonValue,
    ) -> (outs: Vec<(String, crate::json::JsonValue)>)
        requires
            self.wf(),
        ensures
            outs@.len() == self.translations@.len(),
            forall|i: int|
                0 <= i < outs@.len() ==> (#[trigger] outs@[i]).0@ == self.translations@[i].0@
                    && crate::json::inject_rel(
                    *source,
                    *schema,
                    None,
                    self.translations@[i].1,
                    outs@[i].1,
                ),
    {
        let mut outs: Vec<(String, crate::json::JsonValue)> = Vec::new();
        let n = self.translations.len();
        let mut i: usize = 0;
        while i < n
            invariant
                0 <= i <= n,
                n == self.translations@.len(),
                outs@.len() == i,
                forall|j: int|
                    0 <= j < i ==> (#[trigger] outs@[j]).0@ == self.translations@[j].0@
                        && crate::json::inject_rel(
                        *source,
                        *schema,
                        None,
                        self.translations@[j].1,
                        outs@[j].1,
                    ),
            decreases n - i,
        {
            let rewritten = crate::json::inject_json_value(
                source,
                schema,
                None,
                &self.translations[i].1,
            );
            outs.push((self.translations[i].0.clone(), rewritten));
            i = i + 1;
        }
        outs
    }
}

/// First-match lookup of a locale's store in a keyed store list.
pub open spec fn tlookup(s: Seq<(String, RoseyTranslation)>, k: Seq<char>) -> Option<
    RoseyTranslation,
>
    decreases s.len(),
{
    if s.len() == 0 {
        None
    } else if s[0].0@ == k {
        Some(s[0].1)
    } else {
        tlookup(s.drop_first(), k)
    }
}

/// The store kept for a locale, if one was read.
#[verifier::loop_isolation(false)]
pub fn store_find<'a>(stores: &'a Vec<(String, RoseyTranslation)>, key: &str) -> (r: Option<
    &'a RoseyTranslation,
>)
    ensures
        match r {
            Some(t) => tlookup(stores@, key@) == Some(*t),
            None => tlookup(stores@, key@) is None,
        },
{
    let n = stores.len();
    let mut i: usize = 0;
    proof {
        assert(stores@.skip(0) =~= stores@);
    }
    while i < n
        invariant
            0 <= i <= n,
            n == stores@.len(),
            tlookup(stores@, key@) == tlookup(stores@.skip(i as int), key@),
        decreases n - i,
    {
        proof {
            assert(stores@.skip(i as int)[0] == stores@[i as int]);
            assert(stores@.skip(i as int).drop_first() =~= stores@.skip(i + 1 as int));
        }
        if crate::text::str_eq(stores[i].0.as_str(), key) {
            return Some(&stores[i].1);
        }
        i = i + 1;
    }
    proof {
        assert(stores@.skip(n as int) =~= Seq::<(String, RoseyTranslation)>::empty());
    }
    None
}

impl RoseyBuilder {
    /// The output URL another locale's copy of this document sits at:
    /// that locale's URL-store translation of the path when one exists,
    /// else the path, both read as output URLs.
    pub open spec fn alt_translated(self, rel: Seq<char>, key: Seq<char>) -> Seq<char> {
        match tlookup(self.url_translations@, key) {
            Some(t) => match t.spec_get(rel) {
                Some(m) => output_url_of(m),
                None => output_url_of(rel),
            },
            None => output_url_of(rel),
        }
    }

    /// The alternate `(locale, output URL)` pairs of a document: every
    /// known locale but `current`, the default language last.
    pub open spec fn alt_pairs(self, rel: Seq<char>, current: Seq<char>) -> Seq<
        (Seq<char>, Seq<char>),
    > {
        alt_pairs_go(self.translations@, self, rel, current) + (if self.options.config
            .default_language@ != current {
            seq![
                (
                    self.options.config.default_language@,
                    self.alt_translated(rel, self.options.config.default_language@),
                ),
            ]
        } else {
            Seq::empty()
        })
    }

    /// Compute the alternate pairs of a document (see [`alt_pairs`]).
    #[verifier::loop_isolation(false)]
    pub fn build_alt_pairs(&self, relative_path: &str, current: &str) -> (r: Vec<(String, String)>)
        requires
            self.wf(),
        ensures
            r.deep_view() == self.alt_pairs(relative_path@, current@),
    {
        let ghost whole = alt_pairs_go(self.translations@, *self, relative_path@, current@);
        let mut out: Vec<(String, String)> = Vec::new();
        let n = self.translations.len();
        let mut i: usize = 0;
        while i < n
            invariant
                0 <= i <= n,
                n == self.translations@.len(),
                out.deep_view() == alt_pairs_go(
                    self.translations@.subrange(0, i as int),
                    *self,
                    relative_path@,
                    current@,
                ),
            decreases n - i,
        {
            proof {
                lemma_dv_alts(out);
            }
            let key = &self.translations[i].0;
            if !crate::text::str_eq(key.as_str(), current) {
                let tp = self.compute_alt_translated(relative_path, key.as_str());
                out.push((key.clone(), tp));
            }
            proof {
                lemma_dv_alts(out);
                assert(self.translations@.subrange(0, i + 1 as int).drop_last()
                    =~= self.translations@.subrange(0, i as int));
                assert(self.translations@.subrange(0, i + 1 as int).last()
                    == self.translations@[i as int]);
                assert(out.deep_view() =~= alt_pairs_go(
                    self.translations@.subrange(0, i + 1 as int),
                    *self,
                    relative_path@,
                    current@,
                ));
            }
            i = i + 1;
        }
        proof {
            assert(self.translations@.subrange(0, n as int) =~= self.translations@);
        }
        if !crate::text::str_eq(self.options.config.default_language.as_str(), current) {
            let tp = self.compute_alt_translated(
                relative_path,
                self.options.config.default_language.as_str(),
            );
            out.push((self.options.config.default_language.clone(), tp));
        }
        proof {
            lemma_dv_alts(out);
            assert(out.deep_view() =~= self.alt_pairs(relative_path@, current@));
        }
        out
    }

    /// Compute another locale's output URL for this document (see
    /// [`alt_translated`]).
    pub fn compute_alt_translated(&self, relative_path: &str, key: &str) -> (r: String)
        requires
            self.wf(),
        ensures
            r@ == self.alt_translated(relative_path@, key@),
    {
        proof {
            lemma_tlookup_wf(self.url_translations@, key@);
        }
        match store_find(&self.url_translations, key) {
            Some(t) => match t.get(relative_path) {
                Some(m) => crate::assets::filepath_to_output_url(m.as_str()),
                None => crate::assets::filepath_to_output_url(relative_path),
            },
            None => crate::assets::filepath_to_output_url(relative_path),
        }
    }
}

/// The alternate pairs contributed by the locale stores, in order.
pub open spec fn alt_pairs_go(
    s: Seq<(String, RoseyTranslation)>,
    b: RoseyBuilder,
    rel: Seq<char>,
    current: Seq<char>,
) -> Seq<(Seq<char>, Seq<char>)>
    decreases s.len(),
{
    if s.len() == 0 {
        Seq::empty()
    } else {
        alt_pairs_go(s.drop_last(), b, rel, current) + (if s.last().0@ != current {
            seq![(s.last().0@, b.alt_translated(rel, s.last().0@))]
        } else {
            Seq::empty()
        })
    }
}

/// The alternate-link markup of a redirect page: one
/// `<link rel="alternate" href="/<key>/<path>" hreflang="<key>">` per
/// key, in order.
pub open spec fn alternates_markup(pairs: Seq<(Seq<char>, Seq<char>)>) -> Seq<char>
    decreases pairs.len(),
{
    if pairs.len() == 0 {
        Seq::empty()
    } else {
        alternates_markup(pairs.drop_last()) + "<link rel=\"alternate\" href=\"/"@
            + pairs.last().0 + "/"@ + pairs.last().1 + "\" hreflang=\""@ + pairs.last().0
            + "\">"@
    }
}

/// Render the alternate links of a redirect page from `(key, path)`
/// pairs.
#[verifier::loop_isolation(false)]
pub fn build_alternates(pairs: &Vec<(String, String)>) -> (r: String)
    ensures
        r@ == alternates_markup(pairs.deep_view()),
{
    proof {
        lemma_dv_alts(*pairs);
    }
    let ghost pdv = pairs.deep_view();
    let mut out = String::new();
    let n = pairs.len();
    let mut i: usize = 0;
    while i < n
        invariant
            0 <= i <= n,
            n == pairs@.len(),
            out@ == alternates_markup(pdv.subrange(0, i as int)),
        decreases n - i,
    {
        out.append("<link rel=\"alternate\" href=\"/");
        out.append(pairs[i].0.as_str());
        out.append("/");
        out.append(pairs[i].1.as_str());
        out.append("\" hreflang=\"");
        out.append(pairs[i].0.as_str());
        out.append("\">");
        proof {
            assert(pdv.subrange(0, i + 1 as int).drop_last() =~= pdv.subrange(0, i as int));
            assert(pdv.subrange(0, i + 1 as int).last() == pdv[i as int]);
        }
        i = i + 1;
    }
    proof {
        assert(pdv.subrange(0, n as int) =~= pdv);
    }
    out
}

/// The locale lookup table of a redirect page: every locale code maps to
/// itself, its bare language maps to it, and when it carries a region,
/// its `lang-region` and `lang_region` spellings map to it too; a later
/// locale's spellings win over an earlier one's.
pub open spec fn lookup_pairs_spec(keys: Seq<Seq<char>>) -> Seq<(Seq<char>, Seq<char>)>
    decreases keys.len(),
{
    if keys.len() == 0 {
        Seq::empty()
    } else {
        let pre = lookup_pairs_spec(keys.drop_last());
        let key = keys.last();
        let parts = crate::text::split_on(key, '-');
        let p1 = set_key(set_key(pre, key, key), parts[0], key);
        if parts.len() >= 2 {
            set_key(
                set_key(p1, parts[0] + "-"@ + parts[1], key),
                parts[0] + "_"@ + parts[1],
                key,
            )
        } else {
            p1
        }
    }
}

/// Build the redirect page's locale lookup table from the known locale
/// keys.
#[verifier::loop_isolation(false)]
#[verifier::rlimit(100)]
#[verifier::spinoff_prover]
pub fn locale_lookup_pairs(keys: &Vec<String>) -> (r: Vec<(String, String)>)
    ensures
        r.deep_view() == lookup_pairs_spec(keys.deep_view()),
        keys_distinct(r.deep_view()),
{
    proof {
        crate::text::lemma_dv_strings(*keys);
    }
    let ghost kdv = keys.deep_view();
    let mut out: Vec<(String, String)> = Vec::new();
    let n = keys.len();
    let mut i: usize = 0;
    while i < n
        invariant
            0 <= i <= n,
            n == keys@.len(),
            out.deep_view() == lookup_pairs_spec(kdv.subrange(0, i as int)),
            keys_distinct(out.deep_view()),
        decreases n - i,
    {
        let key = &keys[i];
        let parts = crate::text::split_char(key.as_str(), '-');
        proof {
            crate::text::lemma_dv_strings(parts);
            crate::text::lemma_split_on_len(key@, '-');
        }
        v1_set(&mut out, key.clone(), key.clone());
        v1_set(&mut out, parts[0].clone(), key.clone());
        if parts.len() >= 2 {
            let mut dash = parts[0].clone();
            dash.append("-");
            dash.append(parts[1].as_str());
            let mut under = parts[0].clone();
            under.append("_");
            under.append(parts[1].as_str());
            v1_set(&mut out, dash, key.clone());
            v1_set(&mut out, under, key.clone());
        }
        proof {
            assert(kdv.subrange(0, i + 1 as int).drop_last() =~= kdv.subrange(0, i as int));
            assert(kdv.subrange(0, i + 1 as int).last() == kdv[i as int]);
        }
        i = i + 1;
    }
    proof {
        assert(kdv.subrange(0, n as int) =~= kdv);
    }
    out
}

/// The locale keys the builder knows.
pub open spec fn tkeys(s: Seq<(String, RoseyTranslation)>) -> Seq<Seq<char>> {
    s.map_values(|p: (String, RoseyTranslation)| p.0@)
}

/// What a well-built rewrite context for a locale holds.
pub open spec fn ctx_ok(
    ctx: RewriteContext,
    b: RoseyBuilder,
    locale: Seq<char>,
    assets: Seq<Seq<char>>,
) -> bool {
    &&& ctx.locale_key@ == locale
    &&& ctx.default_language@ == b.options.config.default_language@
    &&& ctx.tag@ == b.options.config.tag@
    &&& ctx.locales.deep_view() == tkeys(b.translations@)
    &&& ctx.should_wrap == (b.options.config.wrap matches Some(w) && crate::assets::contains_str(
        w.deep_view(),
        locale,
    ))
    &&& ctx.wrap_class.deep_view() == b.options.config.wrap_class.deep_view()
    &&& ctx.assets.deep_view() == assets
}

/// Alternate pairs as full link targets: each locale with
/// `/<locale>/<path>`.
pub open spec fn link_pairs(pairs: Seq<(Seq<char>, Seq<char>)>) -> Seq<(Seq<char>, Seq<char>)>
    decreases pairs.len(),
{
    if pairs.len() == 0 {
        Seq::empty()
    } else {
        link_pairs(pairs.drop_last()).push(
            (pairs.last().0, "/"@ + pairs.last().0 + "/"@ + pairs.last().1),
        )
    }
}

impl RoseyBuilder {
    /// What one locale's produced markup satisfies: the content pass
    /// (skipped for the default pass, whose text stays the source's),
    /// the static reference pass under the locale's URL store, the head
    /// metadata block, then serialization.
    pub open spec fn locale_pass_ok(
        self,
        rel: Seq<char>,
        dom: Seq<HtmlNode>,
        assets: Seq<Seq<char>>,
        locale: Seq<char>,
        with_content: bool,
        content: Seq<char>,
    ) -> bool {
        exists|ctx: RewriteContext, t1: Seq<HtmlNode>, t2: Seq<HtmlNode>, t3: Seq<HtmlNode>|
            #![all_triggers]
            {
                &&& ctx_ok(ctx, self, locale, assets)
                &&& if with_content {
                    match tlookup(self.translations@, locale) {
                        Some(t) => crate::inject::content_nodes_rel(
                            dom,
                            None,
                            None,
                            self.options.config.separator@,
                            t,
                            ctx,
                            t1,
                        ),
                        None => eq_nodes_rel(dom, t1),
                    }
                } else {
                    eq_nodes_rel(dom, t1)
                }
                &&& static_nodes_rel(t1, ctx, tlookup(self.url_translations@, locale), t2)
                &&& meta_rel(t2, locale, link_pairs(self.alt_pairs(rel, locale)), t3)
                &&& content == ser_nodes(t3, false)
            }
    }

    /// Build the rewrite context for one locale.
    #[verifier::loop_isolation(false)]
    pub fn make_ctx(&self, locale: &str, assets: &Vec<String>) -> (ctx: RewriteContext)
        ensures
            ctx_ok(ctx, *self, locale@, assets.deep_view()),
    {
        let mut locales: Vec<String> = Vec::new();
        let n = self.translations.len();
        let mut i: usize = 0;
        while i < n
            invariant
                0 <= i <= n,
                n == self.translations@.len(),
                locales.deep_view() == tkeys(self.translations@.subrange(0, i as int)),
            decreases n - i,
        {
            proof {
                crate::text::lemma_dv_strings(locales);
            }
            locales.push(self.translations[i].0.clone());
            proof {
                crate::text::lemma_dv_strings(locales);
                let sub1 = self.translations@.subrange(0, i + 1 as int);
                assert forall|j: int| 0 <= j < i + 1 implies locales.deep_view()[j] == tkeys(
                    sub1,
                )[j] by {
                    assert(tkeys(sub1)[j] == sub1[j].0@);
                    if j < i {
                        assert(locales.deep_view()[j] == tkeys(
                            self.translations@.subrange(0, i as int),
                        )[j]);
                        assert(sub1[j] == self.translations@.subrange(0, i as int)[j]);
                    } else {
                        assert(locales@[j] == self.translations@[i as int].0);
                    }
                }
                assert(locales.deep_view() =~= tkeys(sub1));
            }
            i = i + 1;
        }
        proof {
            assert(self.translations@.subrange(0, n as int) =~= self.translations@);
        }
        let should_wrap = match &self.options.config.wrap {
            Some(w) => crate::assets::list_contains(w, locale),
            None => false,
        };
        RewriteContext {
            locale_key: locale.to_owned(),
            default_language: self.options.config.default_language.clone(),
            locales,
            tag: self.options.config.tag.clone(),
            should_wrap,
            wrap_class: clone_opt_string(&self.options.config.wrap_class),
            assets: crate::inject::clone_string_vec(assets),
        }
    }

    /// Produce one locale's copy of a document (see [`locale_pass_ok`]).
    #[verifier::loop_isolation(false)]
    #[verifier::rlimit(100)]
    #[verifier::spinoff_prover]
    pub fn process_locale_pass(
        &self,
        relative_path: &str,
        dom: &Vec<HtmlNode>,
        assets: &Vec<String>,
        locale: &str,
        with_content: bool,
    ) -> (content: String)
        requires
            self.wf(),
            crate::inject::nodes_wf(dom@),
        ensures
            self.locale_pass_ok(
                relative_path@,
                dom@,
                assets.deep_view(),
                locale@,
                with_content,
                content@,
            ),
    {
        let ctx = self.make_ctx(locale, assets);
        proof {
            lemma_tlookup_wf(self.translations@, locale@);
            lemma_tlookup_wf(self.url_translations@, locale@);
        }
        let t1: Vec<HtmlNode> = if with_content {
            match store_find(&self.translations, locale) {
                Some(t) => crate::inject::inject_content_nodes(
                    dom,
                    self.options.config.separator.as_str(),
                    t,
                    &ctx,
                ),
                None => crate::inject::clone_nodes(dom),
            }
        } else {
            crate::inject::clone_nodes(dom)
        };
        let t2 = crate::refs::rewrite_static_nodes(
            &t1,
            &ctx,
            store_find(&self.url_translations, locale),
        );
        let alts = self.build_alt_pairs(relative_path, locale);
        let mut links: Vec<(String, String)> = Vec::new();
        let an = alts.len();
        let mut i: usize = 0;
        proof {
            lemma_dv_alts(alts);
        }
        while i < an
            invariant
                0 <= i <= an,
                an == alts@.len(),
                links.deep_view() == link_pairs(alts.deep_view().subrange(0, i as int)),
            decreases an - i,
        {
            let mut href = String::new();
            href.append("/");
            href.append(alts[i].0.as_str());
            href.append("/");
            href.append(alts[i].1.as_str());
            proof {
                lemma_dv_alts(links);
            }
            links.push((alts[i].0.clone(), href));
            proof {
                lemma_dv_alts(links);
                assert(alts.deep_view().subrange(0, i + 1 as int).drop_last() =~= alts
                    .deep_view()
                    .subrange(0, i as int));
                assert(alts.deep_view().subrange(0, i + 1 as int).last() == alts.deep_view()[
                    i as int]);
                assert(links.deep_view() =~= link_pairs(
                    alts.deep_view().subrange(0, i + 1 as int),
                ));
            }
            i = i + 1;
        }
        proof {
            assert(alts.deep_view().subrange(0, an as int) =~= alts.deep_view());
        }
        let t3 = rewrite_meta_tags(&t2, locale, &links);
        let content = crate::html::render_nodes(&t3, false);
        proof {
            assert(self.locale_pass_ok(
                relative_path@,
                dom@,
                assets.deep_view(),
                locale@,
                with_content,
                content@,
            )) by {
                assert(ctx_ok(ctx, *self, locale@, assets.deep_view()));
            }
        }
        content
    }

    /// The destination-relative path of one locale's copy: the locale
    /// directory, then the locale's URL-store translation of the path
    /// when one exists, else the path itself.
    pub open spec fn output_path_spec(self, locale: Seq<char>, rel: Seq<char>) -> Seq<char> {
        locale + "/"@ + match tlookup(self.url_translations@, locale) {
            Some(t) => match t.spec_get(rel) {
                Some(m) => m,
                None => rel,
            },
            None => rel,
        }
    }

    /// Compute one locale's output path.
    pub fn output_path(&self, locale: &str, relative_path: &str) -> (r: String)
        requires
            self.wf(),
        ensures
            r@ == self.output_path_spec(locale@, relative_path@),
    {
        proof {
            lemma_tlookup_wf(self.url_translations@, locale@);
        }
        let mut out = locale.to_owned();
        out.append("/");
        match store_find(&self.url_translations, locale) {
            Some(t) => match t.get(relative_path) {
                Some(m) => {
                    out.append(m.as_str());
                },
                None => {
                    out.append(relative_path);
                },
            },
            None => {
                out.append(relative_path);
            },
        }
        out
    }

    /// Produce every locale's copy of one document. A document that
    /// already sits under a locale directory is final for that locale
    /// alone and keeps its own path; any other document yields the
    /// default language's copy (source text kept) and one translated
    /// copy per locale, each under its locale directory at its URL-store
    /// path.
    #[verifier::loop_isolation(false)]
    pub fn process_html_file(
        &self,
        relative_path: &str,
        dom: &Vec<HtmlNode>,
        assets: &Vec<String>,
    ) -> (outs: Vec<RoseyOutput>)
        requires
            self.wf(),
            crate::inject::nodes_wf(dom@),
        ensures
            ({
                let keys = Seq::new(self.translations@.len(), |i: int| self.translations@[i].0@);
                match first_overwrite(keys, relative_path@) {
                    Some(oi) => {
                        &&& outs@.len() == 1
                        &&& outs@[0].locale@ == keys[oi]
                        &&& outs@[0].path@ == relative_path@
                        &&& self.locale_pass_ok(
                            relative_path@,
                            dom@,
                            assets.deep_view(),
                            keys[oi],
                            true,
                            outs@[0].content@,
                        )
                    },
                    None => {
                        &&& outs@.len() == 1 + self.translations@.len()
                        &&& outs@[0].locale@ == self.options.config.default_language@
                        &&& outs@[0].path@ == self.output_path_spec(
                            self.options.config.default_language@,
                            relative_path@,
                        )
                        &&& self.locale_pass_ok(
                            relative_path@,
                            dom@,
                            Seq::empty(),
                            self.options.config.default_language@,
                            false,
                            outs@[0].content@,
                        )
                        &&& forall|i: int|
                            0 <= i < self.translations@.len() ==> {
                                &&& (#[trigger] outs@[1 + i]).locale@ == keys[i]
                                &&& outs@[1 + i].path@ == self.output_path_spec(
                                    keys[i],
                                    relative_path@,
                                )
                                &&& self.locale_pass_ok(
                                    relative_path@,
                                    dom@,
                                    assets.deep_view(),
                                    keys[i],
                                    true,
                                    outs@[1 + i].content@,
                                )
                            }
                    },
                }
            }),
    {
        let ghost keys = Seq::new(self.translations@.len(), |i: int| self.translations@[i].0@);
        let mut outs: Vec<RoseyOutput> = Vec::new();
        match self.find_locale_overwrite(relative_path) {
            Some(key) => {
                let key = key.clone();
                let content = self.process_locale_pass(relative_path, dom, assets, key.as_str(), true);
                outs.push(
                    RoseyOutput { locale: key, path: relative_path.to_owned(), content },
                );
            },
            None => {
                let dl = self.options.config.default_language.clone();
                // the default pass localizes no assets: the source text and
                // references stand, only anchors and metadata change
                let no_assets: Vec<String> = Vec::new();
                proof {
                    assert(no_assets.deep_view() =~= Seq::<Seq<char>>::empty());
                }
                let content = self.process_locale_pass(
                    relative_path,
                    dom,
                    &no_assets,
                    dl.as_str(),
                    false,
                );
                let path = self.output_path(dl.as_str(), relative_path);
                outs.push(RoseyOutput { locale: dl, path, content });
                let n = self.translations.len();
                let mut i: usize = 0;
                while i < n
                    invariant
                        0 <= i <= n,
                        n == self.translations@.len(),
                        keys == Seq::new(
                            self.translations@.len(),
                            |j: int| self.translations@[j].0@,
                        ),
                        outs@.len() == 1 + i,
                        outs@[0].locale@ == self.options.config.default_language@,
                        outs@[0].path@ == self.output_path_spec(
                            self.options.config.default_language@,
                            relative_path@,
                        ),
                        self.locale_pass_ok(
                            relative_path@,
                            dom@,
                            Seq::empty(),
                            self.options.config.default_language@,
                            false,
                            outs@[0].content@,
                        ),
                        forall|j: int|
                            0 <= j < i ==> {
                                &&& (#[trigger] outs@[1 + j]).locale@ == keys[j]
                                &&& outs@[1 + j].path@ == self.output_path_spec(
                                    keys[j],
                                    relative_path@,
                                )
                                &&& self.locale_pass_ok(
                                    relative_path@,
                                    dom@,
                                    assets.deep_view(),
                                    keys[j],
                                    true,
                                    outs@[1 + j].content@,
                                )
                            },
                    decreases n - i,
                {
                    let key = self.translations[i].0.clone();
                    let content = self.process_locale_pass(
                        relative_path,
                        dom,
                        assets,
                        key.as_str(),
                        true,
                    );
                    let path = self.output_path(key.as_str(), relative_path);
                    outs.push(RoseyOutput { locale: key, path, content });
                    i = i + 1;
                }
            },
        }
        outs
    }
}

/// Every store of a well-formed list is well formed.
proof fn lemma_tlookup_wf(s: Seq<(String, RoseyTranslation)>, k: Seq<char>)
    requires
        forall|i: int| 0 <= i < s.len() ==> (#[trigger] s[i]).1.wf(),
    ensures
        tlookup(s, k) matches Some(t) ==> t.wf(),
    decreases s.len(),
{
    if s.len() > 0 {
        assert(forall|i: int|
            0 <= i < s.drop_first().len() ==> (#[trigger] s.drop_first()[i]).1 == s[i + 1].1);
        lemma_tlookup_wf(s.drop_first(), k);
    }
}

/// A JSON string literal's escaping: backslashes and quotes.
pub open spec fn json_esc(s: Seq<char>) -> Seq<char>
    decreases s.len(),
{
    if s.len() == 0 {
        Seq::empty()
    } else {
        json_esc(s.drop_last()) + (if s.last() == '"' {
            "\\\""@
        } else if s.last() == '\\' {
            "\\\\"@
        } else {
            seq![s.last()]
        })
    }
}

/// One member of a JSON string-map object.
pub open spec fn json_entry(p: (Seq<char>, Seq<char>)) -> Seq<char> {
    "\""@ + json_esc(p.0) + "\":\""@ + json_esc(p.1) + "\""@
}

/// The members of a JSON string-map object, comma-separated.
pub open spec fn json_map_body(pairs: Seq<(Seq<char>, Seq<char>)>) -> Seq<char>
    decreases pairs.len(),
{
    if pairs.len() == 0 {
        Seq::empty()
    } else if pairs.len() == 1 {
        json_entry(pairs[0])
    } else {
        json_map_body(pairs.drop_last()) + ","@ + json_entry(pairs.last())
    }
}

/// The JSON object text of a string map, in order.
pub open spec fn json_map_text(pairs: Seq<(Seq<char>, Seq<char>)>) -> Seq<char> {
    "{"@ + json_map_body(pairs) + "}"@
}

/// Render a string map as JSON object text.
#[verifier::loop_isolation(false)]
pub fn json_string_map(pairs: &Vec<(String, String)>) -> (r: String)
    ensures
        r@ == json_map_text(pairs.deep_view()),
{
    proof {
        lemma_dv_alts(*pairs);
    }
    let ghost pdv = pairs.deep_view();
    let mut out = String::new();
    out.append("{");
    let n = pairs.len();
    let mut i: usize = 0;
    while i < n
        invariant
            0 <= i <= n,
            n == pairs@.len(),
            out@ == "{"@ + json_map_body(pdv.subrange(0, i as int)),
        decreases n - i,
    {
        if i > 0 {
            out.append(",");
        }
        out.append("\"");
        let ek = json_escape(pairs[i].0.as_str());
        out.append(ek.as_str());
        out.append("\":\"");
        let ev = json_escape(pairs[i].1.as_str());
        out.append(ev.as_str());
        out.append("\"");
        proof {
            assert(pdv.subrange(0, i + 1 as int).drop_last() =~= pdv.subrange(0, i as int));
            assert(pdv.subrange(0, i + 1 as int).last() == pdv[i as int]);
            assert(out@ =~= "{"@ + json_map_body(pdv.subrange(0, i + 1 as int)));
        }
        i = i + 1;
    }
    proof {
        assert(pdv.subrange(0, n as int) =~= pdv);
    }
    out.append("}");
    out
}

/// Escape a string for a JSON literal.
#[verifier::loop_isolation(false)]
pub fn json_escape(s: &str) -> (r: String)
    ensures
        r@ == json_esc(s@),
{
    let v = crate::text::chars_vec(s);
    let mut out = String::new();
    let n = v.len();
    let mut i: usize = 0;
    while i < n
        invariant
            0 <= i <= n,
            n == v@.len(),
            v@ == s@,
            out@ == json_esc(s@.subrange(0, i as int)),
        decreases n - i,
    {
        let c = v[i];
        if c == '"' {
            out.append("\\\"");
        } else if c == '\\' {
            out.append("\\\\");
        } else {
            out.push(c);
        }
        proof {
            assert(s@.subrange(0, i + 1 as int).drop_last() =~= s@.subrange(0, i as int));
            assert(s@.subrange(0, i + 1 as int).last() == s@[i as int]);
        }
        i = i + 1;
    }
    proof {
        assert(s@.subrange(0, n as int) =~= s@);
    }
    out
}

} // verus!
