//! Per-locale rewriting of static references: image sources and srcsets,
//! asset-bearing tags (`source`, `video`, `audio`, downloadable links and
//! custom asset attributes), and same-origin page anchors, which are
//! checked against the locale's URL store and prefixed with the locale.

use crate::assets::contains_str;
use crate::assets::get_translated_asset;
use crate::assets::output_url_of;
use crate::assets::rfind;
use crate::assets::translated_asset_name;
use crate::html::HtmlNode;
use crate::html::get_attr;
use crate::kv::keys_distinct;
use crate::kv::lookup;
use crate::kv::set_key;
use crate::rewrite::RewriteContext;
use crate::rewrite::asset_substituted;
use crate::rewrite::locale_prefixed;
use crate::store::RoseyTranslation;
use crate::store::v1_set;
use crate::text::has_prefix;
use crate::text::has_suffix;
use crate::text::lemma_dv_strings;
use crate::text::split_char;
use crate::text::split_on;
use crate::inject::eq_node_rel;
use crate::inject::node_wf;
use crate::inject::nodes_wf;
use crate::inject::lemma_nodes_wf_index;
use vstd::prelude::*;
use vstd::string::StrSliceExecFns;
use vstd::string::StringExecFns;

verus! {

/// One srcset candidate substituted, as top-level image tags do it (the
/// candidate is not trimmed first).
pub open spec fn srcset_part_page(
    part: Seq<char>,
    locale: Seq<char>,
    assets: Seq<Seq<char>>,
) -> Seq<char> {
    let sub = split_on(part, ' ');
    if sub.len() >= 2 {
        match translated_asset_name(sub[0], locale) {
            Some(c) => if contains_str(assets, c) {
                "/"@ + c + " "@ + sub[1]
            } else {
                part
            },
            None => part,
        }
    } else {
        part
    }
}

/// A whole srcset attribute substituted candidate by candidate.
pub open spec fn srcset_page(
    parts: Seq<Seq<char>>,
    locale: Seq<char>,
    assets: Seq<Seq<char>>,
) -> Seq<char>
    decreases parts.len(),
{
    if parts.len() == 0 {
        Seq::empty()
    } else if parts.len() == 1 {
        srcset_part_page(parts[0], locale, assets)
    } else {
        srcset_page(parts.drop_last(), locale, assets) + ","@ + srcset_part_page(
            parts.last(),
            locale,
            assets,
        )
    }
}

/// The first position of `c` in `s`, if any.
pub open spec fn ffind(s: Seq<char>, c: char) -> Option<int>
    decreases s.len(),
{
    if s.len() == 0 {
        None
    } else if s[0] == c {
        Some(0int)
    } else {
        match ffind(s.drop_first(), c) {
            Some(i) => Some(i + 1),
            None => None,
        }
    }
}

/// Where a link's path ends: at the first query or fragment marker.
pub open spec fn path_end(h: Seq<char>) -> int {
    let q = match ffind(h, '?') {
        Some(i) => i,
        None => h.len() as int,
    };
    let f = match ffind(h, '#') {
        Some(i) => i,
        None => h.len() as int,
    };
    if q <= f {
        q
    } else {
        f
    }
}

/// Whether a link's path reads as a page: its extension is `html` or
/// `htm`, or it has none.
pub open spec fn is_page_path(p: Seq<char>) -> bool {
    match rfind(p, '.') {
        None => true,
        Some(d) => p.skip(d + 1) == "html"@ || p.skip(d + 1) == "htm"@,
    }
}

/// Whether an anchor is rewritten at all: it must be site-absolute (but
/// not protocol-relative), lead to a page, and not already carry a locale
/// prefix.
pub open spec fn anchor_eligible(h: Seq<char>, ctx: RewriteContext) -> bool {
    &&& has_prefix(h, "/"@)
    &&& !has_prefix(h, "//"@)
    &&& is_page_path(h.subrange(0, path_end(h)))
    &&& !locale_prefixed(h, ctx.locales.deep_view(), ctx.default_language@)
}

/// The locale-store key a link's path is looked up under: the relative
/// path, completed to its `index.html` document when it names a directory
/// or a bare route.
pub open spec fn candidate_url(rel: Seq<char>) -> Seq<char> {
    if has_suffix(rel, "/"@) {
        rel + "index.html"@
    } else if has_suffix(rel, ".html"@) || has_suffix(rel, ".htm"@) {
        rel
    } else {
        rel + "/index.html"@
    }
}

/// A leading slash dropped.
pub open spec fn strip_slash(p: Seq<char>) -> Seq<char> {
    if p.len() > 0 && p[0] == '/' {
        p.skip(1)
    } else {
        p
    }
}

/// What an eligible anchor is rewritten to: the path, possibly remapped
/// through the locale's URL store, under the locale's prefix, with the
/// query and fragment kept.
pub open spec fn anchor_mapped(
    h: Seq<char>,
    ctx: RewriteContext,
    urlmap: Option<RoseyTranslation>,
) -> Seq<char> {
    let pe = path_end(h);
    let p = h.subrange(0, pe);
    let suffix = h.skip(pe);
    let rel = p.skip(1);
    let newrel = match urlmap {
        Some(t) => match t.spec_get(candidate_url(rel)) {
            Some(m) => strip_slash(output_url_of(m)),
            None => rel,
        },
        None => rel,
    };
    "/"@ + ctx.locale_key@ + "/"@ + newrel + suffix
}

/// The attribute list of an element after its static references are
/// rewritten: image sources and srcsets, asset sources, downloadable and
/// custom asset attributes, then eligible anchors.
pub open spec fn static_attrs(
    name: Seq<char>,
    attrs: Seq<(Seq<char>, Seq<char>)>,
    ctx: RewriteContext,
    urlmap: Option<RoseyTranslation>,
) -> Seq<(Seq<char>, Seq<char>)> {
    let locale = ctx.locale_key@;
    let assets = ctx.assets.deep_view();
    let a1 = if name == "img"@ {
        match lookup(attrs, "src"@) {
            Some(src) => set_key(attrs, "src"@, asset_substituted(src, locale, assets)),
            None => attrs,
        }
    } else {
        attrs
    };
    let a2 = if name == "img"@ {
        match lookup(a1, "srcset"@) {
            Some(ss) => set_key(a1, "srcset"@, srcset_page(split_on(ss, ','), locale, assets)),
            None => a1,
        }
    } else {
        a1
    };
    let a3 = if name == "source"@ || name == "video"@ || name == "audio"@ {
        match lookup(a2, "src"@) {
            Some(src) => set_key(a2, "src"@, asset_substituted(src, locale, assets)),
            None => a2,
        }
    } else {
        a2
    };
    let a4 = if name == "a"@ && lookup(a3, "download"@) is Some {
        match lookup(a3, "href"@) {
            Some(href) => set_key(a3, "href"@, asset_substituted(href, locale, assets)),
            None => a3,
        }
    } else {
        a3
    };
    let a5 = match lookup(a4, ctx.tag@ + "-asset-attrs"@) {
        Some(attrname) => {
            let orig = match lookup(a4, attrname) {
                Some(v) => v,
                None => Seq::empty(),
            };
            set_key(a4, attrname, asset_substituted(orig, locale, assets))
        },
        None => a4,
    };
    if name == "a"@ && lookup(a5, "download"@) is None {
        match lookup(a5, "href"@) {
            Some(href) => if anchor_eligible(href, ctx) {
                set_key(a5, "href"@, anchor_mapped(href, ctx, urlmap))
            } else {
                a5
            },
            None => a5,
        }
    } else {
        a5
    }
}

/// How one node's static references are rewritten.
pub open spec fn static_rel(
    n: HtmlNode,
    ctx: RewriteContext,
    urlmap: Option<RoseyTranslation>,
    out: HtmlNode,
) -> bool
    decreases n,
{
    match n {
        HtmlNode::Element { name, attrs, children } => out matches HtmlNode::Element {
            name: on,
            attrs: oa,
            children: oc,
        } && on@ == name@ && oa.deep_view() == static_attrs(name@, attrs.deep_view(), ctx, urlmap)
            && static_nodes_rel(children@, ctx, urlmap, oc@),
        _ => eq_node_rel(n, out),
    }
}

/// How a node sequence's static references are rewritten.
pub open spec fn static_nodes_rel(
    s: Seq<HtmlNode>,
    ctx: RewriteContext,
    urlmap: Option<RoseyTranslation>,
    out: Seq<HtmlNode>,
) -> bool
    decreases s,
{
    if s.len() == 0 {
        out.len() == 0
    } else {
        out.len() == s.len() && static_nodes_rel(s.drop_last(), ctx, urlmap, out.drop_last())
            && static_rel(s.last(), ctx, urlmap, out.last())
    }
}

/// Find the first occurrence of a character.
#[verifier::loop_isolation(false)]
pub fn ffind_char(v: &Vec<char>, c: char) -> (r: Option<usize>)
    ensures
        match r {
            Some(i) => i < v@.len() && ffind(v@, c) == Some(i as int),
            None => ffind(v@, c) is None,
        },
{
    let n = v.len();
    let mut i: usize = 0;
    proof {
        assert(v@.skip(0) =~= v@);
    }
    while i < n
        invariant
            0 <= i <= n,
            n == v@.len(),
            ffind(v@, c) == match ffind(v@.skip(i as int), c) {
                Some(j) => Some(j + i),
                None => None::<int>,
            },
        decreases n - i,
    {
        proof {
            assert(v@.skip(i as int)[0] == v@[i as int]);
            assert(v@.skip(i as int).drop_first() =~= v@.skip(i + 1 as int));
        }
        if v[i] == c {
            return Some(i);
        }
        i = i + 1;
    }
    proof {
        assert(v@.skip(n as int) =~= Seq::<char>::empty());
    }
    None
}

/// A first occurrence is a position of the sequence.
proof fn lemma_ffind_nonneg(s: Seq<char>, c: char)
    ensures
        ffind(s, c) is Some ==> 0 <= ffind(s, c)->0 < s.len(),
    decreases s.len(),
{
    if s.len() > 0 && s[0] != c {
        lemma_ffind_nonneg(s.drop_first(), c);
    }
}

/// A first occurrence past a mismatching head sits at one or later.
proof fn lemma_ffind_first(s: Seq<char>, c: char)
    requires
        s.len() >= 1,
        s[0] != c,
    ensures
        ffind(s, c) is Some ==> ffind(s, c)->0 >= 1,
{
    lemma_ffind_nonneg(s.drop_first(), c);
    match ffind(s.drop_first(), c) {
        Some(i) => {
            assert(ffind(s, c) == Some(i + 1));
        },
        None => {
            assert(ffind(s, c) is None);
        },
    }
}

/// Where a link's path ends.
fn exec_path_end(v: &Vec<char>) -> (r: usize)
    ensures
        r == path_end(v@),
        r <= v@.len(),
{
    let n = v.len();
    let q: usize = match ffind_char(v, '?') {
        Some(i) => i,
        None => n,
    };
    let f: usize = match ffind_char(v, '#') {
        Some(i) => i,
        None => n,
    };
    if q <= f {
        q
    } else {
        f
    }
}

/// Whether a link's path reads as a page.
fn exec_is_page_path(p: &Vec<char>) -> (r: bool)
    ensures
        r == is_page_path(p@),
{
    match crate::assets::rfind_char(p, '.') {
        None => true,
        Some(d) => {
            let n = p.len();
            let mut ext: Vec<char> = Vec::new();
            let mut i: usize = d + 1;
            while i < n
                invariant
                    d + 1 <= i <= n,
                    n == p@.len(),
                    ext@ == p@.subrange(d + 1 as int, i as int),
                decreases n - i,
            {
                ext.push(p[i]);
                proof {
                    assert(p@.subrange(d + 1 as int, i + 1 as int) =~= p@.subrange(
                        d + 1 as int,
                        i as int,
                    ).push(p@[i as int]));
                }
                i = i + 1;
            }
            proof {
                assert(p@.subrange(d + 1 as int, n as int) =~= p@.skip(d + 1));
            }
            let e = crate::text::string_from_chars(&ext);
            crate::text::str_eq(e.as_str(), "html") || crate::text::str_eq(e.as_str(), "htm")
        },
    }
}

/// Whether an anchor is rewritten at all.
fn exec_anchor_eligible(h: &str, ctx: &RewriteContext) -> (r: bool)
    ensures
        r == anchor_eligible(h@, *ctx),
{
    if !crate::text::starts_with_str(h, "/") {
        return false;
    }
    if crate::text::starts_with_str(h, "//") {
        return false;
    }
    let v = crate::text::chars_vec(h);
    let pe = exec_path_end(&v);
    let mut p: Vec<char> = Vec::new();
    let mut i: usize = 0;
    while i < pe
        invariant
            0 <= i <= pe <= v@.len(),
            v@ == h@,
            p@ == h@.subrange(0, i as int),
        decreases pe - i,
    {
        p.push(v[i]);
        proof {
            assert(h@.subrange(0, i + 1 as int) =~= h@.subrange(0, i as int).push(h@[i as int]));
        }
        i = i + 1;
    }
    if !exec_is_page_path(&p) {
        return false;
    }
    !crate::rewrite::exec_locale_prefixed(h, ctx)
}

/// What an eligible anchor is rewritten to.
#[verifier::loop_isolation(false)]
fn exec_anchor_mapped(h: &str, ctx: &RewriteContext, urlmap: Option<&RoseyTranslation>) -> (r:
    String)
    requires
        match urlmap {
            Some(t) => t.wf(),
            None => true,
        },
        h@.len() >= 1,
        h@[0] == '/',
    ensures
        r@ == anchor_mapped(
            h@,
            *ctx,
            match urlmap {
                Some(t) => Some(*t),
                None => None::<RoseyTranslation>,
            },
        ),
{
    let v = crate::text::chars_vec(h);
    let pe = exec_path_end(&v);
    let ghost pv = h@.subrange(0, path_end(h@));
    proof {
        assert(h@[0] != '?' && h@[0] != '#');
        lemma_ffind_first(h@, '?');
        lemma_ffind_first(h@, '#');
        assert(path_end(h@) >= 1);
    }
    // the relative path: the path with its leading slash dropped
    let mut rel: Vec<char> = Vec::new();
    let mut i: usize = 1;
    if pe >= 1 {
        while i < pe
            invariant
                1 <= i <= pe <= v@.len(),
                v@ == h@,
                rel@ == h@.subrange(1, i as int),
            decreases pe - i,
        {
            rel.push(v[i]);
            proof {
                assert(h@.subrange(1, i + 1 as int) =~= h@.subrange(1, i as int).push(
                    h@[i as int],
                ));
            }
            i = i + 1;
        }
    }
    proof {
        assert(rel@ =~= pv.skip(1));
    }
    let mut suffix: Vec<char> = Vec::new();
    let mut j: usize = pe;
    while j < v.len()
        invariant
            pe <= j <= v@.len(),
            v@ == h@,
            suffix@ == h@.subrange(path_end(h@), j as int),
        decreases v@.len() - j,
    {
        suffix.push(v[j]);
        proof {
            assert(h@.subrange(path_end(h@), j + 1 as int) =~= h@.subrange(
                path_end(h@),
                j as int,
            ).push(h@[j as int]));
        }
        j = j + 1;
    }
    proof {
        assert(suffix@ =~= h@.skip(path_end(h@)));
    }
    let rel_str = crate::text::string_from_chars(&rel);
    let suffix_str = crate::text::string_from_chars(&suffix);

    // complete the path to its document key
    let candidate: String = if crate::text::ends_with_str(rel_str.as_str(), "/") {
        let mut c = rel_str.clone();
        c.append("index.html");
        c
    } else if crate::text::ends_with_str(rel_str.as_str(), ".html") || crate::text::ends_with_str(
        rel_str.as_str(),
        ".htm",
    ) {
        rel_str.clone()
    } else {
        let mut c = rel_str.clone();
        c.append("/index.html");
        c
    };
    assert(candidate@ == candidate_url(rel_str@));

    let newrel: String = match urlmap {
        Some(t) => match t.get(candidate.as_str()) {
            Some(m) => {
                let u = crate::assets::filepath_to_output_url(m.as_str());
                let strip = crate::text::starts_with_str(u.as_str(), "/");
                proof {
                    reveal_strlit("/");
                    if u@.len() >= 1 && u@[0] == '/' {
                        assert(u@.subrange(0, 1) =~= "/"@);
                    }
                }
                if strip {
                    proof {
                        assert(u@.len() >= 1);
                        assert(u@.subrange(0, 1)[0] == '/');
                    }
                    let uv = crate::text::chars_vec(u.as_str());
                    let mut sv: Vec<char> = Vec::new();
                    let mut k: usize = 1;
                    while k < uv.len()
                        invariant
                            1 <= k <= uv@.len(),
                            uv@ == u@,
                            sv@ == u@.subrange(1, k as int),
                        decreases uv@.len() - k,
                    {
                        sv.push(uv[k]);
                        proof {
                            assert(u@.subrange(1, k + 1 as int) =~= u@.subrange(1, k as int).push(
                                u@[k as int],
                            ));
                        }
                        k = k + 1;
                    }
                    proof {
                        assert(sv@ =~= u@.skip(1));
                    }
                    crate::text::string_from_chars(&sv)
                } else {
                    u
                }
            },
            None => rel_str,
        },
        None => rel_str,
    };
    let mut out = String::new();
    out.append("/");
    out.append(ctx.locale_key.as_str());
    out.append("/");
    out.append(newrel.as_str());
    out.append(suffix_str.as_str());
    proof {
        let ghost um = match urlmap {
            Some(t) => Some(*t),
            None => None::<RoseyTranslation>,
        };
        assert(out@ =~= anchor_mapped(h@, *ctx, um));
    }
    out
}

/// Rewrite a whole srcset attribute as top-level image tags do it.
#[verifier::loop_isolation(false)]
fn exec_srcset_page(val: &str, ctx: &RewriteContext) -> (r: String)
    ensures
        r@ == srcset_page(split_on(val@, ','), ctx.locale_key@, ctx.assets.deep_view()),
{
    let parts = crate::text::split_char(val, ',');
    proof {
        lemma_dv_strings(parts);
        crate::text::lemma_split_on_len(val@, ',');
    }
    let ghost pdv = parts.deep_view();
    let mut out = String::new();
    let n = parts.len();
    let mut i: usize = 0;
    while i < n
        invariant
            0 <= i <= n,
            n == parts@.len(),
            n >= 1,
            out@ == srcset_page(
                pdv.subrange(0, i as int),
                ctx.locale_key@,
                ctx.assets.deep_view(),
            ),
        decreases n - i,
    {
        if i > 0 {
            out.append(",");
        }
        let sub = crate::text::split_char(parts[i].as_str(), ' ');
        proof {
            lemma_dv_strings(sub);
        }
        let piece: String = if sub.len() >= 2 {
            match get_translated_asset(sub[0].as_str(), ctx.locale_key.as_str(), &ctx.assets) {
                Some(c) => {
                    let mut o = String::new();
                    o.append("/");
                    o.append(c.as_str());
                    o.append(" ");
                    o.append(sub[1].as_str());
                    o
                },
                None => parts[i].clone(),
            }
        } else {
            parts[i].clone()
        };
        out.append(piece.as_str());
        proof {
            assert(piece@ == srcset_part_page(pdv[i as int], ctx.locale_key@, ctx.assets.deep_view()));
            assert(pdv.subrange(0, i + 1 as int).drop_last() =~= pdv.subrange(0, i as int));
            assert(pdv.subrange(0, i + 1 as int).last() == pdv[i as int]);
        }
        i = i + 1;
    }
    proof {
        assert(pdv.subrange(0, n as int) =~= pdv);
    }
    out
}

/// Apply the image and media-source substitutions (the first three
/// stages of [`static_attrs`]).
#[verifier::loop_isolation(false)]
#[verifier::rlimit(100)]
#[verifier::spinoff_prover]
fn stage_media(work: &mut Vec<(String, String)>, name: &str, ctx: &RewriteContext)
    requires
        keys_distinct(old(work).deep_view()),
    ensures
        keys_distinct(final(work).deep_view()),
        ({
            let attrs = old(work).deep_view();
            let locale = ctx.locale_key@;
            let assets = ctx.assets.deep_view();
            let a1 = if name@ == "img"@ {
                match lookup(attrs, "src"@) {
                    Some(src) => set_key(attrs, "src"@, asset_substituted(src, locale, assets)),
                    None => attrs,
                }
            } else {
                attrs
            };
            let a2 = if name@ == "img"@ {
                match lookup(a1, "srcset"@) {
                    Some(ss) => set_key(
                        a1,
                        "srcset"@,
                        srcset_page(split_on(ss, ','), locale, assets),
                    ),
                    None => a1,
                }
            } else {
                a1
            };
            let a3 = if name@ == "source"@ || name@ == "video"@ || name@ == "audio"@ {
                match lookup(a2, "src"@) {
                    Some(src) => set_key(a2, "src"@, asset_substituted(src, locale, assets)),
                    None => a2,
                }
            } else {
                a2
            };
            final(work).deep_view() == a3
        }),
{
    let is_img = crate::text::str_eq(name, "img");
    if is_img {
        match get_attr(work, "src") {
            Some(src) => {
                let newv = crate::rewrite::exec_asset_substituted(src.clone().as_str(), ctx);
                v1_set(work, "src".to_owned(), newv);
            },
            None => {},
        }
        match get_attr(work, "srcset") {
            Some(ss) => {
                let newv = exec_srcset_page(ss.clone().as_str(), ctx);
                v1_set(work, "srcset".to_owned(), newv);
            },
            None => {},
        }
    }
    if crate::text::str_eq(name, "source") || crate::text::str_eq(name, "video")
        || crate::text::str_eq(name, "audio") {
        match get_attr(work, "src") {
            Some(src) => {
                let newv = crate::rewrite::exec_asset_substituted(src.clone().as_str(), ctx);
                v1_set(work, "src".to_owned(), newv);
            },
            None => {},
        }
    }
}

/// Apply the downloadable-link and custom asset-attribute substitutions
/// (the next two stages of [`static_attrs`]).
#[verifier::loop_isolation(false)]
#[verifier::rlimit(100)]
#[verifier::spinoff_prover]
fn stage_assets(work: &mut Vec<(String, String)>, name: &str, ctx: &RewriteContext)
    requires
        keys_distinct(old(work).deep_view()),
    ensures
        keys_distinct(final(work).deep_view()),
        ({
            let a3 = old(work).deep_view();
            let locale = ctx.locale_key@;
            let assets = ctx.assets.deep_view();
            let a4 = if name@ == "a"@ && lookup(a3, "download"@) is Some {
                match lookup(a3, "href"@) {
                    Some(href) => set_key(a3, "href"@, asset_substituted(href, locale, assets)),
                    None => a3,
                }
            } else {
                a3
            };
            let a5 = match lookup(a4, ctx.tag@ + "-asset-attrs"@) {
                Some(attrname) => {
                    let orig = match lookup(a4, attrname) {
                        Some(v) => v,
                        None => Seq::empty(),
                    };
                    set_key(a4, attrname, asset_substituted(orig, locale, assets))
                },
                None => a4,
            };
            final(work).deep_view() == a5
        }),
{
    let is_a = crate::text::str_eq(name, "a");
    let has_dl = match get_attr(work, "download") {
        Some(_) => true,
        None => false,
    };
    if is_a && has_dl {
        match get_attr(work, "href") {
            Some(href) => {
                let newv = crate::rewrite::exec_asset_substituted(href.clone().as_str(), ctx);
                v1_set(work, "href".to_owned(), newv);
            },
            None => {},
        }
    }
    let mut asset_attr_name = ctx.tag.clone();
    asset_attr_name.append("-asset-attrs");
    match get_attr(work, asset_attr_name.as_str()) {
        Some(attrname) => {
            let attrname = attrname.clone();
            let orig: String = match get_attr(work, attrname.as_str()) {
                Some(v) => v.clone(),
                None => String::new(),
            };
            let newv = crate::rewrite::exec_asset_substituted(orig.as_str(), ctx);
            v1_set(work, attrname, newv);
        },
        None => {},
    }
}

/// Apply the anchor rewriting (the last stage of [`static_attrs`]).
#[verifier::loop_isolation(false)]
#[verifier::rlimit(100)]
#[verifier::spinoff_prover]
fn stage_anchor(
    work: &mut Vec<(String, String)>,
    name: &str,
    ctx: &RewriteContext,
    urlmap: Option<&RoseyTranslation>,
)
    requires
        keys_distinct(old(work).deep_view()),
        match urlmap {
            Some(t) => t.wf(),
            None => true,
        },
    ensures
        keys_distinct(final(work).deep_view()),
        ({
            let a5 = old(work).deep_view();
            let um = match urlmap {
                Some(t) => Some(*t),
                None => None::<RoseyTranslation>,
            };
            final(work).deep_view() == if name@ == "a"@ && lookup(a5, "download"@) is None {
                match lookup(a5, "href"@) {
                    Some(href) => if anchor_eligible(href, *ctx) {
                        set_key(a5, "href"@, anchor_mapped(href, *ctx, um))
                    } else {
                        a5
                    },
                    None => a5,
                }
            } else {
                a5
            }
        }),
{
    let is_a = crate::text::str_eq(name, "a");
    let has_dl = match get_attr(work, "download") {
        Some(_) => true,
        None => false,
    };
    if is_a && !has_dl {
        match get_attr(work, "href") {
            Some(href) => {
                let href = href.clone();
                if exec_anchor_eligible(href.as_str(), ctx) {
                    proof {
                        reveal_strlit("/");
                        assert(href@.subrange(0, 1)[0] == '/');
                    }
                    let newv = exec_anchor_mapped(href.as_str(), ctx, urlmap);
                    v1_set(work, "href".to_owned(), newv);
                }
            },
            None => {},
        }
    }
}

/// Rewrite an element's attribute list (see [`static_attrs`]).
#[verifier::loop_isolation(false)]
#[verifier::rlimit(100)]
#[verifier::spinoff_prover]
fn static_attrs_exec(
    name: &str,
    attrs: &Vec<(String, String)>,
    ctx: &RewriteContext,
    urlmap: Option<&RoseyTranslation>,
) -> (r: Vec<(String, String)>)
    requires
        keys_distinct(attrs.deep_view()),
        match urlmap {
            Some(t) => t.wf(),
            None => true,
        },
    ensures
        r.deep_view() == static_attrs(
            name@,
            attrs.deep_view(),
            *ctx,
            match urlmap {
                Some(t) => Some(*t),
                None => None::<RoseyTranslation>,
            },
        ),
        keys_distinct(r.deep_view()),
{
    let ghost a0 = attrs.deep_view();
    let ghost um = match urlmap {
        Some(t) => Some(*t),
        None => None::<RoseyTranslation>,
    };
    let mut work: Vec<(String, String)> = Vec::new();
    let an = attrs.len();
    let mut ai: usize = 0;
    while ai < an
        invariant
            0 <= ai <= an,
            an == attrs@.len(),
            work.deep_view() == attrs.deep_view().subrange(0, ai as int),
        decreases an - ai,
    {
        proof {
            crate::html::lemma_dv_attrs(*attrs);
            crate::html::lemma_dv_attrs(work);
        }
        work.push((attrs[ai].0.clone(), attrs[ai].1.clone()));
        proof {
            crate::html::lemma_dv_attrs(work);
            assert(work.deep_view() =~= attrs.deep_view().subrange(0, ai + 1 as int));
        }
        ai = ai + 1;
    }
    proof {
        assert(attrs.deep_view().subrange(0, an as int) =~= attrs.deep_view());
    }
    stage_media(&mut work, name, ctx);
    stage_assets(&mut work, name, ctx);
    stage_anchor(&mut work, name, ctx, urlmap);
    work
}

/// Rewrite one node's static references (see [`static_rel`]).
#[verifier::loop_isolation(false)]
pub fn rewrite_static_node(
    n: &HtmlNode,
    ctx: &RewriteContext,
    urlmap: Option<&RoseyTranslation>,
) -> (out: HtmlNode)
    requires
        node_wf(*n),
        match urlmap {
            Some(t) => t.wf(),
            None => true,
        },
    ensures
        static_rel(
            *n,
            *ctx,
            match urlmap {
                Some(t) => Some(*t),
                None => None::<RoseyTranslation>,
            },
            out,
        ),
        node_wf(out),
    decreases *n,
{
    match n {
        HtmlNode::Element { name, attrs, children } => {
            let oa = static_attrs_exec(name.as_str(), attrs, ctx, urlmap);
            let mut oc: Vec<HtmlNode> = Vec::new();
            let cn = children.len();
            let mut j: usize = 0;
            while j < cn
                invariant
                    0 <= j <= cn,
                    cn == children@.len(),
                    oc@.len() == j,
                    static_nodes_rel(
                        children@.subrange(0, j as int),
                        *ctx,
                        match urlmap {
                            Some(t) => Some(*t),
                            None => None::<RoseyTranslation>,
                        },
                        oc@,
                    ),
                    nodes_wf(oc@),
                decreases cn - j,
            {
                proof {
                    assert(decreases_to!(*n => children@[j as int]));
                    lemma_nodes_wf_index(children@, j as int);
                }
                let c = rewrite_static_node(&children[j], ctx, urlmap);
                let ghost oc0 = oc@;
                oc.push(c);
                proof {
                    assert(children@.subrange(0, j + 1 as int).drop_last() =~= children@.subrange(
                        0,
                        j as int,
                    ));
                    assert(children@.subrange(0, j + 1 as int).last() == children@[j as int]);
                    assert(oc@.drop_last() =~= oc0);
                }
                j = j + 1;
            }
            proof {
                assert(children@.subrange(0, cn as int) =~= children@);
            }
            HtmlNode::Element { name: name.clone(), attrs: oa, children: oc }
        },
        _ => crate::inject::clone_node(n),
    }
}

/// Rewrite a node sequence's static references (see
/// [`static_nodes_rel`]).
#[verifier::loop_isolation(false)]
pub fn rewrite_static_nodes(
    nodes: &Vec<HtmlNode>,
    ctx: &RewriteContext,
    urlmap: Option<&RoseyTranslation>,
) -> (out: Vec<HtmlNode>)
    requires
        nodes_wf(nodes@),
        match urlmap {
            Some(t) => t.wf(),
            None => true,
        },
    ensures
        static_nodes_rel(
            nodes@,
            *ctx,
            match urlmap {
                Some(t) => Some(*t),
                None => None::<RoseyTranslation>,
            },
            out@,
        ),
        nodes_wf(out@),
{
    let mut out: Vec<HtmlNode> = Vec::new();
    let n = nodes.len();
    let mut i: usize = 0;
    while i < n
        invariant
            0 <= i <= n,
            n == nodes@.len(),
            out@.len() == i,
            static_nodes_rel(
                nodes@.subrange(0, i as int),
                *ctx,
                match urlmap {
                    Some(t) => Some(*t),
                    None => None::<RoseyTranslation>,
                },
                out@,
            ),
            nodes_wf(out@),
        decreases n - i,
    {
        proof {
            lemma_nodes_wf_index(nodes@, i as int);
        }
        let c = rewrite_static_node(&nodes[i], ctx, urlmap);
        let ghost out0 = out@;
        out.push(c);
        proof {
            assert(nodes@.subrange(0, i + 1 as int).drop_last() =~= nodes@.subrange(0, i as int));
            assert(nodes@.subrange(0, i + 1 as int).last() == nodes@[i as int]);
            assert(out@.drop_last() =~= out0);
        }
        i = i + 1;
    }
    proof {
        assert(nodes@.subrange(0, n as int) =~= nodes@);
    }
    out
}

} // verus!
