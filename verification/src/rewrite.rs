//! Token-level rewriting of translated rich-text fragments. A translated
//! value that contains markup is not inserted naively: it is tokenized and
//! re-emitted token by token, applying the same asset-substitution and
//! locale-prefixing rules as top-level tags, so that asset and link
//! references inside translated text are localized too.
//!
//! The tokenizer is a function: [`tokenize_spec`] is its spec-level twin
//! over character sequences, and the executable [`tokenize`] is proved to
//! return exactly those tokens. It is also lossless — the raw source
//! extents of the tokens concatenate back to the input, and a text
//! token's content is its raw extent. What is emitted for each token is
//! pinned by [`render_token`], and a whole rewritten fragment by
//! [`rewritten_fragment`].

use crate::assets::contains_str;
use crate::assets::get_translated_asset;
use crate::assets::rfind;
use crate::assets::translated_asset_name;
use crate::html::get_attr;
use crate::kv::lookup;
use crate::text::has_prefix;
use crate::text::lemma_dv_strings;
use crate::text::split_on;
use crate::text::trimmed;
use vstd::prelude::*;
use vstd::string::StringExecFns;

verus! {

/// One token of an HTML fragment.
pub enum HtmlToken {
    Tag { name: String, attrs: Vec<(String, String)>, self_closing: bool, end: bool },
    Text(String),
    Comment(String),
    Doctype(String),
}

/// The spec-level reading of one token: the same shape as [`HtmlToken`],
/// over sequences.
pub ghost enum TokenView {
    Tag { name: Seq<char>, attrs: Seq<(Seq<char>, Seq<char>)>, self_closing: bool, end: bool },
    Text(Seq<char>),
    Comment(Seq<char>),
    Doctype(Seq<char>),
}

/// The view of an executable token.
pub open spec fn token_view(t: HtmlToken) -> TokenView {
    match t {
        HtmlToken::Tag { name, attrs, self_closing, end } => TokenView::Tag {
            name: name@,
            attrs: attrs.deep_view(),
            self_closing,
            end,
        },
        HtmlToken::Text(t) => TokenView::Text(t@),
        HtmlToken::Comment(c) => TokenView::Comment(c@),
        HtmlToken::Doctype(d) => TokenView::Doctype(d@),
    }
}

/// The views of a token sequence.
pub open spec fn token_views(ts: Seq<(HtmlToken, String)>) -> Seq<TokenView>
    decreases ts.len(),
{
    if ts.len() == 0 {
        Seq::empty()
    } else {
        token_views(ts.drop_last()).push(token_view(ts.last().0))
    }
}

/// The concatenation of the raw source extents of a token sequence.
pub open spec fn concat_raws(ts: Seq<(HtmlToken, String)>) -> Seq<char>
    decreases ts.len(),
{
    if ts.len() == 0 {
        Seq::empty()
    } else {
        concat_raws(ts.drop_last()) + ts.last().1@
    }
}

/// Whether the character can open a tag name.
pub open spec fn is_alpha_char(c: char) -> bool {
    ('a' <= c && c <= 'z') || ('A' <= c && c <= 'Z')
}

/// The first position at or after `i` holding `c`, else the length.
pub open spec fn find_from(s: Seq<char>, i: int, c: char) -> int
    decreases s.len() - i,
{
    if i >= s.len() {
        s.len() as int
    } else if s[i] == c {
        i
    } else {
        find_from(s, i + 1, c)
    }
}

/// The first position at or after `i` where a comment closes (`-->`
/// starts there), else the length.
pub open spec fn find_comment_close(s: Seq<char>, i: int) -> int
    decreases s.len() - i,
{
    if i + 2 >= s.len() {
        s.len() as int
    } else if s[i] == '-' && s[i + 1] == '-' && s[i + 2] == '>' {
        i
    } else {
        find_comment_close(s, i + 1)
    }
}

/// A found comment close sits fully inside the fragment.
proof fn lemma_comment_close_found(s: Seq<char>, i: int)
    ensures
        find_comment_close(s, i) < s.len() ==> i <= find_comment_close(s, i)
            && find_comment_close(s, i) + 2 < s.len(),
    decreases s.len() - i,
{
    if i + 2 < s.len() && !(s[i] == '-' && s[i + 1] == '-' && s[i + 2] == '>') {
        lemma_comment_close_found(s, i + 1);
    }
}

/// Where a tag name ends: at `>`, `/` or white space.
pub open spec fn scan_name_end(s: Seq<char>, i: int) -> int
    decreases s.len() - i,
{
    if i >= s.len() {
        s.len() as int
    } else if s[i] == '>' || s[i] == '/' || crate::text::is_ws(s[i]) {
        i
    } else {
        scan_name_end(s, i + 1)
    }
}

/// Where an attribute name ends: at `=`, `>`, `/` or white space.
pub open spec fn scan_attr_name_end(s: Seq<char>, i: int) -> int
    decreases s.len() - i,
{
    if i >= s.len() {
        s.len() as int
    } else if s[i] == '=' || s[i] == '>' || s[i] == '/' || crate::text::is_ws(s[i]) {
        i
    } else {
        scan_attr_name_end(s, i + 1)
    }
}

/// Where an unquoted attribute value ends: at `>` or white space.
pub open spec fn scan_unquoted_end(s: Seq<char>, i: int) -> int
    decreases s.len() - i,
{
    if i >= s.len() {
        s.len() as int
    } else if s[i] == '>' || crate::text::is_ws(s[i]) {
        i
    } else {
        scan_unquoted_end(s, i + 1)
    }
}

/// The attributes of a start tag from position `i` on: the attribute
/// list, whether the tag closes itself, and the position just past the
/// closing bracket (the length, for an unclosed tag). A valueless
/// attribute carries the empty value; an attribute with an empty name
/// (a stray `=`) is dropped.
pub open spec fn scan_attrs(s: Seq<char>, i: int) -> (
    Seq<(Seq<char>, Seq<char>)>,
    bool,
    int,
)
    decreases s.len() - i,
{
    if i >= s.len() {
        (Seq::empty(), false, s.len() as int)
    } else if s[i] == '>' {
        (Seq::empty(), false, i + 1)
    } else if s[i] == '/' {
        if i + 1 < s.len() && s[i + 1] == '>' {
            (Seq::empty(), true, i + 2)
        } else {
            scan_attrs(s, i + 1)
        }
    } else if crate::text::is_ws(s[i]) {
        scan_attrs(s, i + 1)
    } else {
        let ne = scan_attr_name_end(s, i);
        let aname = s.subrange(i, ne);
        let (avalue, vi) = if ne < s.len() && s[ne] == '=' {
            if ne + 1 < s.len() && (s[ne + 1] == '"' || s[ne + 1] == '\'') {
                let ve = find_from(s, ne + 2, s[ne + 1]);
                (
                    s.subrange(ne + 2, ve),
                    if ve < s.len() {
                        ve + 1
                    } else {
                        ve
                    },
                )
            } else {
                let ve = scan_unquoted_end(s, ne + 1);
                (s.subrange(ne + 1, ve), ve)
            }
        } else {
            (Seq::empty(), ne)
        };
        let vi2 = if vi < i + 1 {
            i + 1
        } else if vi > s.len() {
            s.len() as int
        } else {
            vi
        };
        let (rest, sc, end) = scan_attrs(s, vi2);
        if aname.len() > 0 {
            (seq![(aname, avalue)] + rest, sc, end)
        } else {
            (rest, sc, end)
        }
    }
}

/// The token starting at `pos` and the position just past it. A run of
/// text ends at the next opener; a lone opener, or an unclosed comment,
/// doctype or end tag, is plain text.
pub open spec fn next_token_at(s: Seq<char>, pos: int) -> (TokenView, int) {
    let len = s.len() as int;
    if pos < 0 || pos >= len {
        (TokenView::Text(Seq::empty()), len)
    } else if s[pos] != '<' {
        let e = find_from(s, pos, '<');
        (TokenView::Text(s.subrange(pos, e)), e)
    } else if pos + 1 >= len {
        (TokenView::Text(s.subrange(pos, pos + 1)), pos + 1)
    } else if s[pos + 1] == '!' {
        if pos + 3 < len && s[pos + 2] == '-' && s[pos + 3] == '-' {
            let cl = find_comment_close(s, pos + 4);
            if cl < len {
                (TokenView::Comment(s.subrange(pos + 4, cl)), cl + 3)
            } else {
                (TokenView::Text(s.subrange(pos, len)), len)
            }
        } else {
            let e = find_from(s, pos + 2, '>');
            if e < len {
                let inner = s.subrange(pos + 2, e);
                if crate::text::has_prefix(inner, "DOCTYPE "@) {
                    (TokenView::Doctype(s.subrange(pos + 10, e)), e + 1)
                } else {
                    (TokenView::Comment(inner), e + 1)
                }
            } else {
                (TokenView::Text(s.subrange(pos, len)), len)
            }
        }
    } else if s[pos + 1] == '/' {
        let e = find_from(s, pos + 2, '>');
        if e < len {
            (
                TokenView::Tag {
                    name: s.subrange(pos + 2, e),
                    attrs: Seq::empty(),
                    self_closing: false,
                    end: true,
                },
                e + 1,
            )
        } else {
            (TokenView::Text(s.subrange(pos, len)), len)
        }
    } else if is_alpha_char(s[pos + 1]) {
        let ne = scan_name_end(s, pos + 1);
        let (attrs, sc, end) = scan_attrs(s, ne);
        (
            TokenView::Tag { name: s.subrange(pos + 1, ne), attrs, self_closing: sc, end: false },
            end,
        )
    } else {
        (TokenView::Text(s.subrange(pos, pos + 1)), pos + 1)
    }
}

/// The tokens of the fragment from `pos` on.
pub open spec fn tokens_from(s: Seq<char>, pos: int) -> Seq<TokenView>
    decreases s.len() - pos,
{
    if pos < 0 || pos >= s.len() {
        Seq::empty()
    } else {
        let (t, p_raw) = next_token_at(s, pos);
        let p2 = if p_raw < pos + 1 {
            pos + 1
        } else if p_raw > s.len() {
            s.len() as int
        } else {
            p_raw
        };
        seq![t] + tokens_from(s, p2)
    }
}

/// The tokenization of a whole fragment.
pub open spec fn tokenize_spec(s: Seq<char>) -> Seq<TokenView> {
    tokens_from(s, 0)
}

/// The characters of `v` between `a` and `b`, as a string.
#[verifier::loop_isolation(false)]
fn take_sub(v: &Vec<char>, a: usize, b: usize) -> (r: String)
    requires
        a <= b <= v@.len(),
    ensures
        r@ == v@.subrange(a as int, b as int),
{
    let mut out: Vec<char> = Vec::new();
    let mut i: usize = a;
    while i < b
        invariant
            a <= i <= b,
            out@ == v@.subrange(a as int, i as int),
        decreases b - i,
    {
        out.push(v[i]);
        proof {
            assert(v@.subrange(a as int, i + 1 as int) =~= v@.subrange(a as int, i as int).push(
                v@[i as int],
            ));
        }
        i = i + 1;
    }
    crate::text::string_from_chars(&out)
}

/// Whether the character can open a tag name.
fn is_alpha(c: char) -> (r: bool)
    ensures
        r == is_alpha_char(c),
{
    ('a' <= c && c <= 'z') || ('A' <= c && c <= 'Z')
}

/// Find the first position at or after `i` holding `c`.
#[verifier::loop_isolation(false)]
fn exec_find_from(v: &Vec<char>, i: usize, c: char) -> (r: usize)
    requires
        i <= v@.len(),
    ensures
        r == find_from(v@, i as int, c),
        i <= r <= v@.len(),
{
    let n = v.len();
    let mut cur = i;
    while cur < n
        invariant
            i <= cur <= n,
            n == v@.len(),
            find_from(v@, i as int, c) == find_from(v@, cur as int, c),
        decreases n - cur,
    {
        if v[cur] == c {
            return cur;
        }
        cur = cur + 1;
    }
    assert(find_from(v@, cur as int, c) == n);
    n
}

/// Find the first comment close at or after `i`.
#[verifier::loop_isolation(false)]
fn exec_find_comment_close(v: &Vec<char>, i: usize) -> (r: usize)
    requires
        i <= v@.len(),
    ensures
        r == find_comment_close(v@, i as int),
        i <= r <= v@.len(),
{
    let n = v.len();
    let mut cur = i;
    while n - cur > 2
        invariant
            i <= cur,
            cur <= n,
            n == v@.len(),
            find_comment_close(v@, i as int) == find_comment_close(v@, cur as int),
        decreases n - cur,
    {
        if v[cur] == '-' && v[cur + 1] == '-' && v[cur + 2] == '>' {
            return cur;
        }
        cur = cur + 1;
    }
    assert(find_comment_close(v@, cur as int) == n);
    n
}

/// Find where the tag name ends.
#[verifier::loop_isolation(false)]
fn exec_scan_name_end(v: &Vec<char>, i: usize) -> (r: usize)
    requires
        i <= v@.len(),
    ensures
        r == scan_name_end(v@, i as int),
        i <= r <= v@.len(),
{
    let n = v.len();
    let mut cur = i;
    while cur < n
        invariant
            i <= cur <= n,
            n == v@.len(),
            scan_name_end(v@, i as int) == scan_name_end(v@, cur as int),
        decreases n - cur,
    {
        if v[cur] == '>' || v[cur] == '/' || is_ws_byte(v[cur]) {
            return cur;
        }
        cur = cur + 1;
    }
    assert(scan_name_end(v@, cur as int) == n);
    n
}

/// Find where an attribute name ends.
#[verifier::loop_isolation(false)]
fn exec_scan_attr_name_end(v: &Vec<char>, i: usize) -> (r: usize)
    requires
        i <= v@.len(),
    ensures
        r == scan_attr_name_end(v@, i as int),
        i <= r <= v@.len(),
{
    let n = v.len();
    let mut cur = i;
    while cur < n
        invariant
            i <= cur <= n,
            n == v@.len(),
            scan_attr_name_end(v@, i as int) == scan_attr_name_end(v@, cur as int),
        decreases n - cur,
    {
        if v[cur] == '=' || v[cur] == '>' || v[cur] == '/' || is_ws_byte(v[cur]) {
            return cur;
        }
        cur = cur + 1;
    }
    assert(scan_attr_name_end(v@, cur as int) == n);
    n
}

/// Find where an unquoted attribute value ends.
#[verifier::loop_isolation(false)]
fn exec_scan_unquoted_end(v: &Vec<char>, i: usize) -> (r: usize)
    requires
        i <= v@.len(),
    ensures
        r == scan_unquoted_end(v@, i as int),
        i <= r <= v@.len(),
{
    let n = v.len();
    let mut cur = i;
    while cur < n
        invariant
            i <= cur <= n,
            n == v@.len(),
            scan_unquoted_end(v@, i as int) == scan_unquoted_end(v@, cur as int),
        decreases n - cur,
    {
        if v[cur] == '>' || is_ws_byte(v[cur]) {
            return cur;
        }
        cur = cur + 1;
    }
    assert(scan_unquoted_end(v@, cur as int) == n);
    n
}

/// Read a start tag's attributes from position `i` (see [`scan_attrs`]).
#[verifier::loop_isolation(false)]
#[verifier::rlimit(100)]
#[verifier::spinoff_prover]
fn exec_scan_attrs(v: &Vec<char>, i: usize) -> (r: (Vec<(String, String)>, bool, usize))
    requires
        i <= v@.len(),
    ensures
        (r.0.deep_view(), r.1, r.2 as int) == scan_attrs(v@, i as int),
        i <= r.2 <= v@.len(),
    decreases v@.len() - i,
{
    let n = v.len();
    if i >= n {
        let empty_attrs: Vec<(String, String)> = Vec::new();
        proof {
            assert(empty_attrs.deep_view() =~= Seq::<(Seq<char>, Seq<char>)>::empty());
        }
        (empty_attrs, false, n)
    } else if v[i] == '>' {
        let empty_attrs: Vec<(String, String)> = Vec::new();
        proof {
            assert(empty_attrs.deep_view() =~= Seq::<(Seq<char>, Seq<char>)>::empty());
        }
        (empty_attrs, false, i + 1)
    } else if v[i] == '/' {
        if i + 1 < n && v[i + 1] == '>' {
            let empty_attrs: Vec<(String, String)> = Vec::new();
            proof {
                assert(empty_attrs.deep_view() =~= Seq::<(Seq<char>, Seq<char>)>::empty());
            }
            (empty_attrs, true, i + 2)
        } else {
            exec_scan_attrs(v, i + 1)
        }
    } else if is_ws_byte(v[i]) {
        exec_scan_attrs(v, i + 1)
    } else {
        let ne = exec_scan_attr_name_end(v, i);
        let aname = take_sub(v, i, ne);
        let mut avalue = String::new();
        let mut vi: usize = ne;
        if ne < n && v[ne] == '=' {
            if ne + 1 < n && (v[ne + 1] == '"' || v[ne + 1] == '\'') {
                let ve = exec_find_from(v, ne + 2, v[ne + 1]);
                avalue = take_sub(v, ne + 2, ve);
                vi = if ve < n {
                    ve + 1
                } else {
                    ve
                };
            } else {
                let ve = exec_scan_unquoted_end(v, ne + 1);
                avalue = take_sub(v, ne + 1, ve);
                vi = ve;
            }
        }
        let vi2 = if vi < i + 1 {
            i + 1
        } else {
            vi
        };
        let (mut rest, sc, end) = exec_scan_attrs(v, vi2);
        if aname.as_str().unicode_len() > 0 {
            let ghost rest0 = rest.deep_view();
            rest.insert(0, (aname, avalue));
            proof {
                crate::html::lemma_dv_attrs(rest);
                assert(rest.deep_view() =~= seq![(v@.subrange(i as int, ne as int), avalue@)]
                    + rest0);
            }
            (rest, sc, end)
        } else {
            (rest, sc, end)
        }
    }
}

/// Tokenize an HTML fragment. The token sequence is pinned by
/// [`tokenize_spec`]; the raw extents concatenate back to the input, and
/// a text token's content is exactly its raw extent.
#[verifier::loop_isolation(false)]
#[verifier::rlimit(100)]
#[verifier::spinoff_prover]
pub fn tokenize(s: &str) -> (r: Vec<(HtmlToken, String)>)
    ensures
        token_views(r@) == tokenize_spec(s@),
        concat_raws(r@) == s@,
        forall|i: int|
            0 <= i < r@.len() ==> ((#[trigger] r@[i]).0 matches HtmlToken::Text(t) ==> t@
                == r@[i].1@),
{
    let v = crate::text::chars_vec(s);
    let n = v.len();
    let mut out: Vec<(HtmlToken, String)> = Vec::new();
    let mut pos: usize = 0;
    proof {
        assert(token_views(out@) =~= Seq::<TokenView>::empty());
        assert(Seq::<TokenView>::empty() + tokens_from(s@, 0) =~= tokens_from(s@, 0));
    }
    while pos < n
        invariant
            0 <= pos <= n,
            n == v@.len(),
            v@ == s@,
            tokenize_spec(s@) == token_views(out@) + tokens_from(s@, pos as int),
            concat_raws(out@) == s@.subrange(0, pos as int),
            forall|i: int|
                0 <= i < out@.len() ==> ((#[trigger] out@[i]).0 matches HtmlToken::Text(t) ==> t@
                    == out@[i].1@),
        decreases n - pos,
    {
        let ghost out0 = out@;
        let ghost (spec_tok, spec_next) = next_token_at(s@, pos as int);
        let start = pos;
        if v[pos] != '<' {
            // a run of text up to the next opener
            let e = exec_find_from(&v, pos + 1, '<');
            proof {
                assert(find_from(v@, pos as int, '<') == find_from(v@, pos + 1 as int, '<'));
            }
            assert(e > pos);
            let raw = take_sub(&v, start, e);
            out.push((HtmlToken::Text(raw.clone()), raw));
            pos = e;
        } else if pos + 1 >= n {
            // a lone opener at the end is plain text
            let raw = take_sub(&v, start, pos + 1);
            out.push((HtmlToken::Text(raw.clone()), raw));
            pos = pos + 1;
        } else if v[pos + 1] == '!' {
            if n - pos > 3 && v[pos + 2] == '-' && v[pos + 3] == '-' {
                // comment: scan for the closing marker
                let close = exec_find_comment_close(&v, pos + 4);
                proof {
                    lemma_comment_close_found(v@, pos + 4 as int);
                }
                if close < n {
                    let content = take_sub(&v, pos + 4, close);
                    let raw = take_sub(&v, start, close + 3);
                    out.push((HtmlToken::Comment(content), raw));
                    pos = close + 3;
                } else {
                    let raw = take_sub(&v, start, n);
                    out.push((HtmlToken::Text(raw.clone()), raw));
                    pos = n;
                }
            } else {
                // doctype or bogus markup: scan to the closing bracket
                let e = exec_find_from(&v, pos + 2, '>');
                if e < n {
                    let inner = take_sub(&v, pos + 2, e);
                    let raw = take_sub(&v, start, e + 1);
                    if crate::text::starts_with_str(inner.as_str(), "DOCTYPE ") {
                        proof {
                            reveal_strlit("DOCTYPE ");
                            assert(inner@.len() >= 8);
                        }
                        let name = take_sub(&v, pos + 10, e);
                        out.push((HtmlToken::Doctype(name), raw));
                    } else {
                        out.push((HtmlToken::Comment(inner), raw));
                    }
                    pos = e + 1;
                } else {
                    let raw = take_sub(&v, start, n);
                    out.push((HtmlToken::Text(raw.clone()), raw));
                    pos = n;
                }
            }
        } else if v[pos + 1] == '/' {
            // end tag
            let e = exec_find_from(&v, pos + 2, '>');
            if e < n {
                let name = take_sub(&v, pos + 2, e);
                let raw = take_sub(&v, start, e + 1);
                let empty_attrs: Vec<(String, String)> = Vec::new();
                proof {
                    assert(empty_attrs.deep_view() =~= Seq::<(Seq<char>, Seq<char>)>::empty());
                }
                out.push((
                    HtmlToken::Tag { name, attrs: empty_attrs, self_closing: false, end: true },
                    raw,
                ));
                pos = e + 1;
            } else {
                let raw = take_sub(&v, start, n);
                out.push((HtmlToken::Text(raw.clone()), raw));
                pos = n;
            }
        } else if is_alpha(v[pos + 1]) {
            // start tag: name, attributes, optional self-closing slash
            let ne = exec_scan_name_end(&v, pos + 1);
            let name = take_sub(&v, pos + 1, ne);
            let (attrs, self_closing, end) = exec_scan_attrs(&v, ne);
            let raw = take_sub(&v, start, end);
            out.push((HtmlToken::Tag { name, attrs, self_closing, end: false }, raw));
            assert(end > pos);
            pos = end;
        } else {
            // a lone opener is plain text
            let raw = take_sub(&v, start, pos + 1);
            out.push((HtmlToken::Text(raw.clone()), raw));
            pos = pos + 1;
        }
        proof {
            assert(out@.drop_last() =~= out0);
            assert(token_view(out@.last().0) == spec_tok);
            assert(pos as int == if spec_next < start + 1 {
                start + 1
            } else if spec_next > s@.len() {
                s@.len() as int
            } else {
                spec_next
            });
            assert(tokens_from(s@, start as int) == seq![spec_tok] + tokens_from(
                s@,
                pos as int,
            ));
            assert(token_views(out@) =~= token_views(out0).push(spec_tok));
            assert(token_views(out0).push(spec_tok) + tokens_from(s@, pos as int)
                =~= token_views(out0) + (seq![spec_tok] + tokens_from(s@, pos as int)));
            assert(s@.subrange(0, pos as int) =~= s@.subrange(0, start as int) + s@.subrange(
                start as int,
                pos as int,
            ));
        }
    }
    proof {
        assert(s@.subrange(0, n as int) =~= s@);
        assert(tokens_from(s@, n as int) =~= Seq::<TokenView>::empty());
        assert(token_views(out@) + tokens_from(s@, n as int) =~= token_views(out@));
    }
    out
}

/// White space as the tokenizer sees it.
fn is_ws_byte(c: char) -> (r: bool)
    ensures
        r == crate::text::is_ws(c),
{
    crate::text::is_ws_char(c)
}

/// The segmentation of a text into word pieces.
pub uninterp spec fn segments_of(s: Seq<char>) -> Seq<Seq<char>>;

/// Relies on charabia's segmenter: the segments depend on the characters
/// alone.
#[verifier::external_body]
pub(crate) fn segment_text(s: &str) -> (r: Vec<String>)
    ensures
        r.deep_view() == segments_of(s@),
{
    charabia::Segment::segment_str(&s).map(|seg: &str| seg.to_owned()).collect()
}

/// The settings one locale's fragment rewriting runs under.
pub struct RewriteContext {
    pub locale_key: String,
    pub default_language: String,
    pub locales: Vec<String>,
    pub tag: String,
    pub should_wrap: bool,
    pub wrap_class: Option<String>,
    pub assets: Vec<String>,
}

/// An asset reference substituted for a locale: the localized file's
/// absolute path when it exists, else the reference as it stands.
pub open spec fn asset_substituted(
    val: Seq<char>,
    locale: Seq<char>,
    assets: Seq<Seq<char>>,
) -> Seq<char> {
    match translated_asset_name(val, locale) {
        Some(c) => if contains_str(assets, c) {
            "/"@ + c
        } else {
            val
        },
        None => val,
    }
}

/// One srcset candidate substituted: a candidate with a source and a
/// width whose localized file exists becomes `/<localized> <width>`, any
/// other candidate is kept as written.
pub open spec fn srcset_part_rewritten(
    part: Seq<char>,
    locale: Seq<char>,
    assets: Seq<Seq<char>>,
) -> Seq<char> {
    let sub = split_on(trimmed(part), ' ');
    if sub.len() >= 2 {
        match translated_asset_name(sub[0], locale) {
            Some(c) => if contains_str(assets, c) {
                "/"@ + c + " "@ + sub[1]
            } else {
                part
            },
            None => part,
        }
    } else {
        part
    }
}

/// A whole srcset attribute substituted candidate by candidate.
pub open spec fn srcset_rewritten(
    parts: Seq<Seq<char>>,
    locale: Seq<char>,
    assets: Seq<Seq<char>>,
) -> Seq<char>
    decreases parts.len(),
{
    if parts.len() == 0 {
        Seq::empty()
    } else if parts.len() == 1 {
        srcset_part_rewritten(parts[0], locale, assets)
    } else {
        srcset_rewritten(parts.drop_last(), locale, assets) + ","@ + srcset_part_rewritten(
            parts.last(),
            locale,
            assets,
        )
    }
}

/// Whether a link already sits under a known locale prefix.
pub open spec fn locale_prefixed(
    val: Seq<char>,
    locales: Seq<Seq<char>>,
    default_language: Seq<char>,
) -> bool {
    has_prefix(val, "/"@ + default_language) || exists|i: int|
        0 <= i < locales.len() && has_prefix(val, "/"@ + locales[i])
}

/// Whether a link target reads as a page: its extension (after the last
/// dot anywhere in the reference) is `html` or `htm`, or it has none.
pub open spec fn is_page_ref(val: Seq<char>) -> bool {
    match rfind(val, '.') {
        None => true,
        Some(d) => val.skip(d + 1) == "html"@ || val.skip(d + 1) == "htm"@,
    }
}

/// A same-origin page link prefixed with the locale, unless it is not
/// site-absolute, not a page, or already locale-prefixed.
pub open spec fn anchor_rewritten(
    val: Seq<char>,
    locale: Seq<char>,
    locales: Seq<Seq<char>>,
    default_language: Seq<char>,
) -> Seq<char> {
    if !has_prefix(val, "/"@) || !is_page_ref(val) || locale_prefixed(
        val,
        locales,
        default_language,
    ) {
        val
    } else {
        "/"@ + locale + val
    }
}

/// Whether the attribute list carries a `download` attribute.
pub open spec fn has_download(attrs: Seq<(Seq<char>, Seq<char>)>) -> bool {
    exists|i: int| 0 <= i < attrs.len() && attrs[i].0 == "download"@
}

/// What one attribute's value becomes inside a rewritten tag.
pub open spec fn rendered_attr_value(
    tagname: Seq<char>,
    aname: Seq<char>,
    value: Seq<char>,
    download: bool,
    custom_asset: Option<Seq<char>>,
    ctx: RewriteContext,
) -> Seq<char> {
    if custom_asset matches Some(ca) && aname == ca {
        asset_substituted(value, ctx.locale_key@, ctx.assets.deep_view())
    } else if (tagname == "img"@ || tagname == "video"@ || tagname == "audio"@ || tagname
        == "source"@) && aname == "src"@ {
        asset_substituted(value, ctx.locale_key@, ctx.assets.deep_view())
    } else if tagname == "a"@ && aname == "href"@ && download {
        asset_substituted(value, ctx.locale_key@, ctx.assets.deep_view())
    } else if tagname == "a"@ && aname == "href"@ && !download {
        anchor_rewritten(
            value,
            ctx.locale_key@,
            ctx.locales.deep_view(),
            ctx.default_language@,
        )
    } else if tagname == "img"@ && aname == "srcset"@ {
        srcset_rewritten(split_on(value, ','), ctx.locale_key@, ctx.assets.deep_view())
    } else {
        value
    }
}

/// The text of a wrapped segment sequence: white-space segments pass
/// through, every other segment is wrapped in an inline span carrying the
/// configured class or a no-wrap style.
pub open spec fn wrap_fold(segs: Seq<Seq<char>>, class: Option<Seq<char>>) -> Seq<char>
    decreases segs.len(),
{
    if segs.len() == 0 {
        Seq::empty()
    } else {
        wrap_fold(segs.drop_last(), class) + (if trimmed(segs.last()).len() == 0 {
            segs.last()
        } else {
            match class {
                Some(c) => "<span class=\""@ + c + "\">"@ + segs.last() + "</span>"@,
                None => "<span style=\"white-space: nowrap;\">"@ + segs.last() + "</span>"@,
            }
        })
    }
}

/// What one token contributes to the rewritten fragment.
pub open spec fn render_view(tv: TokenView, ctx: RewriteContext) -> Seq<char> {
    match tv {
        TokenView::Tag { name, attrs, self_closing, end } => {
            "<"@ + (if end {
                "/"@
            } else {
                Seq::empty()
            }) + name + frag_attrs(
                name,
                attrs,
                has_download(attrs),
                lookup(attrs, ctx.tag@ + "-asset-attrs"@),
                ctx,
            ) + (if self_closing {
                "/>"@
            } else {
                ">"@
            })
        },
        TokenView::Text(t) => if ctx.should_wrap {
            wrap_fold(segments_of(t), ctx.wrap_class.deep_view())
        } else {
            t
        },
        TokenView::Comment(c) => "<!--"@ + c + "-->"@,
        TokenView::Doctype(d) => "<!DOCTYPE "@ + d + ">"@,
    }
}

/// What one executable token contributes to the rewritten fragment.
pub open spec fn render_token(tok: HtmlToken, ctx: RewriteContext) -> Seq<char> {
    render_view(token_view(tok), ctx)
}

/// The rendering of a token-view sequence.
pub open spec fn render_views(tvs: Seq<TokenView>, ctx: RewriteContext) -> Seq<char>
    decreases tvs.len(),
{
    if tvs.len() == 0 {
        Seq::empty()
    } else {
        render_views(tvs.drop_last(), ctx) + render_view(tvs.last(), ctx)
    }
}

/// The whole rewritten fragment a translated markup value becomes: its
/// tokenization, rendered token by token.
pub open spec fn rewritten_fragment(s: Seq<char>, ctx: RewriteContext) -> Seq<char> {
    render_views(tokenize_spec(s), ctx)
}

/// The attribute part of a rewritten tag, attribute by attribute.
pub open spec fn frag_attrs(
    tagname: Seq<char>,
    attrs: Seq<(Seq<char>, Seq<char>)>,
    download: bool,
    custom_asset: Option<Seq<char>>,
    ctx: RewriteContext,
) -> Seq<char>
    decreases attrs.len(),
{
    if attrs.len() == 0 {
        Seq::empty()
    } else {
        frag_attrs(tagname, attrs.drop_last(), download, custom_asset, ctx) + " "@
            + attrs.last().0 + (if attrs.last().1.len() == 0 {
            Seq::empty()
        } else {
            "=\""@ + rendered_attr_value(
                tagname,
                attrs.last().0,
                attrs.last().1,
                download,
                custom_asset,
                ctx,
            ) + "\""@
        })
    }
}

/// Substitute an asset reference for the context's locale.
pub(crate) fn exec_asset_substituted(val: &str, ctx: &RewriteContext) -> (r: String)
    ensures
        r@ == asset_substituted(val@, ctx.locale_key@, ctx.assets.deep_view()),
{
    match get_translated_asset(val, ctx.locale_key.as_str(), &ctx.assets) {
        Some(c) => {
            let mut out = String::new();
            out.append("/");
            out.append(c.as_str());
            out
        },
        None => val.to_owned(),
    }
}

/// Whether the link already sits under a known locale prefix.
#[verifier::loop_isolation(false)]
pub(crate) fn exec_locale_prefixed(val: &str, ctx: &RewriteContext) -> (r: bool)
    ensures
        r == locale_prefixed(val@, ctx.locales.deep_view(), ctx.default_language@),
{
    proof {
        lemma_dv_strings(ctx.locales);
    }
    let mut probe = String::new();
    probe.append("/");
    probe.append(ctx.default_language.as_str());
    if crate::text::starts_with_str(val, probe.as_str()) {
        return true;
    }
    let n = ctx.locales.len();
    let mut i: usize = 0;
    while i < n
        invariant
            0 <= i <= n,
            n == ctx.locales@.len(),
            forall|j: int|
                0 <= j < i ==> !has_prefix(val@, "/"@ + ctx.locales.deep_view()[j]),
        decreases n - i,
    {
        let mut p = String::new();
        p.append("/");
        p.append(ctx.locales[i].as_str());
        if crate::text::starts_with_str(val, p.as_str()) {
            assert(locale_prefixed(val@, ctx.locales.deep_view(), ctx.default_language@)) by {
                assert(has_prefix(val@, "/"@ + ctx.locales.deep_view()[i as int]));
            }
            return true;
        }
        i = i + 1;
    }
    false
}

/// Whether the link target reads as a page.
fn exec_is_page_ref(val: &str) -> (r: bool)
    ensures
        r == is_page_ref(val@),
{
    let v = crate::text::chars_vec(val);
    let n = v.len();
    match crate::assets::rfind_char(&v, '.') {
        None => true,
        Some(d) => {
            let ext = take_sub(&v, d + 1, n);
            proof {
                assert(v@.subrange(d + 1 as int, v@.len() as int) =~= val@.skip(d + 1));
            }
            crate::text::str_eq(ext.as_str(), "html") || crate::text::str_eq(ext.as_str(), "htm")
        },
    }
}

/// Rewrite a same-origin page link for the context's locale.
fn exec_anchor_rewritten(val: &str, ctx: &RewriteContext) -> (r: String)
    ensures
        r@ == anchor_rewritten(
            val@,
            ctx.locale_key@,
            ctx.locales.deep_view(),
            ctx.default_language@,
        ),
{
    if !crate::text::starts_with_str(val, "/") || !exec_is_page_ref(val) || exec_locale_prefixed(
        val,
        ctx,
    ) {
        val.to_owned()
    } else {
        let mut out = String::new();
        out.append("/");
        out.append(ctx.locale_key.as_str());
        out.append(val);
        out
    }
}

/// Rewrite one srcset candidate.
fn exec_srcset_part(part: &str, ctx: &RewriteContext) -> (r: String)
    ensures
        r@ == srcset_part_rewritten(part@, ctx.locale_key@, ctx.assets.deep_view()),
{
    let t = crate::text::trim_str(part);
    let sub = crate::text::split_char(t.as_str(), ' ');
    proof {
        lemma_dv_strings(sub);
    }
    if sub.len() >= 2 {
        match get_translated_asset(sub[0].as_str(), ctx.locale_key.as_str(), &ctx.assets) {
            Some(c) => {
                let mut out = String::new();
                out.append("/");
                out.append(c.as_str());
                out.append(" ");
                out.append(sub[1].as_str());
                out
            },
            None => part.to_owned(),
        }
    } else {
        part.to_owned()
    }
}

/// Rewrite a whole srcset attribute.
#[verifier::loop_isolation(false)]
fn exec_srcset(val: &str, ctx: &RewriteContext) -> (r: String)
    ensures
        r@ == srcset_rewritten(split_on(val@, ','), ctx.locale_key@, ctx.assets.deep_view()),
{
    let parts = crate::text::split_char(val, ',');
    proof {
        lemma_dv_strings(parts);
        crate::text::lemma_split_on_len(val@, ',');
    }
    let ghost pdv = parts.deep_view();
    let mut out = String::new();
    let n = parts.len();
    let mut i: usize = 0;
    while i < n
        invariant
            0 <= i <= n,
            n == parts@.len(),
            n >= 1,
            out@ == srcset_rewritten(
                pdv.subrange(0, i as int),
                ctx.locale_key@,
                ctx.assets.deep_view(),
            ),
        decreases n - i,
    {
        if i > 0 {
            out.append(",");
        }
        let piece = exec_srcset_part(parts[i].as_str(), ctx);
        out.append(piece.as_str());
        proof {
            assert(pdv.subrange(0, i + 1 as int).drop_last() =~= pdv.subrange(0, i as int));
            assert(pdv.subrange(0, i + 1 as int).last() == pdv[i as int]);
        }
        i = i + 1;
    }
    proof {
        assert(pdv.subrange(0, n as int) =~= pdv);
    }
    out
}

/// Wrap the plain-text segments of `t` in inline spans.
#[verifier::loop_isolation(false)]
pub fn wrap_text(t: &str, class: &Option<String>) -> (r: String)
    ensures
        r@ == wrap_fold(segments_of(t@), class.deep_view()),
{
    let segs = segment_text(t);
    proof {
        lemma_dv_strings(segs);
    }
    let ghost sdv = segs.deep_view();
    let mut out = String::new();
    let n = segs.len();
    let mut i: usize = 0;
    while i < n
        invariant
            0 <= i <= n,
            n == segs@.len(),
            out@ == wrap_fold(sdv.subrange(0, i as int), class.deep_view()),
        decreases n - i,
    {
        let seg = &segs[i];
        let tr = crate::text::trim_str(seg.as_str());
        if tr.as_str().unicode_len() == 0 {
            out.append(seg.as_str());
        } else {
            match class {
                Some(c) => {
                    out.append("<span class=\"");
                    out.append(c.as_str());
                    out.append("\">");
                    out.append(seg.as_str());
                    out.append("</span>");
                },
                None => {
                    out.append("<span style=\"white-space: nowrap;\">");
                    out.append(seg.as_str());
                    out.append("</span>");
                },
            }
        }
        proof {
            assert(sdv.subrange(0, i + 1 as int).drop_last() =~= sdv.subrange(0, i as int));
            assert(sdv.subrange(0, i + 1 as int).last() == sdv[i as int]);
        }
        i = i + 1;
    }
    proof {
        assert(sdv.subrange(0, n as int) =~= sdv);
    }
    out
}

/// Whether the attribute list carries a `download` attribute.
#[verifier::loop_isolation(false)]
fn exec_has_download(attrs: &Vec<(String, String)>) -> (r: bool)
    ensures
        r == has_download(attrs.deep_view()),
{
    proof {
        crate::html::lemma_dv_attrs(*attrs);
    }
    let n = attrs.len();
    let mut i: usize = 0;
    while i < n
        invariant
            0 <= i <= n,
            n == attrs@.len(),
            forall|j: int| 0 <= j < i ==> attrs.deep_view()[j].0 != "download"@,
        decreases n - i,
    {
        if crate::text::str_eq(attrs[i].0.as_str(), "download") {
            assert(has_download(attrs.deep_view())) by {
                assert(attrs.deep_view()[i as int].0 == "download"@);
            }
            return true;
        }
        i = i + 1;
    }
    false
}

/// The value one attribute takes inside a rewritten tag.
fn rewrite_attr_value(
    name: &str,
    aname: &str,
    value: &str,
    download: bool,
    custom_asset: &Option<String>,
    ctx: &RewriteContext,
) -> (r: String)
    ensures
        r@ == rendered_attr_value(
            name@,
            aname@,
            value@,
            download,
            custom_asset.deep_view(),
            *ctx,
        ),
{
    let is_custom = match custom_asset {
        Some(ca) => crate::text::str_eq(aname, ca.as_str()),
        None => false,
    };
    if is_custom {
        exec_asset_substituted(value, ctx)
    } else if (crate::text::str_eq(name, "img") || crate::text::str_eq(name, "video")
        || crate::text::str_eq(name, "audio") || crate::text::str_eq(name, "source"))
        && crate::text::str_eq(aname, "src") {
        exec_asset_substituted(value, ctx)
    } else if crate::text::str_eq(name, "a") && crate::text::str_eq(aname, "href") && download {
        exec_asset_substituted(value, ctx)
    } else if crate::text::str_eq(name, "a") && crate::text::str_eq(aname, "href") && !download {
        exec_anchor_rewritten(value, ctx)
    } else if crate::text::str_eq(name, "img") && crate::text::str_eq(aname, "srcset") {
        exec_srcset(value, ctx)
    } else {
        value.to_owned()
    }
}

/// The streaming rewriter for translated rich-text fragments: feeds on
/// tokens and accumulates the rewritten markup.
pub struct TranslationRewriter<'a> {
    pub result: String,
    pub ctx: &'a RewriteContext,
}

impl<'a> TranslationRewriter<'a> {
    /// The markup accumulated so far.
    pub open spec fn result_view(self) -> Seq<char> {
        self.result@
    }

    /// A rewriter that has emitted nothing yet.
    pub fn new(ctx: &'a RewriteContext) -> (r: TranslationRewriter<'a>)
        ensures
            r.result_view() == Seq::<char>::empty(),
            r.ctx == ctx,
    {
        TranslationRewriter { result: String::new(), ctx }
    }

    /// The accumulated markup.
    pub fn finish(self) -> (r: String)
        ensures
            r@ == self.result_view(),
    {
        self.result
    }

    /// Emit one token: exactly [`render_token`] is appended.
    pub fn process_token(&mut self, token: &HtmlToken)
        ensures
            final(self).result_view() == old(self).result_view() + render_token(
                *token,
                *old(self).ctx,
            ),
            final(self).ctx == old(self).ctx,
    {
        match token {
            HtmlToken::Text(t) => {
                if self.ctx.should_wrap {
                    let wrapped = wrap_text(t.as_str(), &self.ctx.wrap_class);
                    self.result.append(wrapped.as_str());
                } else {
                    self.result.append(t.as_str());
                }
            },
            HtmlToken::Comment(c) => {
                self.result.append("<!--");
                self.result.append(c.as_str());
                self.result.append("-->");
            },
            HtmlToken::Doctype(d) => {
                self.result.append("<!DOCTYPE ");
                self.result.append(d.as_str());
                self.result.append(">");
            },
            HtmlToken::Tag { .. } => {
                let rendered = render_tag_token(token, self.ctx);
                self.result.append(rendered.as_str());
            },
        }
    }
}

/// Render one tag token under the context.
#[verifier::loop_isolation(false)]
#[verifier::rlimit(100)]
#[verifier::spinoff_prover]
fn render_tag_token(token: &HtmlToken, ctx: &RewriteContext) -> (r: String)
    requires
        token matches HtmlToken::Tag { .. },
    ensures
        r@ == render_token(*token, *ctx),
{
    match token {
        HtmlToken::Tag { name, attrs, self_closing, end } => {
            let ghost a = attrs.deep_view();
            proof {
                crate::html::lemma_dv_attrs(*attrs);
            }
            let mut out = String::new();
            out.append("<");
            if *end {
                out.append("/");
            }
            out.append(name.as_str());
            let download = exec_has_download(attrs);
            let mut asset_attr_name = ctx.tag.clone();
            asset_attr_name.append("-asset-attrs");
            let custom_asset: Option<String> = match get_attr(attrs, asset_attr_name.as_str()) {
                Some(v) => Some(v.clone()),
                None => None,
            };
            let ghost custom_v = lookup(a, ctx.tag@ + "-asset-attrs"@);
            let ghost mid0 = out@;
            let n = attrs.len();
            let mut i: usize = 0;
            while i < n
                invariant
                    0 <= i <= n,
                    n == attrs@.len(),
                    out@ == mid0 + frag_attrs(
                        name@,
                        a.subrange(0, i as int),
                        download,
                        custom_v,
                        *ctx,
                    ),
                    custom_asset.deep_view() == custom_v,
                decreases n - i,
            {
                out.append(" ");
                out.append(attrs[i].0.as_str());
                if attrs[i].1.as_str().unicode_len() > 0 {
                    out.append("=\"");
                    let rewritten: String = rewrite_attr_value(
                        name.as_str(),
                        attrs[i].0.as_str(),
                        attrs[i].1.as_str(),
                        download,
                        &custom_asset,
                        ctx,
                    );
                    out.append(rewritten.as_str());
                    out.append("\"");
                }
                proof {
                    assert(a.subrange(0, i + 1 as int).drop_last() =~= a.subrange(0, i as int));
                    assert(a.subrange(0, i + 1 as int).last() == a[i as int]);
                }
                i = i + 1;
            }
            proof {
                assert(a.subrange(0, n as int) =~= a);
            }
            if *self_closing {
                out.append("/>");
            } else {
                out.append(">");
            }
            out
        },
        _ => String::new(),
    }
}

/// The rendering of a token sequence.
pub open spec fn render_tokens(ts: Seq<(HtmlToken, String)>, ctx: RewriteContext) -> Seq<char>
    decreases ts.len(),
{
    if ts.len() == 0 {
        Seq::empty()
    } else {
        render_tokens(ts.drop_last(), ctx) + render_token(ts.last().0, ctx)
    }
}

/// Token renderings agree with the view renderings.
proof fn lemma_render_tokens_views(ts: Seq<(HtmlToken, String)>, ctx: RewriteContext)
    ensures
        render_tokens(ts, ctx) == render_views(token_views(ts), ctx),
    decreases ts.len(),
{
    if ts.len() > 0 {
        lemma_render_tokens_views(ts.drop_last(), ctx);
        assert(token_views(ts).drop_last() =~= token_views(ts.drop_last()));
        assert(token_views(ts).last() == token_view(ts.last().0));
    }
}

/// Rewrite a translated markup fragment token by token: the result is
/// exactly the fragment's tokenization, rendered under the context.
#[verifier::loop_isolation(false)]
pub fn rewrite_fragment(content: &str, ctx: &RewriteContext) -> (r: String)
    ensures
        r@ == rewritten_fragment(content@, *ctx),
{
    let tokens = tokenize(content);
    let mut rewriter = TranslationRewriter::new(ctx);
    let n = tokens.len();
    let mut i: usize = 0;
    while i < n
        invariant
            0 <= i <= n,
            n == tokens@.len(),
            rewriter.result_view() == render_tokens(tokens@.subrange(0, i as int), *rewriter.ctx),
            rewriter.ctx == ctx,
        decreases n - i,
    {
        rewriter.process_token(&tokens[i].0);
        proof {
            assert(tokens@.subrange(0, i + 1 as int).drop_last() =~= tokens@.subrange(0, i as int));
            assert(tokens@.subrange(0, i + 1 as int).last() == tokens@[i as int]);
        }
        i = i + 1;
    }
    proof {
        assert(tokens@.subrange(0, n as int) =~= tokens@);
    }
    let r = rewriter.finish();
    proof {
        lemma_render_tokens_views(tokens@, *ctx);
    }
    r
}

} // verus!
