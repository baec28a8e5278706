//! Character-level text utilities. Strings cross into verified code as
//! `Vec<char>` (via [`chars_vec`]) and come back out through
//! [`string_from_chars`]; everything in between is ordinary sequence logic.

use vstd::prelude::*;
use vstd::std_specs::iter::IteratorSpec;
use vstd::string::StrSliceExecFns;

verus! {

broadcast use vstd::string::group_string_axioms;

/// Relies on `String::push`: appends exactly the given character to the end
/// of the string.
pub assume_specification[ std::string::String::push ](s: &mut String, c: char)
    ensures
        final(s)@ == old(s)@.push(c),
;

/// The characters of `s`, as a vector.
pub fn chars_vec(s: &str) -> (v: Vec<char>)
    ensures
        v@ == s@,
{
    let mut it = s.chars();
    let mut v: Vec<char> = Vec::new();
    loop
        invariant
            v@ + it.remaining() == s@,
            it.decrease() is Some,
        ensures
            v@ == s@,
        decreases it.decrease()->0,
    {
        match it.next() {
            Some(c) => v.push(c),
            None => {
                assert(it.remaining().len() == 0);
                assert(v@ + it.remaining() =~= v@);
                break ;
            },
        }
    }
    v
}

/// The string spelling out the given characters.
pub fn string_from_chars(v: &Vec<char>) -> (s: String)
    ensures
        s@ == v@,
{
    let mut s = String::new();
    let mut i: usize = 0;
    while i < v.len()
        invariant
            0 <= i <= v.len(),
            s@ == v@.subrange(0, i as int),
        decreases v.len() - i,
    {
        s.push(v[i]);
        i = i + 1;
    }
    assert(v@.subrange(0, v.len() as int) =~= v@);
    s
}

/// String equality, decided on the UTF-8 bytes: two strings spell the same
/// characters exactly when their encodings agree.
pub fn str_eq(a: &str, b: &str) -> (r: bool)
    ensures
        r == (a@ == b@),
{
    proof {
        broadcast use vstd::utf8::group_utf8_lib;
    }
    let av = a.as_bytes_vec();
    let bv = b.as_bytes_vec();
    if av.len() != bv.len() {
        return false;
    }
    let mut i: usize = 0;
    while i < av.len()
        invariant
            av@.len() == bv@.len(),
            0 <= i <= av@.len(),
            av@ == vstd::utf8::encode_utf8(a@),
            bv@ == vstd::utf8::encode_utf8(b@),
            forall|j: int| 0 <= j < i ==> av@[j] == bv@[j],
        decreases av@.len() - i,
    {
        if av[i] != bv[i] {
            return false;
        }
        i = i + 1;
    }
    proof {
        assert(av@ =~= bv@);
        vstd::utf8::encode_utf8_decode_utf8(a@);
        vstd::utf8::encode_utf8_decode_utf8(b@);
    }
    true
}

/// `s` with every occurrence of `from` replaced by `to`.
pub open spec fn replaced(s: Seq<char>, from: char, to: char) -> Seq<char> {
    s.map_values(|c: char| if c == from { to } else { c })
}

/// Replace every occurrence of one character by another.
pub fn replace_char(s: &str, from: char, to: char) -> (r: String)
    ensures
        r@ == replaced(s@, from, to),
{
    let v = chars_vec(s);
    let mut out: Vec<char> = Vec::new();
    let mut i: usize = 0;
    while i < v.len()
        invariant
            0 <= i <= v.len(),
            out@ == replaced(v@.subrange(0, i as int), from, to),
        decreases v.len() - i,
    {
        let c = v[i];
        if c == from {
            out.push(to);
        } else {
            out.push(c);
        }
        assert(v@.subrange(0, i + 1 as int) =~= v@.subrange(0, i as int).push(v@[i as int]));
        i = i + 1;
    }
    assert(v@.subrange(0, v.len() as int) =~= v@);
    string_from_chars(&out)
}

/// Bridges a string vector's deep view to plain indexing.
pub proof fn lemma_dv_strings(v: Vec<String>)
    ensures
        v.deep_view().len() == v@.len(),
        forall|j: int| 0 <= j < v@.len() ==> #[trigger] v.deep_view()[j] == v@[j]@,
{
}

/// The pieces of `s` between occurrences of the separator `c`: always at
/// least one piece, an empty string yielding one empty piece.
pub open spec fn split_on(s: Seq<char>, c: char) -> Seq<Seq<char>>
    decreases s.len(),
{
    if s.len() == 0 {
        seq![Seq::<char>::empty()]
    } else if s.last() == c {
        split_on(s.drop_last(), c).push(Seq::empty())
    } else {
        let p = split_on(s.drop_last(), c);
        p.update(p.len() - 1, p.last().push(s.last()))
    }
}

/// A split has at least one piece.
pub proof fn lemma_split_on_len(s: Seq<char>, c: char)
    ensures
        split_on(s, c).len() >= 1,
    decreases s.len(),
{
    if s.len() > 0 {
        lemma_split_on_len(s.drop_last(), c);
    }
}

/// Split a string on a separator character.
#[verifier::loop_isolation(false)]
pub fn split_char(s: &str, c: char) -> (r: Vec<String>)
    ensures
        r.deep_view() == split_on(s@, c),
{
    let v = chars_vec(s);
    let mut parts: Vec<String> = Vec::new();
    let mut cur = String::new();
    let n = v.len();
    let mut i: usize = 0;
    while i < n
        invariant
            0 <= i <= n,
            n == v@.len(),
            v@ == s@,
            parts.deep_view().push(cur@) == split_on(s@.subrange(0, i as int), c),
        decreases n - i,
    {
        let ch = v[i];
        proof {
            lemma_dv_strings(parts);
            assert(s@.subrange(0, i + 1 as int).drop_last() =~= s@.subrange(0, i as int));
            assert(s@.subrange(0, i + 1 as int).last() == s@[i as int]);
        }
        if ch == c {
            parts.push(cur);
            cur = String::new();
            proof {
                lemma_dv_strings(parts);
                assert(parts.deep_view().push(cur@) =~= split_on(s@.subrange(0, i + 1 as int), c));
            }
        } else {
            cur.push(ch);
            proof {
                let p = split_on(s@.subrange(0, i as int), c);
                lemma_split_on_len(s@.subrange(0, i as int), c);
                assert(split_on(s@.subrange(0, i + 1 as int), c) =~= p.update(
                    p.len() - 1,
                    p.last().push(s@[i as int]),
                ));
                assert(parts.deep_view().push(cur@) =~= split_on(s@.subrange(0, i + 1 as int), c));
            }
        }
        i = i + 1;
    }
    parts.push(cur);
    proof {
        lemma_dv_strings(parts);
        assert(s@.subrange(0, n as int) =~= s@);
        assert(parts.deep_view() =~= split_on(s@, c));
    }
    parts
}

/// Does `s` begin with `p`?
pub open spec fn has_prefix(s: Seq<char>, p: Seq<char>) -> bool {
    p.len() <= s.len() && s.subrange(0, p.len() as int) == p
}

/// Does `s` end with `p`?
pub open spec fn has_suffix(s: Seq<char>, p: Seq<char>) -> bool {
    p.len() <= s.len() && s.subrange(s.len() - p.len(), s.len() as int) == p
}

/// Whether `s` begins with `p`.
#[verifier::loop_isolation(false)]
pub fn starts_with_str(s: &str, p: &str) -> (r: bool)
    ensures
        r == has_prefix(s@, p@),
{
    let sv = chars_vec(s);
    let pv = chars_vec(p);
    if pv.len() > sv.len() {
        return false;
    }
    let mut i: usize = 0;
    while i < pv.len()
        invariant
            0 <= i <= pv@.len() <= sv@.len(),
            sv@ == s@,
            pv@ == p@,
            forall|j: int| 0 <= j < i ==> s@[j] == p@[j],
        decreases pv@.len() - i,
    {
        if sv[i] != pv[i] {
            assert(s@.subrange(0, p@.len() as int)[i as int] != p@[i as int]);
            return false;
        }
        i = i + 1;
    }
    proof {
        assert(s@.subrange(0, p@.len() as int) =~= p@);
    }
    true
}

/// Whether `s` ends with `p`.
#[verifier::loop_isolation(false)]
pub fn ends_with_str(s: &str, p: &str) -> (r: bool)
    ensures
        r == has_suffix(s@, p@),
{
    let sv = chars_vec(s);
    let pv = chars_vec(p);
    if pv.len() > sv.len() {
        return false;
    }
    let off = sv.len() - pv.len();
    let mut i: usize = 0;
    while i < pv.len()
        invariant
            0 <= i <= pv@.len() <= sv@.len(),
            off == sv@.len() - pv@.len(),
            sv@ == s@,
            pv@ == p@,
            forall|j: int| 0 <= j < i ==> s@[off + j] == p@[j],
        decreases pv@.len() - i,
    {
        if sv[off + i] != pv[i] {
            assert(s@.subrange(s@.len() - p@.len(), s@.len() as int)[i as int] != p@[i as int]);
            return false;
        }
        i = i + 1;
    }
    proof {
        assert(s@.subrange(s@.len() - p@.len(), s@.len() as int) =~= p@);
    }
    true
}

/// `s` with every trailing repetition of `p` removed.
pub open spec fn trimmed_end(s: Seq<char>, p: Seq<char>) -> Seq<char>
    decreases s.len(),
{
    if p.len() > 0 && has_suffix(s, p) {
        trimmed_end(s.subrange(0, s.len() - p.len()), p)
    } else {
        s
    }
}

/// Remove every trailing repetition of `p` from `s`.
pub fn trim_end_str(s: &str, p: &str) -> (r: String)
    ensures
        r@ == trimmed_end(s@, p@),
    decreases s@.len(),
{
    let pn = p.unicode_len();
    if pn > 0 && ends_with_str(s, p) {
        let sv = chars_vec(s);
        let mut head: Vec<char> = Vec::new();
        let keep = sv.len() - pn;
        let mut i: usize = 0;
        while i < keep
            invariant
                0 <= i <= keep <= sv@.len(),
                sv@ == s@,
                keep == s@.len() - p@.len(),
                head@ == s@.subrange(0, i as int),
            decreases keep - i,
        {
            head.push(sv[i]);
            proof {
                assert(s@.subrange(0, i + 1 as int) =~= s@.subrange(0, i as int).push(
                    s@[i as int],
                ));
            }
            i = i + 1;
        }
        let head_str = string_from_chars(&head);
        trim_end_str(head_str.as_str(), p)
    } else {
        s.to_owned()
    }
}

/// The Unicode white-space characters (the set `str::trim` removes).
pub open spec fn is_ws(c: char) -> bool {
    ||| c == '\u{9}'
    ||| c == '\u{A}'
    ||| c == '\u{B}'
    ||| c == '\u{C}'
    ||| c == '\u{D}'
    ||| c == ' '
    ||| c == '\u{85}'
    ||| c == '\u{A0}'
    ||| c == '\u{1680}'
    ||| c == '\u{2000}'
    ||| c == '\u{2001}'
    ||| c == '\u{2002}'
    ||| c == '\u{2003}'
    ||| c == '\u{2004}'
    ||| c == '\u{2005}'
    ||| c == '\u{2006}'
    ||| c == '\u{2007}'
    ||| c == '\u{2008}'
    ||| c == '\u{2009}'
    ||| c == '\u{200A}'
    ||| c == '\u{2028}'
    ||| c == '\u{2029}'
    ||| c == '\u{202F}'
    ||| c == '\u{205F}'
    ||| c == '\u{3000}'
}

/// Whether `c` is a white-space character.
pub fn is_ws_char(c: char) -> (r: bool)
    ensures
        r == is_ws(c),
{
    c == '\u{9}' || c == '\u{A}' || c == '\u{B}' || c == '\u{C}' || c == '\u{D}' || c == ' '
        || c == '\u{85}' || c == '\u{A0}' || c == '\u{1680}' || c == '\u{2000}' || c
        == '\u{2001}' || c == '\u{2002}' || c == '\u{2003}' || c == '\u{2004}' || c == '\u{2005}'
        || c == '\u{2006}' || c == '\u{2007}' || c == '\u{2008}' || c == '\u{2009}' || c
        == '\u{200A}' || c == '\u{2028}' || c == '\u{2029}' || c == '\u{202F}' || c == '\u{205F}'
        || c == '\u{3000}'
}

/// `s` with leading and trailing white space removed.
pub open spec fn trimmed(s: Seq<char>) -> Seq<char>
    decreases s.len(),
{
    if s.len() > 0 && is_ws(s[0]) {
        trimmed(s.drop_first())
    } else if s.len() > 0 && is_ws(s.last()) {
        trimmed(s.drop_last())
    } else {
        s
    }
}

/// A clean middle subrange is the trim.
proof fn lemma_trimmed_subrange(s: Seq<char>, a: int, b: int)
    requires
        0 <= a <= b <= s.len(),
        forall|j: int| 0 <= j < a ==> is_ws(s[j]),
        forall|j: int| b <= j < s.len() ==> is_ws(s[j]),
        a < b ==> !is_ws(s[a]) && !is_ws(s[b - 1]),
        a == b ==> a == 0,
    ensures
        trimmed(s) == s.subrange(a, b),
    decreases s.len(),
{
    if s.len() > 0 && is_ws(s[0]) {
        let t = s.drop_first();
        if a == b {
            // everything is white space in this case only if a == 0, but
            // s[0] is white space and a == 0 forces b == 0 <= all ws
            assert(a == 0);
            assert(b <= 0 || is_ws(s[a]));
            assert(b == 0);
            lemma_trimmed_subrange_all_ws(s);
            assert(s.subrange(0, 0) =~= Seq::<char>::empty());
        } else {
            assert(a >= 1);
            assert(forall|j: int| 0 <= j < a - 1 ==> is_ws(#[trigger] t[j]));
            assert(forall|j: int| b - 1 <= j < t.len() ==> is_ws(#[trigger] t[j]));
            assert(t[a - 1] == s[a] && t[b - 2] == s[b - 1]);
            lemma_trimmed_subrange(t, a - 1, b - 1);
            assert(t.subrange(a - 1, b - 1) =~= s.subrange(a, b));
        }
    } else if s.len() > 0 && is_ws(s.last()) {
        let t = s.drop_last();
        assert(a < b ==> b - 1 < s.len() - 1 || !is_ws(s.last()));
        if a == b {
            assert(a == 0);
            lemma_trimmed_subrange_all_ws(s);
            assert(s.subrange(0, 0) =~= Seq::<char>::empty());
        } else {
            assert(b <= s.len() - 1);
            assert(forall|j: int| 0 <= j < a ==> is_ws(#[trigger] t[j]));
            assert(forall|j: int| b <= j < t.len() ==> is_ws(#[trigger] t[j]));
            lemma_trimmed_subrange(t, a, b);
            assert(t.subrange(a, b) =~= s.subrange(a, b));
        }
    } else {
        assert(a == 0 && b == s.len()) by {
            if a > 0 {
                assert(is_ws(s[0]));
            }
            if a == 0 && b < s.len() {
                assert(is_ws(s[s.len() - 1]));
            }
        }
        assert(s.subrange(0, s.len() as int) =~= s);
    }
}

/// A string of nothing but white space trims to nothing.
proof fn lemma_trimmed_subrange_all_ws(s: Seq<char>)
    requires
        forall|j: int| 0 <= j < s.len() ==> is_ws(s[j]),
    ensures
        trimmed(s) == Seq::<char>::empty(),
    decreases s.len(),
{
    if s.len() > 0 {
        let t = s.drop_first();
        assert(forall|j: int| 0 <= j < t.len() ==> is_ws(#[trigger] t[j]));
        lemma_trimmed_subrange_all_ws(t);
    }
}

/// Remove leading and trailing white space.
#[verifier::loop_isolation(false)]
pub fn trim_str(s: &str) -> (r: String)
    ensures
        r@ == trimmed(s@),
{
    let v = chars_vec(s);
    let n = v.len();
    let mut a: usize = 0;
    while a < n && is_ws_char(v[a])
        invariant
            0 <= a <= n,
            n == v@.len(),
            v@ == s@,
            forall|j: int| 0 <= j < a ==> is_ws(s@[j]),
        decreases n - a,
    {
        a = a + 1;
    }
    if a == n {
        proof {
            lemma_trimmed_subrange(s@, 0, 0);
        }
        assert(s@.subrange(0, 0) =~= Seq::<char>::empty());
        return String::new();
    }
    let mut b: usize = n;
    while b > a && is_ws_char(v[b - 1])
        invariant
            a <= b <= n,
            forall|j: int| b <= j < n ==> is_ws(s@[j]),
        decreases b,
    {
        b = b - 1;
    }
    assert(b > a);
    let mut mid: Vec<char> = Vec::new();
    let mut i: usize = a;
    while i < b
        invariant
            a <= i <= b,
            mid@ == s@.subrange(a as int, i as int),
        decreases b - i,
    {
        mid.push(v[i]);
        proof {
            assert(s@.subrange(a as int, i + 1 as int) =~= s@.subrange(a as int, i as int).push(
                s@[i as int],
            ));
        }
        i = i + 1;
    }
    proof {
        lemma_trimmed_subrange(s@, a as int, b as int);
    }
    string_from_chars(&mid)
}

} // verus!
