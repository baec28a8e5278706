//! Asset and link path computation for injection: localized asset
//! substitution, output URL shaping, and same-origin page-link detection.

use crate::text::lemma_dv_strings;
use crate::text::replace_char;
use crate::text::replaced;
use crate::text::trim_end_str;
use crate::text::trimmed_end;
use vstd::prelude::*;
use vstd::string::StringExecFns;

verus! {

/// A document path as an output URL: a trailing `index.html` is dropped
/// and backslashes become slashes.
pub open spec fn output_url_of(p: Seq<char>) -> Seq<char> {
    replaced(trimmed_end(p, "index.html"@), '\\', '/')
}

/// Turn a document file path into the URL it is served at.
pub fn filepath_to_output_url(p: &str) -> (r: String)
    ensures
        r@ == output_url_of(p@),
{
    let t = trim_end_str(p, "index.html");
    replace_char(t.as_str(), '\\', '/')
}

/// The last position of `c` in `s`, if any.
pub open spec fn rfind(s: Seq<char>, c: char) -> Option<int>
    decreases s.len(),
{
    if s.len() == 0 {
        None
    } else if s.last() == c {
        Some(s.len() - 1)
    } else {
        rfind(s.drop_last(), c)
    }
}

/// Find the last occurrence of a character.
#[verifier::loop_isolation(false)]
pub fn rfind_char(v: &Vec<char>, c: char) -> (r: Option<usize>)
    ensures
        match r {
            Some(i) => i < v@.len() && rfind(v@, c) == Some(i as int),
            None => rfind(v@, c) is None,
        },
{
    let n = v.len();
    let mut i: usize = n;
    proof {
        assert(v@.subrange(0, n as int) =~= v@);
    }
    while i > 0
        invariant
            0 <= i <= n,
            n == v@.len(),
            rfind(v@, c) == rfind(v@.subrange(0, i as int), c),
        decreases i,
    {
        proof {
            assert(v@.subrange(0, i as int).last() == v@[i - 1]);
            assert(v@.subrange(0, i as int).drop_last() =~= v@.subrange(0, i - 1 as int));
        }
        if v[i - 1] == c {
            return Some(i - 1);
        }
        i = i - 1;
    }
    proof {
        assert(v@.subrange(0, 0) =~= Seq::<char>::empty());
    }
    None
}

/// The localized name an asset path may substitute to for a locale: its
/// extension `ext` becomes `<locale>.<ext>`, and a leading slash is
/// dropped so relative joins are unambiguous. A path without an extension
/// in its final component has no localized name.
pub open spec fn translated_asset_name(original: Seq<char>, locale: Seq<char>) -> Option<
    Seq<char>,
> {
    match rfind(original, '.') {
        None => None,
        Some(d) => {
            let after_slash = match rfind(original, '/') {
                None => 0int,
                Some(sl) => sl + 1,
            };
            if d < after_slash || d == after_slash {
                // no dot inside the final component, or a dotfile
                None
            } else {
                let candidate = original.subrange(0, d + 1) + locale + "."@ + original.subrange(
                    d + 1,
                    original.len() as int,
                );
                if candidate.len() > 0 && candidate[0] == '/' {
                    Some(candidate.skip(1))
                } else {
                    Some(candidate)
                }
            }
        },
    }
}

/// Whether a sequence of strings holds one spelling `x`.
pub open spec fn contains_str(v: Seq<Seq<char>>, x: Seq<char>) -> bool {
    exists|i: int| 0 <= i < v.len() && v[i] == x
}

/// Whether the list holds the given string.
#[verifier::loop_isolation(false)]
pub fn list_contains(v: &Vec<String>, x: &str) -> (r: bool)
    ensures
        r == contains_str(v.deep_view(), x@),
{
    proof {
        lemma_dv_strings(*v);
    }
    let n = v.len();
    let mut i: usize = 0;
    while i < n
        invariant
            0 <= i <= n,
            n == v@.len(),
            forall|j: int| 0 <= j < i ==> v.deep_view()[j] != x@,
        decreases n - i,
    {
        if crate::text::str_eq(v[i].as_str(), x) {
            assert(contains_str(v.deep_view(), x@)) by {
                assert(v.deep_view()[i as int] == x@);
            }
            return true;
        }
        i = i + 1;
    }
    false
}

/// The localized asset an original reference substitutes to for a locale,
/// given the localized files that exist under the images source root: the
/// locale-suffixed name when such a file exists, else nothing (the
/// original reference is then kept).
#[verifier::loop_isolation(false)]
pub fn get_translated_asset(original: &str, locale_key: &str, available: &Vec<String>) -> (r:
    Option<String>)
    ensures
        r.deep_view() == match translated_asset_name(original@, locale_key@) {
            Some(c) => if contains_str(available.deep_view(), c) {
                Some(c)
            } else {
                None::<Seq<char>>
            },
            None => None::<Seq<char>>,
        },
{
    let v = crate::text::chars_vec(original);
    let vlen = v.len();
    let dot = rfind_char(&v, '.');
    match dot {
        None => None,
        Some(d) => {
            let after_slash: usize = match rfind_char(&v, '/') {
                None => 0,
                Some(sl) => sl + 1,
            };
            if d <= after_slash {
                return None;
            }
            let mut cand: Vec<char> = Vec::new();
            let mut i: usize = 0;
            while i < d + 1
                invariant
                    0 <= i <= d + 1 <= v@.len(),
                    cand@ == v@.subrange(0, i as int),
                decreases d + 1 - i,
            {
                cand.push(v[i]);
                proof {
                    assert(v@.subrange(0, i + 1 as int) =~= v@.subrange(0, i as int).push(
                        v@[i as int],
                    ));
                }
                i = i + 1;
            }
            let lv = crate::text::chars_vec(locale_key);
            let mut j: usize = 0;
            while j < lv.len()
                invariant
                    0 <= j <= lv@.len(),
                    lv@ == locale_key@,
                    cand@ == v@.subrange(0, d + 1 as int) + locale_key@.subrange(0, j as int),
                decreases lv@.len() - j,
            {
                cand.push(lv[j]);
                proof {
                    assert(locale_key@.subrange(0, j + 1 as int) =~= locale_key@.subrange(
                        0,
                        j as int,
                    ).push(locale_key@[j as int]));
                    assert(cand@ =~= v@.subrange(0, d + 1 as int) + locale_key@.subrange(
                        0,
                        j + 1 as int,
                    ));
                }
                j = j + 1;
            }
            proof {
                assert(locale_key@.subrange(0, locale_key@.len() as int) =~= locale_key@);
            }
            cand.push('.');
            proof {
                reveal_strlit(".");
                assert(v@.subrange(d + 1 as int, d + 1 as int) =~= Seq::<char>::empty());
                assert(cand@ =~= v@.subrange(0, d + 1 as int) + locale_key@ + "."@ + v@.subrange(
                    d + 1 as int,
                    d + 1 as int,
                ));
            }
            let mut k: usize = d + 1;
            while k < v.len()
                invariant
                    d + 1 <= k <= v@.len(),
                    cand@ == v@.subrange(0, d + 1 as int) + locale_key@ + "."@ + v@.subrange(
                        d + 1 as int,
                        k as int,
                    ),
                decreases v@.len() - k,
            {
                cand.push(v[k]);
                proof {
                    assert(v@.subrange(d + 1 as int, k + 1 as int) =~= v@.subrange(
                        d + 1 as int,
                        k as int,
                    ).push(v@[k as int]));
                    assert(cand@ =~= v@.subrange(0, d + 1 as int) + locale_key@ + "."@
                        + v@.subrange(d + 1 as int, k + 1 as int));
                }
                k = k + 1;
            }
            let ghost full = v@.subrange(0, d + 1 as int) + locale_key@ + "."@ + v@.subrange(
                d + 1 as int,
                v@.len() as int,
            );
            assert(cand@ == full);
            let stripped: Vec<char> = if cand.len() > 0 && cand[0] == '/' {
                let mut s2: Vec<char> = Vec::new();
                let mut m: usize = 1;
                while m < cand.len()
                    invariant
                        1 <= m <= cand@.len(),
                        cand@ == full,
                        s2@ == full.subrange(1, m as int),
                    decreases cand@.len() - m,
                {
                    s2.push(cand[m]);
                    proof {
                        assert(full.subrange(1, m + 1 as int) =~= full.subrange(1, m as int).push(
                            full[m as int],
                        ));
                    }
                    m = m + 1;
                }
                proof {
                    assert(full.subrange(1, full.len() as int) =~= full.skip(1));
                }
                s2
            } else {
                cand
            };
            let cand_str = crate::text::string_from_chars(&stripped);
            if list_contains(available, cand_str.as_str()) {
                Some(cand_str)
            } else {
                None
            }
        },
    }
}

} // verus!
