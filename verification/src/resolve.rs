//! The key resolution protocol: how a traversal position in a document
//! maps to a translation key.
//!
//! A position carries a context of two optional strings, `root` and
//! `namespace`, inherited from the parent node. A root directive replaces
//! the root and clears the namespace; a namespace directive composes with
//! the inherited namespace through the separator. The prefix of a key is
//! taken from the root when one is set (an empty root meaning no prefix at
//! all, the escape hatch out of any outer namespace), else from the
//! namespace, else it is empty. A marker with a name resolves to
//! `prefix + name`; a nameless marker resolves to the prefix followed by a
//! content hash of the node's serialized form, which keeps keys stable
//! across runs and distinct for distinct content.

use vstd::prelude::*;
use vstd::string::StringExecFns;
use vstd::string::StringSliceAdditionalSpecFns;

verus! {

/// The SHA-256 digest of a byte string.
pub uninterp spec fn sha256_of(bytes: Seq<u8>) -> Seq<u8>;

/// Relies on sha2's `Sha256`: the digest of the UTF-8 bytes of a string,
/// 32 bytes long, a function of those bytes alone.
#[verifier::external_body]
fn sha256_hash(s: &str) -> (r: Vec<u8>)
    ensures
        r@ == sha256_of(s.spec_bytes()),
        r@.len() == 32,
{
    <sha2::Sha256 as sha2::Digest>::digest(s.as_bytes()).to_vec()
}

/// The base64 encoding of a byte string, standard alphabet, no padding.
pub uninterp spec fn base64_std_nopad_of(bytes: Seq<u8>) -> Seq<char>;

/// Relies on base64's standard-alphabet, no-padding engine: the encoding
/// of a byte string, a function of those bytes alone.
#[verifier::external_body]
fn base64_encode_nopad(b: &Vec<u8>) -> (r: String)
    ensures
        r@ == base64_std_nopad_of(b@),
{
    base64::Engine::encode(&base64::engine::general_purpose::STANDARD_NO_PAD, b)
}

/// The content hash a nameless marker falls back to: the SHA-256 digest of
/// the serialized subtree, base64-encoded without padding.
pub open spec fn content_hash_of(serialized: Seq<char>) -> Seq<char> {
    base64_std_nopad_of(sha256_of(vstd::utf8::encode_utf8(serialized)))
}

/// The hash-derived fallback key for a nameless marker.
pub fn content_hash(serialized: &str) -> (r: String)
    ensures
        r@ == content_hash_of(serialized@),
{
    let digest = sha256_hash(serialized);
    base64_encode_nopad(&digest)
}

/// The string-to-string map a JSON text denotes, if it is an object of
/// strings: the reading of an explicit attribute map directive.
pub uninterp spec fn json_str_map_of(s: Seq<char>) -> Option<Seq<(Seq<char>, Seq<char>)>>;

/// Relies on serde_json's `from_str` for `BTreeMap<String, String>`:
/// parses a JSON object with string keys and string values, in key order,
/// or fails; the result depends on the text alone.
#[verifier::external_body]
pub(crate) fn parse_string_map(s: &str) -> (r: Option<Vec<(String, String)>>)
    ensures
        r is Some <==> json_str_map_of(s@) is Some,
        r matches Some(v) ==> v.deep_view() == json_str_map_of(s@)->0,
{
    match serde_json::from_str::<std::collections::BTreeMap<String, String>>(s) {
        Ok(m) => Some(m.into_iter().collect()),
        Err(_) => None,
    }
}

/// The resolver context after one node's root and namespace directives are
/// applied: a root directive replaces the root absolutely and clears the
/// namespace; a namespace directive then composes.
pub open spec fn ctx_after(
    root: Option<Seq<char>>,
    ns: Option<Seq<char>>,
    new_root: Option<Seq<char>>,
    new_ns: Option<Seq<char>>,
    sep: Seq<char>,
) -> (Option<Seq<char>>, Option<Seq<char>>) {
    let (root1, ns1) = match new_root {
        Some(r) => (Some(r), None),
        None => (root, ns),
    };
    let ns2 = match new_ns {
        Some(n) => match ns1 {
            Some(existing) => Some(existing + sep + n),
            None => Some(n),
        },
        None => ns1,
    };
    (root1, ns2)
}

/// The key prefix a context yields: the root wins when set (empty root
/// means no prefix at all), else the namespace, else nothing.
pub open spec fn prefix_spec(
    root: Option<Seq<char>>,
    ns: Option<Seq<char>>,
    sep: Seq<char>,
) -> Seq<char> {
    match root {
        Some(r) => if r.len() == 0 {
            Seq::empty()
        } else {
            r + sep
        },
        None => match ns {
            Some(n) => n + sep,
            None => Seq::empty(),
        },
    }
}

/// The key a marker resolves to: its name under the prefix, or, for a
/// nameless marker, the content hash of the serialized subtree under the
/// prefix.
pub open spec fn resolved_key(
    prefix: Seq<char>,
    name: Seq<char>,
    serialized: Seq<char>,
) -> Seq<char> {
    if name.len() > 0 {
        prefix + name
    } else {
        prefix + content_hash_of(serialized)
    }
}

/// The key of an attribute listed beside a content marker: the content key
/// with a dot and the attribute's name.
pub open spec fn attr_key_of(key: Seq<char>, attr: Seq<char>) -> Seq<char> {
    key + seq!['.'] + attr
}

/// Apply one node's directives to the inherited context.
pub fn apply_directives(
    root: &Option<String>,
    ns: &Option<String>,
    new_root: &Option<String>,
    new_ns: &Option<String>,
    sep: &str,
) -> (r: (Option<String>, Option<String>))
    ensures
        (r.0.deep_view(), r.1.deep_view()) == ctx_after(
            root.deep_view(),
            ns.deep_view(),
            new_root.deep_view(),
            new_ns.deep_view(),
            sep@,
        ),
{
    let (root1, ns1): (Option<String>, Option<String>) = match new_root {
        Some(r) => (Some(r.clone()), None),
        None => (
            match root {
                Some(r) => Some(r.clone()),
                None => None,
            },
            match ns {
                Some(n) => Some(n.clone()),
                None => None,
            },
        ),
    };
    let ns2: Option<String> = match new_ns {
        Some(n) => match &ns1 {
            Some(existing) => {
                let mut composed = existing.clone();
                composed.append(sep);
                composed.append(n.as_str());
                Some(composed)
            },
            None => Some(n.clone()),
        },
        None => ns1,
    };
    (root1, ns2)
}

/// The key prefix of a context.
pub fn prefix_of(root: &Option<String>, ns: &Option<String>, sep: &str) -> (r: String)
    ensures
        r@ == prefix_spec(root.deep_view(), ns.deep_view(), sep@),
{
    match root {
        Some(rt) => {
            if rt.as_str().unicode_len() == 0 {
                assert(rt@.len() == 0);
                String::new()
            } else {
                let mut p = rt.clone();
                p.append(sep);
                p
            }
        },
        None => match ns {
            Some(n) => {
                let mut p = n.clone();
                p.append(sep);
                p
            },
            None => String::new(),
        },
    }
}

/// Resolve a marker under a prefix (see [`resolved_key`]).
pub fn resolve_key(prefix: &str, name: &str, serialized: &str) -> (r: String)
    ensures
        r@ == resolved_key(prefix@, name@, serialized@),
{
    let mut key = prefix.to_owned();
    if name.unicode_len() > 0 {
        key.append(name);
    } else {
        let hash = content_hash(serialized);
        key.append(hash.as_str());
    }
    key
}

/// The key of a listed attribute.
pub fn attr_key(key: &str, attr: &str) -> (r: String)
    ensures
        r@ == attr_key_of(key@, attr@),
    {
    let mut k = key.to_owned();
    k.push('.');
    k.append(attr);
    assert(k@ =~= attr_key_of(key@, attr@));
    k
}

/// Namespace composition law: with no outer context, a namespace directive
/// `ns` puts a marker named `leaf` at `ns`, the separator, then `leaf`;
/// resetting the root to the empty string on an inner node then escapes
/// the namespace entirely, leaving `leaf` alone.
pub proof fn lemma_namespace_composition(
    ns: Seq<char>,
    leaf: Seq<char>,
    sep: Seq<char>,
    serialized: Seq<char>,
)
    requires
        leaf.len() > 0,
    ensures
        ({
            let (root1, ns1) = ctx_after(None, None, None, Some(ns), sep);
            resolved_key(prefix_spec(root1, ns1, sep), leaf, serialized) == ns + sep + leaf
        }),
        ({
            let (root1, ns1) = ctx_after(None, None, None, Some(ns), sep);
            let (root2, ns2) = ctx_after(root1, ns1, Some(Seq::empty()), None, sep);
            resolved_key(prefix_spec(root2, ns2, sep), leaf, serialized) == leaf
        }),
{
    let (root1, ns1) = ctx_after(None, None, None, Some(ns), sep);
    assert(prefix_spec(root1, ns1, sep) == ns + sep);
    let (root2, ns2) = ctx_after(root1, ns1, Some(Seq::empty()), None, sep);
    assert(prefix_spec(root2, ns2, sep) =~= Seq::<char>::empty());
    assert(Seq::<char>::empty() + leaf =~= leaf);
}

} // verus!
