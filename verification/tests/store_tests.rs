//! The locale store: counted and uncounted inserts, lookups, removal and
//! normalization in both on-disk shapes.

use rosey::store::RoseyLocale;
use rosey::store::RoseyTranslation;
use rosey::store::RoseyTranslationEntry;

fn v2() -> RoseyTranslation {
    RoseyTranslation::V2(Vec::new())
}

fn v1() -> RoseyTranslation {
    RoseyTranslation::V1(Vec::new())
}

#[test]
fn counted_insert_accumulates_statistics() {
    let mut t = v2();
    t.insert("title".to_owned(), "Hello".to_owned(), "index.html");
    t.insert("title".to_owned(), "Hello".to_owned(), "index.html");
    t.insert("title".to_owned(), "Hello".to_owned(), "about.html");
    match &t {
        RoseyTranslation::V2(keys) => {
            assert_eq!(keys.len(), 1);
            let (k, e) = &keys[0];
            assert_eq!(k, "title");
            assert_eq!(e.original.as_deref(), Some("Hello"));
            assert_eq!(e.value, None);
            assert_eq!(e.total, Some(3));
            let pages = e.pages.as_ref().unwrap();
            assert_eq!(pages.len(), 2);
            assert_eq!(pages[0], ("index.html".to_owned(), 2));
            assert_eq!(pages[1], ("about.html".to_owned(), 1));
        },
        _ => panic!("expected a V2 store"),
    }
}

#[test]
fn counted_insert_normalizes_backslashed_pages() {
    let mut t = v2();
    t.insert("k".to_owned(), "v".to_owned(), "dir\\page.html");
    match &t {
        RoseyTranslation::V2(keys) => {
            let pages = keys[0].1.pages.as_ref().unwrap();
            assert_eq!(pages[0].0, "dir/page.html");
        },
        _ => panic!("expected a V2 store"),
    }
}

#[test]
fn uncounted_insert_resets_entry() {
    let mut t = v2();
    t.insert("k".to_owned(), "v".to_owned(), "p");
    t.insert_uncounted("k".to_owned(), "w".to_owned());
    match &t {
        RoseyTranslation::V2(keys) => {
            assert_eq!(keys[0].1.original.as_deref(), Some("w"));
            assert_eq!(keys[0].1.total, Some(0));
        },
        _ => panic!("expected a V2 store"),
    }
}

#[test]
fn get_reads_v1_strings_and_v2_values() {
    let mut a = v1();
    a.insert("k".to_owned(), "bonjour".to_owned(), "p");
    assert_eq!(a.get("k").map(|s| s.as_str()), Some("bonjour"));

    let b = RoseyTranslation::V2(vec![
        (
            "k".to_owned(),
            RoseyTranslationEntry {
                original: Some("hello".to_owned()),
                value: Some("bonjour".to_owned()),
                pages: None,
                total: None,
            },
        ),
    ]);
    assert_eq!(b.get("k").map(|s| s.as_str()), Some("bonjour"));

    // an extracted entry has no translated value yet
    let mut c = v2();
    c.insert("k".to_owned(), "hello".to_owned(), "p");
    assert_eq!(c.get("k"), None);
    assert_eq!(c.get("missing"), None);
}

#[test]
fn remove_and_len() {
    let mut t = v1();
    t.insert("a".to_owned(), "1".to_owned(), "p");
    t.insert("b".to_owned(), "2".to_owned(), "p");
    assert_eq!(t.len(), 2);
    assert!(!t.is_empty());
    t.remove("a");
    assert_eq!(t.len(), 1);
    assert_eq!(t.get("a"), None);
    assert_eq!(t.get("b").map(|s| s.as_str()), Some("2"));
}

#[test]
fn normalize_v1_keeps_only_values() {
    let mut t = v1();
    t.insert("greeting".to_owned(), "bonjour".to_owned(), "p");
    let n = t.normalize();
    assert_eq!(n.len(), 1);
    assert_eq!(n[0].0, "greeting");
    assert_eq!(n[0].1.value.as_deref(), Some("bonjour"));
    assert_eq!(n[0].1.original, None);
    assert_eq!(n[0].1.total, None);
    assert!(n[0].1.pages.is_none());
}

#[test]
fn normalize_v2_is_identity() {
    let mut t = v2();
    t.insert("greeting".to_owned(), "hello".to_owned(), "index.html");
    let n = t.normalize();
    assert_eq!(n.len(), 1);
    assert_eq!(n[0].0, "greeting");
    assert_eq!(n[0].1.original.as_deref(), Some("hello"));
    assert_eq!(n[0].1.value, None);
    assert_eq!(n[0].1.total, Some(1));
    assert_eq!(n[0].1.pages.as_ref().unwrap()[0], ("index.html".to_owned(), 1));
}

#[test]
fn locale_versions() {
    let l1 = RoseyLocale::new(1);
    assert_eq!(l1.version, 1);
    assert!(matches!(l1.keys, RoseyTranslation::V1(_)));
    let l2 = RoseyLocale::default();
    assert_eq!(l2.version, 2);
    assert!(matches!(l2.keys, RoseyTranslation::V2(_)));
}
