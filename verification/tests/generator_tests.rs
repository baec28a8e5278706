//! The extractor: key resolution over documents, hash-derived keys,
//! attribute markers, and the schema-driven JSON variant.

use rosey::config::RoseyOptions;
use rosey::config::RoseyPublicConfig;
use rosey::generate::RoseyGenerator;
use rosey::html::HtmlNode;
use rosey::json::JsonValue;
use rosey::store::RoseyLocale;
use rosey::store::RoseyTranslation;

fn elem(name: &str, attrs: &[(&str, &str)], children: Vec<HtmlNode>) -> HtmlNode {
    HtmlNode::Element {
        name: name.to_owned(),
        attrs: attrs.iter().map(|(k, v)| ((*k).to_owned(), (*v).to_owned())).collect(),
        children,
    }
}

fn text(t: &str) -> HtmlNode {
    HtmlNode::Text(t.to_owned())
}

fn generator() -> RoseyGenerator {
    RoseyGenerator {
        options: RoseyOptions {
            working_directory: ".".to_owned(),
            serve: false,
            config: RoseyPublicConfig::default(),
        },
        locale: RoseyLocale::default(),
        urls_locale: RoseyLocale::default(),
        current_file: String::new(),
    }
}

fn keys_of(locale: &RoseyLocale) -> Vec<(String, Option<String>)> {
    match &locale.keys {
        RoseyTranslation::V2(keys) => keys
            .iter()
            .map(|(k, e)| (k.clone(), e.original.clone()))
            .collect(),
        _ => panic!("expected a V2 store"),
    }
}

#[test]
fn namespace_composes_with_separator() {
    let doc = vec![elem(
        "div",
        &[("data-rosey-ns", "home")],
        vec![elem("span", &[("data-rosey", "title")], vec![text("A")])],
    )];
    let mut g = generator();
    g.process_html_file("index.html", &doc);
    let keys = keys_of(&g.locale);
    assert_eq!(keys.len(), 1);
    assert_eq!(keys[0].0, "home:title");
    assert_eq!(keys[0].1.as_deref(), Some("A"));
}

#[test]
fn empty_root_escapes_namespace() {
    let doc = vec![elem(
        "div",
        &[("data-rosey-ns", "home")],
        vec![elem(
            "div",
            &[("data-rosey-root", "")],
            vec![elem("span", &[("data-rosey", "title")], vec![text("A")])],
        )],
    )];
    let mut g = generator();
    g.process_html_file("index.html", &doc);
    let keys = keys_of(&g.locale);
    assert_eq!(keys.len(), 1);
    assert_eq!(keys[0].0, "title");
}

#[test]
fn root_is_absolute_not_cumulative() {
    let doc = vec![elem(
        "div",
        &[("data-rosey-ns", "outer")],
        vec![elem(
            "div",
            &[("data-rosey-root", "base")],
            vec![elem("span", &[("data-rosey", "k")], vec![text("A")])],
        )],
    )];
    let mut g = generator();
    g.process_html_file("index.html", &doc);
    assert_eq!(keys_of(&g.locale)[0].0, "base:k");
}

#[test]
fn nameless_marker_hashes_serialized_subtree() {
    let marked = elem("span", &[("data-rosey", "")], vec![text("A")]);
    let doc = vec![marked];
    let mut g = generator();
    g.process_html_file("index.html", &doc);
    let keys = keys_of(&g.locale);
    // the digest of `<span data-rosey="">A</span>`, base64, standard
    // alphabet, no padding
    assert_eq!(keys[0].0, "1JgZt8JIx+EzykTrN3mkmkMUzpo4X6IGj5UWnAhHfBI");
    assert_eq!(keys[0].0.len(), 43);
}

#[test]
fn extraction_is_deterministic() {
    let doc = vec![elem(
        "div",
        &[("data-rosey-ns", "a")],
        vec![
            elem("span", &[("data-rosey", "")], vec![text("one")]),
            elem("span", &[("data-rosey", "x")], vec![text("two")]),
        ],
    )];
    let mut g1 = generator();
    g1.process_html_file("p.html", &doc);
    let mut g2 = generator();
    g2.process_html_file("p.html", &doc);
    assert_eq!(keys_of(&g1.locale), keys_of(&g2.locale));
}

#[test]
fn marker_attrs_and_explicit_attrs() {
    let doc = vec![elem(
        "img",
        &[
            ("data-rosey", "hero"),
            ("data-rosey-attrs", "alt,title"),
            ("alt", "An image"),
            ("title", "Caption"),
        ],
        vec![],
    ), elem(
        "div",
        &[
            ("data-rosey-attrs-explicit", "{\"aria-label\":\"label-key\"}"),
            ("aria-label", "Label text"),
        ],
        vec![],
    )];
    let mut g = generator();
    g.process_html_file("index.html", &doc);
    let keys = keys_of(&g.locale);
    let names: Vec<&str> = keys.iter().map(|(k, _)| k.as_str()).collect();
    assert!(names.contains(&"hero.alt"));
    assert!(names.contains(&"hero.title"));
    assert!(names.contains(&"hero"));
    assert!(names.contains(&"label-key"));
    let label = keys.iter().find(|(k, _)| k == "label-key").unwrap();
    assert_eq!(label.1.as_deref(), Some("Label text"));
}

#[test]
fn inner_markup_is_kept_in_extracted_values() {
    let doc = vec![elem(
        "p",
        &[("data-rosey", "rich")],
        vec![text("See "), elem("a", &[("href", "/about")], vec![text("here")])],
    )];
    let mut g = generator();
    g.process_html_file("index.html", &doc);
    let keys = keys_of(&g.locale);
    assert_eq!(keys[0].1.as_deref(), Some("See <a href=\"/about\">here</a>"));
}

#[test]
fn url_store_records_identity_mapping() {
    let mut g = generator();
    g.process_html_file("dir\\about.html", &Vec::new());
    match &g.urls_locale.keys {
        RoseyTranslation::V2(keys) => {
            assert_eq!(keys.len(), 1);
            assert_eq!(keys[0].0, "dir/about.html");
            assert_eq!(keys[0].1.original.as_deref(), Some("dir/about.html"));
        },
        _ => panic!("expected a V2 store"),
    }
}

fn jobj(pairs: Vec<(&str, JsonValue)>) -> JsonValue {
    JsonValue::Object(pairs.into_iter().map(|(k, v)| (k.to_owned(), v)).collect())
}

fn jstr(s: &str) -> JsonValue {
    JsonValue::String(s.to_owned())
}

#[test]
fn json_extraction_with_namespace_lowercases_segments() {
    let source = jobj(vec![("tag", jstr("ABC")), ("title", jstr("Hello"))]);
    let schema = jobj(vec![("tag", jstr("rosey-ns")), ("title", jstr("rosey:title"))]);
    let mut g = generator();
    g.process_json_file("data.json", &source, &schema);
    let keys = keys_of(&g.locale);
    assert_eq!(keys.len(), 1);
    assert_eq!(keys[0].0, "abc.title");
    assert_eq!(keys[0].1.as_deref(), Some("Hello"));
}

#[test]
fn json_array_namespace_uses_elements_as_segments() {
    let source = jobj(vec![("tags", JsonValue::Array(vec![jstr("One"), jstr("Two")]))]);
    let schema = jobj(vec![(
        "tags",
        JsonValue::Array(vec![jstr("rosey-array-ns|rosey:tag")]),
    )]);
    let mut g = generator();
    g.process_json_file("data.json", &source, &schema);
    let keys = keys_of(&g.locale);
    assert_eq!(keys.len(), 2);
    assert_eq!(keys[0].0, "One.tag");
    assert_eq!(keys[1].0, "Two.tag");
}

#[test]
fn json_shape_mismatch_skips_subtree_only() {
    let source = jobj(vec![
        ("broken", JsonValue::Array(vec![jstr("x")])),
        ("good", jstr("text")),
    ]);
    let schema = jobj(vec![
        ("broken", jstr("rosey:nope")),
        ("good", jstr("rosey:good")),
    ]);
    let mut g = generator();
    g.process_json_file("data.json", &source, &schema);
    let keys = keys_of(&g.locale);
    assert_eq!(keys.len(), 1);
    assert_eq!(keys[0].0, "good");
}
