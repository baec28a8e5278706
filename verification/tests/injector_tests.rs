//! The injector: translated content splices, per-key fallback, asset
//! substitution, anchor rewriting, fragment token rewriting, head
//! metadata and whole-document processing.

use rosey::config::RoseyOptions;
use rosey::config::RoseyPublicConfig;
use rosey::html::HtmlNode;
use rosey::inject::inject_content_nodes;
use rosey::json::JsonValue;
use rosey::page::RoseyBuilder;
use rosey::rewrite::RewriteContext;
use rosey::store::RoseyTranslation;
use rosey::store::RoseyTranslationEntry;

fn elem(name: &str, attrs: &[(&str, &str)], children: Vec<HtmlNode>) -> HtmlNode {
    HtmlNode::Element {
        name: name.to_owned(),
        attrs: attrs.iter().map(|(k, v)| ((*k).to_owned(), (*v).to_owned())).collect(),
        children,
    }
}

fn text(t: &str) -> HtmlNode {
    HtmlNode::Text(t.to_owned())
}

fn ctx(locale: &str, assets: &[&str]) -> RewriteContext {
    RewriteContext {
        locale_key: locale.to_owned(),
        default_language: "en".to_owned(),
        locales: vec!["fr".to_owned()],
        tag: "data-rosey".to_owned(),
        should_wrap: false,
        wrap_class: None,
        assets: assets.iter().map(|s| (*s).to_owned()).collect(),
    }
}

fn store(pairs: &[(&str, &str)]) -> RoseyTranslation {
    RoseyTranslation::V2(
        pairs
            .iter()
            .map(|(k, v)| {
                (
                    (*k).to_owned(),
                    RoseyTranslationEntry {
                        original: None,
                        value: Some((*v).to_owned()),
                        pages: None,
                        total: None,
                    },
                )
            })
            .collect(),
    )
}

fn render(nodes: &Vec<HtmlNode>) -> String {
    rosey::html::render_nodes(nodes, false)
}

#[test]
fn translated_value_replaces_content() {
    let doc = vec![elem("span", &[("data-rosey", "title")], vec![text("Hello")])];
    let t = store(&[("title", "Bonjour")]);
    let out = inject_content_nodes(&doc, ":", &t, &ctx("fr", &[]));
    assert_eq!(render(&out), "<span data-rosey=\"title\">Bonjour</span>");
}

#[test]
fn missing_key_falls_back_to_source() {
    let doc = vec![elem("span", &[("data-rosey", "title")], vec![text("Hello")])];
    let t = store(&[("other", "Autre")]);
    let out = inject_content_nodes(&doc, ":", &t, &ctx("fr", &[]));
    assert_eq!(render(&out), "<span data-rosey=\"title\">Hello</span>");
}

#[test]
fn empty_value_falls_back_to_source() {
    let doc = vec![elem("span", &[("data-rosey", "title")], vec![text("Hello")])];
    let t = store(&[("title", "")]);
    let out = inject_content_nodes(&doc, ":", &t, &ctx("fr", &[]));
    assert_eq!(render(&out), "<span data-rosey=\"title\">Hello</span>");
}

#[test]
fn round_trip_with_extracted_store_is_identity() {
    let doc = vec![elem(
        "div",
        &[("data-rosey-ns", "home")],
        vec![
            elem("span", &[("data-rosey", "title")], vec![text("Hello")]),
            elem("p", &[("data-rosey", "")], vec![text("World")]),
        ],
    )];
    let mut g = rosey::generate::RoseyGenerator {
        options: RoseyOptions {
            working_directory: ".".to_owned(),
            serve: false,
            config: RoseyPublicConfig::default(),
        },
        locale: rosey::store::RoseyLocale::default(),
        urls_locale: rosey::store::RoseyLocale::default(),
        current_file: String::new(),
    };
    g.process_html_file("index.html", &doc);
    let out = inject_content_nodes(&doc, ":", &g.locale.keys, &ctx("en", &[]));
    assert_eq!(render(&out), render(&doc));
}

#[test]
fn translated_markup_is_token_rewritten() {
    let doc = vec![elem("p", &[("data-rosey", "rich")], vec![text("x")])];
    let t = store(&[("rich", "Voir <a href=\"/about\">ici</a> et <img src=\"pic.png\">")]);
    let out = inject_content_nodes(&doc, ":", &t, &ctx("fr", &["pic.fr.png"]));
    assert_eq!(
        render(&out),
        "<p data-rosey=\"rich\">Voir <a href=\"/fr/about\">ici</a> et <img src=\"/pic.fr.png\"></p>",
    );
}

#[test]
fn translated_attributes_replace_and_fall_back() {
    let doc = vec![elem(
        "img",
        &[("data-rosey", "hero"), ("data-rosey-attrs", "alt,title"), ("alt", "Old"), ("title", "Kept")],
        vec![],
    )];
    let t = store(&[("hero.alt", "Nouveau")]);
    let out = inject_content_nodes(&doc, ":", &t, &ctx("fr", &[]));
    let html = render(&out);
    assert!(html.contains("alt=\"Nouveau\""));
    assert!(html.contains("title=\"Kept\""));
}

#[test]
fn asset_substitution_requires_localized_file() {
    let available = vec!["logo.fr.png".to_owned()];
    let hit = rosey::assets::get_translated_asset("logo.png", "fr", &available);
    assert_eq!(hit.as_deref(), Some("logo.fr.png"));
    let miss = rosey::assets::get_translated_asset("logo.png", "de", &available);
    assert_eq!(miss, None);
    let no_ext = rosey::assets::get_translated_asset("logo", "fr", &available);
    assert_eq!(no_ext, None);
    let slashed = rosey::assets::get_translated_asset(
        "/img/logo.png",
        "fr",
        &vec!["img/logo.fr.png".to_owned()],
    );
    assert_eq!(slashed.as_deref(), Some("img/logo.fr.png"));
}

#[test]
fn image_tags_are_rewritten_when_assets_exist() {
    let doc = vec![elem("img", &[("src", "logo.png"), ("srcset", "logo.png 1x,big.png 2x")], vec![])];
    let c = ctx("fr", &["logo.fr.png"]);
    let out = rosey::refs::rewrite_static_nodes(&doc, &c, None);
    let html = render(&out);
    assert!(html.contains("src=\"/logo.fr.png\""));
    assert!(html.contains("srcset=\"/logo.fr.png 1x,big.png 2x\""));
}

#[test]
fn anchors_gain_locale_prefix_and_url_overrides() {
    let doc = vec![
        elem("a", &[("href", "/about")], vec![text("a")]),
        elem("a", &[("href", "/fr/deja")], vec![text("b")]),
        elem("a", &[("href", "https://elsewhere.example/x")], vec![text("c")]),
        elem("a", &[("href", "/file.pdf")], vec![text("d")]),
    ];
    let c = ctx("fr", &[]);
    let urls = store(&[("about/index.html", "a-propos/index.html")]);
    let out = rosey::refs::rewrite_static_nodes(&doc, &c, Some(&urls));
    let html = render(&out);
    assert!(html.contains("href=\"/fr/a-propos/\""));
    assert!(html.contains("href=\"/fr/deja\""));
    assert!(html.contains("href=\"https://elsewhere.example/x\""));
    assert!(html.contains("href=\"/file.pdf\""));
}

#[test]
fn head_metadata_is_filled_per_locale() {
    let doc = vec![elem(
        "html",
        &[],
        vec![elem("head", &[], vec![elem("title", &[], vec![text("T")])]), elem(
            "body",
            &[],
            vec![],
        )],
    )];
    let links = vec![("en".to_owned(), "/en/about".to_owned())];
    let out = rosey::page::rewrite_meta_tags(&doc, "fr", &links);
    let html = render(&out);
    assert!(html.contains("<html lang=\"fr\">"));
    assert!(html.contains("<meta http-equiv=\"content-language\" content=\"fr\">"));
    assert!(html.contains("<link rel=\"alternate\" hreflang=\"en\" href=\"/en/about\">"));
}

fn builder(translations: Vec<(&str, RoseyTranslation)>, urls: Vec<(&str, RoseyTranslation)>) -> RoseyBuilder {
    RoseyBuilder {
        options: RoseyOptions {
            working_directory: ".".to_owned(),
            serve: false,
            config: RoseyPublicConfig::default(),
        },
        translations: translations.into_iter().map(|(k, v)| (k.to_owned(), v)).collect(),
        url_translations: urls.into_iter().map(|(k, v)| (k.to_owned(), v)).collect(),
    }
}

#[test]
fn whole_document_outputs_per_locale() {
    let doc = vec![elem(
        "html",
        &[],
        vec![elem("head", &[], vec![]), elem(
            "body",
            &[],
            vec![elem("span", &[("data-rosey", "title")], vec![text("Hello")])],
        )],
    )];
    let b = builder(vec![("fr", store(&[("title", "Bonjour")]))], vec![]);
    let outs = b.process_html_file("index.html", &doc, &Vec::new());
    assert_eq!(outs.len(), 2);
    assert_eq!(outs[0].locale, "en");
    assert_eq!(outs[0].path, "en/index.html");
    assert!(outs[0].content.contains(">Hello</span>"));
    assert!(outs[0].content.contains("<html lang=\"en\">"));
    assert!(outs[0].content.contains("hreflang=\"fr\""));
    assert_eq!(outs[1].locale, "fr");
    assert_eq!(outs[1].path, "fr/index.html");
    assert!(outs[1].content.contains(">Bonjour</span>"));
    assert!(outs[1].content.contains("<html lang=\"fr\">"));
    assert!(outs[1].content.contains("hreflang=\"en\""));
}

#[test]
fn build_is_deterministic() {
    let doc = vec![elem(
        "html",
        &[],
        vec![elem("head", &[], vec![]), elem(
            "body",
            &[],
            vec![elem("span", &[("data-rosey", "")], vec![text("Hello")])],
        )],
    )];
    let b1 = builder(vec![("fr", store(&[]))], vec![]);
    let b2 = builder(vec![("fr", store(&[]))], vec![]);
    let o1 = b1.process_html_file("index.html", &doc, &Vec::new());
    let o2 = b2.process_html_file("index.html", &doc, &Vec::new());
    assert_eq!(o1.len(), o2.len());
    for (a, b) in o1.iter().zip(o2.iter()) {
        assert_eq!(a.content, b.content);
        assert_eq!(a.path, b.path);
    }
}

#[test]
fn locale_override_document_wins() {
    let doc = vec![elem("p", &[("data-rosey", "x")], vec![text("manual")])];
    let b = builder(vec![("fr", store(&[]))], vec![]);
    let outs = b.process_html_file("fr/manual.html", &doc, &Vec::new());
    assert_eq!(outs.len(), 1);
    assert_eq!(outs[0].locale, "fr");
    assert_eq!(outs[0].path, "fr/manual.html");
}

#[test]
fn json_injection_replaces_translated_strings() {
    let source = JsonValue::Object(vec![
        ("title".to_owned(), JsonValue::String("Hello".to_owned())),
        ("count".to_owned(), JsonValue::Number("3".to_owned())),
    ]);
    let schema = JsonValue::Object(vec![
        ("title".to_owned(), JsonValue::String("rosey:title".to_owned())),
    ]);
    let b = builder(
        vec![("fr", store(&[("title", "Bonjour")])), ("de", store(&[]))],
        vec![],
    );
    let outs = b.process_json_file(&source, &schema);
    assert_eq!(outs.len(), 2);
    assert_eq!(outs[0].0, "fr");
    match &outs[0].1 {
        JsonValue::Object(pairs) => {
            assert!(matches!(&pairs[0].1, JsonValue::String(s) if s == "Bonjour"));
            assert!(matches!(&pairs[1].1, JsonValue::Number(n) if n == "3"));
        },
        _ => panic!("expected an object"),
    }
    // the locale without a value keeps the source text
    match &outs[1].1 {
        JsonValue::Object(pairs) => {
            assert!(matches!(&pairs[0].1, JsonValue::String(s) if s == "Hello"));
        },
        _ => panic!("expected an object"),
    }
}

#[test]
fn redirect_ingredients() {
    let alts = vec![("fr".to_owned(), "a-propos/".to_owned())];
    assert_eq!(
        rosey::page::build_alternates(&alts),
        "<link rel=\"alternate\" href=\"/fr/a-propos/\" hreflang=\"fr\">",
    );
    let lookup = rosey::page::locale_lookup_pairs(&vec!["fr-CA".to_owned(), "en".to_owned()]);
    let json = rosey::page::json_string_map(&lookup);
    assert_eq!(
        json,
        "{\"fr-CA\":\"fr-CA\",\"fr\":\"fr-CA\",\"fr_CA\":\"fr-CA\",\"en\":\"en\"}",
    );
}

#[test]
fn output_urls_drop_index_html() {
    assert_eq!(rosey::assets::filepath_to_output_url("about/index.html"), "about/");
    assert_eq!(rosey::assets::filepath_to_output_url("dir\\page.html"), "dir/page.html");
}

#[test]
fn wrap_locale_wraps_plain_translations() {
    let doc = vec![elem("span", &[("data-rosey", "title")], vec![text("x")])];
    let t = store(&[("title", "hello world")]);
    let mut c = ctx("ja", &[]);
    c.should_wrap = true;
    c.wrap_class = Some("w".to_owned());
    let out = inject_content_nodes(&doc, ":", &t, &c);
    assert_eq!(
        render(&out),
        "<span data-rosey=\"title\"><span class=\"w\">hello</span> <span class=\"w\">world</span></span>",
    );
    // titles are never wrapped
    let tdoc = vec![elem("title", &[("data-rosey", "t")], vec![text("x")])];
    let t2 = store(&[("t", "hello world")]);
    let out2 = inject_content_nodes(&tdoc, ":", &t2, &c);
    assert_eq!(render(&out2), "<title data-rosey=\"t\">hello world</title>");
}

#[test]
fn documents_without_html_element_keep_their_shape() {
    let doc = vec![elem("p", &[], vec![text("x")])];
    let out = rosey::page::rewrite_meta_tags(&doc, "fr", &Vec::new());
    assert_eq!(render(&out), "<p>x</p>");
}
