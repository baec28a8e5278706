//! Text utilities and the fragment tokenizer and rewriter.

use std::str::FromStr;

use rosey::rewrite::RewriteContext;
use rosey::rewrite::HtmlToken;
use rosey::rewrite::TranslationRewriter;
use rosey::rewrite::tokenize;

fn ctx(locale: &str, assets: &[&str], should_wrap: bool, wrap_class: Option<&str>) -> RewriteContext {
    RewriteContext {
        locale_key: locale.to_owned(),
        default_language: "en".to_owned(),
        locales: vec!["fr".to_owned(), "ja".to_owned()],
        tag: "data-rosey".to_owned(),
        should_wrap,
        wrap_class: wrap_class.map(|s| s.to_owned()),
        assets: assets.iter().map(|s| (*s).to_owned()).collect(),
    }
}

#[test]
fn tokenizer_is_lossless_on_raw_extents() {
    let src = "hello <b class=\"x\">bold</b><!-- note --><br/>tail";
    let tokens = tokenize(src);
    let rebuilt: String = tokens.iter().map(|(_, raw)| raw.as_str()).collect();
    assert_eq!(rebuilt, src);
}

#[test]
fn tokenizer_reads_tags_attributes_and_comments() {
    let tokens = tokenize("<a href='/x' download>go</a><!--c-->");
    match &tokens[0].0 {
        HtmlToken::Tag { name, attrs, self_closing, end } => {
            assert_eq!(name, "a");
            assert!(!*self_closing);
            assert!(!*end);
            assert_eq!(attrs[0], ("href".to_owned(), "/x".to_owned()));
            assert_eq!(attrs[1], ("download".to_owned(), "".to_owned()));
        },
        _ => panic!("expected a start tag"),
    }
    assert!(matches!(&tokens[1].0, HtmlToken::Text(t) if t == "go"));
    assert!(matches!(&tokens[2].0, HtmlToken::Tag { end: true, .. }));
    assert!(matches!(&tokens[3].0, HtmlToken::Comment(c) if c == "c"));
}

#[test]
fn rewriter_prefixes_anchors_and_substitutes_assets() {
    let c = ctx("fr", &["doc.fr.pdf"], false, None);
    let mut r = TranslationRewriter::new(&c);
    for (tok, _) in tokenize("<a href=\"/about\">x</a> <a download href=\"doc.pdf\">d</a>") {
        r.process_token(&tok);
    }
    assert_eq!(
        r.finish(),
        "<a href=\"/fr/about\">x</a> <a download href=\"/doc.fr.pdf\">d</a>",
    );
}

#[test]
fn rewriter_keeps_external_and_prefixed_links() {
    let c = ctx("fr", &[], false, None);
    let mut r = TranslationRewriter::new(&c);
    for (tok, _) in tokenize("<a href=\"/fr/x\">a</a><a href=\"http://e.example/\">b</a>") {
        r.process_token(&tok);
    }
    assert_eq!(r.finish(), "<a href=\"/fr/x\">a</a><a href=\"http://e.example/\">b</a>");
}

#[test]
fn wrapped_text_segments_into_spans() {
    let out = rosey::rewrite::wrap_text("hello world", &Some("w".to_owned()));
    assert_eq!(out, "<span class=\"w\">hello</span> <span class=\"w\">world</span>");
    let styled = rosey::rewrite::wrap_text("hi", &None);
    assert_eq!(styled, "<span style=\"white-space: nowrap;\">hi</span>");
}

#[test]
fn escaping_of_text_and_attributes() {
    assert_eq!(rosey::html::escape_text("a<b>&c"), "a&lt;b&gt;&amp;c");
    assert_eq!(rosey::html::escape_attr("say \"hi\" & go"), "say &quot;hi&quot; &amp; go");
}

#[test]
fn text_utilities() {
    assert_eq!(rosey::text::replace_char("a\\b\\c", '\\', '/'), "a/b/c");
    assert_eq!(rosey::text::trim_str("  x y  "), "x y");
    assert!(rosey::text::str_eq("abc", "abc"));
    assert!(!rosey::text::str_eq("abc", "abd"));
    assert!(rosey::text::starts_with_str("abcdef", "abc"));
    assert!(rosey::text::ends_with_str("abcdef", "def"));
    assert_eq!(rosey::text::trim_end_str("a/index.htmlindex.html", "index.html"), "a/");
    let parts = rosey::text::split_char("a,b,,c", ',');
    assert_eq!(parts, vec!["a", "b", "", "c"]);
}

#[test]
fn serializer_handles_void_and_raw_text_elements() {
    let img = rosey::html::HtmlNode::Element {
        name: "img".to_owned(),
        attrs: vec![("src".to_owned(), "x.png".to_owned())],
        children: Vec::new(),
    };
    assert_eq!(img.to_html(), "<img src=\"x.png\">");
    let script = rosey::html::HtmlNode::Element {
        name: "script".to_owned(),
        attrs: Vec::new(),
        children: vec![rosey::html::HtmlNode::Text("if (a < b) { go(); }".to_owned())],
    };
    assert_eq!(script.to_html(), "<script>if (a < b) { go(); }</script>");
    let p = rosey::html::HtmlNode::Element {
        name: "p".to_owned(),
        attrs: Vec::new(),
        children: vec![rosey::html::HtmlNode::Text("a < b".to_owned())],
    };
    assert_eq!(p.to_html(), "<p>a &lt; b</p>");
}

#[test]
fn command_parsing() {
    assert!(matches!(
        rosey::config::RoseyCommand::from_str("generate"),
        Ok(rosey::config::RoseyCommand::Generate)
    ));
    assert!(matches!(
        rosey::config::RoseyCommand::from_str("build"),
        Ok(rosey::config::RoseyCommand::Build)
    ));
    assert!(matches!(
        rosey::config::RoseyCommand::from_str("check"),
        Ok(rosey::config::RoseyCommand::Check)
    ));
    assert!(rosey::config::RoseyCommand::from_str("serve").is_err());
}

#[test]
fn fragment_rewriting_is_deterministic() {
    let c = ctx("fr", &["pic.fr.png"], false, None);
    let src = "Voir <a href=\"/about\">ici</a>, <img src=\"pic.png\"> & <!-- n --> fin";
    let mut r1 = TranslationRewriter::new(&c);
    for (tok, _) in tokenize(src) {
        r1.process_token(&tok);
    }
    let mut r2 = TranslationRewriter::new(&c);
    for (tok, _) in tokenize(src) {
        r2.process_token(&tok);
    }
    assert_eq!(r1.finish(), r2.finish());
}

#[test]
fn lone_and_unclosed_openers_pass_through_as_text() {
    let c = ctx("fr", &[], false, None);
    let mut r = TranslationRewriter::new(&c);
    for (tok, _) in tokenize("1 < 2 and <!-- unclosed") {
        r.process_token(&tok);
    }
    assert_eq!(r.finish(), "1 < 2 and <!-- unclosed");
}
