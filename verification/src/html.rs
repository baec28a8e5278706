//! The document model: an owned tree of HTML nodes with attribute lists,
//! and its serialization back to markup.
//!
//! Text nodes are escaped on output (`&`, `<`, `>`), attribute values are
//! quoted and escaped (`&`, `"`), void elements take no closing tag, and
//! the text children of raw-text elements (`script`, `style` and friends)
//! are written verbatim. A `Raw` node serializes as its exact characters:
//! the injector uses it to splice already-serialized markup into a tree.

use crate::kv::lookup;
use vstd::prelude::*;
use vstd::string::StringExecFns;

verus! {

/// One node of a document tree.
pub enum HtmlNode {
    Element { name: String, attrs: Vec<(String, String)>, children: Vec<HtmlNode> },
    Text(String),
    Comment(String),
    Doctype(String),
    Raw(String),
}

/// Elements that never take a closing tag.
pub open spec fn is_void_name(name: Seq<char>) -> bool {
    ||| name == "area"@
    ||| name == "base"@
    ||| name == "basefont"@
    ||| name == "bgsound"@
    ||| name == "br"@
    ||| name == "col"@
    ||| name == "embed"@
    ||| name == "frame"@
    ||| name == "hr"@
    ||| name == "img"@
    ||| name == "input"@
    ||| name == "keygen"@
    ||| name == "link"@
    ||| name == "meta"@
    ||| name == "param"@
    ||| name == "source"@
    ||| name == "track"@
    ||| name == "wbr"@
}

/// Elements whose text children are written without escaping.
pub open spec fn is_raw_text_name(name: Seq<char>) -> bool {
    ||| name == "script"@
    ||| name == "style"@
    ||| name == "xmp"@
    ||| name == "iframe"@
    ||| name == "noembed"@
    ||| name == "noframes"@
    ||| name == "plaintext"@
}

/// How one character of text escapes.
pub open spec fn esc_text_char(c: char) -> Seq<char> {
    if c == '&' {
        seq!['&', 'a', 'm', 'p', ';']
    } else if c == '<' {
        seq!['&', 'l', 't', ';']
    } else if c == '>' {
        seq!['&', 'g', 't', ';']
    } else {
        seq![c]
    }
}

/// Text escaped for element content.
pub open spec fn esc_text(s: Seq<char>) -> Seq<char>
    decreases s.len(),
{
    if s.len() == 0 {
        Seq::empty()
    } else {
        esc_text(s.drop_last()) + esc_text_char(s.last())
    }
}

/// How one character of an attribute value escapes.
pub open spec fn esc_attr_char(c: char) -> Seq<char> {
    if c == '&' {
        seq!['&', 'a', 'm', 'p', ';']
    } else if c == '"' {
        seq!['&', 'q', 'u', 'o', 't', ';']
    } else {
        seq![c]
    }
}

/// An attribute value escaped for a double-quoted position.
pub open spec fn esc_attr(s: Seq<char>) -> Seq<char>
    decreases s.len(),
{
    if s.len() == 0 {
        Seq::empty()
    } else {
        esc_attr(s.drop_last()) + esc_attr_char(s.last())
    }
}

/// The serialization of an attribute list: ` name="value"` per attribute.
pub open spec fn ser_attrs(attrs: Seq<(Seq<char>, Seq<char>)>) -> Seq<char>
    decreases attrs.len(),
{
    if attrs.len() == 0 {
        Seq::empty()
    } else {
        ser_attrs(attrs.drop_last()) + " "@ + attrs.last().0 + "=\""@ + esc_attr(
            attrs.last().1,
        ) + "\""@
    }
}

/// The serialization of one node.
pub open spec fn ser_node(n: HtmlNode) -> Seq<char>
    decreases n,
{
    match n {
        HtmlNode::Text(t) => esc_text(t@),
        HtmlNode::Raw(t) => t@,
        HtmlNode::Comment(t) => "<!--"@ + t@ + "-->"@,
        HtmlNode::Doctype(t) => "<!DOCTYPE "@ + t@ + ">"@,
        HtmlNode::Element { name, attrs, children } => "<"@ + name@ + ser_attrs(
            attrs.deep_view(),
        ) + ">"@ + if is_void_name(name@) {
            Seq::empty()
        } else {
            ser_nodes(children@, is_raw_text_name(name@)) + "</"@ + name@ + ">"@
        },
    }
}

/// The serialization of a node sequence; `raw` carries whether the parent
/// is a raw-text element, whose text children are written verbatim.
pub open spec fn ser_nodes(s: Seq<HtmlNode>, raw: bool) -> Seq<char>
    decreases s,
{
    if s.len() == 0 {
        Seq::empty()
    } else {
        ser_nodes(s.drop_last(), raw) + match s.last() {
            HtmlNode::Text(t) => if raw {
                t@
            } else {
                esc_text(t@)
            },
            other => ser_node(other),
        }
    }
}

/// The inner markup of an element: its children serialized in order.
pub open spec fn inner_html_of(name: Seq<char>, children: Seq<HtmlNode>) -> Seq<char> {
    ser_nodes(children, is_raw_text_name(name))
}

/// Escape text for element content.
pub fn escape_text(s: &str) -> (r: String)
    ensures
        r@ == esc_text(s@),
{
    let v = crate::text::chars_vec(s);
    let mut out = String::new();
    let mut i: usize = 0;
    while i < v.len()
        invariant
            0 <= i <= v@.len(),
            v@ == s@,
            out@ == esc_text(s@.subrange(0, i as int)),
        decreases v@.len() - i,
    {
        let c = v[i];
        if c == '&' {
            out.append("&amp;");
            proof {
                reveal_strlit("&amp;");
            }
        } else if c == '<' {
            out.append("&lt;");
            proof {
                reveal_strlit("&lt;");
            }
        } else if c == '>' {
            out.append("&gt;");
            proof {
                reveal_strlit("&gt;");
            }
        } else {
            out.push(c);
        }
        proof {
            assert(s@.subrange(0, i + 1 as int).drop_last() =~= s@.subrange(0, i as int));
            assert(s@.subrange(0, i + 1 as int).last() == s@[i as int]);
            assert(out@ =~= esc_text(s@.subrange(0, i as int)) + esc_text_char(s@[i as int]));
        }
        i = i + 1;
    }
    proof {
        assert(s@.subrange(0, s@.len() as int) =~= s@);
    }
    out
}

/// Escape an attribute value for a double-quoted position.
pub fn escape_attr(s: &str) -> (r: String)
    ensures
        r@ == esc_attr(s@),
{
    let v = crate::text::chars_vec(s);
    let mut out = String::new();
    let mut i: usize = 0;
    while i < v.len()
        invariant
            0 <= i <= v@.len(),
            v@ == s@,
            out@ == esc_attr(s@.subrange(0, i as int)),
        decreases v@.len() - i,
    {
        let c = v[i];
        if c == '&' {
            out.append("&amp;");
            proof {
                reveal_strlit("&amp;");
            }
        } else if c == '"' {
            out.append("&quot;");
            proof {
                reveal_strlit("&quot;");
            }
        } else {
            out.push(c);
        }
        proof {
            assert(s@.subrange(0, i + 1 as int).drop_last() =~= s@.subrange(0, i as int));
            assert(s@.subrange(0, i + 1 as int).last() == s@[i as int]);
            assert(out@ =~= esc_attr(s@.subrange(0, i as int)) + esc_attr_char(s@[i as int]));
        }
        i = i + 1;
    }
    proof {
        assert(s@.subrange(0, s@.len() as int) =~= s@);
    }
    out
}

/// Does this element name take no closing tag?
pub fn is_void(name: &str) -> (r: bool)
    ensures
        r == is_void_name(name@),
{
    let r = crate::text::str_eq(name, "area") || crate::text::str_eq(name, "base") || crate::text::str_eq(name, "basefont") || crate::text::str_eq(name, "bgsound") || crate::text::str_eq(name, "br") || crate::text::str_eq(name, "col") || crate::text::str_eq(name, "embed") || crate::text::str_eq(name, "frame") || crate::text::str_eq(name, "hr") || crate::text::str_eq(name, "img") || crate::text::str_eq(name, "input") || crate::text::str_eq(name, "keygen") || crate::text::str_eq(name, "link") || crate::text::str_eq(name, "meta") || crate::text::str_eq(name, "param") || crate::text::str_eq(name, "source") || crate::text::str_eq(name, "track") || crate::text::str_eq(name, "wbr");
    r
}

/// Are this element's text children written verbatim?
pub fn is_raw_text(name: &str) -> (r: bool)
    ensures
        r == is_raw_text_name(name@),
{
    let r = crate::text::str_eq(name, "script") || crate::text::str_eq(name, "style") || crate::text::str_eq(name, "xmp") || crate::text::str_eq(name, "iframe") || crate::text::str_eq(name, "noembed") || crate::text::str_eq(name, "noframes") || crate::text::str_eq(name, "plaintext");
    r
}

/// Bridges an attribute vector's deep view to plain indexing.
pub proof fn lemma_dv_attrs(attrs: Vec<(String, String)>)
    ensures
        attrs.deep_view().len() == attrs@.len(),
        forall|j: int|
            0 <= j < attrs@.len() ==> #[trigger] attrs.deep_view()[j] == (
                attrs@[j].0@,
                attrs@[j].1@,
            ),
{
}

/// The value of the first attribute named `name`, as the DOM reads it.
#[verifier::loop_isolation(false)]
pub fn get_attr<'a>(attrs: &'a Vec<(String, String)>, name: &str) -> (r: Option<&'a String>)
    ensures
        r.deep_view() == match lookup(attrs.deep_view(), name@) {
            Some(v) => Some(v),
            None => None,
        },
{
    proof {
        lemma_dv_attrs(*attrs);
    }
    let n = attrs.len();
    let mut i: usize = 0;
    while i < n
        invariant
            0 <= i <= n,
            forall|j: int| 0 <= j < i ==> attrs.deep_view()[j].0 != name@,
        decreases n - i,
    {
        if crate::text::str_eq(attrs[i].0.as_str(), name) {
            proof {
                crate::kv::lemma_lookup_at(attrs.deep_view(), i as int);
            }
            return Some(&attrs[i].1);
        }
        i = i + 1;
    }
    proof {
        crate::kv::lemma_lookup_none(attrs.deep_view(), name@);
    }
    None
}

/// Render an attribute list as markup.
#[verifier::loop_isolation(false)]
fn render_attrs(attrs: &Vec<(String, String)>) -> (r: String)
    ensures
        r@ == ser_attrs(attrs.deep_view()),
{
    proof {
        lemma_dv_attrs(*attrs);
    }
    let mut out = String::new();
    let n = attrs.len();
    let mut i: usize = 0;
    while i < n
        invariant
            0 <= i <= n,
            out@ == ser_attrs(attrs.deep_view().subrange(0, i as int)),
        decreases n - i,
    {
        out.append(" ");
        out.append(attrs[i].0.as_str());
        out.append("=\"");
        let escaped = escape_attr(attrs[i].1.as_str());
        out.append(escaped.as_str());
        out.append("\"");
        proof {
            let dv = attrs.deep_view();
            assert(dv.subrange(0, i + 1 as int).drop_last() =~= dv.subrange(0, i as int));
            assert(dv.subrange(0, i + 1 as int).last() == dv[i as int]);
            assert(out@ =~= ser_attrs(dv.subrange(0, i + 1 as int)));
        }
        i = i + 1;
    }
    proof {
        assert(attrs.deep_view().subrange(0, n as int) =~= attrs.deep_view());
    }
    out
}

impl HtmlNode {
    /// The markup this node serializes to.
    pub fn to_html(&self) -> (r: String)
        ensures
            r@ == ser_node(*self),
        decreases *self,
    {
        match self {
            HtmlNode::Text(t) => escape_text(t.as_str()),
            HtmlNode::Raw(t) => t.clone(),
            HtmlNode::Comment(t) => {
                let mut out = String::new();
                out.append("<!--");
                out.append(t.as_str());
                out.append("-->");
                assert(out@ =~= ser_node(*self));
                out
            },
            HtmlNode::Doctype(t) => {
                let mut out = String::new();
                out.append("<!DOCTYPE ");
                out.append(t.as_str());
                out.append(">");
                assert(out@ =~= ser_node(*self));
                out
            },
            HtmlNode::Element { name, attrs, children } => {
                let mut out = String::new();
                out.append("<");
                out.append(name.as_str());
                let rendered_attrs = render_attrs(attrs);
                out.append(rendered_attrs.as_str());
                out.append(">");
                if !is_void(name.as_str()) {
                    let inner = render_nodes(children, is_raw_text(name.as_str()));
                    out.append(inner.as_str());
                    out.append("</");
                    out.append(name.as_str());
                    out.append(">");
                }
                assert(out@ =~= ser_node(*self));
                out
            },
        }
    }
}

/// The markup a node sequence serializes to; `raw` says whether the parent
/// is a raw-text element.
#[verifier::loop_isolation(false)]
pub fn render_nodes(nodes: &Vec<HtmlNode>, raw: bool) -> (r: String)
    ensures
        r@ == ser_nodes(nodes@, raw),
    decreases nodes@,
{
    let mut out = String::new();
    let n = nodes.len();
    let mut i: usize = 0;
    while i < n
        invariant
            0 <= i <= n,
            out@ == ser_nodes(nodes@.subrange(0, i as int), raw),
        decreases n - i,
    {
        let piece = match &nodes[i] {
            HtmlNode::Text(t) => {
                if raw {
                    t.clone()
                } else {
                    escape_text(t.as_str())
                }
            },
            other => {
                proof {
                    assert(decreases_to!(nodes@ => nodes@[i as int]));
                }
                other.to_html()
            },
        };
        out.append(piece.as_str());
        proof {
            assert(nodes@.subrange(0, i + 1 as int).drop_last() =~= nodes@.subrange(0, i as int));
            assert(nodes@.subrange(0, i + 1 as int).last() == nodes@[i as int]);
        }
        i = i + 1;
    }
    proof {
        assert(nodes@.subrange(0, n as int) =~= nodes@);
    }
    out
}

/// The inner markup of an element: its children rendered in order.
pub fn inner_html(name: &str, children: &Vec<HtmlNode>) -> (r: String)
    ensures
        r@ == inner_html_of(name@, children@),
{
    render_nodes(children, is_raw_text(name))
}

} // verus!
