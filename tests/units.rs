use fhtml::validate::{check_duplicate_attrs, check_node_tree, validate};
use fhtml::{
    escape, escape_into, Attribute, DashIdent, ErrorKind, Node, Part, PreEscaped, Render, Span, Tag,
    Value,
};

fn dash_ident(text: &str) -> DashIdent {
    DashIdent { text: text.to_string(), span: Span { start: 0, end: 1 } }
}

fn lit(text: &str) -> Value {
    Value::Literal { text: text.to_string(), span: Span { start: 0, end: 1 } }
}

fn opening(name: &str, attrs: Vec<Attribute>, self_closing: bool) -> Node {
    Node::Tag(Tag::Opening { name: dash_ident(name), attrs, self_closing, span: Span { start: 0, end: 1 } })
}

fn closing(name: &str) -> Node {
    Node::Tag(Tag::Closing { name: dash_ident(name), span: Span { start: 0, end: 1 } })
}

fn attr(name: &str, value: &str) -> Attribute {
    Attribute { name: dash_ident(name), value: lit(value), span: Span { start: 0, end: 1 } }
}

#[test]
fn lower_ast_attrs() {
    let parts = attr("foo", "foo").into_parts();
    assert_eq!(parts.len(), 6);
    assert!(matches!(parts[0], Part::AttrSpace));
    assert!(matches!(&parts[1], Part::AttrName(n) if n.text == "foo"));
    assert!(matches!(parts[2], Part::AttrEqSep));
    assert!(matches!(parts[3], Part::AttrValueStartQuote));
    assert!(matches!(&parts[4], Part::AttrValue(Value::Literal { text, .. }) if text == "foo"));
    assert!(matches!(parts[5], Part::AttrValueEndQuote));
}

#[test]
fn lower_ast_opening_tag() {
    let tag = Tag::Opening { name: dash_ident("foo"), attrs: vec![], self_closing: false, span: Span { start: 0, end: 3 } };
    let parts = tag.into_parts();
    assert_eq!(parts.len(), 3);
    assert!(matches!(parts[0], Part::OpeningTagStart));
    assert!(matches!(&parts[1], Part::OpeningTagName(n) if n.text == "foo"));
    assert!(matches!(parts[2], Part::OpeningTagEnd));
}

#[test]
fn lower_ast_closing_tag() {
    let tag = Tag::Closing { name: dash_ident("foo"), span: Span { start: 0, end: 4 } };
    let parts = tag.into_parts();
    assert_eq!(parts.len(), 3);
    assert!(matches!(parts[0], Part::ClosingTagStart));
    assert!(matches!(&parts[1], Part::ClosingTagName(n) if n.text == "foo"));
    assert!(matches!(parts[2], Part::ClosingTagEnd));
}

#[test]
fn lowering_keeps_attribute_order() {
    let node = opening("a", vec![attr("x", "1"), attr("y", "2")], false);
    let parts = node.into_parts();
    assert_eq!(parts.len(), 2 + 12 + 1);
    assert!(matches!(&parts[3], Part::AttrName(n) if n.text == "x"));
    assert!(matches!(&parts[9], Part::AttrName(n) if n.text == "y"));
    assert!(matches!(parts[14], Part::OpeningTagEnd));
}

#[test]
fn opening_and_closing_tags() {
    check_node_tree(&vec![opening("foo", vec![], false), closing("foo")])
        .expect("an opening and closing tag with the same name should be allowed");
}

#[test]
fn self_closing_tag() {
    check_node_tree(&vec![opening("foo", vec![], true)]).expect("a self-closing tag should be allowed");
}

#[test]
fn single_opening_tag() {
    check_node_tree(&vec![opening("foo", vec![], false)])
        .expect_err("a single opening tag should be disallowed");
}

#[test]
fn single_closing_tag() {
    check_node_tree(&vec![closing("foo")]).expect_err("a single closing tag should be disallowed");
}

#[test]
fn mismatched_opening_and_closing_tag() {
    check_node_tree(&vec![opening("foo", vec![], false), closing("bar")])
        .expect_err("a mismatch between opening and closing tag should be disallowed");
}

#[test]
fn duplicate_attrs() {
    check_duplicate_attrs(&vec![opening("foo", vec![attr("bar", ""), attr("bar", "")], true)])
        .expect_err("duplicate attribute should be disallowed");
}

#[test]
fn innermost_tag_is_closed_first() {
    let nodes = vec![opening("a", vec![], false), opening("b", vec![], false), closing("a"), closing("b")];
    let err = check_node_tree(&nodes).unwrap_err();
    match err.kind {
        ErrorKind::ClosingMismatch { expected, found } => {
            assert_eq!(expected, "b");
            assert_eq!(found, "a");
        }
        other => panic!("unexpected {:?}", other),
    }
}

#[test]
fn last_unmatched_opening_is_reported() {
    let nodes = vec![opening("a", vec![], false), opening("b", vec![], false)];
    let err = check_node_tree(&nodes).unwrap_err();
    assert!(matches!(err.kind, ErrorKind::UnmatchedOpening { name } if name == "b"));
}

#[test]
fn duplicate_reports_last_attribute() {
    let mut x = attr("x", "1");
    x.span = Span { start: 1, end: 2 };
    let mut y = attr("y", "2");
    y.span = Span { start: 2, end: 3 };
    let mut x2 = attr("x", "3");
    x2.span = Span { start: 3, end: 4 };
    let err = check_duplicate_attrs(&vec![opening("p", vec![x, y, x2], true)]).unwrap_err();
    assert!(matches!(&err.kind, ErrorKind::DuplicateAttribute { name } if name == "x"));
    assert_eq!(err.span, Span { start: 3, end: 4 });
}

#[test]
fn balance_is_checked_before_duplicates() {
    let nodes = vec![opening("p", vec![attr("x", "1"), attr("x", "2")], false)];
    assert!(matches!(validate(&nodes).unwrap_err().kind, ErrorKind::UnmatchedOpening { .. }));
    let nodes = vec![opening("p", vec![attr("x", "1"), attr("x", "2")], false), closing("p")];
    assert!(matches!(validate(&nodes).unwrap_err().kind, ErrorKind::DuplicateAttribute { .. }));
    let nodes = vec![opening("p", vec![attr("x", "1"), attr("y", "2")], false), closing("p")];
    assert!(validate(&nodes).is_ok());
}

#[test]
fn escape_special_characters() {
    assert_eq!(escape("<a href=\"x\">&</a>"), "&lt;a href=&quot;x&quot;&gt;&amp;&lt;/a&gt;");
    assert_eq!(escape("it's"), "it's");
    assert_eq!(escape(""), "");
}

#[test]
fn escape_into_appends() {
    let mut out = String::from("<p>");
    escape_into("a<b", &mut out);
    assert_eq!(out, "<p>a&lt;b");
}

#[test]
fn render_values() {
    let mut out = String::new();
    42u32.render_to(&mut out);
    (-7i64).render_to(&mut out);
    0u8.render_to(&mut out);
    u128::MAX.render_to(&mut out);
    i128::MIN.render_to(&mut out);
    assert_eq!(
        out,
        "42-70340282366920938463463374607431768211455-170141183460469231731687303715884105728"
    );
}

#[test]
fn render_text_and_flags() {
    let mut out = String::new();
    String::from("<&>").render_to(&mut out);
    '"'.render_to(&mut out);
    true.render_to(&mut out);
    false.render_to(&mut out);
    ().render_to(&mut out);
    PreEscaped(String::from("<br>")).render_to(&mut out);
    "x<".render_to(&mut out);
    assert_eq!(out, "&lt;&amp;&gt;&quot;truefalse<br>x&lt;");
}

#[test]
fn render_pre_escaped_str() {
    let mut out = String::new();
    PreEscaped("<b>&</b>").render_to(&mut out);
    assert_eq!(out, "<b>&</b>");
}
