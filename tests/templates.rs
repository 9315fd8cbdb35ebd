use fhtml::compile;
use fhtml::{Delimiter, ErrorKind, LitValue, Segment, Span, Token};
use proc_macro2::{Spacing, TokenStream, TokenTree};

fn flatten(stream: TokenStream, out: &mut Vec<Token>) {
    for tree in stream {
        match tree {
            TokenTree::Ident(i) => out.push(Token::Ident(i.to_string())),
            TokenTree::Punct(p) => out.push(Token::Punct(p.as_char(), p.spacing() == Spacing::Joint)),
            TokenTree::Literal(l) => {
                let text = l.to_string();
                let value = match syn::Lit::new(l) {
                    syn::Lit::Str(s) => LitValue::Str(s.value()),
                    syn::Lit::Char(c) => LitValue::Char(c.value()),
                    syn::Lit::Byte(b) => LitValue::Byte(b.value()),
                    syn::Lit::Int(i) => match i.base10_parse::<u128>() {
                        Ok(n) => LitValue::Int(n),
                        Err(_) => LitValue::Other,
                    },
                    syn::Lit::Float(f) => LitValue::Float(f.base10_digits().to_string()),
                    _ => LitValue::Other,
                };
                out.push(Token::Literal(text, value));
            }
            TokenTree::Group(g) => {
                let d = match g.delimiter() {
                    proc_macro2::Delimiter::Parenthesis => Some(Delimiter::Paren),
                    proc_macro2::Delimiter::Brace => Some(Delimiter::Brace),
                    proc_macro2::Delimiter::Bracket => Some(Delimiter::Bracket),
                    proc_macro2::Delimiter::None => None,
                };
                if let Some(d) = d {
                    out.push(Token::Open(d));
                }
                flatten(g.stream(), out);
                if let Some(d) = d {
                    out.push(Token::Close(d));
                }
            }
        }
    }
}

fn lex(src: &str) -> Vec<Token> {
    let stream: TokenStream = src.parse().expect("source lexes");
    let mut out = Vec::new();
    flatten(stream, &mut out);
    out
}

fn token_text(tokens: &[Token], span: Span) -> String {
    let mut s = String::new();
    for t in &tokens[span.start..span.end] {
        match t {
            Token::Ident(x) => {
                s.push_str(x);
                s.push(' ');
            }
            Token::Punct(c, _) => s.push(*c),
            Token::Literal(x, _) => s.push_str(x),
            Token::Open(Delimiter::Paren) => s.push('('),
            Token::Open(Delimiter::Brace) => s.push('{'),
            Token::Open(Delimiter::Bracket) => s.push('['),
            Token::Close(Delimiter::Paren) => s.push(')'),
            Token::Close(Delimiter::Brace) => s.push('}'),
            Token::Close(Delimiter::Bracket) => s.push(']'),
        }
    }
    s.trim_end().to_string()
}

/// Compiles `src` and writes its segments, taking the value of each
/// placeholder in turn from `args`.
fn render(src: &str, args: &[String]) -> String {
    let tokens = lex(src);
    let segs = compile::format(&tokens).expect("template compiles");
    let mut out = String::new();
    let mut next = args.iter();
    for seg in &segs {
        match seg {
            Segment::Literal(t) => out.push_str(t),
            Segment::Placeholder { escape, .. } => {
                let v = next.next().expect("one argument per placeholder");
                if *escape {
                    out.push_str(&fhtml::escape(v));
                } else {
                    out.push_str(v);
                }
            }
        }
    }
    assert!(next.next().is_none());
    out
}

/// The placeholders of `src`: expression text, specifier and escape flag.
fn placeholders(src: &str) -> Vec<(String, Option<String>, bool)> {
    let tokens = lex(src);
    let segs = compile::format(&tokens).expect("template compiles");
    segs.iter()
        .filter_map(|s| match s {
            Segment::Placeholder { expr, escape, spec } => {
                Some((token_text(&tokens, *expr), spec.clone(), *escape))
            }
            Segment::Literal(_) => None,
        })
        .collect()
}

fn literal(src: &str) -> String {
    render(src, &[])
}

#[test]
fn simple_tags() {
    assert_eq!(literal("<foo></foo>"), "<foo></foo>");
    assert_eq!(literal("<bar></bar>"), "<bar></bar>");
    assert_eq!(literal("<foo></foo><bar></bar>"), "<foo></foo><bar></bar>");
}

#[test]
fn basic_syntax_nested_tags() {
    assert_eq!(literal("<foo><bar></bar></foo>"), "<foo><bar></bar></foo>");
    assert_eq!(
        literal("<foo><bar><baz></baz></bar><qux></qux></foo>"),
        "<foo><bar><baz></baz></bar><qux></qux></foo>"
    );
    assert_eq!(
        literal("<foo><foo><foo></foo><baz></baz></foo></foo>"),
        "<foo><foo><foo></foo><baz></baz></foo></foo>"
    );
}

#[test]
fn void_tags() {
    assert_eq!(literal("<foo />"), "<foo>");
    assert_eq!(literal("<bar />"), "<bar>");
    assert_eq!(literal("<foo /><bar />"), "<foo><bar>");
}

#[test]
fn simple_attributes() {
    assert_eq!(literal(r#"<foo bar="baz"></foo>"#), "<foo bar=\"baz\"></foo>");
    assert_eq!(
        literal(r#"<foo bar="baz" qux="quux"></foo>"#),
        "<foo bar=\"baz\" qux=\"quux\"></foo>"
    );
    assert_eq!(
        literal(r#"<foo bar="baz" qux="quux"></foo><foo bar="baz"></foo>"#),
        "<foo bar=\"baz\" qux=\"quux\"></foo><foo bar=\"baz\"></foo>"
    );
    let src = r#"<div class={concat!("hello ", "world!")}></div>"#;
    assert_eq!(
        render(src, &[["hello ", "world!"].concat()]),
        "<div class=\"hello world!\"></div>"
    );
}

#[test]
fn valid_expressions() {
    let tokens = lex("<div>{10_u8}</div>");
    assert_eq!(compile::concat(&tokens).unwrap(), "<div>10</div>");
    let tokens = lex(r#"<div>{"foo"}</div>"#);
    assert_eq!(compile::concat(&tokens).unwrap(), "<div>foo</div>");
}

#[test]
fn doctype() {
    assert_eq!(literal("<!DOCTYPE html>"), "<!DOCTYPE html>");
    assert_eq!(literal("<!doctype html>"), "<!DOCTYPE html>");
}

#[test]
fn empty_tags() {
    assert_eq!(literal("<div></div>"), "<div></div>");
    assert_eq!(literal("<span></span>"), "<span></span>");
    assert_eq!(literal("<b></b>"), "<b></b>");
    assert_eq!(literal("<body></body>"), "<body></body>");
    assert_eq!(literal("<br />"), "<br>");
}

#[test]
fn format_nested_tags() {
    assert_eq!(literal("<div><span></span></div>"), "<div><span></span></div>");
    assert_eq!(literal("<div><footer></footer></div>"), "<div><footer></footer></div>");
    assert_eq!(
        literal("<div><div><div><div></div></div></div></div>"),
        "<div><div><div><div></div></div></div></div>"
    );
}

#[test]
fn tags_with_attributes() {
    assert_eq!(literal(r#"<div id="foo"></div>"#), "<div id=\"foo\"></div>");
    assert_eq!(
        literal(r#"<p id="foo" class="bar"></p>"#),
        "<p id=\"foo\" class=\"bar\"></p>"
    );
    assert_eq!(
        literal(r#"<a href="https://docs.rs/fhtml"></a>"#),
        "<a href=\"https://docs.rs/fhtml\"></a>"
    );
}

#[test]
fn tags_with_dashes() {
    assert_eq!(literal("<foo-bar></foo-bar>"), "<foo-bar></foo-bar>");
    assert_eq!(
        literal(r##"<button hx-post="/foo/bar" hx-target="#bar"></button>"##),
        "<button hx-post=\"/foo/bar\" hx-target=\"#bar\"></button>"
    );
}

#[test]
fn self_closing_tags() {
    // The end of an opening tag is written `>`, self-closing or not.
    assert_eq!(literal("<img />"), "<img>");
    assert_eq!(literal("<input />"), "<input>");
    assert_eq!(literal("<img />"), "<img>");
}

#[test]
fn self_closing_tags_with_attributes() {
    assert_eq!(literal(r#"<br class="foo" />"#), "<br class=\"foo\">");
    assert_eq!(literal(r#"<input class="foo bar" />"#), "<input class=\"foo bar\">");
    assert_eq!(
        literal(r#"<img src="/foo.webp" id="foo" class="foo bar" />"#),
        "<img src=\"/foo.webp\" id=\"foo\" class=\"foo bar\">"
    );
}

#[test]
fn iterators() {
    let src = r#"<ul>{ (0..10).map(|i| fhtml::format!(<li>{i}</li>)).collect::<Vec<_>>().join("") }</ul>"#;
    let ph = placeholders(src);
    assert_eq!(ph.len(), 1);
    assert_eq!(ph[0].1, None);
    let inner: String = (0..10).map(|i| render("<li>{i}</li>", &[i.to_string()])).collect();
    assert_eq!(
        render(src, &[inner]),
        "<ul><li>0</li><li>1</li><li>2</li><li>3</li><li>4</li><li>5</\
         li><li>6</li><li>7</li><li>8</li><li>9</li></ul>"
    );
}

#[test]
fn expressions_escape() {
    let src = r#"<div>{"<b>foo</b>":!}</div>"#;
    assert_eq!(placeholders(src), vec![("\"<b>foo</b>\"".to_string(), None, true)]);
    assert_eq!(render(src, &["<b>foo</b>".to_string()]), "<div>&lt;b&gt;foo&lt;/b&gt;</div>");
    assert_eq!(render(r#"<div>{"":!}</div>"#, &[String::new()]), "<div></div>");
    let src = r#"<div>{String::from("<<>>"):!}</div>"#;
    assert_eq!(placeholders(src)[0].2, true);
    assert_eq!(render(src, &[String::from("<<>>")]), "<div>&lt;&lt;&gt;&gt;</div>");
}

#[test]
fn expressions_display() {
    assert_eq!(render("<div>{1 + 1}</div>", &[(1 + 1).to_string()]), "<div>2</div>");
    assert_eq!(
        render(r#"<div class={format!("foo {}", "bar")}></div>"#, &[format!("foo {}", "bar")]),
        "<div class=\"foo bar\"></div>"
    );
    let foo = "bar";
    assert_eq!(render("<div>{foo}</div>", &[foo.to_string()]), "<div>bar</div>");
    let inner = literal("<head></head><body></body>");
    assert_eq!(
        render("<html>{fhtml::format!(<head></head><body></body>)}</html>", &[inner]),
        "<html><head></head><body></body></html>"
    );
}

#[test]
fn expressions_debug() {
    let src = "<code>{vec![1, 2, 3]:?}</code>";
    assert_eq!(placeholders(src)[0].1.as_deref(), Some("?"));
    assert_eq!(render(src, &[format!("{:?}", vec![1, 2, 3])]), "<code>[1, 2, 3]</code>");
    let src = "<code>{1..10:?}</code>";
    assert_eq!(placeholders(src)[0].1.as_deref(), Some("?"));
    assert_eq!(render(src, &[format!("{:?}", 1..10)]), "<code>1..10</code>");
    let src = r#"<code>{Some("foo"):?}</code>"#;
    assert_eq!(render(src, &[format!("{:?}", Some("foo"))]), "<code>Some(\"foo\")</code>");
}

#[test]
fn expressions_debug_alternate() {
    let src = "<code>{vec![1, 2, 3]:#?}</code>";
    assert_eq!(placeholders(src)[0].1.as_deref(), Some("#?"));
    assert_eq!(
        render(src, &[format!("{:#?}", vec![1, 2, 3])]),
        "<code>[\n    1,\n    2,\n    3,\n]</code>"
    );
    assert_eq!(render("<code>{1..10:#?}</code>", &[format!("{:#?}", 1..10)]), "<code>1..10</code>");
    assert_eq!(
        render(r#"<code>{Some("foo"):#?}</code>"#, &[format!("{:#?}", Some("foo"))]),
        "<code>Some(\n    \"foo\",\n)</code>"
    );
}

#[test]
fn expressions_binary() {
    let src = "<div>{10:b}</div>";
    assert_eq!(placeholders(src), vec![("10".to_string(), Some("b".to_string()), false)]);
    assert_eq!(render(src, &[format!("{:b}", 10)]), "<div>1010</div>");
}

#[test]
fn expressions_binary_alternate() {
    let src = "<div>{10:#b}</div>";
    assert_eq!(placeholders(src)[0].1.as_deref(), Some("#b"));
    assert_eq!(render(src, &[format!("{:#b}", 10)]), "<div>0b1010</div>");
}

fn write_segments(segs: &[Segment], out: &mut impl std::io::Write) -> std::io::Result<()> {
    for seg in segs {
        match seg {
            Segment::Literal(t) => out.write_all(t.as_bytes())?,
            Segment::Placeholder { .. } => panic!("no placeholder expected"),
        }
    }
    Ok(())
}

#[test]
fn write_to_io_buffer() {
    let tokens = lex(r#"buffer, <div>"foo"</div>"#);
    let input = compile::write(&tokens).unwrap();
    assert_eq!(input.buffer, Span { start: 0, end: 1 });
    let mut buffer = vec![];
    write_segments(&input.segments, &mut buffer).unwrap();
    assert_eq!(buffer, b"<div>foo</div>");
}

#[test]
fn write_to_string() {
    let tokens = lex(r#"buffer, <div>"foo"</div>"#);
    let input = compile::write(&tokens).unwrap();
    let mut buffer = String::new();
    for seg in &input.segments {
        if let Segment::Literal(t) = seg {
            buffer.push_str(t);
        }
    }
    assert_eq!(buffer, "<div>foo</div>");
}

#[test]
fn write() {
    let tokens = lex(r#"output, <h1>"Hello, world!"</h1>"#);
    let input = compile::write(&tokens).unwrap();
    let mut output = String::new();
    for seg in &input.segments {
        if let Segment::Literal(t) = seg {
            output.push_str(t);
        }
    }
    assert_eq!(output, "<h1>Hello, world!</h1>");
}

#[test]
fn writeln() {
    let tokens = lex(r#"<h1>"Hello, world!"</h1>"#);
    let f = compile::format_args_nl(&tokens).unwrap();
    assert!(f.args.is_empty());
    assert_eq!(f.template, "<h1>Hello, world!</h1><br>");
}

#[test]
fn format() {
    assert_eq!(literal(r#"<h1>"Hello, world!"</h1>"#), "<h1>Hello, world!</h1>");
}

#[test]
fn concat() {
    assert_eq!(compile::concat(&lex("<div>{1}</div>")).unwrap(), "<div>1</div>");
    assert_eq!(
        compile::concat(&lex(r#"<img src="/foo.png" alt="foo" />"#)).unwrap(),
        "<img src=\"/foo.png\" alt=\"foo\">"
    );
}

#[test]
fn scenario_empty_div() {
    let segs = compile::format(&lex("<div></div>")).unwrap();
    assert_eq!(segs.len(), 1);
    assert!(matches!(&segs[0], Segment::Literal(t) if t == "<div></div>"));
}

#[test]
fn scenario_paragraph_text() {
    let segs = compile::format(&lex(r#"<p>"Hello, World!"</p>"#)).unwrap();
    assert_eq!(segs.len(), 1);
    assert!(matches!(&segs[0], Segment::Literal(t) if t == "<p>Hello, World!</p>"));
}

#[test]
fn scenario_user_placeholder() {
    let tokens = lex("<div>{user}</div>");
    let segs = compile::format(&tokens).unwrap();
    assert_eq!(segs.len(), 3);
    assert!(matches!(&segs[0], Segment::Literal(t) if t == "<div>"));
    match &segs[1] {
        Segment::Placeholder { expr, escape, spec } => {
            assert_eq!(token_text(&tokens, *expr), "user");
            assert!(!escape);
            assert_eq!(*spec, None);
        }
        other => panic!("unexpected {:?}", other),
    }
    assert!(matches!(&segs[2], Segment::Literal(t) if t == "</div>"));
    assert_eq!(render("<div>{user}</div>", &["Alice".to_string()]), "<div>Alice</div>");
}

#[test]
fn scenario_escaped_literal_stays_placeholder() {
    let tokens = lex(r#"<div>{"<b>x</b>":!}</div>"#);
    let segs = compile::format(&tokens).unwrap();
    assert_eq!(segs.len(), 3);
    assert!(matches!(&segs[1], Segment::Placeholder { escape: true, spec: None, .. }));
    assert_eq!(
        render(r#"<div>{"<b>x</b>":!}</div>"#, &["<b>x</b>".to_string()]),
        "<div>&lt;b&gt;x&lt;/b&gt;</div>"
    );
}

#[test]
fn scenario_closing_mismatch() {
    let err = compile::format(&lex("<foo></bar>")).unwrap_err();
    assert_eq!(err.message(), "closing tag mismatch, expected `</foo>`, found `</bar>`");
    assert_eq!(err.span, Span { start: 3, end: 7 });
}

#[test]
fn scenario_duplicate_attribute() {
    let err = compile::format(&lex(r#"<img src="/a.png" src="/b.png" />"#)).unwrap_err();
    assert_eq!(err.message(), "duplicate attribute `src`");
    assert!(matches!(err.kind, ErrorKind::DuplicateAttribute { .. }));
}

#[test]
fn specifier_with_literal_is_not_inlined() {
    let ph = placeholders("<div>{10:x}</div>");
    assert_eq!(ph, vec![("10".to_string(), Some("x".to_string()), false)]);
    let ph = placeholders(r#"<div>{"x":!}</div>"#);
    assert_eq!(ph.len(), 1);
    assert!(ph[0].2);
}

#[test]
fn constant_forms_are_inlined() {
    assert_eq!(literal(r#"<p>{("a")}</p>"#), "<p>a</p>");
    assert_eq!(literal(r#"<p>{&"b"}</p>"#), "<p>b</p>");
    assert_eq!(literal("<p>{const { 1; 42 }}</p>"), "<p>42</p>");
    assert_eq!(literal("<p>{true}</p>"), "<p>true</p>");
    assert_eq!(literal("<p>{'c'}</p>"), "<p>c</p>");
    assert_eq!(literal("<p>{b'a'}</p>"), "<p>97</p>");
    assert_eq!(literal("<p>{0x10}</p>"), "<p>16</p>");
    assert_eq!(literal("<p>{1.5}</p>"), "<p>1.5</p>");
    assert_eq!(placeholders("<p>{-1}</p>").len(), 1);
}

#[test]
fn static_template_is_one_literal() {
    let segs = compile::format(&lex(r#"<!DOCTYPE html><a href="x" id={"y"}>"t"</a>"#)).unwrap();
    assert_eq!(segs.len(), 1);
    assert!(matches!(&segs[0], Segment::Literal(t) if t == "<!DOCTYPE html><a href=\"x\" id=\"y\">t</a>"));
}

#[test]
fn empty_template_has_no_segment() {
    assert!(compile::format(&lex("")).unwrap().is_empty());
}

#[test]
fn format_args_escapes_braces() {
    let f = compile::format_args(&lex(r#"<p>"{x}"{y:?}</p>"#)).unwrap();
    assert_eq!(f.template, "<p>{{x}}{:?}</p>");
    assert_eq!(f.args.len(), 1);
}

#[test]
fn concat_rejects_expression() {
    let err = compile::concat(&lex("<p>{x}</p>")).unwrap_err();
    assert!(matches!(err.kind, ErrorKind::DynamicValue));
}

#[test]
fn unmatched_tags_are_rejected() {
    let err = compile::format(&lex("<div>")).unwrap_err();
    assert_eq!(err.message(), "opening tag has no corresponding closing tag `</div>`");
    let err = compile::format(&lex("</div>")).unwrap_err();
    assert_eq!(err.message(), "closing tag has no corresponding opening tag `<div>`");
}

#[test]
fn grammar_errors() {
    let err = compile::format(&lex("<div>x</div>")).unwrap_err();
    assert!(matches!(err.kind, ErrorKind::UnexpectedToken));
    let err = compile::format(&lex("<div>{}</div>")).unwrap_err();
    assert!(matches!(err.kind, ErrorKind::UnexpectedToken));
    let err = compile::format(&lex("<div>{x:(a)}</div>")).unwrap_err();
    assert!(matches!(err.kind, ErrorKind::InvalidSpecifier));
    assert_eq!(err.message(), "invalid specifier");
}

#[test]
fn unbalanced_group_is_rejected() {
    let tokens = vec![Token::Open(Delimiter::Brace), Token::Ident("x".to_string())];
    let err = compile::format(&tokens).unwrap_err();
    assert!(matches!(err.kind, ErrorKind::UnbalancedGroup));
}

#[test]
fn path_in_expression_is_not_a_separator() {
    let ph = placeholders("<p>{std::f64::consts::PI:.2}</p>");
    assert_eq!(ph.len(), 1);
    assert_eq!(ph[0].1.as_deref(), Some(".2"));
}

#[test]
fn write_needs_a_destination() {
    let err = compile::write(&lex("<p></p>")).unwrap_err();
    assert!(matches!(err.kind, ErrorKind::UnexpectedToken));
}

#[test]
fn doctype_keyword_ignores_case() {
    assert_eq!(literal("<!DocType HTML>"), "<!DOCTYPE html>");
    let err = compile::format(&lex("<!DOCTYPE xml>")).unwrap_err();
    assert!(matches!(err.kind, ErrorKind::UnexpectedToken));
}

#[test]
fn dash_name_must_continue_after_dash() {
    let err = compile::format(&lex("<a- ></a>")).unwrap_err();
    assert!(matches!(err.kind, ErrorKind::UnexpectedToken));
}

#[test]
fn nested_const_blocks_are_inlined() {
    assert_eq!(literal("<p>{const { 0; (const { 1; 2 }) }}</p>"), "<p>2</p>");
    assert_eq!(literal("<p>{(const { 1; 2 })}</p>"), "<p>2</p>");
    assert_eq!(placeholders("<p>{const { 1; }}</p>").len(), 1);
}

#[test]
fn stray_token_is_reported_where_it_stands() {
    let err = compile::format(&lex("<div></div> = 1")).unwrap_err();
    assert!(matches!(err.kind, ErrorKind::UnexpectedToken));
    assert_eq!(err.span, Span { start: 7, end: 7 });
    assert_eq!(err.message(), "unexpected token");
}

#[test]
fn missing_pieces_of_a_tag_are_reported_where_they_belong() {
    let err = compile::format(&lex(r#"<a href "x"></a>"#)).unwrap_err();
    assert_eq!(err.span, Span { start: 3, end: 3 });
    let err = compile::format(&lex("<a")).unwrap_err();
    assert_eq!(err.span, Span { start: 2, end: 2 });
    let err = compile::format(&lex("<></>")).unwrap_err();
    assert_eq!(err.span, Span { start: 1, end: 1 });
    let err = compile::format(&lex("<a href=></a>")).unwrap_err();
    assert_eq!(err.span, Span { start: 4, end: 4 });
}

#[test]
fn escaped_argument_with_specifier_is_formatted_first() {
    let f = compile::format_args(&lex(r#"<p>{x:!?}{y:?}</p>"#)).unwrap();
    assert_eq!(f.template, "<p>{}{:?}</p>");
    assert_eq!(f.args.len(), 2);
}
