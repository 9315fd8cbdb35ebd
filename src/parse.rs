//! The grammar of templates over tokens, and the parser.

use vstd::prelude::*;

use crate::ast::{Attribute, DashIdent, Doctype, Node, Tag, Template, Value};
use crate::error::{Error, ErrorKind, ErrorView};
use crate::lower::{collect_values, dynamic_values, lemma_dynamic_values_append, node_parts, nodes_parts};
use crate::merge::opt_view;
use crate::number::{decimal, format_unsigned};
use crate::text::{push_char, push_str, same_text};
use crate::token::{is_punct, punct_is, Delimiter, LitValue, Span, Token};

verus! {

/// How much `t` changes the nesting depth of groups.
pub open spec fn delta(t: Token) -> int {
    match t {
        Token::Open(_) => 1,
        Token::Close(_) => -1,
        _ => 0,
    }
}

/// The nesting depth reached after the tokens in `[a, b)`, starting from zero.
pub open spec fn depth(toks: Seq<Token>, a: int, b: int) -> int
    decreases b - a,
{
    if b <= a {
        0
    } else {
        depth(toks, a, b - 1) + delta(toks[b - 1])
    }
}

/// The group opened at `s` is closed at `c`.
pub open spec fn group_closes_at(toks: Seq<Token>, s: int, c: int) -> bool {
    &&& 0 <= s < c < toks.len()
    &&& toks[s] is Open
    &&& depth(toks, s, c + 1) == 0
    &&& forall|m: int| s < m <= c ==> #[trigger] depth(toks, s, m) > 0
}

/// The token at `k` is a `:` that is not half of a `::`.
pub open spec fn lone_colon(toks: Seq<Token>, k: int) -> bool {
    &&& toks[k] matches Token::Punct(':', joint) && !(joint && k + 1 < toks.len() && is_punct(
        toks[k + 1],
        ':',
    ))
    &&& !(k > 0 && toks[k - 1] == Token::Punct(':', true))
}

/// The token at `k` is a lone `:` directly inside the group opened at `s`.
pub open spec fn is_separator(toks: Seq<Token>, s: int, k: int) -> bool {
    depth(toks, s + 1, k) == 0 && lone_colon(toks, k)
}

/// `k` is the position of the first separator inside the group `(s, c)`, or
/// `c` when there is none.
pub open spec fn first_separator(toks: Seq<Token>, s: int, c: int, k: int) -> bool {
    &&& s < k <= c
    &&& (k == c || is_separator(toks, s, k))
    &&& forall|m: int| s < m < k ==> !#[trigger] is_separator(toks, s, m)
}

/// The text a token is spelled with in a format specifier; none for a group
/// delimiter.
pub open spec fn token_text(t: Token) -> Option<Seq<char>> {
    match t {
        Token::Ident(s) => Some(s@),
        Token::Punct(c, _) => Some(seq![c]),
        Token::Literal(s, _) => Some(s@),
        _ => None,
    }
}

/// `t` opens or closes a group.
pub open spec fn is_group_token(t: Token) -> bool {
    t is Open || t is Close
}

/// The text of the tokens in `[a, b)`, joined without spaces; none when one of
/// them is a group delimiter.
pub open spec fn spec_text(toks: Seq<Token>, a: int, b: int) -> Option<Seq<char>>
    decreases b - a,
{
    if b <= a {
        Some(Seq::empty())
    } else {
        match (spec_text(toks, a, b - 1), token_text(toks[b - 1])) {
            (Some(x), Some(y)) => Some(x + y),
            _ => None,
        }
    }
}

/// The text of a literal token or of `true` / `false`, as it is displayed;
/// none for other tokens.
pub open spec fn literal_text(t: Token) -> Option<Seq<char>> {
    match t {
        Token::Literal(_, LitValue::Str(s)) => Some(s@),
        Token::Literal(_, LitValue::Char(c)) => Some(seq![c]),
        Token::Literal(_, LitValue::Byte(b)) => Some(decimal(b as nat)),
        Token::Literal(_, LitValue::Int(n)) => Some(decimal(n as nat)),
        Token::Literal(_, LitValue::Float(d)) => Some(d@),
        Token::Ident(s) => if s@ == "true"@ || s@ == "false"@ {
            Some(s@)
        } else {
            None
        },
        _ => None,
    }
}

/// The last position in `[a, b)` holding a `;` outside any group opened
/// after `a`, or `a - 1` when none does.
pub open spec fn last_semicolon(toks: Seq<Token>, a: int, b: int) -> int
    decreases b - a,
{
    if b <= a {
        a - 1
    } else if is_punct(toks[b - 1], ';') && depth(toks, a, b - 1) == 0 {
        b - 1
    } else {
        last_semicolon(toks, a, b - 1)
    }
}

/// The text of the constant expression in `[a, b)`: a literal, possibly in
/// parentheses, behind `&` or `&mut`, or as the final expression of a
/// `const { .. }` block; none for any other expression.
pub open spec fn const_text(toks: Seq<Token>, a: int, b: int) -> Option<Seq<char>>
    decreases b - a,
{
    if a < 0 || b > toks.len() || b <= a {
        None
    } else if b - a == 1 {
        literal_text(toks[a])
    } else if toks[a] == Token::Open(Delimiter::Paren) && toks[b - 1] == Token::Close(
        Delimiter::Paren,
    ) {
        const_text(toks, a + 1, b - 1)
    } else if is_punct(toks[a], '&') {
        if toks[a + 1] matches Token::Ident(m) && m@ == "mut"@ {
            const_text(toks, a + 2, b)
        } else {
            const_text(toks, a + 1, b)
        }
    } else if toks[a] matches Token::Ident(k) && k@ == "const"@ && toks[a + 1] == Token::Open(
        Delimiter::Brace,
    ) && toks[b - 1] == Token::Close(Delimiter::Brace) && b - a >= 3 {
        let p = last_semicolon(toks, a + 2, b - 1);
        if a <= p < b - 1 {
            const_text(toks, p + 1, b - 1)
        } else {
            None
        }
    } else {
        None
    }
}

/// The position of the token that closes the group opened at `s`.
fn group_end(tokens: &Vec<Token>, s: usize) -> (r: Result<usize, Error>)
    requires
        s < tokens@.len(),
        tokens@[s as int] is Open,
    ensures
        match r {
            Ok(c) => group_closes_at(tokens@, s as int, c as int),
            Err(e) => e.kind is UnbalancedGroup && e.span.start == s && forall|c: int| !#[trigger] group_closes_at(
                tokens@,
                s as int,
                c,
            ),
        },
{
    let n = tokens.len();
    let mut level: usize = 1;
    let mut m: usize = s + 1;
    assert(depth(tokens@, s as int, s + 1) == 1) by {
        assert(depth(tokens@, s as int, s as int) == 0);
    }
    while m < tokens.len()
        invariant
            s < m <= tokens@.len(),
            tokens@[s as int] is Open,
            level as int == depth(tokens@, s as int, m as int),
            level > 0,
            level <= m - s,
            forall|j: int| s < j <= m ==> #[trigger] depth(tokens@, s as int, j) > 0,
        decreases tokens@.len() - m,
    {
        match &tokens[m] {
            Token::Open(_) => {
                level = level + 1;
            },
            Token::Close(_) => {
                level = level - 1;
                if level == 0 {
                    return Ok(m);
                }
            },
            _ => {},
        }
        m = m + 1;
    }
    Err(Error { kind: ErrorKind::UnbalancedGroup, span: Span { start: s, end: tokens.len() } })
}

proof fn lemma_depth_shift(toks: Seq<Token>, s: int, k: int)
    requires
        0 <= s < k <= toks.len(),
    ensures
        depth(toks, s, k) == delta(toks[s]) + depth(toks, s + 1, k),
    decreases k - s,
{
    if k > s + 1 {
        lemma_depth_shift(toks, s, k - 1);
        assert(depth(toks, s + 1, k) == depth(toks, s + 1, k - 1) + delta(toks[k - 1]));
    } else {
        assert(depth(toks, s, k) == depth(toks, s, s) + delta(toks[s]));
        assert(depth(toks, s + 1, k) == 0);
    }
}

proof fn lemma_group_end_unique(toks: Seq<Token>, s: int, c1: int, c2: int)
    requires
        group_closes_at(toks, s, c1),
        group_closes_at(toks, s, c2),
    ensures
        c1 == c2,
{
    if c1 < c2 {
        assert(depth(toks, s, c1 + 1) > 0);
    } else if c2 < c1 {
        assert(depth(toks, s, c2 + 1) > 0);
    }
}

pub proof fn lemma_first_separator_unique(toks: Seq<Token>, s: int, c: int, k1: int, k2: int)
    requires
        first_separator(toks, s, c, k1),
        first_separator(toks, s, c, k2),
    ensures
        k1 == k2,
{
}

/// Tells whether the token at `k` is a `:` that is not half of a `::`.
fn is_lone_colon(tokens: &Vec<Token>, k: usize) -> (r: bool)
    requires
        k < tokens@.len(),
    ensures
        r == lone_colon(tokens@, k as int),
{
    let n = tokens.len();
    match &tokens[k] {
        Token::Punct(':', joint) => {
            if *joint && k + 1 < n && punct_is(&tokens[k + 1], ':') {
                return false;
            }
            if k > 0 {
                match &tokens[k - 1] {
                    Token::Punct(':', true) => false,
                    _ => true,
                }
            } else {
                true
            }
        },
        _ => false,
    }
}

/// The position of the first separator inside the group `(s, c)`, or `c`.
fn find_separator(tokens: &Vec<Token>, s: usize, c: usize) -> (k: usize)
    requires
        group_closes_at(tokens@, s as int, c as int),
    ensures
        first_separator(tokens@, s as int, c as int, k as int),
{
    let mut level: usize = 0;
    let mut k: usize = s + 1;
    assert(depth(tokens@, s + 1, s + 1) == 0);
    while k < c
        invariant
            s < k <= c < tokens@.len(),
            group_closes_at(tokens@, s as int, c as int),
            level as int == depth(tokens@, s + 1, k as int),
            level <= k,
            forall|m: int| s < m < k ==> !#[trigger] is_separator(tokens@, s as int, m),
        decreases c - k,
    {
        proof {
            lemma_depth_shift(tokens@, s as int, k + 1);
            assert(depth(tokens@, s as int, k + 1) > 0);
        }
        if level == 0 && is_lone_colon(tokens, k) {
            return k;
        }
        match &tokens[k] {
            Token::Open(_) => {
                level = level + 1;
            },
            Token::Close(_) => {
                level = level - 1;
            },
            _ => {},
        }
        k = k + 1;
    }
    k
}

/// The text of the tokens in `[a, b)`, joined without spaces.
fn spec_string(tokens: &Vec<Token>, a: usize, b: usize) -> (r: Result<String, Error>)
    requires
        a <= b <= tokens@.len(),
    ensures
        match r {
            Ok(t) => spec_text(tokens@, a as int, b as int) == Some(t@),
            Err(e) => {
                &&& spec_text(tokens@, a as int, b as int) is None
                &&& e.kind is InvalidSpecifier
                &&& a <= e.span.start < b
                &&& is_group_token(tokens@[e.span.start as int])
                &&& spec_text(tokens@, a as int, e.span.start as int) is Some
            },
        },
{
    let mut out = String::new();
    let mut m: usize = a;
    while m < b
        invariant
            a <= m <= b <= tokens@.len(),
            spec_text(tokens@, a as int, m as int) == Some(out@),
        decreases b - m,
    {
        match &tokens[m] {
            Token::Ident(x) => push_str(&mut out, x.as_str()),
            Token::Punct(c, _) => {
                push_char(&mut out, *c);
                assert(out@ == spec_text(tokens@, a as int, m as int)->0 + seq![*c]);
            },
            Token::Literal(x, _) => push_str(&mut out, x.as_str()),
            _ => {
                proof { lemma_spec_text_none_extends(tokens@, a as int, m + 1, b as int); }
                return Err(Error { kind: ErrorKind::InvalidSpecifier, span: Span { start: m, end: m + 1 } });
            },
        }
        m = m + 1;
    }
    Ok(out)
}

proof fn lemma_spec_text_none_extends(toks: Seq<Token>, a: int, m: int, b: int)
    requires
        a <= m <= b,
        spec_text(toks, a, m) is None,
    ensures
        spec_text(toks, a, b) is None,
    decreases b - m,
{
    if m < b {
        lemma_spec_text_none_extends(toks, a, m, b - 1);
    }
}

/// The text of a literal token or of `true` / `false`.
fn literal_string(t: &Token) -> (r: Option<String>)
    ensures
        opt_view(r) == literal_text(*t),
{
    match t {
        Token::Literal(_, LitValue::Str(s)) => Some(s.clone()),
        Token::Literal(_, LitValue::Char(c)) => {
            let mut s = String::new();
            push_char(&mut s, *c);
            assert(s@ =~= seq![*c]);
            Some(s)
        },
        Token::Literal(_, LitValue::Byte(b)) => Some(format_unsigned(*b as u128)),
        Token::Literal(_, LitValue::Int(n)) => Some(format_unsigned(*n)),
        Token::Literal(_, LitValue::Float(d)) => Some(d.clone()),
        Token::Ident(s) => {
            if same_text(s.as_str(), "true") || same_text(s.as_str(), "false") {
                Some(s.clone())
            } else {
                None
            }
        },
        _ => None,
    }
}

/// The last position in `[lo, hi)` holding a `;` outside any group opened
/// after `lo`, or `lo - 1`.
fn last_semi(tokens: &Vec<Token>, lo: usize, hi: usize) -> (r: usize)
    requires
        1 <= lo <= hi <= tokens@.len(),
    ensures
        r as int == last_semicolon(tokens@, lo as int, hi as int),
{
    let mut last: usize = lo - 1;
    let mut opens: usize = 0;
    let mut closes: usize = 0;
    let mut m: usize = lo;
    assert(depth(tokens@, lo as int, lo as int) == 0);
    while m < hi
        invariant
            lo <= m <= hi <= tokens@.len(),
            opens + closes <= m - lo,
            opens - closes == depth(tokens@, lo as int, m as int),
            last as int == last_semicolon(tokens@, lo as int, m as int),
        decreases hi - m,
    {
        if opens == closes && punct_is(&tokens[m], ';') {
            last = m;
        }
        match &tokens[m] {
            Token::Open(_) => {
                opens = opens + 1;
            },
            Token::Close(_) => {
                closes = closes + 1;
            },
            _ => {},
        }
        m = m + 1;
    }
    last
}

/// Tells whether `t` is the identifier `word`.
fn ident_is(t: &Token, word: &str) -> (r: bool)
    ensures
        r == (t matches Token::Ident(x) && x@ == word@),
{
    match t {
        Token::Ident(x) => same_text(x.as_str(), word),
        _ => false,
    }
}

/// The text of the constant expression in `[a, b)`, if it is one.
fn const_string(tokens: &Vec<Token>, a: usize, b: usize) -> (r: Option<String>)
    requires
        b <= tokens@.len(),
    ensures
        opt_view(r) == const_text(tokens@, a as int, b as int),
    decreases b - a,
{
    if b <= a {
        return None;
    }
    if b - a == 1 {
        return literal_string(&tokens[a]);
    }
    let paren_open = match &tokens[a] {
        Token::Open(Delimiter::Paren) => true,
        _ => false,
    };
    let paren_close = match &tokens[b - 1] {
        Token::Close(Delimiter::Paren) => true,
        _ => false,
    };
    if paren_open && paren_close {
        return const_string(tokens, a + 1, b - 1);
    }
    if punct_is(&tokens[a], '&') {
        if ident_is(&tokens[a + 1], "mut") {
            return const_string(tokens, a + 2, b);
        } else {
            return const_string(tokens, a + 1, b);
        }
    }
    let brace_open = match &tokens[a + 1] {
        Token::Open(Delimiter::Brace) => true,
        _ => false,
    };
    let brace_close = match &tokens[b - 1] {
        Token::Close(Delimiter::Brace) => true,
        _ => false,
    };
    if ident_is(&tokens[a], "const") && brace_open && brace_close && b - a >= 3 {
        let p = last_semi(tokens, a + 2, b - 1);
        if a <= p && p < b - 1 {
            return const_string(tokens, p + 1, b - 1);
        }
    }
    None
}

/// `t` is a string literal with the value `text`.
pub open spec fn str_literal(t: Token, text: Seq<char>) -> bool {
    t matches Token::Literal(_, LitValue::Str(x)) && x@ == text
}

/// The brace group at `k` has a separator followed by `!`.
pub open spec fn escape_flag(toks: Seq<Token>, k: int, c: int) -> bool {
    k + 1 < c && is_punct(toks[k + 1], '!')
}

/// Where the format specifier starts, after the separator at `k` and the
/// escape flag if there is one.
pub open spec fn spec_start(toks: Seq<Token>, k: int, c: int) -> int {
    if escape_flag(toks, k, c) {
        k + 2
    } else {
        k + 1
    }
}

/// The format specifier of a brace group closed at `c` whose separator is at
/// `k` (`k == c` when there is none); none when it is absent or empty.
pub open spec fn spec_of(toks: Seq<Token>, k: int, c: int) -> Option<Seq<char>> {
    if k >= c {
        None
    } else {
        match spec_text(toks, spec_start(toks, k, c), c) {
            Some(t) => if t.len() > 0 {
                Some(t)
            } else {
                None
            },
            None => None,
        }
    }
}

/// `[s, e)` is a brace group `{ expr [: [!] [spec]] }` with a non-empty
/// expression that ends at `k`, and a specifier made of plain tokens.
pub open spec fn braced(toks: Seq<Token>, s: int, e: int, k: int) -> bool {
    &&& 0 <= s
    &&& toks[s] == Token::Open(Delimiter::Brace)
    &&& group_closes_at(toks, s, e - 1)
    &&& first_separator(toks, s, e - 1, k)
    &&& s + 1 < k
    &&& (k == e - 1 || spec_text(toks, spec_start(toks, k, e - 1), e - 1) is Some)
}

/// `[s, e)` spells the value `v`: a string literal, or a brace group. A
/// brace group becomes literal text exactly when it has neither escape flag
/// nor specifier and its expression is constant.
pub open spec fn value_spells(toks: Seq<Token>, v: Value, s: int, e: int) -> bool {
    &&& v.spec_span().start as int == s
    &&& v.spec_span().end as int == e
    &&& 0 <= s < e <= toks.len()
    &&& match v {
        Value::Literal { text, .. } => (e == s + 1 && str_literal(toks[s], text@)) || (exists|k: int|
            braced(toks, s, e, k) && !escape_flag(toks, k, e - 1) && spec_of(toks, k, e - 1) is None
                && #[trigger] const_text(toks, s + 1, k) == Some(text@)),
        Value::Expression { expr, spec, escape, .. } => {
            &&& braced(toks, s, e, expr.end as int)
            &&& expr.start as int == s + 1
            &&& escape == escape_flag(toks, expr.end as int, e - 1)
            &&& opt_view(spec) == spec_of(toks, expr.end as int, e - 1)
            &&& (escape || spec is Some || const_text(toks, s + 1, expr.end as int) is None)
        },
    }
}

/// `e` reports an unexpected token at `q`.
pub open spec fn unexpected_at(e: ErrorView, q: int) -> bool {
    e.kind is UnexpectedToken && e.span.start as int == q && e.span.end as int == q
}

fn unexpected(pos: usize) -> (r: Error)
    ensures
        r == (Error { kind: ErrorKind::UnexpectedToken, span: Span { start: pos, end: pos } }),
        unexpected_at(r@, pos as int),
{
    Error { kind: ErrorKind::UnexpectedToken, span: Span { start: pos, end: pos } }
}

/// How a value at `pos` fails to parse: no string literal or `{` there; a
/// brace group that is never closed; an empty expression, reported at the
/// token after `{`; or a group delimiter inside the format specifier,
/// reported at that delimiter.
pub open spec fn value_error(toks: Seq<Token>, pos: int, e: ErrorView) -> bool {
    let q = e.span.start as int;
    ||| unexpected_at(e, pos) && !(0 <= pos < toks.len() && (toks[pos] matches Token::Literal(
        _,
        LitValue::Str(_),
    ) || toks[pos] == Token::Open(Delimiter::Brace)))
    ||| e.kind is UnbalancedGroup && q == pos && 0 <= pos < toks.len() && toks[pos] == Token::Open(
        Delimiter::Brace,
    ) && forall|c: int| !#[trigger] group_closes_at(toks, pos, c)
    ||| unexpected_at(e, pos + 1) && 0 <= pos && toks[pos] == Token::Open(Delimiter::Brace) && exists|
        c: int,
    | #[trigger] group_closes_at(toks, pos, c) && first_separator(toks, pos, c, pos + 1)
    ||| e.kind is InvalidSpecifier && 0 <= pos && toks[pos] == Token::Open(Delimiter::Brace) && exists|
        c: int,
        k: int,
    |
        #[trigger] first_separator(toks, pos, c, k) && group_closes_at(toks, pos, c) && pos + 1 < k
            < c && spec_start(toks, k, c) <= q < c && is_group_token(toks[q]) && spec_text(
            toks,
            spec_start(toks, k, c),
            q,
        ) is Some
}

/// Parses a value at `pos`: a string literal, or an expression in braces with
/// an optional `:` followed by an optional `!` (escape the output) and a format
/// specifier. A constant expression with neither becomes literal text.
pub fn parse_value(tokens: &Vec<Token>, pos: usize) -> (r: Result<Value, Error>)
    ensures
        r matches Ok(v) ==> value_spells(tokens@, v, pos as int, v.spec_span().end as int),
        r matches Ok(v) ==> forall|w: Value, e: int|
            #[trigger] value_spells(tokens@, w, pos as int, e) ==> e == v.spec_span().end,
        r is Err ==> forall|w: Value, e: int| !#[trigger] value_spells(tokens@, w, pos as int, e),
        r matches Err(e) ==> value_error(tokens@, pos as int, e@),
{
    if pos >= tokens.len() {
        return Err(unexpected(pos));
    }
    match &tokens[pos] {
        Token::Literal(_, LitValue::Str(x)) => {
            Ok(Value::Literal { text: x.clone(), span: Span { start: pos, end: pos + 1 } })
        },
        Token::Open(Delimiter::Brace) => {
            let c = match group_end(tokens, pos) {
                Ok(c) => c,
                Err(e) => {
                    return Err(e);
                },
            };
            let k = find_separator(tokens, pos, c);
            let ghost s = pos as int;
            // Every spelling of a value here is a brace group closed at `c`,
            // whose expression ends at `k`.
            assert forall|e: int, k2: int| #[trigger] braced(tokens@, s, e, k2) implies e == c + 1
                && k2 == k by {
                lemma_group_end_unique(tokens@, s, e - 1, c as int);
                lemma_first_separator_unique(tokens@, s, c as int, k2, k as int);
            }
            if k == pos + 1 {
                return Err(unexpected(k));
            }
            let mut escape = false;
            let mut spec: Option<String> = None;
            if k < c {
                let mut start = k + 1;
                if k + 1 < c && punct_is(&tokens[k + 1], '!') {
                    escape = true;
                    start = k + 2;
                }
                let t = match spec_string(tokens, start, c) {
                    Ok(t) => t,
                    Err(e) => {
                        return Err(e);
                    },
                };
                if !t.as_str().is_empty() {
                    spec = Some(t);
                }
            }
            let span = Span { start: pos, end: c + 1 };
            if !escape && spec.is_none() {
                if let Some(text) = const_string(tokens, pos + 1, k) {
                    let v = Value::Literal { text, span };
                    assert(braced(tokens@, pos as int, c + 1, k as int));
                    return Ok(v);
                }
            }
            Ok(Value::Expression { expr: Span { start: pos + 1, end: k }, spec, escape, span })
        },
        _ => Err(unexpected(pos)),
    }
}

/// The dash-joined text of the identifiers in `[a, b)`, when those tokens are
/// identifiers separated by `-`.
pub open spec fn dash_text(toks: Seq<Token>, a: int, b: int) -> Option<Seq<char>>
    decreases b - a,
{
    if a < 0 || b > toks.len() || b <= a {
        None
    } else if b - a == 1 {
        match toks[a] {
            Token::Ident(x) => Some(x@),
            _ => None,
        }
    } else if b - a >= 3 && is_punct(toks[b - 2], '-') {
        match (dash_text(toks, a, b - 2), toks[b - 1]) {
            (Some(x), Token::Ident(y)) => Some(x + seq!['-'] + y@),
            _ => None,
        }
    } else {
        None
    }
}

/// The tokens of `d` spell its text.
pub open spec fn dash_spells(toks: Seq<Token>, d: DashIdent) -> bool {
    dash_text(toks, d.span.start as int, d.span.end as int) == Some(d.text@)
}

/// The tokens in `[a, b)` alternate identifiers and `-`, starting and ending
/// with an identifier.
pub open spec fn dash_shape(toks: Seq<Token>, a: int, b: int) -> bool {
    &&& 0 <= a < b <= toks.len()
    &&& (b - a) % 2 == 1
    &&& forall|i: int|
        a <= i < b ==> if (i - a) % 2 == 0 {
            #[trigger] toks[i] is Ident
        } else {
            is_punct(toks[i], '-')
        }
}

proof fn lemma_dash_shape(toks: Seq<Token>, a: int, b: int)
    requires
        0 <= a,
    ensures
        dash_text(toks, a, b) is Some <==> dash_shape(toks, a, b),
    decreases b - a,
{
    if b > a + 2 && b <= toks.len() {
        lemma_dash_shape(toks, a, b - 2);
        if dash_shape(toks, a, b) {
            assert(toks[b - 2] == toks[b - 2]);
            assert forall|i: int| a <= i < b - 2 implies if (i - a) % 2 == 0 {
                #[trigger] toks[i] is Ident
            } else {
                is_punct(toks[i], '-')
            } by {}
            assert(is_punct(toks[b - 2], '-'));
            assert(toks[b - 1] is Ident);
        }
        if dash_text(toks, a, b) is Some {
            assert forall|i: int| a <= i < b implies if (i - a) % 2 == 0 {
                #[trigger] toks[i] is Ident
            } else {
                is_punct(toks[i], '-')
            } by {
                if i < b - 2 {
                    assert(dash_shape(toks, a, b - 2));
                }
            }
        }
    } else if b == a + 1 && b <= toks.len() {
        if toks[a] is Ident {
            assert forall|i: int| a <= i < b implies if (i - a) % 2 == 0 {
                #[trigger] toks[i] is Ident
            } else {
                is_punct(toks[i], '-')
            } by {
                assert(i == a);
            }
        }
    }
}

/// `[a, e)` is a dash identifier that the token at `e`, if any, does not
/// continue.
pub open spec fn dash_end(toks: Seq<Token>, a: int, e: int) -> bool {
    dash_text(toks, a, e) is Some && !(e < toks.len() && is_punct(toks[e], '-'))
}

/// How a dash identifier at `pos` fails to parse: no identifier at `pos`, or a
/// `-` that no identifier follows, reported at the token after it.
pub open spec fn dash_error(toks: Seq<Token>, pos: int, e: ErrorView) -> bool {
    let q = e.span.start as int;
    &&& unexpected_at(e, q)
    &&& if q == pos {
        !(0 <= pos < toks.len() && toks[pos] is Ident)
    } else {
        pos < q && dash_shape(toks, pos, q - 1) && is_punct(toks[q - 1], '-') && !(q < toks.len()
            && toks[q] is Ident)
    }
}

/// Parses identifiers joined by dashes at `pos`; it stops at the first token
/// after an identifier that is not `-`.
pub fn parse_dash_ident(tokens: &Vec<Token>, pos: usize) -> (r: Result<DashIdent, Error>)
    ensures
        r matches Ok(d) ==> {
            &&& d.span.start == pos
            &&& d.span.end <= tokens@.len()
            &&& dash_spells(tokens@, d)
            &&& dash_end(tokens@, pos as int, d.span.end as int)
            &&& forall|e: int| #[trigger] dash_end(tokens@, pos as int, e) ==> e == d.span.end
        },
        r is Err ==> forall|e: int| !#[trigger] dash_end(tokens@, pos as int, e),
        r matches Err(e) ==> dash_error(tokens@, pos as int, e@),
{
    let ghost toks = tokens@;
    let ghost a = pos as int;
    if pos >= tokens.len() {
        return Err(unexpected(pos));
    }
    let mut text = match &tokens[pos] {
        Token::Ident(x) => x.clone(),
        _ => {
            assert forall|e: int| !#[trigger] dash_end(toks, a, e) by {
                lemma_dash_shape(toks, a, e);
                if dash_shape(toks, a, e) {
                    assert(toks[a] is Ident);
                }
            }
            return Err(unexpected(pos));
        },
    };
    let mut m: usize = pos + 1;
    proof {
        lemma_dash_shape(toks, a, a + 1);
    }
    while m < tokens.len() && punct_is(&tokens[m], '-')
        invariant
            toks == tokens@,
            a == pos,
            pos < m <= tokens@.len(),
            dash_text(tokens@, pos as int, m as int) == Some(text@),
            dash_shape(tokens@, pos as int, m as int),
        decreases tokens@.len() - m,
    {
        if m + 1 >= tokens.len() {
            proof {
                lemma_dash_stops(toks, a, m as int);
            }
            return Err(unexpected(m + 1));
        }
        match &tokens[m + 1] {
            Token::Ident(x) => {
                push_char(&mut text, '-');
                push_str(&mut text, x.as_str());
            },
            _ => {
                proof {
                    lemma_dash_stops(toks, a, m as int);
                }
                return Err(unexpected(m + 1));
            },
        }
        m = m + 2;
        proof {
            lemma_dash_shape(toks, a, m as int);
        }
    }
    proof {
        assert forall|e: int| #[trigger] dash_end(toks, a, e) implies e == m by {
            lemma_dash_shape(toks, a, e);
            if e < m {
                assert(is_punct(toks[e], '-'));
            } else if e > m {
                assert(is_punct(toks[m as int], '-'));
            }
        }
    }
    Ok(DashIdent { text, span: Span { start: pos, end: m } })
}

/// A dash identifier whose `-` at `m` is not followed by an identifier
/// cannot be completed.
proof fn lemma_dash_stops(toks: Seq<Token>, a: int, m: int)
    requires
        dash_shape(toks, a, m),
        m < toks.len(),
        is_punct(toks[m], '-'),
        !(m + 1 < toks.len() && toks[m + 1] is Ident),
    ensures
        forall|e: int| !#[trigger] dash_end(toks, a, e),
{
    assert forall|e: int| !#[trigger] dash_end(toks, a, e) by {
        lemma_dash_shape(toks, a, e);
        if dash_end(toks, a, e) {
            if e < m {
                assert(is_punct(toks[e], '-'));
            } else if e > m {
                assert(toks[m + 1] is Ident);
            }
        }
    }
}

/// `[s, e)` spells the attribute `a`: its name, `=`, then its value.
pub open spec fn attr_spells(toks: Seq<Token>, a: Attribute, s: int, e: int) -> bool {
    &&& a.span.start as int == s
    &&& a.span.end as int == e
    &&& a.name.span.start as int == s
    &&& dash_spells(toks, a.name)
    &&& a.name.span.end < e
    &&& is_punct(toks[a.name.span.end as int], '=')
    &&& value_spells(toks, a.value, a.name.span.end + 1, e)
}

/// How an attribute at `pos` fails to parse: its name fails; no `=` follows
/// the name, reported at the token after it; or its value fails.
pub open spec fn attr_error(toks: Seq<Token>, pos: int, e: ErrorView) -> bool {
    ||| dash_error(toks, pos, e)
    ||| exists|q: int|
        #[trigger] dash_end(toks, pos, q) && if q < toks.len() && is_punct(toks[q], '=') {
            value_error(toks, q + 1, e)
        } else {
            unexpected_at(e, q)
        }
}

/// Parses an attribute `name=value` at `pos`.
pub fn parse_attr(tokens: &Vec<Token>, pos: usize) -> (r: Result<Attribute, Error>)
    ensures
        r matches Ok(a) ==> attr_spells(tokens@, a, pos as int, a.span.end as int),
        r matches Ok(a) ==> forall|b: Attribute, e: int|
            #[trigger] attr_spells(tokens@, b, pos as int, e) ==> e == a.span.end,
        r is Err ==> forall|b: Attribute, e: int| !#[trigger] attr_spells(tokens@, b, pos as int, e),
        r matches Err(e) ==> attr_error(tokens@, pos as int, e@),
{
    let ghost toks = tokens@;
    let name = match parse_dash_ident(tokens, pos) {
        Ok(name) => name,
        Err(e) => {
            assert forall|b: Attribute, e: int| !#[trigger] attr_spells(toks, b, pos as int, e) by {
                if attr_spells(toks, b, pos as int, e) {
                    assert(dash_end(toks, pos as int, b.name.span.end as int));
                }
            }
            return Err(e);
        },
    };
    let eq = name.span.end;
    assert forall|b: Attribute, e: int| #[trigger] attr_spells(toks, b, pos as int, e) implies b.name.span.end
        == eq by {
        assert(dash_end(toks, pos as int, b.name.span.end as int));
    }
    if eq >= tokens.len() || !punct_is(&tokens[eq], '=') {
        return Err(unexpected(eq));
    }
    let value = match parse_value(tokens, eq + 1) {
        Ok(v) => v,
        Err(e) => {
            return Err(e);
        },
    };
    let end = match &value {
        Value::Literal { span, .. } => span.end,
        Value::Expression { span, .. } => span.end,
    };
    Ok(Attribute { name, value, span: Span { start: pos, end } })
}

/// The attributes `attrs` follow one another from `a` to `b`.
pub open spec fn attrs_tile(toks: Seq<Token>, attrs: Seq<Attribute>, a: int, b: int) -> bool
    decreases attrs.len(),
{
    if attrs.len() == 0 {
        a == b
    } else {
        &&& attr_spells(toks, attrs.last(), attrs.last().span.start as int, b)
        &&& attrs_tile(toks, attrs.drop_last(), a, attrs.last().span.start as int)
    }
}

/// `[s, e)` spells the tag `t`: `</name>` for a closing tag; `<name attrs>` or
/// `<name attrs />` for an opening tag.
pub open spec fn tag_spells(toks: Seq<Token>, t: Tag, s: int, e: int) -> bool {
    &&& t.spec_span().start as int == s
    &&& t.spec_span().end as int == e
    &&& 0 <= s
    &&& s + 1 < e <= toks.len()
    &&& is_punct(toks[s], '<')
    &&& is_punct(toks[e - 1], '>')
    &&& match t {
        Tag::Closing { name, .. } => {
            &&& is_punct(toks[s + 1], '/')
            &&& name.span.start as int == s + 2
            &&& name.span.end as int == e - 1
            &&& dash_spells(toks, name)
        },
        Tag::Opening { name, attrs, self_closing, .. } => {
            &&& name.span.start as int == s + 1
            &&& dash_spells(toks, name)
            &&& if self_closing {
                is_punct(toks[e - 2], '/') && attrs_tile(toks, attrs@, name.span.end as int, e - 2)
            } else {
                attrs_tile(toks, attrs@, name.span.end as int, e - 1)
            }
        },
    }
}

/// The tokens at `m` end an opening tag: `>` or `/>`.
pub open spec fn tag_end_at(toks: Seq<Token>, m: int) -> bool {
    is_punct(toks[m], '>') || (is_punct(toks[m], '/') && m + 1 < toks.len() && is_punct(
        toks[m + 1],
        '>',
    ))
}

/// Tells whether the tokens at `m` end an opening tag: `>` or `/>`.
fn at_tag_end(tokens: &Vec<Token>, m: usize) -> (r: bool)
    requires
        m < tokens@.len(),
    ensures
        r == tag_end_at(tokens@, m as int),
{
    let n = tokens.len();
    punct_is(&tokens[m], '>') || (punct_is(&tokens[m], '/') && m + 1 < n && punct_is(
        &tokens[m + 1],
        '>',
    ))
}

/// The attributes of `t` when it is an opening tag.
pub open spec fn opening_attrs(t: Tag) -> Seq<Attribute> {
    match t {
        Tag::Opening { attrs, .. } => attrs@,
        _ => Seq::empty(),
    }
}

/// Where the attributes of the opening tag `t`, spelled up to `e`, end.
pub open spec fn attrs_end(t: Tag, e: int) -> int {
    if t.spec_is_self_closing() {
        e - 2
    } else {
        e - 1
    }
}

/// Where the attribute at `j` starts, or `b` past the last one.
pub open spec fn tile_point(attrs: Seq<Attribute>, j: int, b: int) -> int {
    if j >= attrs.len() {
        b
    } else {
        attrs[j].span.start as int
    }
}

proof fn lemma_tile_split(toks: Seq<Token>, attrs: Seq<Attribute>, a: int, b: int, j: int)
    requires
        attrs_tile(toks, attrs, a, b),
        0 <= j <= attrs.len(),
    ensures
        attrs_tile(toks, attrs.take(j), a, tile_point(attrs, j, b)),
        j < attrs.len() ==> attr_spells(
            toks,
            attrs[j],
            attrs[j].span.start as int,
            attrs[j].span.end as int,
        ) && attrs[j].span.end as int == tile_point(attrs, j + 1, b),
    decreases attrs.len(),
{
    if j == attrs.len() {
        assert(attrs.take(j) =~= attrs);
    } else {
        let init = attrs.drop_last();
        let last = attrs.last();
        lemma_tile_split(toks, init, a, last.span.start as int, j);
        assert(init.take(j) =~= attrs.take(j));
        if j < init.len() {
            assert(init[j] == attrs[j]);
            assert(tile_point(init, j + 1, last.span.start as int) == tile_point(attrs, j + 1, b)) by {
                if j + 1 < init.len() {
                    assert(init[j + 1] == attrs[j + 1]);
                }
            }
        }
    }
}

proof fn lemma_dash_starts_with_ident(toks: Seq<Token>, a: int, b: int)
    requires
        0 <= a,
        dash_text(toks, a, b) is Some,
    ensures
        a < toks.len(),
        toks[a] is Ident,
{
    lemma_dash_shape(toks, a, b);
    assert((a - a) % 2 == 0);
}

/// In a spelled opening tag the name is complete: the token after it does not
/// continue it.
proof fn lemma_opening_name_end(toks: Seq<Token>, t: Tag, s: int, e: int)
    requires
        tag_spells(toks, t, s, e),
        t is Opening,
    ensures
        dash_end(toks, s + 1, t.spec_name().span.end as int),
{
    let attrs = opening_attrs(t);
    let a = t.spec_name().span.end as int;
    lemma_tile_split(toks, attrs, a, attrs_end(t, e), 0);
    assert(attrs.take(0) =~= Seq::<Attribute>::empty());
    if attrs.len() > 0 {
        lemma_dash_starts_with_ident(toks, attrs[0].name.span.start as int, attrs[0].name.span.end as int);
    }
}

/// Some attributes follow one another from `a` to `m`.
pub open spec fn attrs_reach(toks: Seq<Token>, a: int, m: int) -> bool {
    exists|attrs: Seq<Attribute>| #[trigger] attrs_tile(toks, attrs, a, m)
}

/// How a tag at `pos` fails to parse: no `<` there; for a closing tag, its
/// name fails or no `>` follows it; for an opening tag, its name fails, or
/// after the attributes read so far the next one fails, or the tokens end
/// before the tag does (reported past the last token).
pub open spec fn tag_error(toks: Seq<Token>, pos: int, e: ErrorView) -> bool {
    let n = toks.len();
    ||| unexpected_at(e, pos) && !(0 <= pos < n && is_punct(toks[pos], '<'))
    ||| 0 <= pos < n && is_punct(toks[pos], '<') && pos + 1 < n && is_punct(toks[pos + 1], '/') && (
    dash_error(toks, pos + 2, e) || exists|q: int|
        #[trigger] dash_end(toks, pos + 2, q) && unexpected_at(e, q) && !(q < n && is_punct(
            toks[q],
            '>',
        )))
    ||| 0 <= pos < n && is_punct(toks[pos], '<') && !(pos + 1 < n && is_punct(toks[pos + 1], '/')) && (
    dash_error(toks, pos + 1, e) || exists|q: int, m: int|
        #[trigger] dash_end(toks, pos + 1, q) && #[trigger] attrs_reach(toks, q, m) && ((m < n
            && !tag_end_at(toks, m) && attr_error(toks, m, e)) || (m == n && unexpected_at(e, m))))
}

/// Parses a tag at `pos`: `</name>`, `<name attrs>` or `<name attrs />`.
pub fn parse_tag(tokens: &Vec<Token>, pos: usize) -> (r: Result<Tag, Error>)
    ensures
        r matches Ok(t) ==> tag_spells(tokens@, t, pos as int, t.spec_span().end as int),
        r matches Ok(t) ==> forall|u: Tag, e: int|
            #[trigger] tag_spells(tokens@, u, pos as int, e) ==> e == t.spec_span().end,
        r is Err ==> forall|u: Tag, e: int| !#[trigger] tag_spells(tokens@, u, pos as int, e),
        r matches Err(e) ==> tag_error(tokens@, pos as int, e@),
{
    let ghost toks = tokens@;
    let ghost s = pos as int;
    if pos >= tokens.len() || !punct_is(&tokens[pos], '<') {
        return Err(unexpected(pos));
    }
    if pos + 1 < tokens.len() && punct_is(&tokens[pos + 1], '/') {
        assert forall|u: Tag, e: int| #[trigger] tag_spells(toks, u, s, e) implies u is Closing
            && dash_end(toks, s + 2, e - 1) by {
            if u is Opening {
                lemma_dash_starts_with_ident(toks, s + 1, u.spec_name().span.end as int);
            }
        }
        let name = match parse_dash_ident(tokens, pos + 2) {
            Ok(name) => name,
            Err(e) => {
                return Err(e);
            },
        };
        let end = name.span.end;
        if end >= tokens.len() || !punct_is(&tokens[end], '>') {
            return Err(unexpected(end));
        }
        return Ok(Tag::Closing { name, span: Span { start: pos, end: end + 1 } });
    }
    assert forall|u: Tag, e: int| #[trigger] tag_spells(toks, u, s, e) implies u is Opening && dash_end(
        toks,
        s + 1,
        u.spec_name().span.end as int,
    ) by {
        if u is Opening {
            lemma_opening_name_end(toks, u, s, e);
        }
    }
    let name = match parse_dash_ident(tokens, pos + 1) {
        Ok(name) => name,
        Err(e) => {
            return Err(e);
        },
    };
    let ghost a = name.span.end as int;
    let mut attrs: Vec<Attribute> = Vec::new();
    let mut m = name.span.end;
    assert forall|u: Tag, e: int| #[trigger] tag_spells(toks, u, s, e) implies exists|j: int|
        0 <= j <= opening_attrs(u).len() && #[trigger] tile_point(opening_attrs(u), j, attrs_end(u, e))
            == m by {
        lemma_tile_split(toks, opening_attrs(u), a, attrs_end(u, e), 0);
        assert(opening_attrs(u).take(0) =~= Seq::<Attribute>::empty());
        assert(tile_point(opening_attrs(u), 0, attrs_end(u, e)) == m);
    }
    while m < tokens.len() && !at_tag_end(tokens, m)
        invariant
            toks == tokens@,
            s == pos,
            a == name.span.end,
            dash_end(toks, s + 1, a),
            0 <= s < toks.len(),
            is_punct(toks[s], '<'),
            !(s + 1 < toks.len() && is_punct(toks[s + 1], '/')),
            name.span.end <= m <= tokens@.len(),
            attrs_tile(tokens@, attrs@, name.span.end as int, m as int),
            forall|u: Tag, e: int| #[trigger]
                tag_spells(toks, u, s, e) ==> u is Opening && u.spec_name().span.end == a,
            forall|u: Tag, e: int| #[trigger]
                tag_spells(toks, u, s, e) ==> exists|j: int|
                    0 <= j <= opening_attrs(u).len() && #[trigger] tile_point(
                        opening_attrs(u),
                        j,
                        attrs_end(u, e),
                    ) == m,
        decreases tokens@.len() - m,
    {
        let ghost m0 = m as int;
        assert forall|u: Tag, e: int| #[trigger] tag_spells(toks, u, s, e) implies exists|j: int|
            0 <= j < opening_attrs(u).len() && #[trigger] tile_point(opening_attrs(u), j, attrs_end(u, e))
                == m0 && attr_spells(
                toks,
                opening_attrs(u)[j],
                m0,
                opening_attrs(u)[j].span.end as int,
            ) by {
            let j = choose|j: int|
                0 <= j <= opening_attrs(u).len() && #[trigger] tile_point(
                    opening_attrs(u),
                    j,
                    attrs_end(u, e),
                ) == m0;
            lemma_tile_split(toks, opening_attrs(u), a, attrs_end(u, e), j);
        }
        let attr = match parse_attr(tokens, m) {
            Ok(attr) => attr,
            Err(e) => {
                assert forall|u: Tag, e: int| !#[trigger] tag_spells(toks, u, s, e) by {
                    if tag_spells(toks, u, s, e) {
                        let j = choose|j: int|
                            0 <= j < opening_attrs(u).len() && #[trigger] tile_point(
                                opening_attrs(u),
                                j,
                                attrs_end(u, e),
                            ) == m0 && attr_spells(
                                toks,
                                opening_attrs(u)[j],
                                m0,
                                opening_attrs(u)[j].span.end as int,
                            );
                    }
                }
                assert(attrs_reach(toks, a, m0));
                return Err(e);
            },
        };
        m = attr.span.end;
        assert forall|u: Tag, e: int| #[trigger] tag_spells(toks, u, s, e) implies exists|j: int|
            0 <= j <= opening_attrs(u).len() && #[trigger] tile_point(opening_attrs(u), j, attrs_end(u, e))
                == m by {
            let j = choose|j: int|
                0 <= j < opening_attrs(u).len() && #[trigger] tile_point(
                    opening_attrs(u),
                    j,
                    attrs_end(u, e),
                ) == m0 && attr_spells(
                    toks,
                    opening_attrs(u)[j],
                    m0,
                    opening_attrs(u)[j].span.end as int,
                );
            lemma_tile_split(toks, opening_attrs(u), a, attrs_end(u, e), j);
            assert(tile_point(opening_attrs(u), j + 1, attrs_end(u, e)) == m);
        }
        let ghost before = attrs@;
        attrs.push(attr);
        assert(attrs@.drop_last() =~= before);
    }
    let ghost mf = m as int;
    assert forall|u: Tag, e: int| #[trigger] tag_spells(toks, u, s, e) implies attrs_end(u, e) == mf by {
        let j = choose|j: int|
            0 <= j <= opening_attrs(u).len() && #[trigger] tile_point(opening_attrs(u), j, attrs_end(u, e))
                == mf;
        lemma_tile_split(toks, opening_attrs(u), a, attrs_end(u, e), j);
        if j < opening_attrs(u).len() {
            let x = opening_attrs(u)[j];
            lemma_dash_starts_with_ident(toks, x.name.span.start as int, x.name.span.end as int);
        }
    }
    if m >= tokens.len() {
        assert(attrs_reach(toks, a, mf));
        return Err(unexpected(m));
    }
    if punct_is(&tokens[m], '>') {
        return Ok(Tag::Opening { name, attrs, self_closing: false, span: Span { start: pos, end: m + 1 } });
    }
    if m + 1 < tokens.len() && punct_is(&tokens[m], '/') && punct_is(&tokens[m + 1], '>') {
        return Ok(Tag::Opening { name, attrs, self_closing: true, span: Span { start: pos, end: m + 2 } });
    }
    Err(unexpected(m))
}

/// `c` is the lower-case letter `l`, in either case.
pub open spec fn letter_eq(c: char, l: char) -> bool {
    c == l || ('A' <= c <= 'Z' && c as u32 + 32 == l as u32)
}

/// `x` is the lower-case word `kw`, ignoring the case of ASCII letters.
pub open spec fn keyword_matches(x: Seq<char>, kw: Seq<char>) -> bool {
    x.len() == kw.len() && forall|i: int| 0 <= i < x.len() ==> letter_eq(#[trigger] x[i], kw[i])
}

/// Tells whether `t` is an identifier that is the lower-case word `kw`,
/// ignoring the case of ASCII letters.
fn keyword_is(t: &Token, kw: &str) -> (r: bool)
    ensures
        r == (t matches Token::Ident(x) && keyword_matches(x@, kw@)),
{
    let x = match t {
        Token::Ident(x) => x.as_str(),
        _ => {
            return false;
        },
    };
    let n = x.unicode_len();
    if n != kw.unicode_len() {
        return false;
    }
    let mut i: usize = 0;
    while i < n
        invariant
            n == x@.len(),
            n == kw@.len(),
            *t matches Token::Ident(y) && y@ == x@,
            i <= n,
            forall|j: int| 0 <= j < i ==> letter_eq(#[trigger] x@[j], kw@[j]),
        decreases n - i,
    {
        let c = x.get_char(i);
        let l = kw.get_char(i);
        if !(c == l || ('A' <= c && c <= 'Z' && c as u32 + 32 == l as u32)) {
            return false;
        }
        i = i + 1;
    }
    true
}

/// `[s, e)` spells `<!DOCTYPE html>`, in any case.
pub open spec fn doctype_spells(toks: Seq<Token>, s: int, e: int) -> bool {
    &&& 0 <= s
    &&& e == s + 5
    &&& e <= toks.len()
    &&& is_punct(toks[s], '<')
    &&& is_punct(toks[s + 1], '!')
    &&& toks[s + 2] matches Token::Ident(k) && keyword_matches(k@, "doctype"@)
    &&& toks[s + 3] matches Token::Ident(h) && keyword_matches(h@, "html"@)
    &&& is_punct(toks[s + 4], '>')
}

/// The number of tokens node `n` was written with.
pub open spec fn node_len(n: Node) -> int {
    match n {
        Node::Doctype(_) => 5,
        Node::Tag(t) => t.spec_span().end - t.spec_span().start,
        Node::Value(v) => v.spec_span().end - v.spec_span().start,
    }
}

/// `[s, e)` spells the node `n`.
pub open spec fn node_spells(toks: Seq<Token>, n: Node, s: int, e: int) -> bool {
    match n {
        Node::Doctype(_) => doctype_spells(toks, s, e),
        Node::Tag(t) => tag_spells(toks, t, s, e),
        Node::Value(v) => value_spells(toks, v, s, e),
    }
}

/// The nodes follow one another from `a` to `b`.
pub open spec fn nodes_tile(toks: Seq<Token>, nodes: Seq<Node>, a: int, b: int) -> bool
    decreases nodes.len(),
{
    if nodes.len() == 0 {
        b == a
    } else {
        &&& node_spells(toks, nodes.last(), b - node_len(nodes.last()), b)
        &&& nodes_tile(toks, nodes.drop_last(), a, b - node_len(nodes.last()))
    }
}

/// Parses the doctype `<!DOCTYPE html>` at `pos`.
fn parse_doctype(tokens: &Vec<Token>, pos: usize) -> (r: Result<Doctype, Error>)
    ensures
        r is Ok ==> doctype_spells(tokens@, pos as int, pos + 5),
        r is Err ==> forall|e: int| !#[trigger] doctype_spells(tokens@, pos as int, e),
        r matches Err(e) ==> unexpected_at(e@, pos as int),
{
    let n = tokens.len();
    if pos >= n || n - pos < 5 {
        return Err(unexpected(pos));
    }
    if punct_is(&tokens[pos], '<') && punct_is(&tokens[pos + 1], '!') && keyword_is(
        &tokens[pos + 2],
        "doctype",
    ) && keyword_is(&tokens[pos + 3], "html") && punct_is(&tokens[pos + 4], '>') {
        Ok(Doctype)
    } else {
        Err(unexpected(pos))
    }
}

/// The tokens at `pos` start a doctype: `<`, `!` and the word `doctype` in
/// any case.
pub open spec fn doctype_start(toks: Seq<Token>, pos: int) -> bool {
    &&& 0 <= pos
    &&& pos + 3 <= toks.len()
    &&& is_punct(toks[pos + 1], '!')
    &&& toks[pos + 2] matches Token::Ident(k) && keyword_matches(k@, "doctype"@)
}

/// The token at `pos` can start a node: `<`, a string literal or `{`.
pub open spec fn starts_node(toks: Seq<Token>, pos: int) -> bool {
    0 <= pos < toks.len() && (is_punct(toks[pos], '<') || toks[pos] matches Token::Literal(
        _,
        LitValue::Str(_),
    ) || toks[pos] == Token::Open(Delimiter::Brace))
}

/// How a node at `pos` fails to parse: the token there starts no node; a
/// doctype is malformed (reported at its `<`); or the tag or the value
/// there fails.
pub open spec fn node_error(toks: Seq<Token>, pos: int, e: ErrorView) -> bool {
    ||| unexpected_at(e, pos) && !starts_node(toks, pos)
    ||| starts_node(toks, pos) && is_punct(toks[pos], '<') && doctype_start(toks, pos) && unexpected_at(
        e,
        pos,
    )
    ||| starts_node(toks, pos) && is_punct(toks[pos], '<') && !doctype_start(toks, pos) && tag_error(
        toks,
        pos,
        e,
    )
    ||| starts_node(toks, pos) && !is_punct(toks[pos], '<') && value_error(toks, pos, e)
}

/// Parses one node at `pos`: the doctype, a tag, or a standalone value.
pub fn parse_node(tokens: &Vec<Token>, pos: usize) -> (r: Result<Node, Error>)
    ensures
        r matches Ok(n) ==> node_len(n) > 0 && node_spells(tokens@, n, pos as int, pos + node_len(n)),
        r matches Ok(n) ==> forall|m: Node, e: int|
            #[trigger] node_spells(tokens@, m, pos as int, e) ==> e == pos + node_len(n),
        r is Err ==> forall|m: Node, e: int| !#[trigger] node_spells(tokens@, m, pos as int, e),
        r matches Err(e) ==> node_error(tokens@, pos as int, e@),
        !starts_node(tokens@, pos as int) ==> r == Err::<Node, Error>(
            Error { kind: ErrorKind::UnexpectedToken, span: Span { start: pos, end: pos } },
        ),
{
    let ghost toks = tokens@;
    let ghost s = pos as int;
    let n = tokens.len();
    if pos >= n {
        return Err(unexpected(pos));
    }
    if punct_is(&tokens[pos], '<') {
        if n - pos >= 3 && punct_is(&tokens[pos + 1], '!') && keyword_is(&tokens[pos + 2], "doctype") {
            assert forall|m: Node, e: int| #[trigger] node_spells(toks, m, s, e) implies m is Doctype by {
                if let Node::Tag(t) = m {
                    if t is Opening {
                        lemma_dash_starts_with_ident(toks, s + 1, t.spec_name().span.end as int);
                    }
                }
            }
            let d = match parse_doctype(tokens, pos) {
                Ok(d) => d,
                Err(e) => {
                    return Err(e);
                },
            };
            return Ok(Node::Doctype(d));
        }
        assert forall|m: Node, e: int| #[trigger] node_spells(toks, m, s, e) implies m is Tag by {}
        let t = match parse_tag(tokens, pos) {
            Ok(t) => t,
            Err(e) => {
                assert forall|m: Node, e: int| !#[trigger] node_spells(toks, m, s, e) by {
                    if let Node::Tag(u) = m {
                        assert(!tag_spells(toks, u, s, e));
                    }
                }
                return Err(e);
            },
        };
        assert forall|m: Node, e: int| #[trigger] node_spells(toks, m, s, e) implies e == pos + node_len(
            Node::Tag(t),
        ) by {
            if let Node::Tag(u) = m {
                assert(tag_spells(toks, u, s, e));
            }
        }
        return Ok(Node::Tag(t));
    }
    assert forall|m: Node, e: int| #[trigger] node_spells(toks, m, s, e) implies m is Value by {}
    match &tokens[pos] {
        Token::Literal(_, LitValue::Str(_)) | Token::Open(Delimiter::Brace) => {
            let v = match parse_value(tokens, pos) {
                Ok(v) => v,
                Err(e) => {
                    assert forall|m: Node, e: int| !#[trigger] node_spells(toks, m, s, e) by {
                        if let Node::Value(w) = m {
                            assert(!value_spells(toks, w, s, e));
                        }
                    }
                    return Err(e);
                },
            };
            assert forall|m: Node, e: int| #[trigger] node_spells(toks, m, s, e) implies e == pos
                + node_len(Node::Value(v)) by {
                if let Node::Value(w) = m {
                    assert(value_spells(toks, w, s, e));
                }
            }
            Ok(Node::Value(v))
        },
        _ => {
            assert forall|m: Node, e: int| !#[trigger] node_spells(toks, m, s, e) by {
                if let Node::Value(w) = m {
                    if value_spells(toks, w, s, e) {
                        if let Value::Literal { .. } = w {
                            if !(e == s + 1) {
                                let k = choose|k: int|
                                    braced(toks, s, e, k) && !escape_flag(toks, k, e - 1) && spec_of(
                                        toks,
                                        k,
                                        e - 1,
                                    ) is None && #[trigger] const_text(toks, s + 1, k) == const_text(
                                        toks,
                                        s + 1,
                                        k,
                                    );
                            }
                        }
                    }
                }
            }
            Err(unexpected(pos))
        },
    }
}

/// The first node of a tiling is spelled at its start, and the others tile
/// the rest.
proof fn lemma_tile_front(toks: Seq<Token>, nodes: Seq<Node>, a: int, b: int)
    requires
        nodes_tile(toks, nodes, a, b),
        nodes.len() > 0,
    ensures
        node_spells(toks, nodes[0], a, a + node_len(nodes[0])),
        nodes_tile(toks, nodes.drop_first(), a + node_len(nodes[0]), b),
    decreases nodes.len(),
{
    let last = nodes.last();
    let init = nodes.drop_last();
    assert(nodes_tile(toks, init, a, b - node_len(last)));
    if nodes.len() == 1 {
        assert(init.len() == 0);
        assert(b - node_len(last) == a);
        assert(nodes.drop_first() =~= Seq::<Node>::empty());
        assert(nodes[0] == last);
    } else {
        lemma_tile_front(toks, init, a, b - node_len(last));
        assert(init[0] == nodes[0]);
        let rest = nodes.drop_first();
        assert(rest.drop_last() =~= init.drop_first());
        assert(rest.last() == last);
        assert(rest.len() > 0);
        assert(nodes_tile(toks, rest.drop_last(), a + node_len(nodes[0]), b - node_len(last)));
    }
}

/// Some nodes follow one another from `a` to `q`.
pub open spec fn tiled_to(toks: Seq<Token>, a: int, q: int) -> bool {
    exists|nodes: Seq<Node>| #[trigger] nodes_tile(toks, nodes, a, q)
}

/// How a template from `from` fails to parse: nodes follow one another up to
/// a position `q` before the end, where no node is spelled and parsing a node
/// fails as `node_error` says.
pub open spec fn template_error(toks: Seq<Token>, from: int, e: ErrorView) -> bool {
    exists|q: int|
        from <= q < toks.len() && #[trigger] tiled_to(toks, from, q) && node_error(toks, q, e) && forall|
            n: Node,
            f: int,
        | !#[trigger] node_spells(toks, n, q, f)
}

/// Parses a whole template: its nodes, and the expression values in source
/// order, which become the arguments evaluated when the output is written.
pub fn parse(tokens: &Vec<Token>) -> (r: Result<Template, Error>)
    ensures
        r matches Ok(t) ==> {
            &&& nodes_tile(tokens@, t.nodes@, 0, tokens@.len() as int)
            &&& t.values@ == dynamic_values(nodes_parts(t.nodes@))
        },
        r is Err ==> forall|ns: Seq<Node>| !#[trigger] nodes_tile(tokens@, ns, 0, tokens@.len() as int),
        r matches Err(e) ==> template_error(tokens@, 0, e@),
{
    parse_from(tokens, 0)
}

/// Parses the template written with the tokens from `from` to the end.
pub fn parse_from(tokens: &Vec<Token>, from: usize) -> (r: Result<Template, Error>)
    requires
        from <= tokens@.len(),
    ensures
        r matches Ok(t) ==> {
            &&& nodes_tile(tokens@, t.nodes@, from as int, tokens@.len() as int)
            &&& t.values@ == dynamic_values(nodes_parts(t.nodes@))
        },
        r is Err ==> forall|ns: Seq<Node>| !#[trigger] nodes_tile(tokens@, ns, from as int, tokens@.len() as int),
        r matches Err(e) ==> template_error(tokens@, from as int, e@),
{
    let ghost toks = tokens@;
    let ghost len = tokens@.len() as int;
    let mut nodes: Vec<Node> = Vec::new();
    let mut values: Vec<Value> = Vec::new();
    let mut pos: usize = from;
    assert(values@ =~= dynamic_values(nodes_parts(nodes@)));
    while pos < tokens.len()
        invariant
            from <= pos <= tokens@.len(),
            toks == tokens@,
            len == tokens@.len(),
            nodes_tile(tokens@, nodes@, from as int, pos as int),
            (exists|ns: Seq<Node>| #[trigger] nodes_tile(toks, ns, from as int, len)) ==> exists|
                rest: Seq<Node>,
            | #[trigger] nodes_tile(toks, rest, pos as int, len),
            values@ == dynamic_values(nodes_parts(nodes@)),
        decreases tokens@.len() - pos,
    {
        let ghost p0 = pos as int;
        let node = match parse_node(tokens, pos) {
            Ok(node) => node,
            Err(e) => {
                assert forall|ns: Seq<Node>| !#[trigger] nodes_tile(toks, ns, from as int, len) by {
                    if nodes_tile(toks, ns, from as int, len) {
                        let rest = choose|rest: Seq<Node>| #[trigger] nodes_tile(toks, rest, p0, len);
                        if rest.len() == 0 {
                            assert(p0 == len);
                        }
                        lemma_tile_front(toks, rest, p0, len);
                    }
                }
                assert(tiled_to(toks, from as int, p0));
                return Err(e);
            },
        };
        let ghost before = nodes@;
        collect_values(&node, &mut values);
        nodes.push(node);
        proof {
            assert(nodes@.drop_last() =~= before);
            assert(nodes@.last() == node);
            lemma_dynamic_values_append(nodes_parts(before), node_parts(node));
        }
        pos = match &nodes[nodes.len() - 1] {
            Node::Doctype(_) => pos + 5,
            Node::Tag(t) => t.span().end,
            Node::Value(Value::Literal { span, .. }) => span.end,
            Node::Value(Value::Expression { span, .. }) => span.end,
        };
        proof {
            if exists|ns: Seq<Node>| #[trigger] nodes_tile(toks, ns, from as int, len) {
                let rest = choose|rest: Seq<Node>| #[trigger] nodes_tile(toks, rest, p0, len);
                if rest.len() == 0 {
                    assert(p0 == len);
                }
                lemma_tile_front(toks, rest, p0, len);
                assert(nodes_tile(toks, rest.drop_first(), pos as int, len));
            }
        }
    }
    Ok(Template { nodes, values })
}

} // verus!
