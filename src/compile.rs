//! The whole pipeline, from tokens to segments or to a format string.

use vstd::prelude::*;

use crate::ast::Node;
use crate::error::{Error, ErrorKind, ErrorView};
use crate::lower::{lower, nodes_parts};
use crate::merge::{merge, merged, segments_view, Segment, SegmentView};
use crate::parse::{depth, nodes_tile, parse_from, template_error};
use crate::text::{push_char, push_str};
use crate::token::{is_punct, Span, Token};
use crate::validate::{validate, validation};

verus! {

/// The tokens from `from` on spell a template whose structure is valid and
/// whose parts merge into `segs`.
pub open spec fn compiles_to(toks: Seq<Token>, from: int, segs: Seq<SegmentView>) -> bool {
    exists|nodes: Seq<Node>|
        {
            &&& nodes_tile(toks, nodes, from, toks.len() as int)
            &&& validation(nodes) is Ok
            &&& segs == #[trigger] merged(nodes_parts(nodes))
        }
}

/// The tokens from `from` on spell no template, and `e` is the grammar error
/// at the first place where no node is spelled; or they spell one whose
/// structure check fails with `e`.
pub open spec fn rejected(toks: Seq<Token>, from: int, e: ErrorView) -> bool {
    ||| (forall|nodes: Seq<Node>| !#[trigger] nodes_tile(toks, nodes, from, toks.len() as int))
        && template_error(toks, from, e)
    ||| exists|nodes: Seq<Node>|
        #[trigger] nodes_tile(toks, nodes, from, toks.len() as int) && validation(nodes) == Err::<(), ErrorView>(e)
}

/// Compiles the template written with the tokens from `from` to the end:
/// parses it, checks its structure, splits it into parts and merges those
/// into segments.
pub fn compile_from(tokens: &Vec<Token>, from: usize) -> (r: Result<Vec<Segment>, Error>)
    requires
        from <= tokens@.len(),
    ensures
        r matches Ok(segs) ==> compiles_to(tokens@, from as int, segments_view(segs@)),
        r matches Err(e) ==> rejected(tokens@, from as int, e@),
{
    let template = parse_from(tokens, from)?;
    match validate(&template.nodes) {
        Ok(()) => {},
        Err(e) => {
            assert(nodes_tile(tokens@, template.nodes@, from as int, tokens@.len() as int));
            return Err(e);
        },
    }
    let ghost nodes = template.nodes@;
    let parts = lower(template.nodes);
    let segs = merge(&parts);
    assert(segments_view(segs@) == merged(nodes_parts(nodes)));
    Ok(segs)
}

/// Compiles a whole template into segments, to be written one after the other.
pub fn format(tokens: &Vec<Token>) -> (r: Result<Vec<Segment>, Error>)
    ensures
        r matches Ok(segs) ==> compiles_to(tokens@, 0, segments_view(segs@)),
        r matches Err(e) ==> rejected(tokens@, 0, e@),
{
    compile_from(tokens, 0)
}

/// The first `,` outside any group, from the first token on; `toks.len()` when
/// there is none.
pub open spec fn first_comma(toks: Seq<Token>, k: int) -> bool {
    &&& 0 <= k <= toks.len()
    &&& (k == toks.len() || (is_punct(toks[k], ',') && depth(toks, 0, k) == 0))
    &&& forall|m: int| 0 <= m < k ==> !(is_punct(toks[m], ',') && #[trigger] depth(toks, 0, m) == 0)
}

/// The input of a write: the tokens of the destination, then the compiled
/// template.
#[derive(Debug)]
pub struct WriteInput {
    pub buffer: Span,
    pub segments: Vec<Segment>,
}

/// The position of the first `,` outside any group, or the number of tokens.
fn comma_position(tokens: &Vec<Token>) -> (k: usize)
    ensures
        first_comma(tokens@, k as int),
{
    let mut opens: usize = 0;
    let mut closes: usize = 0;
    let mut k: usize = 0;
    assert(depth(tokens@, 0, 0) == 0);
    while k < tokens.len()
        invariant
            k <= tokens@.len(),
            opens + closes <= k,
            opens - closes == depth(tokens@, 0, k as int),
            forall|m: int| 0 <= m < k ==> !(is_punct(tokens@[m], ',') && #[trigger] depth(tokens@, 0, m) == 0),
        decreases tokens@.len() - k,
    {
        match &tokens[k] {
            Token::Punct(',', _) => {
                if opens == closes {
                    return k;
                }
            },
            Token::Open(_) => {
                opens = opens + 1;
            },
            Token::Close(_) => {
                closes = closes + 1;
            },
            _ => {},
        }
        k = k + 1;
    }
    k
}

/// Compiles `destination, template`: the destination is the tokens before the
/// first `,` outside any group; the template follows it.
pub fn write(tokens: &Vec<Token>) -> (r: Result<WriteInput, Error>)
    ensures
        r matches Ok(w) ==> {
            &&& w.buffer.start == 0
            &&& 0 < w.buffer.end < tokens@.len()
            &&& first_comma(tokens@, w.buffer.end as int)
            &&& compiles_to(tokens@, w.buffer.end + 1, segments_view(w.segments@))
        },
        r matches Err(e) ==> exists|k: int|
            #[trigger] first_comma(tokens@, k) && (k == 0 || k == tokens@.len() || rejected(
                tokens@,
                k + 1,
                e@,
            )),
{
    let k = comma_position(tokens);
    if k == 0 || k >= tokens.len() {
        return Err(Error { kind: ErrorKind::UnexpectedToken, span: Span { start: k, end: k } });
    }
    let segments = compile_from(tokens, k + 1)?;
    Ok(WriteInput { buffer: Span { start: 0, end: k }, segments })
}

/// The text of `segs` when they are all literal; none when one is a
/// placeholder.
pub open spec fn literal_concat(segs: Seq<SegmentView>) -> Option<Seq<char>>
    decreases segs.len(),
{
    if segs.len() == 0 {
        Some(Seq::empty())
    } else {
        match (literal_concat(segs.drop_last()), segs.last()) {
            (Some(x), SegmentView::Literal(t)) => Some(x + t),
            _ => None,
        }
    }
}

proof fn lemma_literal_concat_none(segs: Seq<SegmentView>, j: int, n: int)
    requires
        0 <= j <= n <= segs.len(),
        literal_concat(segs.take(j)) is None,
    ensures
        literal_concat(segs.take(n)) is None,
    decreases n - j,
{
    if j < n {
        lemma_literal_concat_none(segs, j, n - 1);
        assert(segs.take(n).drop_last() =~= segs.take(n - 1));
    }
}

/// The text of a template in which every value is known at compile time.
pub fn concat(tokens: &Vec<Token>) -> (r: Result<String, Error>)
    ensures
        r matches Ok(s) ==> exists|segs: Seq<SegmentView>|
            compiles_to(tokens@, 0, segs) && #[trigger] literal_concat(segs) == Some(s@),
        r matches Err(e) ==> rejected(tokens@, 0, e@) || (e.kind is DynamicValue && exists|
            segs: Seq<SegmentView>,
        | compiles_to(tokens@, 0, segs) && #[trigger] literal_concat(segs) is None),
{
    let segs = compile_from(tokens, 0)?;
    let mut out = String::new();
    let mut i: usize = 0;
    while i < segs.len()
        invariant
            i <= segs@.len(),
            compiles_to(tokens@, 0, segments_view(segs@)),
            literal_concat(segments_view(segs@).take(i as int)) == Some(out@),
        decreases segs@.len() - i,
    {
        proof {
            assert(segments_view(segs@).take(i + 1).drop_last() =~= segments_view(segs@).take(i as int));
        }
        match &segs[i] {
            Segment::Literal(t) => push_str(&mut out, t.as_str()),
            Segment::Placeholder { expr, .. } => {
                proof {
                    let v = segments_view(segs@);
                    assert(v.take(i + 1).last() == v[i as int]);
                    lemma_literal_concat_none(v, i + 1, v.len() as int);
                    assert(v.take(v.len() as int) =~= v);
                    assert(literal_concat(v) is None);
                }
                return Err(Error { kind: ErrorKind::DynamicValue, span: *expr });
            },
        }
        i = i + 1;
    }
    assert(segments_view(segs@).take(segs@.len() as int) =~= segments_view(segs@));
    Ok(out)
}

/// The text of `s` for a format string: each `{` and `}` doubled.
pub open spec fn brace_escaped(s: Seq<char>) -> Seq<char>
    decreases s.len(),
{
    if s.len() == 0 {
        Seq::empty()
    } else if s.last() == '{' {
        brace_escaped(s.drop_last()) + seq!['{', '{']
    } else if s.last() == '}' {
        brace_escaped(s.drop_last()) + seq!['}', '}']
    } else {
        brace_escaped(s.drop_last()).push(s.last())
    }
}

/// The format-string text of a segment: a literal with its braces doubled, or
/// `{:spec}` for a placeholder with a specifier. A placeholder without one, or
/// one whose value is escaped, is `{}`: an escaped argument is formatted with
/// its specifier and escaped before it reaches the format string.
pub open spec fn segment_format(s: SegmentView) -> Seq<char> {
    match s {
        SegmentView::Literal(t) => brace_escaped(t),
        SegmentView::Placeholder { spec, escape, .. } => match spec {
            Some(x) => if escape {
                seq!['{', '}']
            } else {
                seq!['{', ':'] + x + seq!['}']
            },
            None => seq!['{', '}'],
        },
    }
}

/// The format string of a sequence of segments.
pub open spec fn format_text(segs: Seq<SegmentView>) -> Seq<char>
    decreases segs.len(),
{
    if segs.len() == 0 {
        Seq::empty()
    } else {
        format_text(segs.drop_last()) + segment_format(segs.last())
    }
}

/// The placeholders among `segs`, in order.
pub open spec fn placeholders(segs: Seq<SegmentView>) -> Seq<SegmentView>
    decreases segs.len(),
{
    if segs.len() == 0 {
        Seq::empty()
    } else if segs.last() is Placeholder {
        placeholders(segs.drop_last()).push(segs.last())
    } else {
        placeholders(segs.drop_last())
    }
}

/// A format string with one positional argument per placeholder.
#[derive(Debug)]
pub struct FormatArgs {
    pub template: String,
    pub args: Vec<Segment>,
}

/// Appends `t` to `out` with each `{` and `}` doubled.
fn push_brace_escaped(out: &mut String, t: &str)
    ensures
        final(out)@ == old(out)@ + brace_escaped(t@),
{
    let ghost start = out@;
    for c in it: t.chars()
        invariant
            it.seq() == t@,
            out@ == start + brace_escaped(it.seq().take(it.index() as int)),
    {
        proof {
            assert(it.seq().take(it.index() + 1).drop_last() =~= it.seq().take(it.index() as int));
        }
        if c == '{' {
            push_char(out, '{');
            push_char(out, '{');
        } else if c == '}' {
            push_char(out, '}');
            push_char(out, '}');
        } else {
            push_char(out, c);
        }
        assert(out@ =~= start + brace_escaped(it.seq().take(it.index() + 1)));
    }
    assert(t@.take(t@.len() as int) =~= t@);
}

/// The format string of `segs`, and their placeholders as its arguments.
pub fn format_string(segs: Vec<Segment>) -> (r: FormatArgs)
    ensures
        r.template@ == format_text(segments_view(segs@)),
        segments_view(r.args@) == placeholders(segments_view(segs@)),
{
    let ghost all = segs@;
    let mut template = String::new();
    let mut args: Vec<Segment> = Vec::new();
    assert(segments_view(args@) =~= Seq::empty());
    for seg in it: segs
        invariant
            it.seq() == all,
            template@ == format_text(segments_view(all.take(it.index() as int))),
            segments_view(args@) == placeholders(segments_view(all.take(it.index() as int))),
    {
        proof {
            assert(segments_view(all.take(it.index() + 1)).drop_last() =~= segments_view(
                all.take(it.index() as int),
            ));
        }
        let ghost before = args@;
        match &seg {
            Segment::Literal(t) => push_brace_escaped(&mut template, t.as_str()),
            Segment::Placeholder { spec, escape, .. } => {
                push_char(&mut template, '{');
                match spec {
                    Some(x) => {
                        if !*escape {
                            push_char(&mut template, ':');
                            push_str(&mut template, x.as_str());
                        }
                    },
                    None => {},
                }
                push_char(&mut template, '}');
            },
        }
        assert(template@ =~= format_text(segments_view(all.take(it.index() + 1))));
        if let Segment::Placeholder { .. } = &seg {
            args.push(seg);
            assert(segments_view(args@) =~= segments_view(before).push(all[it.index() as int]@));
        }
    }
    assert(all.take(all.len() as int) =~= all);
    FormatArgs { template, args }
}

/// Compiles a template into a format string and its arguments.
pub fn format_args(tokens: &Vec<Token>) -> (r: Result<FormatArgs, Error>)
    ensures
        r matches Ok(f) ==> exists|segs: Seq<SegmentView>|
            compiles_to(tokens@, 0, segs) && f.template@ == #[trigger] format_text(segs)
                && segments_view(f.args@) == placeholders(segs),
        r matches Err(e) ==> rejected(tokens@, 0, e@),
{
    let segs = compile_from(tokens, 0)?;
    Ok(format_string(segs))
}

/// Compiles a template into a format string and its arguments, with a line
/// break `<br>` appended to the format string.
pub fn format_args_nl(tokens: &Vec<Token>) -> (r: Result<FormatArgs, Error>)
    ensures
        r matches Ok(f) ==> exists|segs: Seq<SegmentView>|
            compiles_to(tokens@, 0, segs) && f.template@ == #[trigger] format_text(segs) + "<br>"@
                && segments_view(f.args@) == placeholders(segs),
        r matches Err(e) ==> rejected(tokens@, 0, e@),
{
    let segs = compile_from(tokens, 0)?;
    let mut f = format_string(segs);
    push_str(&mut f.template, "<br>");
    Ok(f)
}

} // verus!
