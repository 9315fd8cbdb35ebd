//! Merging parts into literal text and placeholders.

use vstd::prelude::*;

use crate::ast::{copy_opt_string, Value};
use crate::lower::Part;
use crate::text::push_str;
use crate::token::Span;

verus! {

/// A piece of compiled output: text known at compile time, or a placeholder
/// for an expression evaluated when the output is written.
#[derive(Debug)]
pub enum Segment {
    /// Literal text.
    Literal(String),
    /// The expression given by the token range `expr`, written escaped when
    /// `escape` is set, and formatted with `spec` when there is one.
    Placeholder { expr: Span, escape: bool, spec: Option<String> },
}

/// The mathematical form of a `Segment`.
pub enum SegmentView {
    Literal(Seq<char>),
    Placeholder { expr: Span, escape: bool, spec: Option<Seq<char>> },
}

/// The character sequence of an optional string.
pub open spec fn opt_view(s: Option<String>) -> Option<Seq<char>> {
    match s {
        Some(t) => Some(t@),
        None => None,
    }
}

impl View for Segment {
    type V = SegmentView;

    open spec fn view(&self) -> SegmentView {
        match self {
            Segment::Literal(s) => SegmentView::Literal(s@),
            Segment::Placeholder { expr, escape, spec } => SegmentView::Placeholder {
                expr: *expr,
                escape: *escape,
                spec: opt_view(*spec),
            },
        }
    }
}

/// The views of a sequence of segments.
pub open spec fn segments_view(s: Seq<Segment>) -> Seq<SegmentView> {
    s.map_values(|x: Segment| x@)
}

/// The text of a value known at compile time; none for an expression.
pub open spec fn value_text(v: Value) -> Option<Seq<char>> {
    match v {
        Value::Literal { text, .. } => Some(text@),
        Value::Expression { .. } => None,
    }
}

/// The text a part is written as, when it is known at compile time.
pub open spec fn part_text(p: Part) -> Option<Seq<char>> {
    match p {
        Part::Doctype => Some("<!DOCTYPE html>"@),
        Part::OpeningTagStart => Some("<"@),
        Part::OpeningTagName(name) => Some(name.text@),
        Part::OpeningTagEnd => Some(">"@),
        Part::ClosingTagStart => Some("</"@),
        Part::ClosingTagName(name) => Some(name.text@),
        Part::ClosingTagEnd => Some(">"@),
        Part::AttrSpace => Some(" "@),
        Part::AttrName(name) => Some(name.text@),
        Part::AttrEqSep => Some("="@),
        Part::AttrValueStartQuote => Some("\""@),
        Part::AttrValue(v) => value_text(v),
        Part::AttrValueEndQuote => Some("\""@),
        Part::Value(v) => value_text(v),
    }
}

/// The placeholder that stands for a part whose text is not known at compile
/// time.
pub open spec fn placeholder_of(p: Part) -> SegmentView {
    match p {
        Part::AttrValue(Value::Expression { expr, spec, escape, .. }) => SegmentView::Placeholder {
            expr,
            escape,
            spec: opt_view(spec),
        },
        Part::Value(Value::Expression { expr, spec, escape, .. }) => SegmentView::Placeholder {
            expr,
            escape,
            spec: opt_view(spec),
        },
        _ => SegmentView::Literal(Seq::empty()),
    }
}

/// `segs` followed by the literal `acc`, unless `acc` is empty.
pub open spec fn flush(segs: Seq<SegmentView>, acc: Seq<char>) -> Seq<SegmentView> {
    if acc.len() == 0 {
        segs
    } else {
        segs.push(SegmentView::Literal(acc))
    }
}

/// The segments completed after reading `parts`, and the text gathered since
/// the last of them.
pub open spec fn merge_state(parts: Seq<Part>) -> (Seq<SegmentView>, Seq<char>)
    decreases parts.len(),
{
    if parts.len() == 0 {
        (Seq::empty(), Seq::empty())
    } else {
        let (segs, acc) = merge_state(parts.drop_last());
        match part_text(parts.last()) {
            Some(t) => (segs, acc + t),
            None => (flush(segs, acc).push(placeholder_of(parts.last())), Seq::empty()),
        }
    }
}

/// The segments of `parts`: each maximal run of parts known at compile time
/// becomes one literal, and each other part one placeholder.
pub open spec fn merged(parts: Seq<Part>) -> Seq<SegmentView> {
    flush(merge_state(parts).0, merge_state(parts).1)
}

/// Appends the compile-time text of `p` to `acc` and returns true, or returns
/// false and leaves `acc` alone when `p` is an expression.
fn append_part_text(p: &Part, acc: &mut String) -> (r: bool)
    ensures
        r == (part_text(*p) is Some),
        r ==> final(acc)@ == old(acc)@ + part_text(*p)->0,
        !r ==> final(acc)@ == old(acc)@,
{
    match p {
        Part::Doctype => push_str(acc, "<!DOCTYPE html>"),
        Part::OpeningTagStart => push_str(acc, "<"),
        Part::OpeningTagName(name) => push_str(acc, name.text.as_str()),
        Part::OpeningTagEnd => push_str(acc, ">"),
        Part::ClosingTagStart => push_str(acc, "</"),
        Part::ClosingTagName(name) => push_str(acc, name.text.as_str()),
        Part::ClosingTagEnd => push_str(acc, ">"),
        Part::AttrSpace => push_str(acc, " "),
        Part::AttrName(name) => push_str(acc, name.text.as_str()),
        Part::AttrEqSep => push_str(acc, "="),
        Part::AttrValueStartQuote => push_str(acc, "\""),
        Part::AttrValueEndQuote => push_str(acc, "\""),
        Part::AttrValue(v) | Part::Value(v) => match v {
            Value::Literal { text, .. } => push_str(acc, text.as_str()),
            Value::Expression { .. } => {
                return false;
            },
        },
    }
    true
}

/// The placeholder for an expression part.
fn placeholder(p: &Part) -> (r: Segment)
    requires
        part_text(*p) is None,
    ensures
        r@ == placeholder_of(*p),
{
    match p {
        Part::AttrValue(Value::Expression { expr, spec, escape, .. })
        | Part::Value(Value::Expression { expr, spec, escape, .. }) => Segment::Placeholder {
            expr: *expr,
            escape: *escape,
            spec: copy_opt_string(spec),
        },
        _ => Segment::Literal(String::new()),
    }
}

/// Merges parts into segments: the text of consecutive parts known at compile
/// time is gathered into one literal, and each expression becomes a
/// placeholder, in order.
pub fn merge(parts: &Vec<Part>) -> (r: Vec<Segment>)
    ensures
        segments_view(r@) == merged(parts@),
{
    let mut segs: Vec<Segment> = Vec::new();
    let mut acc = String::new();
    let mut i: usize = 0;
    while i < parts.len()
        invariant
            i <= parts@.len(),
            segments_view(segs@) == merge_state(parts@.take(i as int)).0,
            acc@ == merge_state(parts@.take(i as int)).1,
        decreases parts@.len() - i,
    {
        let ghost before = segs@;
        proof {
            assert(parts@.take(i + 1).drop_last() =~= parts@.take(i as int));
        }
        if !append_part_text(&parts[i], &mut acc) {
            if !acc.as_str().is_empty() {
                segs.push(Segment::Literal(acc));
                acc = String::new();
                assert(segments_view(segs@) =~= segments_view(before).push(
                    SegmentView::Literal(merge_state(parts@.take(i as int)).1),
                ));
            }
            let ghost mid = segs@;
            segs.push(placeholder(&parts[i]));
            assert(segments_view(segs@) =~= segments_view(mid).push(placeholder_of(parts@[i as int])));
        }
        i = i + 1;
    }
    assert(parts@.take(parts@.len() as int) =~= parts@);
    if !acc.as_str().is_empty() {
        let ghost before = segs@;
        segs.push(Segment::Literal(acc));
        assert(segments_view(segs@) =~= segments_view(before).push(
            SegmentView::Literal(merge_state(parts@).1),
        ));
    }
    segs
}

/// The text of `parts`, each part that is known at compile time in turn.
pub open spec fn rendering(parts: Seq<Part>) -> Seq<char>
    decreases parts.len(),
{
    if parts.len() == 0 {
        Seq::empty()
    } else {
        rendering(parts.drop_last()) + match part_text(parts.last()) {
            Some(t) => t,
            None => Seq::empty(),
        }
    }
}

/// Every part of `parts` is known at compile time.
pub open spec fn is_static(parts: Seq<Part>) -> bool {
    forall|i: int| 0 <= i < parts.len() ==> (#[trigger] part_text(parts[i])) is Some
}

proof fn lemma_static_state(parts: Seq<Part>)
    requires
        is_static(parts),
    ensures
        merge_state(parts) == (Seq::<SegmentView>::empty(), rendering(parts)),
    decreases parts.len(),
{
    if parts.len() > 0 {
        let init = parts.drop_last();
        assert forall|i: int| 0 <= i < init.len() implies (#[trigger] part_text(init[i])) is Some by {
            assert(init[i] == parts[i]);
        }
        lemma_static_state(init);
        assert(part_text(parts[parts.len() - 1]) is Some);
    }
}

/// A template whose parts are all known at compile time, and whose text is
/// not empty, merges into exactly one literal segment holding that text.
pub proof fn lemma_static_parts_merge_to_one_literal(parts: Seq<Part>)
    requires
        is_static(parts),
        rendering(parts).len() > 0,
    ensures
        merged(parts) == seq![SegmentView::Literal(rendering(parts))],
{
    lemma_static_state(parts);
    assert(flush(Seq::empty(), rendering(parts)) =~= seq![SegmentView::Literal(rendering(parts))]);
}

} // verus!
