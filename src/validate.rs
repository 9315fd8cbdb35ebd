//! Structural checks: balanced tags and unique attribute names.

use vstd::prelude::*;

use crate::ast::{Attribute, Node, Tag};
use crate::error::{unit_result_view, Error, ErrorKind, ErrorKindView, ErrorView};
use crate::token::Span;

verus! {

/// The name of the tag at `n`; empty when `n` is not a tag.
pub open spec fn tag_name_of(n: Node) -> Seq<char> {
    match n {
        Node::Tag(t) => t.spec_name().text@,
        _ => Seq::empty(),
    }
}

/// The tokens of the tag at `n`.
pub open spec fn tag_span_of(n: Node) -> Span {
    match n {
        Node::Tag(t) => t.spec_span(),
        _ => Span { start: 0, end: 0 },
    }
}

/// The positions of the opening tags left unmatched after reading `nodes`
/// from position `i` on, with the positions in `stack` unmatched before it; or
/// the first closing tag that matches no opening tag.
pub open spec fn tree_scan(nodes: Seq<Node>, i: int, stack: Seq<int>) -> Result<Seq<int>, ErrorView>
    decreases nodes.len() - i,
{
    if i < 0 || i >= nodes.len() {
        Ok(stack)
    } else {
        match nodes[i] {
            Node::Tag(Tag::Opening { self_closing, .. }) => if self_closing {
                tree_scan(nodes, i + 1, stack)
            } else {
                tree_scan(nodes, i + 1, stack.push(i))
            },
            Node::Tag(Tag::Closing { name, span }) => if stack.len() == 0 {
                Err(ErrorView { kind: ErrorKindView::UnmatchedClosing { name: name.text@ }, span })
            } else if tag_name_of(nodes[stack.last()]) == name.text@ {
                tree_scan(nodes, i + 1, stack.drop_last())
            } else {
                Err(
                    ErrorView {
                        kind: ErrorKindView::ClosingMismatch {
                            expected: tag_name_of(nodes[stack.last()]),
                            found: name.text@,
                        },
                        span,
                    },
                )
            },
            _ => tree_scan(nodes, i + 1, stack),
        }
    }
}

/// The outcome of the tag-balance check: every closing tag closes the
/// innermost opening tag still open, which has the same name, and no opening
/// tag is left open at the end. Self-closing tags take no part.
pub open spec fn tree_check(nodes: Seq<Node>) -> Result<(), ErrorView> {
    match tree_scan(nodes, 0, Seq::empty()) {
        Err(e) => Err(e),
        Ok(stack) => if stack.len() == 0 {
            Ok(())
        } else {
            Err(
                ErrorView {
                    kind: ErrorKindView::UnmatchedOpening { name: tag_name_of(nodes[stack.last()]) },
                    span: tag_span_of(nodes[stack.last()]),
                },
            )
        },
    }
}

/// The attribute at `i` shares its name with another attribute.
pub open spec fn has_twin(attrs: Seq<Attribute>, i: int) -> bool {
    exists|j: int|
        0 <= j < attrs.len() && j != i && #[trigger] attrs[j].name.text@ == attrs[i].name.text@
}

/// The last of the first `n` attributes that shares its name with another
/// attribute.
pub open spec fn last_twin(attrs: Seq<Attribute>, n: int) -> Option<int>
    decreases n,
{
    if n <= 0 {
        None
    } else if has_twin(attrs, n - 1) {
        Some(n - 1)
    } else {
        last_twin(attrs, n - 1)
    }
}

/// The duplicate-attribute error of node `n`, if it is an opening tag with
/// two attributes of one name: it names the last such attribute.
pub open spec fn duplicate_in(n: Node) -> Option<ErrorView> {
    match n {
        Node::Tag(Tag::Opening { attrs, .. }) => twin_error(attrs@),
        _ => None,
    }
}

/// The duplicate-attribute error of a list of attributes: it names the last
/// attribute that shares its name with another.
pub open spec fn twin_error(attrs: Seq<Attribute>) -> Option<ErrorView> {
    match last_twin(attrs, attrs.len() as int) {
        Some(i) => Some(
            ErrorView {
                kind: ErrorKindView::DuplicateAttribute { name: attrs[i].name.text@ },
                span: attrs[i].span,
            },
        ),
        None => None,
    }
}

/// The outcome of the duplicate-attribute check on the nodes from position
/// `i` on: the error of the first tag with a duplicate attribute.
pub open spec fn duplicate_scan(nodes: Seq<Node>, i: int) -> Result<(), ErrorView>
    decreases nodes.len() - i,
{
    if i < 0 || i >= nodes.len() {
        Ok(())
    } else {
        match duplicate_in(nodes[i]) {
            Some(e) => Err(e),
            None => duplicate_scan(nodes, i + 1),
        }
    }
}

/// The outcome of `validate`: the tag-balance check, then the
/// duplicate-attribute check.
pub open spec fn validation(nodes: Seq<Node>) -> Result<(), ErrorView> {
    match tree_check(nodes) {
        Err(e) => Err(e),
        Ok(()) => duplicate_scan(nodes, 0),
    }
}

/// The name of the tag at `n`.
fn name_text(n: &Node) -> (r: String)
    ensures
        r@ == tag_name_of(*n),
{
    match n {
        Node::Tag(t) => t.name().text.clone(),
        _ => String::new(),
    }
}

/// The tokens of the tag at `n`.
fn tag_span(n: &Node) -> (r: Span)
    ensures
        r == tag_span_of(*n),
{
    match n {
        Node::Tag(t) => t.span(),
        _ => Span { start: 0, end: 0 },
    }
}

/// The integer positions held by `stack`.
pub open spec fn positions(stack: Seq<usize>) -> Seq<int> {
    stack.map_values(|x: usize| x as int)
}

/// Checks that tags are balanced: each closing tag closes the innermost
/// opening tag still open, with the same name, and none is left open.
pub fn check_node_tree(nodes: &Vec<Node>) -> (r: Result<(), Error>)
    ensures
        unit_result_view(r) == tree_check(nodes@),
{
    let mut stack: Vec<usize> = Vec::new();
    let mut i: usize = 0;
    assert(positions(stack@) =~= Seq::empty());
    while i < nodes.len()
        invariant
            i <= nodes@.len(),
            forall|k: int| 0 <= k < stack@.len() ==> stack@[k] < i,
            tree_scan(nodes@, 0, Seq::empty()) == tree_scan(nodes@, i as int, positions(stack@)),
        decreases nodes@.len() - i,
    {
        match &nodes[i] {
            Node::Tag(Tag::Opening { self_closing, .. }) => {
                if !*self_closing {
                    let ghost before = stack@;
                    stack.push(i);
                    assert(positions(stack@) =~= positions(before).push(i as int));
                }
            },
            Node::Tag(Tag::Closing { name, span }) => {
                if stack.len() == 0 {
                    return Err(
                        Error {
                            kind: ErrorKind::UnmatchedClosing { name: name.text.clone() },
                            span: *span,
                        },
                    );
                }
                let top = stack[stack.len() - 1];
                let expected = name_text(&nodes[top]);
                if expected != name.text {
                    return Err(
                        Error {
                            kind: ErrorKind::ClosingMismatch {
                                expected,
                                found: name.text.clone(),
                            },
                            span: *span,
                        },
                    );
                }
                let ghost before = stack@;
                stack.pop();
                assert(positions(stack@) =~= positions(before).drop_last());
            },
            _ => {},
        }
        i = i + 1;
    }
    if stack.len() > 0 {
        let top = stack[stack.len() - 1];
        return Err(
            Error {
                kind: ErrorKind::UnmatchedOpening { name: name_text(&nodes[top]) },
                span: tag_span(&nodes[top]),
            },
        );
    }
    Ok(())
}

/// Tells whether the attribute at `i` shares its name with another attribute.
fn attr_has_twin(attrs: &Vec<Attribute>, i: usize) -> (r: bool)
    requires
        i < attrs@.len(),
    ensures
        r == has_twin(attrs@, i as int),
{
    let mut j: usize = 0;
    while j < attrs.len()
        invariant
            j <= attrs@.len(),
            i < attrs@.len(),
            forall|k: int|
                0 <= k < j && k != i ==> #[trigger] attrs@[k].name.text@ != attrs@[i as int].name.text@,
        decreases attrs@.len() - j,
    {
        if j != i && attrs[j].name.text == attrs[i].name.text {
            return true;
        }
        j = j + 1;
    }
    false
}

/// The duplicate-attribute error of `n`, if any.
fn duplicate_of(n: &Node) -> (r: Option<Error>)
    ensures
        match r {
            Some(e) => duplicate_in(*n) == Some(e@),
            None => duplicate_in(*n) is None,
        },
{
    if let Node::Tag(Tag::Opening { attrs, .. }) = n {
        let mut j: usize = attrs.len();
        while j > 0
            invariant
                j <= attrs@.len(),
                last_twin(attrs@, attrs@.len() as int) == last_twin(attrs@, j as int),
                duplicate_in(*n) == twin_error(attrs@),
            decreases j,
        {
            if attr_has_twin(attrs, j - 1) {
                assert(last_twin(attrs@, j as int) == Some(j - 1));
                return Some(
                    Error {
                        kind: ErrorKind::DuplicateAttribute { name: attrs[j - 1].name.text.clone() },
                        span: attrs[j - 1].span,
                    },
                );
            }
            j = j - 1;
        }
    }
    None
}

/// Checks that no opening tag has two attributes of one name. Attributes are
/// examined from the last, so the error names the last such attribute.
pub fn check_duplicate_attrs(nodes: &Vec<Node>) -> (r: Result<(), Error>)
    ensures
        unit_result_view(r) == duplicate_scan(nodes@, 0),
{
    let mut i: usize = 0;
    while i < nodes.len()
        invariant
            i <= nodes@.len(),
            duplicate_scan(nodes@, 0) == duplicate_scan(nodes@, i as int),
        decreases nodes@.len() - i,
    {
        if let Some(e) = duplicate_of(&nodes[i]) {
            return Err(e);
        }
        i = i + 1;
    }
    Ok(())
}

/// Checks a template's structure: tags are balanced, then no opening tag has
/// two attributes of one name.
pub fn validate(nodes: &Vec<Node>) -> (r: Result<(), Error>)
    ensures
        unit_result_view(r) == validation(nodes@),
{
    check_node_tree(nodes)?;
    check_duplicate_attrs(nodes)
}

} // verus!
