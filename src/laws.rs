//! Properties that relate several steps of the compiler.

use vstd::prelude::*;

use crate::ast::{Node, Tag, Value};
use crate::error::ErrorKindView;
use crate::lower::{dynamic_value, dynamic_values, nodes_parts, Part};
use crate::merge::{
    is_static, lemma_static_parts_merge_to_one_literal, merged, part_text, rendering, SegmentView,
};
use crate::parse::{braced, escape_flag, lemma_first_separator_unique, spec_of, value_spells};
use crate::token::Token;
use crate::validate::{
    duplicate_in, duplicate_scan, has_twin, last_twin, tag_name_of, tree_check, tree_scan, twin_error,
    validation,
};

verus! {

proof fn lemma_no_dynamic_is_static(parts: Seq<Part>)
    requires
        dynamic_values(parts).len() == 0,
    ensures
        is_static(parts),
    decreases parts.len(),
{
    if parts.len() > 0 {
        let init = parts.drop_last();
        assert(dynamic_values(init).len() == 0);
        lemma_no_dynamic_is_static(init);
        assert(dynamic_value(parts.last()) is None);
        assert forall|i: int| 0 <= i < parts.len() implies (#[trigger] part_text(parts[i])) is Some by {
            if i < init.len() {
                assert(init[i] == parts[i]);
            }
        }
    }
}

/// A template without expressions, whose text is not empty, lowers and merges
/// into exactly one literal segment, holding the template's text.
pub proof fn lemma_static_template_is_one_literal(nodes: Seq<Node>)
    requires
        dynamic_values(nodes_parts(nodes)).len() == 0,
        rendering(nodes_parts(nodes)).len() > 0,
    ensures
        merged(nodes_parts(nodes)) == seq![SegmentView::Literal(rendering(nodes_parts(nodes)))],
{
    lemma_no_dynamic_is_static(nodes_parts(nodes));
    lemma_static_parts_merge_to_one_literal(nodes_parts(nodes));
}

proof fn lemma_twin_found(attrs: Seq<crate::ast::Attribute>, i: int, n: int)
    requires
        0 <= i < n,
        has_twin(attrs, i),
    ensures
        last_twin(attrs, n) is Some,
    decreases n,
{
    if !has_twin(attrs, n - 1) {
        lemma_twin_found(attrs, i, n - 1);
    }
}

proof fn lemma_duplicate_reached(nodes: Seq<Node>, m: int, k: int)
    requires
        0 <= m <= k < nodes.len(),
        duplicate_in(nodes[k]) matches Some(e) && e.kind is DuplicateAttribute,
    ensures
        duplicate_scan(nodes, m) matches Err(e) && e.kind is DuplicateAttribute,
    decreases k - m,
{
    if duplicate_in(nodes[m]) is None {
        lemma_duplicate_reached(nodes, m + 1, k);
    } else {
        let attrs = match nodes[m] {
            Node::Tag(Tag::Opening { attrs, .. }) => attrs@,
            _ => Seq::empty(),
        };
        assert(duplicate_in(nodes[m]) == twin_error(attrs));
    }
}

/// When the tags of a template are balanced and one opening tag has two
/// attributes with the same name, validation fails with a duplicate-attribute
/// error.
pub proof fn lemma_duplicate_attribute_rejected(nodes: Seq<Node>, k: int, i: int, j: int)
    requires
        tree_check(nodes) is Ok,
        0 <= k < nodes.len(),
        nodes[k] matches Node::Tag(Tag::Opening { attrs, .. }) && 0 <= i < attrs@.len() && 0 <= j
            < attrs@.len() && i != j && attrs@[i].name.text@ == attrs@[j].name.text@,
    ensures
        validation(nodes) matches Err(e) && e.kind is DuplicateAttribute,
{
    let attrs = match nodes[k] {
        Node::Tag(Tag::Opening { attrs, .. }) => attrs@,
        _ => Seq::empty(),
    };
    assert(attrs[j].name.text@ == attrs[i].name.text@);
    assert(has_twin(attrs, i));
    lemma_twin_found(attrs, i, attrs.len() as int);
    assert(duplicate_in(nodes[k]) == twin_error(attrs));
    lemma_duplicate_reached(nodes, 0, k);
}

/// A braced value with the escape flag or a format specifier stays an
/// expression, even when the expression inside is a literal.
pub proof fn lemma_flagged_value_not_inlined(toks: Seq<Token>, v: Value, s: int, e: int, k: int)
    requires
        value_spells(toks, v, s, e),
        braced(toks, s, e, k),
        escape_flag(toks, k, e - 1) || spec_of(toks, k, e - 1) is Some,
    ensures
        v is Expression,
{
    if let Value::Literal { text, .. } = v {
        if !(e == s + 1 && crate::parse::str_literal(toks[s], text@)) {
            let k2 = choose|k2: int|
                braced(toks, s, e, k2) && !escape_flag(toks, k2, e - 1) && spec_of(toks, k2, e - 1) is None
                    && #[trigger] crate::parse::const_text(toks, s + 1, k2) == Some(text@);
            lemma_first_separator_unique(toks, s, e - 1, k, k2);
        }
    }
}

/// The stack of names of the opening tags still open after `n`, when it
/// stood on `stack`: an opening tag pushes its name, a self-closing tag and
/// anything else leave it, and a closing tag pops its own name; none when a
/// closing tag does not match the innermost open tag.
pub open spec fn nesting_step(stack: Seq<Seq<char>>, n: Node) -> Option<Seq<Seq<char>>> {
    match n {
        Node::Tag(Tag::Opening { name, self_closing, .. }) => if self_closing {
            Some(stack)
        } else {
            Some(stack.push(name.text@))
        },
        Node::Tag(Tag::Closing { name, .. }) => if stack.len() > 0 && stack.last() == name.text@ {
            Some(stack.drop_last())
        } else {
            None
        },
        _ => Some(stack),
    }
}

/// The stack of names of the tags still open after `nodes`, from `stack`.
pub open spec fn nesting(stack: Seq<Seq<char>>, nodes: Seq<Node>) -> Option<Seq<Seq<char>>>
    decreases nodes.len(),
{
    if nodes.len() == 0 {
        Some(stack)
    } else {
        match nesting(stack, nodes.drop_last()) {
            Some(s) => nesting_step(s, nodes.last()),
            None => None,
        }
    }
}

proof fn lemma_nesting_append(stack: Seq<Seq<char>>, a: Seq<Node>, b: Seq<Node>)
    ensures
        nesting(stack, a + b) == match nesting(stack, a) {
            Some(s) => nesting(s, b),
            None => None,
        },
    decreases b.len(),
{
    if b.len() == 0 {
        assert(a + b =~= a);
    } else {
        lemma_nesting_append(stack, a, b.drop_last());
        assert((a + b).drop_last() =~= a + b.drop_last());
        assert((a + b).last() == b.last());
    }
}

/// The names of the tags at the positions of `stack`.
pub open spec fn stack_names(nodes: Seq<Node>, stack: Seq<int>) -> Seq<Seq<char>> {
    stack.map_values(|k: int| tag_name_of(nodes[k]))
}

proof fn lemma_scan_is_nesting(nodes: Seq<Node>, i: int, stack: Seq<int>)
    requires
        0 <= i <= nodes.len(),
        forall|k: int| 0 <= k < stack.len() ==> 0 <= #[trigger] stack[k] < i,
    ensures
        match tree_scan(nodes, i, stack) {
            Ok(end) => nesting(stack_names(nodes, stack), nodes.subrange(i, nodes.len() as int))
                == Some(stack_names(nodes, end)),
            Err(_) => nesting(stack_names(nodes, stack), nodes.subrange(i, nodes.len() as int)) is None,
        },
    decreases nodes.len() - i,
{
    let rest = nodes.subrange(i, nodes.len() as int);
    let names = stack_names(nodes, stack);
    if i == nodes.len() {
        assert(rest.len() == 0);
    } else {
        let tail = nodes.subrange(i + 1, nodes.len() as int);
        assert(rest =~= seq![nodes[i]] + tail);
        lemma_nesting_append(names, seq![nodes[i]], tail);
        assert(seq![nodes[i]].drop_last() =~= Seq::<Node>::empty());
        assert(nesting(names, Seq::<Node>::empty()) == Some(names));
        assert(nesting(names, seq![nodes[i]]) == nesting_step(names, nodes[i]));
        match nodes[i] {
            Node::Tag(Tag::Opening { name, self_closing, .. }) => {
                if self_closing {
                    lemma_scan_is_nesting(nodes, i + 1, stack);
                } else {
                    lemma_scan_is_nesting(nodes, i + 1, stack.push(i));
                    assert(stack_names(nodes, stack.push(i)) =~= names.push(name.text@));
                }
            },
            Node::Tag(Tag::Closing { name, .. }) => {
                if stack.len() > 0 && tag_name_of(nodes[stack.last()]) == name.text@ {
                    lemma_scan_is_nesting(nodes, i + 1, stack.drop_last());
                    assert(stack_names(nodes, stack.drop_last()) =~= names.drop_last());
                }
                if stack.len() > 0 {
                    assert(names.last() == tag_name_of(nodes[stack.last()]));
                }
            },
            _ => {
                lemma_scan_is_nesting(nodes, i + 1, stack);
            },
        }
    }
}

/// The tag-balance check succeeds exactly when every closing tag closes the
/// innermost opening tag still open, which has the same name, and no tag is
/// left open at the end.
pub proof fn lemma_balanced_iff_nested(nodes: Seq<Node>)
    ensures
        tree_check(nodes) is Ok <==> nesting(Seq::empty(), nodes) == Some(Seq::<Seq<char>>::empty()),
{
    lemma_scan_is_nesting(nodes, 0, Seq::empty());
    assert(nodes.subrange(0, nodes.len() as int) =~= nodes);
    assert(stack_names(nodes, Seq::empty()) =~= Seq::empty());
    match tree_scan(nodes, 0, Seq::empty()) {
        Ok(end) => {
            assert(stack_names(nodes, end).len() == end.len());
            if end.len() == 0 {
                assert(stack_names(nodes, end) =~= Seq::empty());
            }
        },
        Err(_) => {},
    }
}

/// `n` leaves the nesting unchanged: it is no tag, or a self-closing tag.
pub open spec fn is_neutral(n: Node) -> bool {
    match n {
        Node::Tag(Tag::Opening { self_closing, .. }) => self_closing,
        Node::Tag(Tag::Closing { .. }) => false,
        _ => true,
    }
}

/// `n` is an opening tag, not self-closing, named `name`.
pub open spec fn opens_as(n: Node, name: Seq<char>) -> bool {
    n matches Node::Tag(Tag::Opening { name: m, self_closing, .. }) && !self_closing && m.text@ == name
}

/// `nodes` is well nested: a sequence of nodes that leave the nesting
/// unchanged and of opening tags followed by a well-nested sequence and by
/// the closing tag of the same name.
pub open spec fn well_nested(nodes: Seq<Node>) -> bool
    decreases nodes.len(),
{
    if nodes.len() == 0 {
        true
    } else if is_neutral(nodes.last()) {
        well_nested(nodes.drop_last())
    } else {
        match nodes.last() {
            Node::Tag(Tag::Closing { name, .. }) => exists|k: int|
                0 <= k < nodes.len() - 1 && #[trigger] opens_as(nodes[k], name.text@) && well_nested(
                    nodes.subrange(0, k),
                ) && well_nested(nodes.subrange(k + 1, nodes.len() - 1)),
            _ => false,
        }
    }
}

proof fn lemma_well_nested_keeps_stack(stack: Seq<Seq<char>>, nodes: Seq<Node>)
    requires
        well_nested(nodes),
    ensures
        nesting(stack, nodes) == Some(stack),
    decreases nodes.len(),
{
    if nodes.len() > 0 {
        if is_neutral(nodes.last()) {
            lemma_well_nested_keeps_stack(stack, nodes.drop_last());
        } else {
            let name = match nodes.last() {
                Node::Tag(Tag::Closing { name, .. }) => name.text@,
                _ => Seq::empty(),
            };
            let k = choose|k: int|
                0 <= k < nodes.len() - 1 && #[trigger] opens_as(nodes[k], name) && well_nested(
                    nodes.subrange(0, k),
                ) && well_nested(nodes.subrange(k + 1, nodes.len() - 1));
            let a = nodes.subrange(0, k);
            let m = nodes.subrange(k + 1, nodes.len() - 1);
            lemma_well_nested_keeps_stack(stack, a);
            lemma_well_nested_keeps_stack(stack.push(name), m);
            assert(nodes.drop_last() =~= (a + seq![nodes[k]]) + m);
            lemma_nesting_append(stack, a + seq![nodes[k]], m);
            lemma_nesting_append(stack, a, seq![nodes[k]]);
            assert(seq![nodes[k]].drop_last() =~= Seq::<Node>::empty());
            assert(nesting(stack, Seq::<Node>::empty()) == Some(stack));
            assert(nesting(stack, seq![nodes[k]]) == nesting_step(stack, nodes[k]));
            assert(stack.push(name).drop_last() =~= stack);
        }
    }
}

/// `r` is a stack that holds `base` at its bottom.
pub open spec fn above(base: Seq<Seq<char>>, r: Option<Seq<Seq<char>>>) -> bool {
    r matches Some(x) && x.len() >= base.len() && x.take(base.len() as int) == base
}

/// Every stack reached along `nodes` from `base` keeps `base` at its bottom.
pub open spec fn stays_above(base: Seq<Seq<char>>, nodes: Seq<Node>) -> bool {
    forall|m: int| 0 <= m <= nodes.len() ==> above(base, #[trigger] nesting(base, nodes.take(m)))
}

proof fn lemma_stays_above_prefix(base: Seq<Seq<char>>, nodes: Seq<Node>, j: int)
    requires
        stays_above(base, nodes),
        0 <= j <= nodes.len(),
    ensures
        stays_above(base, nodes.take(j)),
{
    assert forall|m: int| 0 <= m <= nodes.take(j).len() implies above(
        base,
        #[trigger] nesting(base, nodes.take(j).take(m)),
    ) by {
        assert(nodes.take(j).take(m) =~= nodes.take(m));
        assert(above(base, nesting(base, nodes.take(m))));
    }
}

proof fn lemma_nesting_step_take(base: Seq<Seq<char>>, nodes: Seq<Node>, j: int)
    requires
        0 <= j < nodes.len(),
    ensures
        nesting(base, nodes.take(j + 1)) == match nesting(base, nodes.take(j)) {
            Some(s) => nesting_step(s, nodes[j]),
            None => None,
        },
{
    assert(nodes.take(j + 1).drop_last() =~= nodes.take(j));
}

/// The middle of a closed pair stays above the stack with the pair's name.
proof fn lemma_middle_stays_above(
    base: Seq<Seq<char>>,
    nodes: Seq<Node>,
    k: int,
    t: Seq<char>,
    j: int,
    n: int,
)
    requires
        stays_above(base, nodes),
        0 <= k < j <= n <= nodes.len(),
        nesting(base, nodes.take(k + 1)) == Some(base.push(t)),
        forall|i: int| k < i <= n ==> #[trigger] nesting(base, nodes.take(i)) != Some(base),
    ensures
        above(base.push(t), nesting(base, nodes.take(j))),
    decreases j - k,
{
    if j > k + 1 {
        lemma_middle_stays_above(base, nodes, k, t, j - 1, n);
        lemma_nesting_step_take(base, nodes, j - 1);
        let prev = nesting(base, nodes.take(j - 1))->0;
        assert(above(base, nesting(base, nodes.take(j))));
        let cur = nesting(base, nodes.take(j))->0;
        if cur.len() == base.len() {
            assert(cur =~= cur.take(base.len() as int));
        }
        match nodes[j - 1] {
            Node::Tag(Tag::Opening { self_closing, .. }) => {
                if !self_closing {
                    assert(cur.take(base.len() as int + 1) =~= prev.take(base.len() as int + 1));
                }
            },
            Node::Tag(Tag::Closing { .. }) => {
                assert(cur.take(base.len() as int + 1) =~= prev.take(base.len() as int + 1));
            },
            _ => {},
        }
    } else {
        assert(base.push(t).take(base.len() as int + 1) =~= base.push(t));
    }
}

proof fn lemma_last_return(base: Seq<Seq<char>>, nodes: Seq<Node>, n: int) -> (k: int)
    requires
        0 <= n <= nodes.len(),
        nesting(base, nodes.take(0)) == Some(base),
    ensures
        0 <= k <= n,
        nesting(base, nodes.take(k)) == Some(base),
        forall|i: int| k < i <= n ==> #[trigger] nesting(base, nodes.take(i)) != Some(base),
    decreases n,
{
    if n == 0 || nesting(base, nodes.take(n)) == Some(base) {
        n
    } else {
        lemma_last_return(base, nodes, n - 1)
    }
}

proof fn lemma_returning_is_well_nested(base: Seq<Seq<char>>, nodes: Seq<Node>)
    requires
        stays_above(base, nodes),
        nesting(base, nodes) == Some(base),
    ensures
        well_nested(nodes),
    decreases nodes.len(),
{
    let len = nodes.len() as int;
    if len > 0 {
        assert(nodes.take(len) =~= nodes);
        assert(nodes.take(len - 1) =~= nodes.drop_last());
        lemma_stays_above_prefix(base, nodes, len - 1);
        assert(nodes.drop_last().take(len - 1) =~= nodes.drop_last());
        let before = nesting(base, nodes.drop_last())->0;
        if is_neutral(nodes.last()) {
            lemma_returning_is_well_nested(base, nodes.drop_last());
        } else {
            assert(nodes.take(0) =~= Seq::<Node>::empty());
            let k = lemma_last_return(base, nodes, len - 1);
            if k == len - 1 {
                assert(before == base);
                assert(false);
            }
            lemma_nesting_step_take(base, nodes, k);
            assert(above(base, nesting(base, nodes.take(k + 1))));
            let after = nesting(base, nodes.take(k + 1))->0;
            let t = match nodes[k] {
                Node::Tag(Tag::Opening { name, .. }) => name.text@,
                _ => Seq::empty(),
            };
            match nodes[k] {
                Node::Tag(Tag::Opening { self_closing, .. }) => {
                    if self_closing {
                        assert(false);
                    }
                },
                Node::Tag(Tag::Closing { .. }) => {
                    assert(after.len() < base.len());
                    assert(false);
                },
                _ => {
                    assert(false);
                },
            }
            assert(after == base.push(t));
            let a = nodes.subrange(0, k);
            let m = nodes.subrange(k + 1, len - 1);
            assert(a =~= nodes.take(k));
            lemma_stays_above_prefix(base, nodes, k);
            lemma_returning_is_well_nested(base, a);
            let top = base.push(t);
            assert forall|i: int| 0 <= i <= m.len() implies above(top, #[trigger] nesting(top, m.take(i))) by {
                lemma_middle_stays_above(base, nodes, k, t, k + 1 + i, len - 1);
                assert(nodes.take(k + 1 + i) =~= nodes.take(k + 1) + m.take(i));
                lemma_nesting_append(base, nodes.take(k + 1), m.take(i));
            }
            assert(nodes.drop_last() =~= nodes.take(k + 1) + m);
            lemma_nesting_append(base, nodes.take(k + 1), m);
            lemma_middle_stays_above(base, nodes, k, t, len - 1, len - 1);
            assert(nesting(base, nodes.take(len - 1)) == Some(before));
            assert(before.len() == base.len() + 1) by {
                assert(before.drop_last() == base);
            }
            assert(before =~= base.push(t)) by {
                assert(before.take(base.len() as int + 1) =~= before);
            }
            lemma_returning_is_well_nested(top, m);
            let name = match nodes.last() {
                Node::Tag(Tag::Closing { name, .. }) => name.text@,
                _ => Seq::empty(),
            };
            assert(before.last() == name);
            assert(opens_as(nodes[k], name));
        }
    }
}

/// A sequence of nodes passes the tag-balance check exactly when it is well
/// nested.
pub proof fn lemma_balanced_iff_well_nested(nodes: Seq<Node>)
    ensures
        tree_check(nodes) is Ok <==> well_nested(nodes),
{
    lemma_balanced_iff_nested(nodes);
    let empty = Seq::<Seq<char>>::empty();
    if well_nested(nodes) {
        lemma_well_nested_keeps_stack(empty, nodes);
    }
    if nesting(empty, nodes) == Some(empty) {
        assert forall|m: int| 0 <= m <= nodes.len() implies above(empty, #[trigger] nesting(empty, nodes.take(m))) by {
            lemma_nesting_append(empty, nodes.take(m), nodes.skip(m));
            assert(nodes.take(m) + nodes.skip(m) =~= nodes);
            let x = nesting(empty, nodes.take(m));
            assert(x is Some);
            assert(x->0.take(0) =~= empty);
        }
        lemma_returning_is_well_nested(empty, nodes);
    }
}

} // verus!
