//! Splitting nodes into the fine-grained parts they are written with.

use vstd::prelude::*;

use crate::ast::{Attribute, DashIdent, Node, Tag, Value};

verus! {

/// A fine-grained piece of a template, in the order it is written out.
#[derive(Debug)]
pub enum Part {
    /// `<!DOCTYPE html>`
    Doctype,
    /// `<` that starts an opening tag.
    OpeningTagStart,
    /// The name of an opening tag.
    OpeningTagName(DashIdent),
    /// `>` that ends an opening tag.
    OpeningTagEnd,
    /// `</` that starts a closing tag.
    ClosingTagStart,
    /// The name of a closing tag.
    ClosingTagName(DashIdent),
    /// `>` that ends a closing tag.
    ClosingTagEnd,
    /// The space before an attribute.
    AttrSpace,
    /// The name of an attribute.
    AttrName(DashIdent),
    /// `=` between an attribute's name and its value.
    AttrEqSep,
    /// `"` before an attribute's value.
    AttrValueStartQuote,
    /// The value of an attribute.
    AttrValue(Value),
    /// `"` after an attribute's value.
    AttrValueEndQuote,
    /// A value that stands outside any tag.
    Value(Value),
}

/// The parts of an attribute: space, name, `=`, quote, value, quote.
pub open spec fn attr_parts(a: Attribute) -> Seq<Part> {
    seq![
        Part::AttrSpace,
        Part::AttrName(a.name),
        Part::AttrEqSep,
        Part::AttrValueStartQuote,
        Part::AttrValue(a.value),
        Part::AttrValueEndQuote,
    ]
}

/// The parts of each attribute, one attribute after the other.
pub open spec fn attrs_parts(attrs: Seq<Attribute>) -> Seq<Part>
    decreases attrs.len(),
{
    if attrs.len() == 0 {
        Seq::empty()
    } else {
        attrs_parts(attrs.drop_last()) + attr_parts(attrs.last())
    }
}

/// The parts of a tag: start and name, then the attributes and the end for an
/// opening tag; start, name and end for a closing tag.
pub open spec fn tag_parts(t: Tag) -> Seq<Part> {
    match t {
        Tag::Opening { name, attrs, .. } => seq![Part::OpeningTagStart, Part::OpeningTagName(name)]
            + attrs_parts(attrs@) + seq![Part::OpeningTagEnd],
        Tag::Closing { name, .. } => seq![
            Part::ClosingTagStart,
            Part::ClosingTagName(name),
            Part::ClosingTagEnd,
        ],
    }
}

/// The parts of a node.
pub open spec fn node_parts(n: Node) -> Seq<Part> {
    match n {
        Node::Doctype(_) => seq![Part::Doctype],
        Node::Tag(t) => tag_parts(t),
        Node::Value(v) => seq![Part::Value(v)],
    }
}

/// The parts of each node, one node after the other.
pub open spec fn nodes_parts(nodes: Seq<Node>) -> Seq<Part>
    decreases nodes.len(),
{
    if nodes.len() == 0 {
        Seq::empty()
    } else {
        nodes_parts(nodes.drop_last()) + node_parts(nodes.last())
    }
}

impl Attribute {
    /// Splits the attribute into its six parts.
    pub fn into_parts(self) -> (r: Vec<Part>)
        ensures
            r@ == attr_parts(self),
            r@.len() == 6,
    {
        let r = vec![
            Part::AttrSpace,
            Part::AttrName(self.name),
            Part::AttrEqSep,
            Part::AttrValueStartQuote,
            Part::AttrValue(self.value),
            Part::AttrValueEndQuote,
        ];
        assert(r@ =~= attr_parts(self));
        r
    }
}

impl Tag {
    /// Splits the tag into its parts.
    pub fn into_parts(self) -> (r: Vec<Part>)
        ensures
            r@ == tag_parts(self),
    {
        let ghost whole = self;
        match self {
            Tag::Opening { name, attrs, .. } => {
                let ghost all = attrs@;
                let mut v = vec![Part::OpeningTagStart, Part::OpeningTagName(name)];
                for attr in it: attrs
                    invariant
                        it.seq() == all,
                        v@ == seq![Part::OpeningTagStart, Part::OpeningTagName(name)]
                            + attrs_parts(all.take(it.index() as int)),
                {
                    proof {
                        assert(all.take(it.index() + 1).drop_last() =~= all.take(it.index() as int));
                    }
                    let mut more = attr.into_parts();
                    v.append(&mut more);
                    assert(v@ =~= seq![Part::OpeningTagStart, Part::OpeningTagName(name)]
                        + attrs_parts(all.take(it.index() + 1)));
                }
                assert(all.take(all.len() as int) =~= all);
                v.push(Part::OpeningTagEnd);
                v
            },
            Tag::Closing { name, .. } => {
                let r = vec![Part::ClosingTagStart, Part::ClosingTagName(name), Part::ClosingTagEnd];
                assert(r@ =~= tag_parts(whole));
                r
            },
        }
    }
}

impl Node {
    /// Splits the node into its parts.
    pub fn into_parts(self) -> (r: Vec<Part>)
        ensures
            r@ == node_parts(self),
    {
        let ghost whole = self;
        match self {
            Node::Doctype(_) => {
                let r = vec![Part::Doctype];
                assert(r@ =~= node_parts(whole));
                r
            },
            Node::Tag(tag) => tag.into_parts(),
            Node::Value(value) => {
                let r = vec![Part::Value(value)];
                assert(r@ =~= node_parts(whole));
                r
            },
        }
    }
}

/// Splits every node into its parts, keeping their order.
pub fn lower(nodes: Vec<Node>) -> (r: Vec<Part>)
    ensures
        r@ == nodes_parts(nodes@),
{
    let ghost all = nodes@;
    let mut v: Vec<Part> = Vec::new();
    for node in it: nodes
        invariant
            it.seq() == all,
            v@ == nodes_parts(all.take(it.index() as int)),
    {
        proof {
            assert(all.take(it.index() + 1).drop_last() =~= all.take(it.index() as int));
        }
        let mut more = node.into_parts();
        v.append(&mut more);
    }
    assert(all.take(all.len() as int) =~= all);
    v
}

/// The value of `p` when it is an expression, evaluated when the output is
/// written.
pub open spec fn dynamic_value(p: Part) -> Option<Value> {
    match p {
        Part::AttrValue(v) => if v is Expression {
            Some(v)
        } else {
            None
        },
        Part::Value(v) => if v is Expression {
            Some(v)
        } else {
            None
        },
        _ => None,
    }
}

/// The expression values among `parts`, in order.
pub open spec fn dynamic_values(parts: Seq<Part>) -> Seq<Value>
    decreases parts.len(),
{
    if parts.len() == 0 {
        Seq::empty()
    } else {
        dynamic_values(parts.drop_last()) + match dynamic_value(parts.last()) {
            Some(v) => seq![v],
            None => Seq::empty(),
        }
    }
}

pub proof fn lemma_dynamic_values_append(a: Seq<Part>, b: Seq<Part>)
    ensures
        dynamic_values(a + b) == dynamic_values(a) + dynamic_values(b),
    decreases b.len(),
{
    if b.len() == 0 {
        assert(a + b =~= a);
        assert(dynamic_values(a) + dynamic_values(b) =~= dynamic_values(a));
    } else {
        lemma_dynamic_values_append(a, b.drop_last());
        assert((a + b).drop_last() =~= a + b.drop_last());
        assert((a + b).last() == b.last());
        let tail = match dynamic_value(b.last()) {
            Some(v) => seq![v],
            None => Seq::<Value>::empty(),
        };
        assert(dynamic_values(a) + dynamic_values(b.drop_last()) + tail =~= dynamic_values(a) + (
        dynamic_values(b.drop_last()) + tail));
    }
}

/// Appends to `out` the expression values of `n`, in order.
pub fn collect_values(n: &Node, out: &mut Vec<Value>)
    ensures
        final(out)@ == old(out)@ + dynamic_values(node_parts(*n)),
{
    match n {
        Node::Tag(Tag::Opening { name, attrs, .. }) => {
            let ghost start = out@;
            let mut j: usize = 0;
            assert(dynamic_values(attrs_parts(attrs@.take(0))) =~= Seq::empty());
            assert(out@ =~= start + Seq::empty());
            while j < attrs.len()
                invariant
                    j <= attrs@.len(),
                    out@ == start + dynamic_values(attrs_parts(attrs@.take(j as int))),
                decreases attrs@.len() - j,
            {
                let ghost a = attrs@[j as int];
                proof {
                    assert(attrs@.take(j + 1).drop_last() =~= attrs@.take(j as int));
                    lemma_dynamic_values_append(attrs_parts(attrs@.take(j as int)), attr_parts(a));
                    assert(dynamic_values(attr_parts(a)) =~= match dynamic_value(Part::AttrValue(a.value)) {
                        Some(v) => seq![v],
                        None => Seq::<Value>::empty(),
                    }) by {
                        reveal_with_fuel(dynamic_values, 7);
                        let p = attr_parts(a);
                        assert(p.drop_last() =~= seq![p[0], p[1], p[2], p[3], p[4]]);
                        assert(p.drop_last().drop_last() =~= seq![p[0], p[1], p[2], p[3]]);
                        assert(p.drop_last().drop_last().drop_last() =~= seq![p[0], p[1], p[2]]);
                        assert(p.drop_last().drop_last().drop_last().drop_last() =~= seq![p[0], p[1]]);
                        assert(p.drop_last().drop_last().drop_last().drop_last().drop_last() =~= seq![p[0]]);
                        assert(p.drop_last().drop_last().drop_last().drop_last().drop_last().drop_last() =~= Seq::<Part>::empty());
                    }
                }
                if let Value::Expression { .. } = &attrs[j].value {
                    out.push(attrs[j].value.duplicate());
                }
                assert(out@ =~= start + dynamic_values(attrs_parts(attrs@.take(j + 1))));
                j = j + 1;
            }
            proof {
                assert(attrs@.take(attrs@.len() as int) =~= attrs@);
                let head = seq![Part::OpeningTagStart, Part::OpeningTagName(*name)];
                let mid = attrs_parts(attrs@);
                let tail = seq![Part::OpeningTagEnd];
                lemma_dynamic_values_append(head, mid);
                lemma_dynamic_values_append(head + mid, tail);
                assert(dynamic_values(head) =~= Seq::empty()) by {
                    reveal_with_fuel(dynamic_values, 3);
                    assert(head.drop_last() =~= seq![Part::OpeningTagStart]);
                    assert(head.drop_last().drop_last() =~= Seq::<Part>::empty());
                }
                assert(dynamic_values(tail) =~= Seq::empty()) by {
                    assert(tail.drop_last() =~= Seq::<Part>::empty());
                }
                assert(dynamic_values(node_parts(*n)) =~= dynamic_values(mid));
            }
        },
        Node::Tag(Tag::Closing { .. }) => {
            proof {
                reveal_with_fuel(dynamic_values, 4);
                let p = node_parts(*n);
                assert(p.drop_last() =~= seq![p[0], p[1]]);
                assert(p.drop_last().drop_last() =~= seq![p[0]]);
                assert(p.drop_last().drop_last().drop_last() =~= Seq::<Part>::empty());
                assert(dynamic_values(p) =~= Seq::empty());
                assert(out@ + dynamic_values(p) =~= out@);
            }
        },
        Node::Doctype(_) => {
            proof {
                reveal_with_fuel(dynamic_values, 2);
                let p = node_parts(*n);
                assert(p.drop_last() =~= Seq::<Part>::empty());
                assert(dynamic_values(p) =~= Seq::empty());
                assert(out@ + dynamic_values(p) =~= out@);
            }
        },
        Node::Value(v) => {
            proof {
                reveal_with_fuel(dynamic_values, 2);
                let p = node_parts(*n);
                assert(p.drop_last() =~= Seq::<Part>::empty());
                assert(dynamic_values(p) =~= match dynamic_value(p[0]) {
                    Some(x) => seq![x],
                    None => Seq::<Value>::empty(),
                });
            }
            if let Value::Expression { .. } = v {
                out.push(v.duplicate());
            }
            assert(out@ =~= old(out)@ + dynamic_values(node_parts(*n)));
        },
    }
}

} // verus!
