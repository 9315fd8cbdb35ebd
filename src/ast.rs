//! The syntax tree of a template: names, values, attributes, tags and nodes.

use vstd::prelude::*;

use crate::token::Span;

verus! {

/// An identifier made of one or more names joined by dashes, `foo-bar-baz`.
///
/// `text` is the dash-joined text; two dash identifiers are equal when their
/// texts are.
#[derive(Debug)]
pub struct DashIdent {
    pub text: String,
    pub span: Span,
}

/// The `<!DOCTYPE html>` declaration.
#[derive(Clone, Copy, Debug, PartialEq, Eq, Structural)]
pub struct Doctype;

/// A value in a template: literal text known when the template is compiled,
/// or an expression evaluated when the output is written.
#[derive(Debug)]
pub enum Value {
    /// Text known at compile time.
    Literal { text: String, span: Span },
    /// An expression, given by the range of its tokens, with an optional format
    /// specifier and the flag that asks for its output to be escaped; `span`
    /// covers the whole braced value.
    Expression { expr: Span, spec: Option<String>, escape: bool, span: Span },
}

/// An attribute `name=value` of an opening tag.
#[derive(Debug)]
pub struct Attribute {
    pub name: DashIdent,
    pub value: Value,
    pub span: Span,
}

/// An opening tag `<name attrs..>` (self-closing when written `<name attrs.. />`)
/// or a closing tag `</name>`.
#[derive(Debug)]
pub enum Tag {
    Opening { name: DashIdent, attrs: Vec<Attribute>, self_closing: bool, span: Span },
    Closing { name: DashIdent, span: Span },
}

/// One element of a template: the doctype, a tag, or a standalone value.
#[derive(Debug)]
pub enum Node {
    Doctype(Doctype),
    Tag(Tag),
    Value(Value),
}

/// A parsed template: its nodes, and the values that are evaluated when the
/// output is written, in source order.
#[derive(Debug)]
pub struct Template {
    pub nodes: Vec<Node>,
    pub values: Vec<Value>,
}

impl Tag {
    /// The name of the tag.
    pub open spec fn spec_name(&self) -> &DashIdent {
        match self {
            Tag::Opening { name, .. } => name,
            Tag::Closing { name, .. } => name,
        }
    }

    /// The name of the tag.
    #[verifier::when_used_as_spec(spec_name)]
    pub fn name(&self) -> (r: &DashIdent)
        ensures
            r == self.spec_name(),
    {
        match self {
            Tag::Opening { name, .. } => name,
            Tag::Closing { name, .. } => name,
        }
    }

    /// The tokens the tag was written with.
    pub open spec fn spec_span(&self) -> Span {
        match self {
            Tag::Opening { span, .. } => *span,
            Tag::Closing { span, .. } => *span,
        }
    }

    /// The tokens the tag was written with.
    #[verifier::when_used_as_spec(spec_span)]
    pub fn span(&self) -> (r: Span)
        ensures
            r == self.spec_span(),
    {
        match self {
            Tag::Opening { span, .. } => *span,
            Tag::Closing { span, .. } => *span,
        }
    }

    /// Tells whether the tag is an opening tag written `<name .. />`.
    pub open spec fn spec_is_self_closing(&self) -> bool {
        match self {
            Tag::Opening { self_closing, .. } => *self_closing,
            _ => false,
        }
    }

    /// Tells whether the tag is an opening tag written `<name .. />`.
    #[verifier::when_used_as_spec(spec_is_self_closing)]
    pub fn is_self_closing(&self) -> (r: bool)
        ensures
            r == self.spec_is_self_closing(),
    {
        match self {
            Tag::Opening { self_closing, .. } => *self_closing,
            Tag::Closing { .. } => false,
        }
    }
}

/// A copy of `s`.
pub fn copy_opt_string(s: &Option<String>) -> (r: Option<String>)
    ensures
        r == *s,
{
    match s {
        Some(t) => Some(t.clone()),
        None => None,
    }
}

impl Value {
    /// A copy of this value.
    pub fn duplicate(&self) -> (r: Value)
        ensures
            r == *self,
    {
        match self {
            Value::Literal { text, span } => Value::Literal { text: text.clone(), span: *span },
            Value::Expression { expr, spec, escape, span } => Value::Expression {
                expr: *expr,
                spec: copy_opt_string(spec),
                escape: *escape,
                span: *span,
            },
        }
    }

    /// Tells whether the value is evaluated when the output is written.
    pub open spec fn is_dynamic(&self) -> bool {
        self is Expression
    }

    /// The tokens the value was written with.
    pub open spec fn spec_span(&self) -> Span {
        match self {
            Value::Literal { span, .. } => *span,
            Value::Expression { span, .. } => *span,
        }
    }
}

} // verus!
