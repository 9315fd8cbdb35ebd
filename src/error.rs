//! Errors reported while compiling a template.

use vstd::prelude::*;

use crate::text::push_str;
use crate::token::Span;

verus! {

/// What went wrong while compiling a template.
#[derive(Debug)]
pub enum ErrorKind {
    /// A token that the grammar does not allow at its position.
    UnexpectedToken,
    /// A group of tokens that is not closed, or closed by another delimiter.
    UnbalancedGroup,
    /// A format specifier holding something other than punctuation,
    /// identifiers and literals.
    InvalidSpecifier,
    /// A closing tag whose name is not that of the innermost open tag.
    ClosingMismatch { expected: String, found: String },
    /// A closing tag with no open tag left to close.
    UnmatchedClosing { name: String },
    /// An opening tag that is never closed.
    UnmatchedOpening { name: String },
    /// Two attributes of one tag with the same name.
    DuplicateAttribute { name: String },
    /// An expression in a template that must be known at compile time.
    DynamicValue,
}

/// An error, with the range of tokens it is about.
#[derive(Debug)]
pub struct Error {
    pub kind: ErrorKind,
    pub span: Span,
}

/// The mathematical form of an `ErrorKind`.
pub enum ErrorKindView {
    UnexpectedToken,
    UnbalancedGroup,
    InvalidSpecifier,
    ClosingMismatch { expected: Seq<char>, found: Seq<char> },
    UnmatchedClosing { name: Seq<char> },
    UnmatchedOpening { name: Seq<char> },
    DuplicateAttribute { name: Seq<char> },
    DynamicValue,
}

/// The mathematical form of an `Error`.
pub struct ErrorView {
    pub kind: ErrorKindView,
    pub span: Span,
}

impl View for ErrorKind {
    type V = ErrorKindView;

    open spec fn view(&self) -> ErrorKindView {
        match self {
            ErrorKind::UnexpectedToken => ErrorKindView::UnexpectedToken,
            ErrorKind::UnbalancedGroup => ErrorKindView::UnbalancedGroup,
            ErrorKind::InvalidSpecifier => ErrorKindView::InvalidSpecifier,
            ErrorKind::ClosingMismatch { expected, found } => ErrorKindView::ClosingMismatch {
                expected: expected@,
                found: found@,
            },
            ErrorKind::UnmatchedClosing { name } => ErrorKindView::UnmatchedClosing { name: name@ },
            ErrorKind::UnmatchedOpening { name } => ErrorKindView::UnmatchedOpening { name: name@ },
            ErrorKind::DuplicateAttribute { name } => ErrorKindView::DuplicateAttribute {
                name: name@,
            },
            ErrorKind::DynamicValue => ErrorKindView::DynamicValue,
        }
    }
}

impl View for Error {
    type V = ErrorView;

    open spec fn view(&self) -> ErrorView {
        ErrorView { kind: self.kind@, span: self.span }
    }
}

/// The view of a result that carries no value.
pub open spec fn unit_result_view(r: Result<(), Error>) -> Result<(), ErrorView> {
    match r {
        Ok(()) => Ok(()),
        Err(e) => Err(e@),
    }
}

/// The diagnostic text of an error of kind `k`.
pub open spec fn message_text(k: ErrorKindView) -> Seq<char> {
    match k {
        ErrorKindView::UnexpectedToken => "unexpected token"@,
        ErrorKindView::UnbalancedGroup => "unbalanced delimiter"@,
        ErrorKindView::InvalidSpecifier => "invalid specifier"@,
        ErrorKindView::ClosingMismatch { expected, found } => "closing tag mismatch, expected `</"@
            + expected + ">`, found `</"@ + found + ">`"@,
        ErrorKindView::UnmatchedClosing { name } => "closing tag has no corresponding opening tag `<"@
            + name + ">`"@,
        ErrorKindView::UnmatchedOpening { name } => "opening tag has no corresponding closing tag `</"@
            + name + ">`"@,
        ErrorKindView::DuplicateAttribute { name } => "duplicate attribute `"@ + name + "`"@,
        ErrorKindView::DynamicValue => "expression is not known at compile time"@,
    }
}

impl Error {
    /// The diagnostic text of this error.
    pub fn message(&self) -> (r: String)
        ensures
            r@ == message_text(self.kind@),
    {
        let mut s = String::new();
        match &self.kind {
            ErrorKind::UnexpectedToken => push_str(&mut s, "unexpected token"),
            ErrorKind::UnbalancedGroup => push_str(&mut s, "unbalanced delimiter"),
            ErrorKind::InvalidSpecifier => push_str(&mut s, "invalid specifier"),
            ErrorKind::ClosingMismatch { expected, found } => {
                push_str(&mut s, "closing tag mismatch, expected `</");
                push_str(&mut s, expected.as_str());
                push_str(&mut s, ">`, found `</");
                push_str(&mut s, found.as_str());
                push_str(&mut s, ">`");
            },
            ErrorKind::UnmatchedClosing { name } => {
                push_str(&mut s, "closing tag has no corresponding opening tag `<");
                push_str(&mut s, name.as_str());
                push_str(&mut s, ">`");
            },
            ErrorKind::UnmatchedOpening { name } => {
                push_str(&mut s, "opening tag has no corresponding closing tag `</");
                push_str(&mut s, name.as_str());
                push_str(&mut s, ">`");
            },
            ErrorKind::DuplicateAttribute { name } => {
                push_str(&mut s, "duplicate attribute `");
                push_str(&mut s, name.as_str());
                push_str(&mut s, "`");
            },
            ErrorKind::DynamicValue => push_str(&mut s, "expression is not known at compile time"),
        }
        assert(s@ =~= message_text(self.kind@));
        s
    }
}

} // verus!
