//! Escaping of HTML special characters, and values that render as HTML.

use vstd::prelude::*;

use crate::number::{decimal, format_signed, format_unsigned, signed_decimal};
use crate::text::{push_char, push_str};

verus! {

/// The text that stands for `c` in escaped output: `&`, `<`, `>` and `"` are
/// replaced by their character references, every other character stays.
pub open spec fn escape_char(c: char) -> Seq<char> {
    if c == '&' {
        seq!['&', 'a', 'm', 'p', ';']
    } else if c == '<' {
        seq!['&', 'l', 't', ';']
    } else if c == '>' {
        seq!['&', 'g', 't', ';']
    } else if c == '"' {
        seq!['&', 'q', 'u', 'o', 't', ';']
    } else {
        seq![c]
    }
}

/// `s` with every character replaced by `escape_char` of it.
pub open spec fn escaped(s: Seq<char>) -> Seq<char>
    decreases s.len(),
{
    if s.len() == 0 {
        Seq::empty()
    } else {
        escaped(s.drop_last()) + escape_char(s.last())
    }
}

/// Appends the escaped form of `c` to `output`.
fn escape_char_into(c: char, output: &mut String)
    ensures
        final(output)@ == old(output)@ + escape_char(c),
{
    if c == '&' {
        proof { reveal_strlit("&amp;"); }
        push_str(output, "&amp;");
    } else if c == '<' {
        proof { reveal_strlit("&lt;"); }
        push_str(output, "&lt;");
    } else if c == '>' {
        proof { reveal_strlit("&gt;"); }
        push_str(output, "&gt;");
    } else if c == '"' {
        proof { reveal_strlit("&quot;"); }
        push_str(output, "&quot;");
    } else {
        push_char(output, c);
    }
}

/// Escapes the special HTML characters of `input` and appends the result to
/// `output`.
///
/// `&` becomes `&amp;`, `<` becomes `&lt;`, `>` becomes `&gt;` and `"` becomes
/// `&quot;`; all other characters, the single quote among them, are copied
/// unchanged.
pub fn escape_into(input: &str, output: &mut String)
    ensures
        final(output)@ == old(output)@ + escaped(input@),
{
    let ghost start = output@;
    for c in it: input.chars()
        invariant
            it.seq() == input@,
            output@ == start + escaped(it.seq().take(it.index() as int)),
    {
        proof {
            let prefix = it.seq().take(it.index() as int + 1);
            assert(prefix.drop_last() =~= it.seq().take(it.index() as int));
        }
        escape_char_into(c, output);
    }
    proof {
        assert(input@.take(input@.len() as int) =~= input@);
    }
}

/// Escapes the special HTML characters of `input` and returns the result.
pub fn escape(input: &str) -> (r: String)
    ensures
        r@ == escaped(input@),
{
    let mut buf = String::new();
    escape_into(input, &mut buf);
    buf
}

/// A value that can be written into HTML output.
pub trait Render {
    /// The text that `render_to` appends for this value.
    spec fn rendering(&self) -> Seq<char>;

    /// Appends the rendering of this value to `out`.
    fn render_to(&self, out: &mut String)
        ensures
            final(out)@ == old(out)@ + self.rendering(),
    ;
}

/// Text that is already escaped and is written as it stands.
pub struct PreEscaped<T>(pub T);

impl Render for PreEscaped<String> {
    open spec fn rendering(&self) -> Seq<char> {
        self.0@
    }

    fn render_to(&self, out: &mut String) {
        push_str(out, self.0.as_str());
    }
}

impl<'a> Render for PreEscaped<&'a str> {
    open spec fn rendering(&self) -> Seq<char> {
        self.0@
    }

    fn render_to(&self, out: &mut String) {
        push_str(out, self.0);
    }
}

impl Render for String {
    open spec fn rendering(&self) -> Seq<char> {
        escaped(self@)
    }

    fn render_to(&self, out: &mut String) {
        escape_into(self.as_str(), out);
    }
}

impl Render for str {
    open spec fn rendering(&self) -> Seq<char> {
        escaped(self@)
    }

    fn render_to(&self, out: &mut String) {
        escape_into(self, out);
    }
}

impl Render for char {
    open spec fn rendering(&self) -> Seq<char> {
        escape_char(*self)
    }

    fn render_to(&self, out: &mut String) {
        escape_char_into(*self, out);
    }
}

impl Render for bool {
    open spec fn rendering(&self) -> Seq<char> {
        if *self {
            seq!['t', 'r', 'u', 'e']
        } else {
            seq!['f', 'a', 'l', 's', 'e']
        }
    }

    fn render_to(&self, out: &mut String) {
        if *self {
            proof { reveal_strlit("true"); }
            push_str(out, "true");
        } else {
            proof { reveal_strlit("false"); }
            push_str(out, "false");
        }
    }
}

impl Render for () {
    open spec fn rendering(&self) -> Seq<char> {
        Seq::empty()
    }

    fn render_to(&self, out: &mut String) {
        assert(out@ + Seq::<char>::empty() =~= out@);
    }
}

impl Render for u8 {
    open spec fn rendering(&self) -> Seq<char> {
        decimal(*self as nat)
    }

    fn render_to(&self, out: &mut String) {
        let digits = format_unsigned(*self as u128);
        push_str(out, digits.as_str());
    }
}

impl Render for u16 {
    open spec fn rendering(&self) -> Seq<char> {
        decimal(*self as nat)
    }

    fn render_to(&self, out: &mut String) {
        let digits = format_unsigned(*self as u128);
        push_str(out, digits.as_str());
    }
}

impl Render for u32 {
    open spec fn rendering(&self) -> Seq<char> {
        decimal(*self as nat)
    }

    fn render_to(&self, out: &mut String) {
        let digits = format_unsigned(*self as u128);
        push_str(out, digits.as_str());
    }
}

impl Render for u64 {
    open spec fn rendering(&self) -> Seq<char> {
        decimal(*self as nat)
    }

    fn render_to(&self, out: &mut String) {
        let digits = format_unsigned(*self as u128);
        push_str(out, digits.as_str());
    }
}

impl Render for u128 {
    open spec fn rendering(&self) -> Seq<char> {
        decimal(*self as nat)
    }

    fn render_to(&self, out: &mut String) {
        let digits = format_unsigned(*self as u128);
        push_str(out, digits.as_str());
    }
}

impl Render for usize {
    open spec fn rendering(&self) -> Seq<char> {
        decimal(*self as nat)
    }

    fn render_to(&self, out: &mut String) {
        let digits = format_unsigned(*self as u128);
        push_str(out, digits.as_str());
    }
}

impl Render for i8 {
    open spec fn rendering(&self) -> Seq<char> {
        signed_decimal(*self as int)
    }

    fn render_to(&self, out: &mut String) {
        let digits = format_signed(*self as i128);
        push_str(out, digits.as_str());
    }
}

impl Render for i16 {
    open spec fn rendering(&self) -> Seq<char> {
        signed_decimal(*self as int)
    }

    fn render_to(&self, out: &mut String) {
        let digits = format_signed(*self as i128);
        push_str(out, digits.as_str());
    }
}

impl Render for i32 {
    open spec fn rendering(&self) -> Seq<char> {
        signed_decimal(*self as int)
    }

    fn render_to(&self, out: &mut String) {
        let digits = format_signed(*self as i128);
        push_str(out, digits.as_str());
    }
}

impl Render for i64 {
    open spec fn rendering(&self) -> Seq<char> {
        signed_decimal(*self as int)
    }

    fn render_to(&self, out: &mut String) {
        let digits = format_signed(*self as i128);
        push_str(out, digits.as_str());
    }
}

impl Render for i128 {
    open spec fn rendering(&self) -> Seq<char> {
        signed_decimal(*self as int)
    }

    fn render_to(&self, out: &mut String) {
        let digits = format_signed(*self as i128);
        push_str(out, digits.as_str());
    }
}

impl Render for isize {
    open spec fn rendering(&self) -> Seq<char> {
        signed_decimal(*self as int)
    }

    fn render_to(&self, out: &mut String) {
        let digits = format_signed(*self as i128);
        push_str(out, digits.as_str());
    }
}

} // verus!
