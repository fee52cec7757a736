//! Typst literals for arbitrary text: a string literal, and markup that
//! shows a text verbatim whatever characters it holds.
use crate::text::{chars_of, extend, push_str, string_of};
use vstd::prelude::*;

verus! {

/// How a character is written inside a Typst string literal: backslash,
/// double quote, line feed, carriage return and tab are escaped.
pub open spec fn escape_char(c: char) -> Seq<char> {
    if c == '\\' {
        "\\\\"@
    } else if c == '"' {
        "\\\""@
    } else if c == '\n' {
        "\\n"@
    } else if c == '\r' {
        "\\r"@
    } else if c == '\t' {
        "\\t"@
    } else {
        seq![c]
    }
}

/// The characters of `s`, each written as inside a string literal.
pub open spec fn escaped(s: Seq<char>) -> Seq<char>
    decreases s.len(),
{
    if s.len() == 0 {
        Seq::empty()
    } else {
        escaped(s.drop_last()) + escape_char(s.last())
    }
}

/// A Typst string literal whose value is `s`.
pub open spec fn string_literal(s: Seq<char>) -> Seq<char> {
    "\""@ + escaped(s) + "\""@
}

/// Markup showing `s` as inline raw text.
pub open spec fn inline_raw(s: Seq<char>) -> Seq<char> {
    "#raw("@ + string_literal(s) + ")"@
}

/// Markup showing `s` as plain text, with no markup in it interpreted.
pub open spec fn inline_text(s: Seq<char>) -> Seq<char> {
    "#"@ + string_literal(s)
}

/// `s` as a Typst string literal.
pub fn string_literal_of(s: &str) -> (r: Vec<char>)
    ensures
        r@ == string_literal(s@),
{
    let v = chars_of(s);
    let mut r = chars_of("\"");
    let ghost start = r@;
    let mut i: usize = 0;
    while i < v.len()
        invariant
            i <= v.len(),
            v@ == s@,
            r@ == start + escaped(v@.take(i as int)),
        decreases v.len() - i,
    {
        let c = v[i];
        if c == '\\' {
            push_str(&mut r, "\\\\");
        } else if c == '"' {
            push_str(&mut r, "\\\"");
        } else if c == '\n' {
            push_str(&mut r, "\\n");
        } else if c == '\r' {
            push_str(&mut r, "\\r");
        } else if c == '\t' {
            push_str(&mut r, "\\t");
        } else {
            r.push(c);
        }
        proof {
            let t = v@.take(i + 1);
            assert(t.drop_last() =~= v@.take(i as int));
            assert(t.last() == c);
        }
        i = i + 1;
    }
    assert(v@.take(v.len() as int) =~= v@);
    push_str(&mut r, "\"");
    r
}

/// Markup showing `s` as inline raw text.
pub fn inline_raw_of(s: &str) -> (r: Vec<char>)
    ensures
        r@ == inline_raw(s@),
{
    let mut r = chars_of("#raw(");
    extend(&mut r, &string_literal_of(s));
    push_str(&mut r, ")");
    r
}

/// Markup showing `s` as plain text.
pub fn inline_text_of(s: &str) -> (r: Vec<char>)
    ensures
        r@ == inline_text(s@),
{
    let mut r = chars_of("#");
    extend(&mut r, &string_literal_of(s));
    r
}

/// `s` as a Typst string literal.
pub fn string_literal_text(s: &str) -> (r: String)
    ensures
        r@ == string_literal(s@),
{
    string_of(&string_literal_of(s))
}

} // verus!
