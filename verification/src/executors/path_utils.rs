//! Paths written into generated R and Python code.
use crate::text::{chars_of, push_str, string_of};
use vstd::prelude::*;

verus! {

/// How a character of a path is written in a code string: backslashes
/// doubled, quotes escaped.
pub open spec fn escape_path_char(c: char) -> Seq<char> {
    if c == '\\' {
        "\\\\"@
    } else if c == '\'' {
        "\\'"@
    } else if c == '"' {
        "\\\""@
    } else {
        seq![c]
    }
}

/// A path as written in a code string.
pub open spec fn escaped_path(s: Seq<char>) -> Seq<char>
    decreases s.len(),
{
    if s.len() == 0 {
        Seq::empty()
    } else {
        escaped_path(s.drop_last()) + escape_path_char(s.last())
    }
}

/// A path made safe for a string of generated R or Python code: Windows
/// backslashes doubled, single and double quotes escaped.
pub fn escape_path_for_code(path: &str) -> (r: String)
    ensures
        r@ == escaped_path(path@),
{
    let v = chars_of(path);
    let mut out: Vec<char> = Vec::new();
    let mut i: usize = 0;
    while i < v.len()
        invariant
            i <= v.len(),
            v@ == path@,
            out@ == escaped_path(v@.take(i as int)),
        decreases v.len() - i,
    {
        let c = v[i];
        if c == '\\' {
            push_str(&mut out, "\\\\");
        } else if c == '\'' {
            push_str(&mut out, "\\'");
        } else if c == '"' {
            push_str(&mut out, "\\\"");
        } else {
            out.push(c);
        }
        proof {
            let t = v@.take(i + 1);
            assert(t.drop_last() =~= v@.take(i as int));
            assert(t.last() == c);
        }
        i = i + 1;
    }
    assert(v@.take(v.len() as int) =~= v@);
    string_of(&out)
}

} // verus!
