//! What the R and Python inline formatters share: the limit on inline
//! results and the error for a result that is too complex.
use crate::text::{chars_of, push_str, string_of};
use vstd::prelude::*;

verus! {

/// Largest number of characters of an inline result, and of the preview of
/// a rejected one.
pub const INLINE_MAX_CHARS: usize = 100;

/// Error for an inline result too long or complex to show: a preview of
/// the result (its first hundred characters), and what inline expressions
/// should return (`expected` completes "simple scalar values or ...").
pub open spec fn too_complex_message(result: Seq<char>, expected: Seq<char>) -> Seq<char> {
    "Inline expression result is too complex or long.\nResult: "@ + (if result.len()
        > INLINE_MAX_CHARS {
        result.take(INLINE_MAX_CHARS as int)
    } else {
        result
    }) + "\nInline expressions should return simple scalar values or "@ + expected + "."@
}

/// The error for an inline result too long or complex to show; the preview
/// is cut between characters.
pub fn inline_result_too_complex(result: &str, expected: &str) -> (r: String)
    ensures
        r@ == too_complex_message(result@, expected@),
{
    let v = chars_of(result);
    let mut m = chars_of("Inline expression result is too complex or long.\nResult: ");
    if v.len() > INLINE_MAX_CHARS {
        crate::text::extend(&mut m, &crate::text::slice(&v, 0, INLINE_MAX_CHARS));
    } else {
        crate::text::extend(&mut m, &v);
    }
    push_str(&mut m, "\nInline expressions should return simple scalar values or ");
    push_str(&mut m, expected);
    push_str(&mut m, ".");
    string_of(&m)
}

} // verus!
