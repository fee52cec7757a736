//! Python results shown inline.
use crate::executors::inline::{inline_result_too_complex, too_complex_message, INLINE_MAX_CHARS};
use crate::executors::{error_summary, ExecutionAttempt, ExecutionResult};
use crate::text::{chars_of, push_str, string_of, trim, trimmed};
use vstd::prelude::*;

verus! {

/// Whether a printed Python value is a list, tuple, set or dictionary:
/// it is enclosed in `[]`, `()` or `{}`.
pub open spec fn python_collection(s: Seq<char>) -> bool {
    s.len() > 0 && ((s[0] == '[' && s.last() == ']') || (s[0] == '(' && s.last() == ')') || (s[0]
        == '{' && s.last() == '}'))
}

/// Whether the text is enclosed in the characters `open` and `close`.
fn enclosed(v: &Vec<char>, open: char, close: char) -> (r: bool)
    ensures
        r == (v@.len() > 0 && v@[0] == open && v@.last() == close),
{
    v.len() > 0 && v[0] == open && v[v.len() - 1] == close
}

/// Whether a printed Python value is a collection.
pub fn is_python_collection(s: &str) -> (r: bool)
    ensures
        r == python_collection(s@),
{
    let v = chars_of(s);
    enclosed(&v, '[', ']') || enclosed(&v, '(', ')') || enclosed(&v, '{', '}')
}

/// A Python result as shown inline: trimmed; refused when longer than the
/// inline limit; a collection as inline code, anything else as text.
pub open spec fn python_inline(output: Seq<char>) -> Result<Seq<char>, Seq<char>> {
    let t = trim(output);
    if t.len() > INLINE_MAX_CHARS {
        Err(too_complex_message(t, "short collections"@))
    } else if python_collection(t) {
        Ok("`"@ + t + "`"@)
    } else {
        Ok(t)
    }
}

/// A Python result as shown inline (see `python_inline`).
pub fn format_inline_output(output: &str) -> (r: Result<String, String>)
    ensures
        match r {
            Ok(t) => python_inline(output@) == Ok::<Seq<char>, Seq<char>>(t@),
            Err(e) => python_inline(output@) == Err::<Seq<char>, Seq<char>>(e@),
        },
{
    let t = trimmed(&chars_of(output));
    let ts = string_of(&t);
    if t.len() > INLINE_MAX_CHARS {
        return Err(inline_result_too_complex(ts.as_str(), "short collections"));
    }
    if is_python_collection(ts.as_str()) {
        let mut m = chars_of("`");
        crate::text::extend(&mut m, &t);
        push_str(&mut m, "`");
        return Ok(string_of(&m));
    }
    Ok(ts)
}

/// The code run for an inline Python expression: the expression, printed.
pub open spec fn printed_code(code: Seq<char>) -> Seq<char> {
    "print("@ + code + ")"@
}

/// The code run for the inline Python expression `code`.
pub fn inline_code(code: &str) -> (r: String)
    ensures
        r@ == printed_code(code@),
{
    let mut m = chars_of("print(");
    push_str(&mut m, code);
    push_str(&mut m, ")");
    string_of(&m)
}

/// Refusal of an inline expression whose result is a figure or a table.
pub open spec fn complex_object_message() -> Seq<char> {
    "Inline expression returned a complex object (plot or dataframe).\nInline code must return text or a simple value.\nUse a code chunk instead: ```{python}\n...\n```"@
}

/// The inline result of a Python expression whose printed code ran as
/// `attempt`: its error, or its text as shown inline; a figure or a table
/// is refused.
pub open spec fn inline_outcome(attempt: ExecutionAttempt) -> Result<Seq<char>, Seq<char>> {
    match attempt {
        ExecutionAttempt::RuntimeError(e) => Err(error_summary(e)),
        ExecutionAttempt::Success(o) => match o.result {
            ExecutionResult::Text(t) => python_inline(t@),
            _ => Err(complex_object_message()),
        },
    }
}

/// The inline result of a Python expression whose printed code ran as
/// `attempt`.
pub fn inline_result(attempt: &ExecutionAttempt) -> (r: Result<String, String>)
    ensures
        match r {
            Ok(t) => inline_outcome(*attempt) == Ok::<Seq<char>, Seq<char>>(t@),
            Err(e) => inline_outcome(*attempt) == Err::<Seq<char>, Seq<char>>(e@),
        },
{
    match attempt {
        ExecutionAttempt::RuntimeError(e) => Err(e.summary()),
        ExecutionAttempt::Success(o) => match &o.result {
            ExecutionResult::Text(t) => format_inline_output(t.as_str()),
            _ => Err(
                "Inline expression returned a complex object (plot or dataframe).\nInline code must return text or a simple value.\nUse a code chunk instead: ```{python}\n...\n```".to_string(),
            ),
        },
    }
}

} // verus!
