//! Where in its code a chunk failed, read from the interpreter's error
//! message, and the code shown around that line.
use crate::text::{
    chars_of, decimal, extend, join, join_chars, lines, push_decimal, push_str, split_lines,
    string_of, trim_end, trimmed_end,
};
use vstd::prelude::*;

verus! {

/// Python traceback frame of the document's own code.
pub const MODULE_LINE_PATTERN: &'static str = "line (\\d+), in <module>";

/// Any Python traceback frame.
pub const ANY_LINE_PATTERN: &'static str = "line (\\d+),";

/// R error location.
pub const R_LINE_PATTERN: &'static str = "at line (\\d+)";

/// Name for the text of the first group of the first match of a regular
/// expression (`regex` syntax) in a text, if it matches.
pub uninterp spec fn regex_first_group(pattern: Seq<char>, text: Seq<char>) -> Option<Seq<char>>;

/// Name for the text of the first group of the last match of a regular
/// expression (`regex` syntax) in a text, if it matches at all.
pub uninterp spec fn regex_last_group(pattern: Seq<char>, text: Seq<char>) -> Option<Seq<char>>;

/// The first group of the first match of `pattern` in `text`, with the
/// `regex` crate (`Regex::new`, `Regex::captures`). The result is what the
/// crate gives for these arguments, named `regex_first_group`.
#[verifier::external_body]
fn first_group(pattern: &str, text: &str) -> (r: Option<String>)
    ensures
        r matches Some(g) ==> regex_first_group(pattern@, text@) == Some(g@),
        r is None ==> regex_first_group(pattern@, text@) is None,
{
    let re = regex::Regex::new(pattern).ok()?;
    let caps = re.captures(text)?;
    Some(caps.get(1)?.as_str().to_string())
}

/// The first group of the last match of `pattern` in `text`, with the
/// `regex` crate (`Regex::new`, `Regex::captures_iter`). The result is what
/// the crate gives for these arguments, named `regex_last_group`.
#[verifier::external_body]
fn last_group(pattern: &str, text: &str) -> (r: Option<String>)
    ensures
        r matches Some(g) ==> regex_last_group(pattern@, text@) == Some(g@),
        r is None ==> regex_last_group(pattern@, text@) is None,
{
    let re = regex::Regex::new(pattern).ok()?;
    let caps = re.captures_iter(text).last()?;
    Some(caps.get(1)?.as_str().to_string())
}

/// The number written by ASCII digits `s`, when it fits in a `usize`, as
/// `str::parse::<usize>` reads a run of digits.
pub open spec fn parsed_usize(s: Seq<char>) -> Option<usize> {
    if crate::text::all_digits(s) && crate::text::digits_value(s) <= usize::MAX {
        Some(crate::text::digits_value(s) as usize)
    } else {
        None
    }
}

/// The number written by the digits `s`.
pub fn parse_usize(s: &str) -> (r: Option<usize>)
    ensures
        r == parsed_usize(s@),
{
    let v = chars_of(s);
    if v.len() == 0 {
        return None;
    }
    let mut n: usize = 0;
    let mut i: usize = 0;
    while i < v.len()
        invariant
            i <= v.len(),
            v@ == s@,
            forall|j: int| 0 <= j < i ==> crate::text::is_digit(#[trigger] v@[j]),
            n == crate::text::digits_value(v@.take(i as int)),
        decreases v.len() - i,
    {
        let c = v[i];
        if !('0' <= c && c <= '9') {
            proof {
                assert(!crate::text::is_digit(s@[i as int]));
            }
            return None;
        }
        let d = (c as u32 - '0' as u32) as usize;
        proof {
            let t = v@.take(i + 1);
            assert(t.drop_last() =~= v@.take(i as int));
            assert(t.last() == c);
        }
        if n > (usize::MAX - d) / 10 {
            proof {
                lemma_digits_grow(v@, i as int + 1);
                assert(crate::text::digits_value(v@.take(i + 1)) > usize::MAX) by (nonlinear_arith)
                    requires
                        crate::text::digits_value(v@.take(i + 1)) == n * 10 + d,
                        n > (usize::MAX - d) / 10,
                        d <= 9,
                ;
            }
            return None;
        }
        n = n * 10 + d;
        i = i + 1;
    }
    assert(v@.take(v.len() as int) =~= v@);
    Some(n)
}

/// A prefix of the digits never writes a larger number than the whole run.
proof fn lemma_digits_grow(s: Seq<char>, k: int)
    requires
        0 <= k <= s.len(),
    ensures
        crate::text::digits_value(s.take(k)) <= crate::text::digits_value(s) || !crate::text::all_digits(s),
    decreases s.len() - k,
{
    if crate::text::all_digits(s) && k < s.len() {
        let t = s.drop_last();
        assert(s.take(k) == t.take(k));
        if t.len() > 0 {
            assert(crate::text::all_digits(t));
            lemma_digits_grow(t, k);
        } else {
            assert(s.take(k).len() == 0);
        }
        assert(crate::text::digits_value(t) <= crate::text::digits_value(s)) by (nonlinear_arith)
            requires
                crate::text::digits_value(s) == crate::text::digits_value(t) * 10 + ((s.last() as u32) - ('0' as u32)),
                s.last() as u32 >= '0' as u32,
        ;
    } else if k == s.len() {
        assert(s.take(k) == s);
    }
}

/// The line of the document named by error-message groups: the frame of
/// the document's own code if a Python traceback has one, else the last
/// Python frame, else an R location. A group that is not a number names no
/// line.
pub open spec fn line_from_groups(
    module: Option<Seq<char>>,
    any_frame: Option<Seq<char>>,
    r_location: Option<Seq<char>>,
) -> Option<usize> {
    match module {
        Some(g) => parsed_usize(g),
        None => match any_frame {
            Some(g) => parsed_usize(g),
            None => match r_location {
                Some(g) => parsed_usize(g),
                None => None,
            },
        },
    }
}

/// The line of the document named by an error message.
pub open spec fn error_line(message: Seq<char>) -> Option<usize> {
    line_from_groups(
        regex_first_group(MODULE_LINE_PATTERN@, message),
        regex_last_group(ANY_LINE_PATTERN@, message),
        regex_first_group(R_LINE_PATTERN@, message),
    )
}

/// The line named by error-message groups (see `line_from_groups`).
pub fn line_of_groups(
    module: Option<String>,
    any_frame: Option<String>,
    r_location: Option<String>,
) -> (r: Option<usize>)
    ensures
        r == line_from_groups(
            match module {
                Some(g) => Some(g@),
                None => None,
            },
            match any_frame {
                Some(g) => Some(g@),
                None => None,
            },
            match r_location {
                Some(g) => Some(g@),
                None => None,
            },
        ),
{
    match module {
        Some(g) => parse_usize(g.as_str()),
        None => match any_frame {
            Some(g) => parse_usize(g.as_str()),
            None => match r_location {
                Some(g) => parse_usize(g.as_str()),
                None => None,
            },
        },
    }
}

/// The line of the document named by an error message: `line N, in
/// <module>` in a Python traceback, else the last `line N,`, else R's `at
/// line N`.
pub fn extract_error_line(error_msg: &str) -> (r: Option<usize>)
    ensures
        r == error_line(error_msg@),
{
    let module = first_group(MODULE_LINE_PATTERN, error_msg);
    let any_frame = last_group(ANY_LINE_PATTERN, error_msg);
    let r_location = first_group(R_LINE_PATTERN, error_msg);
    line_of_groups(module, any_frame, r_location)
}

/// The line named by the last frame of a traceback that names one.
pub open spec fn traceback_line(tb: Seq<String>) -> Option<usize>
    decreases tb.len(),
{
    if tb.len() == 0 {
        None
    } else {
        match error_line(tb.last()@) {
            Some(n) => Some(n),
            None => traceback_line(tb.drop_last()),
        }
    }
}

/// The line named by the innermost frame of a traceback that names one.
pub fn extract_line_from_traceback(traceback: &Vec<String>) -> (r: Option<usize>)
    ensures
        r == traceback_line(traceback@),
{
    let mut i = traceback.len();
    assert(traceback@.take(i as int) =~= traceback@);
    while i > 0
        invariant
            i <= traceback@.len(),
            traceback_line(traceback@) == traceback_line(traceback@.take(i as int)),
        decreases i,
    {
        assert(traceback@.take(i as int).drop_last() =~= traceback@.take(i - 1));
        if let Some(n) = extract_error_line(traceback[i - 1].as_str()) {
            return Some(n);
        }
        i = i - 1;
    }
    None
}

// ---------------------------------------------------------------------------
// Code around an error
// ---------------------------------------------------------------------------

/// Smaller of two numbers.
pub open spec fn min_int(a: int, b: int) -> int {
    if a <= b {
        a
    } else {
        b
    }
}

/// Line `k` (0-based) of the code, numbered, marked when it is the error
/// line.
pub open spec fn numbered_line(ls: Seq<Seq<char>>, k: int, error_line: int) -> Seq<char> {
    (if k + 1 == error_line {
        ">>> "@
    } else {
        "    "@
    }) + decimal((k + 1) as nat) + ": "@ + ls[k] + "\n"@
}

/// Numbered lines `start..end`.
pub open spec fn numbered_lines(ls: Seq<Seq<char>>, start: int, end: int, error_line: int) -> Seq<
    char,
>
    decreases end - start,
{
    if end <= start {
        Seq::empty()
    } else {
        numbered_lines(ls, start, end - 1, error_line) + numbered_line(ls, end - 1, error_line)
    }
}

/// The code of a chunk as shown with an error on `line` (1-based): short
/// code whole; else, when the line is in the code, the lines within
/// `context` of it, numbered, the error line marked, with the count of
/// lines left out above and below; else the first fifteen lines.
pub open spec fn code_in_context(code: Seq<char>, line: Option<usize>, context: nat) -> Seq<char> {
    let ls = lines(code);
    let n = ls.len() as int;
    if n <= 10 {
        code
    } else if line is Some && (if line->0 == 0 {
        0
    } else {
        line->0 - 1
    }) < n {
        let el = line->0 as int;
        let idx = if el == 0 {
            0
        } else {
            el - 1
        };
        let start = if idx >= context {
            idx - context
        } else {
            0
        };
        let end = min_int(idx + context + 1, n);
        trim_end(
            (if start > 0 {
                "... ("@ + decimal(start as nat) + " lines above)\n"@
            } else {
                Seq::empty()
            }) + numbered_lines(ls, start, end, el) + (if end < n {
                "... ("@ + decimal((n - end) as nat) + " lines below)"@
            } else {
                Seq::empty()
            }),
        )
    } else {
        let shown = min_int(15, n);
        join(ls.take(shown), "\n"@) + (if n > shown {
            "\n... ("@ + decimal((n - shown) as nat) + " lines not shown)"@
        } else {
            Seq::empty()
        })
    }
}

/// Appends line `k` (0-based) of the code, numbered and marked when it is
/// the error line.
fn push_numbered_line(out: &mut Vec<char>, line: &Vec<char>, k: usize, el: usize, ghost_ls: Ghost<Seq<Seq<char>>>)
    requires
        k < ghost_ls@.len(),
        k + 1 <= usize::MAX,
        line@ == ghost_ls@[k as int],
    ensures
        final(out)@ == old(out)@ + numbered_line(ghost_ls@, k as int, el as int),
{
    if k + 1 == el {
        push_str(out, ">>> ");
    } else {
        push_str(out, "    ");
    }
    push_decimal(out, (k + 1) as u64);
    push_str(out, ": ");
    extend(out, line);
    push_str(out, "\n");
}

/// The lines within `context` of the error line `el` (1-based, naming a line
/// of the code), numbered, with the counts of lines left out.
fn context_text(ls: &Vec<Vec<char>>, code: Ghost<Seq<char>>, el: usize, context: usize) -> (r: Vec<
    char,
>)
    requires
        ls@.len() == lines(code@).len(),
        forall|j: int| 0 <= j < ls@.len() ==> #[trigger] ls@[j]@ == lines(code@)[j],
        (if el == 0 {
            0
        } else {
            el - 1
        }) < ls@.len(),
    ensures
        ({
            let ls = lines(code@);
            let n = ls.len() as int;
            let idx = if el == 0 {
                0
            } else {
                el - 1
            };
            let start = if idx >= context {
                idx - context
            } else {
                0
            };
            let end = min_int(idx + context + 1, n);
            r@ == trim_end(
                (if start > 0 {
                    "... ("@ + decimal(start as nat) + " lines above)\n"@
                } else {
                    Seq::empty()
                }) + numbered_lines(ls, start, end, el as int) + (if end < n {
                    "... ("@ + decimal((n - end) as nat) + " lines below)"@
                } else {
                    Seq::empty()
                }),
            )
        }),
{
    let n = ls.len();
    let idx = if el == 0 {
        0
    } else {
        el - 1
    };
    let start = if idx >= context {
        idx - context
    } else {
        0
    };
    let end = if context >= n - idx {
        n
    } else {
        idx + context + 1
    };
    let mut out: Vec<char> = Vec::new();
    if start > 0 {
        push_str(&mut out, "... (");
        push_decimal(&mut out, start as u64);
        push_str(&mut out, " lines above)\n");
    } else {
        assert(out@ =~= Seq::<char>::empty());
    }
    let ghost head = out@;
    let mut k = start;
    while k < end
        invariant
            start <= k <= end <= n,
            n == ls@.len() == lines(code@).len(),
            forall|j: int| 0 <= j < n ==> #[trigger] ls@[j]@ == lines(code@)[j],
            out@ == head + numbered_lines(lines(code@), start as int, k as int, el as int),
        decreases end - k,
    {
        push_numbered_line(&mut out, &ls[k], k, el, Ghost(lines(code@)));
        assert(head + numbered_lines(lines(code@), start as int, (k + 1) as int, el as int) =~= head
            + numbered_lines(lines(code@), start as int, k as int, el as int) + numbered_line(
            lines(code@),
            k as int,
            el as int,
        ));
        k = k + 1;
    }
    let ghost mid = out@;
    assert(head == (if start > 0 {
        "... ("@ + decimal(start as nat) + " lines above)\n"@
    } else {
        Seq::<char>::empty()
    }));
    assert(end as int == min_int(idx + context + 1, n as int));
    if end < n {
        push_str(&mut out, "... (");
        push_decimal(&mut out, (n - end) as u64);
        push_str(&mut out, " lines below)");
    }
    assert(out@ =~= head + numbered_lines(lines(code@), start as int, end as int, el as int) + (
    if end < n {
        "... ("@ + decimal((n - end) as nat) + " lines below)"@
    } else {
        Seq::<char>::empty()
    }));
    trimmed_end(&out)
}

/// The code of a chunk as shown with the error `error_msg` (see
/// `code_in_context`).
pub fn format_code_with_context(code: &str, error_msg: &str, context_lines: usize) -> (r: String)
    ensures
        r@ == code_in_context(code@, error_line(error_msg@), context_lines as nat),
{
    let cv = chars_of(code);
    let ls = split_lines(&cv);
    let n = ls.len();
    if n <= 10 {
        return code.to_string();
    }
    let line = extract_error_line(error_msg);
    if let Some(el) = line {
        let idx = if el == 0 {
            0
        } else {
            el - 1
        };
        if idx < n {
            let t = context_text(&ls, Ghost(code@), el, context_lines);
            return string_of(&t);
        }
    }
    let shown = if n < 15 {
        n
    } else {
        15
    };
    let mut first: Vec<Vec<char>> = Vec::new();
    let mut k: usize = 0;
    while k < shown
        invariant
            k <= shown <= n,
            n == ls@.len() == lines(code@).len(),
            forall|j: int| 0 <= j < n ==> #[trigger] ls@[j]@ == lines(code@)[j],
            first@.map_values(|p: Vec<char>| p@) == lines(code@).take(k as int),
        decreases shown - k,
    {
        let ghost f0 = first@.map_values(|p: Vec<char>| p@);
        let piece = crate::text::slice(&ls[k], 0, ls[k].len());
        assert(piece@ =~= lines(code@)[k as int]);
        first.push(piece);
        assert(first@.map_values(|p: Vec<char>| p@) =~= f0.push(lines(code@)[k as int]));
        assert(lines(code@).take(k + 1) =~= lines(code@).take(k as int).push(lines(code@)[k as int]));
        k = k + 1;
    }
    let mut out = join_chars(&first, "\n");
    if n > shown {
        push_str(&mut out, "\n... (");
        push_decimal(&mut out, (n - shown) as u64);
        push_str(&mut out, " lines not shown)");
    }
    string_of(&out)
}

} // verus!
