//! R results: how they are shown inline, and how the serialized tables and
//! figures that the R helpers print are read back and stored in the cache.
use crate::cache::{path_extension, CacheStore};
use crate::executors::{result_view, ExecutionResult, ResultV};
use crate::hashing::{digest_hex, hash_file_contents};
use crate::sync::{join_path, path_join};
use crate::text::{
    char_at_byte, char_index, chars_of, contains, enc_len, extend, find_from, is_boundary, is_ws,
    mentions, occurs_at, push_str, slice, string_of, to_lowercase, trim, trimmed, unicode_lowercase,
};
use crate::typst_syntax::{string_literal, string_literal_of};
use crate::executors::inline::{inline_result_too_complex, too_complex_message};
use vstd::prelude::*;
use vstd::utf8::encode_utf8;

verus! {

// ---------------------------------------------------------------------------
// Inline results
// ---------------------------------------------------------------------------

/// Whether `s` begins with R's `[1]` prefix.
pub open spec fn r_prefixed(s: Seq<char>) -> bool {
    s.len() >= 3 && s[0] == '[' && s[1] == '1' && s[2] == ']'
}

/// Whether `s` has a line break.
pub open spec fn has_line_break(s: Seq<char>) -> bool {
    exists|i: int| 0 <= i < s.len() && s[i] == '\n'
}

/// Whether `s` holds white space.
pub open spec fn has_ws(s: Seq<char>) -> bool {
    exists|i: int| 0 <= i < s.len() && is_ws(s[i])
}

/// The value of a printed R scalar (`[1] 150`, `[1] "Alice"`): one line,
/// the `[1]` prefix, then a single token; a quoted string loses its quotes.
pub open spec fn r_scalar(s: Seq<char>) -> Option<Seq<char>> {
    if has_line_break(s) || !r_prefixed(s) {
        None
    } else {
        let v = trim(s.skip(3));
        if v.len() == 0 || has_ws(v) {
            None
        } else if v.len() > 1 && v[0] == '"' && v.last() == '"' {
            Some(v.subrange(1, v.len() - 1))
        } else {
            Some(v)
        }
    }
}

/// Whether `s` is a short printed R vector: one line, the `[1]` prefix,
/// fewer than 80 bytes, more than one value.
pub open spec fn r_short_vector(s: Seq<char>) -> bool {
    !has_line_break(s) && r_prefixed(s) && enc_len(s) < 80 && has_ws(trim(s.skip(3)))
}

/// Position of a line break in `v`, if any.
fn find_line_break(v: &Vec<char>) -> (r: bool)
    ensures
        r == has_line_break(v@),
{
    let mut i: usize = 0;
    while i < v.len()
        invariant
            i <= v.len(),
            forall|j: int| 0 <= j < i ==> v@[j] != '\n',
        decreases v.len() - i,
    {
        if v[i] == '\n' {
            return true;
        }
        i = i + 1;
    }
    false
}

/// Whether `v` holds white space.
fn find_ws(v: &Vec<char>) -> (r: bool)
    ensures
        r == has_ws(v@),
{
    let mut i: usize = 0;
    while i < v.len()
        invariant
            i <= v.len(),
            forall|j: int| 0 <= j < i ==> !is_ws(v@[j]),
        decreases v.len() - i,
    {
        if crate::text::is_whitespace(v[i]) {
            return true;
        }
        i = i + 1;
    }
    false
}

/// Whether `v` begins with `[1]`.
fn prefixed(v: &Vec<char>) -> (r: bool)
    ensures
        r == r_prefixed(v@),
{
    v.len() >= 3 && v[0] == '[' && v[1] == '1' && v[2] == ']'
}

/// The value of a printed R scalar (see `r_scalar`).
pub fn extract_scalar_value(s: &str) -> (r: Option<String>)
    ensures
        r matches Some(v) ==> r_scalar(s@) == Some(v@),
        r is None ==> r_scalar(s@) is None,
{
    let v = chars_of(s);
    if find_line_break(&v) || !prefixed(&v) {
        return None;
    }
    let rest = slice(&v, 3, v.len());
    assert(rest@ =~= v@.skip(3));
    let value = trimmed(&rest);
    if value.len() == 0 || find_ws(&value) {
        return None;
    }
    if value.len() > 1 && value[0] == '"' && value[value.len() - 1] == '"' {
        let inner = slice(&value, 1, value.len() - 1);
        Some(string_of(&inner))
    } else {
        Some(string_of(&value))
    }
}

/// Whether `s` is a short printed R vector (see `r_short_vector`).
pub fn is_short_vector_output(s: &str) -> (r: bool)
    ensures
        r == r_short_vector(s@),
{
    let v = chars_of(s);
    let bytes = s.as_bytes();
    assert(bytes@ == encode_utf8(s@));
    if find_line_break(&v) || !prefixed(&v) || bytes.len() >= 80 {
        return false;
    }
    let rest = slice(&v, 3, v.len());
    assert(rest@ =~= v@.skip(3));
    let t = trimmed(&rest);
    find_ws(&t)
}

/// An R result as shown inline: trimmed; nothing for an empty result; a
/// scalar as its value; a short vector as inline code; anything else is
/// refused with a preview of its first hundred characters.
pub open spec fn r_inline(output: Seq<char>) -> Result<Seq<char>, Seq<char>> {
    let t = trim(output);
    if t.len() == 0 {
        Ok(Seq::empty())
    } else {
        match r_scalar(t) {
            Some(v) => Ok(v),
            None => if r_short_vector(t) {
                Ok("`"@ + t + "`"@)
            } else {
                Err(too_complex_message(t, "short vectors"@))
            },
        }
    }
}

/// An R result as shown inline (see `r_inline`).
pub fn format_inline_output(output: &str) -> (r: Result<String, String>)
    ensures
        match r {
            Ok(t) => r_inline(output@) == Ok::<Seq<char>, Seq<char>>(t@),
            Err(e) => r_inline(output@) == Err::<Seq<char>, Seq<char>>(e@),
        },
{
    let t = trimmed(&chars_of(output));
    let ts = string_of(&t);
    if t.len() == 0 {
        return Ok(String::new());
    }
    if let Some(v) = extract_scalar_value(ts.as_str()) {
        return Ok(v);
    }
    if is_short_vector_output(ts.as_str()) {
        let mut m = chars_of("`");
        extend(&mut m, &t);
        push_str(&mut m, "`");
        return Ok(string_of(&m));
    }
    Err(inline_result_too_complex(ts.as_str(), "short vectors"))
}

// ---------------------------------------------------------------------------
// Serialized tables and figures
// ---------------------------------------------------------------------------

/// Printed before a table serialized as CSV.
pub const CSV_MARKER: &'static str = "__KNOT_SERIALIZED_CSV__";

/// Printed before the path of a saved figure.
pub const PLOT_MARKER: &'static str = "__KNOT_SERIALIZED_PLOT__";

/// The text after a marker of length `len` at `pos`, up to the other marker
/// `stop` or the end, trimmed.
pub open spec fn marker_section(s: Seq<char>, pos: int, len: int, stop: Seq<char>) -> Seq<char> {
    let start = pos + len;
    let end = match find_from(s, stop, start) {
        Some(e) => e,
        None => s.len() as int,
    };
    trim(s.subrange(start, end))
}

/// The table after the CSV marker at character `pos`.
pub open spec fn csv_section(s: Seq<char>, pos: int) -> Seq<char> {
    marker_section(s, pos, CSV_MARKER@.len() as int, PLOT_MARKER@)
}

/// The figure path after the figure marker at character `pos`.
pub open spec fn plot_section(s: Seq<char>, pos: int) -> Seq<char> {
    marker_section(s, pos, PLOT_MARKER@.len() as int, CSV_MARKER@)
}

/// The trimmed text after the marker `marker` at `pos`, up to `stop`.
fn section_at(v: &Vec<char>, pos: usize, marker: &str, stop: &str) -> (r: Vec<char>)
    requires
        occurs_at(v@, marker@, pos as int),
    ensures
        r@ == marker_section(v@, pos as int, marker@.len() as int, stop@),
{
    let m = chars_of(marker);
    let n = v.len();
    let ml = m.len();
    assert(pos + ml <= n);
    let start = pos + ml;
    let stop_v = chars_of(stop);
    let end = match crate::text::find_at(v, &stop_v, start) {
        Some(e) => {
            proof {
                crate::text::lemma_find_from_bound(v@, stop@, start as int);
            }
            e
        },
        None => v.len(),
    };
    let piece = slice(v, start, end);
    trimmed(&piece)
}

/// Error for an empty table.
pub open spec fn empty_csv_message() -> Seq<char> {
    "Empty CSV content after marker"@
}

/// Error for an empty figure path.
pub open spec fn empty_plot_message() -> Seq<char> {
    "Empty plot path after marker"@
}

/// Error for a figure file that does not exist.
pub open spec fn missing_plot_message(path: Seq<char>) -> Seq<char> {
    "Plot file not found: "@ + string_literal(path)
}

/// The table after the CSV marker at character `pos`; refused when empty.
fn csv_content_at(v: &Vec<char>, pos: usize) -> (r: Result<String, String>)
    requires
        occurs_at(v@, CSV_MARKER@, pos as int),
    ensures
        csv_section(v@, pos as int).len() == 0 ==> (r matches Err(m) && m@ == empty_csv_message()),
        csv_section(v@, pos as int).len() > 0 ==> (r matches Ok(c) && c@ == csv_section(
            v@,
            pos as int,
        )),
{
    let c = section_at(v, pos, CSV_MARKER, PLOT_MARKER);
    if c.len() == 0 {
        return Err("Empty CSV content after marker".to_string());
    }
    Ok(string_of(&c))
}

/// The figure path after the figure marker at character `pos`; refused when
/// empty or when no such file exists.
fn plot_path_at<S: CacheStore>(v: &Vec<char>, pos: usize, store: &S) -> (r: Result<String, String>)
    requires
        occurs_at(v@, PLOT_MARKER@, pos as int),
    ensures
        plot_section(v@, pos as int).len() == 0 ==> (r matches Err(m) && m@ == empty_plot_message()),
        r matches Ok(p) ==> p@ == plot_section(v@, pos as int) && p@.len() > 0,
        plot_section(v@, pos as int).len() > 0 && r is Err ==> (r matches Err(m) && m@
            == missing_plot_message(plot_section(v@, pos as int))),
{
    let p = section_at(v, pos, PLOT_MARKER, CSV_MARKER);
    if p.len() == 0 {
        return Err("Empty plot path after marker".to_string());
    }
    let path = string_of(&p);
    if !store.file_exists(path.as_str()) {
        let mut m = chars_of("Plot file not found: ");
        extend(&mut m, &string_literal_of(path.as_str()));
        return Err(string_of(&m));
    }
    Ok(path)
}

/// Character index of the byte offset `b` of `s`, when the marker `marker`
/// begins there.
fn marker_index(s: &str, b: usize, marker: &str) -> (r: (Vec<char>, usize))
    requires
        is_boundary(s@, b as int),
        occurs_at(s@, marker@, char_index(s@, b as int)),
    ensures
        r.0@ == s@,
        r.1 as int == char_index(s@, b as int),
{
    let (cs, off) = crate::text::byte_offsets(s);
    match char_at_byte(&off, b) {
        Some(k) => {
            proof {
                crate::text::lemma_char_index(s@, k as int);
            }
            (cs, k)
        },
        None => {
            proof {
                let k = choose|k: int| 0 <= k <= s@.len() && enc_len(s@.take(k)) == b;
                assert(off@[k] == b);
            }
            (cs, 0)
        },
    }
}

/// The table after the CSV marker that begins at byte `marker_pos`,
/// trimmed, up to the figure marker or the end; refused when empty.
pub fn extract_csv_content(output: &str, marker_pos: usize) -> (r: Result<String, String>)
    requires
        is_boundary(output@, marker_pos as int),
        occurs_at(output@, CSV_MARKER@, char_index(output@, marker_pos as int)),
    ensures
        ({
            let c = csv_section(output@, char_index(output@, marker_pos as int));
            &&& (c.len() == 0 ==> (r matches Err(m) && m@ == empty_csv_message()))
            &&& (c.len() > 0 ==> (r matches Ok(x) && x@ == c))
        }),
{
    let (cs, k) = marker_index(output, marker_pos, CSV_MARKER);
    csv_content_at(&cs, k)
}

/// The figure path after the figure marker that begins at byte
/// `marker_pos`, trimmed, up to the CSV marker or the end; refused when
/// empty or when the file does not exist.
pub fn extract_plot_path<S: CacheStore>(output: &str, marker_pos: usize, store: &S) -> (r: Result<
    String,
    String,
>)
    requires
        is_boundary(output@, marker_pos as int),
        occurs_at(output@, PLOT_MARKER@, char_index(output@, marker_pos as int)),
    ensures
        ({
            let p = plot_section(output@, char_index(output@, marker_pos as int));
            &&& (p.len() == 0 ==> (r matches Err(m) && m@ == empty_plot_message()))
            &&& (r matches Ok(x) ==> x@ == p)
            &&& (p.len() > 0 && r is Err ==> (r matches Err(m) && m@ == missing_plot_message(p)))
        }),
{
    let (cs, k) = marker_index(output, marker_pos, PLOT_MARKER);
    plot_path_at(&cs, k, store)
}

/// The first sixteen digits of a digest.
pub open spec fn short_digest(d: Seq<char>) -> Seq<char> {
    d.take(16)
}

/// Name of the cached file of a table.
pub open spec fn csv_file_name(csv: Seq<char>) -> Seq<char> {
    "dataframe_"@ + short_digest(digest_hex(encode_utf8(csv))) + ".csv"@
}

/// Name of the cached file of a figure with the given contents.
pub open spec fn plot_file_name(contents: Seq<u8>, source: Seq<char>) -> Seq<char> {
    "plot_"@ + short_digest(digest_hex(contents)) + "."@ + match path_extension(source) {
        Some(e) => e,
        None => "svg"@,
    }
}

/// Writes a table to the cache under a name drawn from its contents.
pub fn save_csv_to_cache<S: CacheStore>(csv_content: &str, cache_dir: &str, store: &mut S) -> (r:
    Result<String, String>)
    ensures
        r matches Ok(p) ==> p@ == path_join(cache_dir@, csv_file_name(csv_content@)),
        r matches Err(m) ==> exists|reason: Seq<char>| m@ == "Failed to write CSV to cache: "@ + reason,
{
    let bytes = crate::hashing::bytes_of(csv_content);
    let h = hash_file_contents(&bytes);
    let hv = chars_of(h.as_str());
    let mut name = chars_of("dataframe_");
    let short = slice(&hv, 0, 16);
    assert(short@ =~= short_digest(digest_hex(encode_utf8(csv_content@))));
    extend(&mut name, &short);
    push_str(&mut name, ".csv");
    let path = join_path(cache_dir, &name);
    match store.write_text(path.as_str(), csv_content) {
        Ok(()) => Ok(path),
        Err(e) => {
            let mut m = chars_of("Failed to write CSV to cache: ");
            push_str(&mut m, e.as_str());
            Err(string_of(&m))
        },
    }
}

/// Copies a figure into the cache under a name drawn from its contents,
/// keeping its extension (`svg` when it has none).
pub fn copy_plot_to_cache<S: CacheStore>(source_path: &str, cache_dir: &str, store: &mut S) -> (r:
    Result<String, String>)
    ensures
        r matches Ok(p) ==> exists|contents: Seq<u8>|
            p@ == path_join(cache_dir@, plot_file_name(contents, source_path@)),
        r matches Err(m) ==> m@ == "Failed to read plot file"@ || exists|reason: Seq<char>|
            m@ == "Failed to copy plot to cache: "@ + reason,
{
    let contents = match store.read_bytes(source_path) {
        Some(b) => b,
        None => return Err("Failed to read plot file".to_string()),
    };
    let h = hash_file_contents(&contents);
    let hv = chars_of(h.as_str());
    let mut name = chars_of("plot_");
    let short = slice(&hv, 0, 16);
    assert(short@ =~= short_digest(digest_hex(contents@)));
    extend(&mut name, &short);
    push_str(&mut name, ".");
    match crate::cache::extension_of_path(source_path) {
        Some(e) => push_str(&mut name, e.as_str()),
        None => push_str(&mut name, "svg"),
    }
    let dest = join_path(cache_dir, &name);
    assert(name@ =~= plot_file_name(contents@, source_path@));
    match store.copy_file(source_path, dest.as_str()) {
        Ok(()) => Ok(dest),
        Err(e) => {
            let mut m = chars_of("Failed to copy plot to cache: ");
            push_str(&mut m, e.as_str());
            Err(string_of(&m))
        },
    }
}

/// Whether the result `x` shows the table `csv`, saved in `cache_dir` under
/// the name drawn from its contents.
pub open spec fn cached_table(x: ExecutionResult, cache_dir: Seq<char>, csv: Seq<char>) -> bool {
    match x {
        ExecutionResult::DataFrame(d) => d@ == path_join(cache_dir, csv_file_name(csv)),
        ExecutionResult::DataFrameAndPlot { dataframe, plot: _ } => dataframe@ == path_join(
            cache_dir,
            csv_file_name(csv),
        ),
        _ => false,
    }
}

/// Whether the result `x` shows the figure at `source`, copied into
/// `cache_dir` under a name drawn from the contents read.
pub open spec fn cached_figure(x: ExecutionResult, cache_dir: Seq<char>, source: Seq<char>) -> bool {
    match x {
        ExecutionResult::Plot(p) => exists|contents: Seq<u8>|
            p@ == path_join(cache_dir, #[trigger] plot_file_name(contents, source)),
        ExecutionResult::DataFrameAndPlot { dataframe: _, plot } => exists|contents: Seq<u8>|
            plot@ == path_join(cache_dir, #[trigger] plot_file_name(contents, source)),
        _ => false,
    }
}

/// What R printed, with its serialized table and figure stored in the
/// cache: both markers give a table and a figure, one marker a table or a
/// figure (text before it is ignored), no marker the text itself.
pub fn parse_output<S: CacheStore>(output: &str, cache_dir: &str, store: &mut S) -> (r: Result<
    ExecutionResult,
    String,
>)
    ensures
        ({
            let c = crate::text::find(output@, CSV_MARKER@);
            let p = crate::text::find(output@, PLOT_MARKER@);
            &&& (c is None && p is None ==> (r matches Ok(x) && result_view(x) == ResultV::Text(
                output@,
            ) && *final(store) == *old(store)))
            &&& (c is Some ==> (r matches Ok(x) ==> (x is DataFrame || x is DataFrameAndPlot)))
            &&& (c is Some ==> (r matches Ok(x) ==> cached_table(x, cache_dir@, csv_section(output@, c->0))))
            &&& (p is Some ==> (r matches Ok(x) ==> (x is Plot || x is DataFrameAndPlot)))
            &&& (p is Some ==> (r matches Ok(x) ==> cached_figure(x, cache_dir@, plot_section(output@, p->0))))
            &&& (c is Some && csv_section(output@, c->0).len() == 0 && (p is None || c->0 < p->0)
                ==> (r matches Err(m) && m@ == empty_csv_message() && *final(store) == *old(store)))
            &&& (p is Some && plot_section(output@, p->0).len() == 0 && (c is None || p->0 < c->0)
                ==> (r matches Err(m) && m@ == empty_plot_message() && *final(store) == *old(store)))
        }),
{
    let v = chars_of(output);
    let csv_m = chars_of(CSV_MARKER);
    let plot_m = chars_of(PLOT_MARKER);
    let csv_pos = crate::text::find_at(&v, &csv_m, 0);
    let plot_pos = crate::text::find_at(&v, &plot_m, 0);
    proof {
        crate::text::lemma_find_from_bound(v@, CSV_MARKER@, 0);
        crate::text::lemma_find_from_bound(v@, PLOT_MARKER@, 0);
    }
    match (csv_pos, plot_pos) {
        (Some(c), Some(p)) => {
            if c < p {
                let csv = csv_content_at(&v, c)?;
                let csv_path = save_csv_to_cache(csv.as_str(), cache_dir, store)?;
                let plot = plot_path_at(&v, p, store)?;
                let plot_cached = copy_plot_to_cache(plot.as_str(), cache_dir, store)?;
                Ok(ExecutionResult::DataFrameAndPlot { dataframe: csv_path, plot: plot_cached })
            } else {
                let plot = plot_path_at(&v, p, store)?;
                let plot_cached = copy_plot_to_cache(plot.as_str(), cache_dir, store)?;
                let csv = csv_content_at(&v, c)?;
                let csv_path = save_csv_to_cache(csv.as_str(), cache_dir, store)?;
                Ok(ExecutionResult::DataFrameAndPlot { dataframe: csv_path, plot: plot_cached })
            }
        },
        (Some(c), None) => {
            let csv = csv_content_at(&v, c)?;
            let csv_path = save_csv_to_cache(csv.as_str(), cache_dir, store)?;
            Ok(ExecutionResult::DataFrame(csv_path))
        },
        (None, Some(p)) => {
            let plot = plot_path_at(&v, p, store)?;
            let plot_cached = copy_plot_to_cache(plot.as_str(), cache_dir, store)?;
            Ok(ExecutionResult::Plot(plot_cached))
        },
        (None, None) => Ok(ExecutionResult::Text(output.to_string())),
    }
}

// ---------------------------------------------------------------------------
// What R printed on its error stream
// ---------------------------------------------------------------------------

/// Whether R's error stream, in lower case (`lower`), reports an error
/// rather than warnings or messages (English and French R sessions).
pub open spec fn reports_error(lower: Seq<char>) -> bool {
    ||| contains(lower, "error"@)
    ||| contains(lower, "erreur"@)
    ||| contains(lower, "execution arrêtée"@)
    ||| contains(lower, "execution halted"@)
    ||| contains(lower, "could not find function"@)
    ||| contains(lower, "objet"@) && contains(lower, "introuvable"@)
}

/// The failure reported for the chunk `code` when R's error stream reports
/// an error.
pub open spec fn r_failure_text(code: Seq<char>, stdout: Seq<char>, stderr: Seq<char>) -> Seq<char> {
    "R execution failed:\n\n--- Code ---\n"@ + code + "\n\n--- Stderr ---\n"@ + trim(stderr)
        + "\n\n--- Stdout ---\n"@ + trim(stdout)
}

/// The failure of the chunk `code` after R printed `stdout` and `stderr`,
/// where `lower` is `stderr` in lower case: none when the error stream is
/// blank or holds only warnings and messages.
pub fn r_failure_from(code: &str, stdout: &str, stderr: &str, lower: &str) -> (r: Option<String>)
    ensures
        r is Some <==> (trim(stderr@).len() > 0 && reports_error(lower@)),
        r matches Some(m) ==> m@ == r_failure_text(code@, stdout@, stderr@),
{
    let err = trimmed(&chars_of(stderr));
    if err.len() == 0 {
        return None;
    }
    let l = chars_of(lower);
    let is_error = mentions(&l, "error") || mentions(&l, "erreur") || mentions(
        &l,
        "execution arrêtée",
    ) || mentions(&l, "execution halted") || mentions(&l, "could not find function") || (
    mentions(&l, "objet") && mentions(&l, "introuvable"));
    if !is_error {
        return None;
    }
    let mut m = chars_of("R execution failed:\n\n--- Code ---\n");
    push_str(&mut m, code);
    push_str(&mut m, "\n\n--- Stderr ---\n");
    extend(&mut m, &err);
    push_str(&mut m, "\n\n--- Stdout ---\n");
    let out = trimmed(&chars_of(stdout));
    extend(&mut m, &out);
    Some(string_of(&m))
}

/// The failure of the chunk `code` after R printed `stdout` and `stderr`:
/// none when the error stream is blank or, read in lower case, holds only
/// warnings and messages.
pub fn r_stderr_failure(code: &str, stdout: &str, stderr: &str) -> (r: Option<String>)
    ensures
        r is Some <==> (trim(stderr@).len() > 0 && reports_error(unicode_lowercase(stderr@))),
        r matches Some(m) ==> m@ == r_failure_text(code@, stdout@, stderr@),
{
    let lower = to_lowercase(stderr);
    r_failure_from(code, stdout, stderr, lower.as_str())
}

/// The inline result of an R expression that printed `stdout` and
/// `stderr`: a failure when the error stream, in lower case, mentions an
/// error; else the printed result as shown inline.
pub open spec fn r_inline_outcome(stdout: Seq<char>, stderr: Seq<char>, lower: Seq<char>) -> Result<
    Seq<char>,
    Seq<char>,
> {
    if trim(stderr).len() > 0 && contains(lower, "error"@) {
        Err("Inline R execution failed: "@ + trim(stderr))
    } else {
        r_inline(stdout)
    }
}

/// The inline result of an R expression that printed `stdout` and `stderr`,
/// where `lower` is `stderr` in lower case.
pub fn r_inline_from(stdout: &str, stderr: &str, lower: &str) -> (r: Result<String, String>)
    ensures
        match r {
            Ok(t) => r_inline_outcome(stdout@, stderr@, lower@) == Ok::<Seq<char>, Seq<char>>(t@),
            Err(e) => r_inline_outcome(stdout@, stderr@, lower@) == Err::<Seq<char>, Seq<char>>(e@),
        },
{
    let err = trimmed(&chars_of(stderr));
    if err.len() > 0 && mentions(&chars_of(lower), "error") {
        let mut m = chars_of("Inline R execution failed: ");
        extend(&mut m, &err);
        return Err(string_of(&m));
    }
    format_inline_output(stdout)
}

/// The inline result of an R expression that printed `stdout` and `stderr`.
pub fn r_inline_result(stdout: &str, stderr: &str) -> (r: Result<String, String>)
    ensures
        match r {
            Ok(t) => r_inline_outcome(stdout@, stderr@, unicode_lowercase(stderr@)) == Ok::<
                Seq<char>,
                Seq<char>,
            >(t@),
            Err(e) => r_inline_outcome(stdout@, stderr@, unicode_lowercase(stderr@)) == Err::<
                Seq<char>,
                Seq<char>,
            >(e@),
        },
{
    let lower = to_lowercase(stderr);
    r_inline_from(stdout, stderr, lower.as_str())
}

} // verus!
