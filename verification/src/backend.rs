//! Rendering of chunks as Typst: the `#code-chunk(..)` call of a chunk with
//! its code, output, warnings and styles, and the calls of codly options.
use crate::ast::{
    resolved_view, Chunk, ChunkError, Layout, ResolvedChunkOptions, ResolvedV, Show,
    WarningsVisibility,
};
use crate::compiler::ChunkExecutionState;
use crate::executors::{
    result_view, ExecutionOutput, ExecutionResult, ResultV, RuntimeWarning,
};
use crate::text::{
    chars_lt, chars_of, extend, join, join_chars, push_str, seq_lt, string_of, trim, trimmed,
};
use vstd::prelude::*;

verus! {

// ---------------------------------------------------------------------------
// Sorting of argument texts
// ---------------------------------------------------------------------------

/// The characters of each text.
pub open spec fn views(s: Seq<Vec<char>>) -> Seq<Seq<char>> {
    s.map_values(|v: Vec<char>| v@)
}

/// `x` inserted into `l` before the first text that does not sort before it.
pub open spec fn insert_sorted(x: Seq<char>, l: Seq<Seq<char>>) -> Seq<Seq<char>>
    decreases l.len(),
{
    if l.len() == 0 {
        seq![x]
    } else if seq_lt(l[0], x) {
        seq![l[0]] + insert_sorted(x, l.drop_first())
    } else {
        seq![x] + l
    }
}

/// The texts `s` in ascending order.
pub open spec fn sorted_seq(s: Seq<Seq<char>>) -> Seq<Seq<char>>
    decreases s.len(),
{
    if s.len() == 0 {
        s
    } else {
        insert_sorted(s.last(), sorted_seq(s.drop_last()))
    }
}

/// Inserting before the first text that does not sort before `x` is a
/// split of `l` at that place.
pub(crate) proof fn lemma_insert_at(x: Seq<char>, l: Seq<Seq<char>>, p: int)
    requires
        0 <= p <= l.len(),
        forall|j: int| 0 <= j < p ==> seq_lt(#[trigger] l[j], x),
        p < l.len() ==> !seq_lt(l[p], x),
    ensures
        insert_sorted(x, l) == l.take(p) + seq![x] + l.skip(p),
    decreases p,
{
    if p == 0 {
        assert(l.take(0) + seq![x] + l.skip(0) =~= seq![x] + l);
    } else {
        let t = l.drop_first();
        assert forall|j: int| 0 <= j < p - 1 implies seq_lt(#[trigger] t[j], x) by {
            assert(t[j] == l[j + 1]);
        }
        lemma_insert_at(x, t, p - 1);
        assert(seq![l[0]] + (t.take(p - 1) + seq![x] + t.skip(p - 1)) =~= l.take(p) + seq![x]
            + l.skip(p));
    }
}

/// Copy of the characters `v`.
fn copy_chars(v: &Vec<char>) -> (r: Vec<char>)
    ensures
        r@ == v@,
{
    let mut r: Vec<char> = Vec::new();
    extend(&mut r, v);
    r
}

/// Index of the first text of `v` that does not sort before `x`.
fn insert_position(v: &Vec<Vec<char>>, x: &Vec<char>) -> (p: usize)
    ensures
        p <= v.len(),
        forall|j: int| 0 <= j < p ==> seq_lt(#[trigger] v@[j]@, x@),
        p < v.len() ==> !seq_lt(v@[p as int]@, x@),
{
    let mut p: usize = 0;
    while p < v.len()
        invariant
            p <= v.len(),
            forall|j: int| 0 <= j < p ==> seq_lt(#[trigger] v@[j]@, x@),
        decreases v.len() - p,
    {
        if !chars_lt(&v[p], x) {
            return p;
        }
        p = p + 1;
    }
    p
}

/// The texts `items` in ascending order (insertion sort).
pub fn sort_texts(items: &Vec<Vec<char>>) -> (r: Vec<Vec<char>>)
    ensures
        views(r@) == sorted_seq(views(items@)),
{
    let mut r: Vec<Vec<char>> = Vec::new();
    let mut i: usize = 0;
    while i < items.len()
        invariant
            i <= items.len(),
            views(r@) == sorted_seq(views(items@).take(i as int)),
        decreases items.len() - i,
    {
        let x = copy_chars(&items[i]);
        let p = insert_position(&r, &x);
        let ghost before = views(r@);
        proof {
            assert forall|j: int| 0 <= j < p implies seq_lt(#[trigger] before[j], x@) by {
                assert(before[j] == r@[j]@);
            }
            lemma_insert_at(x@, before, p as int);
        }
        r.insert(p, x);
        proof {
            let t = views(items@).take(i + 1);
            assert(t.drop_last() =~= views(items@).take(i as int));
            assert(t.last() == x@);
            assert(views(r@) =~= before.take(p as int) + seq![x@] + before.skip(p as int));
        }
        i = i + 1;
    }
    assert(views(items@).take(items.len() as int) =~= views(items@));
    r
}

// ---------------------------------------------------------------------------
// Calls with named arguments
// ---------------------------------------------------------------------------

/// Text of named options, `key: value`.
pub open spec fn option_entries(options: Seq<(String, String)>) -> Seq<Seq<char>> {
    options.map_values(|kv: (String, String)| kv.0@ + ": "@ + kv.1@)
}

/// The call `#name(..)` with the options as named arguments, sorted by their
/// text so that the order in which the options were given does not matter.
pub open spec fn typst_call(name: Seq<char>, options: Seq<(String, String)>) -> Seq<char> {
    "#"@ + name + "("@ + join(sorted_seq(option_entries(options)), ", "@) + ")"@
}

/// The call `#fn_name(..)` with `options` as named arguments, in sorted order.
fn format_typst_call(fn_name: &str, options: &Vec<(String, String)>) -> (r: String)
    ensures
        r@ == typst_call(fn_name@, options@),
{
    let mut entries: Vec<Vec<char>> = Vec::new();
    let mut i: usize = 0;
    while i < options.len()
        invariant
            i <= options.len(),
            views(entries@) == option_entries(options@).take(i as int),
        decreases options.len() - i,
    {
        let kv = &options[i];
        let mut e = chars_of(kv.0.as_str());
        push_str(&mut e, ": ");
        push_str(&mut e, kv.1.as_str());
        assert(e@ == option_entries(options@)[i as int]);
        let ghost old_entries = entries@;
        entries.push(e);
        assert(views(entries@) =~= views(old_entries).push(e@));
        assert(option_entries(options@).take(i + 1) =~= option_entries(options@).take(
            i as int,
        ).push(e@));
        i = i + 1;
    }
    assert(option_entries(options@).take(options.len() as int) =~= option_entries(options@));
    let sorted = sort_texts(&entries);
    let mut out = chars_of("#");
    push_str(&mut out, fn_name);
    push_str(&mut out, "(");
    let args = join_chars(&sorted, ", ");
    assert(sorted@.map_values(|p: Vec<char>| p@) == views(sorted@));
    extend(&mut out, &args);
    push_str(&mut out, ")");
    string_of(&out)
}

/// The codly options as a Typst `#codly(..)` call, arguments sorted.
pub fn format_codly_call(options: &Vec<(String, String)>) -> (r: String)
    ensures
        r@ == typst_call("codly"@, options@),
{
    format_typst_call("codly", options)
}

/// The codly options as a Typst `#local(..)` call, arguments sorted.
pub fn format_local_call(options: &Vec<(String, String)>) -> (r: String)
    ensures
        r@ == typst_call("local"@, options@),
{
    format_typst_call("local", options)
}

// ---------------------------------------------------------------------------
// Chunks
// ---------------------------------------------------------------------------

/// `s` between double quotes.
pub open spec fn quoted(s: Seq<char>) -> Seq<char> {
    "\""@ + s + "\""@
}

/// `s` as Typst content, between square brackets.
pub open spec fn bracketed(s: Seq<char>) -> Seq<char> {
    "["@ + s + "]"@
}

/// A Typst array of content items; an array of one item ends with a comma.
pub open spec fn content_array(items: Seq<Seq<char>>) -> Seq<char> {
    "("@ + join(items.map_values(|m: Seq<char>| bracketed(m)), ", "@) + (if items.len() == 1 {
        ","@
    } else {
        Seq::empty()
    }) + ")"@
}

/// The argument that marks the execution state of a chunk (none when ready).
pub open spec fn state_args(state: ChunkExecutionState) -> Seq<Seq<char>> {
    match state {
        ChunkExecutionState::Ready => Seq::empty(),
        ChunkExecutionState::Inert => seq!["is-inert: true"@],
        ChunkExecutionState::Pending => seq!["is-pending: true"@],
        ChunkExecutionState::Modified => seq!["is-modified: true"@],
        ChunkExecutionState::ModifiedCascade => seq!["is-modified-cascade: true"@],
    }
}

/// Messages of the option diagnostics of a chunk.
pub open spec fn error_messages(errors: Seq<ChunkError>) -> Seq<Seq<char>> {
    errors.map_values(|e: ChunkError| e.message@)
}

/// Messages of warnings.
pub open spec fn warning_messages(warnings: Seq<RuntimeWarning>) -> Seq<Seq<char>> {
    warnings.map_values(|w: RuntimeWarning| w.message@)
}

/// The name of a chunk or, for an unnamed chunk, its caption.
pub open spec fn name_args(chunk: Chunk) -> Seq<Seq<char>> {
    match chunk.name {
        Some(n) => seq!["name: "@ + quoted(n@)],
        None => match chunk.options.caption {
            Some(c) => seq!["caption: "@ + bracketed(c@)],
            None => Seq::empty(),
        },
    }
}

/// The option diagnostics shown for a chunk (their messages), if there
/// are any.
pub open spec fn errors_args(messages: Seq<Seq<char>>) -> Seq<Seq<char>> {
    if messages.len() == 0 {
        Seq::empty()
    } else {
        seq!["errors: "@ + content_array(messages)]
    }
}

/// Language, then name (or, for an unnamed chunk, caption), state and option
/// diagnostics.
pub open spec fn base_args(
    chunk: Chunk,
    errors: Seq<Seq<char>>,
    state: ChunkExecutionState,
) -> Seq<Seq<char>> {
    seq!["lang: "@ + quoted(chunk.language@)] + name_args(chunk) + state_args(state)
        + errors_args(errors)
}

/// The warnings of an execution, unless they are hidden; inline warnings
/// say so.
pub open spec fn warnings_args(warnings: Seq<RuntimeWarning>, visibility: WarningsVisibility) -> Seq<
    Seq<char>,
> {
    if warnings.len() == 0 {
        Seq::empty()
    } else {
        match visibility {
            WarningsVisibility::Hidden => Seq::empty(),
            WarningsVisibility::Below => seq![
                "warnings: "@ + content_array(warning_messages(warnings)),
            ],
            WarningsVisibility::Inline => seq![
                "warnings: "@ + content_array(warning_messages(warnings)),
                "warnings-position: \"inline\""@,
            ],
        }
    }
}

/// Whether the code of a chunk is shown.
pub open spec fn shows_code(show: Show) -> bool {
    show is Both || show is Code
}

/// Whether the output of a chunk is shown.
pub open spec fn shows_output(show: Show) -> bool {
    show is Both || show is Output
}

/// The code of a chunk as a raw block, trimmed.
pub open spec fn raw_code(language: Seq<char>, code: Seq<char>) -> Seq<char> {
    "```"@ + language + "\n"@ + trim(code) + "```"@
}

/// The `code:` argument; codly options of the chunk wrap it in `#local(..)`.
pub open spec fn code_arg(
    chunk: Chunk,
    codly: Seq<(String, String)>,
    show: Show,
) -> Seq<char> {
    if shows_code(show) {
        if codly.len() > 0 {
            "code: ["@ + typst_call("local"@, codly) + bracketed(
                raw_code(chunk.language@, chunk.code@),
            ) + "]"@
        } else {
            "code: "@ + bracketed(raw_code(chunk.language@, chunk.code@))
        }
    } else {
        "code: none"@
    }
}

/// A figure file shown as an image.
pub open spec fn image_call(path: Seq<char>) -> Seq<char> {
    "#image("@ + quoted(path) + ")"@
}

/// A CSV file shown as a table.
pub open spec fn table_call(path: Seq<char>) -> Seq<char> {
    "#{ let data = csv("@ + quoted(path)
        + "); table(columns: data.first().len(), ..data.flatten()) }"@
}

/// Text output as a raw block, trimmed.
pub open spec fn raw_output(text: Seq<char>) -> Seq<char> {
    "```output\n"@ + trim(text) + "```"@
}

/// The content shown for an execution result (`none` for blank text).
pub open spec fn output_content(r: ResultV) -> Seq<char> {
    match r {
        ResultV::Text(t) => if trim(t).len() > 0 {
            bracketed(raw_output(t))
        } else {
            "none"@
        },
        ResultV::Plot(p) => bracketed(image_call(p)),
        ResultV::DataFrame(c) => bracketed(table_call(c)),
        ResultV::TextAndPlot(t, p) => bracketed(image_call(p) + "\n"@ + raw_output(t)),
        ResultV::DataFrameAndPlot(c, p) => bracketed(table_call(c) + "\n"@ + image_call(p)),
    }
}

/// The `output:` argument.
pub open spec fn output_arg(r: ResultV, show: Show) -> Seq<char> {
    if shows_output(show) {
        "output: "@ + output_content(r)
    } else {
        "output: none"@
    }
}

/// `key` and the value of a style option, if it is set.
pub open spec fn style_arg(key: Seq<char>, value: Option<String>) -> Seq<Seq<char>> {
    match value {
        Some(v) => seq![key + v@],
        None => Seq::empty(),
    }
}

/// `key` and the quoted value of an option, if it is set.
pub open spec fn quoted_arg(key: Seq<char>, value: Option<String>) -> Seq<Seq<char>> {
    match value {
        Some(v) => seq![key + quoted(v@)],
        None => Seq::empty(),
    }
}

/// Name of a layout.
pub open spec fn layout_name(l: Layout) -> Seq<char> {
    match l {
        Layout::Horizontal => "horizontal"@,
        Layout::Vertical => "vertical"@,
    }
}

/// Layout (when code and output are both shown), then the style options
/// that are set: gutter, code, output and warning boxes, width ratio and
/// alignment.
pub open spec fn presentation_args(o: ResolvedV) -> Seq<Seq<char>> {
    (if o.show is Both {
        seq!["layout: "@ + quoted(layout_name(o.layout))]
    } else {
        Seq::empty()
    }) + style_arg("gutter: "@, o.gutter) + style_arg("code-background: "@, o.code_background)
        + style_arg("code-stroke: "@, o.code_stroke) + style_arg("code-radius: "@, o.code_radius)
        + style_arg("code-inset: "@, o.code_inset) + style_arg(
        "output-background: "@,
        o.output_background,
    ) + style_arg("output-stroke: "@, o.output_stroke) + style_arg(
        "output-radius: "@,
        o.output_radius,
    ) + style_arg("output-inset: "@, o.output_inset) + style_arg(
        "warning-background: "@,
        o.warning_background,
    ) + style_arg("warning-stroke: "@, o.warning_stroke) + style_arg(
        "warning-radius: "@,
        o.warning_radius,
    ) + style_arg("warning-inset: "@, o.warning_inset) + quoted_arg(
        "width-ratio: "@,
        o.width_ratio,
    ) + quoted_arg("align: "@, o.align)
}

/// All arguments of the `#code-chunk(..)` call of a chunk.
pub open spec fn chunk_args(
    chunk: Chunk,
    errors: Seq<Seq<char>>,
    codly: Seq<(String, String)>,
    o: ResolvedV,
    result: ResultV,
    warnings: Seq<RuntimeWarning>,
    state: ChunkExecutionState,
) -> Seq<Seq<char>> {
    base_args(chunk, errors, state) + warnings_args(warnings, o.warnings_visibility) + seq![
        code_arg(chunk, codly, o.show),
        output_arg(result, o.show),
    ] + presentation_args(o)
}

/// The `#code-chunk(..)` call of a chunk.
pub open spec fn code_chunk_call(
    chunk: Chunk,
    errors: Seq<Seq<char>>,
    codly: Seq<(String, String)>,
    o: ResolvedV,
    result: ResultV,
    warnings: Seq<RuntimeWarning>,
    state: ChunkExecutionState,
) -> Seq<char> {
    "#code-chunk("@ + join(chunk_args(chunk, errors, codly, o, result, warnings, state), ", "@)
        + ")"@
}

/// A named chunk is a figure of kind `raw` labelled by its name; a chunk
/// whose name is blank is not wrapped.
pub open spec fn with_figure(chunk: Chunk, call: Seq<char>) -> Seq<char> {
    match chunk.name {
        Some(n) => if trim(n@).len() > 0 {
            "#figure("@ + join(
                seq!["kind: raw"@, "supplement: \"Chunk\""@] + match chunk.options.caption {
                    Some(c) => seq!["caption: "@ + bracketed(c@)],
                    None => Seq::<Seq<char>>::empty(),
                },
                ", "@,
            ) + ")["@ + call + "]\n <"@ + trim(n@) + ">"@
        } else {
            call
        },
        None => call,
    }
}

/// The Typst text of a chunk shown with the option diagnostics `errors`:
/// nothing when it is hidden, else its `#code-chunk(..)` call, in a figure
/// when it is named.
pub open spec fn chunk_typst(
    chunk: Chunk,
    errors: Seq<Seq<char>>,
    codly: Seq<(String, String)>,
    o: ResolvedV,
    result: ResultV,
    warnings: Seq<RuntimeWarning>,
    state: ChunkExecutionState,
) -> Seq<char> {
    if o.show is Hidden {
        Seq::empty()
    } else {
        with_figure(chunk, code_chunk_call(chunk, errors, codly, o, result, warnings, state))
    }
}

// ---------------------------------------------------------------------------
// Building the arguments
// ---------------------------------------------------------------------------

/// Appends the texts `more` to `out`.
fn append_texts(out: &mut Vec<Vec<char>>, more: Vec<Vec<char>>)
    ensures
        views(final(out)@) == views(old(out)@) + views(more@),
{
    let ghost start = views(out@);
    let mut i: usize = 0;
    while i < more.len()
        invariant
            i <= more.len(),
            views(out@) == start + views(more@).take(i as int),
        decreases more.len() - i,
    {
        let t = copy_chars(&more[i]);
        let ghost before = out@;
        out.push(t);
        assert(views(out@) =~= views(before).push(t@));
        assert(views(more@).take(i + 1) =~= views(more@).take(i as int).push(more@[i as int]@));
        i = i + 1;
    }
    assert(views(more@).take(more.len() as int) =~= views(more@));
}

/// A single text.
fn one_text(t: Vec<char>) -> (r: Vec<Vec<char>>)
    ensures
        views(r@) == seq![t@],
{
    let mut r: Vec<Vec<char>> = Vec::new();
    r.push(t);
    assert(views(r@) =~= seq![t@]);
    r
}

/// The characters of `a` followed by those of `b`.
fn cat(a: &str, b: &str) -> (r: Vec<char>)
    ensures
        r@ == a@ + b@,
{
    let mut r = chars_of(a);
    push_str(&mut r, b);
    r
}

/// `s` between double quotes.
fn quote_of(s: &str) -> (r: Vec<char>)
    ensures
        r@ == quoted(s@),
{
    let mut r = chars_of("\"");
    push_str(&mut r, s);
    push_str(&mut r, "\"");
    r
}

/// `s` between square brackets.
fn bracket_of(s: &Vec<char>) -> (r: Vec<char>)
    ensures
        r@ == bracketed(s@),
{
    let mut r = chars_of("[");
    extend(&mut r, s);
    push_str(&mut r, "]");
    r
}

/// A Typst array of content items.
fn content_array_of(items: &Vec<Vec<char>>) -> (r: Vec<char>)
    ensures
        r@ == content_array(views(items@)),
{
    let mut wrapped: Vec<Vec<char>> = Vec::new();
    let mut i: usize = 0;
    while i < items.len()
        invariant
            i <= items.len(),
            views(wrapped@) == views(items@).take(i as int).map_values(
                |m: Seq<char>| bracketed(m),
            ),
        decreases items.len() - i,
    {
        let b = bracket_of(&items[i]);
        let ghost before = wrapped@;
        wrapped.push(b);
        assert(views(wrapped@) =~= views(before).push(b@));
        assert(views(items@).take(i + 1).map_values(|m: Seq<char>| bracketed(m)) =~= views(
            items@,
        ).take(i as int).map_values(|m: Seq<char>| bracketed(m)).push(bracketed(items@[i as int]@)));
        i = i + 1;
    }
    assert(views(items@).take(items.len() as int) =~= views(items@));
    let mut r = chars_of("(");
    let joined = join_chars(&wrapped, ", ");
    assert(wrapped@.map_values(|p: Vec<char>| p@) == views(wrapped@));
    extend(&mut r, &joined);
    if items.len() == 1 {
        push_str(&mut r, ",");
    }
    push_str(&mut r, ")");
    r
}

/// Messages of option diagnostics.
fn error_messages_of(errors: &Vec<ChunkError>) -> (r: Vec<Vec<char>>)
    ensures
        views(r@) == error_messages(errors@),
{
    let mut r: Vec<Vec<char>> = Vec::new();
    let mut i: usize = 0;
    while i < errors.len()
        invariant
            i <= errors.len(),
            views(r@) == error_messages(errors@).take(i as int),
        decreases errors.len() - i,
    {
        let m = chars_of(errors[i].message.as_str());
        let ghost before = r@;
        r.push(m);
        assert(views(r@) =~= views(before).push(m@));
        assert(error_messages(errors@).take(i + 1) =~= error_messages(errors@).take(i as int).push(
            m@,
        ));
        i = i + 1;
    }
    assert(error_messages(errors@).take(errors.len() as int) =~= error_messages(errors@));
    r
}

/// Messages of warnings.
fn warning_messages_of(warnings: &Vec<RuntimeWarning>) -> (r: Vec<Vec<char>>)
    ensures
        views(r@) == warning_messages(warnings@),
{
    let mut r: Vec<Vec<char>> = Vec::new();
    let mut i: usize = 0;
    while i < warnings.len()
        invariant
            i <= warnings.len(),
            views(r@) == warning_messages(warnings@).take(i as int),
        decreases warnings.len() - i,
    {
        let m = chars_of(warnings[i].message.as_str());
        let ghost before = r@;
        r.push(m);
        assert(views(r@) =~= views(before).push(m@));
        assert(warning_messages(warnings@).take(i + 1) =~= warning_messages(warnings@).take(
            i as int,
        ).push(m@));
        i = i + 1;
    }
    assert(warning_messages(warnings@).take(warnings.len() as int) =~= warning_messages(warnings@));
    r
}

/// The argument that marks the execution state.
fn state_args_of(state: &ChunkExecutionState) -> (r: Vec<Vec<char>>)
    ensures
        views(r@) == state_args(*state),
{
    match state {
        ChunkExecutionState::Ready => {
            let r: Vec<Vec<char>> = Vec::new();
            assert(views(r@) =~= Seq::<Seq<char>>::empty());
            r
        },
        ChunkExecutionState::Inert => one_text(chars_of("is-inert: true")),
        ChunkExecutionState::Pending => one_text(chars_of("is-pending: true")),
        ChunkExecutionState::Modified => one_text(chars_of("is-modified: true")),
        ChunkExecutionState::ModifiedCascade => one_text(chars_of("is-modified-cascade: true")),
    }
}

/// Language, name or caption, state and option diagnostics.
fn push_base_args(
    chunk: &Chunk,
    errors: &Vec<ChunkError>,
    state: &ChunkExecutionState,
    args: &mut Vec<Vec<char>>,
)
    ensures
        views(final(args)@) == views(old(args)@) + base_args(*chunk, error_messages(errors@), *state),
{
    let mut lang = chars_of("lang: ");
    extend(&mut lang, &quote_of(chunk.language.as_str()));
    let mut parts = one_text(lang);
    match &chunk.name {
        Some(n) => {
            let mut t = chars_of("name: ");
            extend(&mut t, &quote_of(n.as_str()));
            append_texts(&mut parts, one_text(t));
        },
        None => match &chunk.options.caption {
            Some(c) => {
                let mut t = chars_of("caption: ");
                extend(&mut t, &bracket_of(&chars_of(c.as_str())));
                append_texts(&mut parts, one_text(t));
            },
            None => {},
        },
    }
    append_texts(&mut parts, state_args_of(state));
    if errors.len() > 0 {
        let msgs = error_messages_of(errors);
        let mut t = chars_of("errors: ");
        extend(&mut t, &content_array_of(&msgs));
        append_texts(&mut parts, one_text(t));
    }
    assert(views(parts@) =~= base_args(*chunk, error_messages(errors@), *state));
    append_texts(args, parts);
}

/// The warnings, unless hidden.
fn push_warnings_arg(
    output: &ExecutionOutput,
    o: &ResolvedChunkOptions,
    args: &mut Vec<Vec<char>>,
)
    ensures
        views(final(args)@) == views(old(args)@) + warnings_args(
            output.warnings@,
            o.warnings_visibility,
        ),
{
    if output.warnings.len() == 0 {
        assert(views(args@) =~= views(args@) + Seq::<Seq<char>>::empty());
        return ;
    }
    match o.warnings_visibility {
        WarningsVisibility::Hidden => {
            assert(views(args@) =~= views(args@) + Seq::<Seq<char>>::empty());
        },
        WarningsVisibility::Below => {
            let msgs = warning_messages_of(&output.warnings);
            let mut t = chars_of("warnings: ");
            extend(&mut t, &content_array_of(&msgs));
            append_texts(args, one_text(t));
        },
        WarningsVisibility::Inline => {
            let msgs = warning_messages_of(&output.warnings);
            let mut t = chars_of("warnings: ");
            extend(&mut t, &content_array_of(&msgs));
            let ghost a0 = views(args@);
            append_texts(args, one_text(t));
            append_texts(args, one_text(chars_of("warnings-position: \"inline\"")));
            assert(views(args@) =~= a0 + seq![t@, "warnings-position: \"inline\""@]);
        },
    }
}

/// The code of a chunk as a raw block, trimmed.
fn raw_code_of(chunk: &Chunk) -> (r: Vec<char>)
    ensures
        r@ == raw_code(chunk.language@, chunk.code@),
{
    let mut r = chars_of("```");
    push_str(&mut r, chunk.language.as_str());
    push_str(&mut r, "\n");
    extend(&mut r, &trimmed(&chars_of(chunk.code.as_str())));
    push_str(&mut r, "```");
    r
}

/// The `code:` argument.
fn code_arg_of(chunk: &Chunk, codly: &Vec<(String, String)>, o: &ResolvedChunkOptions) -> (r: Vec<
    char,
>)
    ensures
        r@ == code_arg(*chunk, codly@, o.show),
{
    match o.show {
        Show::Both | Show::Code => {
            let raw = bracket_of(&raw_code_of(chunk));
            if codly.len() > 0 {
                let mut r = chars_of("code: [");
                let local = format_local_call(codly);
                push_str(&mut r, local.as_str());
                extend(&mut r, &raw);
                push_str(&mut r, "]");
                r
            } else {
                let mut r = chars_of("code: ");
                extend(&mut r, &raw);
                r
            }
        },
        _ => chars_of("code: none"),
    }
}

/// A figure file shown as an image.
fn image_of(path: &str) -> (r: Vec<char>)
    ensures
        r@ == image_call(path@),
{
    let mut r = chars_of("#image(");
    extend(&mut r, &quote_of(path));
    push_str(&mut r, ")");
    r
}

/// A CSV file shown as a table.
fn table_of(path: &str) -> (r: Vec<char>)
    ensures
        r@ == table_call(path@),
{
    let mut r = chars_of("#{ let data = csv(");
    extend(&mut r, &quote_of(path));
    push_str(&mut r, "); table(columns: data.first().len(), ..data.flatten()) }");
    r
}

/// Text output as a raw block, trimmed.
fn raw_output_of(text: &str) -> (r: Vec<char>)
    ensures
        r@ == raw_output(text@),
{
    let mut r = chars_of("```output\n");
    extend(&mut r, &trimmed(&chars_of(text)));
    push_str(&mut r, "```");
    r
}

/// The content shown for an execution result.
fn output_content_of(result: &ExecutionResult) -> (r: Vec<char>)
    ensures
        r@ == output_content(result_view(*result)),
{
    match result {
        ExecutionResult::Text(t) => {
            if trimmed(&chars_of(t.as_str())).len() > 0 {
                bracket_of(&raw_output_of(t.as_str()))
            } else {
                chars_of("none")
            }
        },
        ExecutionResult::Plot(p) => bracket_of(&image_of(p.as_str())),
        ExecutionResult::DataFrame(c) => bracket_of(&table_of(c.as_str())),
        ExecutionResult::TextAndPlot { text, plot } => {
            let mut inner = image_of(plot.as_str());
            push_str(&mut inner, "\n");
            extend(&mut inner, &raw_output_of(text.as_str()));
            bracket_of(&inner)
        },
        ExecutionResult::DataFrameAndPlot { dataframe, plot } => {
            let mut inner = table_of(dataframe.as_str());
            push_str(&mut inner, "\n");
            extend(&mut inner, &image_of(plot.as_str()));
            bracket_of(&inner)
        },
    }
}

/// The `output:` argument.
fn output_arg_of(output: &ExecutionOutput, o: &ResolvedChunkOptions) -> (r: Vec<char>)
    ensures
        r@ == output_arg(result_view(output.result), o.show),
{
    match o.show {
        Show::Both | Show::Output => {
            let mut r = chars_of("output: ");
            extend(&mut r, &output_content_of(&output.result));
            r
        },
        _ => chars_of("output: none"),
    }
}

/// `key` and the value of a style option, if it is set.
fn style_arg_of(key: &str, value: &Option<String>) -> (r: Vec<Vec<char>>)
    ensures
        views(r@) == style_arg(key@, *value),
{
    match value {
        Some(v) => one_text(cat(key, v.as_str())),
        None => {
            let r: Vec<Vec<char>> = Vec::new();
            assert(views(r@) =~= Seq::<Seq<char>>::empty());
            r
        },
    }
}

/// `key` and the quoted value of an option, if it is set.
fn quoted_arg_of(key: &str, value: &Option<String>) -> (r: Vec<Vec<char>>)
    ensures
        views(r@) == quoted_arg(key@, *value),
{
    match value {
        Some(v) => {
            let mut t = chars_of(key);
            extend(&mut t, &quote_of(v.as_str()));
            one_text(t)
        },
        None => {
            let r: Vec<Vec<char>> = Vec::new();
            assert(views(r@) =~= Seq::<Seq<char>>::empty());
            r
        },
    }
}

/// Layout and style arguments.
fn push_presentation_args(o: &ResolvedChunkOptions, args: &mut Vec<Vec<char>>)
    ensures
        views(final(args)@) == views(old(args)@) + presentation_args(resolved_view(*o)),
{
    let ghost a0 = views(args@);
    let mut parts: Vec<Vec<char>> = Vec::new();
    if let Show::Both = o.show {
        let name = match o.layout {
            Layout::Horizontal => "horizontal",
            Layout::Vertical => "vertical",
        };
        let mut t = chars_of("layout: ");
        extend(&mut t, &quote_of(name));
        append_texts(&mut parts, one_text(t));
    }
    assert(views(parts@) =~= (if o.show is Both {
        seq!["layout: "@ + quoted(layout_name(o.layout))]
    } else {
        Seq::empty()
    }));
    append_texts(&mut parts, style_arg_of("gutter: ", &o.gutter));
    append_texts(&mut parts, style_arg_of("code-background: ", &o.code_background));
    append_texts(&mut parts, style_arg_of("code-stroke: ", &o.code_stroke));
    append_texts(&mut parts, style_arg_of("code-radius: ", &o.code_radius));
    append_texts(&mut parts, style_arg_of("code-inset: ", &o.code_inset));
    append_texts(&mut parts, style_arg_of("output-background: ", &o.output_background));
    append_texts(&mut parts, style_arg_of("output-stroke: ", &o.output_stroke));
    append_texts(&mut parts, style_arg_of("output-radius: ", &o.output_radius));
    append_texts(&mut parts, style_arg_of("output-inset: ", &o.output_inset));
    append_texts(&mut parts, style_arg_of("warning-background: ", &o.warning_background));
    append_texts(&mut parts, style_arg_of("warning-stroke: ", &o.warning_stroke));
    append_texts(&mut parts, style_arg_of("warning-radius: ", &o.warning_radius));
    append_texts(&mut parts, style_arg_of("warning-inset: ", &o.warning_inset));
    append_texts(&mut parts, quoted_arg_of("width-ratio: ", &o.width_ratio));
    append_texts(&mut parts, quoted_arg_of("align: ", &o.align));
    append_texts(args, parts);
}

/// Wraps the call of a named chunk in a labelled figure.
fn wrap_with_figure(chunk: &Chunk, call: Vec<char>) -> (r: Vec<char>)
    ensures
        r@ == with_figure(*chunk, call@),
{
    match &chunk.name {
        Some(n) => {
            let name = trimmed(&chars_of(n.as_str()));
            if name.len() > 0 {
                let mut fig = one_text(chars_of("kind: raw"));
                append_texts(&mut fig, one_text(chars_of("supplement: \"Chunk\"")));
                match &chunk.options.caption {
                    Some(c) => {
                        let mut t = chars_of("caption: ");
                        extend(&mut t, &bracket_of(&chars_of(c.as_str())));
                        append_texts(&mut fig, one_text(t));
                    },
                    None => {},
                }
                assert(views(fig@) =~= seq!["kind: raw"@, "supplement: \"Chunk\""@] + match chunk.options.caption {
                    Some(c) => seq!["caption: "@ + bracketed(c@)],
                    None => Seq::<Seq<char>>::empty(),
                });
                let mut r = chars_of("#figure(");
                let joined = join_chars(&fig, ", ");
                assert(fig@.map_values(|p: Vec<char>| p@) == views(fig@));
                extend(&mut r, &joined);
                push_str(&mut r, ")[");
                extend(&mut r, &call);
                push_str(&mut r, "]\n <");
                extend(&mut r, &name);
                push_str(&mut r, ">");
                r
            } else {
                call
            }
        },
        None => call,
    }
}

/// The Typst text of a chunk shown with the option diagnostics `errors`.
pub fn render_chunk(
    chunk: &Chunk,
    errors: &Vec<ChunkError>,
    codly_options: &Vec<(String, String)>,
    resolved_options: &ResolvedChunkOptions,
    output: &ExecutionOutput,
    state: &ChunkExecutionState,
) -> (r: String)
    ensures
        r@ == chunk_typst(
            *chunk,
            error_messages(errors@),
            codly_options@,
            resolved_view(*resolved_options),
            result_view(output.result),
            output.warnings@,
            *state,
        ),
{
    if let Show::Hidden = resolved_options.show {
        return String::new();
    }
    let mut args: Vec<Vec<char>> = Vec::new();
    push_base_args(chunk, errors, state, &mut args);
    push_warnings_arg(output, resolved_options, &mut args);
    append_texts(&mut args, one_text(code_arg_of(chunk, codly_options, resolved_options)));
    append_texts(&mut args, one_text(output_arg_of(output, resolved_options)));
    push_presentation_args(resolved_options, &mut args);
    assert(views(args@) =~= chunk_args(
        *chunk,
        error_messages(errors@),
        codly_options@,
        resolved_view(*resolved_options),
        result_view(output.result),
        output.warnings@,
        *state,
    ));
    let mut call = chars_of("#code-chunk(");
    let joined = join_chars(&args, ", ");
    assert(args@.map_values(|p: Vec<char>| p@) == views(args@));
    extend(&mut call, &joined);
    push_str(&mut call, ")");
    let r = wrap_with_figure(chunk, call);
    string_of(&r)
}

/// A backend renders chunks in the syntax of a target document.
pub trait Backend {
    /// The rendering of a chunk with its merged codly options, resolved
    /// options, execution output and execution state.
    fn format_chunk(
        &self,
        chunk: &Chunk,
        codly_options: &Vec<(String, String)>,
        resolved_options: &ResolvedChunkOptions,
        output: &ExecutionOutput,
        state: &ChunkExecutionState,
    ) -> String;
}

/// The Typst backend.
#[derive(Debug, Clone, Copy, Default)]
pub struct TypstBackend;

impl TypstBackend {
    /// A Typst backend.
    pub fn new() -> (r: Self) {
        TypstBackend
    }
}

impl Backend for TypstBackend {
    /// The chunk as Typst: nothing when it is hidden; else a `#code-chunk(..)`
    /// call with language, name or caption, state, option diagnostics,
    /// warnings, code, output and styles, wrapped in a labelled figure when
    /// the chunk has a name that is not blank.
    fn format_chunk(
        &self,
        chunk: &Chunk,
        codly_options: &Vec<(String, String)>,
        resolved_options: &ResolvedChunkOptions,
        output: &ExecutionOutput,
        state: &ChunkExecutionState,
    ) -> (r: String)
        ensures
            r@ == chunk_typst(
                *chunk,
                error_messages(chunk.errors@),
                codly_options@,
                resolved_view(*resolved_options),
                result_view(output.result),
                output.warnings@,
                *state,
            ),
    {
        render_chunk(chunk, &chunk.errors, codly_options, resolved_options, output, state)
    }
}

/// The errors of a failed chunk: its option diagnostics, then the content
/// `error`.
pub open spec fn failed_errors(messages: Seq<Seq<char>>, error: Seq<char>) -> Seq<char> {
    "("@ + join(messages.map_values(|m: Seq<char>| bracketed(m)).push(error), ", "@) + (
    if messages.len() == 0 {
        ","@
    } else {
        Seq::empty()
    }) + ")"@
}

/// The arguments of a chunk whose execution failed: language, name or
/// caption, errors, code, no output, styles.
pub open spec fn failed_chunk_args(
    chunk: Chunk,
    codly: Seq<(String, String)>,
    o: ResolvedV,
    error: Seq<char>,
) -> Seq<Seq<char>> {
    seq!["lang: "@ + quoted(chunk.language@)] + name_args(chunk) + seq![
        "errors: "@ + failed_errors(error_messages(chunk.errors@), error),
        code_arg(chunk, codly, o.show),
        "output: none"@,
    ] + presentation_args(o)
}

/// A chunk whose execution failed: the chunk as written (label, caption,
/// code, option diagnostics, styles) with the content `error` after its
/// diagnostics, shown even when the chunk is hidden.
pub open spec fn failed_chunk_typst(
    chunk: Chunk,
    codly: Seq<(String, String)>,
    o: ResolvedV,
    error: Seq<char>,
) -> Seq<char> {
    with_figure(
        chunk,
        "#code-chunk("@ + join(failed_chunk_args(chunk, codly, o, error), ", "@) + ")"@,
    )
}

impl TypstBackend {
    /// A chunk whose execution failed, with the Typst content `error`.
    pub fn format_failed_chunk(
        &self,
        chunk: &Chunk,
        codly_options: &Vec<(String, String)>,
        resolved_options: &ResolvedChunkOptions,
        error: &str,
    ) -> (r: String)
        ensures
            r@ == failed_chunk_typst(*chunk, codly_options@, resolved_view(*resolved_options), error@),
    {
        let mut lang = chars_of("lang: ");
        extend(&mut lang, &quote_of(chunk.language.as_str()));
        let mut args = one_text(lang);
        match &chunk.name {
            Some(n) => {
                let mut t = chars_of("name: ");
                extend(&mut t, &quote_of(n.as_str()));
                append_texts(&mut args, one_text(t));
            },
            None => match &chunk.options.caption {
                Some(c) => {
                    let mut t = chars_of("caption: ");
                    extend(&mut t, &bracket_of(&chars_of(c.as_str())));
                    append_texts(&mut args, one_text(t));
                },
                None => {},
            },
        }
        assert(views(args@) =~= seq!["lang: "@ + quoted(chunk.language@)] + name_args(*chunk));
        let ghost a1 = views(args@);
        let msgs = error_messages_of(&chunk.errors);
        let mut wrapped: Vec<Vec<char>> = Vec::new();
        let mut i: usize = 0;
        while i < msgs.len()
            invariant
                i <= msgs.len(),
                views(wrapped@) == views(msgs@).take(i as int).map_values(
                    |m: Seq<char>| bracketed(m),
                ),
            decreases msgs.len() - i,
        {
            let b = bracket_of(&msgs[i]);
            let ghost before = wrapped@;
            wrapped.push(b);
            assert(views(wrapped@) =~= views(before).push(b@));
            assert(views(msgs@).take(i + 1).map_values(|m: Seq<char>| bracketed(m)) =~= views(
                msgs@,
            ).take(i as int).map_values(|m: Seq<char>| bracketed(m)).push(
                bracketed(msgs@[i as int]@),
            ));
            i = i + 1;
        }
        assert(views(msgs@).take(msgs.len() as int) =~= views(msgs@));
        let ghost w0 = views(wrapped@);
        wrapped.push(chars_of(error));
        assert(views(wrapped@) =~= w0.push(error@));
        assert(views(msgs@) == error_messages(chunk.errors@));
        assert(views(wrapped@) == error_messages(chunk.errors@).map_values(
            |m: Seq<char>| bracketed(m),
        ).push(error@));
        assert(msgs@.len() == error_messages(chunk.errors@).len());
        let mut errs = chars_of("errors: ");
        push_str(&mut errs, "(");
        let joined = join_chars(&wrapped, ", ");
        assert(wrapped@.map_values(|p: Vec<char>| p@) == views(wrapped@));
        extend(&mut errs, &joined);
        if msgs.len() == 0 {
            push_str(&mut errs, ",");
        }
        push_str(&mut errs, ")");
        assert(errs@ =~= "errors: "@ + failed_errors(error_messages(chunk.errors@), error@));
        append_texts(&mut args, one_text(errs));
        append_texts(&mut args, one_text(code_arg_of(chunk, codly_options, resolved_options)));
        append_texts(&mut args, one_text(chars_of("output: none")));
        push_presentation_args(resolved_options, &mut args);
        assert(views(args@) =~= failed_chunk_args(
            *chunk,
            codly_options@,
            resolved_view(*resolved_options),
            error@,
        ));
        let mut call = chars_of("#code-chunk(");
        let all = join_chars(&args, ", ");
        assert(args@.map_values(|p: Vec<char>| p@) == views(args@));
        extend(&mut call, &all);
        push_str(&mut call, ")");
        let r = wrap_with_figure(chunk, call);
        string_of(&r)
    }
}

} // verus!
