//! Results of code execution and the interpretation of what an interpreter
//! reports about a chunk.
use crate::text::{
    chars_of, decimal, find, find_at, lemma_find_from_bound, push_decimal, push_str, slice, string_of,
    trim, trimmed,
};
use vstd::prelude::*;

pub mod error_utils;
pub mod inline;
pub mod manager;
pub mod path_utils;
pub mod python;
pub mod r;

verus! {

/// A warning raised while a chunk ran.
#[derive(Debug, Clone)]
pub struct RuntimeWarning {
    /// Text of the warning.
    pub message: String,
    /// Call that raised it, when known.
    pub call: Option<String>,
    /// Line of the chunk, when known.
    pub line: Option<usize>,
}

/// A deterministic error raised by the code of a chunk.
#[derive(Debug, Clone)]
pub struct RuntimeError {
    /// Text of the error, when the interpreter gave one.
    pub message: Option<String>,
    /// Call that raised it, when known.
    pub call: Option<String>,
    /// Line of the chunk, when known.
    pub line: Option<usize>,
    /// Stack frames, outermost first.
    pub traceback: Vec<String>,
}

/// Short text of a runtime error: its message, or `Unknown error`.
pub open spec fn error_summary(e: RuntimeError) -> Seq<char> {
    match e.message {
        Some(m) => m@,
        None => "Unknown error"@,
    }
}

impl RuntimeError {
    /// Short text of the error, as shown in the document: its message, or
    /// `Unknown error` when the interpreter gave none.
    pub fn summary(&self) -> (r: String)
        ensures
            r@ == error_summary(*self),
    {
        match &self.message {
            Some(m) => m.clone(),
            None => "Unknown error".to_string(),
        }
    }
}

/// One item that a chunk reported through the side channel.
#[derive(Debug, Clone)]
pub enum OutputMetadata {
    /// A named JSON dataset for Typst.
    DataExport { name: String, path: String },
    /// Text output.
    Text { content: String },
    /// A figure file.
    Plot { path: String, format: String },
    /// A table file.
    DataFrame { path: String },
}

/// Everything a chunk reported through the side channel.
#[derive(Debug, Clone, Default)]
pub struct KnotMetadata {
    /// Outputs, in the order they were produced.
    pub results: Vec<OutputMetadata>,
    /// Warnings raised.
    pub warnings: Vec<RuntimeWarning>,
    /// The error that stopped the chunk, if any.
    pub error: Option<RuntimeError>,
}

/// The output of a successful execution.
#[derive(Debug, Clone)]
pub enum ExecutionResult {
    /// Plain text.
    Text(String),
    /// A figure file.
    Plot(String),
    /// A table file.
    DataFrame(String),
    /// Text and a figure.
    TextAndPlot { text: String, plot: String },
    /// A table and a figure.
    DataFrameAndPlot { dataframe: String, plot: String },
}

/// A named JSON dataset produced by a chunk.
#[derive(Debug, Clone, PartialEq, Eq)]
pub struct DataExport {
    /// Key in the Typst `knot-data` dictionary.
    pub name: String,
    /// JSON file in the execution cache.
    pub path: String,
}

/// Aggregated output of a successful execution.
#[derive(Debug, Clone)]
pub struct ExecutionOutput {
    /// Datasets made available to Typst.
    pub exports: Vec<DataExport>,
    /// The visible result.
    pub result: ExecutionResult,
    /// Non-fatal warnings.
    pub warnings: Vec<RuntimeWarning>,
}

/// Outcome of running a chunk.
#[derive(Debug, Clone)]
pub enum ExecutionAttempt {
    /// The code ran without error.
    Success(ExecutionOutput),
    /// The code raised a deterministic error.
    RuntimeError(RuntimeError),
}

/// Why an execution could not be interpreted.
#[derive(Debug, Clone, PartialEq, Eq)]
pub enum ExecError {
    /// Text of the failure.
    Failed(String),
}

/// Rendering of figures asked of an interpreter before a chunk runs.
///
/// Dimensions are numbers of inches in the notation in which they are
/// written (`7`, `4.5`).
#[derive(Debug, Clone)]
pub struct GraphicsOptions {
    /// Figure width, in inches.
    pub width: String,
    /// Figure height, in inches.
    pub height: String,
    /// Resolution, in dots per inch.
    pub dpi: u32,
    /// File format (`svg`, `png`).
    pub format: String,
}

/// An interpreter session that runs the chunks of one language and can save
/// and restore its state.
///
/// Nothing is assumed of what an implementation answers: the functions that
/// drive an executor state what holds whatever comes back.
pub trait KnotExecutor {
    /// Starts the interpreter.
    fn initialize(&mut self) -> Result<(), ExecError>;
    /// Runs the code of a chunk.
    fn execute(&mut self, code: &str, graphics: &GraphicsOptions) -> Result<
        ExecutionAttempt,
        ExecError,
    >;
    /// Evaluates an inline expression and gives its text.
    fn execute_inline(&mut self, code: &str) -> Result<String, ExecError>;
    /// Runs a query and gives what it printed.
    fn query(&mut self, code: &str) -> Result<String, ExecError>;
    /// Saves the session to a file.
    fn save_session(&mut self, path: &str) -> Result<(), ExecError>;
    /// Restores the session from a file.
    fn load_session(&mut self, path: &str) -> Result<(), ExecError>;
    /// Extension of snapshot files (`RData`, `pkl`).
    fn snapshot_extension(&self) -> &'static str;
    /// Digest of the contents of an object of the session.
    fn hash_object(&mut self, name: &str) -> Result<String, ExecError>;
    /// Saves an object of the session under its digest in the cache directory.
    fn save_constant(&mut self, name: &str, hash: &str, cache_dir: &str) -> Result<(), ExecError>;
    /// Extension of saved object files.
    fn object_extension(&self) -> &'static str;
}

/// A request made to an interpreter, with the answer it gave: a chunk's code
/// with its graphics options, an inline expression's code, or a session to
/// restore from a file.
pub enum Request {
    Chunk { code: Seq<char>, graphics: GraphicsOptions, answer: Result<ExecutionAttempt, ExecError> },
    Inline { code: Seq<char>, answer: Result<String, ExecError> },
    Load { path: Seq<char>, answer: Result<(), ExecError> },
}

/// What an interpreter was asked, in order (nothing without interpreter).
pub open spec fn requests_of<E>(x: Option<Interpreter<E>>) -> Seq<Request> {
    match x {
        Some(i) => i.requests@,
        None => Seq::empty(),
    }
}

/// Whether the requests `after` are `before` followed by more.
pub open spec fn extends(before: Seq<Request>, after: Seq<Request>) -> bool {
    before.len() <= after.len() && after.take(before.len() as int) == before
}

/// Requests extend themselves.
pub proof fn lemma_extends_refl(s: Seq<Request>)
    ensures
        extends(s, s),
{
    assert(s.take(s.len() as int) =~= s);
}

/// Requests extended twice are extended.
pub proof fn lemma_extends_trans(a: Seq<Request>, b: Seq<Request>, c: Seq<Request>)
    requires
        extends(a, b),
        extends(b, c),
    ensures
        extends(a, c),
{
    assert(c.take(a.len() as int) =~= c.take(b.len() as int).take(a.len() as int));
}

/// Requests with one more at the end extend them.
pub proof fn lemma_extends_last(a: Seq<Request>, b: Seq<Request>)
    requires
        b.len() == a.len() + 1,
        b.drop_last() == a,
    ensures
        extends(a, b),
{
    assert(b.take(a.len() as int) =~= b.drop_last());
}

/// An interpreter session, with the record of the code it was asked to run
/// and of the sessions it was asked to restore, each with its answer, in
/// order. Its other uses (queries, saving the session, digests of objects)
/// go through `session` and are not recorded.
pub struct Interpreter<E> {
    /// The session.
    pub session: E,
    /// What it was asked, in order.
    pub requests: Ghost<Seq<Request>>,
}

impl<E: KnotExecutor> Interpreter<E> {
    /// A session that was asked nothing yet.
    pub fn new(session: E) -> (r: Self)
        ensures
            r.session == session,
            r.requests@ == Seq::<Request>::empty(),
    {
        Interpreter { session, requests: Ghost(Seq::empty()) }
    }

    /// The session, given back.
    pub fn into_session(self) -> (r: E)
        ensures
            r == self.session,
    {
        self.session
    }

    /// Runs the code of a chunk with the graphics options `graphics`.
    pub fn run_chunk(&mut self, code: &str, graphics: &GraphicsOptions) -> (r: Result<
        ExecutionAttempt,
        ExecError,
    >)
        ensures
            final(self).requests@ == old(self).requests@.push(
                Request::Chunk { code: code@, graphics: *graphics, answer: r },
            ),
    {
        let r = self.session.execute(code, graphics);
        proof {
            self.requests@ = self.requests@.push(
                Request::Chunk { code: code@, graphics: *graphics, answer: r },
            );
        }
        r
    }

    /// Evaluates an inline expression.
    pub fn run_inline(&mut self, code: &str) -> (r: Result<String, ExecError>)
        ensures
            final(self).requests@ == old(self).requests@.push(
                Request::Inline { code: code@, answer: r },
            ),
    {
        let r = self.session.execute_inline(code);
        proof {
            self.requests@ = self.requests@.push(Request::Inline { code: code@, answer: r });
        }
        r
    }

    /// Restores the session from the file `path`.
    pub fn load(&mut self, path: &str) -> (r: Result<(), ExecError>)
        ensures
            final(self).requests@ == old(self).requests@.push(
                Request::Load { path: path@, answer: r },
            ),
    {
        let r = self.session.load_session(path);
        proof {
            self.requests@ = self.requests@.push(Request::Load { path: path@, answer: r });
        }
        r
    }
}

// ---------------------------------------------------------------------------
// From side-channel metadata to a result
// ---------------------------------------------------------------------------

/// What the outputs of a chunk add up to: its text (pieces joined by line
/// breaks), its last figure and table, its exports, and how many figures and
/// tables it produced.
pub struct Collected {
    pub text: Seq<char>,
    pub plot: Option<Seq<char>>,
    pub dataframe: Option<Seq<char>>,
    pub exports: Seq<(Seq<char>, Seq<char>)>,
    pub plot_count: nat,
    pub dataframe_count: nat,
}

/// The outputs of the first `k` results collected.
pub open spec fn collect(results: Seq<OutputMetadata>, k: int) -> Collected
    decreases k,
{
    if k <= 0 {
        Collected {
            text: Seq::empty(),
            plot: None,
            dataframe: None,
            exports: Seq::empty(),
            plot_count: 0,
            dataframe_count: 0,
        }
    } else {
        let c = collect(results, k - 1);
        match results[k - 1] {
            OutputMetadata::DataExport { name, path } => Collected {
                exports: c.exports.push((name@, path@)),
                ..c
            },
            OutputMetadata::Text { content } => Collected {
                text: if c.text.len() > 0 {
                    c.text + "\n"@ + content@
                } else {
                    c.text + content@
                },
                ..c
            },
            OutputMetadata::Plot { path, format: _ } => Collected {
                plot: Some(path@),
                plot_count: c.plot_count + 1,
                ..c
            },
            OutputMetadata::DataFrame { path } => Collected {
                dataframe: Some(path@),
                dataframe_count: c.dataframe_count + 1,
                ..c
            },
        }
    }
}

/// Warning for figures that are not shown.
pub open spec fn plots_dropped_message(n: nat) -> Seq<char> {
    "This chunk produced "@ + decimal(n)
        + " plots; only the last one is shown. Put each plot in its own chunk."@
}

/// Warning for tables that are not shown.
pub open spec fn tables_dropped_message(n: nat) -> Seq<char> {
    "This chunk produced "@ + decimal(n)
        + " tables; only the last one is shown. Put each table in its own chunk."@
}

/// Warning for printed text hidden by a table.
pub open spec fn printed_dropped_message() -> Seq<char> {
    "Printed output is not shown because this chunk also produced a table. Print it in a separate chunk."@
}

/// The text of a chunk: its text outputs, or else its standard output when
/// that holds more than white space.
pub open spec fn final_text(c: Collected, stdout: Seq<char>) -> Seq<char> {
    if c.text.len() == 0 && trim(stdout).len() > 0 {
        stdout
    } else {
        c.text
    }
}

/// Messages of the warnings added for outputs that are not shown, in order:
/// extra figures, extra tables, text hidden by a table.
pub open spec fn dropped_messages(c: Collected, stdout: Seq<char>) -> Seq<Seq<char>> {
    (if c.plot_count > 1 {
        seq![plots_dropped_message(c.plot_count)]
    } else {
        Seq::empty()
    }) + (if c.dataframe_count > 1 {
        seq![tables_dropped_message(c.dataframe_count)]
    } else {
        Seq::empty()
    }) + (if c.dataframe is Some && trim(final_text(c, stdout)).len() > 0 {
        seq![printed_dropped_message()]
    } else {
        Seq::empty()
    })
}

/// Value of an execution result: which variant, and its text and paths.
pub enum ResultV {
    Text(Seq<char>),
    Plot(Seq<char>),
    DataFrame(Seq<char>),
    TextAndPlot(Seq<char>, Seq<char>),
    DataFrameAndPlot(Seq<char>, Seq<char>),
}

/// The value of an execution result.
pub open spec fn result_view(r: ExecutionResult) -> ResultV {
    match r {
        ExecutionResult::Text(t) => ResultV::Text(t@),
        ExecutionResult::Plot(p) => ResultV::Plot(p@),
        ExecutionResult::DataFrame(d) => ResultV::DataFrame(d@),
        ExecutionResult::TextAndPlot { text, plot } => ResultV::TextAndPlot(text@, plot@),
        ExecutionResult::DataFrameAndPlot { dataframe, plot } => ResultV::DataFrameAndPlot(
            dataframe@,
            plot@,
        ),
    }
}

/// The result shown for a chunk: a table wins over text, a figure is shown
/// with the text when there is no table.
pub open spec fn shown_result(c: Collected, stdout: Seq<char>) -> ResultV {
    let text = final_text(c, stdout);
    match (c.dataframe, c.plot) {
        (Some(df), Some(p)) => ResultV::DataFrameAndPlot(df, p),
        (Some(df), None) => ResultV::DataFrame(df),
        (None, Some(p)) => if text.len() > 0 {
            ResultV::TextAndPlot(text, p)
        } else {
            ResultV::Plot(p)
        },
        (None, None) => ResultV::Text(text),
    }
}

/// Appends a warning with no call and no line.
fn push_warning(warnings: &mut Vec<RuntimeWarning>, message: String)
    ensures
        final(warnings)@.len() == old(warnings)@.len() + 1,
        forall|k: int| 0 <= k < old(warnings)@.len() ==> final(warnings)@[k] == old(warnings)@[k],
        final(warnings)@.last().message@ == message@,
        final(warnings)@.last().call is None,
        final(warnings)@.last().line is None,
{
    warnings.push(RuntimeWarning { message, call: None, line: None });
}

/// Copy of a string.
fn copy(s: &String) -> (r: String)
    ensures
        r@ == s@,
{
    s.clone()
}

/// The output of a chunk from what it reported: its text outputs joined by
/// line breaks (or its standard output when it reported none), its last
/// figure and table, its exports, and its warnings followed by one warning
/// for each kind of output that is not shown.
pub fn metadata_to_execution_result(metadata: KnotMetadata, stdout_text: &str) -> (r: Result<
    ExecutionOutput,
    ExecError,
>)
    ensures
        r matches Ok(out) && ({
            let c = collect(metadata.results@, metadata.results@.len() as int);
            let extra = dropped_messages(c, stdout_text@);
            &&& result_view(out.result) == shown_result(c, stdout_text@)
            &&& out.exports@.map_values(|e: DataExport| (e.name@, e.path@)) == c.exports
            &&& out.warnings@.len() == metadata.warnings@.len() + extra.len()
            &&& forall|k: int|
                0 <= k < metadata.warnings@.len() ==> out.warnings@[k] == metadata.warnings@[k]
            &&& forall|k: int|
                0 <= k < extra.len() ==> {
                    let w = #[trigger] out.warnings@[metadata.warnings@.len() + k];
                    &&& w.message@ == extra[k]
                    &&& w.call is None
                    &&& w.line is None
                }
        }),
{
    let KnotMetadata { results, warnings, error: _ } = metadata;
    let ghost rs = results@;
    let ghost ws = warnings@;
    let mut text: Vec<char> = Vec::new();
    let mut plot: Option<String> = None;
    let mut dataframe: Option<String> = None;
    let mut exports: Vec<DataExport> = Vec::new();
    let mut plot_count: usize = 0;
    let mut dataframe_count: usize = 0;
    let mut warnings = warnings;
    let mut i: usize = 0;
    while i < results.len()
        invariant
            i <= results@.len(),
            rs == results@,
            warnings@ == ws,
            plot_count <= i,
            dataframe_count <= i,
            ({
                let c = collect(rs, i as int);
                &&& text@ == c.text
                &&& (match plot {
                    Some(p) => c.plot == Some(p@),
                    None => c.plot is None,
                })
                &&& (match dataframe {
                    Some(d) => c.dataframe == Some(d@),
                    None => c.dataframe is None,
                })
                &&& exports@.map_values(|e: DataExport| (e.name@, e.path@)) == c.exports
                &&& plot_count == c.plot_count
                &&& dataframe_count == c.dataframe_count
            }),
        decreases results.len() - i,
    {
        let ghost before = exports@.map_values(|e: DataExport| (e.name@, e.path@));
        match &results[i] {
            OutputMetadata::DataExport { name, path } => {
                exports.push(DataExport { name: copy(name), path: copy(path) });
                assert(exports@.map_values(|e: DataExport| (e.name@, e.path@)) =~= before.push(
                    (name@, path@),
                ));
            },
            OutputMetadata::Text { content } => {
                if text.len() > 0 {
                    push_str(&mut text, "\n");
                }
                push_str(&mut text, content.as_str());
            },
            OutputMetadata::Plot { path, format: _ } => {
                plot_count = plot_count + 1;
                plot = Some(copy(path));
            },
            OutputMetadata::DataFrame { path } => {
                dataframe_count = dataframe_count + 1;
                dataframe = Some(copy(path));
            },
        }
        i = i + 1;
    }
    let ghost c = collect(rs, rs.len() as int);
    let stdout_v = chars_of(stdout_text);
    let stdout_trim = trimmed(&stdout_v);
    if text.len() == 0 && stdout_trim.len() > 0 {
        text = stdout_v;
    }
    assert(text@ == final_text(c, stdout_text@));
    if plot_count > 1 {
        let mut m: Vec<char> = Vec::new();
        push_str(&mut m, "This chunk produced ");
        push_decimal(&mut m, plot_count as u64);
        push_str(&mut m, " plots; only the last one is shown. Put each plot in its own chunk.");
        push_warning(&mut warnings, string_of(&m));
    }
    let ghost w1 = warnings@;
    if dataframe_count > 1 {
        let mut m: Vec<char> = Vec::new();
        push_str(&mut m, "This chunk produced ");
        push_decimal(&mut m, dataframe_count as u64);
        push_str(&mut m, " tables; only the last one is shown. Put each table in its own chunk.");
        push_warning(&mut warnings, string_of(&m));
    }
    let ghost w2 = warnings@;
    let text_trim = trimmed(&text);
    if dataframe.is_some() && text_trim.len() > 0 {
        let m = chars_of(
            "Printed output is not shown because this chunk also produced a table. Print it in a separate chunk.",
        );
        push_warning(&mut warnings, string_of(&m));
    }
    proof {
        let extra = dropped_messages(c, stdout_text@);
        assert(warnings@.len() == ws.len() + extra.len());
        assert forall|k: int| 0 <= k < extra.len() implies {
            let w = #[trigger] warnings@[ws.len() + k];
            &&& w.message@ == extra[k]
            &&& w.call is None
            &&& w.line is None
        } by {
            let a = if c.plot_count > 1 { 1int } else { 0int };
            let b = if c.dataframe_count > 1 { 1int } else { 0int };
            if k < a {
                assert(w1[ws.len() + k] == warnings@[ws.len() + k]);
            } else if k < a + b {
                assert(w2[ws.len() + k] == warnings@[ws.len() + k]);
            }
        }
    }
    let text_s = string_of(&text);
    let result = match (dataframe, plot) {
        (Some(df), Some(p)) => ExecutionResult::DataFrameAndPlot { dataframe: df, plot: p },
        (Some(df), None) => ExecutionResult::DataFrame(df),
        (None, Some(p)) => {
            if text.len() > 0 {
                ExecutionResult::TextAndPlot { text: text_s, plot: p }
            } else {
                ExecutionResult::Plot(p)
            }
        },
        (None, None) => ExecutionResult::Text(text_s),
    };
    Ok(ExecutionOutput { result, exports, warnings })
}

/// The error of a chunk, its traceback without the first `skip` frames when
/// it has at least that many (the frames of the interpreter's wrapper).
pub open spec fn trimmed_traceback(tb: Seq<String>, skip: nat) -> Seq<String> {
    if skip > 0 && tb.len() >= skip {
        tb.skip(skip as int)
    } else {
        tb
    }
}

/// Interprets what an interpreter reported about a chunk: a structured error
/// (its first `traceback_skip` frames dropped, when there are that many) is a
/// runtime error; otherwise the metadata becomes the chunk's output.
pub fn process_execution_output(
    code: &str,
    metadata: KnotMetadata,
    stdout: &str,
    stderr: &str,
    traceback_skip: usize,
) -> (r: Result<ExecutionAttempt, ExecError>)
    ensures
        metadata.error matches Some(e) ==> (r matches Ok(ExecutionAttempt::RuntimeError(out)) && {
            &&& out.message == e.message
            &&& out.call == e.call
            &&& out.line == e.line
            &&& out.traceback@ == trimmed_traceback(e.traceback@, traceback_skip as nat)
        }),
        metadata.error is None ==> (r matches Ok(ExecutionAttempt::Success(out)) && {
            let c = collect(metadata.results@, metadata.results@.len() as int);
            let extra = dropped_messages(c, stdout@);
            &&& result_view(out.result) == shown_result(c, stdout@)
            &&& out.exports@.map_values(|e: DataExport| (e.name@, e.path@)) == c.exports
            &&& out.warnings@.len() == metadata.warnings@.len() + extra.len()
            &&& forall|k: int|
                0 <= k < metadata.warnings@.len() ==> out.warnings@[k] == metadata.warnings@[k]
            &&& forall|k: int|
                0 <= k < extra.len() ==> {
                    let w = #[trigger] out.warnings@[metadata.warnings@.len() + k];
                    &&& w.message@ == extra[k]
                    &&& w.call is None
                    &&& w.line is None
                }
        }),
{
    let KnotMetadata { results, warnings, error } = metadata;
    match error {
        Some(e) => {
            let RuntimeError { message, call, line, traceback } = e;
            let mut tb = traceback;
            if traceback_skip > 0 && tb.len() >= traceback_skip {
                let mut kept: Vec<String> = Vec::new();
                let mut k = traceback_skip;
                while k < tb.len()
                    invariant
                        traceback_skip <= k <= tb@.len(),
                        kept@ == tb@.subrange(traceback_skip as int, k as int),
                    decreases tb.len() - k,
                {
                    kept.push(tb[k].clone());
                    k = k + 1;
                }
                assert(kept@ == tb@.skip(traceback_skip as int));
                tb = kept;
            }
            Ok(ExecutionAttempt::RuntimeError(RuntimeError { message, call, line, traceback: tb }))
        },
        None => {
            let m = KnotMetadata { results, warnings, error: None };
            match metadata_to_execution_result(m, stdout) {
                Ok(out) => Ok(ExecutionAttempt::Success(out)),
                Err(e) => Err(e),
            }
        },
    }
}

/// What reading an interpreter's stream has collected once the line `line`
/// is read (`line` is empty at the end of the stream), and whether reading
/// stops there: at the end of the stream, or at the line holding the
/// boundary marker, of which only the text before the marker is kept.
pub open spec fn absorbed(collected: Seq<char>, line: Seq<char>, boundary: Seq<char>) -> (
    Seq<char>,
    bool,
) {
    if line.len() == 0 {
        (collected, true)
    } else {
        match find(line, boundary) {
            Some(k) => (collected + line.take(k), true),
            None => (collected + line, false),
        }
    }
}

/// Takes the line `line` read from an interpreter's stream (empty at the
/// end of the stream) into `collected`; whether reading stops.
pub fn absorb_line(collected: &mut Vec<char>, line: &str, boundary: &str) -> (done: bool)
    ensures
        (final(collected)@, done) == absorbed(old(collected)@, line@, boundary@),
{
    let l = chars_of(line);
    if l.len() == 0 {
        return true;
    }
    let b = chars_of(boundary);
    match find_at(&l, &b, 0) {
        Some(k) => {
            proof {
                lemma_find_from_bound(l@, b@, 0);
            }
            let before = slice(&l, 0, k);
            crate::text::extend(collected, &before);
            true
        },
        None => {
            crate::text::extend(collected, &l);
            false
        },
    }
}

} // verus!
