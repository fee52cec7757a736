//! The stages of compilation (plan, execute, assemble) and the assembly of
//! the generated Typst document.
//!
//! Assembly interleaves the rendered nodes with the verbatim source text
//! between them; every rendered chunk is framed by `#KNOT-SYNC` markers that
//! navigation reads back.
use crate::ast::{
    resolved_view, Chunk, ChunkError, ChunkOptions, InlineExpr, ResolvedChunkOptions, Severity,
};
use crate::backend::{
    chunk_typst, error_messages, failed_chunk_typst, render_chunk, Backend, TypstBackend,
};
use crate::executors::{
    error_summary, result_view, ExecutionAttempt, ExecutionOutput, ExecutionResult, ResultV,
};
use crate::text::{
    byte_offsets, char_index, chars_of, decimal, enc_len, extend, is_boundary, push_decimal,
    push_str, slice, string_of,
};
use crate::typst_syntax::{
    inline_raw, inline_raw_of, inline_text, inline_text_of, string_literal, string_literal_of,
};
use vstd::prelude::*;
use vstd::utf8::encode_utf8;

verus! {

/// Execution state in which a chunk is rendered.
#[derive(Debug, Clone, Copy, PartialEq, Eq, Structural)]
pub enum ChunkExecutionState {
    /// Cache valid or execution succeeded: full output available.
    Ready,
    /// Follows an upstream error: rendered as code, not executed.
    Inert,
    /// Compilation in progress.
    Pending,
    /// First chunk to execute in a language chain: the chunk the user edited.
    Modified,
    /// A later chunk to execute in the same chain, invalidated by the edit.
    ModifiedCascade,
}

/// How chunks that must be executed are shown before execution.
#[derive(Debug, Clone, Copy, PartialEq, Eq, Structural)]
pub enum Phase0Mode {
    /// A full compilation is running: every such chunk is pending.
    Pending,
    /// The source was edited without compiling: the first such chunk of each
    /// language is modified, the following ones are modified by cascade.
    Modified,
}

/// A node after execution: its Typst output is fully determined.
#[derive(Clone)]
pub struct ExecutedNode {
    /// Language of the node (`r`, `python`).
    pub lang: String,
    /// Execution identity of the node.
    pub hash: String,
    /// Byte offset where the node begins in the source.
    pub source_start: usize,
    /// Byte offset where the node ends in the source.
    pub source_end: usize,
    /// Typst content that replaces the node.
    pub typst_content: String,
    /// `true` for code chunks, `false` for inline expressions.
    pub is_chunk: bool,
    /// 1-based source line of a chunk, for its `#KNOT-SYNC` marker.
    pub source_line: u32,
    /// Whether the node failed (the rest of its language chain is inert).
    pub errored: bool,
}

// ---------------------------------------------------------------------------
// Assembly
// ---------------------------------------------------------------------------

/// Opening marker of a rendered chunk.
pub open spec fn sync_open(file: Seq<char>, line: nat) -> Seq<char> {
    "// #KNOT-SYNC source="@ + file + " line="@ + decimal(line) + "\n"@
}

/// A rendered chunk between its markers; a line break is added before the
/// closing marker unless the content is empty or already ends with one.
pub open spec fn chunk_text(content: Seq<char>, file: Seq<char>, line: nat) -> Seq<char> {
    sync_open(file, line) + content + (if content.len() > 0 && content.last() != '\n' {
        "\n"@
    } else {
        Seq::empty()
    }) + "// END-KNOT-SYNC\n"@
}

/// What assembly reads of a node: where it is in the source, whether it is
/// a chunk, its content and its line.
pub struct NodeV {
    pub start: int,
    pub end: int,
    pub is_chunk: bool,
    pub content: Seq<char>,
    pub line: nat,
}

/// What assembly reads of an executed node.
pub open spec fn node_view(n: ExecutedNode) -> NodeV {
    NodeV {
        start: n.source_start as int,
        end: n.source_end as int,
        is_chunk: n.is_chunk,
        content: n.typst_content@,
        line: n.source_line as nat,
    }
}

/// What assembly reads of executed nodes.
pub open spec fn node_views(nodes: Seq<ExecutedNode>) -> Seq<NodeV> {
    nodes.map_values(|n: ExecutedNode| node_view(n))
}

/// Text that replaces a node: a framed chunk, or an inline result verbatim.
pub open spec fn node_text(n: NodeV, file: Seq<char>) -> Seq<char> {
    if n.is_chunk {
        chunk_text(n.content, file, n.line)
    } else {
        n.content
    }
}

/// Output so far, byte offset of the source consumed so far, and whether
/// every slice taken so far was on character boundaries.
pub struct AsmState {
    pub out: Seq<char>,
    pub last: int,
    pub ok: bool,
}

/// The effect of one node on the assembly.
pub open spec fn asm_step(st: AsmState, n: NodeV, src: Seq<char>, file: Seq<char>) -> AsmState {
    let bytes = encode_utf8(src);
    if !st.ok {
        st
    } else if n.start > st.last && !(is_boundary(src, st.last) && is_boundary(
        src,
        n.start,
    )) {
        AsmState { ok: false, ..st }
    } else {
        let out1 = if n.start > st.last {
            st.out + src.subrange(char_index(src, st.last), char_index(src, n.start))
        } else {
            st.out
        };
        let last = n.end;
        AsmState {
            out: out1 + node_text(n, file),
            last: if n.is_chunk && last < bytes.len() && bytes[last] == 10 {
                last + 1
            } else {
                last
            },
            ok: true,
        }
    }
}

/// State after the first `k` nodes.
pub open spec fn asm_run(nodes: Seq<NodeV>, k: int, src: Seq<char>, file: Seq<char>) -> AsmState
    decreases k,
{
    if k <= 0 {
        AsmState { out: Seq::empty(), last: 0, ok: true }
    } else {
        asm_step(asm_run(nodes, k - 1, src, file), nodes[k - 1], src, file)
    }
}

/// The generated document: the source with each node replaced by its text;
/// the line break after a chunk's closing fence is consumed. `None` when a
/// verbatim piece would not start or end between two characters.
pub open spec fn assembled(nodes: Seq<NodeV>, src: Seq<char>, file: Seq<char>) -> Option<
    Seq<char>,
> {
    let st = asm_run(nodes, nodes.len() as int, src, file);
    if !st.ok {
        None
    } else if st.last < enc_len(src) {
        if is_boundary(src, st.last) {
            Some(st.out + src.subrange(char_index(src, st.last), src.len() as int))
        } else {
            None
        }
    } else {
        Some(st.out)
    }
}

/// Index `k` with `off[k] == b`, if any.
fn index_of_offset(off: &Vec<usize>, b: usize) -> (r: Option<usize>)
    ensures
        r matches Some(k) ==> k < off@.len() && off@[k as int] == b,
        r is None ==> forall|k: int| 0 <= k < off@.len() ==> off@[k] != b,
{
    let mut k: usize = 0;
    while k < off.len()
        invariant
            k <= off@.len(),
            forall|j: int| 0 <= j < k ==> off@[j] != b,
        decreases off.len() - k,
    {
        if off[k] == b {
            return Some(k);
        }
        k = k + 1;
    }
    None
}

/// Appends the text of `node` to `out`.
fn push_node(out: &mut Vec<char>, node: &ExecutedNode, source_file: &str)
    ensures
        final(out)@ == old(out)@ + node_text(node_view(*node), source_file@),
{
    if node.is_chunk {
        push_str(out, "// #KNOT-SYNC source=");
        push_str(out, source_file);
        push_str(out, " line=");
        push_decimal(out, node.source_line as u64);
        push_str(out, "\n");
        let content = chars_of(node.typst_content.as_str());
        extend(out, &content);
        if content.len() > 0 && content[content.len() - 1] != '\n' {
            push_str(out, "\n");
        } else {
            assert(out@ == out@ + Seq::<char>::empty());
        }
        push_str(out, "// END-KNOT-SYNC\n");
    } else {
        push_str(out, node.typst_content.as_str());
    }
}

/// Interleaves the rendered nodes with the verbatim source text between
/// them. Chunks are framed by `#KNOT-SYNC` markers naming `source_file` and
/// their line; the line break after a chunk's closing fence is consumed.
pub fn assemble_pass(executed: &[ExecutedNode], source: &str, source_file: &str) -> (r: String)
    requires
        assembled(node_views(executed@), source@, source_file@) is Some,
    ensures
        assembled(node_views(executed@), source@, source_file@) == Some(r@),
{
    match try_assemble(executed, source, source_file) {
        Some(r) => r,
        None => String::new(),
    }
}

/// The assembled document (see `assemble_pass`), or `None` when a verbatim
/// piece of the source would not start or end between two characters.
pub fn try_assemble(executed: &[ExecutedNode], source: &str, source_file: &str) -> (r: Option<
    String,
>)
    ensures
        match assembled(node_views(executed@), source@, source_file@) {
            Some(t) => r matches Some(s) && s@ == t,
            None => r is None,
        },
{
    let (cs, off) = byte_offsets(source);
    let bytes = source.as_bytes();
    assert(bytes@ == encode_utf8(source@));
    let ghost src = source@;
    let ghost file = source_file@;
    let mut out: Vec<char> = Vec::new();
    let mut last: usize = 0;
    let mut i: usize = 0;
    while i < executed.len()
        invariant
            i <= executed@.len(),
            cs@ == src,
            src == source@,
            file == source_file@,
            bytes@ == encode_utf8(src),
            off@.len() == src.len() + 1,
            forall|k: int| 0 <= k <= src.len() ==> #[trigger] off@[k] == enc_len(src.take(k)),
            asm_run(node_views(executed@), i as int, src, file) == (AsmState {
                out: out@,
                last: last as int,
                ok: true,
            }),
        decreases executed.len() - i,
    {
        let node = &executed[i];
        proof {
            assert(node_views(executed@)[i as int] == node_view(*node));
        }
        if node.source_start > last {
            let a = index_of_offset(&off, last);
            let b = index_of_offset(&off, node.source_start);
            match (a, b) {
                (Some(a), Some(b)) => {
                    proof {
                        crate::text::lemma_char_index(src, a as int);
                        crate::text::lemma_char_index(src, b as int);
                    }
                    if a <= b {
                        let piece = slice(&cs, a, b);
                        extend(&mut out, &piece);
                    } else {
                        proof {
                            crate::text::lemma_enc_len_mono(src, b as int, a as int);
                        }
                    }
                },
                (None, _) => {
                    proof {
                        lemma_not_boundary(src, off@, last as int);
                        lemma_asm_fail_persists(node_views(executed@), i as int + 1, src, file);
                    }
                    return None;
                },
                (_, None) => {
                    proof {
                        lemma_not_boundary(src, off@, node.source_start as int);
                        lemma_asm_fail_persists(node_views(executed@), i as int + 1, src, file);
                    }
                    return None;
                },
            }
        }
        push_node(&mut out, node, source_file);
        last = node.source_end;
        if node.is_chunk && last < bytes.len() && bytes[last] == 10u8 {
            last = last + 1;
        }
        i = i + 1;
    }
    if last < bytes.len() {
        match index_of_offset(&off, last) {
            Some(a) => {
                proof {
                    crate::text::lemma_char_index(src, a as int);
                }
                let rest = slice(&cs, a, cs.len());
                extend(&mut out, &rest);
            },
            None => {
                proof {
                    lemma_not_boundary(src, off@, last as int);
                }
                return None;
            },
        }
    }
    Some(string_of(&out))
}

/// A failed step is never recovered.
proof fn lemma_asm_fail_persists(nodes: Seq<NodeV>, k: int, src: Seq<char>, file: Seq<char>)
    requires
        0 <= k <= nodes.len(),
        !asm_run(nodes, k, src, file).ok,
    ensures
        assembled(nodes, src, file) is None,
    decreases nodes.len() - k,
{
    if k < nodes.len() {
        lemma_asm_fail_persists(nodes, k + 1, src, file);
    }
}

/// An offset found at no character index is no boundary.
proof fn lemma_not_boundary(src: Seq<char>, off: Seq<usize>, x: int)
    requires
        off.len() == src.len() + 1,
        forall|k: int| 0 <= k <= src.len() ==> #[trigger] off[k] == enc_len(src.take(k)),
        forall|k: int| 0 <= k < off.len() ==> off[k] != x,
    ensures
        !is_boundary(src, x),
{
    if is_boundary(src, x) {
        let k = choose|k: int| 0 <= k <= src.len() && enc_len(src.take(k)) == x;
        assert(off[k] == x);
    }
}

// ---------------------------------------------------------------------------
// Planning
// ---------------------------------------------------------------------------

/// A node of a document that can be executed.
pub enum ExecutableNode {
    /// A fenced code chunk.
    Chunk(Box<Chunk>),
    /// An inline expression.
    InlineExpr(InlineExpr),
}

/// What the execution pass must do with a node.
pub enum ExecutionNeed {
    /// A chunk found in the cache, with its result.
    CacheHit(ExecutionAttempt),
    /// An inline expression found in the cache, with its text.
    CacheHitInline(String),
    /// Not in the cache: the node must be executed.
    MustExecute,
    /// Not evaluated (`eval: false`).
    Skip,
}

/// What planning resolved for a chunk.
pub struct ChunkPlanData {
    /// Options with the configuration and every default applied.
    pub resolved_options: ResolvedChunkOptions,
    /// Options of the chunk with the configuration applied, before defaults.
    pub chunk_options: ChunkOptions,
    /// Codly options of the configuration overridden by those of the chunk.
    pub merged_codly_options: Vec<(String, String)>,
    /// Label of the chunk, or `chunk-<index>`.
    pub name: String,
}

/// The kind of a planned node.
pub enum PlannedNodeKind {
    /// A fenced code chunk.
    Chunk { node: Box<Chunk>, data: Box<ChunkPlanData> },
    /// An inline expression.
    Inline { node: InlineExpr },
}

/// A node after planning: identity computed, cache consulted, nothing run.
pub struct PlannedNode {
    /// Chunk or inline expression.
    pub kind: PlannedNodeKind,
    /// Language of the node.
    pub lang: String,
    /// Execution identity of the node.
    pub hash: String,
    /// Identity of the node before it in the same language, or empty.
    pub previous_hash: String,
    /// Byte offset where the node begins in the source.
    pub source_start: usize,
    /// Byte offset where the node ends in the source.
    pub source_end: usize,
    /// What the execution pass must do.
    pub need: ExecutionNeed,
    /// Size of snapshots above which a warning is shown, if any.
    pub snapshot_warning_threshold: Option<u64>,
}

// ---------------------------------------------------------------------------
// Rendering of single nodes
// ---------------------------------------------------------------------------

/// Whether a chunk is shown as being edited.
pub open spec fn editing(state: ChunkExecutionState) -> bool {
    state is Modified || state is ModifiedCascade
}

/// The diagnostics of `errors` that are warnings, in order.
pub open spec fn warnings_only(errors: Seq<ChunkError>) -> Seq<ChunkError>
    decreases errors.len(),
{
    if errors.len() == 0 {
        errors
    } else if errors.last().severity == Severity::Warning {
        warnings_only(errors.drop_last()).push(errors.last())
    } else {
        warnings_only(errors.drop_last())
    }
}

/// Messages of the diagnostics shown for a chunk in a state: a chunk being
/// edited shows no errors (its text is incomplete while it is typed).
pub open spec fn shown_messages(errors: Seq<ChunkError>, state: ChunkExecutionState) -> Seq<
    Seq<char>,
> {
    if editing(state) {
        error_messages(warnings_only(errors))
    } else {
        error_messages(errors)
    }
}

/// An empty text result.
pub open spec fn empty_result() -> ResultV {
    ResultV::Text(Seq::empty())
}

/// A node rendered with no output in a state: a chunk with its code, an
/// inline expression as nothing.
pub open spec fn skip_text(kind: PlannedNodeKind, state: ChunkExecutionState) -> Seq<char> {
    match kind {
        PlannedNodeKind::Chunk { node, data } => chunk_typst(
            *node,
            shown_messages(node.errors@, state),
            data.merged_codly_options@,
            resolved_view(data.resolved_options),
            empty_result(),
            Seq::empty(),
            state,
        ),
        PlannedNodeKind::Inline { node: _ } => Seq::empty(),
    }
}

/// A node rendered with its output: a chunk in full, an inline expression
/// as its text (nothing unless the result is text).
pub open spec fn executed_text(
    kind: PlannedNodeKind,
    output: ExecutionOutput,
    state: ChunkExecutionState,
) -> Seq<char> {
    match kind {
        PlannedNodeKind::Chunk { node, data } => chunk_typst(
            *node,
            error_messages(node.errors@),
            data.merged_codly_options@,
            resolved_view(data.resolved_options),
            result_view(output.result),
            output.warnings@,
            state,
        ),
        PlannedNodeKind::Inline { node: _ } => match output.result {
            ExecutionResult::Text(t) => t@,
            _ => Seq::empty(),
        },
    }
}

/// The content that reports a failed execution.
pub open spec fn error_content(
    node_kind: Seq<char>,
    node_name: Seq<char>,
    lang: Seq<char>,
    message: Seq<char>,
) -> Seq<char> {
    "[\n=== Execution Error ("@ + inline_text(lang) + ")\nIn "@ + node_kind + " "@ + inline_raw(
        node_name,
    ) + "\n\n"@ + "#block(raw("@ + string_literal(message) + ", block: false))"@
        + "\n\n_Execution of subsequent "@ + inline_raw(lang)
        + " blocks has been suspended._]"@
}

/// Name of a chunk in an error report.
pub open spec fn chunk_report_name(c: Chunk) -> Seq<char> {
    match c.name {
        Some(n) => n@,
        None => "unnamed"@,
    }
}

/// A node whose execution failed: a chunk is shown as written with the
/// error after its diagnostics; an inline expression becomes a chunk that
/// holds only the error.
pub open spec fn error_block_text(kind: PlannedNodeKind, lang: Seq<char>, message: Seq<char>) -> Seq<
    char,
> {
    match kind {
        PlannedNodeKind::Chunk { node, data } => failed_chunk_typst(
            *node,
            data.merged_codly_options@,
            resolved_view(data.resolved_options),
            error_content("chunk"@, chunk_report_name(*node), lang, message),
        ) + "\n"@,
        PlannedNodeKind::Inline { node: _ } => "#code-chunk(lang: "@ + string_literal(lang)
            + ", errors: ("@ + error_content("inline expression"@, "inline"@, lang, message)
            + ",))\n"@,
    }
}

/// Copies of the diagnostics of `errors` that are warnings.
fn warnings_of(errors: &Vec<ChunkError>) -> (r: Vec<ChunkError>)
    ensures
        error_messages(r@) == error_messages(warnings_only(errors@)),
{
    let mut r: Vec<ChunkError> = Vec::new();
    let mut i: usize = 0;
    while i < errors.len()
        invariant
            i <= errors.len(),
            error_messages(r@) == error_messages(warnings_only(errors@.take(i as int))),
        decreases errors.len() - i,
    {
        let e = &errors[i];
        proof {
            let t = errors@.take(i + 1);
            assert(t.drop_last() =~= errors@.take(i as int));
            assert(t.last() == *e);
        }
        if !e.is_error() {
            let ghost before = r@;
            r.push(ChunkError { message: e.message.clone(), line: e.line, severity: e.severity });
            assert(error_messages(r@) =~= error_messages(before).push(e.message@));
            assert(error_messages(warnings_only(errors@.take(i + 1))) =~= error_messages(
                warnings_only(errors@.take(i as int)),
            ).push(e.message@));
        }
        i = i + 1;
    }
    assert(errors@.take(errors.len() as int) =~= errors@);
    r
}

/// An output with no result.
fn empty_output() -> (r: ExecutionOutput)
    ensures
        result_view(r.result) == empty_result(),
        r.warnings@.len() == 0,
        r.exports@.len() == 0,
{
    let r = ExecutionOutput {
        result: ExecutionResult::Text(String::new()),
        exports: Vec::new(),
        warnings: Vec::new(),
    };
    assert(result_view(r.result) =~= empty_result());
    r
}

/// A node rendered with no output in the given state.
pub fn skip_output(pn: &PlannedNode, backend: &TypstBackend, state: &ChunkExecutionState) -> (r:
    String)
    ensures
        r@ == skip_text(pn.kind, *state),
{
    match &pn.kind {
        PlannedNodeKind::Chunk { node, data } => {
            let empty = empty_output();
            assert(empty.warnings@ =~= Seq::empty());
            match state {
                ChunkExecutionState::Modified | ChunkExecutionState::ModifiedCascade => {
                    let errors = warnings_of(&node.errors);
                    render_chunk(
                        node,
                        &errors,
                        &data.merged_codly_options,
                        &data.resolved_options,
                        &empty,
                        state,
                    )
                },
                _ => render_chunk(
                    node,
                    &node.errors,
                    &data.merged_codly_options,
                    &data.resolved_options,
                    &empty,
                    state,
                ),
            }
        },
        PlannedNodeKind::Inline { node: _ } => String::new(),
    }
}

/// A node rendered with its output.
pub fn format_executed_node(
    pn: &PlannedNode,
    output: &ExecutionOutput,
    backend: &TypstBackend,
    state: &ChunkExecutionState,
) -> (r: String)
    ensures
        r@ == executed_text(pn.kind, *output, *state),
{
    match &pn.kind {
        PlannedNodeKind::Chunk { node, data } => backend.format_chunk(
            node,
            &data.merged_codly_options,
            &data.resolved_options,
            output,
            state,
        ),
        PlannedNodeKind::Inline { node: _ } => match &output.result {
            ExecutionResult::Text(s) => s.clone(),
            _ => String::new(),
        },
    }
}

/// The content that reports a failed execution.
fn error_content_of(node_kind: &str, node_name: &str, lang: &str, message: &str) -> (r: Vec<char>)
    ensures
        r@ == error_content(node_kind@, node_name@, lang@, message@),
{
    let mut r = chars_of("[\n=== Execution Error (");
    extend(&mut r, &inline_text_of(lang));
    push_str(&mut r, ")\nIn ");
    push_str(&mut r, node_kind);
    push_str(&mut r, " ");
    extend(&mut r, &inline_raw_of(node_name));
    push_str(&mut r, "\n\n");
    push_str(&mut r, "#block(raw(");
    extend(&mut r, &string_literal_of(message));
    push_str(&mut r, ", block: false))");
    push_str(&mut r, "\n\n_Execution of subsequent ");
    extend(&mut r, &inline_raw_of(lang));
    push_str(&mut r, " blocks has been suspended._]");
    r
}

/// The Typst shown for a node whose execution failed with `error_msg`.
pub fn format_error_block_for_node(kind: &PlannedNodeKind, lang: &str, error_msg: &str) -> (r:
    String)
    ensures
        r@ == error_block_text(*kind, lang@, error_msg@),
{
    match kind {
        PlannedNodeKind::Chunk { node, data } => {
            let name: &str = match &node.name {
                Some(n) => n.as_str(),
                None => "unnamed",
            };
            let error = error_content_of("chunk", name, lang, error_msg);
            let e = string_of(&error);
            let backend = TypstBackend::new();
            let failed = backend.format_failed_chunk(
                node,
                &data.merged_codly_options,
                &data.resolved_options,
                e.as_str(),
            );
            let mut r = chars_of(failed.as_str());
            push_str(&mut r, "\n");
            string_of(&r)
        },
        PlannedNodeKind::Inline { node: _ } => {
            let mut r = chars_of("#code-chunk(lang: ");
            extend(&mut r, &string_literal_of(lang));
            push_str(&mut r, ", errors: (");
            extend(&mut r, &error_content_of("inline expression", "inline", lang, error_msg));
            push_str(&mut r, ",))\n");
            string_of(&r)
        },
    }
}

// ---------------------------------------------------------------------------
// Rendering before execution
// ---------------------------------------------------------------------------

/// Languages whose chain holds a cached error, and languages whose first
/// node to execute was seen (when showing modifications).
pub struct PartialState {
    pub inert: Set<Seq<char>>,
    pub modified: Set<Seq<char>>,
}

/// State before any node.
pub open spec fn partial_start() -> PartialState {
    PartialState { inert: Set::empty(), modified: Set::empty() }
}

/// How a planned node is shown before execution, and the state after it:
/// skipped and cached nodes with their content (a cached error marks its
/// language inert), nodes to execute as inert after a cached error of their
/// language, else pending, or modified for the first of their language and
/// modified by cascade for the following ones. A node that is not executed
/// ends the run of modified nodes of its language.
pub open spec fn partial_step(st: PartialState, pn: PlannedNode, mode: Phase0Mode) -> (
    PartialState,
    Seq<char>,
    bool,
) {
    let l = pn.lang@;
    match pn.need {
        ExecutionNeed::Skip => (
            PartialState { modified: st.modified.remove(l), ..st },
            skip_text(pn.kind, ChunkExecutionState::Ready),
            false,
        ),
        ExecutionNeed::CacheHit(ExecutionAttempt::Success(out)) => (
            PartialState { modified: st.modified.remove(l), ..st },
            executed_text(pn.kind, out, ChunkExecutionState::Ready),
            false,
        ),
        ExecutionNeed::CacheHit(ExecutionAttempt::RuntimeError(e)) => (
            PartialState { inert: st.inert.insert(l), modified: st.modified.remove(l) },
            error_block_text(pn.kind, l, error_summary(e)),
            true,
        ),
        ExecutionNeed::CacheHitInline(t) => (
            PartialState { modified: st.modified.remove(l), ..st },
            t@,
            false,
        ),
        ExecutionNeed::MustExecute => if st.inert.contains(l) {
            (st, skip_text(pn.kind, ChunkExecutionState::Inert), false)
        } else {
            match mode {
                Phase0Mode::Pending => (st, skip_text(pn.kind, ChunkExecutionState::Pending), false),
                Phase0Mode::Modified => if st.modified.contains(l) {
                    (st, skip_text(pn.kind, ChunkExecutionState::ModifiedCascade), false)
                } else {
                    (
                        PartialState { modified: st.modified.insert(l), ..st },
                        skip_text(pn.kind, ChunkExecutionState::Modified),
                        false,
                    )
                }
            }
        },
    }
}

/// State before node `i`.
pub open spec fn partial_state(planned: Seq<PlannedNode>, i: int, mode: Phase0Mode) -> PartialState
    decreases i,
{
    if i <= 0 {
        partial_start()
    } else {
        partial_step(partial_state(planned, i - 1, mode), planned[i - 1], mode).0
    }
}

/// Line of a chunk for its marker (1-based, as a 32-bit number); 0 for an
/// inline expression.
pub open spec fn source_line_of(kind: PlannedNodeKind) -> u32 {
    match kind {
        PlannedNodeKind::Chunk { node, data: _ } => ((node.start_line + 1) % 0x1_0000_0000) as u32,
        PlannedNodeKind::Inline { node: _ } => 0,
    }
}

/// Node `i` as shown before execution.
pub open spec fn partial_view(planned: Seq<PlannedNode>, i: int, mode: Phase0Mode) -> NodeV {
    let pn = planned[i];
    NodeV {
        start: pn.source_start as int,
        end: pn.source_end as int,
        is_chunk: pn.kind is Chunk,
        content: partial_step(partial_state(planned, i, mode), pn, mode).1,
        line: source_line_of(pn.kind) as nat,
    }
}

/// All nodes as shown before execution.
pub open spec fn partial_views(planned: Seq<PlannedNode>, mode: Phase0Mode) -> Seq<NodeV> {
    Seq::new(planned.len(), |i: int| partial_view(planned, i, mode))
}

/// The characters of each string.
pub open spec fn texts(v: Seq<String>) -> Seq<Seq<char>> {
    v.map_values(|t: String| t@)
}

/// Whether `s` is one of the strings `v`.
pub open spec fn has_text(v: Seq<String>, s: Seq<char>) -> bool {
    texts(v).contains(s)
}

/// Whether `x` is one of the strings `v`.
pub(crate) fn contains_text(v: &Vec<String>, x: &str) -> (r: bool)
    ensures
        r == has_text(v@, x@),
{
    let xs = chars_of(x);
    let ghost vs = texts(v@);
    let mut i: usize = 0;
    while i < v.len()
        invariant
            i <= v.len(),
            vs == texts(v@),
            xs@ == x@,
            forall|j: int| 0 <= j < i ==> vs[j] != x@,
        decreases v.len() - i,
    {
        let c = chars_of(v[i].as_str());
        if crate::text::same_chars(&c, &xs) {
            assert(vs[i as int] == x@);
            return true;
        }
        i = i + 1;
    }
    false
}

/// Whether `s` is among the first `n` strings of `v`.
pub open spec fn has_text_before(v: Seq<String>, n: int, s: Seq<char>) -> bool {
    exists|j: int| 0 <= j < n && #[trigger] v[j]@ == s
}

/// `v` without the strings equal to `x`.
fn without_text(v: &Vec<String>, x: &str) -> (r: Vec<String>)
    ensures
        forall|s: Seq<char>| #[trigger] has_text(r@, s) <==> (has_text(v@, s) && s != x@),
{
    let xs = chars_of(x);
    let mut r: Vec<String> = Vec::new();
    let mut i: usize = 0;
    while i < v.len()
        invariant
            i <= v.len(),
            xs@ == x@,
            forall|s: Seq<char>| #[trigger]
                has_text(r@, s) <==> (has_text_before(v@, i as int, s) && s != x@),
        decreases v.len() - i,
    {
        let c = chars_of(v[i].as_str());
        let ghost r0 = r@;
        if !crate::text::same_chars(&c, &xs) {
            r.push(v[i].clone());
            assert(texts(r@) =~= texts(r0).push(v@[i as int]@));
        } else {
            assert(texts(r@) =~= texts(r0));
        }
        proof {
            assert forall|s: Seq<char>| #[trigger]
                has_text(r@, s) <==> (has_text_before(v@, i + 1, s) && s != x@) by {
                assert(has_text(r0, s) <==> (has_text_before(v@, i as int, s) && s != x@));
                if has_text_before(v@, i + 1, s) && s != x@ {
                    let k = choose|k: int| 0 <= k < i + 1 && #[trigger] v@[k]@ == s;
                    if k < i {
                        assert(has_text_before(v@, i as int, s));
                        let m = choose|m: int| 0 <= m < texts(r0).len() && texts(r0)[m] == s;
                        assert(texts(r@)[m] == s);
                    } else {
                        assert(texts(r@)[texts(r@).len() - 1] == s);
                    }
                }
                if has_text(r@, s) {
                    let k = choose|k: int| 0 <= k < texts(r@).len() && texts(r@)[k] == s;
                    if k < texts(r0).len() {
                        assert(texts(r0)[k] == s);
                        assert(has_text(r0, s));
                        let m = choose|m: int| 0 <= m < i && #[trigger] v@[m]@ == s;
                        assert(v@[m]@ == s);
                    } else {
                        assert(v@[i as int]@ == s);
                    }
                }
            }
        }
        i = i + 1;
    }
    proof {
        assert forall|s: Seq<char>| #[trigger]
            has_text(r@, s) <==> (has_text(v@, s) && s != x@) by {
            if has_text(v@, s) {
                let k = choose|k: int| 0 <= k < texts(v@).len() && texts(v@)[k] == s;
                assert(v@[k]@ == s);
            }
            if has_text_before(v@, v.len() as int, s) {
                let k = choose|k: int| 0 <= k < v.len() && #[trigger] v@[k]@ == s;
                assert(texts(v@)[k] == s);
            }
        }
    }
    r
}

/// `v` with the string `x` added.
pub(crate) fn with_text(v: &mut Vec<String>, x: &str)
    ensures
        forall|s: Seq<char>| #[trigger] has_text(final(v)@, s) <==> (has_text(old(v)@, s) || s == x@),
{
    let ghost before = texts(v@);
    let ghost v0 = v@;
    v.push(x.to_string());
    assert(texts(v@) =~= before.push(x@));
    assert forall|s: Seq<char>| #[trigger] has_text(v@, s) <==> (has_text(v0, s) || s == x@) by {
        if has_text(v0, s) {
            let k = choose|k: int| 0 <= k < before.len() && before[k] == s;
            assert(texts(v@)[k] == s);
        }
        if s == x@ {
            assert(texts(v@)[before.len() as int] == s);
        }
        if has_text(v@, s) {
            let k = choose|k: int| 0 <= k < texts(v@).len() && texts(v@)[k] == s;
            if k < before.len() {
                assert(before[k] == s);
            }
        }
    }
}

/// The 1-based line of a chunk as a 32-bit number, and whether the node is
/// a chunk.
pub(crate) fn line_and_kind(kind: &PlannedNodeKind) -> (r: (bool, u32))
    ensures
        r.0 == (kind is Chunk),
        r.1 == source_line_of(*kind),
{
    match kind {
        PlannedNodeKind::Chunk { node, data: _ } => {
            let l = ((node.start_line as u128 + 1) % 0x1_0000_0000) as u32;
            (true, l)
        },
        PlannedNodeKind::Inline { node: _ } => (false, 0),
    }
}

/// The nodes as shown before any code runs (see `partial_step`): each keeps
/// its language, identity and place in the source.
pub fn planned_to_partial_nodes(
    planned: &[PlannedNode],
    backend: &TypstBackend,
    mode: Phase0Mode,
) -> (r: Vec<ExecutedNode>)
    ensures
        r@.len() == planned@.len(),
        forall|i: int|
            0 <= i < planned@.len() ==> {
                let n = #[trigger] r@[i];
                let pn = planned@[i];
                let step = partial_step(partial_state(planned@, i, mode), pn, mode);
                &&& n.lang@ == pn.lang@
                &&& n.hash@ == pn.hash@
                &&& n.source_start == pn.source_start
                &&& n.source_end == pn.source_end
                &&& n.typst_content@ == step.1
                &&& n.is_chunk == (pn.kind is Chunk)
                &&& n.source_line == source_line_of(pn.kind)
                &&& n.errored == step.2
            },
        node_views(r@) == partial_views(planned@, mode),
{
    let mut inert: Vec<String> = Vec::new();
    let mut modified: Vec<String> = Vec::new();
    let mut result: Vec<ExecutedNode> = Vec::new();
    let mut i: usize = 0;
    while i < planned.len()
        invariant
            i <= planned@.len(),
            result@.len() == i,
            forall|s: Seq<char>| #[trigger]
                has_text(inert@, s) <==> partial_state(planned@, i as int, mode).inert.contains(s),
            forall|s: Seq<char>| #[trigger]
                has_text(modified@, s) <==> partial_state(
                    planned@,
                    i as int,
                    mode,
                ).modified.contains(s),
            forall|k: int|
                0 <= k < i ==> {
                    let n = #[trigger] result@[k];
                    let pn = planned@[k];
                    let step = partial_step(partial_state(planned@, k, mode), pn, mode);
                    &&& n.lang@ == pn.lang@
                    &&& n.hash@ == pn.hash@
                    &&& n.source_start == pn.source_start
                    &&& n.source_end == pn.source_end
                    &&& n.typst_content@ == step.1
                    &&& n.is_chunk == (pn.kind is Chunk)
                    &&& n.source_line == source_line_of(pn.kind)
                    &&& n.errored == step.2
                },
        decreases planned.len() - i,
    {
        let pn = &planned[i];
        let ghost st = partial_state(planned@, i as int, mode);
        let ghost step = partial_step(st, *pn, mode);
        let lang = pn.lang.as_str();
        let (is_chunk, source_line) = line_and_kind(&pn.kind);
        let (content, errored): (String, bool) = match &pn.need {
            ExecutionNeed::Skip => {
                modified = without_text(&modified, lang);
                (skip_output(pn, backend, &ChunkExecutionState::Ready), false)
            },
            ExecutionNeed::CacheHit(ExecutionAttempt::Success(output)) => {
                modified = without_text(&modified, lang);
                (format_executed_node(pn, output, backend, &ChunkExecutionState::Ready), false)
            },
            ExecutionNeed::CacheHit(ExecutionAttempt::RuntimeError(e)) => {
                with_text(&mut inert, lang);
                modified = without_text(&modified, lang);
                let summary = e.summary();
                (format_error_block_for_node(&pn.kind, lang, summary.as_str()), true)
            },
            ExecutionNeed::CacheHitInline(text) => {
                modified = without_text(&modified, lang);
                (text.clone(), false)
            },
            ExecutionNeed::MustExecute => {
                if contains_text(&inert, lang) {
                    (skip_output(pn, backend, &ChunkExecutionState::Inert), false)
                } else {
                    match mode {
                        Phase0Mode::Pending => {
                            (skip_output(pn, backend, &ChunkExecutionState::Pending), false)
                        },
                        Phase0Mode::Modified => {
                            if contains_text(&modified, lang) {
                                (
                                    skip_output(pn, backend, &ChunkExecutionState::ModifiedCascade),
                                    false,
                                )
                            } else {
                                with_text(&mut modified, lang);
                                (skip_output(pn, backend, &ChunkExecutionState::Modified), false)
                            }
                        },
                    }
                }
            },
        };
        assert(content@ == step.1);
        assert(errored == step.2);
        result.push(
            ExecutedNode {
                lang: pn.lang.clone(),
                hash: pn.hash.clone(),
                source_start: pn.source_start,
                source_end: pn.source_end,
                typst_content: content,
                is_chunk,
                source_line,
                errored,
            },
        );
        i = i + 1;
    }
    assert(node_views(result@) =~= partial_views(planned@, mode));
    result
}

/// The document as shown before any code runs: the source with each node
/// replaced as `planned_to_partial_nodes` shows it.
pub fn assemble_partial(
    planned: &[PlannedNode],
    source: &str,
    source_file: &str,
    backend: &TypstBackend,
    mode: Phase0Mode,
) -> (r: String)
    requires
        assembled(partial_views(planned@, mode), source@, source_file@) is Some,
    ensures
        assembled(partial_views(planned@, mode), source@, source_file@) == Some(r@),
{
    let partial = planned_to_partial_nodes(planned, backend, mode);
    assemble_pass(partial.as_slice(), source, source_file)
}

} // verus!
