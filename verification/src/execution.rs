//! The execution of one language chain: its nodes in document order, each
//! run (or taken from the cache) and rendered; after a failure the rest of
//! the chain is rendered inert, without running.
use crate::ast::{fig_format_name, options_view, resolve_inline, resolve_v, Chunk, ResolvedChunkOptions, Show};
use crate::backend::{chunk_typst, error_messages, TypstBackend};
use crate::cache::{
    chunks_without, copy_error, inline_without, result_files, Cache, CacheError, CacheStore, FreezeObjectInfo,
    SnapshotEntry,
};
use crate::cancellation::Cancellation;
use crate::compiler::{
    empty_result, error_block_text, format_error_block_for_node, format_executed_node,
    skip_output, skip_text, executed_text, source_line_of, ChunkExecutionState, ExecutedNode,
    ExecutionNeed, PlannedNode, PlannedNodeKind,
};
use crate::config::{codly_merge, effective_defaults, overlay_v, resolve_options, Config};
use crate::executors::{
    error_summary, ExecError, ExecutionAttempt, ExecutionOutput, ExecutionResult,
    result_view, extends, lemma_extends_last, lemma_extends_refl, lemma_extends_trans, requests_of,
    GraphicsOptions, Interpreter, KnotExecutor, Request, RuntimeError,
    RuntimeWarning,
};
use crate::snapshots::{snapshot_error_text, SnapshotError, SnapshotManager};
use crate::text::{chars_of, extend, push_str, string_of};
use crate::typst_syntax::{inline_raw, inline_raw_of};
use vstd::prelude::*;

verus! {

/// Emitted after each node of a chain completes.
pub struct ProgressEvent {
    /// Position of the node in the document's planned order.
    pub doc_idx: usize,
    /// The node, rendered.
    pub executed: ExecutedNode,
}

/// Receives progress events as nodes complete.
///
/// Nothing is assumed of an implementation.
pub trait ProgressSink {
    /// A node completed.
    fn send(&mut self, event: ProgressEvent);
}

/// Why a chain stopped before its end.
#[derive(Debug, Clone, PartialEq, Eq)]
pub enum ChainError {
    /// A newer compilation superseded this one.
    Cancelled,
    /// The cache could not be read or written.
    Cache(CacheError),
    /// An interpreter failed outside the code of a chunk.
    Executor(String),
}

// ---------------------------------------------------------------------------
// Inert nodes
// ---------------------------------------------------------------------------

/// How a node after a failure of its chain is shown: a chunk as written,
/// with the defaults for errors of its language and no output; an inline
/// expression as its source, greyed.
pub open spec fn inert_text(kind: PlannedNodeKind, config: Config) -> Seq<char> {
    match kind {
        PlannedNodeKind::Chunk { node, data: _ } => {
            let eff = effective_defaults(config, node.language@, ChunkExecutionState::Inert);
            chunk_typst(
                *node,
                error_messages(node.errors@),
                codly_merge(eff.1, node.codly_options@),
                resolve_v(overlay_v(eff.0, options_view(node.options))),
                empty_result(),
                Seq::empty(),
                ChunkExecutionState::Inert,
            )
        },
        PlannedNodeKind::Inline { node } => "#text(fill: luma(150))["@ + inline_raw(
            "{"@ + node.language@ + "} "@ + node.code@,
        ) + "]"@,
    }
}

/// A node rendered inert.
pub fn inert_output(pn: &PlannedNode, backend: &TypstBackend, config: &Config) -> (r: String)
    ensures
        r@ == inert_text(pn.kind, *config),
{
    match &pn.kind {
        PlannedNodeKind::Chunk { node, data: _ } => {
            let (_, resolved, codly) = resolve_options(node, config, &ChunkExecutionState::Inert);
            let empty = ExecutionOutput {
                result: ExecutionResult::Text(String::new()),
                exports: Vec::new(),
                warnings: Vec::new(),
            };
            assert(crate::executors::result_view(empty.result) =~= empty_result());
            assert(empty.warnings@ =~= Seq::empty());
            crate::backend::render_chunk(
                node,
                &node.errors,
                &codly,
                &resolved,
                &empty,
                &ChunkExecutionState::Inert,
            )
        },
        PlannedNodeKind::Inline { node } => {
            let mut source = chars_of("{");
            push_str(&mut source, node.language.as_str());
            push_str(&mut source, "} ");
            push_str(&mut source, node.code.as_str());
            let s = string_of(&source);
            let mut r = chars_of("#text(fill: luma(150))[");
            extend(&mut r, &inline_raw_of(s.as_str()));
            push_str(&mut r, "]");
            string_of(&r)
        },
    }
}

// ---------------------------------------------------------------------------
// Frozen objects
// ---------------------------------------------------------------------------

/// Key of a frozen object: `language::name`, so that languages cannot
/// collide.
pub open spec fn freeze_key(lang: Seq<char>, name: Seq<char>) -> Seq<char> {
    lang + "::"@ + name
}

/// Message of an interpreter failure.
fn exec_message(e: &ExecError) -> (r: String)
    ensures
        r@ == match *e {
            ExecError::Failed(m) => m@,
        },
{
    match e {
        ExecError::Failed(m) => m.clone(),
    }
}

/// `prefix`, the quoted `name`, then `suffix`.
fn quoted_message(prefix: &str, name: &str, suffix: &str) -> (r: String)
    ensures
        r@ == prefix@ + name@ + suffix@,
{
    let mut m = chars_of(prefix);
    push_str(&mut m, name);
    push_str(&mut m, suffix);
    string_of(&m)
}

/// Records the objects `names` declared frozen by `chunk`: each is hashed
/// and saved by the interpreter, measured in the cache, and recorded under
/// its key (replacing an older record of the same key).
pub fn register_freeze_objects<E: KnotExecutor, S: CacheStore>(
    chunk: &Chunk,
    names: &Vec<String>,
    ex: &mut E,
    cache: &mut Cache,
    store: &S,
) -> (r: Result<(), ChainError>)
    ensures
        final(cache).cache_dir == old(cache).cache_dir,
        final(cache).metadata.chunks == old(cache).metadata.chunks,
        final(cache).metadata.inline_expressions == old(cache).metadata.inline_expressions,
        final(cache).metadata.snapshots == old(cache).metadata.snapshots,
        names@.len() == 0 ==> r is Ok && *final(cache) == *old(cache),
        r is Ok ==> forall|k: int|
            0 <= k < names@.len() ==> final(cache).metadata.freeze_objects@.map_values(
                |p: (String, FreezeObjectInfo)| p.0@,
            ).contains(freeze_key(chunk.language@, #[trigger] names@[k]@)),
{
    let chunk_name: &str = match &chunk.name {
        Some(n) => n.as_str(),
        None => "unnamed",
    };
    let mut i: usize = 0;
    while i < names.len()
        invariant
            i <= names@.len(),
            i == 0 ==> *cache == *old(cache),
            cache.cache_dir == old(cache).cache_dir,
            cache.metadata.chunks == old(cache).metadata.chunks,
            cache.metadata.inline_expressions == old(cache).metadata.inline_expressions,
            cache.metadata.snapshots == old(cache).metadata.snapshots,
            forall|k: int|
                0 <= k < i ==> cache.metadata.freeze_objects@.map_values(
                    |p: (String, FreezeObjectInfo)| p.0@,
                ).contains(freeze_key(chunk.language@, #[trigger] names@[k]@)),
        decreases names.len() - i,
    {
        let name = names[i].as_str();
        let hash = match ex.hash_object(name) {
            Ok(h) => h,
            Err(e) => {
                let mut m = chars_of("Failed to hash freeze object '");
                push_str(&mut m, name);
                push_str(&mut m, "': ");
                push_str(&mut m, exec_message(&e).as_str());
                return Err(ChainError::Executor(string_of(&m)));
            },
        };
        match ex.save_constant(name, hash.as_str(), cache.cache_dir.as_str()) {
            Ok(()) => {},
            Err(e) => {
                let mut m = chars_of("Failed to save freeze object '");
                push_str(&mut m, name);
                push_str(&mut m, "': ");
                push_str(&mut m, exec_message(&e).as_str());
                return Err(ChainError::Executor(string_of(&m)));
            },
        }
        let mut object = chars_of("objects/");
        push_str(&mut object, hash.as_str());
        push_str(&mut object, ".");
        push_str(&mut object, ex.object_extension());
        let path = crate::sync::join_path(cache.cache_dir.as_str(), &object);
        let size_bytes = match store.file_size(path.as_str()) {
            Some(n) => n,
            None => {
                return Err(
                    ChainError::Cache(CacheError::Io(quoted_message("Cannot measure ", path.as_str(), ""))),
                );
            },
        };
        let mut key = chars_of(chunk.language.as_str());
        push_str(&mut key, "::");
        push_str(&mut key, name);
        let key = string_of(&key);
        let info = FreezeObjectInfo {
            name: name.to_string(),
            hash,
            size_bytes,
            language: chunk.language.clone(),
            created_in_chunk: chunk_name.to_string(),
            created_at: crate::cache::timestamp(),
        };
        let ghost before = cache.metadata.freeze_objects@;
        set_freeze_object(cache, key, info);
        proof {
            assert forall|k: int| 0 <= k < i + 1 implies cache.metadata.freeze_objects@.map_values(
                |p: (String, FreezeObjectInfo)| p.0@,
            ).contains(freeze_key(chunk.language@, #[trigger] names@[k]@)) by {
                if k < i {
                    let keys0 = before.map_values(|p: (String, FreezeObjectInfo)| p.0@);
                    let w = choose|w: int| 0 <= w < keys0.len() && keys0[w] == freeze_key(
                        chunk.language@,
                        names@[k]@,
                    );
                    if freeze_key(chunk.language@, names@[k]@) != freeze_key(
                        chunk.language@,
                        names@[i as int]@,
                    ) {
                        assert(cache.metadata.freeze_objects@.contains(before[w]));
                        let m = choose|m: int|
                            0 <= m < cache.metadata.freeze_objects@.len()
                                && cache.metadata.freeze_objects@[m] == before[w];
                        assert(cache.metadata.freeze_objects@.map_values(
                            |p: (String, FreezeObjectInfo)| p.0@,
                        )[m] == keys0[w]);
                    } else {
                        let last = cache.metadata.freeze_objects@.len() - 1;
                        assert(cache.metadata.freeze_objects@.map_values(
                            |p: (String, FreezeObjectInfo)| p.0@,
                        )[last] == freeze_key(chunk.language@, names@[k]@));
                    }
                } else {
                    let last = cache.metadata.freeze_objects@.len() - 1;
                    assert(cache.metadata.freeze_objects@.map_values(
                        |p: (String, FreezeObjectInfo)| p.0@,
                    )[last] == freeze_key(chunk.language@, names@[k]@));
                }
            }
        }
        i = i + 1;
    }
    Ok(())
}

/// Records `info` under `key`, replacing any record of the same key.
fn set_freeze_object(cache: &mut Cache, key: String, info: FreezeObjectInfo)
    ensures
        final(cache).cache_dir == old(cache).cache_dir,
        final(cache).metadata.chunks == old(cache).metadata.chunks,
        final(cache).metadata.inline_expressions == old(cache).metadata.inline_expressions,
        final(cache).metadata.snapshots == old(cache).metadata.snapshots,
        final(cache).metadata.freeze_objects@.len() > 0,
        final(cache).metadata.freeze_objects@.last().0 == key,
        final(cache).metadata.freeze_objects@.last().1 == info,
        forall|k: int|
            0 <= k < old(cache).metadata.freeze_objects@.len()
                && old(cache).metadata.freeze_objects@[k].0@ != key@
                ==> final(cache).metadata.freeze_objects@.contains(
                #[trigger] old(cache).metadata.freeze_objects@[k],
            ),
{
    let mut rest: Vec<(String, FreezeObjectInfo)> = Vec::new();
    std::mem::swap(&mut rest, &mut cache.metadata.freeze_objects);
    let ghost all = rest@;
    let total = rest.len();
    let mut kept: Vec<(String, FreezeObjectInfo)> = Vec::new();
    let mut taken: usize = 0;
    while rest.len() > 0
        invariant
            all.len() == total,
            taken <= all.len(),
            taken + rest@.len() == all.len(),
            rest@ == all.skip(taken as int),
            forall|k: int|
                0 <= k < taken && all[k].0@ != key@ ==> kept@.contains(#[trigger] all[k]),
        decreases rest.len(),
    {
        let p = rest.remove(0);
        assert(p == all[taken as int]);
        assert(rest@ =~= all.skip(taken + 1));
        let ghost k0 = kept@;
        if !crate::text::spells(&chars_of(p.0.as_str()), key.as_str()) {
            kept.push(p);
            assert forall|k: int| 0 <= k < taken + 1 && all[k].0@ != key@ implies kept@.contains(
                #[trigger] all[k],
            ) by {
                if k < taken {
                    let m = choose|m: int| 0 <= m < k0.len() && k0[m] == all[k];
                    assert(kept@[m] == all[k]);
                } else {
                    assert(kept@[kept@.len() - 1] == all[k]);
                }
            }
        }
        taken = taken + 1;
    }
    let ghost k1 = kept@;
    kept.push((key, info));
    assert forall|k: int| 0 <= k < all.len() && all[k].0@ != key@ implies kept@.contains(
        #[trigger] all[k],
    ) by {
        let m = choose|m: int| 0 <= m < k1.len() && k1[m] == all[k];
        assert(kept@[m] == all[k]);
    }
    cache.metadata.freeze_objects = kept;
}

/// Message of a violated freeze contract.
pub open spec fn freeze_violation_message(
    name: Seq<char>,
    language: Seq<char>,
    chunk_name: Seq<char>,
) -> Seq<char> {
    "Freeze contract violated: object '"@ + name + "' ("@ + language + ") was modified in chunk '"@
        + chunk_name + "'"@
}

/// Name of a node in a freeze report.
pub open spec fn freeze_report_name(kind: PlannedNodeKind) -> Seq<char> {
    match kind {
        PlannedNodeKind::Chunk { node, data: _ } => match node.name {
            Some(n) => n@,
            None => "unnamed"@,
        },
        PlannedNodeKind::Inline { node: _ } => "inline"@,
    }
}

/// Whether the frozen object `info`, whose current digest is `current`, is
/// intact for a node of language `lang`: of another language, or unchanged.
pub open spec fn object_intact(info: FreezeObjectInfo, lang: Seq<char>, current: Seq<char>) -> bool {
    info.language@ != lang || current == info.hash@
}

/// The runtime error reporting that the frozen object `info`, declared in
/// a chunk and now with digest `current`, was modified in the node named
/// `report`.
pub open spec fn violation_error(
    e: RuntimeError,
    info: FreezeObjectInfo,
    current: Seq<char>,
    report: Seq<char>,
) -> bool {
    &&& e.message matches Some(m) && m@ == freeze_violation_message(
        info.name@,
        info.language@,
        report,
    )
    &&& e.call is None
    &&& e.line is None
    &&& e.traceback@.len() == 4
    &&& e.traceback@[0]@ == "Object '"@ + info.name@ + "' was frozen in chunk '"@
        + info.created_in_chunk@ + "'"@
    &&& e.traceback@[1]@ == "Expected hash : "@ + info.hash@
    &&& e.traceback@[2]@ == "Current hash  : "@ + current
    &&& e.traceback@[3]@ == "Frozen objects must not be mutated after declaration."@
}

/// The outcome of the freeze check of a node of language `lang` named
/// `report`, when the frozen objects `objects` have the current digests
/// `current` (those of another language are not asked for): a violation for
/// the first object of the language whose digest changed, none when every
/// one is intact.
pub open spec fn freeze_outcome(
    objects: Seq<(String, FreezeObjectInfo)>,
    lang: Seq<char>,
    report: Seq<char>,
    current: Seq<Seq<char>>,
    o: Option<RuntimeError>,
) -> bool {
    match o {
        None => current.len() == objects.len() && forall|j: int|
            0 <= j < objects.len() ==> object_intact(#[trigger] objects[j].1, lang, current[j]),
        Some(e) => exists|k: int|
            0 <= k < objects.len() && k < current.len() && !object_intact(
                #[trigger] objects[k].1,
                lang,
                current[k],
            ) && (forall|j: int|
                0 <= j < k ==> object_intact(#[trigger] objects[j].1, lang, current[j]))
                && violation_error(e, objects[k].1, current[k], report),
    }
}

/// Checks, after a node ran, that no frozen object of its language changed
/// (see `freeze_outcome`): each object of the node's language has its
/// digest asked of the interpreter, and the first one that differs from the
/// recorded one gives the violation; no digest is asked for when no object
/// is of the node's language.
pub fn check_freeze_contract<E: KnotExecutor>(pn: &PlannedNode, ex: &mut E, cache: &Cache) -> (r:
    Result<Option<RuntimeError>, ChainError>)
    ensures
        r matches Ok(o) ==> exists|current: Seq<Seq<char>>|
            #[trigger] freeze_outcome(
                cache.metadata.freeze_objects@,
                pn.lang@,
                freeze_report_name(pn.kind),
                current,
                o,
            ),
        (forall|k: int|
            0 <= k < cache.metadata.freeze_objects@.len()
                ==> (#[trigger] cache.metadata.freeze_objects@[k]).1.language@ != pn.lang@)
            ==> (r matches Ok(None) && *final(ex) == *old(ex)),
        r matches Err(e) ==> e is Executor,
{
    let chunk_name: &str = match &pn.kind {
        PlannedNodeKind::Chunk { node, data: _ } => match &node.name {
            Some(n) => n.as_str(),
            None => "unnamed",
        },
        PlannedNodeKind::Inline { node: _ } => "inline",
    };
    let objects = &cache.metadata.freeze_objects;
    let ghost mut seen: Seq<Seq<char>> = Seq::empty();
    let ghost none_applies = forall|j: int|
        0 <= j < objects@.len() ==> (#[trigger] objects@[j]).1.language@ != pn.lang@;
    let mut k: usize = 0;
    while k < objects.len()
        invariant
            k <= objects@.len(),
            *objects == cache.metadata.freeze_objects,
            chunk_name@ == freeze_report_name(pn.kind),
            seen.len() == k,
            forall|j: int| 0 <= j < k ==> object_intact(#[trigger] objects@[j].1, pn.lang@, seen[j]),
            none_applies == (forall|j: int|
                0 <= j < objects@.len() ==> (#[trigger] objects@[j]).1.language@ != pn.lang@),
            none_applies ==> *ex == *old(ex),
        decreases objects.len() - k,
    {
        let info = &objects[k].1;
        if !crate::text::spells(&chars_of(info.language.as_str()), pn.lang.as_str()) {
            proof {
                seen = seen.push(Seq::empty());
                assert(object_intact(objects@[k as int].1, pn.lang@, seen[k as int]));
            }
        } else {
            proof {
                assert(objects@[k as int].1.language@ == pn.lang@);
            }
            let current = match ex.hash_object(info.name.as_str()) {
                Ok(h) => h,
                Err(e) => {
                    let mut m = chars_of("Failed to hash freeze object '");
                    push_str(&mut m, info.name.as_str());
                    push_str(&mut m, "': ");
                    push_str(&mut m, exec_message(&e).as_str());
                    return Err(ChainError::Executor(string_of(&m)));
                },
            };
            if !crate::text::spells(&chars_of(current.as_str()), info.hash.as_str()) {
                let mut m = chars_of("Freeze contract violated: object '");
                push_str(&mut m, info.name.as_str());
                push_str(&mut m, "' (");
                push_str(&mut m, info.language.as_str());
                push_str(&mut m, ") was modified in chunk '");
                push_str(&mut m, chunk_name);
                push_str(&mut m, "'");
                let mut traceback: Vec<String> = Vec::new();
                let mut t1 = chars_of("Object '");
                push_str(&mut t1, info.name.as_str());
                push_str(&mut t1, "' was frozen in chunk '");
                push_str(&mut t1, info.created_in_chunk.as_str());
                push_str(&mut t1, "'");
                traceback.push(string_of(&t1));
                traceback.push(quoted_message("Expected hash : ", info.hash.as_str(), ""));
                traceback.push(quoted_message("Current hash  : ", current.as_str(), ""));
                traceback.push("Frozen objects must not be mutated after declaration.".to_string());
                let error = RuntimeError {
                    message: Some(string_of(&m)),
                    call: None,
                    line: None,
                    traceback,
                };
                assert(cache.metadata.freeze_objects@[k as int].1 == *info);
                proof {
                    reveal_strlit("");
                    assert(error.traceback@.len() == 4);
                    assert(error.traceback@[1]@ =~= "Expected hash : "@ + info.hash@);
                    assert(error.traceback@[2]@ =~= "Current hash  : "@ + current@);
                    assert(error.message->0@ =~= freeze_violation_message(
                        info.name@,
                        info.language@,
                        freeze_report_name(pn.kind),
                    ));
                    seen = seen.push(current@);
                    assert(!object_intact(objects@[k as int].1, pn.lang@, seen[k as int]));
                    assert(violation_error(error, objects@[k as int].1, seen[k as int], freeze_report_name(pn.kind)));
                    assert(freeze_outcome(
                        cache.metadata.freeze_objects@,
                        pn.lang@,
                        freeze_report_name(pn.kind),
                        seen,
                        Some(error),
                    ));
                }
                return Ok(Some(error));
            }
            proof {
                seen = seen.push(current@);
                assert(object_intact(objects@[k as int].1, pn.lang@, seen[k as int]));
            }
        }
        k = k + 1;
    }
    assert(freeze_outcome(
        cache.metadata.freeze_objects@,
        pn.lang@,
        freeze_report_name(pn.kind),
        seen,
        None,
    ));
    Ok(None)
}

// ---------------------------------------------------------------------------
// Running one node
// ---------------------------------------------------------------------------

/// For an inline expression, that it ran to a plain text (empty unless its
/// output is shown), with no warning and no export; nothing for a chunk.
pub open spec fn inline_attempt(kind: PlannedNodeKind, a: ExecutionAttempt) -> bool {
    match kind {
        PlannedNodeKind::Inline { node } => match a {
            ExecutionAttempt::Success(o) => match o.result {
                ExecutionResult::Text(t) => {
                    &&& o.warnings@.len() == 0
                    &&& o.exports@.len() == 0
                    &&& (resolve_inline(node.options).show is Code || resolve_inline(
                        node.options,
                    ).show is Hidden) ==> t@.len() == 0
                },
                _ => false,
            },
            _ => false,
        },
        PlannedNodeKind::Chunk { .. } => true,
    }
}

/// Whether `m` can be the message of an interpreter that failed to run a
/// node: for an inline expression, it names the expression.
pub open spec fn run_failure_message(kind: PlannedNodeKind, m: Seq<char>) -> bool {
    match kind {
        PlannedNodeKind::Inline { node } => exists|reason: Seq<char>|
            m == "Failed to execute inline expression: `{"@ + node.language@ + "} "@ + node.code@
                + "`: "@ + reason,
        PlannedNodeKind::Chunk { .. } => true,
    }
}

/// The graphics options a chunk runs with: those of its resolved options.
pub fn chunk_graphics(resolved: &ResolvedChunkOptions) -> (r: GraphicsOptions)
    ensures
        r.width@ == resolved.fig_width@,
        r.height@ == resolved.fig_height@,
        r.dpi == resolved.dpi,
        r.format@ == fig_format_name(resolved.fig_format),
{
    GraphicsOptions {
        width: resolved.fig_width.clone(),
        height: resolved.fig_height.clone(),
        dpi: resolved.dpi,
        format: resolved.fig_format.as_str().to_string(),
    }
}

/// Whether `req` asks the interpreter to run the node of kind `kind`: a
/// chunk's code with the graphics options of its resolved options (see
/// `chunk_graphics`), or an inline expression's code.
pub open spec fn asked_for(kind: PlannedNodeKind, req: Request) -> bool {
    match kind {
        PlannedNodeKind::Chunk { node, data } => match req {
            Request::Chunk { code, graphics, answer: _ } => {
                &&& code == node.code@
                &&& graphics.width@ == data.resolved_options.fig_width@
                &&& graphics.height@ == data.resolved_options.fig_height@
                &&& graphics.dpi == data.resolved_options.dpi
                &&& graphics.format@ == fig_format_name(data.resolved_options.fig_format)
            },
            _ => false,
        },
        PlannedNodeKind::Inline { node } => match req {
            Request::Inline { code, answer: _ } => code == node.code@,
            _ => false,
        },
    }
}

/// Whether `a` is what the interpreter's answer to `req` gives for a node of
/// kind `kind`: for a chunk, the attempt it answered; for an inline
/// expression, its text (empty unless its output is shown), with no warning
/// and no export.
pub open spec fn answered(kind: PlannedNodeKind, req: Request, a: ExecutionAttempt) -> bool {
    match (kind, req) {
        (PlannedNodeKind::Chunk { .. }, Request::Chunk { answer: Ok(x), .. }) => a == x,
        (PlannedNodeKind::Inline { node }, Request::Inline { answer: Ok(t), .. }) => match a {
            ExecutionAttempt::Success(o) => match o.result {
                ExecutionResult::Text(shown) => {
                    &&& o.warnings@.len() == 0
                    &&& o.exports@.len() == 0
                    &&& shown@ == crate::inline_processor::inline_shown(
                        resolve_inline(node.options).show,
                        t@,
                    )
                },
                _ => false,
            },
            _ => false,
        },
        _ => false,
    }
}

/// Whether `m` is the message of the interpreter's refusal `req` for a node
/// of kind `kind`: its reason, naming the expression for an inline one.
pub open spec fn refused(kind: PlannedNodeKind, req: Request, m: Seq<char>) -> bool {
    match (kind, req) {
        (PlannedNodeKind::Chunk { .. }, Request::Chunk { answer: Err(ExecError::Failed(x)), .. }) => m
            == x@,
        (
            PlannedNodeKind::Inline { node },
            Request::Inline { answer: Err(ExecError::Failed(x)), .. },
        ) => m == crate::inline_processor::inline_failure_message(node.language@, node.code@, x@),
        _ => false,
    }
}

/// Runs the code of a node: a chunk with the graphics options of its
/// resolved options (see `chunk_graphics`); an inline expression, whose
/// text is kept only when its output is shown. The interpreter is asked
/// once (see `asked_for`) and the result follows its answer (see `answered`
/// and `refused`). Nothing is cached here: the caller caches a result once
/// the checks that follow a run have passed.
fn execute_for_node<E: KnotExecutor>(pn: &PlannedNode, ex: &mut Interpreter<E>) -> (r: Result<
    ExecutionAttempt,
    String,
>)
    ensures
        final(ex).requests@.len() == old(ex).requests@.len() + 1,
        final(ex).requests@.drop_last() == old(ex).requests@,
        asked_for(pn.kind, final(ex).requests@.last()),
        r matches Ok(a) ==> answered(pn.kind, final(ex).requests@.last(), a),
        r matches Err(m) ==> refused(pn.kind, final(ex).requests@.last(), m@),
        r matches Ok(a) ==> inline_attempt(pn.kind, a),
        r matches Err(m) ==> run_failure_message(pn.kind, m@),
{
    match &pn.kind {
        PlannedNodeKind::Chunk { node, data } => {
            let graphics = chunk_graphics(&data.resolved_options);
            let answer = ex.run_chunk(node.code.as_str(), &graphics);
            assert(ex.requests@.drop_last() =~= old(ex).requests@);
            match answer {
                Ok(a) => Ok(a),
                Err(e) => Err(exec_message(&e)),
            }
        },
        PlannedNodeKind::Inline { node } => {
            let answer = ex.run_inline(node.code.as_str());
            assert(ex.requests@.drop_last() =~= old(ex).requests@);
            let result = match answer {
                Ok(t) => t,
                Err(e) => {
                    let mut m = chars_of("Failed to execute inline expression: `{");
                    push_str(&mut m, node.language.as_str());
                    push_str(&mut m, "} ");
                    push_str(&mut m, node.code.as_str());
                    push_str(&mut m, "`: ");
                    push_str(&mut m, exec_message(&e).as_str());
                    return Err(string_of(&m));
                },
            };
            let resolved = node.options.resolve();
            let shown = match resolved.show {
                Show::Output | Show::Both => result,
                Show::Code | Show::Hidden => String::new(),
            };
            Ok(
                ExecutionAttempt::Success(
                    ExecutionOutput {
                        result: ExecutionResult::Text(shown),
                        exports: Vec::new(),
                        warnings: Vec::new(),
                    },
                ),
            )
        },
    }
}

/// Whether a node is a chunk whose results are cached.
pub open spec fn caches_results(kind: PlannedNodeKind) -> bool {
    kind matches PlannedNodeKind::Chunk { node: _, data } && data.resolved_options.cache
}

/// Caches the error of a chunk whose results are cached.
fn cache_chunk_error<S: CacheStore>(
    pn: &PlannedNode,
    error: &RuntimeError,
    cache: &mut Cache,
    store: &mut S,
) -> (r: Result<(), ChainError>)
    ensures
        final(cache).cache_dir == old(cache).cache_dir,
        !caches_results(pn.kind) ==> r is Ok && *final(cache) == *old(cache),
        caches_results(pn.kind) ==> ({
            let e = final(cache).metadata.chunks@.last();
            &&& final(cache).metadata.chunks@.len() > 0
            &&& final(cache).metadata.chunks@.drop_last() == chunks_without(
                old(cache).metadata.chunks@,
                pn.kind->Chunk_node.index,
            )
            &&& e.index == pn.kind->Chunk_node.index
            &&& e.hash == pn.hash
            &&& e.language == pn.kind->Chunk_node.language
            &&& e.error matches Some(x) && x.message == error.message && x.call == error.call
                && x.line == error.line && x.traceback@ == error.traceback@
            &&& final(cache).metadata.inline_expressions == old(cache).metadata.inline_expressions
            &&& final(cache).metadata.snapshots == old(cache).metadata.snapshots
            &&& final(cache).metadata.freeze_objects == old(cache).metadata.freeze_objects
        }),
        r matches Err(x) ==> x matches ChainError::Cache(c) && c is Io,
{
    if let PlannedNodeKind::Chunk { node, data } = &pn.kind {
        if data.resolved_options.cache {
            match cache.save_error(
                node.index,
                node.name.clone(),
                node.language.clone(),
                pn.hash.clone(),
                copy_error(error),
                crate::cache::copy_strings(&data.chunk_options.depends),
                store,
            ) {
                Ok(()) => {},
                Err(e) => return Err(ChainError::Cache(e)),
            }
        }
    }
    Ok(())
}

/// Caches the output of a chunk whose results are cached.
fn cache_chunk_result<S: CacheStore>(
    pn: &PlannedNode,
    output: &ExecutionOutput,
    cache: &mut Cache,
    store: &mut S,
) -> (r: Result<(), ChainError>)
    ensures
        final(cache).cache_dir == old(cache).cache_dir,
        !caches_results(pn.kind) ==> r is Ok && *final(cache) == *old(cache),
        caches_results(pn.kind) && result_files(result_view(output.result), pn.hash@) is None
            ==> r is Err && *final(cache) == *old(cache),
        final(cache).metadata.inline_expressions == old(cache).metadata.inline_expressions,
        caches_results(pn.kind) && r is Ok ==> ({
            let e = final(cache).metadata.chunks@.last();
            &&& final(cache).metadata.chunks@.len() > 0
            &&& final(cache).metadata.chunks@.drop_last() == chunks_without(
                old(cache).metadata.chunks@,
                pn.kind->Chunk_node.index,
            )
            &&& e.index == pn.kind->Chunk_node.index
            &&& e.hash == pn.hash
            &&& e.error is None
        }),
        r matches Err(x) ==> x is Cache,
{
    if let PlannedNodeKind::Chunk { node, data } = &pn.kind {
        if data.resolved_options.cache {
            match cache.save_result(
                node.index,
                node.name.clone(),
                node.language.clone(),
                pn.hash.clone(),
                output,
                crate::cache::copy_strings(&data.chunk_options.depends),
                store,
            ) {
                Ok(()) => {},
                Err(e) => return Err(ChainError::Cache(e)),
            }
        }
    }
    Ok(())
}

/// A warning with no call and no line.
fn plain_warning(message: String) -> (r: RuntimeWarning)
    ensures
        r.message == message,
        r.call is None,
        r.line is None,
{
    RuntimeWarning { message, call: None, line: None }
}

/// What a node that ran shows, given what running it gave (`attempt`) and,
/// for a run without error, the freeze check's violation: a runtime error
/// or a violation is shown as an error block with its summary, and the node
/// fails; otherwise its output is shown, ready.
pub open spec fn run_outcome(
    kind: PlannedNodeKind,
    lang: Seq<char>,
    attempt: ExecutionAttempt,
    violation: Option<RuntimeError>,
) -> (Seq<char>, bool) {
    match attempt {
        ExecutionAttempt::RuntimeError(e) => (error_block_text(kind, lang, error_summary(e)), true),
        ExecutionAttempt::Success(o) => match violation {
            Some(v) => (error_block_text(kind, lang, error_summary(v)), true),
            None => (executed_text(kind, o, ChunkExecutionState::Ready), false),
        },
    }
}

/// Renders a node that ran (see `run_outcome`).
pub fn render_run(
    pn: &PlannedNode,
    lang: &str,
    backend: &TypstBackend,
    attempt: &ExecutionAttempt,
    violation: &Option<RuntimeError>,
) -> (r: (String, bool))
    ensures
        (r.0@, r.1) == run_outcome(pn.kind, lang@, *attempt, *violation),
{
    match attempt {
        ExecutionAttempt::RuntimeError(e) => {
            let summary = e.summary();
            (format_error_block_for_node(&pn.kind, lang, summary.as_str()), true)
        },
        ExecutionAttempt::Success(o) => match violation {
            Some(v) => {
                let summary = v.summary();
                (format_error_block_for_node(&pn.kind, lang, summary.as_str()), true)
            },
            None => (format_executed_node(pn, o, backend, &ChunkExecutionState::Ready), false),
        },
    }
}

/// Whether `new` is the cache `old` with the error `err` recorded for the
/// node: as the chunk's only entry when the node is a chunk whose results
/// are cached; the results are unchanged otherwise.
pub open spec fn error_recorded(pn: PlannedNode, err: RuntimeError, old: Cache, new: Cache) -> bool {
    &&& new.cache_dir == old.cache_dir
    &&& new.metadata.inline_expressions == old.metadata.inline_expressions
    &&& !caches_results(pn.kind) ==> new.metadata.chunks == old.metadata.chunks
    &&& caches_results(pn.kind) ==> ({
        let e = new.metadata.chunks@.last();
        &&& new.metadata.chunks@.len() > 0
        &&& new.metadata.chunks@.drop_last() == chunks_without(
            old.metadata.chunks@,
            pn.kind->Chunk_node.index,
        )
        &&& e.index == pn.kind->Chunk_node.index
        &&& e.hash == pn.hash
        &&& e.error matches Some(x) && x.message == err.message && x.call == err.call && x.line
            == err.line && x.traceback@ == err.traceback@
    })
}

/// Whether `new` is the cache `old` with the successful output `o` of the
/// node recorded, once the result was stored (`stored`): for a chunk whose
/// results are cached, as the chunk's only entry, with no error; for an
/// inline expression, its text as the last inline entry under its identity.
/// Nothing else of the results changes.
pub open spec fn output_recorded(pn: PlannedNode, o: ExecutionOutput, old: Cache, new: Cache, stored: bool) -> bool {
    &&& new.cache_dir == old.cache_dir
    &&& match pn.kind {
        PlannedNodeKind::Chunk { node, data } => {
            &&& new.metadata.inline_expressions == old.metadata.inline_expressions
            &&& !data.resolved_options.cache ==> new.metadata.chunks == old.metadata.chunks
            &&& data.resolved_options.cache && stored ==> ({
                let e = new.metadata.chunks@.last();
                &&& new.metadata.chunks@.len() > 0
                &&& new.metadata.chunks@.drop_last() == chunks_without(
                    old.metadata.chunks@,
                    node.index,
                )
                &&& e.index == node.index
                &&& e.hash == pn.hash
                &&& e.error is None
            })
        },
        PlannedNodeKind::Inline { .. } => {
            &&& new.metadata.chunks == old.metadata.chunks
            &&& stored ==> match o.result {
                ExecutionResult::Text(t) => {
                    &&& new.metadata.inline_expressions@.len() > 0
                    &&& new.metadata.inline_expressions@.drop_last() == inline_without(
                        old.metadata.inline_expressions@,
                        pn.hash@,
                    )
                    &&& new.metadata.inline_expressions@.last().hash == pn.hash
                    &&& new.metadata.inline_expressions@.last().result@ == t@
                },
                _ => false,
            }
        },
    }
}

/// Whether `new` is the cache `old` with what running the node gave
/// recorded (see `error_recorded` and `output_recorded`).
pub open spec fn outcome_cached(
    pn: PlannedNode,
    attempt: ExecutionAttempt,
    violation: Option<RuntimeError>,
    old: Cache,
    new: Cache,
    stored: bool,
) -> bool {
    match attempt {
        ExecutionAttempt::RuntimeError(e) => error_recorded(pn, e, old, new),
        ExecutionAttempt::Success(o) => match violation {
            Some(v) => error_recorded(pn, v, old, new),
            None => output_recorded(pn, o, old, new, stored),
        },
    }
}

/// Caches what running a node gave: its runtime error, or the freeze
/// violation of a run without error, as the chunk's error; otherwise its
/// output (an inline expression's text under its identity). A cached error
/// never becomes a cached success, and a violating run is never cached as
/// one.
fn cache_outcome<S: CacheStore>(
    pn: &PlannedNode,
    attempt: &ExecutionAttempt,
    violation: &Option<RuntimeError>,
    cache: &mut Cache,
    store: &mut S,
) -> (r: Result<(), ChainError>)
    requires
        inline_attempt(pn.kind, *attempt),
    ensures
        final(cache).cache_dir == old(cache).cache_dir,
        outcome_cached(*pn, *attempt, *violation, *old(cache), *final(cache), r is Ok),
{
    match attempt {
        ExecutionAttempt::RuntimeError(e) => cache_chunk_error(pn, e, cache, store),
        ExecutionAttempt::Success(o) => match violation {
            Some(v) => cache_chunk_error(pn, v, cache, store),
            None => match &pn.kind {
                PlannedNodeKind::Chunk { .. } => cache_chunk_result(pn, o, cache, store),
                PlannedNodeKind::Inline { .. } => match &o.result {
                    ExecutionResult::Text(t) => match cache.save_inline_result(
                        pn.hash.clone(),
                        t.as_str(),
                        store,
                    ) {
                        Ok(()) => Ok(()),
                        Err(e) => Err(ChainError::Cache(e)),
                    },
                    _ => Ok(()),
                },
            },
        },
    }
}

/// Whether `shown` is the output `run` with warnings added after its own.
pub open spec fn with_added_warnings(run: ExecutionAttempt, shown: ExecutionAttempt) -> bool {
    match (run, shown) {
        (ExecutionAttempt::Success(o), ExecutionAttempt::Success(s)) => {
            &&& s.result == o.result
            &&& s.exports == o.exports
            &&& s.warnings@.len() >= o.warnings@.len()
            &&& s.warnings@.take(o.warnings@.len() as int) == o.warnings@
        },
        (ExecutionAttempt::RuntimeError(_), _) => shown == run,
        _ => false,
    }
}

/// What a node to execute gives when it ran: `attempt` is what running it
/// gave, `violation` the freeze check's outcome for a run without error,
/// `shown` the output shown (with the snapshot warnings of the node added);
/// the node is rendered as `run_outcome` states, and the cache records its
/// error or its output.
pub open spec fn ran(
    pn: PlannedNode,
    lang: Seq<char>,
    old: Cache,
    new: Cache,
    t: Seq<char>,
    errored: bool,
    attempt: ExecutionAttempt,
    violation: Option<RuntimeError>,
    shown: ExecutionAttempt,
) -> bool {
    &&& inline_attempt(pn.kind, attempt)
    &&& attempt is RuntimeError ==> violation is None
    &&& with_added_warnings(attempt, shown)
    &&& (t, errored) == run_outcome(pn.kind, lang, shown, violation)
    &&& outcome_cached(pn, attempt, violation, old, new, true)
}

/// Suffix of the error of a node whose starting state cannot be restored.
pub open spec fn restore_hint() -> Seq<char> {
    ". Clearing the cache re-executes this chain from its start."@
}

/// What a node to execute is rendered as (`t`, failed when `errored`),
/// with the cache going from `old` to `new` and `asked` the requests of the
/// interpreter afterwards: an error block when its starting state cannot be
/// restored or when its language has no interpreter (`has_exec` false), the
/// cache unchanged; otherwise the interpreter's last request ran the node
/// (see `asked_for`), and the node is an error block with the reason of its
/// refusal (the cache unchanged), or what its answer gave (see `answered`
/// and `ran`).
pub open spec fn must_execute_result(
    pn: PlannedNode,
    lang: Seq<char>,
    has_exec: bool,
    asked: Seq<Request>,
    old: Cache,
    new: Cache,
    t: Seq<char>,
    errored: bool,
) -> bool {
    ||| (exists|se: SnapshotError|
        t == error_block_text(pn.kind, lang, #[trigger] snapshot_error_text(se) + restore_hint()))
        && errored && new == old
    ||| !has_exec && t == error_block_text(pn.kind, lang, "Unsupported language: '"@ + lang + "'"@)
        && errored && new == old
    ||| has_exec && asked.len() > 0 && asked_for(pn.kind, asked.last()) && (exists|m: Seq<char>|
        t == #[trigger] error_block_text(pn.kind, lang, m) && refused(pn.kind, asked.last(), m))
        && errored && new == old
    ||| has_exec && asked.len() > 0 && asked_for(pn.kind, asked.last()) && exists|
        a: ExecutionAttempt,
        v: Option<RuntimeError>,
        s: ExecutionAttempt,
    | #[trigger] ran(pn, lang, old, new, t, errored, a, v, s) && answered(pn.kind, asked.last(), a)
}

/// Runs a node that is not cached: restores the state it starts from,
/// runs it (see `execute_for_node`), checks the freeze contract after a run
/// without error, caches its error or its output (see `cache_outcome`), and
/// saves the state it leaves; the node is rendered by `render_run`. A state
/// that cannot be restored, a language without interpreter and an
/// interpreter failure are error blocks (second component `true`); a
/// snapshot that cannot be saved, or that is the first non-reusable one of
/// the chain, is a warning of the node.
fn handle_must_execute<E: KnotExecutor, S: CacheStore>(
    pn: &PlannedNode,
    sm: &mut SnapshotManager<E>,
    lang: &str,
    cache: &mut Cache,
    store: &mut S,
    backend: &TypstBackend,
    cancellation: &Cancellation,
    non_reusable_reported: &mut bool,
) -> (r: Result<(String, bool), ChainError>)
    ensures
        final(cache).cache_dir == old(cache).cache_dir,
        final(sm).executor is Some <==> old(sm).executor is Some,
        final(sm).allow_snapshots == old(sm).allow_snapshots,
        r matches Ok((t, e)) ==> must_execute_result(
            *pn,
            lang@,
            old(sm).executor is Some,
            requests_of(final(sm).executor),
            *old(cache),
            *final(cache),
            t@,
            e,
        ),
        old(sm).executor is None ==> (r matches Ok((_, e)) && e),
        extends(requests_of(old(sm).executor), requests_of(final(sm).executor)),
{
    proof {
        lemma_extends_refl(requests_of(sm.executor));
    }
    match sm.restore_if_needed(lang, pn.previous_hash.as_str(), cache, store) {
        Ok(()) => {},
        Err(e) => {
            let mut m = chars_of(e.message().as_str());
            push_str(&mut m, ". Clearing the cache re-executes this chain from its start.");
            let m = string_of(&m);
            return Ok((format_error_block_for_node(&pn.kind, lang, m.as_str()), true));
        },
    }
    let ex = match &mut sm.executor {
        Some(ex) => ex,
        None => {
            let mut m = chars_of("Unsupported language: '");
            push_str(&mut m, lang);
            push_str(&mut m, "'");
            let m = string_of(&m);
            return Ok((format_error_block_for_node(&pn.kind, lang, m.as_str()), true));
        },
    };
    let ghost log1 = ex.requests@;
    let ghost log0 = requests_of(old(sm).executor);
    let run = execute_for_node(pn, ex);
    proof {
        lemma_extends_last(log1, ex.requests@);
        lemma_extends_trans(log0, log1, ex.requests@);
    }
    let attempt = match run {
        Ok(a) => a,
        Err(m) => {
            return Ok((format_error_block_for_node(&pn.kind, lang, m.as_str()), true));
        },
    };
    match cancellation.check() {
        Ok(()) => {},
        Err(_) => return Err(ChainError::Cancelled),
    }
    let violation = match &attempt {
        ExecutionAttempt::RuntimeError(_) => None,
        ExecutionAttempt::Success(_) => {
            if let PlannedNodeKind::Chunk { node, data: _ } = &pn.kind {
                if node.options.freeze.len() > 0 {
                    register_freeze_objects(node, &node.options.freeze, &mut ex.session, cache, store)?;
                }
            }
            check_freeze_contract(pn, &mut ex.session, cache)?
        },
    };
    let ghost before_cache = *old(cache);
    let ghost a0 = attempt;
    proof {
        assert(cache.metadata.chunks == old(cache).metadata.chunks);
        assert(cache.metadata.inline_expressions == old(cache).metadata.inline_expressions);
    }
    cache_outcome(pn, &attempt, &violation, cache, store)?;
    let ghost after_outcome = *cache;
    let shown = match attempt {
        ExecutionAttempt::Success(mut output) => {
            let ghost w0 = output.warnings@;
            if violation.is_none() {
                match sm.record_execution(lang, pn.hash.as_str(), cache, store) {
                    Ok(()) => {
                        if sm.allow_snapshots && !*non_reusable_reported {
                            let n = cache.metadata.snapshots.len();
                            if n > 0 && !cache.metadata.snapshots[n - 1].1.reusable {
                                output.warnings.push(
                                    plain_warning(crate::defaults::non_reusable_snapshot_message(lang)),
                                );
                                *non_reusable_reported = true;
                            }
                        }
                    },
                    Err(e) => {
                        let mut m = chars_of("Could not save the ");
                        push_str(&mut m, lang);
                        push_str(&mut m, " session snapshot: ");
                        push_str(&mut m, e.message().as_str());
                        output.warnings.push(plain_warning(string_of(&m)));
                    },
                }
            }
            assert(output.warnings@.take(w0.len() as int) =~= w0);
            ExecutionAttempt::Success(output)
        },
        ExecutionAttempt::RuntimeError(e) => ExecutionAttempt::RuntimeError(e),
    };
    let rendered = render_run(pn, lang, backend, &shown, &violation);
    assert(ran(*pn, lang@, *old(cache), *cache, rendered.0@, rendered.1, a0, violation, shown));
    Ok(rendered)
}

// ---------------------------------------------------------------------------
// The chain
// ---------------------------------------------------------------------------

/// Whether a node before the `i`-th one failed.
pub open spec fn failed_before(out: Seq<(usize, ExecutedNode)>, i: int) -> bool {
    exists|j: int| 0 <= j < i && (#[trigger] out[j]).1.errored
}

/// What holds of a node rendered while its chain is sound: skipped and
/// cached nodes are shown with their content (a cached error fails the
/// node); a node to execute fails when the chain has no interpreter, and a
/// failure is always shown as an error block.
pub open spec fn sound_node(
    pn: PlannedNode,
    n: ExecutedNode,
    lang: Seq<char>,
    has_exec: bool,
    asked: Seq<Request>,
) -> bool {
    &&& (n.errored ==> exists|m: Seq<char>| n.typst_content@ == error_block_text(pn.kind, lang, m))
    &&& match pn.need {
        ExecutionNeed::Skip => n.typst_content@ == skip_text(pn.kind, ChunkExecutionState::Ready)
            && !n.errored,
        ExecutionNeed::CacheHit(ExecutionAttempt::Success(o)) => n.typst_content@ == executed_text(
            pn.kind,
            o,
            ChunkExecutionState::Ready,
        ) && !n.errored,
        ExecutionNeed::CacheHit(ExecutionAttempt::RuntimeError(e)) => n.typst_content@
            == error_block_text(pn.kind, lang, error_summary(e)) && n.errored,
        ExecutionNeed::CacheHitInline(t) => n.typst_content@ == t@ && !n.errored,
        ExecutionNeed::MustExecute => (!has_exec ==> n.errored) && (!n.errored ==> exists|
            o: ExecutionOutput,
        | n.typst_content@ == #[trigger] executed_text(pn.kind, o, ChunkExecutionState::Ready)
            && shown_from(pn.kind, asked, o)),
    }
}

/// Whether the output `o` shown for a node of kind `kind` is what the
/// interpreter answered to one of the requests `asked` that ran the node
/// (see `asked_for` and `answered`), warnings aside.
pub open spec fn shown_from(kind: PlannedNodeKind, asked: Seq<Request>, o: ExecutionOutput) -> bool {
    exists|k: int, a: ExecutionAttempt|
        0 <= k < asked.len() && asked_for(kind, asked[k]) && #[trigger] answered(kind, asked[k], a)
            && (a matches ExecutionAttempt::Success(x) && x.result == o.result && x.exports
            == o.exports)
}

/// A node rendered soundly stays so when the interpreter is asked more.
pub proof fn lemma_sound_node_extends(
    pn: PlannedNode,
    n: ExecutedNode,
    lang: Seq<char>,
    has_exec: bool,
    a: Seq<Request>,
    b: Seq<Request>,
)
    requires
        sound_node(pn, n, lang, has_exec, a),
        extends(a, b),
    ensures
        sound_node(pn, n, lang, has_exec, b),
{
    if pn.need is MustExecute && !n.errored {
        let o = choose|o: ExecutionOutput|
            n.typst_content@ == #[trigger] executed_text(pn.kind, o, ChunkExecutionState::Ready)
                && shown_from(pn.kind, a, o);
        let (k, x) = choose|k: int, x: ExecutionAttempt|
            0 <= k < a.len() && asked_for(pn.kind, a[k]) && #[trigger] answered(pn.kind, a[k], x)
                && (x matches ExecutionAttempt::Success(y) && y.result == o.result && y.exports
                == o.exports);
        assert(b[k] == b.take(a.len() as int)[k]);
        assert(answered(pn.kind, b[k], x));
        assert(shown_from(pn.kind, b, o));
    }
}

/// What holds of the `i`-th node of a chain's output.
pub open spec fn chain_node(
    nodes: Seq<(usize, PlannedNode)>,
    out: Seq<(usize, ExecutedNode)>,
    i: int,
    lang: Seq<char>,
    config: Config,
    has_exec: bool,
    asked: Seq<Request>,
) -> bool {
    let pn = nodes[i].1;
    let n = out[i].1;
    &&& out[i].0 == nodes[i].0
    &&& n.lang@ == lang
    &&& n.hash == pn.hash
    &&& n.source_start == pn.source_start
    &&& n.source_end == pn.source_end
    &&& n.is_chunk == (pn.kind is Chunk)
    &&& n.source_line == source_line_of(pn.kind)
    &&& (failed_before(out, i) ==> n.typst_content@ == inert_text(pn.kind, config) && !n.errored)
    &&& (!failed_before(out, i) ==> sound_node(pn, n, lang, has_exec, asked))
}

/// Renders one node of a sound chain.
fn process_node<E: KnotExecutor, S: CacheStore>(
    pn: &PlannedNode,
    sm: &mut SnapshotManager<E>,
    lang: &str,
    cache: &mut Cache,
    store: &mut S,
    backend: &TypstBackend,
    cancellation: &Cancellation,
    non_reusable_reported: &mut bool,
) -> (r: Result<(String, bool), ChainError>)
    ensures
        final(cache).cache_dir == old(cache).cache_dir,
        final(sm).executor is Some <==> old(sm).executor is Some,
        final(sm).allow_snapshots == old(sm).allow_snapshots,
        !(pn.need is MustExecute) ==> (r is Ok && *final(cache) == *old(cache)),
        pn.need is MustExecute ==> (r matches Ok((t, e)) ==> must_execute_result(
            *pn,
            lang@,
            old(sm).executor is Some,
            requests_of(final(sm).executor),
            *old(cache),
            *final(cache),
            t@,
            e,
        )),
        r matches Ok((t, e)) ==> ({
            let n = ExecutedNode {
                lang: pn.lang,
                hash: pn.hash,
                source_start: 0,
                source_end: 0,
                typst_content: t,
                is_chunk: false,
                source_line: 0,
                errored: e,
            };
            sound_node(*pn, n, lang@, old(sm).executor is Some, requests_of(final(sm).executor))
        }),
        extends(requests_of(old(sm).executor), requests_of(final(sm).executor)),
{
    proof {
        lemma_extends_refl(requests_of(sm.executor));
    }
    match &pn.need {
        ExecutionNeed::CacheHit(ExecutionAttempt::RuntimeError(e)) => {
            let summary = e.summary();
            Ok((format_error_block_for_node(&pn.kind, lang, summary.as_str()), true))
        },
        ExecutionNeed::CacheHit(ExecutionAttempt::Success(o)) => {
            Ok((format_executed_node(pn, o, backend, &ChunkExecutionState::Ready), false))
        },
        ExecutionNeed::CacheHitInline(t) => Ok((t.clone(), false)),
        ExecutionNeed::Skip => Ok((skip_output(pn, backend, &ChunkExecutionState::Ready), false)),
        ExecutionNeed::MustExecute => {
            let ghost c0 = *cache;
            let ghost has = sm.executor is Some;
            let r = handle_must_execute(
                pn,
                sm,
                lang,
                cache,
                store,
                backend,
                cancellation,
                non_reusable_reported,
            );
            proof {
                let asked = requests_of(sm.executor);
                if r is Ok && !r->Ok_0.1 {
                    let t = r->Ok_0.0;
                    let e = r->Ok_0.1;
                    {
                        let (a, v, sh) = choose|
                            a: ExecutionAttempt,
                            v: Option<RuntimeError>,
                            sh: ExecutionAttempt,
                        | #[trigger] ran(*pn, lang@, c0, *cache, t@, e, a, v, sh) && answered(
                            pn.kind,
                            asked.last(),
                            a,
                        );
                        if sh is Success {
                            let o = sh->Success_0;
                            assert(answered(pn.kind, asked[asked.len() - 1], a));
                            assert(shown_from(pn.kind, asked, o));
                            assert(t@ == executed_text(pn.kind, o, ChunkExecutionState::Ready));
                        }
                    }
                }
            }
            r
        },
    }
}

/// Copy of a rendered node.
pub(crate) fn copy_node(n: &ExecutedNode) -> (r: ExecutedNode)
    ensures
        r == *n,
{
    ExecutedNode {
        lang: n.lang.clone(),
        hash: n.hash.clone(),
        source_start: n.source_start,
        source_end: n.source_end,
        typst_content: n.typst_content.clone(),
        is_chunk: n.is_chunk,
        source_line: n.source_line,
        errored: n.errored,
    }
}

/// Runs the nodes of one language, in document order, with the interpreter
/// `exec` (none when the language has no interpreter): each node is
/// rendered as `chain_node` states, and once a node fails every later node
/// is rendered inert without running. Each rendered node is sent to
/// `progress` with its position in the document. The chain stops when the
/// compilation is cancelled (before the next node, or after a node ran and
/// before its result is cached) or when the cache fails; otherwise it gives
/// the rendered nodes with their positions. The interpreter is given back
/// in every case.
pub fn run_language_chain<E: KnotExecutor, S: CacheStore, P: ProgressSink>(
    lang: &str,
    nodes: &Vec<(usize, PlannedNode)>,
    exec: Option<Interpreter<E>>,
    allow_snapshots: bool,
    cache: &mut Cache,
    store: &mut S,
    backend: &TypstBackend,
    config: &Config,
    progress: &mut P,
    cancellation: &Cancellation,
) -> (r: (Option<Interpreter<E>>, Result<Vec<(usize, ExecutedNode)>, ChainError>))
    ensures
        final(cache).cache_dir == old(cache).cache_dir,
        r.0 is Some <==> exec is Some,
        nodes@.len() == 0 ==> r.0 == exec && *final(cache) == *old(cache) && (r.1 matches Ok(out)
            && out@.len() == 0),
        r.1 matches Ok(out) ==> {
            &&& out@.len() == nodes@.len()
            &&& forall|i: int|
                0 <= i < nodes@.len() ==> #[trigger] chain_node(
                    nodes@,
                    out@,
                    i,
                    lang@,
                    *config,
                    exec is Some,
                    requests_of(r.0),
                )
        },
        extends(requests_of(exec), requests_of(r.0)),
{
    let has_exec = exec.is_some();
    proof {
        lemma_extends_refl(requests_of(exec));
    }
    let mut sm = SnapshotManager::new(exec, allow_snapshots);
    let mut out: Vec<(usize, ExecutedNode)> = Vec::new();
    let mut broken = false;
    let mut non_reusable_reported = false;
    let mut i: usize = 0;
    while i < nodes.len()
        invariant
            i <= nodes@.len(),
            out@.len() == i,
            i == 0 ==> sm.executor == exec && *cache == *old(cache),
            broken == failed_before(out@, i as int),
            sm.executor is Some <==> has_exec,
            has_exec == exec is Some,
            sm.allow_snapshots == allow_snapshots,
            cache.cache_dir == old(cache).cache_dir,
            forall|k: int|
                0 <= k < i ==> #[trigger] chain_node(
                    nodes@,
                    out@,
                    k,
                    lang@,
                    *config,
                    has_exec,
                    requests_of(sm.executor),
                ),
            extends(requests_of(exec), requests_of(sm.executor)),
        decreases nodes.len() - i,
    {
        match cancellation.check() {
            Ok(()) => {},
            Err(_) => return (sm.into_executor(), Err(ChainError::Cancelled)),
        }
        let doc_idx = nodes[i].0;
        let pn = &nodes[i].1;
        let (is_chunk, source_line) = crate::compiler::line_and_kind(&pn.kind);
        let ghost log0 = requests_of(sm.executor);
        let (content, errored) = if broken {
            proof {
                lemma_extends_refl(log0);
            }
            (inert_output(pn, backend, config), false)
        } else {
            let res = process_node(
                pn,
                &mut sm,
                lang,
                cache,
                store,
                backend,
                cancellation,
                &mut non_reusable_reported,
            );
            proof {
                lemma_extends_trans(requests_of(exec), log0, requests_of(sm.executor));
            }
            match res {
                Ok(x) => x,
                Err(e) => return (sm.into_executor(), Err(e)),
            }
        };
        let node = ExecutedNode {
            lang: lang.to_string(),
            hash: pn.hash.clone(),
            source_start: pn.source_start,
            source_end: pn.source_end,
            typst_content: content,
            is_chunk,
            source_line,
            errored,
        };
        progress.send(ProgressEvent { doc_idx, executed: copy_node(&node) });
        let ghost before = out@;
        out.push((doc_idx, node));
        proof {
            assert forall|k: int| 0 <= k <= i implies failed_before(out@, k) == failed_before(
                before,
                k,
            ) || k == i + 1 by {
                if failed_before(out@, k) {
                    let j = choose|j: int| 0 <= j < k && (#[trigger] out@[j]).1.errored;
                    assert(before[j] == out@[j]);
                }
                if failed_before(before, k) {
                    let j = choose|j: int| 0 <= j < k && (#[trigger] before[j]).1.errored;
                    assert(before[j] == out@[j]);
                }
            }
            assert forall|k: int| 0 <= k < i + 1 implies #[trigger] chain_node(
                nodes@,
                out@,
                k,
                lang@,
                *config,
                has_exec,
                requests_of(sm.executor),
            ) by {
                if k < i {
                    assert(chain_node(nodes@, before, k, lang@, *config, has_exec, log0));
                    assert(out@[k] == before[k]);
                    if !failed_before(before, k) {
                        lemma_sound_node_extends(
                            nodes@[k].1,
                            out@[k].1,
                            lang@,
                            has_exec,
                            log0,
                            requests_of(sm.executor),
                        );
                    }
                }
            }
            lemma_extends_trans(requests_of(exec), log0, requests_of(sm.executor));
            if errored {
                assert(out@[i as int].1.errored);
            }
            if broken {
                let j = choose|j: int| 0 <= j < i && (#[trigger] before[j]).1.errored;
                assert(out@[j] == before[j]);
            }
            if failed_before(out@, i + 1) && !broken {
                let j = choose|j: int| 0 <= j < i + 1 && (#[trigger] out@[j]).1.errored;
                if j < i {
                    assert(out@[j] == before[j]);
                }
            }
        }
        broken = broken || errored;
        i = i + 1;
    }
    (sm.into_executor(), Ok(out))
}

} // verus!
