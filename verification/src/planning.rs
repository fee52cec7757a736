//! Planning, the first pass of compilation: every executable node of a
//! document gets its options, its execution identity (chained with the
//! node before it in the same language) and what the execution pass must
//! do with it; no code runs.
use crate::ast::{options_view, resolve_inline, resolve_v, resolved_view, Chunk, InlineExpr};
use crate::cache::{chunk_position, inline_position, Cache, CacheError, CacheStore};
use crate::compiler::{
    ChunkExecutionState, ChunkPlanData, ExecutableNode, ExecutionNeed, PlannedNode,
    PlannedNodeKind,
};
use crate::config::{codly_merge, effective_defaults, overlay_v, resolve_options, Config};
use crate::hashing::{
    chunk_identity, compute_hash, dependencies_hash, fields_hash, get_inline_expr_hash,
    hash_result_view, inline_identity, resolved_dependencies, HashError, SCRIPTS_VERSION,
};
use crate::text::{chars_of, push_decimal, push_str, string_of};
use vstd::prelude::*;

verus! {

/// Why planning failed.
#[derive(Debug, Clone, PartialEq, Eq)]
pub enum PlanError {
    /// A dependency of a chunk is missing.
    Hash(HashError),
    /// A cached result could not be read back.
    Cache(CacheError),
}

/// Language of an executable node.
pub open spec fn executable_lang(n: ExecutableNode) -> Seq<char> {
    match n {
        ExecutableNode::Chunk(c) => c.language@,
        ExecutableNode::InlineExpr(e) => e.language@,
    }
}

/// Where an executable node begins in the source.
pub open spec fn executable_start(n: ExecutableNode) -> usize {
    match n {
        ExecutableNode::Chunk(c) => c.start_byte,
        ExecutableNode::InlineExpr(e) => e.start,
    }
}

/// Where an executable node ends in the source.
pub open spec fn executable_end(n: ExecutableNode) -> usize {
    match n {
        ExecutableNode::Chunk(c) => c.end_byte,
        ExecutableNode::InlineExpr(e) => e.end,
    }
}

/// Identity of the last node before `i` in language `lang`, or empty.
pub open spec fn previous_hash_at(planned: Seq<PlannedNode>, i: int, lang: Seq<char>) -> Seq<char>
    decreases i,
{
    if i <= 0 {
        Seq::empty()
    } else if planned[i - 1].lang@ == lang {
        planned[i - 1].hash@
    } else {
        previous_hash_at(planned, i - 1, lang)
    }
}

/// The value recorded last for `key` among `m`, or empty.
pub open spec fn last_value(m: Seq<(String, String)>, key: Seq<char>) -> Seq<char>
    decreases m.len(),
{
    if m.len() == 0 {
        Seq::empty()
    } else if m.last().0@ == key {
        m.last().1@
    } else {
        last_value(m.drop_last(), key)
    }
}

/// The value recorded last for `key`.
fn find_last_value(m: &Vec<(String, String)>, key: &str) -> (r: String)
    ensures
        r@ == last_value(m@, key@),
{
    let mut i = m.len();
    assert(m@.take(i as int) =~= m@);
    while i > 0
        invariant
            i <= m@.len(),
            last_value(m@, key@) == last_value(m@.take(i as int), key@),
        decreases i,
    {
        assert(m@.take(i as int).drop_last() =~= m@.take(i - 1));
        if crate::text::spells(&chars_of(m[i - 1].0.as_str()), key) {
            return m[i - 1].1.clone();
        }
        i = i - 1;
    }
    String::new()
}

/// Label of a chunk, or `chunk-<index>`.
pub open spec fn chunk_label(c: Chunk) -> Seq<char> {
    match c.name {
        Some(n) => n@,
        None => "chunk-"@ + crate::text::decimal(c.index as nat),
    }
}

/// What holds of the plan `pn` of `node` when the node before it in its
/// language has identity `previous`.
pub open spec fn planned_one(
    node: ExecutableNode,
    pn: PlannedNode,
    previous: Seq<char>,
    config: Config,
    cache: Cache,
    project_root: Seq<char>,
    threshold: Option<u64>,
) -> bool {
    let lang = executable_lang(node);
    &&& pn.lang@ == lang
    &&& pn.previous_hash@ == previous
    &&& pn.source_start == executable_start(node)
    &&& pn.source_end == executable_end(node)
    &&& pn.snapshot_warning_threshold == threshold
    &&& match node {
        ExecutableNode::Chunk(c) => match pn.kind {
            PlannedNodeKind::Chunk { node, data } => {
                let eff = effective_defaults(config, c.language@, ChunkExecutionState::Ready);
                let resolved = resolve_v(options_view(data.chunk_options));
                &&& *node == *c
                &&& options_view(data.chunk_options) == overlay_v(
                    eff.0,
                    options_view(c.options),
                )
                &&& resolved_view(data.resolved_options) == resolved
                &&& data.merged_codly_options@ == codly_merge(eff.1, c.codly_options@)
                &&& data.name@ == chunk_label(*c)
                &&& exists|contents: Seq<Option<Vec<u8>>>, d: Seq<char>|
                    contents.len() == data.chunk_options.depends@.len() && dependencies_hash(
                        resolved_dependencies(
                            project_root,
                            data.chunk_options.depends@,
                            contents,
                        ),
                    ) == Ok::<Seq<char>, Seq<char>>(d) && pn.hash@ == fields_hash(
                        chunk_identity(
                            c.language@,
                            c.code@,
                            data.chunk_options,
                            previous,
                            d,
                            SCRIPTS_VERSION@,
                        ),
                    )
                &&& !resolved.eval ==> pn.need is Skip
                &&& resolved.eval && resolved.cache && chunk_position(
                    cache.metadata.chunks@,
                    pn.hash@,
                ) is Some ==> pn.need is CacheHit
                &&& resolved.eval && !(resolved.cache && chunk_position(
                    cache.metadata.chunks@,
                    pn.hash@,
                ) is Some) ==> pn.need is MustExecute
            },
            PlannedNodeKind::Inline { node: _ } => false,
        },
        ExecutableNode::InlineExpr(e) => match pn.kind {
            PlannedNodeKind::Inline { node } => {
                let eval = resolve_inline(e.options).eval;
                &&& node == e
                &&& pn.hash@ == fields_hash(inline_identity(e.language@, e.code@, e.options, previous))
                &&& !eval ==> pn.need is Skip
                &&& (eval ==> (inline_position(cache.metadata.inline_expressions@, pn.hash@) matches Some(
                    k,
                ) ==> (pn.need matches ExecutionNeed::CacheHitInline(t) && t@
                    == cache.metadata.inline_expressions@[k].result@)))
                &&& eval && inline_position(cache.metadata.inline_expressions@, pn.hash@) is None
                    ==> pn.need is MustExecute
            },
            PlannedNodeKind::Chunk { node: _, data: _ } => false,
        },
    }
}

/// What holds of the `i`-th planned node of `nodes`.
pub open spec fn planned_node(
    nodes: Seq<ExecutableNode>,
    planned: Seq<PlannedNode>,
    i: int,
    config: Config,
    cache: Cache,
    project_root: Seq<char>,
    threshold: Option<u64>,
) -> bool {
    planned_one(
        nodes[i],
        planned[i],
        previous_hash_at(planned, i, executable_lang(nodes[i])),
        config,
        cache,
        project_root,
        threshold,
    )
}

/// Contents of the `depends` files of a chunk, resolved against the project
/// root (`None` for a file that cannot be read).
fn dependency_contents<S: CacheStore>(project_root: &str, depends: &Vec<String>, store: &S) -> (r:
    Vec<Option<Vec<u8>>>)
    ensures
        r@.len() == depends@.len(),
{
    let mut r: Vec<Option<Vec<u8>>> = Vec::new();
    let mut i: usize = 0;
    while i < depends.len()
        invariant
            i <= depends@.len(),
            r@.len() == i,
        decreases depends.len() - i,
    {
        let path = crate::sync::join_path(project_root, &chars_of(depends[i].as_str()));
        r.push(store.read_bytes(path.as_str()));
        i = i + 1;
    }
    r
}

/// Whether planning `node` reads nothing that can fail: an inline
/// expression; a chunk with no dependency file that is not evaluated or
/// whose results are not cached.
pub open spec fn plans_without_reading(node: ExecutableNode, config: Config) -> bool {
    match node {
        ExecutableNode::Chunk(c) => {
            let o = overlay_v(
                effective_defaults(config, c.language@, ChunkExecutionState::Ready).0,
                options_view(c.options),
            );
            o.depends.len() == 0 && (!resolve_v(o).eval || !resolve_v(o).cache)
        },
        ExecutableNode::InlineExpr(_) => true,
    }
}

/// Plans one node whose language's previous node has identity `previous`.
fn plan_node<S: CacheStore>(
    node: ExecutableNode,
    previous: String,
    config: &Config,
    cache: &Cache,
    project_root: &str,
    store: &S,
    snapshot_warning_threshold: Option<u64>,
) -> (r: Result<PlannedNode, PlanError>)
    ensures
        r matches Ok(pn) ==> planned_one(
            node,
            pn,
            previous@,
            *config,
            *cache,
            project_root@,
            snapshot_warning_threshold,
        ),
        plans_without_reading(node, *config) ==> r is Ok,
{
    let ghost node0 = node;
    let pn = match node {
            ExecutableNode::Chunk(chunk) => {
                let lang = chunk.language.clone();
                let (chunk_options, resolved_options, merged_codly_options) = resolve_options(
                    &chunk,
                    config,
                    &ChunkExecutionState::Ready,
                );
                let name = match &chunk.name {
                    Some(n) => n.clone(),
                    None => {
                        let mut t = chars_of("chunk-");
                        push_decimal(&mut t, chunk.index as u64);
                        string_of(&t)
                    },
                };
                let contents = dependency_contents(project_root, &chunk_options.depends, store);
                proof {
                    if plans_without_reading(node0, *config) {
                        assert(resolved_dependencies(
                            project_root@,
                            chunk_options.depends@,
                            contents@,
                        ).len() == 0);
                    }
                }
                let hash = match compute_hash(
                    chunk.language.as_str(),
                    chunk.code.as_str(),
                    &chunk_options,
                    previous.as_str(),
                    project_root,
                    &contents,
                ) {
                    Ok(h) => h,
                    Err(e) => return Err(PlanError::Hash(e)),
                };
                let need = if !resolved_options.eval {
                    ExecutionNeed::Skip
                } else if resolved_options.cache && cache.has_cached_result(hash.as_str()) {
                    match cache.get_cached_result(hash.as_str(), store) {
                        Ok(a) => ExecutionNeed::CacheHit(a),
                        Err(e) => return Err(PlanError::Cache(e)),
                    }
                } else {
                    ExecutionNeed::MustExecute
                };
                let source_start = chunk.start_byte;
                let source_end = chunk.end_byte;
                PlannedNode {
                    kind: PlannedNodeKind::Chunk {
                        node: chunk,
                        data: Box::new(
                            ChunkPlanData {
                                resolved_options,
                                chunk_options,
                                merged_codly_options,
                                name,
                            },
                        ),
                    },
                    lang,
                    hash,
                    previous_hash: previous,
                    source_start,
                    source_end,
                    need,
                    snapshot_warning_threshold,
                }
            },
            ExecutableNode::InlineExpr(inline) => {
                let lang = inline.language.clone();
                let resolved = inline.options.resolve();
                let hash = get_inline_expr_hash(
                    inline.language.as_str(),
                    inline.code.as_str(),
                    &inline.options,
                    previous.as_str(),
                );
                let need = if !resolved.eval {
                    ExecutionNeed::Skip
                } else if cache.has_cached_inline_result(hash.as_str()) {
                    match cache.get_cached_inline_result(hash.as_str()) {
                        Ok(t) => ExecutionNeed::CacheHitInline(t),
                        Err(e) => return Err(PlanError::Cache(e)),
                    }
                } else {
                    ExecutionNeed::MustExecute
                };
                let source_start = inline.start;
                let source_end = inline.end;
                PlannedNode {
                    kind: PlannedNodeKind::Inline { node: inline },
                    lang,
                    hash,
                    previous_hash: previous,
                    source_start,
                    source_end,
                    need,
                    snapshot_warning_threshold,
                }
            },
        };
    Ok(pn)
}

/// Plans every node (see `planned_node`): options resolved with the
/// configuration, identity chained per language (dependency files read
/// through `store` under `project_root`), and what to do: skip a node not
/// evaluated, take a cached result, or execute. Fails when a dependency is
/// missing or a cached result cannot be read back.
pub fn plan_pass<S: CacheStore>(
    nodes: Vec<ExecutableNode>,
    config: &Config,
    cache: &Cache,
    project_root: &str,
    store: &S,
    snapshot_warning_threshold: Option<u64>,
) -> (r: Result<Vec<PlannedNode>, PlanError>)
    ensures
        r matches Ok(planned) ==> planned@.len() == nodes@.len() && forall|i: int|
            0 <= i < nodes@.len() ==> #[trigger] planned_node(
                nodes@,
                planned@,
                i,
                *config,
                *cache,
                project_root@,
                snapshot_warning_threshold,
            ),
        (forall|i: int| 0 <= i < nodes@.len() ==> plans_without_reading(#[trigger] nodes@[i], *config))
            ==> r is Ok,
{
    let ghost all = nodes@;
    let total = nodes.len();
    let mut rest = nodes;
    let mut planned: Vec<PlannedNode> = Vec::new();
    let mut last: Vec<(String, String)> = Vec::new();
    let mut i: usize = 0;
    while rest.len() > 0
        invariant
            all.len() == total,
            all == nodes@,
            planned@.len() == i,
            i + rest@.len() == all.len(),
            rest@ == all.skip(i as int),
            forall|s: Seq<char>| #[trigger]
                last_value(last@, s) == previous_hash_at(planned@, i as int, s),
            forall|k: int|
                0 <= k < i ==> #[trigger] planned_node(
                    all,
                    planned@,
                    k,
                    *config,
                    *cache,
                    project_root@,
                    snapshot_warning_threshold,
                ),
        decreases rest.len(),
    {
        let node = rest.remove(0);
        assert(node == all[i as int]);
        assert(rest@ =~= all.skip(i + 1));
        let lang = match &node {
            ExecutableNode::Chunk(c) => c.language.clone(),
            ExecutableNode::InlineExpr(e) => e.language.clone(),
        };
        let previous = find_last_value(&last, lang.as_str());
        proof {
            if forall|j: int| 0 <= j < all.len() ==> plans_without_reading(#[trigger] all[j], *config) {
                assert(plans_without_reading(all[i as int], *config));
            }
        }
        let pn = plan_node(node, previous, config, cache, project_root, store, snapshot_warning_threshold)?;
        let ghost p0 = planned@;
        let ghost l0 = last@;
        last.push((pn.lang.clone(), pn.hash.clone()));
        planned.push(pn);
        proof {
            lemma_previous_prefix(p0, planned@, i as int);
            assert(last@.drop_last() =~= l0);
            assert(planned@[i as int] == pn);
            assert forall|s: Seq<char>| #[trigger]
                last_value(last@, s) == previous_hash_at(planned@, i + 1, s) by {
                assert(last_value(l0, s) == previous_hash_at(p0, i as int, s));
                assert(previous_hash_at(planned@, i as int, s) == previous_hash_at(p0, i as int, s));
            }
            assert(lang@ == executable_lang(all[i as int]));
            assert(planned_node(
                all,
                planned@,
                i as int,
                *config,
                *cache,
                project_root@,
                snapshot_warning_threshold,
            ));
            assert forall|k: int| 0 <= k < i + 1 implies #[trigger] planned_node(
                all,
                planned@,
                k,
                *config,
                *cache,
                project_root@,
                snapshot_warning_threshold,
            ) by {
                lemma_previous_prefix(p0, planned@, k);
                if k < i {
                    assert(planned_node(
                        all,
                        p0,
                        k,
                        *config,
                        *cache,
                        project_root@,
                        snapshot_warning_threshold,
                    ));
                    assert(planned@[k] == p0[k]);
                }
            }
        }
        i = i + 1;
    }
    Ok(planned)
}

/// Extending the plan does not change the previous identity of earlier
/// nodes.
proof fn lemma_previous_prefix(a: Seq<PlannedNode>, b: Seq<PlannedNode>, k: int)
    requires
        0 <= k <= a.len() <= b.len(),
        forall|j: int| 0 <= j < a.len() ==> a[j] == b[j],
    ensures
        forall|s: Seq<char>| #[trigger] previous_hash_at(b, k, s) == previous_hash_at(a, k, s),
    decreases k,
{
    if k > 0 {
        lemma_previous_prefix(a, b, k - 1);
        assert(a[k - 1] == b[k - 1]);
        assert forall|s: Seq<char>| #[trigger]
            previous_hash_at(b, k, s) == previous_hash_at(a, k, s) by {
            assert(previous_hash_at(b, k - 1, s) == previous_hash_at(a, k - 1, s));
        }
    }
}

// ---------------------------------------------------------------------------
// Executable nodes in source order
// ---------------------------------------------------------------------------

/// `x` inserted into `l` after every node that does not begin after it.
pub open spec fn insert_by_start(x: ExecutableNode, l: Seq<ExecutableNode>) -> Seq<ExecutableNode>
    decreases l.len(),
{
    if l.len() == 0 {
        seq![x]
    } else if executable_start(l.last()) <= executable_start(x) {
        l.push(x)
    } else {
        insert_by_start(x, l.drop_last()).push(l.last())
    }
}

/// The nodes `s` sorted by where they begin, nodes that begin at the same
/// place kept in their order (a stable sort).
pub open spec fn sorted_by_start(s: Seq<ExecutableNode>) -> Seq<ExecutableNode>
    decreases s.len(),
{
    if s.len() == 0 {
        s
    } else {
        insert_by_start(s.last(), sorted_by_start(s.drop_last()))
    }
}

/// Inserting after the last node that does not begin after `x` splits `l`
/// there.
proof fn lemma_insert_by_start(x: ExecutableNode, l: Seq<ExecutableNode>, p: int)
    requires
        0 <= p <= l.len(),
        forall|j: int| p <= j < l.len() ==> executable_start(#[trigger] l[j]) > executable_start(x),
        p > 0 ==> executable_start(l[p - 1]) <= executable_start(x),
    ensures
        insert_by_start(x, l) == l.take(p) + seq![x] + l.skip(p),
    decreases l.len(),
{
    if l.len() == 0 {
        assert(l.take(p) + seq![x] + l.skip(p) =~= seq![x]);
    } else if p == l.len() {
        assert(l.take(p) + seq![x] + l.skip(p) =~= l.push(x));
    } else {
        let t = l.drop_last();
        assert(executable_start(l[l.len() - 1]) > executable_start(x));
        assert forall|j: int| p <= j < t.len() implies executable_start(#[trigger] t[j])
            > executable_start(x) by {
            assert(t[j] == l[j]);
        }
        if p > 0 {
            assert(t[p - 1] == l[p - 1]);
        }
        lemma_insert_by_start(x, t, p);
        assert(t.take(p) + seq![x] + t.skip(p) + seq![l.last()] =~= l.take(p) + seq![x] + l.skip(
            p,
        ));
    }
}

/// Where a node begins.
fn start_of(n: &ExecutableNode) -> (r: usize)
    ensures
        r == executable_start(*n),
{
    match n {
        ExecutableNode::Chunk(c) => c.start_byte,
        ExecutableNode::InlineExpr(e) => e.start,
    }
}

/// The chunks and inline expressions of a document as executable nodes,
/// sorted by where they begin (a chunk before an inline expression that
/// begins at the same place).
pub fn build_executable_nodes(chunks: Vec<Chunk>, inline_exprs: Vec<InlineExpr>) -> (r: Vec<
    ExecutableNode,
>)
    ensures
        r@ == sorted_by_start(
            chunks@.map_values(|c: Chunk| ExecutableNode::Chunk(Box::new(c))) + inline_exprs@.map_values(
                |e: InlineExpr| ExecutableNode::InlineExpr(e),
            ),
        ),
{
    let ghost all = chunks@.map_values(|c: Chunk| ExecutableNode::Chunk(Box::new(c)))
        + inline_exprs@.map_values(|e: InlineExpr| ExecutableNode::InlineExpr(e));
    let mut pending: Vec<ExecutableNode> = Vec::new();
    let mut chunks = chunks;
    let ghost c0 = chunks@;
    let mut k: usize = 0;
    let nc = chunks.len();
    while chunks.len() > 0
        invariant
            k + chunks@.len() == c0.len(),
            c0.len() == nc,
            chunks@ == c0.skip(k as int),
            pending@ == c0.take(k as int).map_values(|c: Chunk| ExecutableNode::Chunk(Box::new(c))),
        decreases chunks.len(),
    {
        let c = chunks.remove(0);
        assert(c == c0[k as int]);
        pending.push(ExecutableNode::Chunk(Box::new(c)));
        assert(chunks@ =~= c0.skip(k + 1));
        assert(pending@ =~= c0.take(k + 1).map_values(
            |c: Chunk| ExecutableNode::Chunk(Box::new(c)),
        ));
        k = k + 1;
    }
    assert(c0.take(nc as int) =~= c0);
    let mut inlines = inline_exprs;
    let ghost e0 = inlines@;
    let ghost p0 = pending@;
    let mut m: usize = 0;
    let ne = inlines.len();
    while inlines.len() > 0
        invariant
            m + inlines@.len() == e0.len(),
            e0.len() == ne,
            inlines@ == e0.skip(m as int),
            pending@ == p0 + e0.take(m as int).map_values(
                |e: InlineExpr| ExecutableNode::InlineExpr(e),
            ),
        decreases inlines.len(),
    {
        let e = inlines.remove(0);
        assert(e == e0[m as int]);
        pending.push(ExecutableNode::InlineExpr(e));
        assert(inlines@ =~= e0.skip(m + 1));
        assert(pending@ =~= p0 + e0.take(m + 1).map_values(
            |e: InlineExpr| ExecutableNode::InlineExpr(e),
        ));
        m = m + 1;
    }
    assert(e0.take(ne as int) =~= e0);
    assert(pending@ =~= all);
    let mut sorted: Vec<ExecutableNode> = Vec::new();
    let mut taken: usize = 0;
    let total = pending.len();
    while pending.len() > 0
        invariant
            taken + pending@.len() == all.len(),
            all.len() == total,
            pending@ == all.skip(taken as int),
            sorted@ == sorted_by_start(all.take(taken as int)),
        decreases pending.len(),
    {
        let x = pending.remove(0);
        assert(x == all[taken as int]);
        assert(pending@ =~= all.skip(taken + 1));
        let key = start_of(&x);
        let mut p = sorted.len();
        while p > 0 && start_of(&sorted[p - 1]) > key
            invariant
                p <= sorted@.len(),
                forall|j: int|
                    p <= j < sorted@.len() ==> executable_start(#[trigger] sorted@[j]) > key,
            decreases p,
        {
            p = p - 1;
        }
        proof {
            lemma_insert_by_start(x, sorted@, p as int);
            let t = all.take(taken + 1);
            assert(t.drop_last() =~= all.take(taken as int));
            assert(t.last() == x);
        }
        sorted.insert(p, x);
        assert(sorted@ =~= sorted_by_start(all.take(taken + 1)));
        taken = taken + 1;
    }
    assert(all.take(total as int) =~= all);
    sorted
}

} // verus!
