//! The execution pass of a compilation: the planned nodes are grouped by
//! language, each language runs as one chain with its own interpreter, and
//! the rendered nodes are put back in document order.
use crate::ast::{Chunk, InlineExpr};
use crate::backend::TypstBackend;
use crate::cache::{Cache, CacheError, CacheMetadata, CacheStore};
use crate::compiler::{
    assembled, node_view, node_views, try_assemble, AsmState, ExecutableNode, NodeV,
};
use crate::compiler::asm_run;
use crate::planning::{
    build_executable_nodes, executable_end, executable_start, plan_pass, planned_node,
    sorted_by_start, PlanError,
};
use crate::cancellation::Cancellation;
use crate::compiler::{source_line_of, ExecutedNode, ExecutionNeed, PlannedNode};
use crate::config::Config;
use crate::execution::{
    chain_node, copy_node, failed_before, inert_text, run_language_chain, sound_node, ChainError,
    ProgressSink,
};
use crate::executors::manager::{ExecutorFactory, ExecutorManager};
use crate::executors::{requests_of, Interpreter, KnotExecutor, Request};
use crate::text::{chars_of, same_chars};
use vstd::prelude::*;

verus! {

/// The nodes of `planned` in language `lang`, each with its position, in
/// document order.
pub open spec fn nodes_of_lang(planned: Seq<PlannedNode>, lang: Seq<char>) -> Seq<
    (usize, PlannedNode),
>
    decreases planned.len(),
{
    if planned.len() == 0 {
        Seq::empty()
    } else {
        let rest = nodes_of_lang(planned.drop_last(), lang);
        if planned.last().lang@ == lang {
            rest.push(((planned.len() - 1) as usize, planned.last()))
        } else {
            rest
        }
    }
}

/// Whether a node of the same language before the `i`-th one failed.
pub open spec fn earlier_failure(planned: Seq<PlannedNode>, v: Seq<ExecutedNode>, i: int) -> bool {
    exists|j: int|
        0 <= j < i && planned[j].lang@ == planned[i].lang@ && (#[trigger] v[j]).errored
}

/// What holds of the `i`-th rendered node of a document: it is rendered
/// where its planned node stands; once a node of its language failed it is
/// inert; before that it is rendered as a sound chain renders it.
pub open spec fn pass_node<E: KnotExecutor>(
    planned: Seq<PlannedNode>,
    v: Seq<ExecutedNode>,
    i: int,
    config: Config,
    manager: ExecutorManager<E>,
) -> bool {
    let pn = planned[i];
    let n = v[i];
    &&& n.lang@ == pn.lang@
    &&& n.hash == pn.hash
    &&& n.source_start == pn.source_start
    &&& n.source_end == pn.source_end
    &&& n.is_chunk == (pn.kind is Chunk)
    &&& n.source_line == source_line_of(pn.kind)
    &&& (earlier_failure(planned, v, i) ==> n.typst_content@ == inert_text(pn.kind, config)
        && !n.errored)
    &&& (!earlier_failure(planned, v, i) ==> sound_node(pn, n, pn.lang@, true, manager.requests(pn.lang@)))
}

/// What holds of the grouping of the first nodes of a document: each
/// language once, with its nodes in order, and every language present.
pub open spec fn grouped(
    langs: Seq<String>,
    members: Seq<Vec<(usize, PlannedNode)>>,
    planned: Seq<PlannedNode>,
) -> bool {
    &&& langs.len() == members.len()
    &&& forall|a: int, b: int| 0 <= a < b < langs.len() ==> langs[a]@ != langs[b]@
    &&& forall|g: int| 0 <= g < langs.len() ==> (#[trigger] members[g])@ == nodes_of_lang(planned, langs[g]@)
    &&& forall|j: int|
        #![trigger planned[j]]
        0 <= j < planned.len() ==> exists|g: int|
            0 <= g < langs.len() && (#[trigger] langs[g])@ == planned[j].lang@
}

/// The nodes of a language: where each stands, in increasing order, and
/// every node of the language among them.
pub proof fn lemma_nodes_of_lang(planned: Seq<PlannedNode>, lang: Seq<char>)
    requires
        planned.len() <= usize::MAX,
    ensures
        forall|k: int|
            0 <= k < nodes_of_lang(planned, lang).len() ==> {
                let m = #[trigger] nodes_of_lang(planned, lang)[k];
                &&& m.0 < planned.len()
                &&& planned[m.0 as int] == m.1
                &&& m.1.lang@ == lang
            },
        forall|k1: int, k2: int|
            0 <= k1 < k2 < nodes_of_lang(planned, lang).len() ==> nodes_of_lang(planned, lang)[k1].0
                < nodes_of_lang(planned, lang)[k2].0,
        forall|j: int|
            #![trigger planned[j]]
            0 <= j < planned.len() && planned[j].lang@ == lang ==> exists|k: int|
                0 <= k < nodes_of_lang(planned, lang).len() && #[trigger] nodes_of_lang(
                    planned,
                    lang,
                )[k].0 == j,
    decreases planned.len(),
{
    if planned.len() > 0 {
        let p = planned.drop_last();
        lemma_nodes_of_lang(p, lang);
        let rest = nodes_of_lang(p, lang);
        let m = nodes_of_lang(planned, lang);
        assert forall|k: int| 0 <= k < rest.len() implies rest[k].0 < p.len() && p[rest[k].0 as int]
            == rest[k].1 by {
            let x = rest[k];
        }
        assert forall|j: int|
            #![trigger planned[j]]
            0 <= j < planned.len() && planned[j].lang@ == lang implies exists|k: int|
            0 <= k < m.len() && #[trigger] m[k].0 == j by {
            if j < p.len() {
                assert(p[j] == planned[j]);
                let k = choose|k: int| 0 <= k < rest.len() && #[trigger] rest[k].0 == j;
                assert(m[k] == rest[k]);
            } else {
                assert(m[m.len() - 1].0 == j);
            }
        }
        assert forall|k: int| 0 <= k < m.len() implies {
            let x = #[trigger] m[k];
            &&& x.0 < planned.len()
            &&& planned[x.0 as int] == x.1
            &&& x.1.lang@ == lang
        } by {
            if k < rest.len() {
                let x = rest[k];
                assert(m[k] == x);
                assert(x.0 < p.len());
                assert(planned[x.0 as int] == p[x.0 as int]);
            }
        }
        assert forall|k1: int, k2: int| 0 <= k1 < k2 < m.len() implies m[k1].0 < m[k2].0 by {
            if k2 < rest.len() {
                assert(m[k1] == rest[k1]);
                assert(m[k2] == rest[k2]);
            } else {
                assert(m[k1] == rest[k1]);
                let x = rest[k1];
                assert(x.0 < p.len());
            }
        }
    }
}

/// Whether some node of `nodes` must be executed.
fn needs_execution(nodes: &Vec<(usize, PlannedNode)>) -> (r: bool)
    ensures
        r == exists|i: int| 0 <= i < nodes@.len() && (#[trigger] nodes@[i]).1.need is MustExecute,
{
    let mut i: usize = 0;
    while i < nodes.len()
        invariant
            i <= nodes@.len(),
            forall|j: int| 0 <= j < i ==> !((#[trigger] nodes@[j]).1.need is MustExecute),
        decreases nodes.len() - i,
    {
        if let ExecutionNeed::MustExecute = nodes[i].1.need {
            return true;
        }
        i = i + 1;
    }
    false
}

/// A language that no node has has no nodes.
proof fn lemma_absent_lang(planned: Seq<PlannedNode>, lang: Seq<char>)
    requires
        forall|j: int| 0 <= j < planned.len() ==> (#[trigger] planned[j]).lang@ != lang,
    ensures
        nodes_of_lang(planned, lang) == Seq::<(usize, PlannedNode)>::empty(),
    decreases planned.len(),
{
    if planned.len() > 0 {
        let p = planned.drop_last();
        assert forall|j: int| 0 <= j < p.len() implies (#[trigger] p[j]).lang@ != lang by {
            assert(p[j] == planned[j]);
        }
        lemma_absent_lang(p, lang);
        assert(planned.last() == planned[planned.len() - 1]);
    }
}

/// Position of the language `lang` among `langs`.
fn find_lang(langs: &Vec<String>, lang: &str) -> (r: Option<usize>)
    ensures
        r matches Some(g) ==> g < langs@.len() && langs@[g as int]@ == lang@,
        r is None ==> forall|a: int| 0 <= a < langs@.len() ==> (#[trigger] langs@[a])@ != lang@,
{
    let l = chars_of(lang);
    let mut g: usize = 0;
    while g < langs.len()
        invariant
            g <= langs@.len(),
            l@ == lang@,
            forall|a: int| 0 <= a < g ==> (#[trigger] langs@[a])@ != lang@,
        decreases langs.len() - g,
    {
        if same_chars(&chars_of(langs[g].as_str()), &l) {
            return Some(g);
        }
        g = g + 1;
    }
    None
}

/// Groups the planned nodes by language, in the order the languages first
/// appear, keeping each node's position.
fn group_by_language(planned: Vec<PlannedNode>) -> (r: (Vec<String>, Vec<Vec<(usize, PlannedNode)>>))
    ensures
        grouped(r.0@, r.1@, planned@),
{
    let ghost all = planned@;
    let total = planned.len();
    let mut rest = planned;
    let mut langs: Vec<String> = Vec::new();
    let mut members: Vec<Vec<(usize, PlannedNode)>> = Vec::new();
    let mut i: usize = 0;
    assert(all.take(0) =~= Seq::<PlannedNode>::empty());
    while rest.len() > 0
        invariant
            total == all.len(),
            i + rest@.len() == total,
            rest@ == all.skip(i as int),
            grouped(langs@, members@, all.take(i as int)),
        decreases rest.len(),
    {
        let ghost before_rest = rest@;
        let pn = rest.remove(0);
        assert(rest@ =~= all.skip(i + 1));
        assert(pn == all[i as int]);
        let ghost pre = all.take(i as int);
        let ghost now = all.take(i + 1);
        assert(now.drop_last() =~= pre);
        assert(now.last() == pn);
        let ghost old_langs = langs@;
        let ghost old_members = members@;
        let found = find_lang(&langs, pn.lang.as_str());
        if let Some(g) = found {
            let mut m = members.remove(g);
            m.push((i, pn));
            members.insert(g, m);
            proof {
                assert(members@ =~= old_members.update(g as int, members@[g as int]));
                assert(members@[g as int]@ =~= old_members[g as int]@.push((i, pn)));
                assert forall|x: int| 0 <= x < langs@.len() implies (#[trigger] members@[x])@
                    == nodes_of_lang(now, langs@[x]@) by {
                    if x != g {
                        assert(members@[x] == old_members[x]);
                    }
                }
                assert forall|j: int| #![trigger now[j]] 0 <= j < now.len() implies exists|x: int|
                    0 <= x < langs@.len() && (#[trigger] langs@[x])@ == now[j].lang@ by {
                    if j < i {
                        assert(now[j] == pre[j]);
                    } else {
                        assert(langs@[g as int]@ == now[j].lang@);
                    }
                }
            }
        } else {
            langs.push(pn.lang.clone());
            let mut m: Vec<(usize, PlannedNode)> = Vec::new();
            m.push((i, pn));
            members.push(m);
            proof {
                assert forall|j: int| 0 <= j < pre.len() implies (#[trigger] pre[j]).lang@
                    != pn.lang@ by {
                    let x = choose|x: int|
                        0 <= x < old_langs.len() && (#[trigger] old_langs[x])@ == pre[j].lang@;
                }
                lemma_absent_lang(pre, pn.lang@);
                assert forall|x: int| 0 <= x < langs@.len() implies (#[trigger] members@[x])@
                    == nodes_of_lang(now, langs@[x]@) by {
                    if x < old_langs.len() {
                        assert(members@[x] == old_members[x]);
                        assert(langs@[x] == old_langs[x]);
                    } else {
                        assert(members@[x]@ =~= seq![(i, pn)]);
                    }
                }
                assert forall|j: int| #![trigger now[j]] 0 <= j < now.len() implies exists|x: int|
                    0 <= x < langs@.len() && (#[trigger] langs@[x])@ == now[j].lang@ by {
                    if j < i {
                        assert(now[j] == pre[j]);
                        let x = choose|x: int|
                            0 <= x < old_langs.len() && (#[trigger] old_langs[x])@ == pre[j].lang@;
                        assert(langs@[x] == old_langs[x]);
                    } else {
                        assert(langs@[old_langs.len() as int]@ == now[j].lang@);
                    }
                }
            }
        }
        i = i + 1;
    }
    assert(all.take(total as int) =~= all);
    (langs, members)
}


/// The rendered nodes, put back in document order, are what their chains
/// made of them: a failure in a chain makes every later node of its
/// language inert.
proof fn lemma_pass_nodes<E: KnotExecutor>(
    all: Seq<PlannedNode>,
    langs: Seq<String>,
    members: Seq<Vec<(usize, PlannedNode)>>,
    outs: Seq<Vec<(usize, ExecutedNode)>>,
    has: Seq<bool>,
    logs: Seq<Seq<Request>>,
    v: Seq<ExecutedNode>,
    config: Config,
    manager: ExecutorManager<E>,
)
    requires
        logs.len() == langs.len(),
        forall|g: int| 0 <= g < langs.len() && has[g] ==> manager.requests(langs[g]@) == #[trigger] logs[g],
        all.len() <= usize::MAX,
        grouped(langs, members, all),
        outs.len() == langs.len(),
        has.len() == langs.len(),
        forall|g: int| 0 <= g < langs.len() ==> (#[trigger] outs[g])@.len() == members[g]@.len(),
        forall|g: int, k: int|
            0 <= g < langs.len() && 0 <= k < members[g]@.len() ==> #[trigger] chain_node(
                members[g]@,
                outs[g]@,
                k,
                langs[g]@,
                config,
                has[g],
                logs[g],
            ),
        v.len() == all.len(),
        forall|g: int, k: int|
            0 <= g < langs.len() && 0 <= k < members[g]@.len() ==> v[(#[trigger] members[g]@[k]).0 as int]
                == outs[g]@[k].1,
    ensures
        forall|i: int| 0 <= i < all.len() ==> #[trigger] pass_node(all, v, i, config, manager),
{
    assert forall|i: int| 0 <= i < all.len() implies #[trigger] pass_node(all, v, i, config, manager) by {
        let g = choose|g: int| 0 <= g < langs.len() && (#[trigger] langs[g])@ == all[i].lang@;
        let lang = langs[g]@;
        lemma_nodes_of_lang(all, lang);
        let m = members[g]@;
        assert(m == nodes_of_lang(all, lang));
        let k = choose|k: int| 0 <= k < nodes_of_lang(all, lang).len() && #[trigger] nodes_of_lang(
            all,
            lang,
        )[k].0 == i;
        let o = outs[g]@;
        assert(chain_node(m, o, k, lang, config, has[g], logs[g]));
        if has[g] {
            assert(manager.requests(lang) == logs[g]);
        }
        assert(m[k].0 == i);
        assert(all[i] == m[k].1);
        assert(v[i] == o[k].1);
        if failed_before(o, k) {
            let k1 = choose|k1: int| 0 <= k1 < k && (#[trigger] o[k1]).1.errored;
            let j = m[k1].0 as int;
            assert(j < i);
            assert(v[j] == o[k1].1);
            assert(all[j] == m[k1].1);
            assert(earlier_failure(all, v, i));
        }
        if earlier_failure(all, v, i) {
            let j = choose|j: int| 0 <= j < i && all[j].lang@ == all[i].lang@ && (#[trigger] v[j]).errored;
            let k1 = choose|k1: int| 0 <= k1 < nodes_of_lang(all, lang).len() && #[trigger] nodes_of_lang(
                all,
                lang,
            )[k1].0 == j;
            if k1 >= k {
                if k1 > k {
                    assert(m[k].0 < m[k1].0);
                }
            }
            assert(k1 < k);
            assert(v[j] == o[k1].1);
            assert(o[k1].1.errored);
            assert(failed_before(o, k));
        }
    }
}

/// Runs the execution pass of a compilation: the planned nodes are grouped
/// by language; each language that has a node to execute gets its
/// interpreter from `manager` (started through `factory` on first use),
/// and each language runs as one chain (see `run_language_chain`). The
/// interpreters go back to `manager`, and the rendered nodes come back in
/// document order: each as `pass_node` states, so that once a node fails,
/// every later node of its language is inert. The first chain that stops
/// (cancellation, cache or interpreter failure) makes the pass fail, after
/// every interpreter went back.
pub fn execute_pass<E: KnotExecutor, F: ExecutorFactory<E>, S: CacheStore, P: ProgressSink>(
    planned: Vec<PlannedNode>,
    manager: &mut ExecutorManager<E>,
    factory: &mut F,
    allow_snapshots: bool,
    cache: &mut Cache,
    store: &mut S,
    backend: &TypstBackend,
    config: &Config,
    progress: &mut P,
    cancellation: &Cancellation,
) -> (r: Result<Vec<ExecutedNode>, ChainError>)
    requires
        old(manager).well_formed(),
    ensures
        final(manager).well_formed(),
        final(manager).dir() == old(manager).dir(),
        final(cache).cache_dir == old(cache).cache_dir,
        r matches Ok(v) ==> v@.len() == planned@.len() && forall|i: int|
            0 <= i < planned@.len() ==> #[trigger] pass_node(planned@, v@, i, *config, *final(manager)),
        planned@.len() == 0 ==> r is Ok,
        forall|l: Seq<char>|
            #[trigger] old(manager).languages().contains(l) ==> final(manager).languages().contains(l),
{
    let ghost all = planned@;
    let ghost dir = manager.dir();
    let ghost m0 = manager.languages();
    let n = planned.len();
    let (langs, members) = group_by_language(planned);
    // The interpreter of each language with a node to execute, taken from
    // the manager for the chain.
    let mut execs: Vec<Option<Interpreter<E>>> = Vec::new();
    let mut g: usize = 0;
    while g < langs.len()
        invariant
            g <= langs@.len(),
            execs@.len() == g,
            manager.well_formed(),
            manager.dir() == dir,
            grouped(langs@, members@, all),
            forall|a: int| 0 <= a < g ==> !manager.languages().contains(#[trigger] langs@[a]@),
            m0 == old(manager).languages(),
            forall|l: Seq<char>|
                #[trigger] m0.contains(l) && (forall|a: int| 0 <= a < g ==> langs@[a]@ != l)
                    ==> manager.languages().contains(l),
            forall|a: int| 0 <= a < g && m0.contains(#[trigger] langs@[a]@) ==> execs@[a] is Some,
        decreases langs.len() - g,
    {
        let ghost m1 = manager.languages();
        let ghost ex_before = execs@;
        if needs_execution(&members[g]) {
            let _ = manager.get_executor(langs[g].as_str(), factory);
            proof {
                assert forall|a: int| 0 <= a < g implies !manager.languages().contains(
                    #[trigger] langs@[a]@,
                ) by {
                    assert(langs@[a]@ != langs@[g as int]@);
                }
            }
        }
        proof {
            assert forall|l: Seq<char>| m1.contains(l) implies manager.languages().contains(l) by {
                if !(manager.languages() == m1) {
                    assert(manager.languages() == m1.push(langs@[g as int]@));
                    let k = choose|k: int| 0 <= k < m1.len() && m1[k] == l;
                    assert(manager.languages()[k] == l);
                }
            }
        }
        let e = manager.take(langs[g].as_str());
        execs.push(e);
        proof {
            assert forall|a: int| 0 <= a < g + 1 && m0.contains(#[trigger] langs@[a]@) implies execs@[a] is Some by {
                if a < g {
                    assert(execs@[a] == ex_before[a]);
                } else {
                    assert(m1.contains(langs@[a]@));
                }
            }
            assert forall|l: Seq<char>|
                #[trigger] m0.contains(l) && (forall|a: int| 0 <= a < g + 1 ==> langs@[a]@ != l)
                    implies manager.languages().contains(l) by {
                assert(langs@[g as int]@ != l);
            }
        }
        g = g + 1;
    }
    // Each chain runs with its interpreter.
    let mut outs: Vec<Vec<(usize, ExecutedNode)>> = Vec::new();
    let mut backs: Vec<Option<Interpreter<E>>> = Vec::new();
    let mut first_error: Option<ChainError> = None;
    let ghost mut has: Seq<bool> = Seq::empty();
    let ghost mut logs: Seq<Seq<Request>> = Seq::empty();
    let ghost ex0 = execs@;
    let mut rest = execs;
    let ghost cdir = cache.cache_dir;
    g = 0;
    while g < langs.len()
        invariant
            g <= langs@.len(),
            outs@.len() == g,
            backs@.len() == g,
            has.len() == g,
            rest@.len() + g == langs@.len(),
            cache.cache_dir == cdir,
            grouped(langs@, members@, all),
            all.len() == 0 ==> first_error is None,
            rest@ == ex0.skip(g as int),
            ex0.len() == langs@.len(),
            forall|a: int| 0 <= a < g ==> ((#[trigger] backs@[a]) is Some <==> ex0[a] is Some),
            first_error is None ==> forall|a: int|
                0 <= a < g ==> (#[trigger] outs@[a])@.len() == members@[a]@.len(),
            first_error is None ==> forall|a: int, k: int|
                0 <= a < g && 0 <= k < members@[a]@.len() ==> #[trigger] chain_node(
                    members@[a]@,
                    outs@[a]@,
                    k,
                    langs@[a]@,
                    *config,
                    has[a],
                    logs[a],
                ),
            logs.len() == g,
            forall|a: int| 0 <= a < g ==> #[trigger] logs[a] == requests_of(backs@[a]),
            forall|a: int| 0 <= a < g ==> (#[trigger] has[a] <==> ex0[a] is Some),
        decreases langs.len() - g,
    {
        let ghost rest_before = rest@;
        let ghost backs_before = backs@;
        let e = rest.remove(0);
        let ghost h = e is Some;
        proof {
            assert(rest@ =~= ex0.skip(g + 1));
            assert(e == ex0[g as int]);
        }
        proof {
            if all.len() == 0 {
                assert(members@[g as int]@ == nodes_of_lang(all, langs@[g as int]@));
            }
        }
        let (back, res) = run_language_chain(
            langs[g].as_str(),
            &members[g],
            e,
            allow_snapshots,
            cache,
            store,
            backend,
            config,
            progress,
            cancellation,
        );
        backs.push(back);
        match res {
            Ok(out) => {
                outs.push(out);
            },
            Err(err) => {
                if first_error.is_none() {
                    first_error = Some(err);
                }
                outs.push(Vec::new());
            },
        }
        proof {
            has = has.push(h);
            logs = logs.push(requests_of(backs@[g as int]));
            assert forall|a: int| 0 <= a < g + 1 implies #[trigger] logs[a] == requests_of(backs@[a]) by {
                if a < g {
                    assert(backs@[a] == backs_before[a]);
                }
            }
            assert forall|a: int| 0 <= a < g + 1 implies ((#[trigger] backs@[a]) is Some <==> ex0[a] is Some) by {
                if a < g {
                    assert(backs@[a] == backs_before[a]);
                }
            }
        }
        g = g + 1;
    }
    // Every interpreter goes back to the manager.
    let ghost bk0 = backs@;
    let mut rest_backs = backs;
    g = 0;
    while g < langs.len()
        invariant
            g <= langs@.len(),
            rest_backs@.len() + g == langs@.len(),
            manager.well_formed(),
            manager.dir() == dir,
            grouped(langs@, members@, all),
            forall|a: int|
                g <= a < langs@.len() ==> !manager.languages().contains(#[trigger] langs@[a]@),
            rest_backs@ == bk0.skip(g as int),
            bk0.len() == langs@.len(),
            forall|a: int| 0 <= a < g && (#[trigger] bk0[a]) is Some ==> manager.languages().contains(langs@[a]@),
            forall|a: int|
                0 <= a < g && (#[trigger] bk0[a]) is Some ==> manager.requests(langs@[a]@)
                    == requests_of(bk0[a]),
            forall|l: Seq<char>|
                #[trigger] m0.contains(l) && (forall|a: int| 0 <= a < langs@.len() ==> langs@[a]@ != l)
                    ==> manager.languages().contains(l),
        decreases langs.len() - g,
    {
        let ghost m2 = manager.languages();
        let b = rest_backs.remove(0);
        proof {
            assert(rest_backs@ =~= bk0.skip(g + 1));
            assert(b == bk0[g as int]);
        }
        let ghost mgr0 = *manager;
        if let Some(e) = b {
            manager.put_back(langs[g].clone(), e);
            proof {
                assert forall|a: int| g < a < langs@.len() implies !manager.languages().contains(
                    #[trigger] langs@[a]@,
                ) by {
                    assert(langs@[a]@ != langs@[g as int]@);
                }
            }
        }
        proof {
            assert forall|a: int|
                0 <= a < g + 1 && (#[trigger] bk0[a]) is Some implies manager.requests(langs@[a]@)
                    == requests_of(bk0[a]) by {
                if a < g {
                    assert(langs@[a]@ != langs@[g as int]@);
                    if b is Some {
                        assert(manager.requests(langs@[a]@) == mgr0.requests(langs@[a]@));
                    }
                }
            }
        }
        proof {
            assert forall|l: Seq<char>| m2.contains(l) implies manager.languages().contains(l) by {
                if !(manager.languages() == m2) {
                    let k = choose|k: int| 0 <= k < m2.len() && m2[k] == l;
                    assert(manager.languages()[k] == l);
                }
            }
            assert(manager.languages() == m2 || manager.languages() == m2.push(langs@[g as int]@));
            if bk0[g as int] is Some {
                assert(manager.languages()[m2.len() as int] == langs@[g as int]@);
            }
        }
        g = g + 1;
    }
    proof {
        assert forall|l: Seq<char>| #[trigger] m0.contains(l) implies manager.languages().contains(l) by {
            if exists|a: int| 0 <= a < langs@.len() && langs@[a]@ == l {
                let a = choose|a: int| 0 <= a < langs@.len() && langs@[a]@ == l;
                assert(m0.contains(langs@[a]@));
                assert(ex0[a] is Some);
                assert(bk0[a] is Some);
            }
        }
    }
    if let Some(err) = first_error {
        return Err(err);
    }
    // The rendered nodes in document order.
    let mut slots: Vec<Option<ExecutedNode>> = Vec::new();
    let mut i: usize = 0;
    while i < n
        invariant
            i <= n,
            slots@.len() == i,
        decreases n - i,
    {
        slots.push(None);
        i = i + 1;
    }
    g = 0;
    while g < langs.len()
        invariant
            g <= langs@.len(),
            n == all.len(),
            slots@.len() == n,
            grouped(langs@, members@, all),
            outs@.len() == langs@.len(),
            forall|a: int| 0 <= a < langs@.len() ==> (#[trigger] outs@[a])@.len() == members@[a]@.len(),
            forall|a: int, k: int|
                0 <= a < langs@.len() && 0 <= k < members@[a]@.len() ==> #[trigger] chain_node(
                    members@[a]@,
                    outs@[a]@,
                    k,
                    langs@[a]@,
                    *config,
                    has[a],
                    logs[a],
                ),
            forall|a: int, k: int|
                0 <= a < g && 0 <= k < members@[a]@.len() ==> slots@[(#[trigger] members@[a]@[k]).0 as int]
                    == Some(outs@[a]@[k].1),
        decreases langs.len() - g,
    {
        proof {
            lemma_nodes_of_lang(all, langs@[g as int]@);
        }
        let mut k: usize = 0;
        while k < outs[g].len()
            invariant
                g < langs@.len(),
                k <= outs@[g as int]@.len(),
                n == all.len(),
                slots@.len() == n,
                grouped(langs@, members@, all),
                outs@.len() == langs@.len(),
                outs@[g as int]@.len() == members@[g as int]@.len(),
                forall|k1: int|
                    0 <= k1 < members@[g as int]@.len() ==> #[trigger] chain_node(
                        members@[g as int]@,
                        outs@[g as int]@,
                        k1,
                        langs@[g as int]@,
                        *config,
                        has[g as int],
                        logs[g as int],
                    ),
                forall|a: int, k1: int|
                    0 <= a < g && 0 <= k1 < members@[a]@.len() ==> slots@[(
                    #[trigger] members@[a]@[k1]).0 as int] == Some(outs@[a]@[k1].1),
                forall|k1: int|
                    0 <= k1 < k ==> slots@[(#[trigger] members@[g as int]@[k1]).0 as int] == Some(
                        outs@[g as int]@[k1].1,
                    ),
            decreases outs@[g as int]@.len() - k,
        {
            let idx = outs[g][k].0;
            proof {
                assert(chain_node(
                    members@[g as int]@,
                    outs@[g as int]@,
                    k as int,
                    langs@[g as int]@,
                    *config,
                    has[g as int],
                    logs[g as int],
                ));
                lemma_nodes_of_lang(all, langs@[g as int]@);
                assert(idx == members@[g as int]@[k as int].0);
            }
            let node = copy_node(&outs[g][k].1);
            let ghost before = slots@;
            slots.set(idx, Some(node));
            proof {
                assert forall|a: int, k1: int|
                    0 <= a < g && 0 <= k1 < members@[a]@.len() implies slots@[(
                    #[trigger] members@[a]@[k1]).0 as int] == Some(outs@[a]@[k1].1) by {
                    lemma_nodes_of_lang(all, langs@[a]@);
                    let x = members@[a]@[k1].0;
                    assert(all[x as int].lang@ == langs@[a]@);
                    assert(all[idx as int].lang@ == langs@[g as int]@);
                    assert(langs@[a]@ != langs@[g as int]@);
                    assert(x != idx);
                }
                assert forall|k1: int|
                    0 <= k1 < k + 1 implies slots@[(#[trigger] members@[g as int]@[k1]).0 as int]
                    == Some(outs@[g as int]@[k1].1) by {
                    if k1 < k {
                        assert(members@[g as int]@[k1].0 < members@[g as int]@[k as int].0);
                    }
                }
            }
            k = k + 1;
        }
        g = g + 1;
    }
    let mut v: Vec<ExecutedNode> = Vec::new();
    i = 0;
    while i < n
        invariant
            i <= n,
            n == all.len(),
            slots@.len() == n,
            v@.len() == i,
            grouped(langs@, members@, all),
            forall|a: int, k: int|
                0 <= a < langs@.len() && 0 <= k < members@[a]@.len() ==> slots@[(
                #[trigger] members@[a]@[k]).0 as int] == Some(outs@[a]@[k].1),
            forall|j: int| 0 <= j < i ==> slots@[j] == Some(#[trigger] v@[j]),
        decreases n - i,
    {
        proof {
            let ga = choose|ga: int| 0 <= ga < langs@.len() && (#[trigger] langs@[ga])@ == all[i as int].lang@;
            lemma_nodes_of_lang(all, langs@[ga]@);
            let k = choose|k: int|
                0 <= k < nodes_of_lang(all, langs@[ga]@).len() && #[trigger] nodes_of_lang(
                    all,
                    langs@[ga]@,
                )[k].0 == i;
            assert(members@[ga]@[k].0 == i);
            assert(slots@[i as int] is Some);
        }
        match &slots[i] {
            Some(node) => {
                v.push(copy_node(node));
            },
            None => {},
        }
        i = i + 1;
    }
    proof {
        assert forall|a: int, k: int|
            0 <= a < langs@.len() && 0 <= k < members@[a]@.len() implies v@[(
            #[trigger] members@[a]@[k]).0 as int] == outs@[a]@[k].1 by {
            lemma_nodes_of_lang(all, langs@[a]@);
            let x = members@[a]@[k].0 as int;
            assert(slots@[x] == Some(v@[x]));
        }
        lemma_pass_nodes(all, langs@, members@, outs@, has, logs, v@, *config, *manager);
    }
    Ok(v)
}


/// Assembly reads of a node only where it stands and whether it is a
/// chunk; the content only goes into the output.
proof fn lemma_asm_shape(a: Seq<NodeV>, b: Seq<NodeV>, k: int, src: Seq<char>, file: Seq<char>)
    requires
        a.len() == b.len(),
        0 <= k <= a.len(),
        forall|i: int|
            0 <= i < a.len() ==> (#[trigger] a[i]).start == b[i].start && a[i].end == b[i].end
                && a[i].is_chunk == b[i].is_chunk,
    ensures
        asm_run(a, k, src, file).ok == asm_run(b, k, src, file).ok,
        asm_run(a, k, src, file).last == asm_run(b, k, src, file).last,
    decreases k,
{
    if k > 0 {
        lemma_asm_shape(a, b, k - 1, src, file);
        assert(a[k - 1].start == b[k - 1].start);
    }
}

/// Whether assembly succeeds depends only on where the nodes stand.
pub proof fn lemma_assembled_shape(a: Seq<NodeV>, b: Seq<NodeV>, src: Seq<char>, file: Seq<char>)
    requires
        a.len() == b.len(),
        forall|i: int|
            0 <= i < a.len() ==> (#[trigger] a[i]).start == b[i].start && a[i].end == b[i].end
                && a[i].is_chunk == b[i].is_chunk,
    ensures
        (assembled(a, src, file) is Some) == (assembled(b, src, file) is Some),
{
    lemma_asm_shape(a, b, a.len() as int, src, file);
}

/// Where an executable node stands, as assembly reads it.
pub open spec fn place_view(n: ExecutableNode) -> NodeV {
    NodeV {
        start: executable_start(n) as int,
        end: executable_end(n) as int,
        is_chunk: n is Chunk,
        content: Seq::empty(),
        line: 0,
    }
}

/// Whether the nodes stand in `source` so that the document can be
/// assembled: every verbatim piece between them starts and ends between
/// two characters.
pub fn spans_fit(nodes: &Vec<ExecutableNode>, source: &str, source_file: &str) -> (r: bool)
    ensures
        r == (assembled(nodes@.map_values(|n: ExecutableNode| place_view(n)), source@, source_file@)
            is Some),
{
    let mut shapes: Vec<ExecutedNode> = Vec::new();
    let mut i: usize = 0;
    while i < nodes.len()
        invariant
            i <= nodes@.len(),
            shapes@.len() == i,
            forall|j: int|
                0 <= j < i ==> node_view(#[trigger] shapes@[j]).start == place_view(nodes@[j]).start
                    && node_view(shapes@[j]).end == place_view(nodes@[j]).end && node_view(
                    shapes@[j],
                ).is_chunk == place_view(nodes@[j]).is_chunk,
        decreases nodes.len() - i,
    {
        let (start, end, is_chunk) = match &nodes[i] {
            ExecutableNode::Chunk(c) => (c.start_byte, c.end_byte, true),
            ExecutableNode::InlineExpr(e) => (e.start, e.end, false),
        };
        shapes.push(
            ExecutedNode {
                lang: String::new(),
                hash: String::new(),
                source_start: start,
                source_end: end,
                typst_content: String::new(),
                is_chunk,
                source_line: 0,
                errored: false,
            },
        );
        i = i + 1;
    }
    proof {
        lemma_assembled_shape(
            node_views(shapes@),
            nodes@.map_values(|n: ExecutableNode| place_view(n)),
            source@,
            source_file@,
        );
    }
    try_assemble(shapes.as_slice(), source, source_file).is_some()
}

/// Why a compilation failed.
#[derive(Debug)]
pub enum CompileError {
    /// The chunks and inline expressions do not stand between characters
    /// of the source.
    Spans,
    /// Planning failed.
    Plan(PlanError),
    /// A language chain stopped.
    Execution(ChainError),
    /// The cache index could not be saved.
    Cache(CacheError),
}

/// The executable nodes of the chunks and inline expressions of a document.
pub open spec fn document_nodes(chunks: Seq<Chunk>, inline_exprs: Seq<InlineExpr>) -> Seq<
    ExecutableNode,
> {
    sorted_by_start(
        chunks.map_values(|c: Chunk| ExecutableNode::Chunk(Box::new(c))) + inline_exprs.map_values(
            |e: InlineExpr| ExecutableNode::InlineExpr(e),
        ),
    )
}

/// What a compilation made of `nodes`: the plan `planned`, the rendered
/// nodes `v` and the generated document `typst`.
pub open spec fn compiled_from<E: KnotExecutor>(
    nodes: Seq<ExecutableNode>,
    planned: Seq<PlannedNode>,
    v: Seq<ExecutedNode>,
    typst: Seq<char>,
    config: Config,
    cache: Cache,
    project_root: Seq<char>,
    threshold: Option<u64>,
    source: Seq<char>,
    source_file: Seq<char>,
    manager: ExecutorManager<E>,
) -> bool {
    &&& planned.len() == nodes.len()
    &&& forall|i: int|
        0 <= i < nodes.len() ==> #[trigger] planned_node(
            nodes,
            planned,
            i,
            config,
            cache,
            project_root,
            threshold,
        )
    &&& v.len() == planned.len()
    &&& forall|i: int| 0 <= i < planned.len() ==> #[trigger] pass_node(planned, v, i, config, manager)
    &&& assembled(node_views(v), source, source_file) == Some(typst)
}

/// Whether compiling the chunks and inline expressions of a document gives
/// the Typst document `typst` (see `compiled_from`).
pub open spec fn compiles_to<E: KnotExecutor>(
    chunks: Seq<Chunk>,
    inline_exprs: Seq<InlineExpr>,
    typst: Seq<char>,
    config: Config,
    cache: Cache,
    project_root: Seq<char>,
    threshold: Option<u64>,
    source: Seq<char>,
    source_file: Seq<char>,
    manager: ExecutorManager<E>,
) -> bool {
    exists|planned: Seq<PlannedNode>, v: Seq<ExecutedNode>|
        #[trigger] compiled_from(
            document_nodes(chunks, inline_exprs),
            planned,
            v,
            typst,
            config,
            cache,
            project_root,
            threshold,
            source,
            source_file,
            manager,
        )
}

/// The compilation engine of one document: its interpreters, its
/// configuration, its project root and its cache directory.
pub struct Compiler<E> {
    /// The interpreters, by language.
    pub executor_manager: ExecutorManager<E>,
    /// The project configuration.
    pub config: Config,
    /// The project root, against which `depends` paths resolve.
    pub project_root: String,
    /// The cache directory of the document.
    pub cache_dir: String,
    /// Snapshot size above which a warning is shown, if any.
    pub snapshot_warning_threshold: Option<u64>,
}

impl<E: KnotExecutor> Compiler<E> {
    /// A compiler for a document of the project at `project_root`
    /// configured by `config`, caching under `cache_dir`; no interpreter is
    /// started yet.
    pub fn new(
        config: Config,
        project_root: String,
        cache_dir: String,
        snapshot_warning_threshold: Option<u64>,
    ) -> (r: Self)
        ensures
            r.executor_manager.well_formed(),
            r.executor_manager.languages().len() == 0,
            r.executor_manager.dir() == cache_dir@,
            r.config == config,
            r.project_root == project_root,
            r.cache_dir == cache_dir,
            r.snapshot_warning_threshold == snapshot_warning_threshold,
    {
        let executor_manager = ExecutorManager::new(cache_dir.clone());
        Compiler { executor_manager, config, project_root, cache_dir, snapshot_warning_threshold }
    }

    /// Stops every interpreter: the next compilation starts fresh ones.
    pub fn reset_executors(&mut self)
        requires
            old(self).executor_manager.well_formed(),
        ensures
            final(self).executor_manager.well_formed(),
            final(self).executor_manager.languages().len() == 0,
            final(self).config == old(self).config,
    {
        self.executor_manager.shutdown_all();
    }

    /// Compiles a document (its chunks, its inline expressions and its
    /// source, named `source_file` in the navigation markers), with the
    /// cache index `metadata`: plans every node, runs the language chains,
    /// assembles the generated Typst document and saves the cache index.
    /// Fails before anything runs when the nodes do not stand between
    /// characters of the source.
    pub fn compile<F: ExecutorFactory<E>, S: CacheStore, P: ProgressSink>(
        &mut self,
        chunks: Vec<Chunk>,
        inline_exprs: Vec<InlineExpr>,
        source: &str,
        source_file: &str,
        metadata: CacheMetadata,
        factory: &mut F,
        store: &mut S,
        progress: &mut P,
        cancellation: &Cancellation,
    ) -> (r: Result<String, CompileError>)
        requires
            old(self).executor_manager.well_formed(),
        ensures
            final(self).executor_manager.well_formed(),
            final(self).config == old(self).config,
            !spans_fit_spec(document_nodes(chunks@, inline_exprs@), source@, source_file@) ==> r
                matches Err(CompileError::Spans),
            spans_fit_spec(document_nodes(chunks@, inline_exprs@), source@, source_file@) ==> !(r
                matches Err(CompileError::Spans)),
            r matches Ok(t) ==> compiles_to(
                chunks@,
                inline_exprs@,
                t@,
                old(self).config,
                Cache { cache_dir: old(self).cache_dir, metadata },
                old(self).project_root@,
                old(self).snapshot_warning_threshold,
                source@,
                source_file@,
                final(self).executor_manager,
            ),
    {
        let ghost cfg = self.config;
        let ghost root = self.project_root@;
        let ghost threshold = self.snapshot_warning_threshold;
        let ghost dir = self.cache_dir;
        let ghost meta = metadata;
        let ghost ch = chunks@;
        let ghost ie = inline_exprs@;
        let cache0 = Cache::new(self.cache_dir.clone(), metadata);
        let ghost c0 = cache0;
        assert(c0 == Cache { cache_dir: dir, metadata: meta });
        let mut cache = cache0;
        let backend = TypstBackend::new();
        let nodes = build_executable_nodes(chunks, inline_exprs);
        let ghost node_seq = nodes@;
        assert(node_seq == document_nodes(ch, ie));
        if !spans_fit(&nodes, source, source_file) {
            return Err(CompileError::Spans);
        }
        let planned = match plan_pass(
            nodes,
            &self.config,
            &cache,
            self.project_root.as_str(),
            store,
            self.snapshot_warning_threshold,
        ) {
            Ok(p) => p,
            Err(e) => {
                return Err(CompileError::Plan(e));
            },
        };
        let ghost plan_seq = planned@;
        let executed = match execute_pass(
            planned,
            &mut self.executor_manager,
            factory,
            true,
            &mut cache,
            store,
            &backend,
            &self.config,
            progress,
            cancellation,
        ) {
            Ok(v) => v,
            Err(e) => {
                return Err(CompileError::Execution(e));
            },
        };
        proof {
            assert forall|i: int| 0 <= i < node_seq.len() implies (#[trigger] node_views(
                executed@,
            )[i]).start == node_seq.map_values(|n: ExecutableNode| place_view(n))[i].start
                && node_views(executed@)[i].end == node_seq.map_values(
                |n: ExecutableNode| place_view(n),
            )[i].end && node_views(executed@)[i].is_chunk == node_seq.map_values(
                |n: ExecutableNode| place_view(n),
            )[i].is_chunk by {
                assert(planned_node(node_seq, plan_seq, i, cfg, c0, self.project_root@, self.snapshot_warning_threshold));
                assert(pass_node(plan_seq, executed@, i, cfg, self.executor_manager));
            }
            lemma_assembled_shape(
                node_views(executed@),
                node_seq.map_values(|n: ExecutableNode| place_view(n)),
                source@,
                source_file@,
            );
        }
        let typst = match try_assemble(executed.as_slice(), source, source_file) {
            Some(t) => t,
            None => {
                return Err(CompileError::Spans);
            },
        };
        match cache.save_metadata(store) {
            Ok(()) => {},
            Err(e) => {
                return Err(CompileError::Cache(e));
            },
        }
        proof {
            assert(compiled_from(
                node_seq,
                plan_seq,
                executed@,
                typst@,
                cfg,
                c0,
                root,
                threshold,
                source@,
                source_file@,
                self.executor_manager,
            ));
        }
        assert(compiles_to(
            ch,
            ie,
            typst@,
            cfg,
            c0,
            root,
            threshold,
            source@,
            source_file@,
            self.executor_manager,
        ));
        Ok(typst)
    }
}

/// Whether the nodes stand in `source` so that the document can be
/// assembled.
pub open spec fn spans_fit_spec(nodes: Seq<ExecutableNode>, source: Seq<char>, source_file: Seq<
    char,
>) -> bool {
    assembled(nodes.map_values(|n: ExecutableNode| place_view(n)), source, source_file) is Some
}

} // verus!
