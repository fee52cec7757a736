//! Diagnostics for the `depends` files of a chunk that do not exist: such a
//! chunk is not executed, its error block is shown in the document, and the
//! later chunks of its language are suspended.
use crate::ast::{options_view, Chunk, ChunkError, Severity};
use crate::cache::CacheStore;
use crate::compiler::ChunkExecutionState;
use crate::config::{effective_defaults, overlay_v, resolve_options, Config};
use crate::text::{
    byte_substring, chars_of, get_bytes, lines, push_str, split_lines, starts_with, string_of,
    trim_start,
};
use vstd::prelude::*;

verus! {

/// Message for a `depends` file that does not exist.
pub open spec fn missing_dependency_text(path: Seq<char>) -> Seq<char> {
    "Dependency '"@ + path
        + "' not found (depends paths are relative to the project root). The chunk is not executed and later chunks in this language are suspended."@
}

/// Message for a `depends` file that does not exist.
pub fn missing_dependency_message(path: &str) -> (r: String)
    ensures
        r@ == missing_dependency_text(path@),
{
    let mut m = chars_of("Dependency '");
    push_str(&mut m, path);
    push_str(
        &mut m,
        "' not found (depends paths are relative to the project root). The chunk is not executed and later chunks in this language are suspended.",
    );
    string_of(&m)
}

/// Whether `line` is a `#| depends` option line.
pub open spec fn is_depends_line(line: Seq<char>) -> bool {
    let t = trim_start(line);
    starts_with(t, "#|"@) && starts_with(trim_start(t.skip(2)), "depends"@)
}

/// Index of the first `#| depends` line of `ls` at or after `i`.
pub open spec fn first_depends_line(ls: Seq<Seq<char>>, i: int) -> Option<int>
    decreases ls.len() - i,
{
    if i < 0 || i >= ls.len() {
        None
    } else if is_depends_line(ls[i]) {
        Some(i)
    } else {
        first_depends_line(ls, i + 1)
    }
}

/// The line of the chunk's text, within `source`, that sets `depends`.
pub open spec fn depends_line_of(chunk: Chunk, source: Seq<char>) -> Option<int> {
    match byte_substring(source, chunk.start_byte as int, chunk.end_byte as int) {
        Some(text) => first_depends_line(lines(text), 0),
        None => None,
    }
}

/// The paths of `depends` whose file is absent (`present` false), in order.
pub open spec fn missing_paths(depends: Seq<String>, present: Seq<bool>) -> Seq<Seq<char>>
    decreases depends.len(),
{
    if depends.len() == 0 {
        Seq::empty()
    } else {
        let rest = missing_paths(depends.drop_last(), present);
        if present[depends.len() - 1] {
            rest
        } else {
            rest.push(depends.last()@)
        }
    }
}

/// `r` reports each of the `missing` paths, in order, as an error on `line`.
pub open spec fn reports_missing(r: Seq<ChunkError>, missing: Seq<Seq<char>>, line: Option<int>) -> bool {
    &&& r.len() == missing.len()
    &&& forall|k: int|
        0 <= k < r.len() ==> {
            &&& (#[trigger] r[k]).message@ == missing_dependency_text(missing[k])
            &&& r[k].severity == Severity::Error
            &&& match line {
                Some(l) => r[k].line == Some(l as usize),
                None => r[k].line is None,
            }
        }
}

/// Whether `line` is a `#| depends` option line.
fn depends_line(line: &Vec<char>) -> (b: bool)
    ensures
        b == is_depends_line(line@),
{
    let t = {
        let (a, _) = crate::text::trim_bounds(line);
        let r = crate::text::slice(line, a, line.len());
        assert(r@ =~= line@.skip(a as int));
        r
    };
    proof {
        reveal_strlit("#|");
    }
    if !crate::text::has_prefix(&t, &chars_of("#|")) {
        return false;
    }
    let rest = crate::text::slice(&t, 2, t.len());
    assert(rest@ =~= t@.skip(2));
    let (a, _) = crate::text::trim_bounds(&rest);
    let u = crate::text::slice(&rest, a, rest.len());
    assert(u@ =~= rest@.skip(a as int));
    crate::text::has_prefix(&u, &chars_of("depends"))
}

/// The line of the chunk's text, within `source`, that sets `depends`.
fn depends_line_in(chunk: &Chunk, source: &str) -> (r: Option<usize>)
    ensures
        match depends_line_of(*chunk, source@) {
            Some(l) => r == Some(l as usize),
            None => r is None,
        },
{
    let text = match get_bytes(source, chunk.start_byte, chunk.end_byte) {
        Some(t) => t,
        None => {
            return None;
        },
    };
    let ls = split_lines(&text);
    let mut i: usize = 0;
    while i < ls.len()
        invariant
            i <= ls@.len(),
            ls@.len() == lines(text@).len(),
            forall|k: int| 0 <= k < ls@.len() ==> #[trigger] ls@[k]@ == lines(text@)[k],
            depends_line_of(*chunk, source@) == first_depends_line(lines(text@), i as int),
        decreases ls.len() - i,
    {
        if depends_line(&ls[i]) {
            assert(ls@[i as int]@ == lines(text@)[i as int]);
            return Some(i);
        }
        i = i + 1;
    }
    None
}

/// Errors for the `depends` paths whose file is absent (`present` false),
/// on the chunk's `#| depends` line when it has one.
pub fn errors_for_missing(chunk: &Chunk, depends: &Vec<String>, present: &Vec<bool>, source: &str) -> (r:
    Vec<ChunkError>)
    requires
        present@.len() == depends@.len(),
    ensures
        reports_missing(r@, missing_paths(depends@, present@), depends_line_of(*chunk, source@)),
{
    let line = depends_line_in(chunk, source);
    let ghost lo = depends_line_of(*chunk, source@);
    let mut r: Vec<ChunkError> = Vec::new();
    let mut i: usize = 0;
    while i < depends.len()
        invariant
            i <= depends@.len(),
            present@.len() == depends@.len(),
            match lo {
                Some(l) => line == Some(l as usize),
                None => line is None,
            },
            reports_missing(r@, missing_paths(depends@.take(i as int), present@), lo),
        decreases depends.len() - i,
    {
        proof {
            let t = depends@.take(i + 1);
            assert(t.drop_last() == depends@.take(i as int));
            assert(t.last() == depends@[i as int]);
        }
        if !present[i] {
            let e = ChunkError::new(missing_dependency_message(depends[i].as_str()).as_str(), line);
            r.push(e);
        }
        i = i + 1;
    }
    assert(depends@.take(depends.len() as int) == depends@);
    r
}

/// Errors for the `depends` files missing under `project_root`, as `store`
/// sees them, on the chunk's `#| depends` line when it has one.
pub fn missing_dependencies<S: CacheStore>(
    chunk: &Chunk,
    depends: &Vec<String>,
    project_root: &str,
    source: &str,
    store: &S,
) -> (r: Vec<ChunkError>)
    ensures
        exists|present: Seq<bool>|
            present.len() == depends@.len() && reports_missing(
                r@,
                #[trigger] missing_paths(depends@, present),
                depends_line_of(*chunk, source@),
            ),
{
    let mut present: Vec<bool> = Vec::new();
    let mut i: usize = 0;
    while i < depends.len()
        invariant
            i <= depends@.len(),
            present@.len() == i,
        decreases depends.len() - i,
    {
        let path = crate::sync::join_path(project_root, &chars_of(depends[i].as_str()));
        present.push(store.file_exists(path.as_str()));
        i = i + 1;
    }
    let r = errors_for_missing(chunk, depends, &present, source);
    assert(present@.len() == depends@.len());
    r
}

/// Errors for the `depends` files of a chunk, after the configuration's
/// defaults are applied, that are missing under `project_root`.
pub fn dependency_errors<S: CacheStore>(
    chunk: &Chunk,
    config: &Config,
    project_root: &str,
    source: &str,
    store: &S,
) -> (r: Vec<ChunkError>)
    ensures
        exists|present: Seq<bool>|
            present.len() == overlay_v(
                effective_defaults(*config, chunk.language@, ChunkExecutionState::Ready).0,
                options_view(chunk.options),
            ).depends.len() && reports_missing(
                r@,
                #[trigger] missing_paths(
                    overlay_v(
                        effective_defaults(*config, chunk.language@, ChunkExecutionState::Ready).0,
                        options_view(chunk.options),
                    ).depends,
                    present,
                ),
                depends_line_of(*chunk, source@),
            ),
{
    let (options, _, _) = resolve_options(chunk, config, &ChunkExecutionState::Ready);
    assert(options.depends@ == overlay_v(
        effective_defaults(*config, chunk.language@, ChunkExecutionState::Ready).0,
        options_view(chunk.options),
    ).depends);
    missing_dependencies(chunk, &options.depends, project_root, source, store)
}

} // verus!
