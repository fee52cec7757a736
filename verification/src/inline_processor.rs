//! Running one inline expression: only text results, cached apart from the
//! chunks under the identity of the expression.
use crate::ast::{resolve_inline, InlineExpr, Show};
use crate::cache::{inline_position, inline_without, Cache, CacheError, CacheStore};
use crate::executors::manager::{unsupported_message, ExecutorFactory, ExecutorManager};
use crate::executors::{ExecError, KnotExecutor, Request};
use crate::hashing::{fields_hash, inline_identity};
use crate::text::{chars_of, push_str, string_of};
use vstd::prelude::*;

verus! {

/// Why an inline expression produced no text.
#[derive(Debug)]
pub enum InlineError {
    /// The interpreter of the language could not be had.
    Executor(ExecError),
    /// The expression failed; the text names it and gives the reason.
    Execution(String),
    /// The text could not be cached.
    Cache(CacheError),
}

/// Message for an inline expression whose interpreter reported `reason`.
pub open spec fn inline_failure_message(lang: Seq<char>, code: Seq<char>, reason: Seq<char>) -> Seq<
    char,
> {
    "Failed to execute inline expression: `{"@ + lang + "} "@ + code + "`: "@ + reason
}

/// What an inline expression shows of its result `text`: the text when the
/// output is shown, nothing otherwise.
pub open spec fn inline_shown(show: Show, text: Seq<char>) -> Seq<char> {
    match show {
        Show::Output | Show::Both => text,
        Show::Code | Show::Hidden => Seq::empty(),
    }
}

/// Whether the interpreter of an inline expression's language went from the
/// requests `before` to `after` by one evaluation of the expression's code,
/// and the outcome `r` follows its answer: its text shown as the options say
/// (or a cache failure), or a failure naming the expression with the
/// interpreter's reason.
pub open spec fn inline_asked(
    e: InlineExpr,
    before: Seq<Request>,
    after: Seq<Request>,
    r: Result<(String, String), InlineError>,
) -> bool {
    &&& after.len() == before.len() + 1
    &&& after.drop_last() == before
    &&& match after.last() {
        Request::Inline { code, answer } => {
            &&& code == e.code@
            &&& match answer {
                Ok(t) => (r matches Ok((text, _)) && text@ == inline_shown(
                    resolve_inline(e.options).show,
                    t@,
                )) || r matches Err(InlineError::Cache(_)),
                Err(ExecError::Failed(reason)) => r matches Err(InlineError::Execution(m)) && m@
                    == inline_failure_message(e.language@, e.code@, reason@),
            }
        },
        _ => false,
    }
}

/// Identity of an inline expression after the node `previous_hash`.
pub open spec fn inline_expr_identity(e: InlineExpr, previous_hash: Seq<char>) -> Seq<char> {
    fields_hash(inline_identity(e.language@, e.code@, e.options, previous_hash))
}

/// Runs `inline_expr` after the node of identity `previous_hash` and gives
/// its text and its identity.
///
/// An expression not evaluated gives no text and starts nothing; a cached
/// one gives its cached text. Otherwise the interpreter of its language
/// (started through `factory` on first use) runs it, and the text, empty
/// unless the output is shown, is cached under the identity.
pub fn process_inline_expr<E: KnotExecutor, F: ExecutorFactory<E>, S: CacheStore>(
    inline_expr: &InlineExpr,
    executor_manager: &mut ExecutorManager<E>,
    factory: &mut F,
    cache: &mut Cache,
    store: &mut S,
    previous_hash: &str,
) -> (r: Result<(String, String), InlineError>)
    requires
        old(executor_manager).well_formed(),
    ensures
        final(executor_manager).well_formed(),
        final(executor_manager).dir() == old(executor_manager).dir(),
        final(cache).cache_dir == old(cache).cache_dir,
        ({
            let hash = inline_expr_identity(*inline_expr, previous_hash@);
            let resolved = resolve_inline(inline_expr.options);
            let lang = inline_expr.language@;
            if !resolved.eval {
                &&& r matches Ok((text, h)) && text@.len() == 0 && h@ == hash
                &&& *final(cache) == *old(cache)
                &&& final(executor_manager).languages() == old(executor_manager).languages()
            } else if inline_position(old(cache).metadata.inline_expressions@, hash) is Some {
                let i = inline_position(old(cache).metadata.inline_expressions@, hash)->0;
                &&& r matches Ok((text, h)) && h@ == hash && text@
                    == old(cache).metadata.inline_expressions@[i].result@
                &&& *final(cache) == *old(cache)
                &&& final(executor_manager).languages() == old(executor_manager).languages()
            } else {
                &&& !old(executor_manager).languages().contains(lang) && !(lang == "r"@ || lang
                    == "python"@) ==> (r matches Err(InlineError::Executor(ExecError::Failed(m)))
                    && m@ == unsupported_message(lang))
                &&& r matches Err(InlineError::Execution(m)) ==> exists|reason: Seq<char>|
                    m@ == inline_failure_message(lang, inline_expr.code@, reason)
                &&& (r is Ok || r matches Err(InlineError::Execution(_)) || r matches Err(
                    InlineError::Cache(_),
                )) ==> inline_asked(
                    *inline_expr,
                    if old(executor_manager).languages().contains(lang) {
                        old(executor_manager).requests(lang)
                    } else {
                        Seq::empty()
                    },
                    final(executor_manager).requests(lang),
                    r,
                )
                &&& r matches Ok((text, h)) ==> {
                    &&& h@ == hash
                    &&& exists|result: Seq<char>| text@ == inline_shown(resolved.show, result)
                    &&& final(cache).metadata.inline_expressions@.drop_last() == inline_without(
                        old(cache).metadata.inline_expressions@,
                        hash,
                    )
                    &&& final(cache).metadata.inline_expressions@.last().result@ == text@
                    &&& inline_position(final(cache).metadata.inline_expressions@, hash) == Some(
                        final(cache).metadata.inline_expressions@.len() - 1,
                    )
                    &&& final(cache).metadata.chunks == old(cache).metadata.chunks
                }
                &&& r is Err ==> final(cache).metadata.chunks == old(cache).metadata.chunks
            }
        }),
{
    let resolved = inline_expr.options.resolve();
    let inline_hash = cache.get_inline_expr_hash(
        inline_expr.language.as_str(),
        inline_expr.code.as_str(),
        &inline_expr.options,
        previous_hash,
    );
    if !resolved.eval {
        return Ok((String::new(), inline_hash));
    }
    if cache.has_cached_inline_result(inline_hash.as_str()) {
        match cache.get_cached_inline_result(inline_hash.as_str()) {
            Ok(text) => {
                return Ok((text, inline_hash));
            },
            Err(e) => {
                return Err(InlineError::Cache(e));
            },
        }
    }
    match executor_manager.get_executor(inline_expr.language.as_str(), factory) {
        Ok(_) => {},
        Err(e) => {
            return Err(InlineError::Executor(e));
        },
    }
    proof {
        if !old(executor_manager).languages().contains(inline_expr.language@) {
            assert(executor_manager.languages()[executor_manager.languages().len() - 1]
                == inline_expr.language@);
        }
    }
    let ghost before = executor_manager.requests(inline_expr.language@);
    let answer = executor_manager.run_inline(inline_expr.language.as_str(), inline_expr.code.as_str());
    assert(executor_manager.requests(inline_expr.language@).drop_last() =~= before);
    let result = match answer {
        Ok(t) => t,
        Err(ExecError::Failed(reason)) => {
            let mut m = chars_of("Failed to execute inline expression: `{");
            push_str(&mut m, inline_expr.language.as_str());
            push_str(&mut m, "} ");
            push_str(&mut m, inline_expr.code.as_str());
            push_str(&mut m, "`: ");
            push_str(&mut m, reason.as_str());
            assert(m@ == inline_failure_message(
                inline_expr.language@,
                inline_expr.code@,
                reason@,
            ));
            return Err(InlineError::Execution(string_of(&m)));
        },
    };
    let ghost produced = result@;
    let final_result = match resolved.show {
        Show::Output | Show::Both => result,
        Show::Code | Show::Hidden => String::new(),
    };
    assert(final_result@ == inline_shown(resolved.show, produced));
    match cache.save_inline_result(inline_hash.clone(), final_result.as_str(), store) {
        Ok(()) => {},
        Err(e) => {
            return Err(InlineError::Cache(e));
        },
    }
    Ok((final_result, inline_hash))
}

} // verus!
