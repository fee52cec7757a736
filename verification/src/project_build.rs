//! The outcome of `knot build`: errors rendered in the document make the
//! build fail only in strict mode, and the PDF that shows them is kept.
use crate::text::{chars_of, decimal, push_decimal, push_str, string_of, trim, trim_end, trimmed,
    trimmed_end};
use vstd::prelude::*;

verus! {

/// Options of `knot build`.
#[derive(Debug, Clone, Copy, PartialEq, Eq, Structural)]
pub struct BuildOptions {
    /// Re-execute every language chain in fresh interpreters: no snapshot is
    /// saved or restored, so no cached state replaces an execution.
    pub no_snapshots: bool,
    /// Fail when the document shows errors, after writing the PDF that
    /// displays them. Warnings and code not evaluated do not fail.
    pub strict: bool,
}

impl Default for BuildOptions {
    fn default() -> (r: Self)
        ensures
            !r.no_snapshots && !r.strict,
    {
        BuildOptions { no_snapshots: false, strict: false }
    }
}

/// How Typst compiled the generated document.
#[derive(Debug, Clone)]
pub struct TypstRun {
    /// Whether it succeeded.
    pub success: bool,
    /// Its exit status, as shown.
    pub status: String,
    /// What it reported on its error stream.
    pub stderr: String,
}

/// Message for a failed Typst compilation of `typ`.
pub open spec fn typst_failure_text(typ: Seq<char>, run: TypstRun) -> Seq<char> {
    "Typst compilation failed for "@ + typ + " ("@ + run.status@ + ")."@ + "\n"@ + if trim(
        run.stderr@,
    ).len() == 0 {
        "Typst returned no diagnostics."@
    } else {
        trim_end(run.stderr@)
    }
}

/// Summary of the errors shown in the PDF `pdf`.
pub open spec fn errors_summary_text(count: nat, pdf: Seq<char>) -> Seq<char> {
    decimal(count) + " error(s) in the document; the PDF shows them in context: "@ + pdf
}

/// The outcome of a build whose generated document `typ` Typst compiled
/// (`run`) to `pdf`, the document showing `errors`: `Ok(None)` when all
/// went well, `Ok(Some(summary))` for a PDF that shows errors, an error when
/// Typst failed, or when the document shows errors in strict mode.
pub fn build_outcome(
    options: BuildOptions,
    typ: &str,
    pdf: &str,
    run: &TypstRun,
    errors: &Vec<String>,
) -> (r: Result<Option<String>, String>)
    ensures
        !run.success ==> (r matches Err(m) && m@ == typst_failure_text(typ@, *run)),
        run.success && errors@.len() == 0 ==> r matches Ok(None),
        run.success && errors@.len() > 0 && options.strict ==> (r matches Err(m) && m@
            == errors_summary_text(errors@.len(), pdf@)),
        run.success && errors@.len() > 0 && !options.strict ==> (r matches Ok(Some(m))
            && m@ == errors_summary_text(errors@.len(), pdf@)),
{
    if !run.success {
        let mut m = chars_of("Typst compilation failed for ");
        push_str(&mut m, typ);
        push_str(&mut m, " (");
        push_str(&mut m, run.status.as_str());
        push_str(&mut m, ").");
        push_str(&mut m, "\n");
        let diagnostics = chars_of(run.stderr.as_str());
        if trimmed(&diagnostics).len() == 0 {
            push_str(&mut m, "Typst returned no diagnostics.");
        } else {
            let d = trimmed_end(&diagnostics);
            crate::text::extend(&mut m, &d);
        }
        return Err(string_of(&m));
    }
    if errors.len() == 0 {
        return Ok(None);
    }
    let mut s: Vec<char> = Vec::new();
    push_decimal(&mut s, errors.len() as u64);
    push_str(&mut s, " error(s) in the document; the PDF shows them in context: ");
    push_str(&mut s, pdf);
    let summary = string_of(&s);
    if options.strict {
        Err(summary)
    } else {
        Ok(Some(summary))
    }
}

} // verus!
