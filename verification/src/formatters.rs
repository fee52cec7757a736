//! Code formatters, Air for R and Ruff for Python, and the formatting of
//! project sources: every source is read and formatted before any is
//! written, and check mode writes nothing.
use crate::text::{chars_of, push_str, same_chars, string_of};
use vstd::prelude::*;

verus! {

/// A code formatter.
#[derive(Debug, Clone, Copy, PartialEq, Eq, Structural)]
pub enum Formatter {
    /// Air, for R.
    Air,
    /// Ruff, for Python.
    Ruff,
}

/// How the code of a language is formatted.
#[derive(Debug, Clone, PartialEq, Eq)]
pub enum FormatPlan {
    /// The language has no formatter: the code is kept.
    Unchanged,
    /// The code goes through `formatter`, run as `program`.
    Run { formatter: Formatter, program: String },
}

/// Runs the formatter programs.
///
/// Nothing is assumed of an implementation.
pub trait FormatterProcess {
    /// Runs `program` (Air or Ruff) on `code`: whether it succeeded, what it
    /// made of the code and what it reported; `Err` when it could not run.
    fn run(&mut self, formatter: Formatter, program: &str, code: &str) -> Result<
        (bool, String, String),
        (),
    >;
}

/// Air (R) and Ruff (Python), each at a resolved path or looked up on
/// `PATH` when run.
#[derive(Debug, Clone)]
pub struct CodeFormatter {
    /// Path of Air, if resolved.
    pub air_path: Option<String>,
    /// Path of Ruff, if resolved.
    pub ruff_path: Option<String>,
}

/// The program that runs a formatter: its resolved path, or its name.
pub open spec fn program_of(path: Option<String>, name: Seq<char>) -> Seq<char> {
    match path {
        Some(p) => p@,
        None => name,
    }
}

/// The plan for the code of `lang` with the formatter paths of `f`.
pub open spec fn plan_for(f: CodeFormatter, lang: Seq<char>) -> Option<(Formatter, Seq<char>)> {
    if lang == "r"@ {
        Some((Formatter::Air, program_of(f.air_path, "air"@)))
    } else if lang == "python"@ {
        Some((Formatter::Ruff, program_of(f.ruff_path, "ruff"@)))
    } else {
        None
    }
}

/// Message for a formatter that could not run.
pub open spec fn not_installed_text(f: Formatter) -> Seq<char> {
    match f {
        Formatter::Air => "Failed to execute 'air'. Is it installed?"@,
        Formatter::Ruff => "Failed to execute 'ruff'. Is it installed?"@,
    }
}

/// Message for a formatter that reported a failure.
pub open spec fn failure_text(f: Formatter, stderr: Seq<char>) -> Seq<char> {
    match f {
        Formatter::Air => "Air formatting failed: "@ + stderr,
        Formatter::Ruff => "Ruff formatting failed: "@ + stderr,
    }
}

/// The program, `path` if resolved, else `name`.
fn program(path: &Option<String>, name: &str) -> (r: String)
    ensures
        r@ == program_of(*path, name@),
{
    match path {
        Some(p) => p.clone(),
        None => name.to_string(),
    }
}

impl CodeFormatter {
    /// A formatter with the given paths; `None` looks the program up on
    /// `PATH` when it runs.
    pub fn new(air_path: Option<String>, ruff_path: Option<String>) -> (r: Self)
        ensures
            r.air_path == air_path,
            r.ruff_path == ruff_path,
    {
        CodeFormatter { air_path, ruff_path }
    }

    /// How the code of `lang` is formatted: `r` with Air, `python` with
    /// Ruff, any other language kept as it is.
    pub fn plan(&self, lang: &str) -> (r: FormatPlan)
        ensures
            match plan_for(*self, lang@) {
                Some((f, p)) => r matches FormatPlan::Run { formatter, program } && formatter == f
                    && program@ == p,
                None => r is Unchanged,
            },
    {
        let l = chars_of(lang);
        if crate::text::spells(&l, "r") {
            FormatPlan::Run { formatter: Formatter::Air, program: program(&self.air_path, "air") }
        } else if crate::text::spells(&l, "python") {
            FormatPlan::Run {
                formatter: Formatter::Ruff,
                program: program(&self.ruff_path, "ruff"),
            }
        } else {
            FormatPlan::Unchanged
        }
    }

    /// Formats `code` of language `lang` (`r` or `python`) with `process`;
    /// code of any other language is returned unchanged. An error when the
    /// formatter cannot run or reports a failure.
    pub fn format_code<P: FormatterProcess>(&self, code: &str, lang: &str, process: &mut P) -> (r:
        Result<String, String>)
        ensures
            match plan_for(*self, lang@) {
                None => r matches Ok(t) && t@ == code@,
                Some((f, _)) => r matches Err(m) ==> m@ == not_installed_text(f) || exists|
                    e: Seq<char>,
                | m@ == #[trigger] failure_text(f, e),
            },
    {
        match self.plan(lang) {
            FormatPlan::Unchanged => Ok(code.to_string()),
            FormatPlan::Run { formatter, program } => {
                match process.run(formatter, program.as_str(), code) {
                    Err(()) => Err(not_installed_message(formatter)),
                    Ok((success, formatted, stderr)) => {
                        if success {
                            Ok(formatted)
                        } else {
                            let m = failure_message(formatter, stderr.as_str());
                            assert(m@ == failure_text(formatter, stderr@));
                            Err(m)
                        }
                    },
                }
            },
        }
    }
}

/// Message for a formatter that could not run.
pub fn not_installed_message(f: Formatter) -> (r: String)
    ensures
        r@ == not_installed_text(f),
{
    match f {
        Formatter::Air => "Failed to execute 'air'. Is it installed?".to_string(),
        Formatter::Ruff => "Failed to execute 'ruff'. Is it installed?".to_string(),
    }
}

/// Message for a formatter that reported a failure on its error stream.
pub fn failure_message(f: Formatter, stderr: &str) -> (r: String)
    ensures
        r@ == failure_text(f, stderr@),
{
    let mut m = match f {
        Formatter::Air => chars_of("Air formatting failed: "),
        Formatter::Ruff => chars_of("Ruff formatting failed: "),
    };
    push_str(&mut m, stderr);
    string_of(&m)
}

/// Reads, formats and writes the sources of a project.
///
/// Nothing is assumed of an implementation.
pub trait SourceFiles {
    /// The text of the source at `path`.
    fn read(&self, path: &str) -> Result<String, String>;
    /// The formatted text of a document.
    fn format_document(&self, text: &str) -> Result<String, String>;
    /// Replaces the text of the source at `path`.
    fn write(&mut self, path: &str, text: &str) -> Result<(), String>;
}

/// The sources whose formatted text differs from their text, with it.
pub open spec fn changes(files: Seq<String>, texts: Seq<String>, formatted: Seq<String>) -> Seq<
    (Seq<char>, Seq<char>),
>
    decreases files.len(),
{
    if files.len() == 0 {
        Seq::empty()
    } else {
        let k = files.len() - 1;
        let rest = changes(files.drop_last(), texts, formatted);
        if formatted[k]@ != texts[k]@ {
            rest.push((files[k]@, formatted[k]@))
        } else {
            rest
        }
    }
}

/// Every change is of one of the sources, and there are no more changes
/// than sources.
proof fn lemma_changes_from_files(files: Seq<String>, texts: Seq<String>, formatted: Seq<String>)
    ensures
        changes(files, texts, formatted).len() <= files.len(),
        forall|j: int|
            0 <= j < changes(files, texts, formatted).len() ==> exists|k: int|
                0 <= k < files.len() && (#[trigger] changes(files, texts, formatted)[j]).0
                    == files[k]@,
    decreases files.len(),
{
    if files.len() > 0 {
        let n = files.len() - 1;
        let rest = changes(files.drop_last(), texts, formatted);
        lemma_changes_from_files(files.drop_last(), texts, formatted);
        let c = changes(files, texts, formatted);
        assert forall|j: int| 0 <= j < c.len() implies exists|k: int|
            0 <= k < files.len() && (#[trigger] c[j]).0 == files[k]@ by {
            if j < rest.len() {
                assert(c[j] == rest[j]);
                let k = choose|k: int| 0 <= k < files.drop_last().len() && rest[j].0 == files.drop_last()[k]@;
                assert(files.drop_last()[k] == files[k]);
            } else {
                assert(c[j].0 == files[n]@);
            }
        }
    }
}

/// The paths of the sources whose formatted text differs from their text.
pub open spec fn changed_paths(files: Seq<String>, texts: Seq<String>, formatted: Seq<String>) -> Seq<
    Seq<char>,
> {
    changes(files, texts, formatted).map_values(|c: (Seq<char>, Seq<char>)| c.0)
}

/// The sources `files` whose formatted text differs from their text, each
/// with its formatted text, in order.
pub fn changed_sources(files: &Vec<String>, texts: &Vec<String>, formatted: &Vec<String>) -> (r:
    Vec<(String, String)>)
    requires
        texts@.len() == files@.len(),
        formatted@.len() == files@.len(),
    ensures
        r@.map_values(|c: (String, String)| (c.0@, c.1@)) == changes(files@, texts@, formatted@),
{
    let mut r: Vec<(String, String)> = Vec::new();
    let mut i: usize = 0;
    while i < files.len()
        invariant
            i <= files@.len(),
            texts@.len() == files@.len(),
            formatted@.len() == files@.len(),
            r@.map_values(|c: (String, String)| (c.0@, c.1@)) == changes(
                files@.take(i as int),
                texts@,
                formatted@,
            ),
        decreases files.len() - i,
    {
        proof {
            let t = files@.take(i + 1);
            assert(t.drop_last() == files@.take(i as int));
            assert(t.last() == files@[i as int]);
        }
        let same = same_chars(&chars_of(formatted[i].as_str()), &chars_of(texts[i].as_str()));
        if !same {
            let ghost before = r@;
            r.push((files[i].clone(), formatted[i].clone()));
            proof {
                assert(r@.map_values(|c: (String, String)| (c.0@, c.1@)) =~= before.map_values(
                    |c: (String, String)| (c.0@, c.1@),
                ).push((files@[i as int]@, formatted@[i as int]@)));
            }
        }
        i = i + 1;
    }
    assert(files@.take(files.len() as int) == files@);
    r
}

/// `prefix` followed by `path`.
fn about(prefix: &str, path: &str) -> (r: String)
    ensures
        r@ == prefix@ + path@,
{
    let mut m = chars_of(prefix);
    push_str(&mut m, path);
    string_of(&m)
}

/// Formats the sources `files` and returns those whose text changed, in
/// order. Every source is read and formatted before any is written; in
/// check mode none is written. A failure to read or format a source is an
/// error before any write; a failed write can leave earlier writes applied.
pub fn format_sources<S: SourceFiles>(files: &Vec<String>, check: bool, sources: &mut S) -> (r:
    Result<Vec<String>, String>)
    ensures
        r matches Ok(changed) ==> exists|texts: Seq<String>, formatted: Seq<String>|
            texts.len() == files@.len() && formatted.len() == files@.len() && changed@.map_values(
                |p: String| p@,
            ) == #[trigger] changed_paths(files@, texts, formatted),
        files@.len() == 0 ==> (r matches Ok(changed) && changed@.len() == 0),
        check ==> *final(sources) == *old(sources),
        r matches Err(m) ==> exists|k: int|
            0 <= k < files@.len() && (((m@ == "Cannot read "@ + (#[trigger] files@[k])@ || m@
                == "Cannot format "@ + files@[k]@) && *final(sources) == *old(sources)) || m@
                == "Cannot write "@ + files@[k]@),
{
    let mut texts: Vec<String> = Vec::new();
    let mut formatted: Vec<String> = Vec::new();
    let mut i: usize = 0;
    while i < files.len()
        invariant
            i <= files@.len(),
            texts@.len() == i,
            formatted@.len() == i,
            *sources == *old(sources),
        decreases files.len() - i,
    {
        let original = match sources.read(files[i].as_str()) {
            Ok(t) => t,
            Err(_) => {
                return Err(about("Cannot read ", files[i].as_str()));
            },
        };
        let f = match sources.format_document(original.as_str()) {
            Ok(t) => t,
            Err(_) => {
                return Err(about("Cannot format ", files[i].as_str()));
            },
        };
        texts.push(original);
        formatted.push(f);
        i = i + 1;
    }
    let r = apply_formatting(files, &texts, &formatted, check, sources);
    proof {
        lemma_changes_from_files(files@, texts@, formatted@);
        if r is Ok {
            let c = r->Ok_0;
            assert(c@.map_values(|p: String| p@).len() == c@.len());
            assert(changed_paths(files@, texts@, formatted@).len() == changes(
                files@,
                texts@,
                formatted@,
            ).len());
        }
        if r is Ok {
            assert(changed_paths(files@, texts@, formatted@) == changed_paths(
                files@,
                texts@,
                formatted@,
            ));
        }
    }
    r
}

/// Applies the formatting of the sources `files`, whose texts are `texts`
/// and formatted texts `formatted`: the sources whose formatted text differs
/// are written (none in check mode, where `sources` is left as it is), and
/// their paths are returned, in order. A failed write is an error naming
/// the source, and can leave earlier writes applied.
pub fn apply_formatting<S: SourceFiles>(
    files: &Vec<String>,
    texts: &Vec<String>,
    formatted: &Vec<String>,
    check: bool,
    sources: &mut S,
) -> (r: Result<Vec<String>, String>)
    requires
        texts@.len() == files@.len(),
        formatted@.len() == files@.len(),
    ensures
        r matches Ok(changed) ==> changed@.map_values(|p: String| p@) == changed_paths(
            files@,
            texts@,
            formatted@,
        ),
        check ==> r is Ok && *final(sources) == *old(sources),
        files@.len() == 0 ==> r is Ok,
        r matches Err(m) ==> exists|k: int|
            0 <= k < files@.len() && m@ == "Cannot write "@ + (#[trigger] files@[k])@,
{
    let pending = changed_sources(files, &texts, &formatted);
    proof {
        lemma_changes_from_files(files@, texts@, formatted@);
        assert forall|j: int| 0 <= j < pending@.len() implies exists|k: int|
            0 <= k < files@.len() && (#[trigger] pending@[j]).0@ == files@[k]@ by {
            let cv = pending@.map_values(|c: (String, String)| (c.0@, c.1@));
            assert(cv[j] == changes(files@, texts@, formatted@)[j]);
        }
    }
    if !check {
        let mut k: usize = 0;
        while k < pending.len()
            invariant
                !check,
                pending@.len() <= files@.len(),
                forall|j: int| 0 <= j < pending@.len() ==> exists|k: int|
                    0 <= k < files@.len() && (#[trigger] pending@[j]).0@ == files@[k]@,
            decreases pending.len() - k,
        {
            match sources.write(pending[k].0.as_str(), pending[k].1.as_str()) {
                Ok(()) => {},
                Err(_) => {
                    return Err(about("Cannot write ", pending[k].0.as_str()));
                },
            }
            k = k + 1;
        }
    }
    let mut changed: Vec<String> = Vec::new();
    let mut k: usize = 0;
    while k < pending.len()
        invariant
            k <= pending@.len(),
            changed@.map_values(|p: String| p@) == pending@.map_values(
                |c: (String, String)| c.0@,
            ).take(k as int),
        decreases pending.len() - k,
    {
        let ghost before = changed@;
        changed.push(pending[k].0.clone());
        proof {
            assert(changed@.map_values(|p: String| p@) =~= before.map_values(|p: String| p@).push(
                pending@[k as int].0@,
            ));
            assert(pending@.map_values(|c: (String, String)| c.0@).take(k + 1) =~= pending@.map_values(
                |c: (String, String)| c.0@,
            ).take(k as int).push(pending@[k as int].0@));
        }
        k = k + 1;
    }
    proof {
        let cv = pending@.map_values(|c: (String, String)| (c.0@, c.1@));
        assert(pending@.map_values(|c: (String, String)| c.0@).take(pending.len() as int)
            =~= cv.map_values(|c: (Seq<char>, Seq<char>)| c.0));
        assert(changed_paths(files@, texts@, formatted@) == cv.map_values(
            |c: (Seq<char>, Seq<char>)| c.0,
        ));
        assert(changed@.map_values(|p: String| p@) == changed_paths(files@, texts@, formatted@));
    }
    Ok(changed)
}

/// Formats one source; whether its text changed (also in check mode).
pub fn format_file<S: SourceFiles>(file: &str, check: bool, sources: &mut S) -> (r: Result<
    bool,
    String,
>)
    ensures
        r matches Err(m) ==> (m@ == "Cannot read "@ + file@ || m@ == "Cannot format "@ + file@ || m@
            == "Cannot write "@ + file@),
{
    let files = vec![file.to_string()];
    assert(files@[0]@ == file@);
    let changed = format_sources(&files, check, sources)?;
    Ok(changed.len() > 0)
}


/// Whether the canonical path `p` lies under the canonical directory `root`
/// (compared component by component, as `Path::starts_with` does).
pub open spec fn under_root(p: Seq<char>, root: Seq<char>) -> bool {
    if crate::text::ends_with(root, "/"@) {
        crate::text::starts_with(p, root)
    } else {
        p == root || crate::text::starts_with(p, root + "/"@)
    }
}

/// Whether the canonical path `p` lies under the canonical directory `root`.
fn is_under_root(p: &str, root: &str) -> (r: bool)
    ensures
        r == under_root(p@, root@),
{
    let pv = chars_of(p);
    let rv = chars_of(root);
    if crate::text::has_suffix(&rv, &chars_of("/")) {
        crate::text::has_prefix(&pv, &rv)
    } else {
        let mut dir = chars_of(root);
        push_str(&mut dir, "/");
        same_chars(&pv, &rv) || crate::text::has_prefix(&pv, &dir)
    }
}

/// The canonical paths, each once, of the candidate sources of a project
/// at the canonical `root` (`(path, canonical path)`, main file first): an
/// error naming the first source that lies outside the root.
pub open spec fn selected_sources(root: Seq<char>, candidates: Seq<(String, String)>) -> Result<
    Seq<Seq<char>>,
    Seq<char>,
>
    decreases candidates.len(),
{
    if candidates.len() == 0 {
        Ok(Seq::empty())
    } else {
        match selected_sources(root, candidates.drop_last()) {
            Err(e) => Err(e),
            Ok(kept) => {
                let (path, canonical) = candidates.last();
                if !under_root(canonical@, root) {
                    Err("Source "@ + path@ + " is outside the project root"@)
                } else if kept.contains(canonical@) {
                    Ok(kept)
                } else {
                    Ok(kept.push(canonical@))
                }
            },
        }
    }
}

/// The sources to format in a project (see `selected_sources`).
pub fn select_sources(root: &str, candidates: &Vec<(String, String)>) -> (r: Result<
    Vec<String>,
    String,
>)
    ensures
        match selected_sources(root@, candidates@) {
            Ok(kept) => r matches Ok(v) && v@.map_values(|p: String| p@) == kept,
            Err(e) => r matches Err(m) && m@ == e,
        },
{
    let mut kept: Vec<String> = Vec::new();
    let mut i: usize = 0;
    assert(candidates@.take(0) =~= Seq::<(String, String)>::empty());
    assert(kept@.map_values(|p: String| p@) =~= Seq::<Seq<char>>::empty());
    while i < candidates.len()
        invariant
            i <= candidates@.len(),
            selected_sources(root@, candidates@.take(i as int)) == Ok::<
                Seq<Seq<char>>,
                Seq<char>,
            >(kept@.map_values(|p: String| p@)),
        decreases candidates.len() - i,
    {
        proof {
            let t = candidates@.take(i + 1);
            assert(t.drop_last() == candidates@.take(i as int));
            assert(t.last() == candidates@[i as int]);
        }
        let (path, canonical) = (&candidates[i].0, &candidates[i].1);
        if !is_under_root(canonical.as_str(), root) {
            let mut m = chars_of("Source ");
            push_str(&mut m, path.as_str());
            push_str(&mut m, " is outside the project root");
            proof {
                assert(selected_sources(root@, candidates@.take(i + 1)) is Err);
                lemma_selected_err_persists(root@, candidates@, (i + 1) as int);
            }
            return Err(string_of(&m));
        }
        let mut seen = false;
        let mut j: usize = 0;
        while j < kept.len()
            invariant
                j <= kept@.len(),
                seen == exists|k: int| 0 <= k < j && (#[trigger] kept@[k])@ == canonical@,
            decreases kept.len() - j,
        {
            if same_chars(&chars_of(kept[j].as_str()), &chars_of(canonical.as_str())) {
                seen = true;
            }
            j = j + 1;
        }
        proof {
            let kv = kept@.map_values(|p: String| p@);
            if seen {
                let k = choose|k: int| 0 <= k < kept@.len() && (#[trigger] kept@[k])@ == canonical@;
                assert(kv[k] == canonical@);
            } else if kv.contains(canonical@) {
                let k = choose|k: int| 0 <= k < kv.len() && kv[k] == canonical@;
                assert(kept@[k]@ == canonical@);
            }
        }
        if !seen {
            let ghost before = kept@;
            kept.push(canonical.clone());
            assert(kept@.map_values(|p: String| p@) =~= before.map_values(|p: String| p@).push(
                canonical@,
            ));
        }
        i = i + 1;
    }
    assert(candidates@.take(candidates.len() as int) == candidates@);
    Ok(kept)
}

/// Once selection fails on a prefix of the candidates, it fails the same
/// way on every longer prefix.
proof fn lemma_selected_err_persists(root: Seq<char>, c: Seq<(String, String)>, n: int)
    requires
        0 <= n <= c.len(),
        selected_sources(root, c.take(n)) is Err,
    ensures
        selected_sources(root, c) == selected_sources(root, c.take(n)),
    decreases c.len() - n,
{
    if n < c.len() {
        let t = c.take(n + 1);
        assert(t.drop_last() == c.take(n));
        lemma_selected_err_persists(root, c, n + 1);
    } else {
        assert(c.take(n) == c);
    }
}

} // verus!
