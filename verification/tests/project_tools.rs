use knot::ast::{Chunk, ChunkOptions};
use knot::cleaning::{clean_paths, clean_project, cleanup_targets, clean_targets, CleanTarget, RecordedFiles, clean_report, legacy_output, tally, main_outputs, main_stem_of, CleanSummary, ProjectFiles, RemovedFile};
use knot::codegen::CodeGenerator;
use knot::config::Config;
use knot::dependencies::{errors_for_missing, missing_dependency_message};
use knot::formatters::{
    apply_formatting, changed_sources, format_file, format_sources, select_sources, CodeFormatter, FormatPlan,
    Formatter, FormatterProcess, SourceFiles,
};
use knot::project_build::{build_outcome, BuildOptions, TypstRun};
use knot::watch::{next_changes, watched_paths, Changes, WatchEvent, WatchSet, WatchStep};
use std::collections::BTreeMap;

// ---------------------------------------------------------------------------
// Watching
// ---------------------------------------------------------------------------

fn watched() -> WatchSet {
    WatchSet::new(watched_paths(
        "/p",
        "/p/main.knot",
        &vec!["a/intro.knot".to_string(), "later.knot".to_string()],
        &vec!["data/input.csv".to_string()],
    ))
}

#[test]
fn watched_files_are_the_sources_their_dependencies_and_the_configuration() {
    let watched = watched();
    for file in ["knot.toml", "main.knot", "a/intro.knot", "data/input.csv", "later.knot"] {
        assert!(watched.contains(&format!("/p/{file}")), "{file}");
    }
    for file in ["b/intro.knot", "main.typ", "_knot_files/x.svg"] {
        assert!(!watched.contains(&format!("/p/{file}")), "{file}");
    }
}

#[test]
fn changes_are_coalesced_until_a_quiet_period() {
    let watched = watched();
    let mut changes = Changes::new();
    // Unwatched changes (our own outputs) never start a rebuild.
    let step = next_changes(&mut changes, &watched, WatchEvent::Paths(vec!["/p/main.typ".into()]));
    assert!(matches!(step, WatchStep::WaitForChange));
    let step = next_changes(&mut changes, &watched, WatchEvent::Paths(vec!["/p/main.knot".into()]));
    assert!(matches!(step, WatchStep::WaitQuietPeriod));
    let step = next_changes(
        &mut changes,
        &watched,
        WatchEvent::Paths(vec!["/p/data/input.csv".into(), "/p/main.knot".into()]),
    );
    assert!(matches!(step, WatchStep::WaitQuietPeriod));
    match next_changes(&mut changes, &watched, WatchEvent::QuietPeriodOver) {
        WatchStep::Rebuild(files) => assert_eq!(files, vec!["/p/main.knot", "/p/data/input.csv"]),
        other => panic!("unexpected {other:?}"),
    }
    let step = next_changes(&mut changes, &watched, WatchEvent::Paths(vec!["/p/main.knot".into()]));
    assert!(matches!(step, WatchStep::WaitQuietPeriod));
    match next_changes(&mut changes, &watched, WatchEvent::Closed) {
        WatchStep::Rebuild(files) => assert_eq!(files, vec!["/p/main.knot"]),
        other => panic!("unexpected {other:?}"),
    }
    assert!(matches!(next_changes(&mut changes, &watched, WatchEvent::Closed), WatchStep::Stop));
}

// ---------------------------------------------------------------------------
// Cleaning
// ---------------------------------------------------------------------------

#[derive(Default)]
struct Tree {
    /// Files by path, with the chunk count of an index (None: unreadable).
    files: BTreeMap<String, Option<usize>>,
    dirs: Vec<String>,
}

impl ProjectFiles for Tree {
    fn path_exists(&self, path: &str) -> bool {
        self.files.contains_key(path) || self.dirs.iter().any(|d| d == path)
    }
    fn inspect(&self, path: &str, cache: bool) -> Result<Vec<RemovedFile>, String> {
        let prefix = format!("{path}/");
        Ok(self
            .files
            .iter()
            .filter(|(p, _)| *p == path || p.starts_with(&prefix))
            .map(|(p, index)| RemovedFile {
                name: p.rsplit('/').next().unwrap().to_string(),
                index_chunks: if cache { *index } else { None },
            })
            .collect())
    }
    fn files_of(&self, path: &str) -> Result<Vec<(String, String)>, String> {
        let prefix = format!("{path}/");
        Ok(self
            .files
            .keys()
            .filter(|p| p.starts_with(&prefix) && !p[prefix.len()..].contains('/'))
            .map(|p| (p.clone(), p[prefix.len()..].to_string()))
            .collect())
    }
    fn remove_dir_all(&mut self, path: &str) -> Result<(), String> {
        let prefix = format!("{path}/");
        self.files.retain(|p, _| !p.starts_with(&prefix));
        self.dirs.retain(|d| d != path);
        Ok(())
    }
    fn remove_file(&mut self, path: &str) -> Result<(), String> {
        self.files.remove(path).map(|_| ()).ok_or_else(|| format!("no file {path}"))
    }
}

fn project() -> (Tree, Config) {
    let mut tree = Tree::default();
    tree.files.insert("/p/knot.toml".into(), None);
    tree.files.insert("/p/main.knot".into(), None);
    let mut config = Config::default();
    config.document.main = Some("main.knot".into());
    (tree, config)
}

fn clean(tree: &mut Tree, config: &Config) -> String {
    let mut files = RecordedFiles::new(std::mem::take(tree));
    let summary = clean_project("/p", config, &mut files);
    *tree = files.into_files();
    clean_report(&summary.unwrap())
}

#[test]
fn clean_counts_chunks_across_documents_and_preserves_sources() {
    let (mut tree, config) = project();
    tree.dirs = vec!["/p/.knot_cache".into(), "/p/_knot_files".into()];
    tree.files.insert("/p/.knot_cache/v2/first/metadata.json".into(), Some(1));
    tree.files.insert("/p/.knot_cache/v2/second/metadata.json".into(), Some(1));
    tree.files.insert("/p/.knot_cache/v2/first/figure.svg".into(), None);
    tree.files.insert("/p/_knot_files/helper.py".into(), None);
    for name in ["main.typ", "main.pdf", ".legacy.typ", ".legacy.pdf", "keep.typ"] {
        tree.files.insert(format!("/p/{name}"), None);
    }
    assert_eq!(clean(&mut tree, &config), "Cleaned project: 2 cached chunks invalidated, 8 files removed.");
    for name in [".knot_cache", "_knot_files", "main.typ", "main.pdf", ".legacy.typ", ".legacy.pdf"] {
        assert!(!tree.path_exists(&format!("/p/{name}")), "{name} should be removed");
    }
    assert!(tree.path_exists("/p/main.knot"));
    assert!(tree.path_exists("/p/keep.typ"));
    assert!(tree.path_exists("/p/knot.toml"));
    assert_eq!(clean(&mut tree, &config), "Nothing to clean.");
}

#[test]
fn clean_handles_absent_and_empty_cache() {
    let (mut tree, config) = project();
    assert_eq!(clean(&mut tree, &config), "Nothing to clean.");
    tree.dirs = vec!["/p/.knot_cache".into()];
    assert_eq!(clean(&mut tree, &config), "Nothing to clean.");
    assert!(!tree.path_exists("/p/.knot_cache"));
}

#[test]
fn clean_removes_outputs_without_cache() {
    let (mut tree, config) = project();
    tree.files.insert("/p/main.pdf".into(), None);
    assert_eq!(clean(&mut tree, &config), "Cleaned project: 0 cached chunks invalidated, 1 files removed.");
    assert!(!tree.path_exists("/p/main.pdf"));
}

#[test]
fn clean_reports_unreadable_index_without_preventing_cleanup() {
    let (mut tree, config) = project();
    tree.dirs = vec!["/p/.knot_cache".into()];
    tree.files.insert("/p/.knot_cache/v2/doc/metadata.json".into(), None);
    assert_eq!(
        clean(&mut tree, &config),
        "Cleaned project: 1 files removed; chunk count unavailable (1 unreadable cache indexes)."
    );
    assert!(!tree.path_exists("/p/.knot_cache"));
}

#[test]
fn clean_does_not_follow_symlinks_outside_cache() {
    // The link is one entry of the cache; what it points to is not listed.
    let (mut tree, config) = project();
    tree.dirs = vec!["/p/.knot_cache".into()];
    tree.files.insert("/p/.knot_cache/link".into(), None);
    tree.files.insert("/elsewhere/keep".into(), None);
    assert_eq!(clean(&mut tree, &config), "Cleaned project: 0 cached chunks invalidated, 1 files removed.");
    assert!(tree.path_exists("/elsewhere/keep"));
}

#[test]
fn generated_documents_are_named_after_the_main_file() {
    assert_eq!(main_stem_of("chapters/report.knot"), "report");
    assert_eq!(main_stem_of(".hidden"), ".hidden");
    assert_eq!(main_stem_of("archive.tar.gz"), "archive.tar");
    assert_eq!(main_stem_of(".."), "main");
    assert_eq!(
        main_outputs("/p", "main.knot"),
        ("/p/main.typ".to_string(), "/p/main.pdf".to_string())
    );
    assert!(legacy_output(".main.typ"));
    assert!(legacy_output(".x.pdf"));
    assert!(!legacy_output("main.typ"));
    assert!(!legacy_output(".notes"));
}

#[test]
fn a_summary_counts_index_entries_only_in_the_cache() {
    let mut s = CleanSummary::new();
    s.record(&RemovedFile { name: "metadata.json".into(), index_chunks: Some(4) }, true);
    s.record(&RemovedFile { name: "metadata.json".into(), index_chunks: Some(4) }, false);
    s.record(&RemovedFile { name: "x.txt".into(), index_chunks: None }, true);
    assert_eq!(s, CleanSummary { chunks: 4, unreadable_indexes: 0, files: 3 });
    let files = vec![
        RemovedFile { name: "metadata.json".into(), index_chunks: None },
        RemovedFile { name: "metadata.json".into(), index_chunks: Some(2) },
    ];
    assert_eq!(tally(&mut s, &files, true), Ok(()));
    assert_eq!(s, CleanSummary { chunks: 6, unreadable_indexes: 1, files: 5 });
    let mut full = CleanSummary { chunks: 0, unreadable_indexes: 0, files: usize::MAX };
    assert!(tally(&mut full, &files, true).is_err());
}

// ---------------------------------------------------------------------------
// Formatting
// ---------------------------------------------------------------------------

struct Uppercase {
    texts: BTreeMap<String, String>,
    writes: usize,
    fail_format: bool,
}

impl SourceFiles for Uppercase {
    fn read(&self, path: &str) -> Result<String, String> {
        self.texts.get(path).cloned().ok_or_else(|| "missing".to_string())
    }
    fn format_document(&self, text: &str) -> Result<String, String> {
        if self.fail_format {
            Err("bad".into())
        } else {
            Ok(text.to_uppercase())
        }
    }
    fn write(&mut self, path: &str, text: &str) -> Result<(), String> {
        self.writes += 1;
        self.texts.insert(path.to_string(), text.to_string());
        Ok(())
    }
}

fn sources() -> Uppercase {
    let mut texts = BTreeMap::new();
    texts.insert("a.knot".to_string(), "x".to_string());
    texts.insert("b.knot".to_string(), "Y".to_string());
    Uppercase { texts, writes: 0, fail_format: false }
}

#[test]
fn check_reports_changes_without_writing_and_format_is_idempotent() {
    let files = vec!["a.knot".to_string(), "b.knot".to_string()];
    let mut s = sources();
    assert_eq!(format_sources(&files, true, &mut s).unwrap(), vec!["a.knot"]);
    assert_eq!(s.writes, 0);
    assert_eq!(format_sources(&files, false, &mut s).unwrap(), vec!["a.knot"]);
    assert_eq!(s.writes, 1);
    assert_eq!(s.texts["a.knot"], "X");
    assert!(format_sources(&files, false, &mut s).unwrap().is_empty());
    assert_eq!(format_file("b.knot", true, &mut s), Ok(false));
}

#[test]
fn formatter_failure_keeps_every_project_source_unchanged() {
    let files = vec!["a.knot".to_string(), "b.knot".to_string()];
    let mut s = sources();
    s.fail_format = true;
    assert_eq!(format_sources(&files, false, &mut s), Err("Cannot format a.knot".to_string()));
    assert_eq!(s.writes, 0);
    let mut s = sources();
    assert_eq!(
        format_sources(&vec!["zz.knot".to_string()], false, &mut s),
        Err("Cannot read zz.knot".to_string())
    );
}

#[test]
fn only_changed_sources_are_listed() {
    let changes = changed_sources(
        &vec!["a".into(), "b".into()],
        &vec!["1".into(), "2".into()],
        &vec!["1".into(), "3".into()],
    );
    assert_eq!(changes, vec![("b".to_string(), "3".to_string())]);
}

#[test]
fn project_formats_only_declared_sources_once_from_a_subdirectory() {
    let candidates = vec![
        ("main.knot".to_string(), "/p/main.knot".to_string()),
        ("a.knot".to_string(), "/p/a.knot".to_string()),
        ("./main.knot".to_string(), "/p/main.knot".to_string()),
    ];
    assert_eq!(select_sources("/p", &candidates).unwrap(), vec!["/p/main.knot", "/p/a.knot"]);
}

#[test]
fn project_rejects_sources_outside_its_root() {
    let candidates = vec![("../x.knot".to_string(), "/px.knot".to_string())];
    assert_eq!(
        select_sources("/p", &candidates),
        Err("Source ../x.knot is outside the project root".to_string())
    );
}

struct Tools {
    run: Option<(bool, String, String)>,
    programs: Vec<String>,
}

impl FormatterProcess for Tools {
    fn run(&mut self, _f: Formatter, program: &str, _code: &str) -> Result<(bool, String, String), ()> {
        self.programs.push(program.to_string());
        self.run.clone().ok_or(())
    }
}

#[test]
fn missing_formatters_fail_explicitly_but_plain_typst_needs_none() {
    let formatter = CodeFormatter::new(None, Some("/opt/ruff".to_string()));
    let mut tools = Tools { run: None, programs: vec![] };
    assert_eq!(formatter.format_code("x", "typst", &mut tools), Ok("x".to_string()));
    assert!(tools.programs.is_empty());
    assert_eq!(
        formatter.format_code("x", "r", &mut tools),
        Err("Failed to execute 'air'. Is it installed?".to_string())
    );
    assert_eq!(tools.programs, vec!["air"]);
    assert!(matches!(formatter.plan("python"), FormatPlan::Run { formatter: Formatter::Ruff, .. }));
}

#[test]
fn ruff_failure_reports_stderr_and_does_not_write_the_file() {
    let formatter = CodeFormatter::new(None, None);
    let mut tools = Tools { run: Some((false, String::new(), "syntax error".into())), programs: vec![] };
    assert_eq!(
        formatter.format_code("x = (", "python", &mut tools),
        Err("Ruff formatting failed: syntax error".to_string())
    );
    let mut ok = Tools { run: Some((true, "x = 1\n".into(), String::new())), programs: vec![] };
    assert_eq!(formatter.format_code("x=1", "python", &mut ok), Ok("x = 1\n".to_string()));
    assert_eq!(ok.programs, vec!["ruff"]);
}

// ---------------------------------------------------------------------------
// Building
// ---------------------------------------------------------------------------

#[test]
fn build_outcomes_follow_typst_and_strict_mode() {
    let ok = TypstRun { success: true, status: "exit status: 0".into(), stderr: String::new() };
    assert_eq!(build_outcome(BuildOptions::default(), "/p/main.typ", "/p/main.pdf", &ok, &vec![]), Ok(None));
    let errors = vec!["a".to_string(), "b".to_string()];
    let summary = "2 error(s) in the document; the PDF shows them in context: /p/main.pdf".to_string();
    assert_eq!(
        build_outcome(BuildOptions::default(), "/p/main.typ", "/p/main.pdf", &ok, &errors),
        Ok(Some(summary.clone()))
    );
    let strict = BuildOptions { strict: true, ..Default::default() };
    assert_eq!(build_outcome(strict, "/p/main.typ", "/p/main.pdf", &ok, &errors), Err(summary));
    let failed = TypstRun { success: false, status: "exit status: 1".into(), stderr: "  \n".into() };
    assert_eq!(
        build_outcome(strict, "/p/main.typ", "/p/main.pdf", &failed, &errors),
        Err("Typst compilation failed for /p/main.typ (exit status: 1).\nTypst returned no diagnostics.".to_string())
    );
    let failed = TypstRun { success: false, status: "exit status: 1".into(), stderr: "error: x\n".into() };
    assert_eq!(
        build_outcome(BuildOptions::default(), "/p/main.typ", "/p/main.pdf", &failed, &vec![]),
        Err("Typst compilation failed for /p/main.typ (exit status: 1).\nerror: x".to_string())
    );
}

// ---------------------------------------------------------------------------
// Dependencies and document generation
// ---------------------------------------------------------------------------

fn chunk_at(source: &str, fence: &str) -> Chunk {
    let start = source.find(fence).unwrap();
    Chunk {
        index: 0,
        language: "r".into(),
        code: String::new(),
        name: None,
        options: ChunkOptions::default(),
        codly_options: vec![],
        errors: vec![],
        start_line: 0,
        start_byte: start,
        end_byte: start + fence.len(),
    }
}

#[test]
fn missing_dependencies_are_errors_on_the_depends_line() {
    let source = "intro\n```{r}\n#| eval: true\n  #|  depends: [a.csv, b.csv]\nx\n```\n";
    let c = chunk_at(source, "```{r}\n#| eval: true\n  #|  depends: [a.csv, b.csv]\nx\n```");
    let depends = vec!["a.csv".to_string(), "b.csv".to_string()];
    let errors = errors_for_missing(&c, &depends, &vec![true, false], source);
    assert_eq!(errors.len(), 1);
    assert_eq!(errors[0].message, missing_dependency_message("b.csv"));
    assert_eq!(errors[0].line, Some(2));
    assert!(errors[0].is_error());
    assert_eq!(
        missing_dependency_message("b.csv"),
        "Dependency 'b.csv' not found (depends paths are relative to the project root). The chunk is not executed and later chunks in this language are suspended."
    );
}

#[test]
fn generated_documents_replace_each_chunk_block() {
    let source = "A\n```{r}\nx\n```\nB\n```{r}\ny\n```\nC";
    let chunks = vec![chunk_at(source, "```{r}\nx\n```"), chunk_at(source, "```{r}\ny\n```")];
    let mut generator = CodeGenerator::new();
    generator.add_chunk_result("#one".to_string());
    assert_eq!(generator.generate(source, &chunks), "A\n#one\nB\n\nC");
    generator.add_chunk_result("#two".to_string());
    assert_eq!(generator.generate(source, &chunks), "A\n#one\nB\n#two\nC");
}

#[test]
fn a_cleanup_targets_the_cache_the_language_files_and_the_main_outputs() {
    let mut config = Config::default();
    assert_eq!(
        clean_paths("/p", &config),
        ("/p/.knot_cache".to_string(), "/p/_knot_files".to_string(), None)
    );
    config.document.main = Some("doc/report.knot".into());
    assert_eq!(
        clean_paths("/p", &config).2,
        Some(("/p/report.typ".to_string(), "/p/report.pdf".to_string()))
    );
}

#[test]
fn applying_formatting_writes_only_what_changed_and_nothing_in_check_mode() {
    let files = vec!["a.knot".to_string(), "b.knot".to_string()];
    let texts = vec!["x".to_string(), "Y".to_string()];
    let formatted = vec!["X".to_string(), "Y".to_string()];
    let mut s = sources();
    assert_eq!(apply_formatting(&files, &texts, &formatted, true, &mut s), Ok(vec!["a.knot".to_string()]));
    assert_eq!(s.writes, 0);
    assert_eq!(apply_formatting(&files, &texts, &formatted, false, &mut s), Ok(vec!["a.knot".to_string()]));
    assert_eq!(s.writes, 1);
    assert_eq!(s.texts["a.knot"], "X");
}

#[test]
fn the_cleanup_plan_lists_directories_documents_then_hidden_outputs() {
    let mut config = Config::default();
    config.document.main = Some("main.knot".into());
    let entries = vec![
        ("/p/.legacy.typ".to_string(), ".legacy.typ".to_string()),
        ("/p/keep.typ".to_string(), "keep.typ".to_string()),
        ("/p/.old.pdf".to_string(), ".old.pdf".to_string()),
        ("/p/.notes.md".to_string(), ".notes.md".to_string()),
    ];
    let targets: Vec<(String, bool, bool)> = cleanup_targets("/p", &config, &entries)
        .into_iter()
        .map(|t: CleanTarget| (t.path, t.directory, t.cache))
        .collect();
    assert_eq!(
        targets,
        vec![
            ("/p/.knot_cache".to_string(), true, true),
            ("/p/_knot_files".to_string(), true, false),
            ("/p/main.typ".to_string(), false, false),
            ("/p/main.pdf".to_string(), false, false),
            ("/p/.legacy.typ".to_string(), false, false),
            ("/p/.old.pdf".to_string(), false, false),
        ]
    );
    let none = cleanup_targets("/p", &Config::default(), &vec![]);
    assert_eq!(none.len(), 2);
}

#[test]
fn cleaning_targets_removes_only_what_exists() {
    let (mut tree, config) = project();
    tree.files.insert("/p/main.typ".into(), None);
    tree.files.insert("/p/.x.pdf".into(), None);
    let entries = tree.files_of("/p").unwrap();
    let targets = cleanup_targets("/p", &config, &entries);
    let mut files = RecordedFiles::new(tree);
    let summary = clean_targets(&targets, &mut files).unwrap();
    let again = clean_targets(&targets, &mut files).unwrap();
    let tree = files.into_files();
    assert_eq!(summary.files, 2);
    assert_eq!(again, CleanSummary::new());
    assert!(tree.files.contains_key("/p/main.knot"));
    assert!(!tree.files.contains_key("/p/.x.pdf"));
}
