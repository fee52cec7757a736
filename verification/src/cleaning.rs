//! Cleaning a project: its cache, the files generated by the languages and
//! the generated documents are removed, and what was removed is counted.
use crate::cache::{file_name, last_index_in, last_index_of, path_file_name};
use crate::config::Config;
use crate::defaults::Defaults;
use crate::sync::{join_path, path_join};
use crate::text::{
    chars_of, decimal, ends_with, has_prefix, has_suffix, push_decimal, push_str, starts_with,
    string_of,
};
use vstd::prelude::*;

verus! {

/// Totals for a completed project cleanup.
#[derive(Debug, Clone, Copy, PartialEq, Eq, Structural)]
pub struct CleanSummary {
    /// Cached chunk entries removed, excluding inline expressions.
    pub chunks: usize,
    /// Cache indexes that could not be read; the chunk total is incomplete.
    pub unreadable_indexes: usize,
    /// Files and symbolic links removed (directory contents included).
    pub files: usize,
}

/// A file (or symbolic link, not followed) about to be removed.
#[derive(Debug, Clone)]
pub struct RemovedFile {
    /// Its name.
    pub name: String,
    /// For a cache index, the number of chunk entries it holds, if it could
    /// be read.
    pub index_chunks: Option<usize>,
}

/// Name of the cache index of a cache directory.
pub open spec fn index_name() -> Seq<char> {
    "metadata.json"@
}

/// `s` after one more file `f` is counted; `cache` tells whether it lies in
/// the cache directory, whose index files count their chunk entries.
pub open spec fn counted(s: CleanSummary, f: RemovedFile, cache: bool) -> CleanSummary {
    if cache && f.name@ == index_name() {
        match f.index_chunks {
            Some(n) => CleanSummary { chunks: (s.chunks + n) as usize, files: (s.files + 1) as usize, ..s },
            None => CleanSummary {
                unreadable_indexes: (s.unreadable_indexes + 1) as usize,
                files: (s.files + 1) as usize,
                ..s
            },
        }
    } else {
        CleanSummary { files: (s.files + 1) as usize, ..s }
    }
}

/// Whether counting `f` fits the counters.
pub open spec fn can_count(s: CleanSummary, f: RemovedFile) -> bool {
    &&& s.files < usize::MAX
    &&& s.unreadable_indexes < usize::MAX
    &&& f.index_chunks matches Some(n) ==> s.chunks + n <= usize::MAX
}

impl CleanSummary {
    /// Nothing removed yet.
    pub fn new() -> (r: Self)
        ensures
            r.chunks == 0 && r.unreadable_indexes == 0 && r.files == 0,
    {
        CleanSummary { chunks: 0, unreadable_indexes: 0, files: 0 }
    }

    /// Counts one more removed file; `cache` tells whether it lies in the
    /// cache directory.
    pub fn record(&mut self, f: &RemovedFile, cache: bool)
        requires
            can_count(*old(self), *f),
        ensures
            *final(self) == counted(*old(self), *f, cache),
    {
        let is_index = cache && crate::text::spells(&chars_of(f.name.as_str()), "metadata.json");
        if is_index {
            match f.index_chunks {
                Some(n) => {
                    self.chunks = self.chunks + n;
                },
                None => {
                    self.unreadable_indexes = self.unreadable_indexes + 1;
                },
            }
        }
        self.files = self.files + 1;
    }
}

impl Default for CleanSummary {
    fn default() -> (r: Self)
        ensures
            r.chunks == 0 && r.unreadable_indexes == 0 && r.files == 0,
    {
        CleanSummary::new()
    }
}

/// The stem of a file name, as `Path::file_stem` gives it: the name before
/// its last `.`, unless that `.` begins the name.
pub open spec fn stem_of(name: Seq<char>) -> Seq<char> {
    match last_index_of(name, '.') {
        Some(k) => if k > 0 {
            name.take(k)
        } else {
            name
        },
        None => name,
    }
}

/// The stem of the main document's file, or `main`.
pub open spec fn main_stem(main: Seq<char>) -> Seq<char> {
    match file_name(main) {
        Some(n) => stem_of(n),
        None => "main"@,
    }
}

/// The stem of the main document's file, or `main`.
pub fn main_stem_of(main: &str) -> (r: String)
    ensures
        r@ == main_stem(main@),
{
    match path_file_name(main) {
        Some(n) => {
            let v = chars_of(n.as_str());
            assert(v@.take(v.len() as int) =~= v@);
            proof {
                crate::cache::lemma_last_index_bound(v@, '.');
            }
            match last_index_in(&v, v.len(), '.') {
                Some(k) => {
                    if k > 0 {
                        let s = crate::text::slice(&v, 0, k);
                        assert(s@ =~= v@.take(k as int));
                        string_of(&s)
                    } else {
                        n
                    }
                },
                None => n,
            }
        },
        None => "main".to_string(),
    }
}

/// Whether a file of the project root is a legacy generated document: a
/// hidden `.typ` or `.pdf` file.
pub open spec fn is_legacy_output(name: Seq<char>) -> bool {
    starts_with(name, "."@) && (ends_with(name, ".typ"@) || ends_with(name, ".pdf"@))
}

/// Whether a file of the project root is a legacy generated document.
pub fn legacy_output(name: &str) -> (r: bool)
    ensures
        r == is_legacy_output(name@),
{
    let v = chars_of(name);
    has_prefix(&v, &chars_of(".")) && (has_suffix(&v, &chars_of(".typ")) || has_suffix(
        &v,
        &chars_of(".pdf"),
    ))
}

/// Access to the files of a project, for cleaning it.
///
/// Nothing is assumed of an implementation.
pub trait ProjectFiles {
    /// Whether `path` exists.
    fn path_exists(&self, path: &str) -> bool;
    /// Every file and symbolic link under `path` (the path itself when it is
    /// not a directory), links not followed; for a file named
    /// `metadata.json` under a cache directory (`cache`), the number of
    /// chunk entries of the index if it can be read.
    fn inspect(&self, path: &str, cache: bool) -> Result<Vec<RemovedFile>, String>;
    /// The regular files of the directory `path`: their paths and names.
    fn files_of(&self, path: &str) -> Result<Vec<(String, String)>, String>;
    /// Removes the directory `path` and its contents.
    fn remove_dir_all(&mut self, path: &str) -> Result<(), String>;
    /// Removes the file `path`.
    fn remove_file(&mut self, path: &str) -> Result<(), String>;
}

/// The files of a directory listing as plain values, or `None` when the
/// listing failed.
pub open spec fn listing_view(r: Result<Vec<(String, String)>, String>) -> Option<
    Seq<(Seq<char>, Seq<char>)>,
> {
    match r {
        Ok(v) => Some(entries_view(v@)),
        Err(_) => None,
    }
}

/// The files of a project, with the record of what was asked of them: the
/// paths whose existence was checked (with the answer), the directories
/// listed (with their files, or `None` when the listing failed), and the
/// removals (path, whether a directory, whether it succeeded), each in
/// order. Inspecting what a path holds goes through `files` and is not
/// recorded.
pub struct RecordedFiles<F> {
    /// The files.
    pub files: F,
    /// Existence checks and their answers.
    pub checked: Ghost<Seq<(Seq<char>, bool)>>,
    /// Directory listings and their answers.
    pub listed: Ghost<Seq<(Seq<char>, Option<Seq<(Seq<char>, Seq<char>)>>)>>,
    /// Removals and whether they succeeded.
    pub removed: Ghost<Seq<(Seq<char>, bool, bool)>>,
}

impl<F: ProjectFiles> RecordedFiles<F> {
    /// Files of which nothing was asked yet.
    pub fn new(files: F) -> (r: Self)
        ensures
            r.files == files,
            r.checked@.len() == 0,
            r.listed@.len() == 0,
            r.removed@.len() == 0,
    {
        RecordedFiles { files, checked: Ghost(Seq::empty()), listed: Ghost(Seq::empty()), removed: Ghost(Seq::empty()) }
    }

    /// The files, given back.
    pub fn into_files(self) -> (r: F)
        ensures
            r == self.files,
    {
        self.files
    }

    /// Whether `path` exists.
    pub fn is_present(&mut self, path: &str) -> (r: bool)
        ensures
            final(self).checked@ == old(self).checked@.push((path@, r)),
            final(self).listed == old(self).listed,
            final(self).removed == old(self).removed,
            final(self).files == old(self).files,
    {
        let r = self.files.path_exists(path);
        proof {
            self.checked@ = self.checked@.push((path@, r));
        }
        r
    }

    /// The regular files of the directory `path`: their paths and names.
    pub fn list(&mut self, path: &str) -> (r: Result<Vec<(String, String)>, String>)
        ensures
            final(self).listed@ == old(self).listed@.push((path@, listing_view(r))),
            final(self).checked == old(self).checked,
            final(self).removed == old(self).removed,
            final(self).files == old(self).files,
    {
        let r = self.files.files_of(path);
        proof {
            self.listed@ = self.listed@.push((path@, listing_view(r)));
        }
        r
    }

    /// Removes the directory `path` and its contents.
    pub fn remove_dir(&mut self, path: &str) -> (r: Result<(), String>)
        ensures
            final(self).removed@ == old(self).removed@.push((path@, true, r is Ok)),
            final(self).checked == old(self).checked,
            final(self).listed == old(self).listed,
    {
        let r = self.files.remove_dir_all(path);
        proof {
            self.removed@ = self.removed@.push((path@, true, r is Ok));
        }
        r
    }

    /// Removes the file `path`.
    pub fn remove_file(&mut self, path: &str) -> (r: Result<(), String>)
        ensures
            final(self).removed@ == old(self).removed@.push((path@, false, r is Ok)),
            final(self).checked == old(self).checked,
            final(self).listed == old(self).listed,
    {
        let r = self.files.remove_file(path);
        proof {
            self.removed@ = self.removed@.push((path@, false, r is Ok));
        }
        r
    }
}

/// `s` after the files `fs` are counted in order.
pub open spec fn counted_all(s: CleanSummary, fs: Seq<RemovedFile>, cache: bool) -> CleanSummary
    decreases fs.len(),
{
    if fs.len() == 0 {
        s
    } else {
        counted(counted_all(s, fs.drop_last(), cache), fs.last(), cache)
    }
}

/// Whether counting the files `fs` in order from `s` fits the counters.
pub open spec fn fits_all(s: CleanSummary, fs: Seq<RemovedFile>, cache: bool) -> bool
    decreases fs.len(),
{
    fs.len() == 0 || (fits_all(s, fs.drop_last(), cache) && can_count(
        counted_all(s, fs.drop_last(), cache),
        fs.last(),
    ))
}

/// Whether `after` is `before` with some files counted (all under the
/// cache directory when `cache`).
pub open spec fn counts_some(before: CleanSummary, after: CleanSummary, cache: bool) -> bool {
    exists|fs: Seq<RemovedFile>| after == #[trigger] counted_all(before, fs, cache)
}

/// Counting `a` then `b` is counting `a` followed by `b`.
proof fn lemma_counted_all_concat(s: CleanSummary, a: Seq<RemovedFile>, b: Seq<RemovedFile>, cache: bool)
    ensures
        counted_all(counted_all(s, a, cache), b, cache) == counted_all(s, a + b, cache),
    decreases b.len(),
{
    if b.len() == 0 {
        assert(a + b =~= a);
    } else {
        assert((a + b).drop_last() =~= a + b.drop_last());
        assert((a + b).last() == b.last());
        lemma_counted_all_concat(s, a, b.drop_last(), cache);
    }
}

/// Counting some files after some others is counting some files.
proof fn lemma_counts_some_trans(x: CleanSummary, y: CleanSummary, z: CleanSummary, cache: bool)
    requires
        counts_some(x, y, cache),
        counts_some(y, z, cache),
    ensures
        counts_some(x, z, cache),
{
    let a = choose|fs: Seq<RemovedFile>| y == counted_all(x, fs, cache);
    let b = choose|fs: Seq<RemovedFile>| z == counted_all(y, fs, cache);
    lemma_counted_all_concat(x, a, b, cache);
    assert(z == counted_all(x, a + b, cache));
}

/// Nothing counted is some files counted.
proof fn lemma_counts_none(x: CleanSummary, cache: bool)
    ensures
        counts_some(x, x, cache),
{
    assert(x == counted_all(x, Seq::<RemovedFile>::empty(), cache));
}

/// The summary of a cleanup: the files of the cache directory counted
/// (chunk totals from its indexes), then the other removed files.
pub open spec fn cleanup_summary(s: CleanSummary) -> bool {
    exists|mid: CleanSummary|
        counts_some(CleanSummary { chunks: 0, unreadable_indexes: 0, files: 0 }, mid, true)
            && #[trigger] counts_some(mid, s, false)
}

/// Counts the files `fs` (all under the cache directory when `cache`), in
/// order; an error when a counter would overflow.
pub fn tally(summary: &mut CleanSummary, fs: &Vec<RemovedFile>, cache: bool) -> (r: Result<
    (),
    String,
>)
    ensures
        r is Ok <==> fits_all(*old(summary), fs@, cache),
        r is Ok ==> *final(summary) == counted_all(*old(summary), fs@, cache),
        counts_some(*old(summary), *final(summary), cache),
        old(summary).unreadable_indexes <= old(summary).files ==> final(summary).unreadable_indexes
            <= final(summary).files,
{
    let ghost start = *summary;
    proof {
        assert(fs@.take(0) =~= Seq::<RemovedFile>::empty());
        lemma_counts_none(start, cache);
    }
    let mut i: usize = 0;
    while i < fs.len()
        invariant
            i <= fs@.len(),
            start == *old(summary),
            fits_all(start, fs@.take(i as int), cache),
            *summary == counted_all(start, fs@.take(i as int), cache),
            counts_some(start, *summary, cache),
            start.unreadable_indexes <= start.files ==> summary.unreadable_indexes <= summary.files,
        decreases fs.len() - i,
    {
        proof {
            assert(fs@.take(i + 1).drop_last() =~= fs@.take(i as int));
        }
        let fits = summary.files < usize::MAX && summary.unreadable_indexes < usize::MAX && match fs[
            i
        ].index_chunks {
            Some(n) => n <= usize::MAX - summary.chunks,
            None => true,
        };
        if !fits {
            proof {
                if fits_all(start, fs@, cache) {
                    lemma_fits_prefix(start, fs@, cache, i + 1);
                    assert(fs@.take(i + 1).last() == fs@[i as int]);
                }
            }
            return Err("Too many files to count".to_string());
        }
        summary.record(&fs[i], cache);
        i = i + 1;
    }
    proof {
        assert(fs@.take(fs.len() as int) =~= fs@);
    }
    Ok(())
}

/// Counting all the files fits only if counting each prefix does.
proof fn lemma_fits_prefix(s: CleanSummary, fs: Seq<RemovedFile>, cache: bool, k: int)
    requires
        0 <= k <= fs.len(),
        fits_all(s, fs, cache),
    ensures
        fits_all(s, fs.take(k), cache),
    decreases fs.len(),
{
    if k < fs.len() {
        assert(fs.drop_last().take(k) =~= fs.take(k));
        lemma_fits_prefix(s, fs.drop_last(), cache, k);
    } else {
        assert(fs.take(k) =~= fs);
    }
}

/// Counts and removes the directory `dir` of the project, if it exists:
/// its existence is checked, and only when it exists is it inspected,
/// counted and removed.
fn clean_dir<F: ProjectFiles>(
    files: &mut RecordedFiles<F>,
    summary: &mut CleanSummary,
    dir: &str,
    cache: bool,
    what: &str,
) -> (r: Result<(), String>)
    ensures
        old(summary).unreadable_indexes <= old(summary).files ==> final(summary).unreadable_indexes
            <= final(summary).files,
        counts_some(*old(summary), *final(summary), cache),
        final(files).listed == old(files).listed,
        final(files).checked@.len() == old(files).checked@.len() + 1,
        final(files).checked@.drop_last() == old(files).checked@,
        final(files).checked@.last().0 == dir@,
        r is Ok ==> final(files).removed@ == if final(files).checked@.last().1 {
            old(files).removed@.push((dir@, true, true))
        } else {
            old(files).removed@
        },
{
    proof {
        lemma_counts_none(*old(summary), cache);
    }
    let here = files.is_present(dir);
    assert(files.checked@.drop_last() =~= old(files).checked@);
    if here {
        let inspected = files.files.inspect(dir, cache)?;
        tally(summary, &inspected, cache)?;
        match files.remove_dir(dir) {
            Ok(()) => {},
            Err(e) => {
                let mut m = chars_of("Failed to remove ");
                push_str(&mut m, what);
                push_str(&mut m, ": ");
                push_str(&mut m, dir);
                push_str(&mut m, ": ");
                push_str(&mut m, e.as_str());
                return Err(string_of(&m));
            },
        }
    }
    Ok(())
}

/// Counts and removes the file `path` of the project, if it exists: its
/// existence is checked, and only when it exists is it inspected, counted
/// and removed.
fn clean_file<F: ProjectFiles>(files: &mut RecordedFiles<F>, summary: &mut CleanSummary, path: &str) -> (r: Result<
    (),
    String,
>)
    ensures
        old(summary).unreadable_indexes <= old(summary).files ==> final(summary).unreadable_indexes
            <= final(summary).files,
        counts_some(*old(summary), *final(summary), false),
        final(files).listed == old(files).listed,
        final(files).checked@.len() == old(files).checked@.len() + 1,
        final(files).checked@.drop_last() == old(files).checked@,
        final(files).checked@.last().0 == path@,
        r is Ok ==> final(files).removed@ == if final(files).checked@.last().1 {
            old(files).removed@.push((path@, false, true))
        } else {
            old(files).removed@
        },
{
    proof {
        lemma_counts_none(*old(summary), false);
    }
    let here = files.is_present(path);
    assert(files.checked@.drop_last() =~= old(files).checked@);
    if here {
        let inspected = files.files.inspect(path, false)?;
        tally(summary, &inspected, false)?;
        match files.remove_file(path) {
            Ok(()) => {},
            Err(e) => {
                let mut m = chars_of("Failed to remove file: ");
                push_str(&mut m, path);
                push_str(&mut m, ": ");
                push_str(&mut m, e.as_str());
                return Err(string_of(&m));
            },
        }
    }
    Ok(())
}

/// The documents generated for the main file `main` at `project_root`:
/// `<stem>.typ` and `<stem>.pdf`.
pub fn main_outputs(project_root: &str, main: &str) -> (r: (String, String))
    ensures
        r.0@ == path_join(project_root@, main_stem(main@) + ".typ"@),
        r.1@ == path_join(project_root@, main_stem(main@) + ".pdf"@),
{
    let stem = main_stem_of(main);
    let mut typ = chars_of(stem.as_str());
    push_str(&mut typ, ".typ");
    let mut pdf = chars_of(stem.as_str());
    push_str(&mut pdf, ".pdf");
    (join_path(project_root, &typ), join_path(project_root, &pdf))
}

/// What a cleanup of the project at `project_root` removes, besides the
/// hidden `.typ` and `.pdf` files of its root: the cache directory, the
/// directory of files generated by the languages, and the documents
/// generated for the main file when one is configured.
pub fn clean_paths(project_root: &str, config: &Config) -> (r: (String, String, Option<(String, String)>))
    ensures
        r.0@ == path_join(project_root@, ".knot_cache"@),
        r.1@ == path_join(project_root@, "_knot_files"@),
        r.2 is Some <==> config.document.main is Some,
        r.2 matches Some((typ, pdf)) ==> typ@ == path_join(
            project_root@,
            main_stem(config.document.main->0@) + ".typ"@,
        ) && pdf@ == path_join(project_root@, main_stem(config.document.main->0@) + ".pdf"@),
{
    let cache_dir = join_path(project_root, &chars_of(Defaults::CACHE_DIR_NAME));
    let lang_dir = join_path(project_root, &chars_of(Defaults::LANGUAGE_FILES_DIR));
    let outputs = match &config.document.main {
        Some(main) => Some(main_outputs(project_root, main.as_str())),
        None => None,
    };
    (cache_dir, lang_dir, outputs)
}

/// One path a cleanup removes: a directory (with its contents) or a file;
/// `cache` marks the cache directory, whose indexes count chunk entries.
#[derive(Debug, Clone)]
pub struct CleanTarget {
    pub path: String,
    pub directory: bool,
    pub cache: bool,
}

/// A target as plain values: its path, whether it is a directory, whether it
/// is the cache directory.
pub open spec fn target_view(t: CleanTarget) -> (Seq<char>, bool, bool) {
    (t.path@, t.directory, t.cache)
}

/// The paths of the hidden `.typ` and `.pdf` files among the files `entries`
/// of the root (path and name of each), in order.
pub open spec fn legacy_targets(entries: Seq<(Seq<char>, Seq<char>)>) -> Seq<(Seq<char>, bool, bool)>
    decreases entries.len(),
{
    if entries.len() == 0 {
        Seq::empty()
    } else {
        let rest = legacy_targets(entries.drop_last());
        if is_legacy_output(entries.last().1) {
            rest.push((entries.last().0, false, false))
        } else {
            rest
        }
    }
}

/// What a cleanup of the project at `root` removes, in order: the cache
/// directory, the directory of files generated by the languages, the
/// `.typ` and `.pdf` documents generated for the main file `main` when one
/// is configured, then the hidden `.typ` and `.pdf` files among the files
/// `entries` of the root.
pub open spec fn cleanup_plan(
    root: Seq<char>,
    main: Option<Seq<char>>,
    entries: Seq<(Seq<char>, Seq<char>)>,
) -> Seq<(Seq<char>, bool, bool)> {
    let dirs = seq![
        (path_join(root, ".knot_cache"@), true, true),
        (path_join(root, "_knot_files"@), true, false),
    ];
    let documents = match main {
        Some(m) => seq![
            (path_join(root, main_stem(m) + ".typ"@), false, false),
            (path_join(root, main_stem(m) + ".pdf"@), false, false),
        ],
        None => Seq::empty(),
    };
    dirs + documents + legacy_targets(entries)
}

/// The main file of a configuration, as plain text.
pub open spec fn configured_main(config: Config) -> Option<Seq<char>> {
    match config.document.main {
        Some(m) => Some(m@),
        None => None,
    }
}

/// The files of the root as plain values.
pub open spec fn entries_view(entries: Seq<(String, String)>) -> Seq<(Seq<char>, Seq<char>)> {
    entries.map_values(|e: (String, String)| (e.0@, e.1@))
}

/// What a cleanup of the project at `project_root` configured by `config`
/// removes, in order (see `cleanup_plan`), given the files `entries` of the
/// root (path and name of each).
pub fn cleanup_targets(project_root: &str, config: &Config, entries: &Vec<(String, String)>) -> (r:
    Vec<CleanTarget>)
    ensures
        r@.map_values(|t: CleanTarget| target_view(t)) == cleanup_plan(
            project_root@,
            configured_main(*config),
            entries_view(entries@),
        ),
{
    let (cache_dir, lang_dir, outputs) = clean_paths(project_root, config);
    let mut r: Vec<CleanTarget> = Vec::new();
    r.push(CleanTarget { path: cache_dir, directory: true, cache: true });
    r.push(CleanTarget { path: lang_dir, directory: true, cache: false });
    if let Some((typ, pdf)) = outputs {
        r.push(CleanTarget { path: typ, directory: false, cache: false });
        r.push(CleanTarget { path: pdf, directory: false, cache: false });
    }
    let ghost head = r@.map_values(|t: CleanTarget| target_view(t));
    let ghost n0 = r@.len();
    proof {
        assert(legacy_targets(entries_view(entries@).take(0)) =~= Seq::empty());
        assert(r@.map_values(|t: CleanTarget| target_view(t)) =~= head + legacy_targets(
            entries_view(entries@).take(0),
        ));
    }
    let mut i: usize = 0;
    while i < entries.len()
        invariant
            i <= entries@.len(),
            r@.len() >= n0,
            r@.map_values(|t: CleanTarget| target_view(t)) == head + legacy_targets(
                entries_view(entries@).take(i as int),
            ),
        decreases entries.len() - i,
    {
        let ghost ev = entries_view(entries@);
        proof {
            assert(ev.take(i + 1).drop_last() =~= ev.take(i as int));
            assert(ev.take(i + 1).last() == (entries@[i as int].0@, entries@[i as int].1@));
        }
        if legacy_output(entries[i].1.as_str()) {
            let ghost before = r@;
            r.push(CleanTarget { path: entries[i].0.clone(), directory: false, cache: false });
            proof {
                assert(r@.map_values(|t: CleanTarget| target_view(t)) =~= before.map_values(
                    |t: CleanTarget| target_view(t),
                ).push(target_view(r@.last())));
            }
        }
        i = i + 1;
    }
    proof {
        assert(entries_view(entries@).take(entries@.len() as int) =~= entries_view(entries@));
        let main_view = configured_main(*config);
        assert(head =~= cleanup_plan(project_root@, main_view, Seq::empty()).take(n0 as int)) by {
            assert(legacy_targets(Seq::<(Seq<char>, Seq<char>)>::empty()) =~= Seq::empty());
        }
        assert(head + legacy_targets(entries_view(entries@)) =~= cleanup_plan(
            project_root@,
            main_view,
            entries_view(entries@),
        ));
    }
    r
}

/// The removals a cleanup of the targets `plan` makes, given the answers
/// `answers` of the existence checks of its targets, in order: each target
/// found to exist is removed.
pub open spec fn removals(plan: Seq<(Seq<char>, bool, bool)>, answers: Seq<(Seq<char>, bool)>) -> Seq<
    (Seq<char>, bool, bool),
>
    decreases plan.len(),
{
    if plan.len() == 0 || answers.len() == 0 {
        Seq::empty()
    } else {
        let rest = removals(plan.drop_last(), answers.drop_last());
        if answers.last().1 {
            rest.push((plan.last().0, plan.last().1, true))
        } else {
            rest
        }
    }
}

/// Whether the record of the files went from `before` to `after` by a
/// cleanup of the targets `plan` that succeeded: the existence of each
/// target was checked once, in order, and each target found was removed,
/// in order, with success; nothing was listed.
pub open spec fn cleaned<F>(
    plan: Seq<(Seq<char>, bool, bool)>,
    before: RecordedFiles<F>,
    after: RecordedFiles<F>,
) -> bool {
    let n = before.checked@.len();
    let answers = after.checked@.skip(n as int);
    &&& after.checked@.len() == n + plan.len()
    &&& after.checked@.take(n as int) == before.checked@
    &&& forall|k: int| 0 <= k < plan.len() ==> (#[trigger] answers[k]).0 == plan[k].0
    &&& after.removed@ == before.removed@ + removals(plan, answers)
    &&& after.listed == before.listed
}

/// Counts and removes the targets `targets` in order, each only if it
/// exists (see `clean_dir` and `clean_file`). Stops at the first failure.
pub fn clean_targets<F: ProjectFiles>(targets: &Vec<CleanTarget>, files: &mut RecordedFiles<F>) -> (r:
    Result<CleanSummary, String>)
    ensures
        r matches Ok(s) ==> s.unreadable_indexes <= s.files,
        r matches Ok(s) ==> (forall|k: int| 0 < k < targets@.len() ==> !(#[trigger] targets@[k]).cache)
            ==> cleanup_summary(s),
        r is Ok ==> cleaned(
            targets@.map_values(|t: CleanTarget| target_view(t)),
            *old(files),
            *final(files),
        ),
{
    let ghost plan = targets@.map_values(|t: CleanTarget| target_view(t));
    let ghost c0 = files.checked@;
    let ghost n = c0.len();
    let mut summary = CleanSummary::new();
    let ghost zero = summary;
    let ghost mut mid = summary;
    proof {
        lemma_counts_none(zero, true);
        lemma_counts_none(zero, false);
        assert(files.checked@.take(n as int) =~= c0);
        assert(plan.take(0) =~= Seq::<(Seq<char>, bool, bool)>::empty());
        assert(files.removed@ =~= old(files).removed@ + removals(
            plan.take(0),
            files.checked@.skip(n as int),
        ));
    }
    let mut i: usize = 0;
    while i < targets.len()
        invariant
            i <= targets@.len(),
            plan == targets@.map_values(|t: CleanTarget| target_view(t)),
            c0 == old(files).checked@,
            n == c0.len(),
            summary.unreadable_indexes <= summary.files,
            zero == (CleanSummary { chunks: 0, unreadable_indexes: 0, files: 0 }),
            i == 0 ==> mid == zero && summary == zero,
            counts_some(zero, mid, true),
            (forall|k: int| 0 < k < i ==> !(#[trigger] targets@[k]).cache) ==> counts_some(
                mid,
                summary,
                false,
            ),
            files.checked@.len() == n + i,
            files.checked@.take(n as int) == c0,
            forall|k: int| 0 <= k < i ==> (#[trigger] files.checked@.skip(n as int)[k]).0 == plan[k].0,
            files.removed@ == old(files).removed@ + removals(
                plan.take(i as int),
                files.checked@.skip(n as int),
            ),
            files.listed == old(files).listed,
        decreases targets.len() - i,
    {
        let t = &targets[i];
        let ghost s0 = summary;
        let ghost f0 = *files;
        if t.directory {
            let what = if t.cache {
                "cache directory"
            } else {
                "helper files directory"
            };
            clean_dir(files, &mut summary, t.path.as_str(), t.cache, what)?;
        } else {
            clean_file(files, &mut summary, t.path.as_str())?;
        }
        proof {
            if i == 0 {
                if t.cache && t.directory {
                    mid = summary;
                }
                lemma_counts_none(mid, false);
            } else if !t.cache && (forall|k: int| 0 < k < i ==> !(#[trigger] targets@[k]).cache) {
                lemma_counts_some_trans(mid, s0, summary, false);
            }
            assert((forall|k: int| 0 < k < i + 1 ==> !(#[trigger] targets@[k]).cache) ==> (forall|
                k: int,
            | 0 < k < i ==> !(#[trigger] targets@[k]).cache) && (i > 0 ==> !targets@[i as int].cache));
            let ans0 = f0.checked@.skip(n as int);
            let ans1 = files.checked@.skip(n as int);
            assert(ans1.drop_last() =~= ans0);
            assert(ans1.len() == i + 1);
            assert(plan[i as int] == target_view(targets@[i as int]));
            assert(plan.take(i + 1).drop_last() =~= plan.take(i as int));
            assert(plan.take(i + 1).last() == plan[i as int]);
            assert(files.checked@.take(n as int) =~= f0.checked@.take(n as int));
            assert forall|k: int| 0 <= k < i + 1 implies (#[trigger] files.checked@.skip(
                n as int,
            )[k]).0 == plan[k].0 by {
                if k < i {
                    assert(ans1[k] == ans0[k]);
                }
            }
            assert(files.removed@ =~= old(files).removed@ + removals(plan.take(i + 1), ans1));
        }
        i = i + 1;
    }
    proof {
        assert(plan.take(targets@.len() as int) =~= plan);
    }
    Ok(summary)
}

/// Cleans the project at `project_root` configured by `config`: lists the
/// files of the root, then removes, in order, each target of
/// `cleanup_targets` that exists (see `clean_targets`), counting what was
/// removed (links are removed, not followed). Stops at the first failure.
pub fn clean_project<F: ProjectFiles>(project_root: &str, config: &Config, files: &mut RecordedFiles<F>) -> (r:
    Result<CleanSummary, String>)
    ensures
        r matches Ok(s) ==> s.unreadable_indexes <= s.files,
        r matches Ok(s) ==> cleanup_summary(s),
        r is Ok ==> {
            let listing = final(files).listed@.last();
            &&& final(files).listed@.len() == old(files).listed@.len() + 1
            &&& final(files).listed@.drop_last() == old(files).listed@
            &&& listing.0 == project_root@
            &&& listing.1 is Some
            &&& cleaned(
                cleanup_plan(project_root@, configured_main(*config), listing.1->0),
                RecordedFiles { listed: final(files).listed, ..*old(files) },
                *final(files),
            )
        },
{
    let entries = files.list(project_root)?;
    let ghost listed = *files;
    let targets = cleanup_targets(project_root, config, &entries);
    proof {
        lemma_targets_not_cache(
            targets@,
            project_root@,
            configured_main(*config),
            entries_view(entries@),
        );
        assert(files.listed@.drop_last() =~= old(files).listed@);
    }
    let r = clean_targets(&targets, files);
    proof {
        if r is Ok {
            assert(listed == RecordedFiles { listed: files.listed, ..*old(files) });
        }
    }
    r
}

/// Only the first of the targets of a cleanup is the cache directory.
proof fn lemma_targets_not_cache(
    ts: Seq<CleanTarget>,
    root: Seq<char>,
    main: Option<Seq<char>>,
    entries: Seq<(Seq<char>, Seq<char>)>,
)
    requires
        ts.map_values(|t: CleanTarget| target_view(t)) == cleanup_plan(root, main, entries),
    ensures
        forall|k: int| 0 < k < ts.len() ==> !(#[trigger] ts[k]).cache,
{
    let pv = ts.map_values(|t: CleanTarget| target_view(t));
    assert forall|k: int| 0 < k < ts.len() implies !(#[trigger] ts[k]).cache by {
        assert(pv[k] == target_view(ts[k]));
        lemma_plan_cache_first(root, main, entries, k);
    }
}

/// Only the first target of a cleanup is the cache directory.
proof fn lemma_plan_cache_first(
    root: Seq<char>,
    main: Option<Seq<char>>,
    entries: Seq<(Seq<char>, Seq<char>)>,
    k: int,
)
    ensures
        0 < k < cleanup_plan(root, main, entries).len() ==> !cleanup_plan(root, main, entries)[k].2,
{
    let dirs = seq![
        (path_join(root, ".knot_cache"@), true, true),
        (path_join(root, "_knot_files"@), true, false),
    ];
    let documents = match main {
        Some(m) => seq![
            (path_join(root, main_stem(m) + ".typ"@), false, false),
            (path_join(root, main_stem(m) + ".pdf"@), false, false),
        ],
        None => Seq::<(Seq<char>, bool, bool)>::empty(),
    };
    let legacy = legacy_targets(entries);
    assert(cleanup_plan(root, main, entries) == dirs + documents + legacy);
    lemma_legacy_not_cache(entries, k - dirs.len() - documents.len());
    if 0 < k < cleanup_plan(root, main, entries).len() {
        if k < dirs.len() + documents.len() {
            assert((dirs + documents + legacy)[k] == (dirs + documents)[k]);
        } else {
            assert((dirs + documents + legacy)[k] == legacy[k - dirs.len() - documents.len()]);
        }
    }
}

/// No legacy target is the cache directory.
proof fn lemma_legacy_not_cache(entries: Seq<(Seq<char>, Seq<char>)>, k: int)
    ensures
        0 <= k < legacy_targets(entries).len() ==> !legacy_targets(entries)[k].2,
    decreases entries.len(),
{
    if entries.len() > 0 {
        lemma_legacy_not_cache(entries.drop_last(), k);
    }
}

/// What a cleanup reports: that nothing was there to clean, or how many
/// files were removed and how many cached chunks went with them (unknown
/// when a cache index could not be read).
pub open spec fn report_text(s: CleanSummary) -> Seq<char> {
    if s.files == 0 {
        "Nothing to clean."@
    } else if s.unreadable_indexes > 0 {
        "Cleaned project: "@ + decimal(s.files as nat) + " files removed; chunk count unavailable ("@
            + decimal(s.unreadable_indexes as nat) + " unreadable cache indexes)."@
    } else {
        "Cleaned project: "@ + decimal(s.chunks as nat) + " cached chunks invalidated, "@ + decimal(
            s.files as nat,
        ) + " files removed."@
    }
}

/// The report of a cleanup that removed what `summary` counts.
pub fn clean_report(summary: &CleanSummary) -> (r: String)
    ensures
        r@ == report_text(*summary),
{
    if summary.files == 0 {
        return "Nothing to clean.".to_string();
    }
    let mut m = chars_of("Cleaned project: ");
    if summary.unreadable_indexes > 0 {
        push_decimal(&mut m, summary.files as u64);
        push_str(&mut m, " files removed; chunk count unavailable (");
        push_decimal(&mut m, summary.unreadable_indexes as u64);
        push_str(&mut m, " unreadable cache indexes).");
    } else {
        push_decimal(&mut m, summary.chunks as u64);
        push_str(&mut m, " cached chunks invalidated, ");
        push_decimal(&mut m, summary.files as u64);
        push_str(&mut m, " files removed.");
    }
    string_of(&m)
}

} // verus!
