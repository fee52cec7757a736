//! Content-addressed cache of the results of chunks and inline expressions,
//! and of the session snapshots taken after them.
//!
//! Results are found by execution identity (see `hashing`). The index lives
//! in memory as a `CacheMetadata`; every change is handed to the
//! `CacheStore`, which holds the files of the cache directory and persists
//! the index.
use crate::ast::InlineOptions;
use crate::compiler::texts;
use crate::executors::{
    result_view, ExecError, ExecutionAttempt, ExecutionOutput, ExecutionResult, Interpreter,
    KnotExecutor, Request, ResultV, RuntimeError, RuntimeWarning,
};
use crate::hashing::{digest_hex, get_inline_expr_hash as inline_identity_hash, hash_file_contents};
use crate::sync::{join_path, path_join};
use crate::text::{chars_of, push_str, string_of, trim, trimmed};
use vstd::prelude::*;

verus! {

/// Version of the index format.
pub const CACHE_FORMAT_VERSION: u32 = 2;

/// An object declared frozen: it must not change after the chunk that
/// declared it.
#[derive(Debug, Clone)]
pub struct FreezeObjectInfo {
    /// Name of the variable in the interpreter.
    pub name: String,
    /// Digest of the object's contents.
    pub hash: String,
    /// Size of the saved object, in bytes.
    pub size_bytes: u64,
    /// Language of the interpreter that holds it.
    pub language: String,
    /// Chunk that declared it.
    pub created_in_chunk: String,
    /// When it was declared (RFC 3339).
    pub created_at: String,
}

/// Files and frozen objects of one saved interpreter state.
#[derive(Debug, Clone)]
pub struct SnapshotEntry {
    /// Whether the state can be restored (the interpreter could save all of it).
    pub reusable: bool,
    /// Files of the snapshot, relative to the cache directory, with their digests.
    pub files: Vec<(String, String)>,
    /// Frozen objects bound in that state, by key.
    pub freeze_objects: Vec<(String, FreezeObjectInfo)>,
}

/// The cached result of one chunk.
#[derive(Debug, Clone)]
pub struct ChunkCacheEntry {
    /// Position of the chunk in its document.
    pub index: usize,
    /// Label of the chunk.
    pub name: Option<String>,
    /// Language of the chunk.
    pub language: String,
    /// Execution identity.
    pub hash: String,
    /// Files of the result, relative to the cache directory.
    pub files: Vec<String>,
    /// Digest of each file of the result.
    pub file_hashes: Vec<(String, String)>,
    /// Warnings of the execution.
    pub warnings: Vec<RuntimeWarning>,
    /// The error that stopped the chunk, if it failed.
    pub error: Option<RuntimeError>,
    /// Files the chunk depends on.
    pub dependencies: Vec<String>,
    /// When the entry was written (RFC 3339).
    pub updated_at: String,
}

/// The cached result of one inline expression.
#[derive(Debug, Clone)]
pub struct InlineCacheEntry {
    /// Execution identity.
    pub hash: String,
    /// Text of the result.
    pub result: String,
    /// When the entry was written (RFC 3339).
    pub updated_at: String,
}

/// The index of a cache directory.
#[derive(Debug, Clone)]
pub struct CacheMetadata {
    /// Version of the index format.
    pub format_version: u32,
    /// Snapshots, by execution identity.
    pub snapshots: Vec<(String, SnapshotEntry)>,
    /// Digest of the document.
    pub document_hash: String,
    /// Cached chunk results.
    pub chunks: Vec<ChunkCacheEntry>,
    /// Cached inline results.
    pub inline_expressions: Vec<InlineCacheEntry>,
    /// Frozen objects, by `language::name`.
    pub freeze_objects: Vec<(String, FreezeObjectInfo)>,
}

impl Default for CacheMetadata {
    /// An empty index of the current format.
    fn default() -> (r: Self)
        ensures
            r.format_version == CACHE_FORMAT_VERSION,
            r.snapshots@.len() == 0,
            r.document_hash@.len() == 0,
            r.chunks@.len() == 0,
            r.inline_expressions@.len() == 0,
            r.freeze_objects@.len() == 0,
    {
        CacheMetadata {
            format_version: CACHE_FORMAT_VERSION,
            snapshots: Vec::new(),
            document_hash: String::new(),
            chunks: Vec::new(),
            inline_expressions: Vec::new(),
            freeze_objects: Vec::new(),
        }
    }
}

/// The files of a cache directory and the persistence of its index.
///
/// Paths are full paths (the cache directory joined with the name of a
/// file). Nothing is assumed of what an implementation answers: the cache
/// states what holds whatever comes back.
pub trait CacheStore {
    /// Whether a file exists.
    fn file_exists(&self, path: &str) -> bool;
    /// The bytes of a file, if it can be read.
    fn read_bytes(&self, path: &str) -> Option<Vec<u8>>;
    /// The size of a file in bytes, if it can be measured.
    fn file_size(&self, path: &str) -> Option<u64>;
    /// The text of a file, if it can be read as UTF-8.
    fn read_text(&self, path: &str) -> Option<String>;
    /// Writes a text file.
    fn write_text(&mut self, path: &str, contents: &str) -> Result<(), String>;
    /// Copies a file.
    fn copy_file(&mut self, from: &str, to: &str) -> Result<(), String>;
    /// Persists the index of the cache directory.
    fn persist(&mut self, cache_dir: &str, metadata: &CacheMetadata) -> Result<(), String>;
}

/// Why a cache operation failed.
#[derive(Debug, Clone, PartialEq, Eq)]
pub enum CacheError {
    /// No chunk result with this identity.
    NotFound(String),
    /// No inline result with this identity.
    InlineNotFound(String),
    /// A file of a cached result is missing.
    FileMissing(String),
    /// A file of a cached result has a type the cache does not know.
    UnknownFileType(String),
    /// A result names a file whose name cannot be taken.
    InvalidFileName(String),
    /// The snapshot cannot be restored.
    InvalidSnapshot(String),
    /// Reading or writing failed.
    Io(String),
}

/// Text of a cache error.
pub open spec fn cache_error_text(e: CacheError) -> Seq<char> {
    match e {
        CacheError::NotFound(h) => "Cache entry with hash "@ + h@ + " not found"@,
        CacheError::InlineNotFound(h) => "Inline cache entry with hash "@ + h@ + " not found"@,
        CacheError::FileMissing(p) => "Cache file missing: "@ + p@,
        CacheError::UnknownFileType(p) => "Unknown cache file type: "@ + p@,
        CacheError::InvalidFileName(p) => "Invalid result file name: "@ + p@,
        CacheError::InvalidSnapshot(h) => "Cannot restore snapshot "@ + h@
            + ": missing, changed or non-reusable; rebuild the document"@,
        CacheError::Io(m) => m@,
    }
}

impl CacheError {
    /// Text of the error.
    pub fn message(&self) -> (r: String)
        ensures
            r@ == cache_error_text(*self),
    {
        let mut m: Vec<char> = Vec::new();
        match self {
            CacheError::NotFound(h) => {
                push_str(&mut m, "Cache entry with hash ");
                push_str(&mut m, h.as_str());
                push_str(&mut m, " not found");
            },
            CacheError::InlineNotFound(h) => {
                push_str(&mut m, "Inline cache entry with hash ");
                push_str(&mut m, h.as_str());
                push_str(&mut m, " not found");
            },
            CacheError::FileMissing(p) => {
                push_str(&mut m, "Cache file missing: ");
                push_str(&mut m, p.as_str());
            },
            CacheError::UnknownFileType(p) => {
                push_str(&mut m, "Unknown cache file type: ");
                push_str(&mut m, p.as_str());
            },
            CacheError::InvalidFileName(p) => {
                push_str(&mut m, "Invalid result file name: ");
                push_str(&mut m, p.as_str());
            },
            CacheError::InvalidSnapshot(h) => {
                push_str(&mut m, "Cannot restore snapshot ");
                push_str(&mut m, h.as_str());
                push_str(&mut m, ": missing, changed or non-reusable; rebuild the document");
            },
            CacheError::Io(e) => {
                push_str(&mut m, e.as_str());
            },
        }
        string_of(&m)
    }
}

/// The cache of one document.
pub struct Cache {
    /// Directory of the cache (e.g. `.knot_cache/main`).
    pub cache_dir: String,
    /// Index of the cached entries.
    pub metadata: CacheMetadata,
}

// ---------------------------------------------------------------------------
// Lookups
// ---------------------------------------------------------------------------

/// Index of the first chunk entry with identity `h`.
pub open spec fn chunk_position(chunks: Seq<ChunkCacheEntry>, h: Seq<char>) -> Option<int> {
    if exists|i: int| 0 <= i < chunks.len() && #[trigger] chunks[i].hash@ == h {
        Some(
            choose|i: int|
                0 <= i < chunks.len() && #[trigger] chunks[i].hash@ == h && forall|j: int|
                    0 <= j < i ==> #[trigger] chunks[j].hash@ != h,
        )
    } else {
        None
    }
}

/// Index of the first inline entry with identity `h`.
pub open spec fn inline_position(entries: Seq<InlineCacheEntry>, h: Seq<char>) -> Option<int> {
    if exists|i: int| 0 <= i < entries.len() && #[trigger] entries[i].hash@ == h {
        Some(
            choose|i: int|
                0 <= i < entries.len() && #[trigger] entries[i].hash@ == h && forall|j: int|
                    0 <= j < i ==> #[trigger] entries[j].hash@ != h,
        )
    } else {
        None
    }
}

/// The first index satisfying the search is unique.
proof fn lemma_first_chunk(chunks: Seq<ChunkCacheEntry>, h: Seq<char>, i: int)
    requires
        0 <= i < chunks.len(),
        chunks[i].hash@ == h,
        forall|j: int| 0 <= j < i ==> #[trigger] chunks[j].hash@ != h,
    ensures
        chunk_position(chunks, h) == Some(i),
{
    let k = choose|k: int|
        0 <= k < chunks.len() && #[trigger] chunks[k].hash@ == h && forall|j: int|
            0 <= j < k ==> #[trigger] chunks[j].hash@ != h;
    assert(chunks[i].hash@ == h);
    if k < i {
        assert(chunks[k].hash@ != h);
    }
    if k > i {
        assert(chunks[i].hash@ != h);
    }
}

/// The first index satisfying the search is unique.
pub(crate) proof fn lemma_first_inline(entries: Seq<InlineCacheEntry>, h: Seq<char>, i: int)
    requires
        0 <= i < entries.len(),
        entries[i].hash@ == h,
        forall|j: int| 0 <= j < i ==> #[trigger] entries[j].hash@ != h,
    ensures
        inline_position(entries, h) == Some(i),
{
    let k = choose|k: int|
        0 <= k < entries.len() && #[trigger] entries[k].hash@ == h && forall|j: int|
            0 <= j < k ==> #[trigger] entries[j].hash@ != h;
    assert(entries[i].hash@ == h);
    if k < i {
        assert(entries[k].hash@ != h);
    }
    if k > i {
        assert(entries[i].hash@ != h);
    }
}

/// Whether the texts `a` and `b` are equal.
fn same_text(a: &str, b: &str) -> (r: bool)
    ensures
        r == (a@ == b@),
{
    let x = chars_of(a);
    let y = chars_of(b);
    crate::text::same_chars(&x, &y)
}

/// Index of the first chunk entry with identity `hash`.
fn find_chunk(chunks: &Vec<ChunkCacheEntry>, hash: &str) -> (r: Option<usize>)
    ensures
        r matches Some(i) ==> chunk_position(chunks@, hash@) == Some(i as int) && i < chunks@.len()
            && chunks@[i as int].hash@ == hash@,
        r is None ==> chunk_position(chunks@, hash@) is None,
{
    let mut i: usize = 0;
    while i < chunks.len()
        invariant
            i <= chunks.len(),
            forall|j: int| 0 <= j < i ==> #[trigger] chunks@[j].hash@ != hash@,
        decreases chunks.len() - i,
    {
        if same_text(chunks[i].hash.as_str(), hash) {
            proof {
                lemma_first_chunk(chunks@, hash@, i as int);
            }
            return Some(i);
        }
        i = i + 1;
    }
    None
}

/// Index of the first inline entry with identity `hash`.
fn find_inline(entries: &Vec<InlineCacheEntry>, hash: &str) -> (r: Option<usize>)
    ensures
        r matches Some(i) ==> inline_position(entries@, hash@) == Some(i as int) && i
            < entries@.len() && entries@[i as int].hash@ == hash@,
        r is None ==> inline_position(entries@, hash@) is None,
{
    let mut i: usize = 0;
    while i < entries.len()
        invariant
            i <= entries.len(),
            forall|j: int| 0 <= j < i ==> #[trigger] entries@[j].hash@ != hash@,
        decreases entries.len() - i,
    {
        if same_text(entries[i].hash.as_str(), hash) {
            proof {
                lemma_first_inline(entries@, hash@, i as int);
            }
            return Some(i);
        }
        i = i + 1;
    }
    None
}

/// Wall-clock time as an RFC 3339 timestamp, from `chrono::Utc::now`.
/// Nothing is stated of the value: it depends on the clock.
#[verifier::external_body]
pub(crate) fn timestamp() -> (r: String) {
    chrono::Utc::now().to_rfc3339()
}

/// The index entry of a chunk that ran: its position, label, language and
/// execution identity, the files of its result, its warnings, its error and
/// the files it depends on, stamped with the current time. No file digest
/// is recorded.
pub fn create_chunk_entry(
    chunk_index: usize,
    chunk_name: Option<String>,
    language: String,
    hash: String,
    files: Vec<String>,
    warnings: Vec<RuntimeWarning>,
    error: Option<RuntimeError>,
    dependencies: Vec<String>,
) -> (r: ChunkCacheEntry)
    ensures
        r.index == chunk_index,
        r.name == chunk_name,
        r.language == language,
        r.hash == hash,
        r.files == files,
        r.file_hashes@.len() == 0,
        r.warnings == warnings,
        r.error == error,
        r.dependencies == dependencies,
{
    ChunkCacheEntry {
        index: chunk_index,
        name: chunk_name,
        language,
        hash,
        files,
        file_hashes: Vec::new(),
        warnings,
        error,
        dependencies,
        updated_at: timestamp(),
    }
}

impl Cache {
    /// A cache over `cache_dir` with the index `metadata`.
    pub fn new(cache_dir: String, metadata: CacheMetadata) -> (r: Cache)
        ensures
            r.cache_dir == cache_dir,
            r.metadata == metadata,
    {
        Cache { cache_dir, metadata }
    }

    /// Execution identity of an inline expression (see `hashing`).
    pub fn get_inline_expr_hash(
        &self,
        language: &str,
        code: &str,
        options: &InlineOptions,
        previous_hash: &str,
    ) -> (r: String)
        ensures
            r@ == crate::hashing::fields_hash(
                crate::hashing::inline_identity(language@, code@, *options, previous_hash@),
            ),
    {
        inline_identity_hash(language, code, options, previous_hash)
    }

    /// Whether an inline result with identity `hash` is cached.
    pub fn has_cached_inline_result(&self, hash: &str) -> (r: bool)
        ensures
            r == inline_position(self.metadata.inline_expressions@, hash@) is Some,
    {
        find_inline(&self.metadata.inline_expressions, hash).is_some()
    }

    /// The cached inline result with identity `hash` (the first one).
    pub fn get_cached_inline_result(&self, hash: &str) -> (r: Result<String, CacheError>)
        ensures
            match inline_position(self.metadata.inline_expressions@, hash@) {
                Some(i) => r matches Ok(t) && t@
                    == self.metadata.inline_expressions@[i].result@,
                None => r matches Err(CacheError::InlineNotFound(h)) && h@ == hash@,
            },
    {
        match find_inline(&self.metadata.inline_expressions, hash) {
            Some(i) => Ok(self.metadata.inline_expressions[i].result.clone()),
            None => Err(CacheError::InlineNotFound(hash.to_string())),
        }
    }

    /// Whether a chunk result with identity `hash` is cached.
    pub fn has_cached_result(&self, hash: &str) -> (r: bool)
        ensures
            r == chunk_position(self.metadata.chunks@, hash@) is Some,
    {
        find_chunk(&self.metadata.chunks, hash).is_some()
    }

    /// Persists the index.
    pub fn save_metadata<S: CacheStore>(&self, store: &mut S) -> (r: Result<(), CacheError>)
        ensures
            r matches Err(e) ==> e is Io,
    {
        match store.persist(self.cache_dir.as_str(), &self.metadata) {
            Ok(()) => Ok(()),
            Err(e) => Err(CacheError::Io(e)),
        }
    }
}

// ---------------------------------------------------------------------------
// Paths
// ---------------------------------------------------------------------------

/// Index of the last occurrence of `c` in `s`.
pub open spec fn last_index_of(s: Seq<char>, c: char) -> Option<int>
    decreases s.len(),
{
    if s.len() == 0 {
        None
    } else if s.last() == c {
        Some(s.len() - 1)
    } else {
        last_index_of(s.drop_last(), c)
    }
}

/// The last component of a path, as `Path::file_name` gives it on Unix:
/// empty and `.` components are skipped; none when there is no component
/// or the last one is `..`.
pub open spec fn file_name(p: Seq<char>) -> Option<Seq<char>>
    decreases p.len(),
{
    if p.len() == 0 {
        None
    } else {
        match last_index_of(p, '/') {
            None => if p == "."@ {
                None
            } else if p == ".."@ {
                None
            } else {
                Some(p)
            },
            Some(k) => {
                let part = p.skip(k + 1);
                if part.len() == 0 || part == "."@ {
                    if 0 <= k < p.len() {
                        file_name(p.take(k))
                    } else {
                        None
                    }
                } else if part == ".."@ {
                    None
                } else {
                    Some(part)
                }
            },
        }
    }
}

/// The extension of a file name, as `Path::extension` gives it: what
/// follows its last dot, unless the dot begins the name.
pub open spec fn extension(name: Seq<char>) -> Option<Seq<char>> {
    match last_index_of(name, '.') {
        Some(k) => if k > 0 {
            Some(name.skip(k + 1))
        } else {
            None
        },
        None => None,
    }
}

/// The extension of the last component of a path.
pub open spec fn path_extension(p: Seq<char>) -> Option<Seq<char>> {
    match file_name(p) {
        Some(n) => extension(n),
        None => None,
    }
}

pub(crate) proof fn lemma_last_index_bound(s: Seq<char>, c: char)
    ensures
        last_index_of(s, c) matches Some(k) ==> 0 <= k < s.len() && s[k] == c && forall|j: int|
            k < j < s.len() ==> s[j] != c,
        last_index_of(s, c) is None ==> forall|j: int| 0 <= j < s.len() ==> s[j] != c,
    decreases s.len(),
{
    if s.len() > 0 && s.last() != c {
        lemma_last_index_bound(s.drop_last(), c);
        let t = s.drop_last();
        assert forall|j: int| 0 <= j < t.len() implies t[j] == s[j] by {}
    }
}

/// Index of the last `c` among `v[..end]`.
pub(crate) fn last_index_in(v: &Vec<char>, end: usize, c: char) -> (r: Option<usize>)
    requires
        end <= v.len(),
    ensures
        r matches Some(k) ==> last_index_of(v@.take(end as int), c) == Some(k as int),
        r is None ==> last_index_of(v@.take(end as int), c) is None,
{
    let mut i = end;
    while i > 0
        invariant
            i <= end <= v.len(),
            last_index_of(v@.take(end as int), c) == last_index_of(v@.take(i as int), c),
        decreases i,
    {
        assert(v@.take(i as int).drop_last() =~= v@.take(i - 1));
        if v[i - 1] == c {
            return Some(i - 1);
        }
        i = i - 1;
    }
    None
}

/// The last component of a path.
pub fn path_file_name(p: &str) -> (r: Option<String>)
    ensures
        r matches Some(n) ==> file_name(p@) == Some(n@),
        r is None ==> file_name(p@) is None,
{
    let v = chars_of(p);
    let mut end = v.len();
    assert(v@.take(end as int) =~= p@);
    while end > 0
        invariant
            end <= v.len(),
            v@ == p@,
            file_name(p@) == file_name(v@.take(end as int)),
        decreases end,
    {
        let ghost q = v@.take(end as int);
        proof {
            lemma_last_index_bound(q, '/');
        }
        match last_index_in(&v, end, '/') {
            None => {
                let part = crate::text::slice(&v, 0, end);
                assert(part@ =~= q);
                if crate::text::spells(&part, ".") || crate::text::spells(&part, "..") {
                    return None;
                }
                return Some(string_of(&part));
            },
            Some(k) => {
                let part = crate::text::slice(&v, k + 1, end);
                assert(part@ =~= q.skip(k + 1));
                if part.len() == 0 || crate::text::spells(&part, ".") {
                    assert(q.take(k as int) =~= v@.take(k as int));
                    end = k;
                } else if crate::text::spells(&part, "..") {
                    return None;
                } else {
                    return Some(string_of(&part));
                }
            },
        }
    }
    None
}

/// The extension of a file name.
fn name_extension(name: &str) -> (r: Option<String>)
    ensures
        r matches Some(e) ==> extension(name@) == Some(e@),
        r is None ==> extension(name@) is None,
{
    let v = chars_of(name);
    assert(v@.take(v.len() as int) =~= v@);
    proof {
        lemma_last_index_bound(v@, '.');
    }
    match last_index_in(&v, v.len(), '.') {
        Some(k) => {
            if k > 0 {
                let e = crate::text::slice(&v, k + 1, v.len());
                assert(e@ =~= v@.skip(k + 1));
                Some(string_of(&e))
            } else {
                None
            }
        },
        None => None,
    }
}

/// The extension of the last component of a path.
pub(crate) fn extension_of_path(p: &str) -> (r: Option<String>)
    ensures
        r matches Some(e) ==> path_extension(p@) == Some(e@),
        r is None ==> path_extension(p@) is None,
{
    match path_file_name(p) {
        Some(n) => name_extension(n.as_str()),
        None => None,
    }
}

/// Name of the file that holds the text output of a chunk.
pub open spec fn text_file_name(hash: Seq<char>) -> Seq<char> {
    "chunk_"@ + hash + ".txt"@
}

/// The path of a file of the cache directory.
fn in_cache_dir(cache_dir: &str, name: &str) -> (r: String)
    ensures
        r@ == path_join(cache_dir@, name@),
{
    join_path(cache_dir, &chars_of(name))
}

// ---------------------------------------------------------------------------
// Copies
// ---------------------------------------------------------------------------

/// Copy of an optional string.
fn copy_opt_string(s: &Option<String>) -> (r: Option<String>)
    ensures
        r == *s,
{
    match s {
        Some(t) => Some(t.clone()),
        None => None,
    }
}

/// Copy of a warning.
pub fn copy_warning(w: &RuntimeWarning) -> (r: RuntimeWarning)
    ensures
        r == *w,
{
    RuntimeWarning { message: w.message.clone(), call: copy_opt_string(&w.call), line: w.line }
}

/// Copy of a list of warnings.
pub fn copy_warnings(v: &Vec<RuntimeWarning>) -> (r: Vec<RuntimeWarning>)
    ensures
        r@ == v@,
{
    let mut r: Vec<RuntimeWarning> = Vec::new();
    let mut i: usize = 0;
    while i < v.len()
        invariant
            i <= v.len(),
            r@ == v@.take(i as int),
        decreases v.len() - i,
    {
        r.push(copy_warning(&v[i]));
        assert(r@ =~= v@.take(i + 1));
        i = i + 1;
    }
    assert(v@.take(v.len() as int) =~= v@);
    r
}

/// Copy of a list of strings.
pub fn copy_strings(v: &Vec<String>) -> (r: Vec<String>)
    ensures
        r@ == v@,
{
    let mut r: Vec<String> = Vec::new();
    let mut i: usize = 0;
    while i < v.len()
        invariant
            i <= v.len(),
            r@ == v@.take(i as int),
        decreases v.len() - i,
    {
        r.push(v[i].clone());
        assert(r@ =~= v@.take(i + 1));
        i = i + 1;
    }
    assert(v@.take(v.len() as int) =~= v@);
    r
}

/// Copy of a runtime error.
pub fn copy_error(e: &RuntimeError) -> (r: RuntimeError)
    ensures
        r.message == e.message,
        r.call == e.call,
        r.line == e.line,
        r.traceback@ == e.traceback@,
{
    RuntimeError {
        message: copy_opt_string(&e.message),
        call: copy_opt_string(&e.call),
        line: e.line,
        traceback: copy_strings(&e.traceback),
    }
}

// ---------------------------------------------------------------------------
// Writing entries
// ---------------------------------------------------------------------------

/// The inline entries whose identity is not `h`, in order.
pub open spec fn inline_without(entries: Seq<InlineCacheEntry>, h: Seq<char>) -> Seq<
    InlineCacheEntry,
>
    decreases entries.len(),
{
    if entries.len() == 0 {
        entries
    } else if entries[0].hash@ != h {
        seq![entries[0]] + inline_without(entries.drop_first(), h)
    } else {
        inline_without(entries.drop_first(), h)
    }
}

/// The chunk entries of chunks other than `index`, in order.
pub open spec fn chunks_without(chunks: Seq<ChunkCacheEntry>, index: usize) -> Seq<
    ChunkCacheEntry,
>
    decreases chunks.len(),
{
    if chunks.len() == 0 {
        chunks
    } else if chunks[0].index != index {
        seq![chunks[0]] + chunks_without(chunks.drop_first(), index)
    } else {
        chunks_without(chunks.drop_first(), index)
    }
}

/// No entry kept by `inline_without` has the removed identity.
pub proof fn lemma_inline_without(entries: Seq<InlineCacheEntry>, h: Seq<char>)
    ensures
        forall|i: int|
            0 <= i < inline_without(entries, h).len() ==> #[trigger] inline_without(
                entries,
                h,
            )[i].hash@ != h,
    decreases entries.len(),
{
    if entries.len() > 0 {
        lemma_inline_without(entries.drop_first(), h);
        let rest = inline_without(entries.drop_first(), h);
        if entries[0].hash@ != h {
            assert forall|i: int|
                0 <= i < inline_without(entries, h).len() implies #[trigger] inline_without(
                entries,
                h,
            )[i].hash@ != h by {
                if i > 0 {
                    assert(inline_without(entries, h)[i] == rest[i - 1]);
                }
            }
        }
    }
}

/// No entry kept by `chunks_without` belongs to the removed chunk, and every
/// entry of another chunk is kept.
pub proof fn lemma_chunks_without(chunks: Seq<ChunkCacheEntry>, index: usize)
    ensures
        forall|i: int|
            0 <= i < chunks_without(chunks, index).len() ==> (#[trigger] chunks_without(
                chunks,
                index,
            )[i]).index != index,
        forall|i: int|
            0 <= i < chunks.len() && chunks[i].index != index ==> chunks_without(
                chunks,
                index,
            ).contains(#[trigger] chunks[i]),
    decreases chunks.len(),
{
    if chunks.len() > 0 {
        lemma_chunks_without(chunks.drop_first(), index);
        let rest = chunks_without(chunks.drop_first(), index);
        let all = chunks_without(chunks, index);
        assert forall|i: int| 0 <= i < all.len() implies (#[trigger] all[i]).index != index by {
            if chunks[0].index != index && i > 0 {
                assert(all[i] == rest[i - 1]);
            }
        }
        assert forall|i: int|
            0 <= i < chunks.len() && chunks[i].index != index implies all.contains(
            #[trigger] chunks[i],
        ) by {
            if i == 0 {
                assert(all[0] == chunks[0]);
            } else {
                assert(chunks.drop_first()[i - 1] == chunks[i]);
                let k = choose|k: int| 0 <= k < rest.len() && rest[k] == chunks[i];
                if chunks[0].index != index {
                    assert(all[k + 1] == rest[k]);
                } else {
                    assert(all[k] == rest[k]);
                }
            }
        }
    }
}

impl Cache {
    /// Replaces the entry of the chunk `entry.index` by `entry` (added last)
    /// and persists the index.
    fn save_chunk_entry<S: CacheStore>(&mut self, entry: ChunkCacheEntry, store: &mut S) -> (r:
        Result<(), CacheError>)
        ensures
            final(self).cache_dir == old(self).cache_dir,
            final(self).metadata.chunks@ == chunks_without(
                old(self).metadata.chunks@,
                entry.index,
            ).push(entry),
            final(self).metadata.inline_expressions == old(self).metadata.inline_expressions,
            final(self).metadata.snapshots == old(self).metadata.snapshots,
            final(self).metadata.freeze_objects == old(self).metadata.freeze_objects,
            r matches Err(e) ==> e is Io,
    {
        let mut rest: Vec<ChunkCacheEntry> = Vec::new();
        std::mem::swap(&mut rest, &mut self.metadata.chunks);
        let ghost all = rest@;
        let mut kept: Vec<ChunkCacheEntry> = Vec::new();
        while rest.len() > 0
            invariant
                chunks_without(all, entry.index) == kept@ + chunks_without(rest@, entry.index),
            decreases rest.len(),
        {
            let ghost before = rest@;
            let e = rest.remove(0);
            assert(rest@ =~= before.drop_first());
            if e.index != entry.index {
                let ghost k0 = kept@;
                kept.push(e);
                assert(kept@ =~= k0 + seq![e]);
                assert(chunks_without(before, entry.index) =~= seq![e] + chunks_without(
                    rest@,
                    entry.index,
                ));
                assert(k0 + (seq![e] + chunks_without(rest@, entry.index)) =~= kept@
                    + chunks_without(rest@, entry.index));
            }
        }
        assert(kept@ + chunks_without(rest@, entry.index) =~= kept@);
        kept.push(entry);
        self.metadata.chunks = kept;
        self.save_metadata(store)
    }

    /// Records a chunk that stopped on `error` (its files, digests and
    /// warnings empty), replacing any entry of the same chunk, and persists
    /// the index.
    pub fn save_error<S: CacheStore>(
        &mut self,
        chunk_index: usize,
        chunk_name: Option<String>,
        language: String,
        hash: String,
        error: RuntimeError,
        dependencies: Vec<String>,
        store: &mut S,
    ) -> (r: Result<(), CacheError>)
        ensures
            final(self).cache_dir == old(self).cache_dir,
            final(self).metadata.chunks@.drop_last() == chunks_without(
                old(self).metadata.chunks@,
                chunk_index,
            ),
            final(self).metadata.chunks@.len() > 0,
            ({
                let e = final(self).metadata.chunks@.last();
                &&& e.index == chunk_index
                &&& e.name == chunk_name
                &&& e.language == language
                &&& e.hash == hash
                &&& e.files@.len() == 0
                &&& e.file_hashes@.len() == 0
                &&& e.warnings@.len() == 0
                &&& e.error == Some(error)
                &&& e.dependencies == dependencies
            }),
            final(self).metadata.inline_expressions == old(self).metadata.inline_expressions,
            final(self).metadata.snapshots == old(self).metadata.snapshots,
            final(self).metadata.freeze_objects == old(self).metadata.freeze_objects,
            r matches Err(e) ==> e is Io,
    {
        let entry = create_chunk_entry(
            chunk_index,
            chunk_name,
            language,
            hash,
            Vec::new(),
            Vec::new(),
            Some(error),
            dependencies,
        );
        let r = self.save_chunk_entry(entry, store);
        assert(self.metadata.chunks@.drop_last() =~= chunks_without(
            old(self).metadata.chunks@,
            chunk_index,
        ));
        r
    }

    /// Records the text result of an inline expression, replacing any entry
    /// with the same identity, and persists the index.
    pub fn save_inline_result<S: CacheStore>(&mut self, hash: String, result: &str, store: &mut S) -> (r:
        Result<(), CacheError>)
        ensures
            final(self).cache_dir == old(self).cache_dir,
            final(self).metadata.inline_expressions@.len() > 0,
            final(self).metadata.inline_expressions@.drop_last() == inline_without(
                old(self).metadata.inline_expressions@,
                hash@,
            ),
            final(self).metadata.inline_expressions@.last().hash == hash,
            final(self).metadata.inline_expressions@.last().result@ == result@,
            inline_position(final(self).metadata.inline_expressions@, hash@) == Some(
                final(self).metadata.inline_expressions@.len() - 1,
            ),
            final(self).metadata.chunks == old(self).metadata.chunks,
            final(self).metadata.snapshots == old(self).metadata.snapshots,
            final(self).metadata.freeze_objects == old(self).metadata.freeze_objects,
            r matches Err(e) ==> e is Io,
    {
        let ghost h = hash@;
        let mut rest: Vec<InlineCacheEntry> = Vec::new();
        std::mem::swap(&mut rest, &mut self.metadata.inline_expressions);
        let ghost all = rest@;
        let mut kept: Vec<InlineCacheEntry> = Vec::new();
        while rest.len() > 0
            invariant
                h == hash@,
                inline_without(all, h) == kept@ + inline_without(rest@, h),
            decreases rest.len(),
        {
            let ghost before = rest@;
            let e = rest.remove(0);
            assert(rest@ =~= before.drop_first());
            assert(before[0] == e);
            let differs = !same_text(e.hash.as_str(), hash.as_str());
            assert(differs == (before[0].hash@ != h));
            if !differs {
                assert(inline_without(before, h) == inline_without(rest@, h));
            }
            if differs {
                let ghost k0 = kept@;
                kept.push(e);
                assert(kept@ =~= k0 + seq![e]);
                assert(inline_without(before, h) =~= seq![e] + inline_without(rest@, h));
                assert(k0 + (seq![e] + inline_without(rest@, h)) =~= kept@ + inline_without(
                    rest@,
                    h,
                ));
            }
        }
        assert(kept@ + inline_without(rest@, h) =~= kept@);
        let ghost k = kept@;
        let entry = InlineCacheEntry { hash, result: result.to_string(), updated_at: timestamp() };
        kept.push(entry);
        proof {
            lemma_inline_without(all, h);
            assert(kept@.drop_last() =~= k);
            assert forall|j: int| 0 <= j < kept@.len() - 1 implies #[trigger] kept@[j].hash@
                != h by {
                assert(kept@[j] == k[j]);
            }
            lemma_first_inline(kept@, h, kept@.len() - 1);
        }
        self.metadata.inline_expressions = kept;
        self.save_metadata(store)
    }
}

// ---------------------------------------------------------------------------
// Chunk results
// ---------------------------------------------------------------------------

/// The files that hold a result, by name in the cache directory: the text
/// output in `chunk_<identity>.txt` (none for blank text), figures and
/// tables under the name of the file the interpreter wrote. `None` when a
/// path has no file name.
pub open spec fn result_files(r: ResultV, hash: Seq<char>) -> Option<Seq<Seq<char>>> {
    match r {
        ResultV::Text(t) => if trim(t).len() > 0 {
            Some(seq![text_file_name(hash)])
        } else {
            Some(Seq::empty())
        },
        ResultV::Plot(p) => match file_name(p) {
            Some(n) => Some(seq![n]),
            None => None,
        },
        ResultV::DataFrame(c) => match file_name(c) {
            Some(n) => Some(seq![n]),
            None => None,
        },
        ResultV::TextAndPlot(_, p) => match file_name(p) {
            Some(n) => Some(seq![text_file_name(hash), n]),
            None => None,
        },
        ResultV::DataFrameAndPlot(c, p) => match (file_name(c), file_name(p)) {
            (Some(a), Some(b)) => Some(seq![a, b]),
            _ => None,
        },
    }
}

/// Error for a file that cannot be read.
fn unreadable(path: &str) -> (r: CacheError)
    ensures
        r is Io,
{
    let mut m = chars_of("Cannot read cache file: ");
    push_str(&mut m, path);
    CacheError::Io(string_of(&m))
}

/// Error for a file that cannot be written.
fn unwritable(path: &str, reason: String) -> (r: CacheError)
    ensures
        r is Io,
{
    let mut m = chars_of("Cannot write cache file ");
    push_str(&mut m, path);
    push_str(&mut m, ": ");
    push_str(&mut m, reason.as_str());
    CacheError::Io(string_of(&m))
}

/// The file name of the path of a result file.
fn result_file_name(path: &str) -> (r: Result<String, CacheError>)
    ensures
        r matches Ok(n) ==> file_name(path@) == Some(n@),
        r is Err ==> file_name(path@) is None,
        r matches Err(e) ==> e is InvalidFileName,
{
    match path_file_name(path) {
        Some(n) => Ok(n),
        None => Err(CacheError::InvalidFileName(path.to_string())),
    }
}

/// Writes the text output of a chunk to its file.
fn write_text_file<S: CacheStore>(cache_dir: &str, hash: &str, text: &str, store: &mut S) -> (r:
    Result<String, CacheError>)
    ensures
        r matches Ok(n) ==> n@ == text_file_name(hash@),
        r matches Err(e) ==> e is Io,
{
    let mut name = chars_of("chunk_");
    push_str(&mut name, hash);
    push_str(&mut name, ".txt");
    let name = string_of(&name);
    let path = in_cache_dir(cache_dir, name.as_str());
    match store.write_text(path.as_str(), text) {
        Ok(()) => Ok(name),
        Err(e) => Err(unwritable(path.as_str(), e)),
    }
}

/// Whether storing a result writes its text output to a file.
pub open spec fn writes_text_file(r: ResultV) -> bool {
    match r {
        ResultV::Text(t) => trim(t).len() > 0,
        ResultV::TextAndPlot(_, _) => true,
        _ => false,
    }
}

/// Names the files of a result, writing its text output to the cache.
fn store_result_files<S: CacheStore>(
    cache_dir: &str,
    hash: &str,
    result: &ExecutionResult,
    store: &mut S,
) -> (r: Result<Vec<String>, CacheError>)
    ensures
        r matches Ok(f) ==> result_files(result_view(*result), hash@) == Some(texts(f@)),
        result_files(result_view(*result), hash@) is None ==> r is Err,
        result_files(result_view(*result), hash@) is Some && !writes_text_file(result_view(*result))
            ==> r is Ok,
        r matches Err(e) ==> e is Io || e is InvalidFileName,
{
    let mut files: Vec<String> = Vec::new();
    match result {
        ExecutionResult::Text(t) => {
            if trimmed(&chars_of(t.as_str())).len() > 0 {
                let n = write_text_file(cache_dir, hash, t.as_str(), store)?;
                files.push(n);
            }
        },
        ExecutionResult::Plot(p) => {
            files.push(result_file_name(p.as_str())?);
        },
        ExecutionResult::DataFrame(c) => {
            files.push(result_file_name(c.as_str())?);
        },
        ExecutionResult::TextAndPlot { text, plot } => {
            let n = write_text_file(cache_dir, hash, text.as_str(), store)?;
            files.push(n);
            files.push(result_file_name(plot.as_str())?);
        },
        ExecutionResult::DataFrameAndPlot { dataframe, plot } => {
            files.push(result_file_name(dataframe.as_str())?);
            files.push(result_file_name(plot.as_str())?);
        },
    }
    assert(texts(files@) =~= result_files(result_view(*result), hash@)->0);
    Ok(files)
}

/// The digest of every file of a result.
fn file_digests<S: CacheStore>(cache_dir: &str, files: &Vec<String>, store: &S) -> (r: Result<
    Vec<(String, String)>,
    CacheError,
>)
    ensures
        r matches Ok(d) ==> d@.len() == files@.len() && forall|k: int|
            0 <= k < files@.len() ==> (#[trigger] d@[k]).0 == files@[k],
        r matches Err(e) ==> e is Io,
        files@.len() == 0 ==> r is Ok,
{
    let mut d: Vec<(String, String)> = Vec::new();
    let mut i: usize = 0;
    while i < files.len()
        invariant
            i <= files.len(),
            d@.len() == i,
            forall|k: int| 0 <= k < i ==> (#[trigger] d@[k]).0 == files@[k],
        decreases files.len() - i,
    {
        let path = in_cache_dir(cache_dir, files[i].as_str());
        match store.read_bytes(path.as_str()) {
            Some(bytes) => {
                d.push((files[i].clone(), hash_file_contents(&bytes)));
            },
            None => {
                return Err(unreadable(path.as_str()));
            },
        }
        i = i + 1;
    }
    Ok(d)
}

impl Cache {
    /// Records the successful execution of a chunk, replacing any entry of
    /// the same chunk: its text output is written to `chunk_<identity>.txt`,
    /// figures and tables are recorded by file name, every file with its
    /// digest; then the index is persisted. When a file name cannot be taken
    /// or a file cannot be written or read, the index is left unchanged.
    pub fn save_result<S: CacheStore>(
        &mut self,
        chunk_index: usize,
        chunk_name: Option<String>,
        language: String,
        hash: String,
        output: &ExecutionOutput,
        dependencies: Vec<String>,
        store: &mut S,
    ) -> (r: Result<(), CacheError>)
        ensures
            final(self).cache_dir == old(self).cache_dir,
            result_files(result_view(output.result), hash@) is None ==> r is Err
                && final(self).metadata == old(self).metadata,
            final(self).metadata == old(self).metadata || ({
                let e = final(self).metadata.chunks@.last();
                &&& final(self).metadata.chunks@.len() > 0
                &&& final(self).metadata.chunks@.drop_last() == chunks_without(
                    old(self).metadata.chunks@,
                    chunk_index,
                )
                &&& e.index == chunk_index
                &&& e.name == chunk_name
                &&& e.language == language
                &&& e.hash == hash
                &&& result_files(result_view(output.result), hash@) == Some(texts(e.files@))
                &&& e.file_hashes@.len() == e.files@.len()
                &&& e.warnings@ == output.warnings@
                &&& e.error is None
                &&& e.dependencies == dependencies
                &&& final(self).metadata.inline_expressions
                    == old(self).metadata.inline_expressions
                &&& final(self).metadata.snapshots == old(self).metadata.snapshots
                &&& final(self).metadata.freeze_objects == old(self).metadata.freeze_objects
                &&& (r matches Err(x) ==> x is Io)
            }),
            (r is Ok || result_files(result_view(output.result), hash@) == Some(
                Seq::<Seq<char>>::empty(),
            )) ==> final(self).metadata.chunks@.len() > 0
                && final(self).metadata.chunks@.drop_last() == chunks_without(
                old(self).metadata.chunks@,
                chunk_index,
            ) && final(self).metadata.chunks@.last().hash == hash
                && final(self).metadata.chunks@.last().index == chunk_index
                && final(self).metadata.chunks@.last().error is None,
    {
        proof {
            let rv = result_view(output.result);
            if result_files(rv, hash@) == Some(Seq::<Seq<char>>::empty()) {
                match rv {
                    ResultV::Text(t) => {
                        if trim(t).len() > 0 {
                            assert(result_files(rv, hash@)->0.len() == 1);
                        }
                    },
                    ResultV::Plot(p) => {
                        assert(result_files(rv, hash@)->0.len() == 1);
                    },
                    ResultV::DataFrame(c) => {
                        assert(result_files(rv, hash@)->0.len() == 1);
                    },
                    ResultV::TextAndPlot(_, p) => {
                        assert(result_files(rv, hash@)->0.len() == 2);
                    },
                    ResultV::DataFrameAndPlot(c, p) => {
                        assert(result_files(rv, hash@)->0.len() == 2);
                    },
                }
                assert(!writes_text_file(rv));
            }
        }
        let files = match store_result_files(self.cache_dir.as_str(), hash.as_str(), &output.result, store) {
            Ok(f) => f,
            Err(e) => return Err(e),
        };
        assert(result_files(result_view(output.result), hash@) == Some(Seq::<Seq<char>>::empty())
            ==> texts(files@).len() == 0);
        let file_hashes = match file_digests(self.cache_dir.as_str(), &files, store) {
            Ok(d) => d,
            Err(e) => return Err(e),
        };
        let entry = ChunkCacheEntry {
            index: chunk_index,
            name: chunk_name,
            language,
            hash,
            files,
            file_hashes,
            warnings: copy_warnings(&output.warnings),
            error: None,
            dependencies,
            updated_at: timestamp(),
        };
        let r = self.save_chunk_entry(entry, store);
        assert(self.metadata.chunks@.drop_last() =~= chunks_without(
            old(self).metadata.chunks@,
            chunk_index,
        ));
        r
    }
}

/// Whether a snapshot entry can be restored: it is reusable, binds no
/// frozen object and has files.
pub open spec fn snapshot_usable(e: SnapshotEntry) -> bool {
    e.reusable && e.freeze_objects@.len() == 0 && e.files@.len() > 0
}

/// Index of the first snapshot recorded under `h`.
pub open spec fn snapshot_position(snapshots: Seq<(String, SnapshotEntry)>, h: Seq<char>) -> Option<
    int,
> {
    if exists|i: int| 0 <= i < snapshots.len() && #[trigger] snapshots[i].0@ == h {
        Some(
            choose|i: int|
                0 <= i < snapshots.len() && #[trigger] snapshots[i].0@ == h && forall|j: int|
                    0 <= j < i ==> #[trigger] snapshots[j].0@ != h,
        )
    } else {
        None
    }
}

/// Whether the index records a restorable snapshot under `h`.
pub open spec fn has_usable_snapshot(m: CacheMetadata, h: Seq<char>) -> bool {
    match snapshot_position(m.snapshots@, h) {
        Some(i) => snapshot_usable(m.snapshots@[i].1),
        None => false,
    }
}

/// The bytes read, as plain values.
pub open spec fn opt_bytes(v: Seq<Option<Vec<u8>>>) -> Seq<Option<Seq<u8>>> {
    v.map_values(|b: Option<Vec<u8>>| match b {
        Some(x) => Some(x@),
        None => None,
    })
}

/// Whether the snapshot `e` can be restored when its files read back as
/// `bytes`: it is usable, and every file was read and has its recorded
/// digest.
pub open spec fn snapshot_intact(e: SnapshotEntry, bytes: Seq<Option<Seq<u8>>>) -> bool {
    &&& snapshot_usable(e)
    &&& bytes.len() == e.files@.len()
    &&& forall|k: int|
        0 <= k < bytes.len() ==> ((#[trigger] bytes[k]) matches Some(b) && digest_hex(b)
            == e.files@[k].1@)
}

/// Whether the snapshot recorded under `h` can be restored when its files
/// read back as `bytes`.
pub open spec fn snapshot_verdict(m: CacheMetadata, h: Seq<char>, bytes: Seq<Option<Seq<u8>>>) -> bool {
    match snapshot_position(m.snapshots@, h) {
        Some(i) => snapshot_intact(m.snapshots@[i].1, bytes),
        None => false,
    }
}

/// Whether the snapshot `entry`, whose files read back as `bytes`, can be
/// restored (see `snapshot_intact`).
pub fn snapshot_files_intact(entry: &SnapshotEntry, bytes: &Vec<Option<Vec<u8>>>) -> (r: bool)
    ensures
        r == snapshot_intact(*entry, opt_bytes(bytes@)),
{
    if !entry.reusable || entry.freeze_objects.len() > 0 || entry.files.len() == 0
        || bytes.len() != entry.files.len() {
        return false;
    }
    let ghost bv = opt_bytes(bytes@);
    let mut k: usize = 0;
    while k < bytes.len()
        invariant
            k <= bytes@.len(),
            bytes@.len() == entry.files@.len(),
            bv == opt_bytes(bytes@),
            forall|j: int|
                0 <= j < k ==> ((#[trigger] bv[j]) matches Some(b) && digest_hex(b)
                    == entry.files@[j].1@),
        decreases bytes.len() - k,
    {
        match &bytes[k] {
            Some(b) => {
                let actual = hash_file_contents(b);
                assert(bv[k as int] == Some(b@));
                if !same_text(actual.as_str(), entry.files[k].1.as_str()) {
                    return false;
                }
            },
            None => {
                assert(bv[k as int] is None);
                return false;
            },
        }
        k = k + 1;
    }
    true
}

/// Name of the snapshot file of a node.
pub open spec fn snapshot_file_name(hash: Seq<char>, ext: Seq<char>) -> Seq<char> {
    "snapshot_"@ + hash + "."@ + ext
}

/// Index of the first snapshot recorded under `hash`.
fn find_snapshot(snapshots: &Vec<(String, SnapshotEntry)>, hash: &str) -> (r: Option<usize>)
    ensures
        r matches Some(i) ==> snapshot_position(snapshots@, hash@) == Some(i as int) && i
            < snapshots@.len(),
        r is None ==> snapshot_position(snapshots@, hash@) is None,
{
    let mut i: usize = 0;
    while i < snapshots.len()
        invariant
            i <= snapshots.len(),
            forall|j: int| 0 <= j < i ==> #[trigger] snapshots@[j].0@ != hash@,
        decreases snapshots.len() - i,
    {
        if same_text(snapshots[i].0.as_str(), hash) {
            proof {
                let k = choose|k: int|
                    0 <= k < snapshots@.len() && #[trigger] snapshots@[k].0@ == hash@ && forall|
                        j: int,
                    | 0 <= j < k ==> #[trigger] snapshots@[j].0@ != hash@;
                assert(snapshots@[i as int].0@ == hash@);
                if k < i {
                    assert(snapshots@[k].0@ != hash@);
                }
                if k > i {
                    assert(snapshots@[i as int].0@ != hash@);
                }
            }
            return Some(i);
        }
        i = i + 1;
    }
    None
}

impl Cache {
    /// The cached result of the chunk with identity `hash` (the first entry
    /// with it): its error if it failed; else its output, rebuilt from the
    /// type of its first file (text read from a `.txt` file, a figure for
    /// `.svg` and `.png`, a table for `.csv`) with its warnings, once every
    /// file is found.
    pub fn get_cached_result<S: CacheStore>(&self, hash: &str, store: &S) -> (r: Result<
        ExecutionAttempt,
        CacheError,
    >)
        ensures
            chunk_position(self.metadata.chunks@, hash@) is None ==> (r matches Err(
                CacheError::NotFound(h),
            ) && h@ == hash@),
            chunk_position(self.metadata.chunks@, hash@) matches Some(i) ==> {
                let e = self.metadata.chunks@[i];
                let first = path_join(self.cache_dir@, e.files@[0]@);
                &&& (e.error matches Some(err) ==> (r matches Ok(
                    ExecutionAttempt::RuntimeError(x),
                ) && x.message == err.message && x.call == err.call && x.line == err.line
                    && x.traceback@ == err.traceback@))
                &&& (e.error is None && e.files@.len() == 0 ==> (r matches Ok(
                    ExecutionAttempt::Success(out),
                ) && result_view(out.result) == ResultV::Text(Seq::empty()) && out.warnings@
                    == e.warnings@))
                &&& (e.error is None && e.files@.len() > 0 ==> match r {
                    Ok(ExecutionAttempt::Success(out)) => out.warnings@ == e.warnings@
                        && match path_extension(first) {
                        Some(x) => if x == "txt"@ {
                            out.result is Text
                        } else if x == "svg"@ || x == "png"@ {
                            result_view(out.result) == ResultV::Plot(first)
                        } else {
                            x == "csv"@ && result_view(out.result) == ResultV::DataFrame(first)
                        },
                        None => false,
                    },
                    Ok(ExecutionAttempt::RuntimeError(_)) => false,
                    Err(CacheError::FileMissing(p)) => exists|k: int|
                        0 <= k < e.files@.len() && p@ == path_join(
                            self.cache_dir@,
                            #[trigger] e.files@[k]@,
                        ),
                    Err(CacheError::Io(_)) => path_extension(first) == Some("txt"@),
                    Err(CacheError::UnknownFileType(p)) => p@ == first && !(path_extension(first)
                        matches Some(x) && (x == "txt"@ || x == "svg"@ || x == "png"@ || x
                        == "csv"@)),
                    Err(_) => false,
                })
            },
    {
        let i = match find_chunk(&self.metadata.chunks, hash) {
            Some(i) => i,
            None => return Err(CacheError::NotFound(hash.to_string())),
        };
        let e = &self.metadata.chunks[i];
        if let Some(err) = &e.error {
            return Ok(ExecutionAttempt::RuntimeError(copy_error(err)));
        }
        if e.files.len() == 0 {
            let out = ExecutionOutput {
                result: ExecutionResult::Text(String::new()),
                exports: Vec::new(),
                warnings: copy_warnings(&e.warnings),
            };
            assert(result_view(out.result) =~= ResultV::Text(Seq::empty()));
            return Ok(ExecutionAttempt::Success(out));
        }
        let mut k: usize = 0;
        while k < e.files.len()
            invariant
                k <= e.files@.len(),
                chunk_position(self.metadata.chunks@, hash@) == Some(i as int),
                i < self.metadata.chunks@.len(),
                *e == self.metadata.chunks@[i as int],
                e.error is None,
            decreases e.files.len() - k,
        {
            let path = in_cache_dir(self.cache_dir.as_str(), e.files[k].as_str());
            if !store.file_exists(path.as_str()) {
                assert(path@ == path_join(self.cache_dir@, e.files@[k as int]@));
                return Err(CacheError::FileMissing(path));
            }
            k = k + 1;
        }
        let first = in_cache_dir(self.cache_dir.as_str(), e.files[0].as_str());
        let result = match extension_of_path(first.as_str()) {
            Some(x) => {
                if same_text(x.as_str(), "txt") {
                    match store.read_text(first.as_str()) {
                        Some(t) => ExecutionResult::Text(t),
                        None => return Err(unreadable(first.as_str())),
                    }
                } else if same_text(x.as_str(), "svg") || same_text(x.as_str(), "png") {
                    ExecutionResult::Plot(first)
                } else if same_text(x.as_str(), "csv") {
                    ExecutionResult::DataFrame(first)
                } else {
                    return Err(CacheError::UnknownFileType(first));
                }
            },
            None => return Err(CacheError::UnknownFileType(first)),
        };
        Ok(
            ExecutionAttempt::Success(
                ExecutionOutput { result, exports: Vec::new(), warnings: copy_warnings(&e.warnings) },
            ),
        )
    }

    /// Path of the snapshot file of a node: `snapshot_<identity>.<ext>` in
    /// the cache directory.
    pub fn get_snapshot_path(&self, node_hash: &str, extension: &str) -> (r: String)
        ensures
            r@ == path_join(self.cache_dir@, snapshot_file_name(node_hash@, extension@)),
    {
        let mut name = chars_of("snapshot_");
        push_str(&mut name, node_hash);
        push_str(&mut name, ".");
        push_str(&mut name, extension);
        join_path(self.cache_dir.as_str(), &name)
    }

    /// Whether the snapshot recorded under `hash` can be restored: it is
    /// reusable, binds no frozen object, has files, and every file, read
    /// through `store` under the cache directory, has its recorded digest
    /// (see `snapshot_intact`).
    pub fn snapshot_is_valid<S: CacheStore>(&self, hash: &str, store: &S) -> (r: bool)
        ensures
            r ==> has_usable_snapshot(self.metadata, hash@),
            exists|bytes: Seq<Option<Seq<u8>>>| r == #[trigger] snapshot_verdict(
                self.metadata,
                hash@,
                bytes,
            ),
    {
        let i = match find_snapshot(&self.metadata.snapshots, hash) {
            Some(i) => i,
            None => {
                assert(snapshot_verdict(self.metadata, hash@, Seq::empty()) == false);
                return false;
            },
        };
        let entry = &self.metadata.snapshots[i].1;
        let mut bytes: Vec<Option<Vec<u8>>> = Vec::new();
        let mut k: usize = 0;
        while k < entry.files.len()
            invariant
                k <= entry.files@.len(),
                bytes@.len() == k,
            decreases entry.files.len() - k,
        {
            let path = in_cache_dir(self.cache_dir.as_str(), entry.files[k].0.as_str());
            bytes.push(store.read_bytes(path.as_str()));
            k = k + 1;
        }
        let r = snapshot_files_intact(entry, &bytes);
        assert(snapshot_verdict(self.metadata, hash@, opt_bytes(bytes@)) == r);
        r
    }

    /// Restores the session of `executor` from the snapshot recorded under
    /// `hash`; refused when the snapshot is not valid. Otherwise the session
    /// is loaded, once, from the snapshot's file (`get_snapshot_path` with
    /// the interpreter's snapshot extension), and the result follows that
    /// load.
    pub fn restore_snapshot<E: KnotExecutor, S: CacheStore>(
        &self,
        hash: &str,
        executor: &mut Interpreter<E>,
        store: &S,
    ) -> (r: Result<(), CacheError>)
        ensures
            !has_usable_snapshot(self.metadata, hash@) ==> (r matches Err(
                CacheError::InvalidSnapshot(h),
            ) && h@ == hash@),
            r is Ok ==> has_usable_snapshot(self.metadata, hash@),
            r matches Err(CacheError::InvalidSnapshot(_)) ==> *final(executor) == *old(executor),
            r matches Err(CacheError::InvalidSnapshot(_)) ==> exists|bytes: Seq<Option<Seq<u8>>>|
                !#[trigger] snapshot_verdict(self.metadata, hash@, bytes),
            r matches Err(e) ==> e is InvalidSnapshot || (e is Io && has_usable_snapshot(
                self.metadata,
                hash@,
            )),
            !(r matches Err(CacheError::InvalidSnapshot(_))) ==> snapshot_loaded(
                self.cache_dir@,
                hash@,
                old(executor).requests@,
                final(executor).requests@,
                r,
            ),
    {
        if !self.snapshot_is_valid(hash, store) {
            return Err(CacheError::InvalidSnapshot(hash.to_string()));
        }
        let ext = executor.session.snapshot_extension();
        let path = self.get_snapshot_path(hash, ext);
        let answer = executor.load(path.as_str());
        proof {
            assert(executor.requests@.drop_last() =~= old(executor).requests@);
            assert(path@ == path_join(self.cache_dir@, snapshot_file_name(hash@, ext@)));
        }
        match answer {
            Ok(()) => Ok(()),
            Err(ExecError::Failed(m)) => {
                let mut t = chars_of("Failed to restore snapshot ");
                push_str(&mut t, path.as_str());
                push_str(&mut t, ": ");
                push_str(&mut t, m.as_str());
                Err(CacheError::Io(string_of(&t)))
            },
        }
    }
}

/// Whether the requests of an interpreter went from `before` to `after` by
/// one load of the session from the snapshot file of `hash` in the cache
/// directory `dir` (with some extension), whose answer `r` follows: `Ok` when
/// the load succeeded, otherwise an `Io` error naming the file and the
/// interpreter's reason.
pub open spec fn snapshot_loaded(
    dir: Seq<char>,
    hash: Seq<char>,
    before: Seq<Request>,
    after: Seq<Request>,
    r: Result<(), CacheError>,
) -> bool {
    &&& after.len() == before.len() + 1
    &&& after.drop_last() == before
    &&& match after.last() {
        Request::Load { path, answer } => {
            &&& exists|ext: Seq<char>| path == path_join(dir, #[trigger] snapshot_file_name(hash, ext))
            &&& match answer {
                Ok(()) => r is Ok,
                Err(ExecError::Failed(m)) => r matches Err(CacheError::Io(t)) && t@
                    == "Failed to restore snapshot "@ + path + ": "@ + m@,
            }
        },
        _ => false,
    }
}

} // verus!
