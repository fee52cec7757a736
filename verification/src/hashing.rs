//! Execution identities of chunks and inline expressions.
//!
//! An identity is the SHA-256 digest of its fields, each preceded by its
//! length, so that no two different field lists hash the same bytes. A chunk's
//! identity includes the previous identity of its language chain: editing a
//! chunk changes the identity of every later chunk of that language.
use crate::ast::{fig_format_debug, or_default, resolve_inline, show_debug, ChunkOptions, InlineOptions};
use crate::text::{chars_of, decimal, push_decimal, push_str, string_of};
use sha2::Digest;
use vstd::prelude::*;
use vstd::utf8::encode_utf8;

verus! {

// ---------------------------------------------------------------------------
// SHA-256 and its hexadecimal notation
// ---------------------------------------------------------------------------

/// Name for the SHA-256 digest of a byte sequence.
pub uninterp spec fn sha256(data: Seq<u8>) -> Seq<u8>;

/// SHA-256 digest of `data`.
///
/// Calls `sha2::Sha256::digest`; its output is the 32-byte SHA-256 digest,
/// a function of the input bytes alone.
#[verifier::external_body]
fn sha256_digest(data: &Vec<u8>) -> (r: Vec<u8>)
    ensures
        r@ == sha256(data@),
        r@.len() == 32,
{
    sha2::Sha256::digest(data.as_slice()).to_vec()
}

/// Lower-case hexadecimal digit for `d < 16`.
pub open spec fn hex_digit(d: nat) -> char {
    if d < 10 {
        ((d + 48) as u32) as char
    } else {
        ((d + 87) as u32) as char
    }
}

/// Lower-case hexadecimal notation of bytes, two digits per byte.
pub open spec fn hex(b: Seq<u8>) -> Seq<char>
    decreases b.len(),
{
    if b.len() == 0 {
        Seq::empty()
    } else {
        hex(b.drop_last()) + seq![hex_digit(b.last() as nat / 16), hex_digit(b.last() as nat % 16)]
    }
}

/// Two hexadecimal digits per byte.
pub proof fn lemma_hex_len(b: Seq<u8>)
    ensures
        hex(b).len() == 2 * b.len(),
    decreases b.len(),
{
    if b.len() > 0 {
        lemma_hex_len(b.drop_last());
    }
}

/// Hexadecimal digit of `d < 16`.
fn hex_digit_of(d: u8) -> (c: char)
    requires
        d < 16,
    ensures
        c == hex_digit(d as nat),
{
    if d < 10 {
        ((d + 48) as u8) as char
    } else {
        ((d + 87) as u8) as char
    }
}

/// Lower-case hexadecimal notation of `b`.
fn hex_of(b: &Vec<u8>) -> (r: Vec<char>)
    ensures
        r@ == hex(b@),
{
    let mut r: Vec<char> = Vec::new();
    let mut i: usize = 0;
    while i < b.len()
        invariant
            i <= b.len(),
            r@ == hex(b@.take(i as int)),
        decreases b.len() - i,
    {
        let x = b[i];
        r.push(hex_digit_of(x / 16));
        r.push(hex_digit_of(x % 16));
        proof {
            let t = b@.take(i + 1);
            assert(t.drop_last() == b@.take(i as int));
            assert(t.last() == x);
        }
        i = i + 1;
    }
    assert(b@.take(b.len() as int) == b@);
    r
}

/// Hexadecimal SHA-256 digest of `data`.
pub open spec fn digest_hex(data: Seq<u8>) -> Seq<char> {
    hex(sha256(data))
}

/// Hexadecimal SHA-256 digest of `data`.
fn hex_digest(data: &Vec<u8>) -> (r: Vec<char>)
    ensures
        r@ == digest_hex(data@),
{
    let d = sha256_digest(data);
    hex_of(&d)
}

// ---------------------------------------------------------------------------
// Length-prefixed fields
// ---------------------------------------------------------------------------

/// The `k` low bytes of `n`, least significant first.
pub open spec fn le_bytes(n: nat, k: nat) -> Seq<u8>
    decreases k,
{
    if k == 0 {
        Seq::empty()
    } else {
        seq![(n % 256) as u8] + le_bytes(n / 256, (k - 1) as nat)
    }
}

/// Fields, each preceded by its length as 8 little-endian bytes.
pub open spec fn frame(fields: Seq<Seq<u8>>) -> Seq<u8>
    decreases fields.len(),
{
    if fields.len() == 0 {
        Seq::empty()
    } else {
        le_bytes(fields[0].len(), 8) + fields[0] + frame(fields.drop_first())
    }
}

/// Appends `n` as 8 little-endian bytes.
fn push_u64_le(out: &mut Vec<u8>, n: u64)
    ensures
        final(out)@ == old(out)@ + le_bytes(n as nat, 8),
{
    let ghost start = out@;
    let mut x = n;
    let mut k: usize = 0;
    while k < 8
        invariant
            k <= 8,
            out@ + le_bytes(x as nat, (8 - k) as nat) == start + le_bytes(n as nat, 8),
        decreases 8 - k,
    {
        let ghost before = out@;
        out.push((x % 256) as u8);
        proof {
            assert(le_bytes(x as nat, (8 - k) as nat) == seq![(x % 256) as u8] + le_bytes(
                (x / 256) as nat,
                (8 - k - 1) as nat,
            ));
            assert(out@ + le_bytes((x / 256) as nat, (8 - k - 1) as nat) =~= before + le_bytes(
                x as nat,
                (8 - k) as nat,
            ));
        }
        x = x / 256;
        k = k + 1;
    }
    assert(le_bytes(x as nat, 0) =~= Seq::<u8>::empty());
    assert(out@ =~= start + le_bytes(n as nat, 8));
}

/// The UTF-8 bytes of `s`.
pub fn bytes_of(s: &str) -> (r: Vec<u8>)
    ensures
        r@ == encode_utf8(s@),
{
    let b = s.as_bytes();
    let mut r: Vec<u8> = Vec::new();
    let mut i: usize = 0;
    while i < b.len()
        invariant
            i <= b@.len(),
            b@ == encode_utf8(s@),
            r@ == b@.take(i as int),
        decreases b.len() - i,
    {
        r.push(b[i]);
        i = i + 1;
    }
    assert(b@.take(b@.len() as int) == b@);
    r
}

/// Frame of a list of fields, built incrementally from the back.
proof fn lemma_frame_push(fields: Seq<Seq<u8>>, f: Seq<u8>)
    ensures
        frame(fields.push(f)) == frame(fields) + le_bytes(f.len(), 8) + f,
    decreases fields.len(),
{
    if fields.len() == 0 {
        let g = fields.push(f);
        assert(g.drop_first() =~= Seq::<Seq<u8>>::empty());
        assert(g[0] == f);
        assert(frame(g.drop_first()) == Seq::<u8>::empty());
        assert(frame(g) == le_bytes(f.len(), 8) + f + Seq::<u8>::empty());
        assert(frame(fields) == Seq::<u8>::empty());
        assert(frame(g) =~= frame(fields) + le_bytes(f.len(), 8) + f);
    } else {
        assert(fields.push(f).drop_first() == fields.drop_first().push(f));
        lemma_frame_push(fields.drop_first(), f);
        assert(frame(fields.push(f)) =~= frame(fields) + le_bytes(f.len(), 8) + f);
    }
}

/// Hexadecimal SHA-256 digest of the framed fields.
pub open spec fn fields_hash(fields: Seq<Seq<u8>>) -> Seq<char> {
    digest_hex(frame(fields))
}

/// Hashes fields, each preceded by its length, so that different lists of
/// fields never hash the same bytes.
pub fn hash_fields(fields: &Vec<Vec<u8>>) -> (r: String)
    ensures
        r@ == fields_hash(fields@.map_values(|f: Vec<u8>| f@)),
{
    let ghost views = fields@.map_values(|f: Vec<u8>| f@);
    let mut data: Vec<u8> = Vec::new();
    let mut i: usize = 0;
    while i < fields.len()
        invariant
            i <= fields.len(),
            views == fields@.map_values(|f: Vec<u8>| f@),
            data@ == frame(views.take(i as int)),
        decreases fields.len() - i,
    {
        let field = &fields[i];
        push_u64_le(&mut data, field.len() as u64);
        let mut k: usize = 0;
        let ghost mid = data@;
        while k < field.len()
            invariant
                k <= field.len(),
                data@ == mid + field@.take(k as int),
            decreases field.len() - k,
        {
            data.push(field[k]);
            k = k + 1;
        }
        proof {
            assert(field@.take(field.len() as int) == field@);
            assert(views.take(i + 1) == views.take(i as int).push(field@));
            lemma_frame_push(views.take(i as int), field@);
        }
        i = i + 1;
    }
    assert(views.take(fields.len() as int) == views);
    let h = hex_digest(&data);
    string_of(&h)
}

// ---------------------------------------------------------------------------
// Identities
// ---------------------------------------------------------------------------

/// Version of the helper scripts that interpreters load; part of every
/// identity so that a change of the scripts invalidates the cache.
pub const SCRIPTS_VERSION: &'static str = "knot-scripts-2";

/// `true` or `false`, as `Display` writes a boolean.
pub open spec fn bool_text(b: bool) -> Seq<char> {
    if b {
        "true"@
    } else {
        "false"@
    }
}

/// The execution options that enter a chunk's identity:
/// `eval|width|height|dpi|format`.
pub open spec fn execution_options_text(o: ChunkOptions) -> Seq<char> {
    bool_text(or_default(o.eval, true)) + "|"@ + (match o.fig_width {
        Some(w) => w@,
        None => crate::ast::DEFAULT_FIG_WIDTH@,
    }) + "|"@ + (match o.fig_height {
        Some(h) => h@,
        None => crate::ast::DEFAULT_FIG_HEIGHT@,
    }) + "|"@ + decimal(or_default(o.dpi, crate::ast::DEFAULT_DPI) as nat) + "|"@
        + fig_format_debug(or_default(o.fig_format, crate::ast::FigFormat::Svg))
}

/// Identity of the list of frozen names.
pub open spec fn freeze_hash(names: Seq<String>) -> Seq<char> {
    fields_hash(names.map_values(|n: String| encode_utf8(n@)))
}

/// Fields of a chunk's identity. Presentation options are not among them: a
/// cached result is rendered again with the current presentation.
pub open spec fn chunk_identity(
    language: Seq<char>,
    code: Seq<char>,
    options: ChunkOptions,
    previous_hash: Seq<char>,
    dependencies_hash: Seq<char>,
    scripts_version: Seq<char>,
) -> Seq<Seq<u8>> {
    seq![
        encode_utf8("knot-cache-v2"@),
        encode_utf8("chunk"@),
        encode_utf8(language),
        encode_utf8(code),
        encode_utf8(execution_options_text(options)),
        encode_utf8(freeze_hash(options.freeze@)),
        encode_utf8(previous_hash),
        encode_utf8(dependencies_hash),
        encode_utf8(scripts_version),
    ]
}

/// `Debug` notation of the number of digits.
pub open spec fn digits_text(d: Option<u32>) -> Seq<char> {
    match d {
        Some(d) => "Some("@ + decimal(d as nat) + ")"@,
        None => "None"@,
    }
}

/// Fields of an inline expression's identity, rendering options included
/// (its cache entry holds the rendered text).
pub open spec fn inline_identity(
    language: Seq<char>,
    code: Seq<char>,
    options: InlineOptions,
    previous_hash: Seq<char>,
) -> Seq<Seq<u8>> {
    let r = resolve_inline(options);
    seq![
        encode_utf8("knot-cache-v2"@),
        encode_utf8("inline"@),
        encode_utf8(language),
        encode_utf8(code),
        encode_utf8(
            show_debug(r.show) + "|"@ + bool_text(r.eval) + "|"@ + digits_text(r.digits),
        ),
        encode_utf8(previous_hash),
        encode_utf8(SCRIPTS_VERSION@),
    ]
}

/// Appends `true` or `false`.
fn push_bool(out: &mut Vec<char>, b: bool)
    ensures
        final(out)@ == old(out)@ + bool_text(b),
{
    if b {
        push_str(out, "true");
    } else {
        push_str(out, "false");
    }
}

/// Identity of a chunk for a given version of the helper scripts.
pub fn chunk_hash_with_version(
    language: &str,
    code: &str,
    options: &ChunkOptions,
    previous_hash: &str,
    dependencies_hash: &str,
    scripts_version: &str,
) -> (r: String)
    ensures
        r@ == fields_hash(
            chunk_identity(
                language@,
                code@,
                *options,
                previous_hash@,
                dependencies_hash@,
                scripts_version@,
            ),
        ),
{
    let resolved = options.resolve();
    let mut opts: Vec<char> = Vec::new();
    push_bool(&mut opts, resolved.eval);
    push_str(&mut opts, "|");
    push_str(&mut opts, resolved.fig_width.as_str());
    push_str(&mut opts, "|");
    push_str(&mut opts, resolved.fig_height.as_str());
    push_str(&mut opts, "|");
    push_decimal(&mut opts, resolved.dpi as u64);
    push_str(&mut opts, "|");
    push_str(&mut opts, resolved.fig_format.debug_name());
    let opts_s = string_of(&opts);
    let mut names: Vec<Vec<u8>> = Vec::new();
    let mut i: usize = 0;
    while i < options.freeze.len()
        invariant
            i <= options.freeze.len(),
            names@.len() == i,
            forall|k: int| 0 <= k < i ==> #[trigger] names@[k]@ == encode_utf8(options.freeze@[k]@),
        decreases options.freeze.len() - i,
    {
        names.push(bytes_of(options.freeze[i].as_str()));
        i = i + 1;
    }
    proof {
        assert(names@.map_values(|f: Vec<u8>| f@) =~= options.freeze@.map_values(
            |n: String| encode_utf8(n@),
        ));
    }
    let freeze = hash_fields(&names);
    let mut fields: Vec<Vec<u8>> = Vec::new();
    fields.push(bytes_of("knot-cache-v2"));
    fields.push(bytes_of("chunk"));
    fields.push(bytes_of(language));
    fields.push(bytes_of(code));
    fields.push(bytes_of(opts_s.as_str()));
    fields.push(bytes_of(freeze.as_str()));
    fields.push(bytes_of(previous_hash));
    fields.push(bytes_of(dependencies_hash));
    fields.push(bytes_of(scripts_version));
    proof {
        assert(fields@.map_values(|f: Vec<u8>| f@) =~= chunk_identity(
            language@,
            code@,
            *options,
            previous_hash@,
            dependencies_hash@,
            scripts_version@,
        ));
    }
    hash_fields(&fields)
}

/// Execution identity of a chunk: its language, code, execution options,
/// frozen names, the identity of the previous chunk of its language, the
/// identity of its dependencies and the version of the helper scripts.
pub fn get_chunk_hash(
    language: &str,
    code: &str,
    options: &ChunkOptions,
    previous_hash: &str,
    dependencies_hash: &str,
) -> (r: String)
    ensures
        r@ == fields_hash(
            chunk_identity(
                language@,
                code@,
                *options,
                previous_hash@,
                dependencies_hash@,
                SCRIPTS_VERSION@,
            ),
        ),
{
    chunk_hash_with_version(
        language,
        code,
        options,
        previous_hash,
        dependencies_hash,
        SCRIPTS_VERSION,
    )
}

/// Identity of an inline expression: its language, code, rendering options,
/// the identity of the previous node of its language and the version of the
/// helper scripts.
pub fn get_inline_expr_hash(
    language: &str,
    code: &str,
    options: &InlineOptions,
    previous_hash: &str,
) -> (r: String)
    ensures
        r@ == fields_hash(inline_identity(language@, code@, *options, previous_hash@)),
{
    let resolved = options.resolve();
    let mut opts: Vec<char> = Vec::new();
    push_str(&mut opts, resolved.show.debug_name());
    push_str(&mut opts, "|");
    push_bool(&mut opts, resolved.eval);
    push_str(&mut opts, "|");
    match resolved.digits {
        Some(d) => {
            push_str(&mut opts, "Some(");
            push_decimal(&mut opts, d as u64);
            push_str(&mut opts, ")");
        },
        None => {
            push_str(&mut opts, "None");
        },
    }
    assert(opts@ =~= show_debug(resolved.show) + "|"@ + bool_text(resolved.eval) + "|"@
        + digits_text(resolved.digits));
    let opts_s = string_of(&opts);
    let mut fields: Vec<Vec<u8>> = Vec::new();
    fields.push(bytes_of("knot-cache-v2"));
    fields.push(bytes_of("inline"));
    fields.push(bytes_of(language));
    fields.push(bytes_of(code));
    fields.push(bytes_of(opts_s.as_str()));
    fields.push(bytes_of(previous_hash));
    fields.push(bytes_of(SCRIPTS_VERSION));
    proof {
        assert(fields@.map_values(|f: Vec<u8>| f@) =~= inline_identity(
            language@,
            code@,
            *options,
            previous_hash@,
        ));
    }
    hash_fields(&fields)
}

/// Hexadecimal SHA-256 digest of a file's contents, for integrity checks.
pub fn hash_file_contents(contents: &Vec<u8>) -> (r: String)
    ensures
        r@ == digest_hex(contents@),
        r@.len() == 64,
{
    let d = sha256_digest(contents);
    proof {
        lemma_hex_len(d@);
    }
    let h = hex_of(&d);
    string_of(&h)
}

// ---------------------------------------------------------------------------
// Dependencies
// ---------------------------------------------------------------------------

/// A file a chunk depends on: its path and its contents, `None` when it does
/// not exist.
pub struct DependencyFile {
    pub path: String,
    pub contents: Option<Vec<u8>>,
}

/// Why the identity of a chunk could not be computed.
#[derive(Debug, Clone, PartialEq, Eq)]
pub enum HashError {
    /// A `depends` file does not exist.
    DependencyNotFound(String),
}

impl HashError {
    /// Text of the error.
    pub fn message(&self) -> (r: String)
        ensures
            self matches HashError::DependencyNotFound(p) ==> r@ == "Dependency not found: \""@
                + p@ + "\""@,
    {
        match self {
            HashError::DependencyNotFound(p) => {
                let mut m: Vec<char> = Vec::new();
                push_str(&mut m, "Dependency not found: \"");
                push_str(&mut m, p.as_str());
                push_str(&mut m, "\"");
                string_of(&m)
            },
        }
    }
}

/// A dependency as a path and optional contents.
pub open spec fn dep_view(d: DependencyFile) -> (Seq<char>, Option<Seq<u8>>) {
    (
        d.path@,
        match d.contents {
            Some(c) => Some(c@),
            None => None,
        },
    )
}

/// Bytes hashed for the first `k` dependencies: each path, then the SHA-256
/// digest of its contents.
pub open spec fn dependencies_data(deps: Seq<(Seq<char>, Option<Seq<u8>>)>, k: int) -> Seq<u8>
    decreases k,
{
    if k <= 0 {
        Seq::empty()
    } else {
        dependencies_data(deps, k - 1) + encode_utf8(deps[k - 1].0) + sha256(
            deps[k - 1].1->0,
        )
    }
}

/// Index of the first dependency that does not exist.
pub open spec fn first_missing(deps: Seq<(Seq<char>, Option<Seq<u8>>)>, from: int) -> Option<int>
    decreases deps.len() - from,
{
    if from < 0 || from >= deps.len() {
        None
    } else if deps[from].1 is None {
        Some(from)
    } else {
        first_missing(deps, from + 1)
    }
}

/// Identity of the contents of the dependency files: empty without
/// dependencies; the first missing file is an error naming its path.
pub open spec fn dependencies_hash(deps: Seq<(Seq<char>, Option<Seq<u8>>)>) -> Result<
    Seq<char>,
    Seq<char>,
> {
    if deps.len() == 0 {
        Ok(Seq::empty())
    } else {
        match first_missing(deps, 0) {
            Some(i) => Err(deps[i].0),
            None => Ok(digest_hex(dependencies_data(deps, deps.len() as int))),
        }
    }
}

/// The error of a computation as the path it names.
pub open spec fn hash_result_view(r: Result<String, HashError>) -> Result<Seq<char>, Seq<char>> {
    match r {
        Ok(h) => Ok(h@),
        Err(HashError::DependencyNotFound(p)) => Err(p@),
    }
}

/// Identity of the dependency files of a chunk: the path of each file, to
/// detect renames, and the digest of its contents. Empty without dependencies.
pub fn hash_dependencies(deps: &Vec<DependencyFile>) -> (r: Result<String, HashError>)
    ensures
        hash_result_view(r) == dependencies_hash(deps@.map_values(|d: DependencyFile| dep_view(d))),
{
    let ghost dv = deps@.map_values(|d: DependencyFile| dep_view(d));
    if deps.len() == 0 {
        return Ok(string_of(&Vec::new()));
    }
    let mut data: Vec<u8> = Vec::new();
    let mut i: usize = 0;
    while i < deps.len()
        invariant
            i <= deps.len(),
            deps@.len() > 0,
            dv == deps@.map_values(|d: DependencyFile| dep_view(d)),
            first_missing(dv, 0) == first_missing(dv, i as int),
            data@ == dependencies_data(dv, i as int),
        decreases deps.len() - i,
    {
        let dep = &deps[i];
        assert(dv[i as int] == dep_view(*dep));
        match &dep.contents {
            None => {
                return Err(HashError::DependencyNotFound(dep.path.clone()));
            },
            Some(contents) => {
                let p = bytes_of(dep.path.as_str());
                let mut k: usize = 0;
                let ghost mid = data@;
                while k < p.len()
                    invariant
                        k <= p.len(),
                        data@ == mid + p@.take(k as int),
                    decreases p.len() - k,
                {
                    data.push(p[k]);
                    k = k + 1;
                }
                assert(p@.take(p.len() as int) == p@);
                let d = sha256_digest(contents);
                let mut k: usize = 0;
                let ghost mid2 = data@;
                while k < d.len()
                    invariant
                        k <= d.len(),
                        data@ == mid2 + d@.take(k as int),
                    decreases d.len() - k,
                {
                    data.push(d[k]);
                    k = k + 1;
                }
                assert(d@.take(d.len() as int) == d@);
            },
        }
        i = i + 1;
    }
    let h = hex_digest(&data);
    Ok(string_of(&h))
}

/// The dependencies of a chunk resolved against the project root, with
/// the given contents.
pub open spec fn resolved_dependencies(
    root: Seq<char>,
    depends: Seq<String>,
    contents: Seq<Option<Vec<u8>>>,
) -> Seq<(Seq<char>, Option<Seq<u8>>)> {
    Seq::new(
        depends.len(),
        |k: int|
            (
                crate::sync::path_join(root, depends[k]@),
                match contents[k] {
                    Some(c) => Some(c@),
                    None => None,
                },
            ),
    )
}

/// Identity of a chunk whose `depends` files, resolved against
/// `project_root`, have the given contents (`None` for a missing file).
pub fn compute_hash(
    language: &str,
    code: &str,
    options: &ChunkOptions,
    previous_hash: &str,
    project_root: &str,
    contents: &Vec<Option<Vec<u8>>>,
) -> (r: Result<String, HashError>)
    requires
        contents@.len() == options.depends@.len(),
    ensures
        match dependencies_hash(resolved_dependencies(project_root@, options.depends@, contents@)) {
            Err(p) => hash_result_view(r) == Err::<Seq<char>, Seq<char>>(p),
            Ok(d) => hash_result_view(r) == Ok::<Seq<char>, Seq<char>>(
                fields_hash(
                    chunk_identity(language@, code@, *options, previous_hash@, d, SCRIPTS_VERSION@),
                ),
            ),
        },
{
    let mut deps: Vec<DependencyFile> = Vec::new();
    let mut i: usize = 0;
    while i < options.depends.len()
        invariant
            i <= options.depends.len(),
            contents@.len() == options.depends@.len(),
            deps@.len() == i,
            forall|k: int|
                0 <= k < i ==> dep_view(#[trigger] deps@[k]) == resolved_dependencies(
                    project_root@,
                    options.depends@,
                    contents@,
                )[k],
        decreases options.depends.len() - i,
    {
        let rel = chars_of(options.depends[i].as_str());
        let path = crate::sync::join_path(project_root, &rel);
        let c = match &contents[i] {
            Some(v) => Some(v.clone()),
            None => None,
        };
        deps.push(DependencyFile { path, contents: c });
        i = i + 1;
    }
    proof {
        assert(deps@.map_values(|d: DependencyFile| dep_view(d)) =~= resolved_dependencies(
            project_root@,
            options.depends@,
            contents@,
        ));
    }
    let deps_hash = hash_dependencies(&deps)?;
    Ok(get_chunk_hash(language, code, options, previous_hash, deps_hash.as_str()))
}

} // verus!
