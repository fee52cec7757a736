use knot::ast::{ChunkOptions, InlineOptions, Show};
use knot::cache::{Cache, CacheMetadata};
use knot::hashing::{
    chunk_hash_with_version, compute_hash, get_chunk_hash, get_inline_expr_hash, hash_fields,
};

fn new_cache() -> Cache {
    Cache::new(".knot_cache/test".to_string(), CacheMetadata::default())
}

fn chunk_options(eval: bool) -> ChunkOptions {
    ChunkOptions { eval: Some(eval), ..Default::default() }
}

#[test]
fn identity_includes_language_scripts_graphics_freeze_and_dependencies() {
    let base = ChunkOptions::default();
    let hash = |lang: &str, options: &ChunkOptions, prev: &str, deps: &str, version: &str| {
        chunk_hash_with_version(lang, "print(1)", options, prev, deps, version)
    };
    let original = hash("r", &base, "", "", "v1");
    assert_ne!(original, hash("python", &base, "", "", "v1"));
    assert_ne!(original, hash("r", &base, "", "", "v2"));
    assert_ne!(original, hash("r", &base, "prefix", "", "v1"));
    assert_ne!(original, hash("r", &base, "", "data", "v1"));
    let mut changed = base.clone();
    changed.fig_width = Some("99".to_string());
    assert_ne!(original, hash("r", &changed, "", "", "v1"));
    changed = base.clone();
    changed.freeze = vec!["x".into()];
    assert_ne!(original, hash("r", &changed, "", "", "v1"));
    changed = base;
    changed.show = Some(Show::Hidden);
    changed.cache = Some(false);
    assert_eq!(original, hash("r", &changed, "", "", "v1"));
}

#[test]
fn field_boundaries_and_inline_language_cannot_collide() {
    assert_ne!(
        hash_fields(&vec![b"a".to_vec(), b"bc".to_vec()]),
        hash_fields(&vec![b"ab".to_vec(), b"c".to_vec()])
    );
    assert_ne!(
        get_inline_expr_hash("r", "1", &InlineOptions::default(), ""),
        get_inline_expr_hash("python", "1", &InlineOptions::default(), "")
    );
}

#[test]
fn test_compute_hash_consistency() {
    let options = chunk_options(false);
    let hash1 = compute_hash("r", "x <- 1", &options, "prev_hash", "", &vec![]).unwrap();
    let hash2 = compute_hash("r", "x <- 1", &options, "prev_hash", "", &vec![]).unwrap();
    assert_eq!(hash1, hash2);
}

#[test]
fn test_compute_hash_changes_with_code() {
    let options = chunk_options(false);
    let hash1 = compute_hash("r", "x <- 1", &options, "prev", "", &vec![]).unwrap();
    let hash2 = compute_hash("r", "x <- 2", &options, "prev", "", &vec![]).unwrap();
    assert_ne!(hash1, hash2);
}

#[test]
fn test_compute_hash_changes_with_previous() {
    let options = chunk_options(false);
    let hash1 = compute_hash("r", "x <- 1", &options, "prev_1", "", &vec![]).unwrap();
    let hash2 = compute_hash("r", "x <- 1", &options, "prev_2", "", &vec![]).unwrap();
    assert_ne!(hash1, hash2);
}

#[test]
fn test_compute_hash_includes_dependencies() {
    let mut options = chunk_options(false);
    options.depends = vec!["dep1.txt".to_string()];
    let hash1 =
        compute_hash("r", "x <- 1", &options, "prev", "/project", &vec![Some(b"content1".to_vec())])
            .unwrap();
    options.depends = vec!["dep2.txt".to_string()];
    let hash2 =
        compute_hash("r", "x <- 1", &options, "prev", "/project", &vec![Some(b"content2".to_vec())])
            .unwrap();
    assert_ne!(hash1, hash2);
}

#[test]
fn missing_dependency_fails_the_identity() {
    let mut options = chunk_options(true);
    options.depends = vec!["data.csv".to_string()];
    let error = compute_hash("r", "x <- 1", &options, "", "/project", &vec![None]).unwrap_err();
    assert_eq!(error.message(), "Dependency not found: \"/project/data.csv\"");
}

#[test]
fn cache_test_hash_chaining_basic() {
    let opts = ChunkOptions::default();
    let hash1 = get_chunk_hash("r", "x <- 1", &opts, "", "");
    let hash2 = get_chunk_hash("r", "y <- x + 1", &opts, &hash1, "");
    let hash3 = get_chunk_hash("r", "z <- y * 2", &opts, &hash2, "");
    let hash1_mod = get_chunk_hash("r", "x <- 2", &opts, "", "");
    let hash2_after = get_chunk_hash("r", "y <- x + 1", &opts, &hash1_mod, "");
    let hash3_after = get_chunk_hash("r", "z <- y * 2", &opts, &hash2_after, "");
    assert_ne!(hash1, hash1_mod);
    assert_ne!(hash2, hash2_after);
    assert_ne!(hash3, hash3_after);
}

#[test]
fn mod_test_hash_chaining_basic() {
    let _cache = new_cache();
    let opts = ChunkOptions::default();
    let hash1 = get_chunk_hash("r", "x <- 1", &opts, "", "");
    let hash2 = get_chunk_hash("r", "y <- x + 1", &opts, &hash1, "");
    let hash3 = get_chunk_hash("r", "z <- y * 2", &opts, &hash2, "");
    let hash1_mod = get_chunk_hash("r", "x <- 2", &opts, "", "");
    let hash2_after = get_chunk_hash("r", "y <- x + 1", &opts, &hash1_mod, "");
    let hash3_after = get_chunk_hash("r", "z <- y * 2", &opts, &hash2_after, "");
    assert_ne!(hash1, hash1_mod);
    assert_ne!(hash2, hash2_after);
    assert_ne!(hash3, hash3_after);
}

#[test]
fn cache_test_options_affect_hash() {
    let opts1 = chunk_options(true);
    let opts2 = chunk_options(false);
    let hash1 = get_chunk_hash("r", "x <- 1", &opts1, "", "");
    let hash2 = get_chunk_hash("r", "x <- 1", &opts2, "", "");
    assert_ne!(hash1, hash2);
}

#[test]
fn mod_test_options_affect_hash() {
    let _cache = new_cache();
    let opts1 = chunk_options(true);
    let opts2 = chunk_options(false);
    let hash1 = get_chunk_hash("r", "x <- 1", &opts1, "", "");
    let hash2 = get_chunk_hash("r", "x <- 1", &opts2, "", "");
    assert_ne!(hash1, hash2);
}

#[test]
fn identities_are_lowercase_hex_digests() {
    let h = get_chunk_hash("r", "x <- 1", &ChunkOptions::default(), "", "");
    assert_eq!(h.len(), 64);
    assert!(h.chars().all(|c| c.is_ascii_hexdigit() && !c.is_ascii_uppercase()));
}

#[test]
fn sha256_of_empty_fields_is_the_digest_of_their_framing() {
    // No field: the digest of no bytes at all.
    assert_eq!(
        hash_fields(&vec![]),
        "e3b0c44298fc1c149afbf4c8996fb92427ae41e4649b934ca495991b7852b855"
    );
}
