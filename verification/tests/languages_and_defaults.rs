use knot::defaults::{
    canonical_language, non_reusable_snapshot_message, startup_timeout,
    unsupported_language_message, Defaults, Language,
};
use std::time::Duration;

fn startup(chunk_timeout: Duration) -> Duration {
    Duration::from_nanos(startup_timeout(chunk_timeout.as_nanos()) as u64)
}

#[test]
fn language_from_str_accepts_supported_names_and_aliases() {
    for (input, expected) in [
        ("r", Language::R),
        ("R", Language::R),
        ("python", Language::Python),
        ("Python", Language::Python),
        ("PYTHON", Language::Python),
        ("py", Language::Python),
        ("Py", Language::Python),
    ] {
        assert_eq!(input.parse::<Language>(), Ok(expected), "input: {input:?}");
    }
}

#[test]
fn language_from_str_rejects_unknown_empty_and_padded_names() {
    for input in ["julia", "", "R ", " python", "py\n"] {
        assert!(input.parse::<Language>().is_err(), "input: {input:?}");
    }
}

#[test]
fn test_system_constants_not_empty() {
    assert_ne!(Defaults::BOUNDARY_MARKER, "");
    assert_ne!(Defaults::CACHE_DIR_NAME, "");
}

#[test]
fn startup_is_never_limited_by_a_short_chunk_timeout() {
    let long = Duration::from_secs(600);
    assert_eq!(
        startup(Duration::from_millis(500)),
        Duration::from_secs(Defaults::INTERPRETER_STARTUP_TIMEOUT_SECS)
    );
    assert_eq!(startup(long), long);
}

#[test]
fn language_tags_are_canonical_names() {
    assert_eq!(canonical_language("Py"), "python");
    assert_eq!(canonical_language("R"), "r");
    assert_eq!(canonical_language("julia"), "julia");
}

#[test]
fn unsupported_languages_are_explained() {
    assert_eq!(unsupported_language_message("python"), None);
    assert_eq!(
        unsupported_language_message("julia").unwrap(),
        "Unsupported language 'julia': Knot executes r and python. Add '#| eval: false' to display this code without running it."
    );
    assert_eq!(Language::parse("julia"), Err("Unsupported language: 'julia'".to_string()));
}

#[test]
fn non_reusable_snapshots_name_the_language() {
    let m = non_reusable_snapshot_message("python");
    assert!(m.starts_with("The python session after this chunk cannot be saved"));
    assert!(m.ends_with("(snapshots: {python: false})."));
}

#[test]
fn the_supported_languages_are_r_and_python() {
    assert_eq!(Defaults::supported_languages(), vec![Language::R, Language::Python]);
}
