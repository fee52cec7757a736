use knot::ast::{Chunk, ChunkOptions, Show};
use knot::compiler::ChunkExecutionState;
use knot::config::{
    edit_distance, merge_codly, overlay, resolve_options, suggestion, unknown_key_message,
    ChunkDefaults, Config,
};

fn create_test_chunk(language: &str, code: &str, eval: bool) -> Chunk {
    Chunk {
        index: 0,
        language: language.to_string(),
        code: code.to_string(),
        name: None,
        options: ChunkOptions { eval: Some(eval), ..Default::default() },
        codly_options: vec![],
        errors: vec![],
        start_line: 0,
        start_byte: 0,
        end_byte: 0,
    }
}

fn defaults_showing(show: Show) -> ChunkDefaults {
    ChunkDefaults {
        options: ChunkOptions { show: Some(show), ..Default::default() },
        ..Default::default()
    }
}

#[test]
fn test_resolve_options_language_specific_defaults() {
    let mut chunk = create_test_chunk("r", "x <- 1", true);
    chunk.options.show = None;
    let config = Config { r_chunks: Some(defaults_showing(Show::Output)), ..Default::default() };
    let (_, resolved, _) = resolve_options(&chunk, &config, &ChunkExecutionState::Ready);
    assert_eq!(resolved.show, Show::Output);
}

#[test]
fn test_resolve_options_chunk_overrides_language_defaults() {
    let mut chunk = create_test_chunk("r", "x <- 1", true);
    chunk.options.show = Some(Show::Both);
    let config = Config { r_chunks: Some(defaults_showing(Show::Output)), ..Default::default() };
    let (_, resolved, _) = resolve_options(&chunk, &config, &ChunkExecutionState::Ready);
    assert_eq!(resolved.show, Show::Both);
}

#[test]
fn test_resolve_options_global_fallback() {
    let mut chunk = create_test_chunk("python", "x = 1", true);
    chunk.options.show = None;
    let config = Config { chunk_defaults: defaults_showing(Show::Output), ..Default::default() };
    let (_, resolved, _) = resolve_options(&chunk, &config, &ChunkExecutionState::Ready);
    assert_eq!(resolved.show, Show::Output);
}

#[test]
fn error_defaults_apply_only_to_inert_chunks() {
    let mut chunk = create_test_chunk("r", "x", true);
    chunk.options.show = None;
    let config = Config { r_error: Some(defaults_showing(Show::Code)), ..Default::default() };
    let (_, ready, _) = resolve_options(&chunk, &config, &ChunkExecutionState::Ready);
    let (_, inert, _) = resolve_options(&chunk, &config, &ChunkExecutionState::Inert);
    assert_eq!(ready.show, Show::Both);
    assert_eq!(inert.show, Show::Code);
}

#[test]
fn chunk_codly_options_override_the_configuration() {
    let mut chunk = create_test_chunk("r", "x", true);
    chunk.codly_options = vec![("stroke".into(), "red".into())];
    let mut config = Config::default();
    config.chunk_defaults.codly_options =
        vec![("stroke".into(), "blue".into()), ("radius".into(), "2pt".into())];
    let (_, _, codly) = resolve_options(&chunk, &config, &ChunkExecutionState::Ready);
    let mut codly = codly;
    codly.sort();
    assert_eq!(
        codly,
        vec![("radius".to_string(), "2pt".to_string()), ("stroke".to_string(), "red".to_string())]
    );
    assert_eq!(
        merge_codly(&vec![("a".into(), "1".into())], &vec![("a".into(), "2".into())]),
        vec![("a".to_string(), "2".to_string())]
    );
}

#[test]
fn overlay_keeps_what_the_chunk_sets() {
    let base = ChunkOptions { eval: Some(false), caption: Some("base".into()), ..Default::default() };
    let over = ChunkOptions { caption: Some("mine".into()), ..Default::default() };
    let r = overlay(&base, &over);
    assert_eq!(r.eval, Some(false));
    assert_eq!(r.caption.as_deref(), Some("mine"));
}

#[test]
fn unknown_key_messages_suggest_close_names() {
    let sections = vec!["document", "execution", "chunk-defaults", "codly", "r-chunks"];
    assert_eq!(suggestion("chunk-defualts", &sections), Some("chunk-defaults"));
    assert_eq!(
        unknown_key_message("includes_", "[document]", &vec!["main", "includes"]),
        "knot.toml: unknown key 'includes_' in [document] is ignored. Did you mean 'includes'?"
    );
    assert_eq!(
        unknown_key_message("timeout_secs", "[execution]", &vec!["timeout-secs"]),
        "knot.toml: unknown key 'timeout_secs' in [execution] is ignored. Did you mean 'timeout-secs'?"
    );
    assert_eq!(
        unknown_key_message("colour", "[r-chunks]", &vec!["eval", "show", "cache"]),
        "knot.toml: unknown key 'colour' in [r-chunks] is ignored."
    );
    assert_eq!(
        unknown_key_message("x", "at the top level", &vec!["document"]),
        "knot.toml: unknown key 'x' at the top level is ignored."
    );
}

#[test]
fn edit_distances_count_single_character_edits() {
    assert_eq!(edit_distance("kitten", "sitting"), 3);
    assert_eq!(edit_distance("", "abc"), 3);
    assert_eq!(edit_distance("same", "same"), 0);
}

#[test]
fn a_valid_configuration_has_no_warning() {
    let toml = "[document]\nmain = 'main.knot'\n\n[execution]\ntimeout-secs = 5\n\n[chunk-defaults]\nfig-width = 5\ncode-stroke = '1pt'\ncodly-zebra-fill = 'none'\n\n[codly]\nanything = 'passed to codly'\n";
    assert_eq!(knot::config_keys::config_warnings(toml), Some(Vec::<String>::new()));
}

#[test]
fn unknown_sections_and_section_keys_are_reported() {
    let warnings = knot::config_keys::config_warnings(
        "stray = 1\n[document]\nmain = 'main.knot'\nincludes_ = []\n\n[execution]\ntimeout_secs = 5\n\n[chunk-defualts]\neval = true\n\n[helpers]\ntypst = 'lib/knot.typ'\n",
    )
    .unwrap();
    let mut sorted = warnings.clone();
    sorted.sort();
    let mut expected = vec![
        "knot.toml: unknown section [chunk-defualts] is ignored. Did you mean [chunk-defaults]?".to_string(),
        "knot.toml: the [helpers] section is no longer used (the Knot Typst library is embedded) and is ignored.".to_string(),
        "knot.toml: unknown key 'includes_' in [document] is ignored. Did you mean 'includes'?".to_string(),
        "knot.toml: unknown key 'timeout_secs' in [execution] is ignored. Did you mean 'timeout-secs'?".to_string(),
        "knot.toml: unknown key 'stray' at the top level is ignored.".to_string(),
    ];
    expected.sort();
    assert_eq!(sorted, expected, "{warnings:#?}");
    assert_eq!(knot::config_keys::config_warnings("not = [toml"), None);
}

#[test]
fn option_layers_give_the_same_result_however_they_are_grouped() {
    let global = ChunkOptions { eval: Some(false), cache: Some(true), ..Default::default() };
    let language = ChunkOptions { eval: Some(true), dpi: Some(300), ..Default::default() };
    let chunk = ChunkOptions { dpi: Some(72), depends: vec!["data.csv".into()], ..Default::default() };
    let merged_first = overlay(&overlay(&global, &language), &chunk);
    let one_by_one = overlay(&global, &overlay(&language, &chunk));
    assert_eq!(format!("{merged_first:?}"), format!("{one_by_one:?}"));
    assert_eq!(merged_first.eval, Some(true));
    assert_eq!(merged_first.cache, Some(true));
    assert_eq!(merged_first.dpi, Some(72));
    let twice = overlay(&global, &overlay(&global, &chunk));
    assert_eq!(format!("{twice:?}"), format!("{:?}", overlay(&global, &chunk)));
}

#[test]
fn configured_defaults_fill_only_what_a_chunk_leaves_unset() {
    let defaults = ChunkDefaults {
        options: ChunkOptions { eval: Some(false), dpi: Some(150), ..Default::default() },
        codly_options: vec![],
    };
    let mut options = ChunkOptions { dpi: Some(72), ..Default::default() };
    options.apply_config_defaults(&defaults);
    assert_eq!(options.eval, Some(false));
    assert_eq!(options.dpi, Some(72));
    assert_eq!(options.cache, None);
}
