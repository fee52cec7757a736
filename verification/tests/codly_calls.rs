use knot::ast::Chunk;
use knot::backend::{format_codly_call, format_local_call};
use knot::codly::{may_provide_local, missing_import_message, missing_import_warning};
use knot::config::Config;

fn chunk_with_codly(options: Vec<(String, String)>) -> Chunk {
    Chunk {
        index: 0,
        language: "r".to_string(),
        code: "x <- 1".to_string(),
        name: None,
        options: Default::default(),
        codly_options: options,
        errors: vec![],
        start_line: 0,
        start_byte: 0,
        end_byte: 0,
    }
}

#[test]
fn imports_that_may_provide_local() {
    for source in [
        "#import \"@preview/codly:1.3.0\": *\n",
        "#import \"lib/report.typ\": *",
        "#import \"@preview/codly:1.3.0\": codly, local\n",
        "#import \"@preview/codly:1.3.0\": (\n  codly,\n  local,\n)\n",
    ] {
        assert!(may_provide_local(source), "{source}");
    }
    for source in [
        "",
        "= Title\n",
        "#import \"@preview/codly:1.3.0\": codly, codly-init\n",
        "#import \"@preview/cetz:0.3.0\"\n",
    ] {
        assert!(!may_provide_local(source), "{source}");
    }
}

#[test]
fn local_must_be_a_whole_item() {
    assert!(!may_provide_local("#import \"x.typ\": locality, local-x\n"));
    assert!(may_provide_local("#import \"x.typ\": a; #import \"y.typ\": local\n"));
    assert!(!may_provide_local("#import \"x.typ\": a\nlocal\n"));
}

#[test]
fn options_from_the_configuration_and_the_chunks_are_listed() {
    let mut config = Config::default();
    config.chunk_defaults.codly_options.push(("lang-outset".into(), "(x: 0pt)".into()));
    let source = "```{r}\n#| codly-zebra-fill: none\nx <- 1\n```\n".to_string();
    let chunks = vec![chunk_with_codly(vec![("zebra-fill".into(), "none".into())])];
    let warning = missing_import_warning(&config, &vec![source.clone()], &chunks).unwrap();
    assert!(warning.contains("'codly-lang-outset', 'codly-zebra-fill'"), "{warning}");
    let imported = format!("#import \"@preview/codly:1.3.0\": *\n{source}");
    assert_eq!(missing_import_warning(&config, &vec![imported], &chunks), None);
    assert_eq!(missing_import_warning(&Config::default(), &vec!["= Title".to_string()], &vec![]), None);
}

#[test]
fn repeated_options_are_listed_once() {
    let chunks = vec![
        chunk_with_codly(vec![("stroke".into(), "none".into())]),
        chunk_with_codly(vec![("stroke".into(), "red".into())]),
    ];
    let warning = missing_import_warning(&Config::default(), &vec![String::new()], &chunks).unwrap();
    assert_eq!(warning, missing_import_message(&vec!["codly-stroke".to_string()]));
}

#[test]
fn missing_import_message_quotes_each_option() {
    assert_eq!(
        missing_import_message(&vec!["codly-a".to_string(), "codly-b".to_string()]),
        "The codly options 'codly-a', 'codly-b' are ignored: the document does not import codly. Add '#import \"@preview/codly:1.3.0\": *' and '#show: codly-init' at the top of the main document, or remove these options."
    );
}

#[test]
fn test_format_codly_call() {
    let options = vec![
        ("stroke".to_string(), "1pt + rgb(\"#CE412B\")".to_string()),
        ("lang-radius".to_string(), "10pt".to_string()),
    ];
    assert_eq!(
        format_codly_call(&options),
        "#codly(lang-radius: 10pt, stroke: 1pt + rgb(\"#CE412B\"))"
    );
}

#[test]
fn test_format_codly_call_empty() {
    assert_eq!(format_codly_call(&vec![]), "#codly()");
}

#[test]
fn test_format_local_call() {
    let options = vec![
        ("stroke".to_string(), "1pt + red".to_string()),
        ("lang-radius".to_string(), "5pt".to_string()),
    ];
    let result = format_local_call(&options);
    assert!(result.starts_with("#local("));
    assert!(result.ends_with(")"));
    assert!(result.contains("stroke: 1pt + red"));
    assert!(result.contains("lang-radius: 5pt"));
}

#[test]
fn codly_calls_do_not_depend_on_the_order_of_options() {
    let a = vec![("b".to_string(), "2".to_string()), ("a".to_string(), "1".to_string())];
    let b = vec![("a".to_string(), "1".to_string()), ("b".to_string(), "2".to_string())];
    assert_eq!(format_codly_call(&a), format_codly_call(&b));
    assert_eq!(format_local_call(&a), "#local(a: 1, b: 2)");
}
