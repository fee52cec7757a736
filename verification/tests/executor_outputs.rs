use knot::cache::{CacheMetadata, CacheStore};
use knot::executors::error_utils::{
    extract_error_line, extract_line_from_traceback, format_code_with_context,
};
use knot::executors::inline::{inline_result_too_complex, INLINE_MAX_CHARS};
use knot::executors::path_utils::escape_path_for_code;
use knot::executors::python::format_inline_output as python_inline;
use knot::executors::python::{inline_code, inline_result};
use knot::executors::r::format_inline_output as r_inline;
use knot::executors::r::{
    copy_plot_to_cache, extract_csv_content, extract_plot_path, extract_scalar_value,
    is_short_vector_output, parse_output, r_failure_from, r_inline_from, r_inline_result,
    r_stderr_failure, save_csv_to_cache,
    CSV_MARKER, PLOT_MARKER,
};
use knot::executors::{
    absorb_line, metadata_to_execution_result, process_execution_output, ExecutionAttempt, ExecutionOutput,
    ExecutionResult,
    KnotMetadata, OutputMetadata, RuntimeError, RuntimeWarning,
};
use std::collections::HashMap;

#[derive(Default)]
struct MemStore {
    files: HashMap<String, Vec<u8>>,
}

impl CacheStore for MemStore {
    fn file_exists(&self, path: &str) -> bool {
        self.files.contains_key(path)
    }
    fn read_bytes(&self, path: &str) -> Option<Vec<u8>> {
        self.files.get(path).cloned()
    }
    fn file_size(&self, path: &str) -> Option<u64> {
        self.files.get(path).map(|b| b.len() as u64)
    }
    fn read_text(&self, path: &str) -> Option<String> {
        self.files.get(path).and_then(|b| String::from_utf8(b.clone()).ok())
    }
    fn write_text(&mut self, path: &str, contents: &str) -> Result<(), String> {
        self.files.insert(path.to_string(), contents.as_bytes().to_vec());
        Ok(())
    }
    fn copy_file(&mut self, from: &str, to: &str) -> Result<(), String> {
        let b = self.files.get(from).cloned().ok_or_else(|| format!("no file {from}"))?;
        self.files.insert(to.to_string(), b);
        Ok(())
    }
    fn persist(&mut self, _cache_dir: &str, _metadata: &CacheMetadata) -> Result<(), String> {
        Ok(())
    }
}

fn store_with_plot(path: &str) -> MemStore {
    let mut store = MemStore::default();
    store.files.insert(path.to_string(), b"<svg></svg>".to_vec());
    store
}

fn plot(name: &str) -> OutputMetadata {
    OutputMetadata::Plot { path: name.into(), format: "svg".into() }
}

#[test]
fn dropped_outputs_are_reported_as_warnings() {
    let metadata = KnotMetadata {
        results: vec![plot("a.svg"), plot("b.svg"), OutputMetadata::DataFrame { path: "t.csv".into() }],
        ..Default::default()
    };
    let output = metadata_to_execution_result(metadata, "printed\n").unwrap();
    let messages: Vec<_> = output.warnings.iter().map(|w| w.message.as_str()).collect();
    assert_eq!(messages.len(), 2, "{messages:?}");
    assert!(messages[0].starts_with("This chunk produced 2 plots"));
    assert!(messages[1].starts_with("Printed output is not shown"));
    assert!(matches!(output.result, ExecutionResult::DataFrameAndPlot { .. }));
}

#[test]
fn single_outputs_produce_no_warning() {
    let metadata = KnotMetadata { results: vec![plot("a.svg")], ..Default::default() };
    let output = metadata_to_execution_result(metadata, "printed\n").unwrap();
    assert!(output.warnings.is_empty());
    assert!(matches!(output.result, ExecutionResult::TextAndPlot { .. }));
}

#[test]
fn the_last_figure_and_table_are_kept() {
    let metadata = KnotMetadata {
        results: vec![plot("a.svg"), plot("b.svg")],
        ..Default::default()
    };
    let output = metadata_to_execution_result(metadata, "").unwrap();
    match output.result {
        ExecutionResult::Plot(p) => assert_eq!(p, "b.svg"),
        other => panic!("unexpected {other:?}"),
    }
}

#[test]
fn test_escape_path_windows() {
    assert_eq!(escape_path_for_code(r"C:\Users\file.txt"), r"C:\\Users\\file.txt");
}

#[test]
fn test_escape_path_unix() {
    assert_eq!(escape_path_for_code("/home/user/file.txt"), "/home/user/file.txt");
}

#[test]
fn test_escape_path_with_single_quotes() {
    assert_eq!(escape_path_for_code(r"C:\User's\data.csv"), r"C:\\User\'s\\data.csv");
}

#[test]
fn test_escape_path_with_double_quotes() {
    assert_eq!(
        escape_path_for_code(r#"C:\Users\"special"\file.txt"#),
        r#"C:\\Users\\\"special\"\\file.txt"#
    );
}

#[test]
fn test_format_inline_scalar() {
    assert_eq!(python_inline("25").unwrap(), "25");
    assert_eq!(python_inline("Alice").unwrap(), "Alice");
    assert_eq!(python_inline("True").unwrap(), "True");
}

#[test]
fn test_format_inline_rejects_long_multibyte_output() {
    let output = format!("a{}", "é".repeat(150));
    let error = python_inline(&output).unwrap_err().to_string();
    assert!(error.contains("short collections"));
    assert!(python_inline(&"é".repeat(60)).is_ok());
}

#[test]
fn test_format_inline_collection() {
    assert_eq!(python_inline("[1, 2, 3]").unwrap(), "`[1, 2, 3]`");
    assert_eq!(python_inline("(1, 2)").unwrap(), "`(1, 2)`");
    assert_eq!(python_inline("{'a': 1}").unwrap(), "`{'a': 1}`");
}

#[test]
fn test_format_inline_too_long() {
    let long_str = "a".repeat(101);
    assert!(python_inline(&long_str).is_err());
}

#[test]
fn test_extract_scalar_value() {
    assert_eq!(extract_scalar_value("[1] 150"), Some("150".to_string()));
    assert_eq!(extract_scalar_value("[1] TRUE"), Some("TRUE".to_string()));
    assert_eq!(extract_scalar_value("[1] \"Alice\""), Some("Alice".to_string()));
}

#[test]
fn test_is_short_vector() {
    assert!(is_short_vector_output("[1] 1 2 3 4 5"));
    assert!(is_short_vector_output("[1] \"a\" \"b\" \"c\""));
    assert!(!is_short_vector_output("[1] 150"));
    assert!(!is_short_vector_output(&"[1] ".repeat(100)));
}

#[test]
fn r_inline_results_are_scalars_or_quoted_vectors() {
    assert_eq!(r_inline("[1] 150\n").unwrap(), "150");
    assert_eq!(r_inline("[1] 1 2 3").unwrap(), "`[1] 1 2 3`");
    let error = r_inline("   x\ny").unwrap_err();
    assert!(error.starts_with("Inline expression result is too complex or long.\nResult: x\ny"));
}

#[test]
fn preview_keeps_short_results_whole() {
    let error = inline_result_too_complex("a\nb", "short vectors");
    assert!(error.contains("Result: a\nb"));
}

#[test]
fn preview_truncates_on_character_boundary() {
    let result = format!("a{}", "é".repeat(150));
    let error = inline_result_too_complex(&result, "short vectors");
    let line = error.lines().nth(1).unwrap();
    let preview = line.strip_prefix("Result: ").unwrap().to_string();
    assert_eq!(preview.chars().count(), INLINE_MAX_CHARS);
    assert!(result.starts_with(&preview));
}

#[test]
fn test_extract_from_traceback() {
    let tb = vec!["line 1, in <module>".to_string(), "line 5, in nested_func".to_string()];
    assert_eq!(extract_line_from_traceback(&tb), Some(5));
}

#[test]
fn test_extract_python_line() {
    let error = r#"Traceback (most recent call last):
  File "<string>", line 15, in <module>
NameError: name 'x' is not defined"#;
    assert_eq!(extract_error_line(error), Some(15));
}

#[test]
fn test_extract_r_line() {
    let error = "Error at line 10: object 'x' not found";
    assert_eq!(extract_error_line(error), Some(10));
}

#[test]
fn code_context_marks_the_failing_line() {
    let short = "a <- 1\nb <- stop('x')";
    assert_eq!(format_code_with_context(short, "Error at line 2: x", 1), short);
    let code: Vec<String> = (1..=12).map(|i| format!("l{i}")).collect();
    let code = code.join("\n");
    assert_eq!(
        format_code_with_context(&code, "Error at line 6: x", 1),
        "... (4 lines above)\n    5: l5\n>>> 6: l6\n    7: l7\n... (5 lines below)"
    );
}

#[test]
fn runtime_errors_summarize_their_message() {
    let error = RuntimeError { message: None, call: None, line: None, traceback: vec![] };
    assert_eq!(error.summary(), "Unknown error");
    let error = RuntimeError { message: Some("boom".into()), ..error };
    assert_eq!(error.summary(), "boom");
}

#[test]
fn test_extract_csv_content_basic() {
    let output = "__KNOT_SERIALIZED_CSV__\n\"x\",\"y\"\n1,2";
    let csv_start = output.find(CSV_MARKER).unwrap();
    let content = extract_csv_content(output, csv_start).unwrap();
    assert!(content.contains("\"x\",\"y\""));
    assert!(content.contains("1,2"));
}

#[test]
fn test_extract_csv_content_with_trailing_marker() {
    let output = "__KNOT_SERIALIZED_CSV__\n\"x\",\"y\"\n1,2\n__KNOT_SERIALIZED_PLOT__\n/tmp/plot.svg";
    let csv_start = output.find(CSV_MARKER).unwrap();
    let content = extract_csv_content(output, csv_start).unwrap();
    assert!(content.contains("\"x\",\"y\""));
    assert!(!content.contains("PLOT"));
}

#[test]
fn test_extract_csv_content_empty_fails() {
    let output = "__KNOT_SERIALIZED_CSV__\n\n";
    let csv_start = output.find(CSV_MARKER).unwrap();
    let result = extract_csv_content(output, csv_start);
    assert!(result.is_err());
    assert!(result.unwrap_err().to_string().contains("Empty CSV"));
}

#[test]
fn test_extract_plot_path_valid() {
    let store = store_with_plot("/tmp/knot/test.svg");
    let output = "__KNOT_SERIALIZED_PLOT__\n/tmp/knot/test.svg";
    let plot_start = output.find(PLOT_MARKER).unwrap();
    let path = extract_plot_path(output, plot_start, &store).unwrap();
    assert!(store.file_exists(&path));
}

#[test]
fn test_extract_plot_path_nonexistent_fails() {
    let store = MemStore::default();
    let output = "__KNOT_SERIALIZED_PLOT__\n/nonexistent/path/plot.svg";
    let plot_start = output.find(PLOT_MARKER).unwrap();
    let result = extract_plot_path(output, plot_start, &store);
    assert!(result.is_err());
    assert!(result.unwrap_err().to_string().contains("not found"));
}

#[test]
fn test_extract_plot_path_empty_fails() {
    let store = MemStore::default();
    let output = "__KNOT_SERIALIZED_PLOT__\n\n";
    let plot_start = output.find(PLOT_MARKER).unwrap();
    let result = extract_plot_path(output, plot_start, &store);
    assert!(result.is_err());
    assert!(result.unwrap_err().to_string().contains("Empty plot path"));
}

#[test]
fn test_parse_text_only() {
    let mut store = MemStore::default();
    let output = "[1] 42\n[1] \"hello\"";
    match parse_output(output, "/cache", &mut store).unwrap() {
        ExecutionResult::Text(text) => assert_eq!(text, output),
        other => panic!("Expected Text result, got: {:?}", other),
    }
}

#[test]
fn test_parse_csv_only() {
    let mut store = MemStore::default();
    let output = "__KNOT_SERIALIZED_CSV__\n\"x\",\"y\"\n1,4\n2,5\n3,6\n";
    match parse_output(output, "/cache", &mut store).unwrap() {
        ExecutionResult::DataFrame(path) => {
            let content = store.read_text(&path).unwrap();
            assert!(content.contains("\"x\",\"y\""));
            assert!(content.contains("1,4"));
        }
        other => panic!("Expected DataFrame result, got: {:?}", other),
    }
}

#[test]
fn test_parse_plot_only() {
    let mut store = store_with_plot("/tmp/knot/test_plot.svg");
    let output = "__KNOT_SERIALIZED_PLOT__\n/tmp/knot/test_plot.svg";
    match parse_output(output, "/cache", &mut store).unwrap() {
        ExecutionResult::Plot(path) => {
            assert!(store.file_exists(&path));
            assert!(path.contains(".svg"));
        }
        other => panic!("Expected Plot result, got: {:?}", other),
    }
}

#[test]
fn test_parse_dataframe_and_plot() {
    let mut store = store_with_plot("/tmp/knot/test_plot.svg");
    let output = "__KNOT_SERIALIZED_CSV__\n\"x\",\"y\"\n1,4\n2,5\n__KNOT_SERIALIZED_PLOT__\n/tmp/knot/test_plot.svg";
    match parse_output(output, "/cache", &mut store).unwrap() {
        ExecutionResult::DataFrameAndPlot { dataframe, plot } => {
            assert!(store.file_exists(&dataframe));
            assert!(store.file_exists(&plot));
            assert!(store.read_text(&dataframe).unwrap().contains("\"x\",\"y\""));
        }
        other => panic!("Expected DataFrameAndPlot result, got: {:?}", other),
    }
}

#[test]
fn test_parse_plot_and_dataframe_reversed() {
    let mut store = store_with_plot("/tmp/knot/test_plot.svg");
    let output = "__KNOT_SERIALIZED_PLOT__\n/tmp/knot/test_plot.svg\n__KNOT_SERIALIZED_CSV__\n\"a\",\"b\"\n10,20";
    match parse_output(output, "/cache", &mut store).unwrap() {
        ExecutionResult::DataFrameAndPlot { dataframe, plot } => {
            assert!(store.file_exists(&dataframe));
            assert!(store.file_exists(&plot));
            assert!(store.read_text(&dataframe).unwrap().contains("\"a\",\"b\""));
        }
        other => panic!("Expected DataFrameAndPlot result, got: {:?}", other),
    }
}

#[test]
fn test_parse_text_before_csv_ignored() {
    let mut store = MemStore::default();
    let output = "Some text output\n[1] 42\n__KNOT_SERIALIZED_CSV__\n\"x\",\"y\"\n1,2";
    match parse_output(output, "/cache", &mut store).unwrap() {
        ExecutionResult::DataFrame(path) => assert!(store.file_exists(&path)),
        _ => panic!("Expected DataFrame result despite preceding text"),
    }
}

#[test]
fn test_parse_text_before_plot_ignored() {
    let mut store = store_with_plot("/tmp/knot/test.svg");
    let output = "Warning: some message\n__KNOT_SERIALIZED_PLOT__\n/tmp/knot/test.svg";
    match parse_output(output, "/cache", &mut store).unwrap() {
        ExecutionResult::Plot(path) => assert!(store.file_exists(&path)),
        _ => panic!("Expected Plot result despite preceding text"),
    }
}

#[test]
fn test_parse_complex_csv_content() {
    let mut store = MemStore::default();
    let output = "__KNOT_SERIALIZED_CSV__\n\"name\",\"value\",\"description\"\n\"test\",\"123\",\"a,b,c\"\n\"foo\",\"456\",\"x\"\"y\"\"z\"\n";
    match parse_output(output, "/cache", &mut store).unwrap() {
        ExecutionResult::DataFrame(path) => {
            let content = store.read_text(&path).unwrap();
            assert!(content.contains("\"name\",\"value\",\"description\""));
            assert!(content.contains("\"a,b,c\""));
            assert!(content.contains("x\"\"y\"\"z"));
        }
        _ => panic!("Expected DataFrame result"),
    }
}

#[test]
fn test_parse_multiline_text() {
    let mut store = MemStore::default();
    let output = "Line 1\nLine 2\nLine 3\n[1] 42\n";
    match parse_output(output, "/cache", &mut store).unwrap() {
        ExecutionResult::Text(text) => {
            assert_eq!(text, output);
            assert!(text.contains("Line 1"));
            assert!(text.contains("Line 3"));
            assert!(text.contains("[1] 42"));
        }
        _ => panic!("Expected Text result"),
    }
}

#[test]
fn test_save_csv_hash_consistency() {
    let mut store = MemStore::default();
    let csv_content = "x,y\n1,2\n3,4";
    let result1 = save_csv_to_cache(csv_content, "/cache", &mut store).unwrap();
    let result2 = save_csv_to_cache(csv_content, "/cache", &mut store).unwrap();
    assert_eq!(result1, result2);
}

#[test]
fn test_save_csv_different_content() {
    let mut store = MemStore::default();
    let result1 = save_csv_to_cache("a,b\n1,2", "/cache", &mut store).unwrap();
    let result2 = save_csv_to_cache("a,b\n3,4", "/cache", &mut store).unwrap();
    assert_ne!(result1, result2);
}

#[test]
fn test_save_csv_empty_content() {
    let mut store = MemStore::default();
    let result = save_csv_to_cache("", "/cache", &mut store).unwrap();
    assert_eq!(store.read_text(&result).unwrap(), "");
}

#[test]
fn test_save_csv_to_cache() {
    let mut store = MemStore::default();
    let result = save_csv_to_cache("x,y\n1,2", "/cache", &mut store).unwrap();
    assert!(result.starts_with("/cache/dataframe_"));
    assert!(result.ends_with(".csv"));
    assert_eq!(result.len(), "/cache/dataframe_".len() + 16 + ".csv".len());
    assert_eq!(store.read_text(&result).unwrap(), "x,y\n1,2");
}

#[test]
fn test_copy_plot_nonexistent_source() {
    let mut store = MemStore::default();
    let result = copy_plot_to_cache("/tmp/knot/nonexistent.svg", "/cache", &mut store);
    assert!(result.is_err());
    assert!(result.unwrap_err().to_string().contains("Failed to read plot file"));
}

#[test]
fn test_copy_plot_no_extension() {
    let mut store = store_with_plot("/tmp/knot/plot");
    let result = copy_plot_to_cache("/tmp/knot/plot", "/cache", &mut store).unwrap();
    assert!(result.starts_with("/cache/plot_"));
    assert!(result.ends_with(".svg"));
}

#[test]
fn test_copy_plot_to_cache_png() {
    let mut store = store_with_plot("/tmp/knot/figure.png");
    let result = copy_plot_to_cache("/tmp/knot/figure.png", "/cache", &mut store).unwrap();
    assert!(result.ends_with(".png"));
    assert!(store.file_exists(&result));
}

#[test]
fn test_copy_plot_hash_consistency() {
    let mut store = store_with_plot("/tmp/knot/a.svg");
    let r1 = copy_plot_to_cache("/tmp/knot/a.svg", "/cache", &mut store).unwrap();
    let r2 = copy_plot_to_cache("/tmp/knot/a.svg", "/cache", &mut store).unwrap();
    assert_eq!(r1, r2);
}

#[test]
fn test_copy_plot_different_content() {
    let mut store = store_with_plot("/tmp/knot/a.svg");
    store.files.insert("/tmp/knot/b.svg".to_string(), b"<svg><g/></svg>".to_vec());
    let r1 = copy_plot_to_cache("/tmp/knot/a.svg", "/cache", &mut store).unwrap();
    let r2 = copy_plot_to_cache("/tmp/knot/b.svg", "/cache", &mut store).unwrap();
    assert_ne!(r1, r2);
}

#[test]
fn r_errors_on_stderr_fail_the_chunk_but_warnings_do_not() {
    assert_eq!(
        r_stderr_failure("f()", " [1] 1 \n", "ERROR in f(): boom\n"),
        Some("R execution failed:\n\n--- Code ---\nf()\n\n--- Stderr ---\nERROR in f(): boom\n\n--- Stdout ---\n[1] 1".to_string())
    );
    assert!(r_stderr_failure("x", "", "Erreur : objet 'x' introuvable").is_some());
    assert!(r_stderr_failure("x", "", "Execution arrêtée").is_some());
    assert_eq!(r_stderr_failure("x", "", "Warning message:\nIn sqrt(-1) : NaNs produced"), None);
    assert_eq!(r_stderr_failure("x", "", "objet seul"), None);
    assert_eq!(r_stderr_failure("x", "out", "  \n"), None);
    // The decision reads the lower-case form it is given.
    assert!(r_failure_from("x", "", "Oops", "could not find function").is_some());
    assert_eq!(r_failure_from("x", "", "ERROR", "ERROR"), None);
}

#[test]
fn reported_errors_drop_the_wrapper_frames() {
    let error = RuntimeError {
        message: Some("boom".into()),
        call: Some("f()".into()),
        line: Some(3),
        traceback: vec!["tryCatch".into(), "eval".into(), "f()".into(), "stop()".into()],
    };
    let metadata = KnotMetadata { error: Some(error.clone()), ..Default::default() };
    match process_execution_output("f()", metadata, "", "", 2).unwrap() {
        ExecutionAttempt::RuntimeError(e) => {
            assert_eq!(e.message.as_deref(), Some("boom"));
            assert_eq!(e.line, Some(3));
            assert_eq!(e.traceback, vec!["f()".to_string(), "stop()".to_string()]);
        },
        other => panic!("unexpected {other:?}"),
    }
    // Fewer frames than the wrapper's: the traceback is kept whole.
    let metadata = KnotMetadata { error: Some(error), ..Default::default() };
    match process_execution_output("f()", metadata, "", "", 5).unwrap() {
        ExecutionAttempt::RuntimeError(e) => assert_eq!(e.traceback.len(), 4),
        other => panic!("unexpected {other:?}"),
    }
}

#[test]
fn reported_outputs_keep_the_chunk_warnings_first() {
    let warning = RuntimeWarning { message: "careful".into(), call: None, line: Some(1) };
    let metadata = KnotMetadata {
        results: vec![plot("a.svg"), plot("b.svg")],
        warnings: vec![warning],
        error: None,
    };
    match process_execution_output("plot(1)", metadata, "", "", 4).unwrap() {
        ExecutionAttempt::Success(out) => {
            let messages: Vec<_> = out.warnings.iter().map(|w| w.message.as_str()).collect();
            assert_eq!(messages[0], "careful");
            assert!(messages[1].starts_with("This chunk produced 2 plots"));
            assert_eq!(messages.len(), 2);
            assert!(matches!(out.result, ExecutionResult::Plot(ref p) if p == "b.svg"));
        },
        other => panic!("unexpected {other:?}"),
    }
}

#[test]
fn stream_reading_stops_at_the_boundary_or_the_end() {
    let boundary = "---KNOT_CHUNK_BOUNDARY---";
    let mut collected: Vec<char> = Vec::new();
    assert!(!absorb_line(&mut collected, "[1] 1\n", boundary));
    assert!(!absorb_line(&mut collected, "[1] 2\n", boundary));
    assert!(absorb_line(&mut collected, "tail---KNOT_CHUNK_BOUNDARY---\n", boundary));
    assert_eq!(collected.iter().collect::<String>(), "[1] 1\n[1] 2\ntail");
    let mut collected: Vec<char> = "kept".chars().collect();
    assert!(absorb_line(&mut collected, "", boundary));
    assert_eq!(collected.iter().collect::<String>(), "kept");
}

#[test]
fn r_inline_results_fail_on_reported_errors() {
    assert_eq!(r_inline_result("[1] 42\n", ""), Ok("42".to_string()));
    assert_eq!(r_inline_result("[1] 42\n", "Warning: careful\n"), Ok("42".to_string()));
    assert_eq!(
        r_inline_result("", "  ERROR: object 'y' not found \n"),
        Err("Inline R execution failed: ERROR: object 'y' not found".to_string())
    );
    // The decision reads the lower-case form it is given.
    assert_eq!(r_inline_from("[1] 1", "Oops", "oops"), Ok("1".to_string()));
    assert!(r_inline_from("[1] 1", "Oops", "an error").is_err());
}

#[test]
fn python_inline_expressions_are_printed_and_shown() {
    assert_eq!(inline_code("1 + 2"), "print(1 + 2)");
    let text = |t: &str| {
        ExecutionAttempt::Success(ExecutionOutput {
            exports: vec![],
            result: ExecutionResult::Text(t.to_string()),
            warnings: vec![],
        })
    };
    assert_eq!(inline_result(&text("3\n")), Ok("3".to_string()));
    assert_eq!(inline_result(&text("[1, 2]\n")), Ok("`[1, 2]`".to_string()));
    let error = RuntimeError { message: Some("NameError: x".into()), call: None, line: None, traceback: vec![] };
    assert_eq!(inline_result(&ExecutionAttempt::RuntimeError(error)), Err("NameError: x".to_string()));
    let plot = ExecutionAttempt::Success(ExecutionOutput {
        exports: vec![],
        result: ExecutionResult::Plot("p.svg".into()),
        warnings: vec![],
    });
    assert!(inline_result(&plot).unwrap_err().starts_with("Inline expression returned a complex object"));
}

#[test]
fn overlong_r_results_are_refused_with_a_preview_cut_between_characters() {
    let output = format!("[1] ab\n{}", "é".repeat(60));
    let e = r_inline(&output).unwrap_err();
    assert!(e.contains("too complex or long"));
    // 67 characters (127 bytes): shown whole, never cut inside a character.
    assert!(e.contains(&format!("Result: [1] ab\n{}\n", "é".repeat(60))));
    let long = format!("[1] x\n{}", "é".repeat(150));
    let e = r_inline(&long).unwrap_err();
    let shown: String = long.chars().take(100).collect();
    assert!(e.contains(&format!("Result: {shown}\nInline")));
}

#[test]
fn an_empty_serialized_table_is_refused() {
    let mut store = MemStore::default();
    let r = parse_output("__KNOT_SERIALIZED_CSV__\n\n", "/c", &mut store);
    assert!(r.unwrap_err().contains("Empty CSV"));
    assert!(store.files.is_empty());
}
