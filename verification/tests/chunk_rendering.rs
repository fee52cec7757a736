use knot::ast::{Chunk, ChunkError, ChunkOptions, Show};
use knot::backend::{Backend, TypstBackend};
use knot::compiler::ChunkExecutionState;
use knot::executors::{ExecutionOutput, ExecutionResult};

fn create_test_chunk(
    language: &str,
    code: &str,
    name: Option<String>,
    show: Show,
    caption: Option<String>,
) -> Chunk {
    Chunk {
        index: 0,
        language: language.to_string(),
        code: code.to_string(),
        name,
        options: ChunkOptions {
            eval: Some(true),
            show: Some(show),
            cache: Some(true),
            caption,
            ..Default::default()
        },
        codly_options: vec![],
        errors: vec![],
        start_line: 0,
        start_byte: 0,
        end_byte: 0,
    }
}

fn output(result: ExecutionResult) -> ExecutionOutput {
    ExecutionOutput { exports: vec![], result, warnings: vec![] }
}

fn render(chunk: &Chunk, result: ExecutionResult) -> String {
    let backend = TypstBackend::new();
    let resolved = chunk.options.resolve();
    backend.format_chunk(chunk, &chunk.codly_options, &resolved, &output(result), &ChunkExecutionState::Ready)
}

const TABLE: &str = "#{ let data = csv(\"/tmp/data.csv\"); table(columns: data.first().len(), ..data.flatten()) }";

#[test]
fn test_format_chunk_with_errors() {
    let mut chunk = create_test_chunk("r", "1 + 1", None, Show::Both, None);
    chunk.errors.push(ChunkError::new("Unknown option: 'foo'", None));
    chunk.errors.push(ChunkError::new("Invalid value for 'eval'", None));
    assert_eq!(
        render(&chunk, ExecutionResult::Text("[1] 2".to_string())),
        "#code-chunk(lang: \"r\", errors: ([Unknown option: 'foo'], [Invalid value for 'eval']), code: [```r\n1 + 1```], output: [```output\n[1] 2```], layout: \"horizontal\")"
    );
}

#[test]
fn test_format_chunk_text_output_with_code() {
    let chunk = create_test_chunk("r", "x <- 1:10\nmean(x)", None, Show::Both, None);
    assert_eq!(
        render(&chunk, ExecutionResult::Text("[1] 5.5".to_string())),
        "#code-chunk(lang: \"r\", code: [```r\nx <- 1:10\nmean(x)```], output: [```output\n[1] 5.5```], layout: \"horizontal\")"
    );
}

#[test]
fn test_format_chunk_text_output_without_code() {
    let chunk = create_test_chunk("r", "x <- 1:10\nmean(x)", None, Show::Output, None);
    assert_eq!(
        render(&chunk, ExecutionResult::Text("[1] 5.5".to_string())),
        "#code-chunk(lang: \"r\", code: none, output: [```output\n[1] 5.5```])"
    );
}

#[test]
fn test_format_chunk_no_output() {
    let chunk = create_test_chunk("r", "x <- 1", None, Show::Both, None);
    assert_eq!(
        render(&chunk, ExecutionResult::Text(String::new())),
        "#code-chunk(lang: \"r\", code: [```r\nx <- 1```], output: none, layout: \"horizontal\")"
    );
}

#[test]
fn test_format_chunk_with_name_and_caption() {
    let chunk = create_test_chunk(
        "r",
        "x <- 1:10",
        Some("my-chunk".to_string()),
        Show::Both,
        Some("[My Caption]".to_string()),
    );
    assert_eq!(
        render(&chunk, ExecutionResult::Text("[1] 1  2  3  4  5  6  7  8  9 10".to_string())),
        "#figure(kind: raw, supplement: \"Chunk\", caption: [[My Caption]])[#code-chunk(lang: \"r\", name: \"my-chunk\", code: [```r\nx <- 1:10```], output: [```output\n[1] 1  2  3  4  5  6  7  8  9 10```], layout: \"horizontal\")]\n <my-chunk>"
    );
}

#[test]
fn test_format_chunk_with_caption_no_name() {
    let chunk = create_test_chunk("r", "x <- 1:10", None, Show::Both, Some("[My Caption]".to_string()));
    assert_eq!(
        render(&chunk, ExecutionResult::Text(String::new())),
        "#code-chunk(lang: \"r\", caption: [[My Caption]], code: [```r\nx <- 1:10```], output: none, layout: \"horizontal\")"
    );
}

#[test]
fn test_format_chunk_plot_output() {
    let chunk = create_test_chunk("r", "plot(1:10)", None, Show::Output, None);
    assert_eq!(
        render(&chunk, ExecutionResult::Plot("/tmp/plot.svg".to_string())),
        "#code-chunk(lang: \"r\", code: none, output: [#image(\"/tmp/plot.svg\")])"
    );
}

#[test]
fn test_format_chunk_dataframe_output() {
    let chunk = create_test_chunk("r", "mtcars", None, Show::Output, None);
    assert_eq!(
        render(&chunk, ExecutionResult::DataFrame("/tmp/data.csv".to_string())),
        format!("#code-chunk(lang: \"r\", code: none, output: [{TABLE}])")
    );
}

#[test]
fn test_format_chunk_text_and_plot() {
    let chunk = create_test_chunk("r", "plot(1:10); summary(1:10)", None, Show::Output, None);
    let result = ExecutionResult::TextAndPlot {
        text: "Min: 1\nMax: 10".to_string(),
        plot: "/tmp/plot.svg".to_string(),
    };
    assert_eq!(
        render(&chunk, result),
        "#code-chunk(lang: \"r\", code: none, output: [#image(\"/tmp/plot.svg\")\n```output\nMin: 1\nMax: 10```])"
    );
}

#[test]
fn test_format_chunk_dataframe_and_plot() {
    let chunk = create_test_chunk("r", "plot(mtcars); mtcars", None, Show::Output, None);
    let result = ExecutionResult::DataFrameAndPlot {
        dataframe: "/tmp/data.csv".to_string(),
        plot: "/tmp/plot.svg".to_string(),
    };
    assert_eq!(
        render(&chunk, result),
        format!("#code-chunk(lang: \"r\", code: none, output: [{TABLE}\n#image(\"/tmp/plot.svg\")])")
    );
}

#[test]
fn test_format_chunk_empty_name_no_figure_wrapper() {
    let chunk = create_test_chunk("r", "1 + 1", Some(String::new()), Show::Both, None);
    assert_eq!(
        render(&chunk, ExecutionResult::Text("[1] 2".to_string())),
        "#code-chunk(lang: \"r\", name: \"\", code: [```r\n1 + 1```], output: [```output\n[1] 2```], layout: \"horizontal\")"
    );
}

#[test]
fn test_format_chunk_empty_text_output() {
    let chunk = create_test_chunk("r", "invisible(1)", None, Show::Output, None);
    assert_eq!(
        render(&chunk, ExecutionResult::Text(String::new())),
        "#code-chunk(lang: \"r\", code: none, output: none)"
    );
}

#[test]
fn test_format_chunk_with_codly_options() {
    let mut chunk = create_test_chunk("r", "x <- 1:10", None, Show::Both, None);
    chunk.codly_options.push(("stroke".to_string(), "1pt + rgb(\"#CE412B\")".to_string()));
    chunk.codly_options.push(("lang-radius".to_string(), "10pt".to_string()));
    assert_eq!(
        render(&chunk, ExecutionResult::Text("[1] 1  2  3  4  5  6  7  8  9 10".to_string())),
        "#code-chunk(lang: \"r\", code: [#local(lang-radius: 10pt, stroke: 1pt + rgb(\"#CE412B\"))[```r\nx <- 1:10```]], output: [```output\n[1] 1  2  3  4  5  6  7  8  9 10```], layout: \"horizontal\")"
    );
}

#[test]
fn test_format_chunk_without_codly_options() {
    let chunk = create_test_chunk("r", "x <- 1:10", None, Show::Both, None);
    assert_eq!(
        render(&chunk, ExecutionResult::Text("[1] 1  2  3  4  5  6  7  8  9 10".to_string())),
        "#code-chunk(lang: \"r\", code: [```r\nx <- 1:10```], output: [```output\n[1] 1  2  3  4  5  6  7  8  9 10```], layout: \"horizontal\")"
    );
}

#[test]
fn hidden_chunks_render_nothing() {
    let chunk = create_test_chunk("r", "x <- 1", Some("named".to_string()), Show::Hidden, None);
    assert_eq!(render(&chunk, ExecutionResult::Text("[1] 1".to_string())), "");
}
