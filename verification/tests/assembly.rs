use knot::compiler::{assemble_pass, try_assemble, ExecutedNode};
use knot::sync::{map_knot_line_to_typ, map_typ_line_to_knot, parse_knot_markers, wrap_source, LINE_LIMIT};
use knot::typst_syntax::string_literal_text;

fn make_executed_node(
    source_start: usize,
    source_end: usize,
    typst_content: &str,
    is_chunk: bool,
    source_line: u32,
) -> ExecutedNode {
    ExecutedNode {
        lang: "r".to_string(),
        hash: "abc123".to_string(),
        source_start,
        source_end,
        typst_content: typst_content.to_string(),
        is_chunk,
        source_line,
        errored: false,
    }
}

#[test]
fn test_assemble_no_nodes_returns_source_unchanged() {
    let source = "Hello, Typst!";
    let result = assemble_pass(&[], source, "test.knot");
    assert_eq!(result, source);
}

#[test]
fn test_assemble_inline_inserted_verbatim() {
    let source = "prefix INLINE suffix";
    let node = make_executed_node(7, 13, "42", false, 0);
    let result = assemble_pass(&[node], source, "test.knot");
    assert_eq!(result, "prefix 42 suffix");
}

#[test]
fn test_assemble_chunk_has_sync_markers() {
    let source = "```{r}\nx <- 1\n```\nafter";
    let chunk_end = source.find("```\nafter").unwrap() + 3;
    let node = make_executed_node(0, chunk_end, "#code-chunk()", true, 1);
    let result = assemble_pass(&[node], source, "test.knot");
    assert!(
        result.contains("// #KNOT-SYNC source=test.knot line=1\n"),
        "Missing opening sync marker, got:\n{result}"
    );
    assert!(result.contains("// END-KNOT-SYNC\n"), "Missing closing sync marker, got:\n{result}");
    assert!(result.contains("#code-chunk()"), "Missing chunk content, got:\n{result}");
}

#[test]
fn test_assemble_chunk_content_without_newline_gets_one() {
    let source = "```{r}\ncode\n```\nrest";
    let chunk_end = source.find("```\nrest").unwrap() + 3;
    let node = make_executed_node(0, chunk_end, "no-newline", true, 1);
    let result = assemble_pass(&[node], source, "test.knot");
    assert!(
        result.contains("no-newline\n// END-KNOT-SYNC"),
        "Expected newline inserted before END marker, got:\n{result}"
    );
}

#[test]
fn test_assemble_chunk_content_with_newline_not_doubled() {
    let source = "```{r}\ncode\n```\nrest";
    let chunk_end = source.find("```\nrest").unwrap() + 3;
    let node = make_executed_node(0, chunk_end, "has-newline\n", true, 1);
    let result = assemble_pass(&[node], source, "test.knot");
    assert!(
        result.contains("has-newline\n// END-KNOT-SYNC"),
        "Newline should not be doubled before END marker, got:\n{result}"
    );
    assert!(
        !result.contains("has-newline\n\n// END-KNOT-SYNC"),
        "Newline was doubled, got:\n{result}"
    );
}

#[test]
fn test_assemble_multiple_nodes_interleaved() {
    let source = "AAA ```{r}\ncode\n``` BBB `r 1+1` CCC";
    let chunk_end = source.find("``` BBB").unwrap() + 3;
    let inline_start = source.find("`r 1+1`").unwrap();
    let inline_end = inline_start + "`r 1+1`".len();
    let chunk = make_executed_node(4, chunk_end, "#chunk()", true, 1);
    let inline = make_executed_node(inline_start, inline_end, "2", false, 0);
    let result = assemble_pass(&[chunk, inline], source, "test.knot");
    assert!(result.starts_with("AAA "), "Prefix 'AAA ' missing");
    assert!(result.contains("// #KNOT-SYNC"), "Chunk sync marker missing");
    assert!(result.contains("BBB "), "Inter-node text 'BBB ' missing");
    assert!(result.contains("2"), "Inline result missing");
    assert!(result.ends_with(" CCC"), "Suffix ' CCC' missing");
}

#[test]
fn test_assemble_pass_full_output_snapshot() {
    let source = "= Intro\n\n```{r}\nx <- 1\n```\n\nResult: `r x`\n";
    let chunk_start = source.find("```{r}").unwrap();
    let chunk_end = source.find("```\n\nResult").unwrap() + 3;
    let inline_start = source.find("`r x`").unwrap();
    let inline_end = inline_start + "`r x`".len();
    let chunk_node = make_executed_node(
        chunk_start,
        chunk_end,
        "#code-chunk(lang: \"r\", code: [```r\nx <- 1```])",
        true,
        3,
    );
    let inline_node = make_executed_node(inline_start, inline_end, "1", false, 0);
    let result = assemble_pass(&[chunk_node, inline_node], source, "test.knot");
    assert_eq!(
        result,
        "= Intro\n\n// #KNOT-SYNC source=test.knot line=3\n#code-chunk(lang: \"r\", code: [```r\nx <- 1```])\n// END-KNOT-SYNC\n\nResult: 1\n"
    );
}

#[test]
fn empty_chunk_content_gets_no_extra_line() {
    let source = "```{r}\n```";
    let node = make_executed_node(0, source.len(), "", true, 7);
    let result = assemble_pass(&[node], source, "doc.knot");
    assert_eq!(result, "// #KNOT-SYNC source=doc.knot line=7\n// END-KNOT-SYNC\n");
}

#[test]
fn spans_inside_a_character_cannot_be_assembled() {
    // Byte 1 falls inside the two-byte 'é'.
    let source = "éx";
    let node = make_executed_node(1, 2, "y", false, 0);
    assert_eq!(try_assemble(&[node], source, "doc.knot"), None);
    let ok = make_executed_node(2, 3, "y", false, 0);
    assert_eq!(try_assemble(&[ok], source, "doc.knot"), Some("éy".to_string()));
}

#[test]
fn each_source_is_wrapped_between_its_file_markers() {
    assert_eq!(
        wrap_source("= Title", "main.knot", 1),
        "// BEGIN-FILE main.knot\n= Title\n// END-FILE main.knot lines=1\n"
    );
    assert_eq!(
        wrap_source("a\nb\n", "ch/intro.knot", 12),
        "// BEGIN-FILE ch/intro.knot\na\nb\n// END-FILE ch/intro.knot lines=12\n"
    );
    assert_eq!(wrap_source("", "e.knot", 0), "// BEGIN-FILE e.knot\n// END-FILE e.knot lines=0\n");
}

#[test]
fn typst_string_literals_escape_what_would_end_them() {
    assert_eq!(string_literal_text("plain"), "\"plain\"");
    assert_eq!(string_literal_text("a\"b\\c\nd\te"), "\"a\\\"b\\\\c\\nd\\te\"");
}

#[test]
fn navigation_maps_nothing_beyond_the_line_limit() {
    let blocks = parse_knot_markers(&wrap_source("a\nb\n", "main.knot", 2));
    assert_eq!(blocks.len(), 1);
    let inside = map_knot_line_to_typ("main.knot", 1, &blocks, None);
    assert!(inside.is_some());
    assert_eq!(map_knot_line_to_typ("main.knot", LINE_LIMIT + 1, &blocks, None), None);
    assert_eq!(map_knot_line_to_typ("main.knot", 1, &blocks, Some(LINE_LIMIT + 1)), None);
    assert_eq!(map_typ_line_to_knot(LINE_LIMIT + 1, &blocks, "/p", None), None);
    assert_eq!(map_typ_line_to_knot(inside.unwrap(), &blocks, "/p", Some(LINE_LIMIT + 1)), None);
    assert!(map_typ_line_to_knot(inside.unwrap(), &blocks, "/p", None).is_some());
}
