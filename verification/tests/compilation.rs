use knot::ast::{Chunk, ChunkOptions, InlineExpr, InlineOptions};
use knot::cache::{CacheMetadata, CacheStore};
use knot::cancellation::Cancellation;
use knot::config::Config;
use knot::execution::{ProgressEvent, ProgressSink};
use knot::executors::manager::ExecutorFactory;
use knot::executors::{
    ExecError, ExecutionAttempt, ExecutionOutput, ExecutionResult, GraphicsOptions, Interpreter,
    KnotExecutor, RuntimeError,
};
use knot::pipeline::{CompileError, Compiler};
use std::collections::HashMap;

#[derive(Default)]
struct MemStore {
    files: HashMap<String, Vec<u8>>,
    persisted: usize,
}

impl CacheStore for MemStore {
    fn file_exists(&self, path: &str) -> bool {
        self.files.contains_key(path)
    }
    fn read_bytes(&self, path: &str) -> Option<Vec<u8>> {
        self.files.get(path).cloned()
    }
    fn file_size(&self, path: &str) -> Option<u64> {
        self.files.get(path).map(|b| b.len() as u64)
    }
    fn read_text(&self, path: &str) -> Option<String> {
        self.files.get(path).and_then(|b| String::from_utf8(b.clone()).ok())
    }
    fn write_text(&mut self, path: &str, contents: &str) -> Result<(), String> {
        self.files.insert(path.to_string(), contents.as_bytes().to_vec());
        Ok(())
    }
    fn copy_file(&mut self, from: &str, to: &str) -> Result<(), String> {
        let b = self.files.get(from).cloned().ok_or("missing")?;
        self.files.insert(to.to_string(), b);
        Ok(())
    }
    fn persist(&mut self, _cache_dir: &str, _metadata: &CacheMetadata) -> Result<(), String> {
        self.persisted += 1;
        Ok(())
    }
}

/// Prints `[1] <code>`; code holding `stop` fails.
struct Scripted {
    runs: std::rc::Rc<std::cell::Cell<usize>>,
}

impl KnotExecutor for Scripted {
    fn initialize(&mut self) -> Result<(), ExecError> {
        Ok(())
    }
    fn execute(&mut self, code: &str, _g: &GraphicsOptions) -> Result<ExecutionAttempt, ExecError> {
        self.runs.set(self.runs.get() + 1);
        if code.contains("stop") {
            Ok(ExecutionAttempt::RuntimeError(RuntimeError {
                message: Some("stopped here".into()),
                call: None,
                line: Some(1),
                traceback: vec![],
            }))
        } else {
            Ok(ExecutionAttempt::Success(ExecutionOutput {
                result: ExecutionResult::Text(format!("[1] {code}")),
                exports: vec![],
                warnings: vec![],
            }))
        }
    }
    fn execute_inline(&mut self, code: &str) -> Result<String, ExecError> {
        Ok(format!("<{code}>"))
    }
    fn query(&mut self, _c: &str) -> Result<String, ExecError> {
        Ok(String::new())
    }
    fn save_session(&mut self, _p: &str) -> Result<(), ExecError> {
        Err(ExecError::Failed("no snapshots here".into()))
    }
    fn load_session(&mut self, _p: &str) -> Result<(), ExecError> {
        Err(ExecError::Failed("no snapshots here".into()))
    }
    fn snapshot_extension(&self) -> &'static str {
        "RData"
    }
    fn hash_object(&mut self, _n: &str) -> Result<String, ExecError> {
        Ok("h".into())
    }
    fn save_constant(&mut self, _n: &str, _h: &str, _d: &str) -> Result<(), ExecError> {
        Ok(())
    }
    fn object_extension(&self) -> &'static str {
        "rds"
    }
}

struct Starter {
    runs: std::rc::Rc<std::cell::Cell<usize>>,
}

impl ExecutorFactory<Scripted> for Starter {
    fn create(&mut self, _lang: &str, _dir: &str) -> Result<Scripted, ExecError> {
        Ok(Scripted { runs: self.runs.clone() })
    }
}

#[derive(Default)]
struct Events(Vec<usize>);

impl ProgressSink for Events {
    fn send(&mut self, event: ProgressEvent) {
        self.0.push(event.doc_idx);
    }
}

fn chunk(index: usize, language: &str, code: &str, source: &str, fence: &str) -> Chunk {
    let start = source.find(fence).unwrap();
    Chunk {
        index,
        language: language.to_string(),
        code: code.to_string(),
        name: None,
        options: ChunkOptions::default(),
        codly_options: vec![],
        errors: vec![],
        start_line: source[..start].lines().count(),
        start_byte: start,
        end_byte: start + fence.len(),
    }
}

fn compiler() -> Compiler<Scripted> {
    Compiler::new(Config::default(), "/project".to_string(), "/project/.knot_cache/test".to_string(), None)
}

#[test]
fn test_inert_cascade_on_unsupported_language() {
    let source = "```{unsupported_lang}\ncode1\n```\n\n```{unsupported_lang}\ncode2\n```\n";
    let chunks = vec![
        chunk(0, "unsupported_lang", "code1", source, "```{unsupported_lang}\ncode1\n```"),
        chunk(1, "unsupported_lang", "code2", source, "```{unsupported_lang}\ncode2\n```"),
    ];
    let runs = std::rc::Rc::new(std::cell::Cell::new(0));
    let mut starter = Starter { runs: runs.clone() };
    let mut store = MemStore::default();
    let mut events = Events::default();
    let result = compiler()
        .compile(chunks, vec![], source, "test.knot", CacheMetadata::default(), &mut starter, &mut store, &mut events, &Cancellation::new())
        .expect("compile() must succeed even when a language executor is unavailable");
    assert!(result.contains("Execution Error"), "Expected error block for first chunk, got:\n{result}");
    assert!(result.contains("is-inert: true"), "Expected inert marker for second chunk (cascade), got:\n{result}");
    assert_eq!(runs.get(), 0);
    assert_eq!(events.0, vec![0, 1]);
}

#[test]
fn a_failure_suspends_only_its_own_language() {
    let source = "```{r}\nstop()\n```\n```{python}\nprint(1)\n```\n```{r}\nx\n```\n";
    let chunks = vec![
        chunk(0, "r", "stop()", source, "```{r}\nstop()\n```"),
        chunk(1, "python", "print(1)", source, "```{python}\nprint(1)\n```"),
        chunk(2, "r", "x", source, "```{r}\nx\n```"),
    ];
    let runs = std::rc::Rc::new(std::cell::Cell::new(0));
    let mut starter = Starter { runs: runs.clone() };
    let mut store = MemStore::default();
    let mut events = Events::default();
    let result = compiler()
        .compile(chunks, vec![], source, "doc.knot", CacheMetadata::default(), &mut starter, &mut store, &mut events, &Cancellation::new())
        .unwrap();
    // The failing R chunk and the Python chunk ran; the later R chunk did not.
    assert_eq!(runs.get(), 2);
    assert!(result.contains("Execution Error"), "{result}");
    assert!(result.contains("[1] print(1)"), "{result}");
    assert!(!result.contains("[1] x"), "{result}");
    assert!(result.contains("is-inert: true"), "{result}");
    assert_eq!(store.persisted >= 1, true);
    let mut seen = events.0.clone();
    seen.sort();
    assert_eq!(seen, vec![0, 1, 2]);
}

#[test]
fn inline_expressions_are_inserted_where_they_stand() {
    let source = "A `{r} 1+1` B\n";
    let start = source.find('`').unwrap();
    let end = source.rfind('`').unwrap() + 1;
    let inline = InlineExpr {
        language: "r".to_string(),
        code: "1+1".to_string(),
        options: InlineOptions::default(),
        errors: vec![],
        start,
        end,
        code_start_byte: start + 5,
        code_end_byte: end - 1,
    };
    let runs = std::rc::Rc::new(std::cell::Cell::new(0));
    let mut starter = Starter { runs };
    let mut store = MemStore::default();
    let mut events = Events::default();
    let result = compiler()
        .compile(vec![], vec![inline], source, "doc.knot", CacheMetadata::default(), &mut starter, &mut store, &mut events, &Cancellation::new())
        .unwrap();
    assert_eq!(result, "A <1+1> B\n");
}

#[test]
fn spans_that_do_not_fit_the_source_fail_before_running() {
    let source = "é";
    let mut c = chunk(0, "r", "x", "```{r}\nx\n```", "```{r}\nx\n```");
    c.start_byte = 1;
    c.end_byte = 2;
    let runs = std::rc::Rc::new(std::cell::Cell::new(0));
    let mut starter = Starter { runs: runs.clone() };
    let mut store = MemStore::default();
    let mut events = Events::default();
    let result = compiler().compile(vec![c], vec![], source, "doc.knot", CacheMetadata::default(), &mut starter, &mut store, &mut events, &Cancellation::new());
    assert!(matches!(result, Err(CompileError::Spans)));
    assert_eq!(runs.get(), 0);
}

#[test]
fn a_cancelled_compilation_stops() {
    let source = "```{r}\nx\n```\n";
    let chunks = vec![chunk(0, "r", "x", source, "```{r}\nx\n```")];
    let runs = std::rc::Rc::new(std::cell::Cell::new(0));
    let mut starter = Starter { runs: runs.clone() };
    let mut store = MemStore::default();
    let mut events = Events::default();
    let cancellation = Cancellation::new();
    cancellation.cancel();
    let result = compiler().compile(chunks, vec![], source, "doc.knot", CacheMetadata::default(), &mut starter, &mut store, &mut events, &cancellation);
    assert!(matches!(result, Err(CompileError::Execution(_))));
    assert_eq!(runs.get(), 0);
}

#[test]
fn a_failed_pass_gives_every_interpreter_back() {
    let source = "```{r}\nx\n```\n";
    let chunks = vec![chunk(0, "r", "x", source, "```{r}\nx\n```")];
    let runs = std::rc::Rc::new(std::cell::Cell::new(0));
    let mut starter = Starter { runs: runs.clone() };
    let mut store = MemStore::default();
    let mut events = Events::default();
    let cancellation = Cancellation::new();
    cancellation.cancel();
    let mut c = compiler();
    let result = c.compile(chunks, vec![], source, "doc.knot", CacheMetadata::default(), &mut starter, &mut store, &mut events, &cancellation);
    assert!(result.is_err());
    assert_eq!(c.executor_manager.executor_count(), 1);
    assert!(c.executor_manager.is_supported("r"));
}

#[test]
fn a_recorded_interpreter_runs_the_code_it_is_given() {
    let runs = std::rc::Rc::new(std::cell::Cell::new(0));
    let mut interpreter = Interpreter::new(Scripted { runs: runs.clone() });
    let graphics = GraphicsOptions { width: "7".into(), height: "5".into(), dpi: 300, format: "svg".into() };
    match interpreter.run_chunk("y <- 2", &graphics) {
        Ok(ExecutionAttempt::Success(o)) => {
            assert!(matches!(o.result, ExecutionResult::Text(ref t) if t == "[1] y <- 2"))
        },
        _ => panic!("expected a success"),
    }
    assert_eq!(interpreter.run_inline("1 + 1").unwrap(), "<1 + 1>");
    assert!(interpreter.load("/tmp/s.RData").is_err());
    assert_eq!(runs.get(), 1);
    let session = interpreter.into_session();
    assert_eq!(session.runs.get(), 1);
}
