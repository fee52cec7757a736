use knot::ast::{InlineExpr, InlineOptions, Show};
use knot::cache::{Cache, CacheError, CacheMetadata, CacheStore};
use knot::executors::manager::{ExecutorFactory, ExecutorManager};
use knot::executors::{ExecError, ExecutionAttempt, GraphicsOptions, KnotExecutor};
use knot::inline_processor::{process_inline_expr, InlineError};

#[derive(Default)]
struct NoFiles {
    persisted: usize,
}

impl CacheStore for NoFiles {
    fn file_exists(&self, _path: &str) -> bool {
        false
    }
    fn read_bytes(&self, _path: &str) -> Option<Vec<u8>> {
        None
    }
    fn file_size(&self, _path: &str) -> Option<u64> {
        None
    }
    fn read_text(&self, _path: &str) -> Option<String> {
        None
    }
    fn write_text(&mut self, _path: &str, _contents: &str) -> Result<(), String> {
        Ok(())
    }
    fn copy_file(&mut self, _from: &str, _to: &str) -> Result<(), String> {
        Ok(())
    }
    fn persist(&mut self, _cache_dir: &str, _metadata: &CacheMetadata) -> Result<(), String> {
        self.persisted += 1;
        Ok(())
    }
}

/// Evaluates inline expressions by echoing them; fails on `stop()`.
struct Echo;

impl KnotExecutor for Echo {
    fn initialize(&mut self) -> Result<(), ExecError> {
        Ok(())
    }
    fn execute(&mut self, _code: &str, _g: &GraphicsOptions) -> Result<ExecutionAttempt, ExecError> {
        Err(ExecError::Failed("chunks are not run here".into()))
    }
    fn execute_inline(&mut self, code: &str) -> Result<String, ExecError> {
        if code == "stop()" {
            Err(ExecError::Failed("stopped".into()))
        } else {
            Ok(format!("={code}"))
        }
    }
    fn query(&mut self, _code: &str) -> Result<String, ExecError> {
        Ok(String::new())
    }
    fn save_session(&mut self, _path: &str) -> Result<(), ExecError> {
        Ok(())
    }
    fn load_session(&mut self, _path: &str) -> Result<(), ExecError> {
        Ok(())
    }
    fn snapshot_extension(&self) -> &'static str {
        "RData"
    }
    fn hash_object(&mut self, _name: &str) -> Result<String, ExecError> {
        Ok(String::new())
    }
    fn save_constant(&mut self, _n: &str, _h: &str, _d: &str) -> Result<(), ExecError> {
        Ok(())
    }
    fn object_extension(&self) -> &'static str {
        "rds"
    }
}

/// Starts echo interpreters, or none when interpreters cannot start.
struct Starter {
    available: bool,
    started: usize,
}

impl ExecutorFactory<Echo> for Starter {
    fn create(&mut self, _lang: &str, _cache_dir: &str) -> Result<Echo, ExecError> {
        if self.available {
            self.started += 1;
            Ok(Echo)
        } else {
            Err(ExecError::Failed("R not found".into()))
        }
    }
}

fn create_inline_expr(code: &str, options: InlineOptions) -> InlineExpr {
    InlineExpr {
        language: "r".to_string(),
        code: code.to_string(),
        options,
        errors: vec![],
        start: 0,
        end: code.len(),
        code_start_byte: 0,
        code_end_byte: code.len(),
    }
}

fn setup_test_cache() -> Cache {
    Cache::new(".knot_cache/test".to_string(), CacheMetadata::default())
}

#[test]
fn test_process_inline_eval_false_no_executor() {
    let inline = create_inline_expr("x <- 42", InlineOptions { eval: Some(false), ..Default::default() });
    let mut cache = setup_test_cache();
    let mut manager: ExecutorManager<Echo> = ExecutorManager::new("/cache".to_string());
    let mut starter = Starter { available: false, started: 0 };
    let mut store = NoFiles::default();
    let result = process_inline_expr(&inline, &mut manager, &mut starter, &mut cache, &mut store, "prev_hash");
    assert!(result.is_ok());
    let (output, _hash) = result.unwrap();
    assert_eq!(output, "");
    assert_eq!(manager.executor_count(), 0);
}

#[test]
fn test_process_inline_hash_consistency() {
    let inline = create_inline_expr("1 + 1", InlineOptions::default());
    let cache = setup_test_cache();
    let hash1 = cache.get_inline_expr_hash(&inline.language, &inline.code, &inline.options, "prev_hash");
    let hash2 = cache.get_inline_expr_hash(&inline.language, &inline.code, &inline.options, "prev_hash");
    assert_eq!(hash1, hash2);
}

#[test]
fn test_process_inline_hash_changes_with_code() {
    let inline1 = create_inline_expr("1 + 1", InlineOptions::default());
    let inline2 = create_inline_expr("2 + 2", InlineOptions::default());
    let cache = setup_test_cache();
    let hash1 = cache.get_inline_expr_hash(&inline1.language, &inline1.code, &inline1.options, "prev_hash");
    let hash2 = cache.get_inline_expr_hash(&inline2.language, &inline2.code, &inline2.options, "prev_hash");
    assert_ne!(hash1, hash2);
}

#[test]
fn test_process_inline_hash_changes_with_options() {
    let inline_default = create_inline_expr("x <- 1", InlineOptions::default());
    let inline_eval_false = create_inline_expr("x <- 1", InlineOptions { eval: Some(false), ..Default::default() });
    let inline_output_false = create_inline_expr("x <- 1", InlineOptions { show: Some(Show::Code), ..Default::default() });
    let cache = setup_test_cache();
    let hash1 = cache.get_inline_expr_hash(&inline_default.language, &inline_default.code, &inline_default.options, "prev_hash");
    let hash2 = cache.get_inline_expr_hash(&inline_eval_false.language, &inline_eval_false.code, &inline_eval_false.options, "prev_hash");
    let hash3 = cache.get_inline_expr_hash(&inline_output_false.language, &inline_output_false.code, &inline_output_false.options, "prev_hash");
    assert_ne!(hash1, hash2);
    assert_ne!(hash1, hash3);
    assert_ne!(hash2, hash3);
}

#[test]
fn test_process_inline_hash_changes_with_previous() {
    let inline = create_inline_expr("1 + 1", InlineOptions::default());
    let cache = setup_test_cache();
    let hash1 = cache.get_inline_expr_hash(&inline.language, &inline.code, &inline.options, "prev_hash_1");
    let hash2 = cache.get_inline_expr_hash(&inline.language, &inline.code, &inline.options, "prev_hash_2");
    assert_ne!(hash1, hash2);
}

#[test]
fn test_inline_eval_false_produces_empty_output() {
    let inline = create_inline_expr("x <- 42", InlineOptions { eval: Some(false), ..Default::default() });
    assert!(!inline.options.resolve().eval);
}

#[test]
fn test_inline_expr_structure() {
    let inline = create_inline_expr("mean(1:10)", InlineOptions::default());
    let resolved = inline.options.resolve();
    assert_eq!(inline.language, "r");
    assert_eq!(inline.code, "mean(1:10)");
    assert_eq!(resolved.show, Show::Output);
    assert!(resolved.eval);
    assert_eq!(resolved.digits, None);
    assert_eq!(inline.start, 0);
    assert_eq!(inline.end, "mean(1:10)".len());
}

#[test]
fn test_inline_expr_with_options_structure() {
    let inline = create_inline_expr(
        "library(dplyr)",
        InlineOptions { eval: Some(false), show: Some(Show::Code), digits: Some(3) },
    );
    let resolved = inline.options.resolve();
    assert_eq!(inline.language, "r");
    assert_eq!(inline.code, "library(dplyr)");
    assert!(!resolved.eval);
    assert_eq!(resolved.show, Show::Code);
    assert_eq!(resolved.digits, Some(3));
}

#[test]
fn test_cache_stores_inline_results() {
    let mut cache = setup_test_cache();
    let mut store = NoFiles::default();
    let hash = "test_inline_hash_12345";
    let result = "42";
    cache.save_inline_result(hash.to_string(), result, &mut store).unwrap();
    assert!(cache.has_cached_inline_result(hash));
    let cached = cache.get_cached_inline_result(hash).unwrap();
    assert_eq!(cached, result);
    assert_eq!(store.persisted, 1);
}

#[test]
fn test_cache_inline_result_not_found() {
    let cache = setup_test_cache();
    let hash = "nonexistent_hash";
    assert!(!cache.has_cached_inline_result(hash));
    assert_eq!(
        cache.get_cached_inline_result(hash),
        Err(CacheError::InlineNotFound("nonexistent_hash".to_string()))
    );
}

#[test]
fn test_empty_inline_code() {
    let inline = create_inline_expr("", InlineOptions::default());
    let cache = setup_test_cache();
    let hash = cache.get_inline_expr_hash(&inline.language, &inline.code, &inline.options, "prev_hash");
    assert!(!hash.is_empty());
}

#[test]
fn an_executed_inline_result_is_cached_then_reused() {
    let inline = create_inline_expr("1 + 1", InlineOptions::default());
    let mut cache = setup_test_cache();
    let mut manager: ExecutorManager<Echo> = ExecutorManager::new("/cache".to_string());
    let mut starter = Starter { available: true, started: 0 };
    let mut store = NoFiles::default();
    let (text, hash) =
        process_inline_expr(&inline, &mut manager, &mut starter, &mut cache, &mut store, "").unwrap();
    assert_eq!(text, "=1 + 1");
    assert_eq!(cache.get_cached_inline_result(&hash).unwrap(), "=1 + 1");
    assert_eq!(starter.started, 1);
    // A second run takes the cached text and starts nothing.
    let (again, _) =
        process_inline_expr(&inline, &mut manager, &mut starter, &mut cache, &mut store, "").unwrap();
    assert_eq!(again, "=1 + 1");
    assert_eq!(starter.started, 1);
}

#[test]
fn hidden_inline_output_caches_nothing_shown() {
    let inline = create_inline_expr("x", InlineOptions { show: Some(Show::Code), ..Default::default() });
    let mut cache = setup_test_cache();
    let mut manager: ExecutorManager<Echo> = ExecutorManager::new("/cache".to_string());
    let mut starter = Starter { available: true, started: 0 };
    let mut store = NoFiles::default();
    let (text, hash) =
        process_inline_expr(&inline, &mut manager, &mut starter, &mut cache, &mut store, "").unwrap();
    assert_eq!(text, "");
    assert_eq!(cache.get_cached_inline_result(&hash).unwrap(), "");
}

#[test]
fn inline_failures_name_the_expression() {
    let inline = create_inline_expr("stop()", InlineOptions::default());
    let mut cache = setup_test_cache();
    let mut manager: ExecutorManager<Echo> = ExecutorManager::new("/cache".to_string());
    let mut starter = Starter { available: true, started: 0 };
    let mut store = NoFiles::default();
    match process_inline_expr(&inline, &mut manager, &mut starter, &mut cache, &mut store, "") {
        Err(InlineError::Execution(m)) => {
            assert_eq!(m, "Failed to execute inline expression: `{r} stop()`: stopped")
        }
        other => panic!("unexpected {other:?}"),
    }
    let mut julia = create_inline_expr("1", InlineOptions::default());
    julia.language = "julia".to_string();
    match process_inline_expr(&julia, &mut manager, &mut starter, &mut cache, &mut store, "") {
        Err(InlineError::Executor(ExecError::Failed(m))) => assert_eq!(m, "Unsupported language: julia"),
        other => panic!("unexpected {other:?}"),
    }
}
