use knot::cache::{
    create_chunk_entry, snapshot_files_intact, Cache, CacheError, CacheMetadata, CacheStore, SnapshotEntry,
};
use knot::executors::manager::{ExecutorFactory, ExecutorManager};
use knot::executors::{
    ExecError, ExecutionAttempt, ExecutionOutput, ExecutionResult, GraphicsOptions, KnotExecutor,
    RuntimeError, RuntimeWarning,
};
use std::collections::HashMap;

/// Files in memory; the index is kept as the last persisted copy.
#[derive(Default)]
struct MemStore {
    files: HashMap<String, Vec<u8>>,
    persisted: Option<CacheMetadata>,
}

impl CacheStore for MemStore {
    fn file_exists(&self, path: &str) -> bool {
        self.files.contains_key(path)
    }
    fn read_bytes(&self, path: &str) -> Option<Vec<u8>> {
        self.files.get(path).cloned()
    }
    fn file_size(&self, path: &str) -> Option<u64> {
        self.files.get(path).map(|b| b.len() as u64)
    }
    fn read_text(&self, path: &str) -> Option<String> {
        self.files.get(path).and_then(|b| String::from_utf8(b.clone()).ok())
    }
    fn write_text(&mut self, path: &str, contents: &str) -> Result<(), String> {
        self.files.insert(path.to_string(), contents.as_bytes().to_vec());
        Ok(())
    }
    fn copy_file(&mut self, from: &str, to: &str) -> Result<(), String> {
        let b = self.files.get(from).cloned().ok_or("missing")?;
        self.files.insert(to.to_string(), b);
        Ok(())
    }
    fn persist(&mut self, _cache_dir: &str, metadata: &CacheMetadata) -> Result<(), String> {
        self.persisted = Some(metadata.clone());
        Ok(())
    }
}

fn reopened(store: &MemStore, dir: &str) -> Cache {
    Cache::new(dir.to_string(), store.persisted.clone().unwrap())
}

#[test]
fn test_snapshot_path_generation() {
    let cache_dir = "/project/.knot_cache/test".to_string();
    let cache = Cache::new(cache_dir.clone(), CacheMetadata::default());
    let snapshot_path = cache.get_snapshot_path("abc123def456", "RData");
    assert_eq!(snapshot_path, "/project/.knot_cache/test/snapshot_abc123def456.RData");
    let (parent, name) = snapshot_path.rsplit_once('/').unwrap();
    assert_eq!(name, "snapshot_abc123def456.RData");
    assert_eq!(parent, cache_dir);
}

#[test]
fn test_snapshot_different_hashes() {
    let cache = Cache::new("/project/.knot_cache/test".to_string(), CacheMetadata::default());
    let path1 = cache.get_snapshot_path("hash1", "RData");
    let path2 = cache.get_snapshot_path("hash2", "RData");
    assert_ne!(path1, path2);
}

#[test]
fn chunk_entry_replacement_persists_success_and_error_transitions() {
    let dir = "/root/cache";
    let mut store = MemStore::default();
    let mut cache = Cache::new(dir.to_string(), CacheMetadata::default());
    let output = ExecutionOutput {
        result: ExecutionResult::Text("answer".into()),
        exports: vec![],
        warnings: vec![],
    };
    cache
        .save_result(0, Some("first".into()), "python".into(), "success".into(), &output, vec![], &mut store)
        .unwrap();
    let error = RuntimeError { message: Some("failed".into()), call: None, line: None, traceback: vec![] };
    cache
        .save_error(0, Some("second".into()), "python".into(), "error".into(), error, vec![], &mut store)
        .unwrap();
    let persisted = reopened(&store, dir);
    assert_eq!(persisted.metadata.chunks.len(), 1);
    assert_eq!(persisted.metadata.chunks[0].name.as_deref(), Some("second"));
    assert!(persisted.get_cached_result("success", &store).is_err());
    assert!(matches!(
        persisted.get_cached_result("error", &store).unwrap(),
        ExecutionAttempt::RuntimeError(_)
    ));
    cache
        .save_result(0, None, "python".into(), "recovered".into(), &output, vec![], &mut store)
        .unwrap();
    let persisted = reopened(&store, dir);
    assert_eq!(persisted.metadata.chunks.len(), 1);
    assert!(persisted.get_cached_result("error", &store).is_err());
    assert!(matches!(
        persisted.get_cached_result("recovered", &store).unwrap(),
        ExecutionAttempt::Success(_)
    ));
}

#[test]
fn cached_text_comes_back_as_it_was_saved() {
    let mut store = MemStore::default();
    let mut cache = Cache::new("/c".to_string(), CacheMetadata::default());
    let output = ExecutionOutput {
        result: ExecutionResult::Text("[1] 2".into()),
        exports: vec![],
        warnings: vec![],
    };
    cache.save_result(3, None, "r".into(), "h1".into(), &output, vec![], &mut store).unwrap();
    assert!(cache.has_cached_result("h1"));
    assert_eq!(store.read_text("/c/chunk_h1.txt").unwrap(), "[1] 2");
    match cache.get_cached_result("h1", &store).unwrap() {
        ExecutionAttempt::Success(o) => match o.result {
            ExecutionResult::Text(t) => assert_eq!(t, "[1] 2"),
            other => panic!("unexpected {other:?}"),
        },
        other => panic!("unexpected {other:?}"),
    }
    // A file removed behind the cache's back makes the entry unusable.
    store.files.clear();
    assert!(matches!(cache.get_cached_result("h1", &store), Err(CacheError::FileMissing(_))));
    assert!(matches!(cache.get_cached_result("h2", &store), Err(CacheError::NotFound(_))));
}

#[test]
fn saving_an_inline_result_keeps_the_others() {
    let mut store = MemStore::default();
    let mut cache = Cache::new("/c".to_string(), CacheMetadata::default());
    cache.save_inline_result("a".into(), "1", &mut store).unwrap();
    cache.save_inline_result("b".into(), "2", &mut store).unwrap();
    cache.save_inline_result("a".into(), "3", &mut store).unwrap();
    assert_eq!(cache.get_cached_inline_result("a").unwrap(), "3");
    assert_eq!(cache.get_cached_inline_result("b").unwrap(), "2");
    assert_eq!(cache.metadata.inline_expressions.len(), 2);
}

struct Idle;

impl KnotExecutor for Idle {
    fn initialize(&mut self) -> Result<(), ExecError> {
        Ok(())
    }
    fn execute(&mut self, _c: &str, _g: &GraphicsOptions) -> Result<ExecutionAttempt, ExecError> {
        Err(ExecError::Failed("idle".into()))
    }
    fn execute_inline(&mut self, _c: &str) -> Result<String, ExecError> {
        Ok(String::new())
    }
    fn query(&mut self, _c: &str) -> Result<String, ExecError> {
        Ok(String::new())
    }
    fn save_session(&mut self, _p: &str) -> Result<(), ExecError> {
        Ok(())
    }
    fn load_session(&mut self, _p: &str) -> Result<(), ExecError> {
        Ok(())
    }
    fn snapshot_extension(&self) -> &'static str {
        "pkl"
    }
    fn hash_object(&mut self, _n: &str) -> Result<String, ExecError> {
        Ok(String::new())
    }
    fn save_constant(&mut self, _n: &str, _h: &str, _d: &str) -> Result<(), ExecError> {
        Ok(())
    }
    fn object_extension(&self) -> &'static str {
        "pkl"
    }
}

struct IdleStarter(usize);

impl ExecutorFactory<Idle> for IdleStarter {
    fn create(&mut self, _lang: &str, _dir: &str) -> Result<Idle, ExecError> {
        self.0 += 1;
        Ok(Idle)
    }
}

fn setup_manager() -> ExecutorManager<Idle> {
    ExecutorManager::new("/tmp/knot-cache".to_string())
}

#[test]
fn test_lazy_initialization() {
    let manager = setup_manager();
    assert_eq!(manager.executor_count(), 0);
}

#[test]
fn test_unsupported_language() {
    let mut manager = setup_manager();
    let mut starter = IdleStarter(0);
    let result = manager.get_executor("julia", &mut starter);
    assert!(result.is_err());
    if let Err(ExecError::Failed(error_msg)) = result {
        assert!(error_msg.contains("Unsupported language"));
        assert!(error_msg.contains("julia"));
    }
    assert_eq!(starter.0, 0);
}

#[test]
fn test_is_supported() {
    let manager = setup_manager();
    assert!(manager.is_supported("r"));
    assert!(manager.is_supported("python"));
    assert!(!manager.is_supported("julia"));
    assert!(!manager.is_supported("javascript"));
    assert!(!manager.is_supported(""));
}

#[test]
fn test_executor_cached() {
    let mut manager = setup_manager();
    let mut starter = IdleStarter(0);
    let _exec1 = manager.get_executor("python", &mut starter).unwrap();
    assert_eq!(manager.executor_count(), 1);
    let _exec2 = manager.get_executor("python", &mut starter).unwrap();
    assert_eq!(manager.executor_count(), 1);
    assert_eq!(starter.0, 1);
}

#[test]
fn test_multiple_languages() {
    let mut manager = setup_manager();
    let mut starter = IdleStarter(0);
    assert!(manager.get_executor("r", &mut starter).is_ok());
    assert!(manager.get_executor("python", &mut starter).is_ok());
    assert_eq!(manager.executor_count(), 2);
    let taken = manager.take("r");
    assert!(taken.is_some());
    assert_eq!(manager.executor_count(), 1);
    manager.put_back("r".to_string(), taken.unwrap());
    assert_eq!(manager.executor_count(), 2);
    manager.shutdown_all();
    assert_eq!(manager.executor_count(), 0);
}

#[test]
fn a_chunk_entry_records_what_the_chunk_produced() {
    let warning = RuntimeWarning { message: "careful".into(), call: None, line: Some(2) };
    let entry = create_chunk_entry(
        3,
        Some("plot".into()),
        "r".into(),
        "abc".into(),
        vec!["plot.svg".into()],
        vec![warning],
        None,
        vec!["data.csv".into()],
    );
    assert_eq!(entry.index, 3);
    assert_eq!(entry.name.as_deref(), Some("plot"));
    assert_eq!(entry.language, "r");
    assert_eq!(entry.hash, "abc");
    assert_eq!(entry.files, vec!["plot.svg".to_string()]);
    assert!(entry.file_hashes.is_empty());
    assert_eq!(entry.warnings.len(), 1);
    assert_eq!(entry.warnings[0].message, "careful");
    assert!(entry.error.is_none());
    assert_eq!(entry.dependencies, vec!["data.csv".to_string()]);
    assert!(!entry.updated_at.is_empty());
}

#[test]
fn a_snapshot_is_restorable_only_when_every_file_reads_back_unchanged() {
    let digest = knot::hashing::hash_file_contents(&b"state".to_vec());
    let entry = SnapshotEntry {
        reusable: true,
        files: vec![("snapshot_h.pkl".to_string(), digest)],
        freeze_objects: vec![],
    };
    assert!(snapshot_files_intact(&entry, &vec![Some(b"state".to_vec())]));
    assert!(!snapshot_files_intact(&entry, &vec![Some(b"other".to_vec())]));
    assert!(!snapshot_files_intact(&entry, &vec![None]));
    let not_reusable = SnapshotEntry { reusable: false, ..entry.clone() };
    assert!(!snapshot_files_intact(&not_reusable, &vec![Some(b"state".to_vec())]));
}
