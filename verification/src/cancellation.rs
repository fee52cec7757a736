//! Cooperative cancellation at compilation boundaries.
use std::sync::atomic::AtomicBool;
use std::sync::Arc;
use vstd::prelude::*;

verus! {

/// A cancellation flag shared by the clones of a value. Interpreter calls
/// in flight finish (or time out), but later nodes and publication can be
/// skipped.
#[derive(Clone)]
pub struct Cancellation {
    flag: Arc<AtomicBool>,
}

/// Message of a compilation stopped because a newer one superseded it.
pub open spec fn superseded_message() -> Seq<char> {
    "Compilation superseded"@
}

impl Cancellation {
    /// A compilation not cancelled yet.
    pub fn new() -> (r: Cancellation) {
        Cancellation { flag: Arc::new(AtomicBool::new(false)) }
    }

    /// Marks the compilation as superseded.
    pub fn cancel(&self) {
        self.flag.store(true, std::sync::atomic::Ordering::SeqCst)
    }

    /// Whether a newer request superseded the compilation.
    pub fn is_cancelled(&self) -> (r: bool) {
        self.flag.load(std::sync::atomic::Ordering::SeqCst)
    }

    /// Stops at a safe compilation boundary once the compilation was
    /// superseded.
    pub fn check(&self) -> (r: Result<(), String>)
        ensures
            r matches Err(m) ==> m@ == superseded_message(),
    {
        if self.is_cancelled() {
            return Err("Compilation superseded".to_string());
        }
        Ok(())
    }
}

impl Default for Cancellation {
    /// A compilation not cancelled yet.
    fn default() -> (r: Self) {
        Cancellation::new()
    }
}

} // verus!
