//! Session snapshots along one language chain: which snapshot the
//! interpreter holds, restoring the state a node starts from, saving the
//! state a node leaves, and the size budget of the snapshots.
use crate::cache::{snapshot_loaded, snapshot_verdict, Cache, CacheError, CacheStore, SnapshotEntry, has_usable_snapshot};
use crate::compiler::{has_text, PlannedNode};
use crate::executors::{
    extends, lemma_extends_last, lemma_extends_refl, requests_of, ExecError, Interpreter, KnotExecutor,
};
use crate::hashing::hash_file_contents;
use crate::text::{chars_of, push_str, string_of};
use vstd::prelude::*;

verus! {

/// Snapshots of a chain occupy more than their limit.
#[derive(Debug, Clone, PartialEq, Eq)]
pub struct SnapshotOverrun {
    /// Language of the chain.
    pub language: String,
    /// Bytes occupied by the snapshots seen in the chain.
    pub bytes: u64,
    /// The limit.
    pub limit: u64,
}

/// The size of the snapshots met along one language chain, each file
/// counted once; it warns once when the limit is passed.
pub struct SnapshotBudget {
    /// Files already counted.
    pub seen: Vec<String>,
    /// Bytes counted (saturating).
    pub bytes: u64,
    /// Whether the warning was given.
    pub warned: bool,
}

impl SnapshotBudget {
    /// Nothing counted, no warning given.
    pub fn new() -> (r: SnapshotBudget)
        ensures
            r.seen@.len() == 0,
            r.bytes == 0,
            !r.warned,
    {
        SnapshotBudget { seen: Vec::new(), bytes: 0, warned: false }
    }

    /// Counts the files of the snapshot recorded under `hash` that were not
    /// counted yet (their sizes come from `store`), and warns the first time
    /// the total passes `threshold`. Nothing is counted without a threshold
    /// or once the warning was given.
    pub fn observe<S: CacheStore>(
        &mut self,
        cache: &Cache,
        hash: &str,
        language: &str,
        threshold: Option<u64>,
        store: &S,
    ) -> (r: Result<Option<SnapshotOverrun>, String>)
        ensures
            (threshold is None || old(self).warned) ==> (r matches Ok(None) && final(self).bytes
                == old(self).bytes && final(self).warned == old(self).warned),
            final(self).bytes >= old(self).bytes,
            forall|s: Seq<char>| #[trigger]
                has_text(old(self).seen@, s) ==> has_text(final(self).seen@, s),
            r matches Ok(Some(o)) ==> threshold == Some(o.limit) && o.bytes == final(self).bytes
                && o.bytes > o.limit && o.language@ == language@ && !old(self).warned
                && final(self).warned,
            r matches Ok(None) ==> final(self).warned == old(self).warned,
            r matches Ok(None) && !old(self).warned ==> (threshold matches Some(l) ==> final(self).bytes <= l),
            r is Err ==> final(self).warned == old(self).warned,
    {
        let limit = match threshold {
            Some(l) => l,
            None => return Ok(None),
        };
        if self.warned {
            return Ok(None);
        }
        let mut i: usize = 0;
        let n = cache.metadata.snapshots.len();
        while i < n
            invariant
                n == cache.metadata.snapshots@.len(),
                threshold == Some(limit),
                !old(self).warned,
                self.bytes >= old(self).bytes,
                self.warned == old(self).warned,
                forall|s: Seq<char>| #[trigger]
                    has_text(old(self).seen@, s) ==> has_text(self.seen@, s),
            decreases n - i,
        {
            let key = chars_of(cache.metadata.snapshots[i].0.as_str());
            if crate::text::spells(&key, hash) {
                let entry = &cache.metadata.snapshots[i].1;
                let mut k: usize = 0;
                while k < entry.files.len()
                    invariant
                        threshold == Some(limit),
                        !old(self).warned,
                        self.bytes >= old(self).bytes,
                        self.warned == old(self).warned,
                        forall|s: Seq<char>| #[trigger]
                            has_text(old(self).seen@, s) ==> has_text(self.seen@, s),
                    decreases entry.files.len() - k,
                {
                    let path = &entry.files[k].0;
                    if !crate::compiler::contains_text(&self.seen, path.as_str()) {
                        crate::compiler::with_text(&mut self.seen, path.as_str());
                        let full = crate::sync::join_path(
                            cache.cache_dir.as_str(),
                            &chars_of(path.as_str()),
                        );
                        let size = match store.file_size(full.as_str()) {
                            Some(b) => b,
                            None => {
                                let mut m = chars_of("Cannot measure snapshot ");
                                push_str(&mut m, path.as_str());
                                return Err(string_of(&m));
                            },
                        };
                        self.bytes = self.bytes.saturating_add(size);
                    }
                    k = k + 1;
                }
                break;
            }
            i = i + 1;
        }
        if self.bytes <= limit {
            return Ok(None);
        }
        self.warned = true;
        Ok(Some(SnapshotOverrun { language: language.to_string(), bytes: self.bytes, limit }))
    }
}

/// Why a snapshot could not be saved or restored.
#[derive(Debug, Clone, PartialEq, Eq)]
pub enum SnapshotError {
    /// Snapshots are disabled but a restore was needed.
    Disabled,
    /// The state of a language could not be restored.
    Restore(String),
    /// The state of a language could not be saved.
    Save(String),
}

/// Text of a snapshot error.
pub open spec fn snapshot_error_text(e: SnapshotError) -> Seq<char> {
    match e {
        SnapshotError::Disabled => "Cannot restore a snapshot when snapshots are disabled"@,
        SnapshotError::Restore(m) => m@,
        SnapshotError::Save(m) => m@,
    }
}

impl SnapshotError {
    /// Text of the error.
    pub fn message(&self) -> (r: String)
        ensures
            r@ == snapshot_error_text(*self),
    {
        match self {
            SnapshotError::Disabled => "Cannot restore a snapshot when snapshots are disabled".to_string(),
            SnapshotError::Restore(m) => m.clone(),
            SnapshotError::Save(m) => m.clone(),
        }
    }
}

/// Tracks the interpreter of one language chain and the snapshot its
/// session holds.
pub struct SnapshotManager<E> {
    /// Identity of the node whose state the interpreter holds.
    pub loaded_hash: Option<String>,
    /// Whether snapshots are taken and restored.
    pub allow_snapshots: bool,
    /// The interpreter, when the language has one.
    pub executor: Option<Interpreter<E>>,
    /// Size of the snapshots met so far.
    pub budget: SnapshotBudget,
    /// Warning to show with the next inline expression.
    pub inline_warning: Option<String>,
}

/// `a` followed by `b`, as a string.
fn text2(a: &str, b: &str) -> (r: String)
    ensures
        r@ == a@ + b@,
{
    let mut m = chars_of(a);
    push_str(&mut m, b);
    string_of(&m)
}

impl<E: KnotExecutor> SnapshotManager<E> {
    /// A manager for `executor` that holds no state yet.
    pub fn new(executor: Option<Interpreter<E>>, allow_snapshots: bool) -> (r: Self)
        ensures
            r.loaded_hash is None,
            r.allow_snapshots == allow_snapshots,
            r.executor == executor,
            r.budget.seen@.len() == 0,
            r.budget.bytes == 0,
            !r.budget.warned,
            r.inline_warning is None,
    {
        SnapshotManager {
            loaded_hash: None,
            allow_snapshots,
            executor,
            budget: SnapshotBudget::new(),
            inline_warning: None,
        }
    }

    /// The overrun of the snapshot budget reached at `node`, if snapshots
    /// are taken (see `SnapshotBudget::observe`).
    pub fn warning<S: CacheStore>(&mut self, node: &PlannedNode, cache: &Cache, store: &S) -> (r:
        Result<Option<SnapshotOverrun>, String>)
        ensures
            !old(self).allow_snapshots ==> (r matches Ok(None)
                && final(self).budget.bytes == old(self).budget.bytes
                && final(self).budget.warned == old(self).budget.warned),
            (node.snapshot_warning_threshold is None || old(self).budget.warned) ==> (r matches Ok(None)
                && final(self).budget.bytes == old(self).budget.bytes
                && final(self).budget.warned == old(self).budget.warned),
            final(self).budget.bytes >= old(self).budget.bytes,
            r matches Ok(Some(o)) ==> o.language@ == node.lang@ && node.snapshot_warning_threshold
                == Some(o.limit) && o.bytes > o.limit && o.bytes == final(self).budget.bytes
                && !old(self).budget.warned && final(self).budget.warned,
            r matches Ok(None) ==> final(self).budget.warned == old(self).budget.warned,
            (old(self).allow_snapshots && !old(self).budget.warned && r matches Ok(None)) ==> (
            node.snapshot_warning_threshold matches Some(l) ==> final(self).budget.bytes <= l),
            r is Err ==> final(self).budget.warned == old(self).budget.warned,
            final(self).executor == old(self).executor,
            final(self).loaded_hash == old(self).loaded_hash,
            final(self).allow_snapshots == old(self).allow_snapshots,
    {
        if !self.allow_snapshots {
            return Ok(None);
        }
        self.budget.observe(
            cache,
            node.hash.as_str(),
            node.lang.as_str(),
            node.snapshot_warning_threshold,
            store,
        )
    }

    /// The interpreter, given back.
    pub fn into_executor(self) -> (r: Option<Interpreter<E>>)
        ensures
            r == self.executor,
    {
        self.executor
    }

    /// Brings the interpreter to the state after the node `previous_hash`
    /// (nothing for the first node of a chain, or when it is already there):
    /// refused when snapshots are disabled; with an interpreter, its session
    /// is restored from the snapshot, which must be valid.
    pub fn restore_if_needed<S: CacheStore>(
        &mut self,
        lang: &str,
        previous_hash: &str,
        cache: &Cache,
        store: &S,
    ) -> (r: Result<(), SnapshotError>)
        ensures
            previous_hash@.len() == 0 || (old(self).loaded_hash matches Some(h) && h@
                == previous_hash@) ==> r is Ok && final(self).loaded_hash == old(self).loaded_hash,
            previous_hash@.len() > 0 && !(old(self).loaded_hash matches Some(h) && h@
                == previous_hash@) ==> {
                &&& (!old(self).allow_snapshots ==> r == Err::<(), SnapshotError>(
                    SnapshotError::Disabled,
                ))
                &&& (old(self).allow_snapshots && old(self).executor is None ==> r is Ok)
                &&& (old(self).allow_snapshots && old(self).executor is Some && !has_usable_snapshot(
                    cache.metadata,
                    previous_hash@,
                ) ==> r is Err)
                &&& (r is Ok && old(self).executor is Some ==> (final(self).loaded_hash matches Some(
                    h,
                ) && h@ == previous_hash@ && has_usable_snapshot(cache.metadata, previous_hash@)))
            },
            final(self).allow_snapshots == old(self).allow_snapshots,
            final(self).executor is Some <==> old(self).executor is Some,
            previous_hash@.len() == 0 || (old(self).loaded_hash matches Some(h) && h@
                == previous_hash@) || !old(self).allow_snapshots || old(self).executor is None
                ==> *final(self) == *old(self),
            !has_usable_snapshot(cache.metadata, previous_hash@) ==> (r is Err ==> *final(self)
                == *old(self)),
            r is Err ==> final(self).loaded_hash == old(self).loaded_hash && final(self).budget
                == old(self).budget && final(self).inline_warning == old(self).inline_warning,
            previous_hash@.len() > 0 && !(old(self).loaded_hash matches Some(h) && h@
                == previous_hash@) && old(self).allow_snapshots && old(self).executor is Some ==> (
            (r is Err && final(self).executor == old(self).executor && exists|
                bytes: Seq<Option<Seq<u8>>>,
            | !#[trigger] snapshot_verdict(cache.metadata, previous_hash@, bytes)) || exists|
                rr: Result<(), CacheError>,
            |
                #[trigger] snapshot_loaded(
                    cache.cache_dir@,
                    previous_hash@,
                    old(self).executor->0.requests@,
                    final(self).executor->0.requests@,
                    rr,
                ) && (r is Ok <==> rr is Ok)),
            extends(requests_of(old(self).executor), requests_of(final(self).executor)),
    {
        proof {
            lemma_extends_refl(requests_of(self.executor));
        }
        if previous_hash.is_empty() {
            return Ok(());
        }
        if let Some(h) = &self.loaded_hash {
            if crate::text::spells(&chars_of(h.as_str()), previous_hash) {
                return Ok(());
            }
        }
        if !self.allow_snapshots {
            return Err(SnapshotError::Disabled);
        }
        let ex = match self.executor.as_mut() {
            Some(e) => e,
            None => return Ok(()),
        };
        let ghost before = ex.requests@;
        let restored = cache.restore_snapshot(previous_hash, ex, store);
        proof {
            if !(restored matches Err(CacheError::InvalidSnapshot(_))) {
                lemma_extends_last(before, ex.requests@);
            } else {
                lemma_extends_refl(before);
            }
        }
        match restored {
            Ok(()) => {
                self.loaded_hash = Some(previous_hash.to_string());
                Ok(())
            },
            Err(e) => {
                let mut m = chars_of("Cannot restore ");
                push_str(&mut m, lang);
                push_str(&mut m, " state: ");
                push_str(&mut m, e.message().as_str());
                Err(SnapshotError::Restore(string_of(&m)))
            },
        }
    }

    /// After a node actually ran: with snapshots disabled, forgets any
    /// snapshot of it; otherwise saves the session as its snapshot and
    /// records the snapshot's files with their digests (with the package
    /// list of an R session). The interpreter then holds the node's state.
    pub fn record_execution<S: CacheStore>(
        &mut self,
        lang: &str,
        hash: &str,
        cache: &mut Cache,
        store: &mut S,
    ) -> (r: Result<(), SnapshotError>)
        ensures
            old(self).executor is None ==> r is Ok && final(cache).metadata == old(cache).metadata
                && final(self).loaded_hash == old(self).loaded_hash,
            old(self).executor is Some && !old(self).allow_snapshots ==> (r is Ok
                && final(cache).metadata.snapshots@ == snapshots_without(
                old(cache).metadata.snapshots@,
                hash@,
            ) && final(cache).metadata.inline_expressions == old(cache).metadata.inline_expressions
                && final(cache).metadata.freeze_objects == old(cache).metadata.freeze_objects
                && final(cache).metadata.format_version == old(cache).metadata.format_version
                && final(cache).metadata.document_hash == old(cache).metadata.document_hash
                && final(self).executor == old(self).executor
                && final(self).budget == old(self).budget),
            old(self).executor is Some && !old(self).allow_snapshots ==> r is Ok
                && (final(self).loaded_hash matches Some(h) && h@ == hash@)
                && !final(cache).metadata.snapshots@.map_values(
                |p: (String, SnapshotEntry)| p.0@,
            ).contains(hash@),
            r is Ok && old(self).executor is Some ==> (final(self).loaded_hash matches Some(h) && h@
                == hash@),
            old(self).allow_snapshots && r is Ok && old(self).executor is Some
                ==> final(cache).metadata.snapshots@.last().0@ == hash@,
            final(cache).cache_dir == old(cache).cache_dir,
            final(cache).metadata.chunks == old(cache).metadata.chunks,
            final(cache).metadata.inline_expressions == old(cache).metadata.inline_expressions,
            final(self).allow_snapshots == old(self).allow_snapshots,
            final(self).executor is Some <==> old(self).executor is Some,
            old(self).executor is Some ==> final(self).executor->0.requests == old(
                self,
            ).executor->0.requests,
    {
        let ex = match self.executor.as_mut() {
            Some(e) => e,
            None => return Ok(()),
        };
        if !self.allow_snapshots {
            remove_snapshot(cache, hash);
            self.loaded_hash = Some(hash.to_string());
            return Ok(());
        }
        let ext = ex.session.snapshot_extension();
        let snapshot = cache.get_snapshot_path(hash, ext);
        match ex.session.save_session(snapshot.as_str()) {
            Ok(()) => {},
            Err(ExecError::Failed(m)) => {
                let mut t = chars_of("Failed to save ");
                push_str(&mut t, lang);
                push_str(&mut t, " snapshot ");
                push_str(&mut t, snapshot.as_str());
                push_str(&mut t, ": ");
                push_str(&mut t, m.as_str());
                return Err(SnapshotError::Save(string_of(&t)));
            },
        }
        let replay = cache.get_snapshot_path(hash, "replay");
        let reusable = !store.file_exists(replay.as_str());
        let mut names: Vec<String> = Vec::new();
        let mut name = chars_of("snapshot_");
        push_str(&mut name, hash);
        push_str(&mut name, ".");
        push_str(&mut name, ext);
        names.push(string_of(&name));
        if crate::text::spells(&chars_of(ext), "RData") {
            let mut pk = chars_of("snapshot_");
            push_str(&mut pk, hash);
            push_str(&mut pk, "_packages.rds");
            names.push(string_of(&pk));
        }
        let mut files: Vec<(String, String)> = Vec::new();
        let mut i: usize = 0;
        while i < names.len()
            invariant
                i <= names@.len(),
                old(self).executor is Some,
                self.allow_snapshots,
                cache.cache_dir == old(cache).cache_dir,
                cache.metadata == old(cache).metadata,
                self.executor is Some,
                self.executor->0.requests == old(self).executor->0.requests,
                self.allow_snapshots == old(self).allow_snapshots,
            decreases names.len() - i,
        {
            let full = crate::sync::join_path(cache.cache_dir.as_str(), &chars_of(names[i].as_str()));
            match store.read_bytes(full.as_str()) {
                Some(bytes) => files.push((names[i].clone(), hash_file_contents(&bytes))),
                None => {
                    return Err(
                        SnapshotError::Save(text2("Cannot read snapshot file ", full.as_str())),
                    );
                },
            }
            i = i + 1;
        }
        remove_snapshot(cache, hash);
        cache.metadata.snapshots.push(
            (hash.to_string(), SnapshotEntry { reusable, files, freeze_objects: Vec::new() }),
        );
        self.loaded_hash = Some(hash.to_string());
        Ok(())
    }
}

/// The snapshots `s` without those recorded under `h`, in order.
pub open spec fn snapshots_without(s: Seq<(String, SnapshotEntry)>, h: Seq<char>) -> Seq<
    (String, SnapshotEntry),
>
    decreases s.len(),
{
    if s.len() == 0 {
        s
    } else if s[0].0@ != h {
        seq![s[0]] + snapshots_without(s.drop_first(), h)
    } else {
        snapshots_without(s.drop_first(), h)
    }
}

/// Forgets the snapshot recorded under `hash`.
fn remove_snapshot(cache: &mut Cache, hash: &str)
    ensures
        final(cache).metadata.snapshots@ == snapshots_without(old(cache).metadata.snapshots@, hash@),
        final(cache).metadata.format_version == old(cache).metadata.format_version,
        final(cache).metadata.document_hash == old(cache).metadata.document_hash,
        final(cache).cache_dir == old(cache).cache_dir,
        final(cache).metadata.chunks == old(cache).metadata.chunks,
        final(cache).metadata.inline_expressions == old(cache).metadata.inline_expressions,
        final(cache).metadata.freeze_objects == old(cache).metadata.freeze_objects,
        !final(cache).metadata.snapshots@.map_values(|p: (String, SnapshotEntry)| p.0@).contains(
            hash@,
        ),
        forall|k: int|
            0 <= k < old(cache).metadata.snapshots@.len() && old(cache).metadata.snapshots@[k].0@
                != hash@ ==> final(cache).metadata.snapshots@.contains(
                #[trigger] old(cache).metadata.snapshots@[k],
            ),
{
    let mut rest: Vec<(String, SnapshotEntry)> = Vec::new();
    std::mem::swap(&mut rest, &mut cache.metadata.snapshots);
    let ghost all = rest@;
    let total = rest.len();
    let mut kept: Vec<(String, SnapshotEntry)> = Vec::new();
    let mut taken: usize = 0;
    while rest.len() > 0
        invariant
            all.len() == total,
            taken <= all.len(),
            taken + rest@.len() == all.len(),
            rest@ == all.skip(taken as int),
            snapshots_without(all, hash@) == kept@ + snapshots_without(rest@, hash@),
            forall|j: int| 0 <= j < kept@.len() ==> (#[trigger] kept@[j]).0@ != hash@,
            forall|k: int|
                0 <= k < taken && all[k].0@ != hash@ ==> kept@.contains(#[trigger] all[k]),
        decreases rest.len(),
    {
        let ghost before = rest@;
        let p = rest.remove(0);
        assert(p == all[taken as int]);
        assert(rest@ =~= all.skip(taken + 1));
        let ghost k0 = kept@;
        assert(before.drop_first() =~= rest@);
        if !crate::text::spells(&chars_of(p.0.as_str()), hash) {
            kept.push(p);
            assert(kept@ =~= k0 + seq![p]);
            assert(k0 + (seq![p] + snapshots_without(rest@, hash@)) =~= kept@ + snapshots_without(
                rest@,
                hash@,
            ));
            assert(kept@[kept@.len() - 1] == all[taken as int]);
            assert forall|k: int| 0 <= k < taken + 1 && all[k].0@ != hash@ implies kept@.contains(
                #[trigger] all[k],
            ) by {
                if k < taken {
                    let m = choose|m: int| 0 <= m < k0.len() && k0[m] == all[k];
                    assert(kept@[m] == all[k]);
                }
            }
        }
        taken = taken + 1;
    }
    assert(kept@ + snapshots_without(rest@, hash@) =~= kept@);
    proof {
        let ks = kept@.map_values(|p: (String, SnapshotEntry)| p.0@);
        if ks.contains(hash@) {
            let m = choose|m: int| 0 <= m < ks.len() && ks[m] == hash@;
            assert(kept@[m].0@ == hash@);
        }
    }
    cache.metadata.snapshots = kept;
}

} // verus!
