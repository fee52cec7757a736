//! The interpreters of a compilation, one per language, started on first
//! use and kept for the following chunks.
use crate::executors::{ExecError, Interpreter, KnotExecutor, Request};
use crate::text::{chars_of, push_str, spells, string_of};
use vstd::prelude::*;

verus! {

/// Starts interpreters.
///
/// Nothing is assumed of an implementation.
pub trait ExecutorFactory<E> {
    /// A new interpreter for `lang` (`r` or `python`) whose files go to
    /// `cache_dir`.
    fn create(&mut self, lang: &str, cache_dir: &str) -> Result<E, ExecError>;
}

/// The interpreters of a compilation, by language.
pub struct ExecutorManager<E> {
    /// Started interpreters, by language; a language appears at most once.
    executors: Vec<(String, E)>,
    /// Cache directory handed to new interpreters.
    cache_dir: String,
    /// What each language's interpreter was asked, in order (see
    /// `Interpreter`).
    records: Ghost<Map<Seq<char>, Seq<Request>>>,
}

/// The languages in the order the manager holds them.
pub open spec fn languages_of<E>(v: Seq<(String, E)>) -> Seq<Seq<char>> {
    v.map_values(|p: (String, E)| p.0@)
}

/// Whether the languages of `v` are distinct.
pub open spec fn distinct_languages<E>(v: Seq<(String, E)>) -> bool {
    forall|i: int, j: int| 0 <= i < j < v.len() ==> v[i].0@ != v[j].0@
}

/// Message for a language the manager cannot start.
pub open spec fn unsupported_message(lang: Seq<char>) -> Seq<char> {
    "Unsupported language: "@ + lang
}

impl<E: KnotExecutor> ExecutorManager<E> {
    /// The languages whose interpreter is held.
    pub closed spec fn languages(&self) -> Seq<Seq<char>> {
        languages_of(self.executors@)
    }

    /// The cache directory handed to new interpreters.
    pub closed spec fn dir(&self) -> Seq<char> {
        self.cache_dir@
    }

    /// What the interpreter of `lang` was asked, in order, since it was
    /// started (see `Interpreter`).
    pub closed spec fn requests(&self, lang: Seq<char>) -> Seq<Request> {
        if self.records@.dom().contains(lang) {
            self.records@[lang]
        } else {
            Seq::empty()
        }
    }

    /// The manager holds each language at most once.
    pub closed spec fn well_formed(&self) -> bool {
        distinct_languages(self.executors@)
    }

    /// A manager with no interpreter started.
    pub fn new(cache_dir: String) -> (r: Self)
        ensures
            r.languages().len() == 0,
            r.well_formed(),
            r.dir() == cache_dir@,
            forall|l: Seq<char>| #[trigger] r.requests(l) == Seq::<Request>::empty(),
    {
        ExecutorManager { executors: Vec::new(), cache_dir, records: Ghost(Map::empty()) }
    }

    /// Whether the manager can start an interpreter for `lang`: `r` and
    /// `python`.
    pub fn is_supported(&self, lang: &str) -> (r: bool)
        ensures
            r == (lang@ == "r"@ || lang@ == "python"@),
    {
        let v = chars_of(lang);
        spells(&v, "r") || spells(&v, "python")
    }

    /// The number of interpreters started.
    pub fn executor_count(&self) -> (r: usize)
        ensures
            r == self.languages().len(),
    {
        self.executors.len()
    }

    /// Position of the interpreter of `lang`, if started.
    fn position(&self, lang: &str) -> (r: Option<usize>)
        ensures
            r matches Some(i) ==> i < self.executors@.len() && self.executors@[i as int].0@ == lang@,
            r is None ==> !self.languages().contains(lang@),
    {
        let mut i: usize = 0;
        while i < self.executors.len()
            invariant
                i <= self.executors@.len(),
                forall|j: int| 0 <= j < i ==> self.executors@[j].0@ != lang@,
            decreases self.executors.len() - i,
        {
            if spells(&chars_of(self.executors[i].0.as_str()), lang) {
                return Some(i);
            }
            i = i + 1;
        }
        proof {
            if self.languages().contains(lang@) {
                let k = choose|k: int| 0 <= k < self.languages().len() && self.languages()[k] == lang@;
                assert(self.executors@[k].0@ == lang@);
            }
        }
        None
    }

    /// The interpreter of `lang`, started (with `factory`, then initialized)
    /// on first use; an error for a language other than `r` and `python`.
    pub fn get_executor<F: ExecutorFactory<E>>(&mut self, lang: &str, factory: &mut F) -> (r:
        Result<&mut E, ExecError>)
        requires
            old(self).well_formed(),
        ensures
            final(self).well_formed(),
            final(self).dir() == old(self).dir(),
            old(self).languages().contains(lang@) ==> r is Ok && final(self).languages() == old(
                self).languages(),
            !old(self).languages().contains(lang@) && !(lang@ == "r"@ || lang@ == "python"@) ==> (
            r matches Err(ExecError::Failed(m)) && m@ == unsupported_message(lang@))
                && final(self).languages() == old(self).languages(),
            r is Ok && !old(self).languages().contains(lang@) ==> final(self).languages() == old(
                self).languages().push(lang@),
            r is Err && (lang@ == "r"@ || lang@ == "python"@) ==> final(self).languages() == old(
                self).languages(),
            forall|l: Seq<char>|
                l != lang@ ==> #[trigger] final(self).requests(l) == old(self).requests(l),
            old(self).languages().contains(lang@) ==> final(self).requests(lang@) == old(
                self,
            ).requests(lang@),
            !old(self).languages().contains(lang@) && r is Ok ==> final(self).requests(lang@)
                == Seq::<Request>::empty(),
    {
        match self.position(lang) {
            Some(i) => {
                assert(languages_of(self.executors@)[i as int] == lang@);
                return Ok(&mut self.executors[i].1);
            },
            None => {},
        }
        let v = chars_of(lang);
        if !(spells(&v, "r") || spells(&v, "python")) {
            let mut m = chars_of("Unsupported language: ");
            push_str(&mut m, lang);
            return Err(ExecError::Failed(string_of(&m)));
        }
        let mut e = factory.create(lang, self.cache_dir.as_str())?;
        e.initialize()?;
        let ghost before = self.executors@;
        self.executors.push((lang.to_string(), e));
        proof {
            self.records@ = self.records@.insert(lang@, Seq::empty());
            assert(languages_of(self.executors@) =~= languages_of(before).push(lang@));
            assert forall|i: int, j: int|
                0 <= i < j < self.executors@.len() implies self.executors@[i].0@
                != self.executors@[j].0@ by {
                if j == before.len() {
                    assert(languages_of(before)[i] == before[i].0@);
                }
            }
        }
        let n = self.executors.len();
        Ok(&mut self.executors[n - 1].1)
    }

    /// Stops every interpreter: the next use of a language starts a new one.
    pub fn shutdown_all(&mut self)
        ensures
            final(self).languages().len() == 0,
            final(self).well_formed(),
            final(self).dir() == old(self).dir(),
            forall|l: Seq<char>| #[trigger] final(self).requests(l) == Seq::<Request>::empty(),
    {
        self.executors = Vec::new();
        proof {
            self.records@ = Map::empty();
        }
    }

    /// Takes the interpreter of `lang` out of the manager, for a chain.
    pub fn take(&mut self, lang: &str) -> (r: Option<Interpreter<E>>)
        requires
            old(self).well_formed(),
        ensures
            final(self).well_formed(),
            r is Some <==> old(self).languages().contains(lang@),
            !final(self).languages().contains(lang@),
            forall|l: Seq<char>|
                l != lang@ ==> (#[trigger] final(self).languages().contains(l) <==> old(
                    self,
                ).languages().contains(l)),
            final(self).dir() == old(self).dir(),
            r matches Some(x) ==> x.requests@ == old(self).requests(lang@),
            forall|l: Seq<char>| #[trigger] final(self).requests(l) == old(self).requests(l),
    {
        match self.position(lang) {
            Some(i) => {
                let ghost before = self.executors@;
                let (_, e) = self.executors.remove(i);
                proof {
                    assert(self.executors@ =~= before.remove(i as int));
                    assert forall|a: int, b: int|
                        0 <= a < b < self.executors@.len() implies self.executors@[a].0@
                        != self.executors@[b].0@ by {
                        let a0 = if a < i { a } else { a + 1 };
                        let b0 = if b < i { b } else { b + 1 };
                        assert(self.executors@[a] == before[a0]);
                        assert(self.executors@[b] == before[b0]);
                    }
                    if languages_of(self.executors@).contains(lang@) {
                        let k = choose|k: int|
                            0 <= k < languages_of(self.executors@).len() && languages_of(
                                self.executors@,
                            )[k] == lang@;
                        let k0 = if k < i { k } else { k + 1 };
                        assert(self.executors@[k] == before[k0]);
                    }
                    assert(languages_of(before)[i as int] == lang@);
                    assert forall|l: Seq<char>| l != lang@ implies (languages_of(
                        self.executors@,
                    ).contains(l) <==> languages_of(before).contains(l)) by {
                        if languages_of(before).contains(l) {
                            let k = choose|k: int|
                                0 <= k < languages_of(before).len() && languages_of(before)[k]
                                    == l;
                            assert(k != i);
                            let k1 = if k < i { k } else { k - 1 };
                            assert(self.executors@[k1] == before[k]);
                            assert(languages_of(self.executors@)[k1] == l);
                        }
                        if languages_of(self.executors@).contains(l) {
                            let k = choose|k: int|
                                0 <= k < languages_of(self.executors@).len() && languages_of(
                                    self.executors@,
                                )[k] == l;
                            let k0 = if k < i { k } else { k + 1 };
                            assert(self.executors@[k] == before[k0]);
                            assert(languages_of(before)[k0] == l);
                        }
                    }
                }
                Some(Interpreter { session: e, requests: Ghost(self.requests(lang@)) })
            },
            None => None,
        }
    }

    /// Evaluates the inline expression `code` with the interpreter of `lang`,
    /// which must be started.
    pub fn run_inline(&mut self, lang: &str, code: &str) -> (r: Result<String, ExecError>)
        requires
            old(self).well_formed(),
            old(self).languages().contains(lang@),
        ensures
            final(self).well_formed(),
            final(self).languages() == old(self).languages(),
            final(self).dir() == old(self).dir(),
            final(self).requests(lang@) == old(self).requests(lang@).push(
                Request::Inline { code: code@, answer: r },
            ),
            forall|l: Seq<char>|
                l != lang@ ==> #[trigger] final(self).requests(l) == old(self).requests(l),
    {
        let i = match self.position(lang) {
            Some(i) => i,
            None => {
                proof {
                    assert(false);
                }
                return Err(ExecError::Failed(String::new()));
            },
        };
        let ghost before = self.executors@;
        let mut entry = self.executors.remove(i);
        let r = entry.1.execute_inline(code);
        self.executors.insert(i, entry);
        proof {
            assert(self.executors@ =~= before.update(i as int, self.executors@[i as int]));
            assert(languages_of(self.executors@) =~= languages_of(before));
            self.records@ = self.records@.insert(
                lang@,
                self.requests(lang@).push(Request::Inline { code: code@, answer: r }),
            );
        }
        r
    }

    /// Gives the interpreter of `lang` back to the manager.
    pub fn put_back(&mut self, lang: String, exec: Interpreter<E>)
        requires
            old(self).well_formed(),
            !old(self).languages().contains(lang@),
        ensures
            final(self).well_formed(),
            final(self).languages() == old(self).languages().push(lang@),
            final(self).dir() == old(self).dir(),
            final(self).requests(lang@) == exec.requests@,
            forall|l: Seq<char>|
                l != lang@ ==> #[trigger] final(self).requests(l) == old(self).requests(l),
    {
        let ghost before = self.executors@;
        let ghost l = lang@;
        let ghost asked = exec.requests@;
        self.executors.push((lang, exec.into_session()));
        proof {
            self.records@ = self.records@.insert(l, asked);
            assert(languages_of(self.executors@) =~= languages_of(before).push(l));
            assert forall|i: int, j: int|
                0 <= i < j < self.executors@.len() implies self.executors@[i].0@
                != self.executors@[j].0@ by {
                if j == before.len() {
                    assert(languages_of(before)[i] == before[i].0@);
                }
            }
        }
    }
}

} // verus!
