//! Watching a project: which files trigger a rebuild, and when. Changes are
//! collected until none arrives for a quiet period, so that one save (or
//! several files saved at once) causes one rebuild.
use crate::sync::{join_path, path_join};
use crate::text::{chars_of, same_chars};
use vstd::prelude::*;

verus! {

/// The files whose changes trigger a rebuild, as normalized paths.
#[derive(Debug, Clone)]
pub struct WatchSet {
    paths: Vec<String>,
}

/// Whether `p` is one of `paths`.
pub open spec fn listed(paths: Seq<String>, p: Seq<char>) -> bool {
    exists|i: int| 0 <= i < paths.len() && (#[trigger] paths[i])@ == p
}

/// Whether `text` is one of `v`.
fn has_text(v: &Vec<String>, text: &str) -> (r: bool)
    ensures
        r == listed(v@, text@),
{
    let t = chars_of(text);
    let mut i: usize = 0;
    while i < v.len()
        invariant
            i <= v@.len(),
            t@ == text@,
            forall|j: int| 0 <= j < i ==> (#[trigger] v@[j])@ != text@,
        decreases v.len() - i,
    {
        if same_chars(&chars_of(v[i].as_str()), &t) {
            return true;
        }
        i = i + 1;
    }
    false
}

impl WatchSet {
    /// The watched paths.
    pub closed spec fn paths(&self) -> Set<Seq<char>> {
        Set::new(|p: Seq<char>| listed(self.paths@, p))
    }

    /// The set of the (normalized) paths `paths`.
    pub fn new(paths: Vec<String>) -> (r: Self)
        ensures
            forall|p: Seq<char>| #[trigger] r.paths().contains(p) <==> listed(paths@, p),
    {
        WatchSet { paths }
    }

    /// Whether a changed (normalized) path is one of the watched files.
    pub fn contains(&self, path: &str) -> (r: bool)
        ensures
            r == self.paths().contains(path@),
    {
        has_text(&self.paths, path)
    }
}

/// The files to watch in the project at `root`: `knot.toml`, the `depends`
/// files of the chunks of its sources (resolved against the root), the main
/// file and the includes (missing ones too, so that creating one triggers a
/// rebuild). They are still to be normalized.
pub open spec fn watched_files(
    root: Seq<char>,
    main_file: Seq<char>,
    includes: Seq<String>,
    depends: Seq<String>,
) -> Seq<Seq<char>> {
    seq![path_join(root, "knot.toml"@)] + depends.map_values(|d: String| path_join(root, d@))
        + seq![main_file] + includes.map_values(|n: String| path_join(root, n@))
}

/// Appends each of `names`, resolved against `root`, to `out`.
fn push_joined(out: &mut Vec<String>, root: &str, names: &Vec<String>)
    ensures
        final(out)@.map_values(|p: String| p@) == old(out)@.map_values(|p: String| p@)
            + names@.map_values(|d: String| path_join(root@, d@)),
{
    let ghost start = out@.map_values(|p: String| p@);
    let mut i: usize = 0;
    while i < names.len()
        invariant
            i <= names@.len(),
            out@.map_values(|p: String| p@) == start + names@.map_values(
                |d: String| path_join(root@, d@),
            ).take(i as int),
        decreases names.len() - i,
    {
        let ghost before = out@;
        out.push(join_path(root, &chars_of(names[i].as_str())));
        proof {
            assert(out@.map_values(|p: String| p@) =~= before.map_values(|p: String| p@).push(
                path_join(root@, names@[i as int]@),
            ));
            assert(names@.map_values(|d: String| path_join(root@, d@)).take(i + 1)
                =~= names@.map_values(|d: String| path_join(root@, d@)).take(i as int).push(
                path_join(root@, names@[i as int]@),
            ));
        }
        i = i + 1;
    }
    assert(names@.map_values(|d: String| path_join(root@, d@)).take(names.len() as int)
        == names@.map_values(|d: String| path_join(root@, d@)));
}

/// The files to watch in the project at `root` (see `watched_files`), given
/// the `depends` entries of the chunks of its sources.
pub fn watched_paths(root: &str, main_file: &str, includes: &Vec<String>, depends: &Vec<String>) -> (r:
    Vec<String>)
    ensures
        r@.map_values(|p: String| p@) == watched_files(root@, main_file@, includes@, depends@),
{
    let mut r: Vec<String> = Vec::new();
    r.push(join_path(root, &chars_of("knot.toml")));
    push_joined(&mut r, root, depends);
    let ghost before = r@;
    r.push(main_file.to_string());
    assert(r@.map_values(|p: String| p@) =~= before.map_values(|p: String| p@).push(main_file@));
    push_joined(&mut r, root, includes);
    assert(r@.map_values(|p: String| p@) =~= watched_files(root@, main_file@, includes@, depends@));
    r
}

/// What the watcher reports.
#[derive(Debug, Clone)]
pub enum WatchEvent {
    /// These (normalized) paths changed.
    Paths(Vec<String>),
    /// No change arrived during the quiet period.
    QuietPeriodOver,
    /// The source of events is closed.
    Closed,
}

/// What to do next.
#[derive(Debug, Clone)]
pub enum WatchStep {
    /// Wait, without limit, for the next change.
    WaitForChange,
    /// Wait for the next change, at most the quiet period.
    WaitQuietPeriod,
    /// Rebuild for these changed watched files.
    Rebuild(Vec<String>),
    /// The source of events is closed: stop watching.
    Stop,
}

/// The changed watched files collected so far, each once.
#[derive(Debug, Clone)]
pub struct Changes {
    changed: Vec<String>,
}

/// `changed` after the changed paths `ps` are added: those watched (in
/// `w`) and not yet collected, in the order they arrive.
pub open spec fn add_changes(changed: Seq<Seq<char>>, ps: Seq<Seq<char>>, w: Set<Seq<char>>) -> Seq<
    Seq<char>,
>
    decreases ps.len(),
{
    if ps.len() == 0 {
        changed
    } else {
        let c = add_changes(changed, ps.drop_last(), w);
        if w.contains(ps.last()) && !c.contains(ps.last()) {
            c.push(ps.last())
        } else {
            c
        }
    }
}

/// The collected changes are watched files, each once.
pub open spec fn collected_well(changed: Seq<Seq<char>>, w: Set<Seq<char>>) -> bool {
    &&& forall|i: int| 0 <= i < changed.len() ==> w.contains(#[trigger] changed[i])
    &&& forall|i: int, j: int| 0 <= i < j < changed.len() ==> changed[i] != changed[j]
}

/// Adding changes keeps them watched and distinct.
pub proof fn lemma_add_changes_well(changed: Seq<Seq<char>>, ps: Seq<Seq<char>>, w: Set<Seq<char>>)
    requires
        collected_well(changed, w),
    ensures
        collected_well(add_changes(changed, ps, w), w),
    decreases ps.len(),
{
    if ps.len() > 0 {
        lemma_add_changes_well(changed, ps.drop_last(), w);
        let c = add_changes(changed, ps.drop_last(), w);
        if w.contains(ps.last()) && !c.contains(ps.last()) {
            let d = c.push(ps.last());
            assert forall|i: int, j: int| 0 <= i < j < d.len() implies d[i] != d[j] by {
                if j == c.len() {
                    assert(c[i] == d[i]);
                    assert(!c.contains(ps.last()));
                }
            }
        }
    }
}

impl Changes {
    /// The changes collected so far.
    pub closed spec fn view(&self) -> Seq<Seq<char>> {
        self.changed@.map_values(|p: String| p@)
    }

    /// No change collected.
    pub fn new() -> (r: Self)
        ensures
            r@.len() == 0,
    {
        Changes { changed: Vec::new() }
    }
}

/// Adds the watched paths of `ps` not yet collected, in order.
fn add_paths(changed: &mut Vec<String>, watched: &WatchSet, ps: &Vec<String>)
    ensures
        final(changed)@.map_values(|p: String| p@) == add_changes(
            old(changed)@.map_values(|p: String| p@),
            ps@.map_values(|p: String| p@),
            watched.paths(),
        ),
{
    let ghost start = changed@.map_values(|p: String| p@);
    let ghost pv = ps@.map_values(|p: String| p@);
    let mut i: usize = 0;
    while i < ps.len()
        invariant
            i <= ps@.len(),
            pv == ps@.map_values(|p: String| p@),
            changed@.map_values(|p: String| p@) == add_changes(
                start,
                pv.take(i as int),
                watched.paths(),
            ),
        decreases ps.len() - i,
    {
        proof {
            let t = pv.take(i + 1);
            assert(t.drop_last() =~= pv.take(i as int));
            assert(t.last() == ps@[i as int]@);
        }
        let w = watched.contains(ps[i].as_str());
        let seen = has_text(changed, ps[i].as_str());
        proof {
            let cv = changed@.map_values(|p: String| p@);
            if seen {
                let j = choose|j: int| 0 <= j < changed@.len() && (#[trigger] changed@[j])@
                    == ps@[i as int]@;
                assert(cv[j] == ps@[i as int]@);
            } else {
                if cv.contains(ps@[i as int]@) {
                    let j = choose|j: int| 0 <= j < cv.len() && cv[j] == ps@[i as int]@;
                    assert(changed@[j]@ == ps@[i as int]@);
                }
            }
        }
        if w && !seen {
            let ghost before = changed@;
            changed.push(ps[i].clone());
            assert(changed@.map_values(|p: String| p@) =~= before.map_values(|p: String| p@).push(
                ps@[i as int]@,
            ));
        }
        i = i + 1;
    }
    assert(pv.take(ps.len() as int) == pv);
}

/// What a watch step does with the changes `c` (before the event) and the
/// event: the changes after it and the step that follows.
pub open spec fn watch_transition(c: Seq<Seq<char>>, event: WatchEvent, w: Set<Seq<char>>) -> (
    Seq<Seq<char>>,
    Option<Option<Seq<Seq<char>>>>,
) {
    match event {
        WatchEvent::Paths(ps) => (add_changes(c, ps@.map_values(|p: String| p@), w), None),
        WatchEvent::QuietPeriodOver => if c.len() == 0 {
            (c, None)
        } else {
            (Seq::empty(), Some(Some(c)))
        },
        WatchEvent::Closed => if c.len() == 0 {
            (c, Some(None))
        } else {
            (Seq::empty(), Some(Some(c)))
        },
    }
}

/// One step of watching: takes the next `event` into the changes collected
/// so far. Once a watched file changed, changes are collected until none
/// arrives during the quiet period (or events stop); then the changed
/// watched files, each once in the order they first changed, are handed to
/// a rebuild and collection starts again. When events stop with nothing
/// collected, watching stops.
pub fn next_changes(changes: &mut Changes, watched: &WatchSet, event: WatchEvent) -> (r: WatchStep)
    ensures
        ({
            let (after, outcome) = watch_transition(old(changes)@, event, watched.paths());
            &&& final(changes)@ == after
            &&& match outcome {
                None => if after.len() == 0 {
                    r is WaitForChange
                } else {
                    r is WaitQuietPeriod
                },
                Some(None) => r is Stop,
                Some(Some(c)) => r matches WatchStep::Rebuild(v) && v@.map_values(|p: String| p@)
                    == c,
            }
        }),
        collected_well(old(changes)@, watched.paths()) ==> collected_well(
            final(changes)@,
            watched.paths(),
        ),
{
    proof {
        if event is Paths && collected_well(changes@, watched.paths()) {
            lemma_add_changes_well(
                changes@,
                (event->0)@.map_values(|p: String| p@),
                watched.paths(),
            );
        }
    }
    match event {
        WatchEvent::Paths(ps) => {
            add_paths(&mut changes.changed, watched, &ps);
            if changes.changed.len() == 0 {
                WatchStep::WaitForChange
            } else {
                WatchStep::WaitQuietPeriod
            }
        },
        WatchEvent::QuietPeriodOver => {
            if changes.changed.len() == 0 {
                WatchStep::WaitForChange
            } else {
                let mut done: Vec<String> = Vec::new();
                std::mem::swap(&mut done, &mut changes.changed);
                assert(changes@ =~= Seq::<Seq<char>>::empty());
                WatchStep::Rebuild(done)
            }
        },
        WatchEvent::Closed => {
            if changes.changed.len() == 0 {
                WatchStep::Stop
            } else {
                let mut done: Vec<String> = Vec::new();
                std::mem::swap(&mut done, &mut changes.changed);
                assert(changes@ =~= Seq::<Seq<char>>::empty());
                WatchStep::Rebuild(done)
            }
        },
    }
}

} // verus!
