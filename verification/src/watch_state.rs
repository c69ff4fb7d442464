//! The watch state as mathematics, and the rules by which it judges a
//! notification: first by the kind of the event and what is on disk, then
//! against the table of paths that the synchroniser itself touched.

use crate::events::{EventKind, ModifyKind, ProbeView, WatchEventView};
use crate::hasher::fnv1a64_spec;
use crate::listing::{listed_hashes, listed_paths, ListedFileView};
use crate::paths::below_root;
use vstd::prelude::*;

verus! {

/// How long, in milliseconds, a path stays ignored after it was marked.
pub const DEBOUNCE_MS: u64 = 500;

/// The moment until which a path marked at `now` is ignored. It stops at
/// the largest representable moment.
pub open spec fn deadline(now: u64) -> u64 {
    if now + DEBOUNCE_MS > u64::MAX {
        u64::MAX
    } else {
        (now + DEBOUNCE_MS) as u64
    }
}

/// The watch state as mathematics.
pub struct WatchView {
    /// The absolute path of the watched root.
    pub root: Seq<char>,
    /// The absolute paths of the indexed files, in the order of the walk.
    pub files: Seq<Seq<char>>,
    /// The content hash recorded for a path.
    pub hashes: Map<Seq<char>, u64>,
    /// The moment until which events for a path are ignored.
    pub ignore_until: Map<Seq<char>, u64>,
}

impl WatchView {
    /// Every path with a recorded hash is an indexed file.
    pub open spec fn wf(self) -> bool {
        forall|p: Seq<char>| self.hashes.dom().contains(p) ==> #[trigger] self.files.contains(p)
    }

    /// The index names no file twice, and every file it names lies below
    /// the root, as a walk of the root gives them.
    pub open spec fn indexes_distinct_files_below_root(self) -> bool {
        &&& self.files.no_duplicates()
        &&& forall|i: int| 0 <= i < self.files.len() ==> below_root(self.root, #[trigger] self.files[i])
    }

    /// Whether `path` is an indexed file.
    pub open spec fn has_file(self, path: Seq<char>) -> bool {
        self.files.contains(path)
    }

    /// The hash recorded for `path`, or 0 where none is recorded.
    pub open spec fn stored_hash(self, path: Seq<char>) -> u64 {
        if self.hashes.dom().contains(path) {
            self.hashes[path]
        } else {
            0
        }
    }

    /// Whether `contents` differ, by their hash, from what is recorded for
    /// `path`.
    pub open spec fn has_changes(self, path: Seq<char>, contents: Seq<u8>) -> bool {
        fnv1a64_spec(contents) != self.stored_hash(path)
    }

    /// Whether an event for `path` at `now` falls inside a debounce window.
    pub open spec fn suppressed(self, path: Seq<char>, now: u64) -> bool {
        self.ignore_until.dom().contains(path) && self.ignore_until[path] > now
    }

    /// The state after `path` was marked at `now`.
    pub open spec fn marked(self, path: Seq<char>, now: u64) -> WatchView {
        WatchView { ignore_until: self.ignore_until.insert(path, deadline(now)), ..self }
    }

    /// The state after the index was rebuilt from `listing`.
    pub open spec fn reindexed(self, listing: Seq<ListedFileView>) -> WatchView {
        WatchView { files: listed_paths(listing), hashes: listed_hashes(listing), ..self }
    }

    /// The state with `hash` recorded for `path`.
    pub open spec fn with_hash(self, path: Seq<char>, hash: u64) -> WatchView {
        WatchView { hashes: self.hashes.insert(path, hash), ..self }
    }

    /// The state with the debounce entry of `path` cleared.
    pub open spec fn unmarked(self, path: Seq<char>) -> WatchView {
        WatchView { ignore_until: self.ignore_until.remove(path), ..self }
    }

    /// First stage of judging an event, by its kind: the state afterwards,
    /// and whether the event is still a candidate.
    ///
    /// - A creation rebuilds the index from the fresh walk and stays a
    ///   candidate if its path is then indexed.
    /// - A change of data or name stays a candidate if the file is indexed
    ///   and its bytes hash differently from what is recorded; the new hash
    ///   is then recorded.
    /// - A removal stays a candidate if its path is indexed.
    /// - Everything else is dropped, and so is an event without a path or
    ///   without the probe that its kind reads.
    pub open spec fn classified(self, event: WatchEventView, probe: ProbeView) -> (WatchView, bool) {
        if event.paths.len() == 0 {
            match (event.kind, probe) {
                (EventKind::Create, ProbeView::Listing(l)) => (self.reindexed(l), false),
                _ => (self, false),
            }
        } else {
            let path = event.paths[0];
            match (event.kind, probe) {
                (EventKind::Create, ProbeView::Listing(l)) => (
                    self.reindexed(l),
                    self.reindexed(l).has_file(path),
                ),
                (EventKind::Modify(ModifyKind::Data), ProbeView::Contents(c)) => self.compared(
                    path,
                    c,
                ),
                (EventKind::Modify(ModifyKind::Name), ProbeView::Contents(c)) => self.compared(
                    path,
                    c,
                ),
                (EventKind::Remove, _) => (self, self.has_file(path)),
                _ => (self, false),
            }
        }
    }

    /// Judging a change of `path` whose bytes are now `contents`.
    pub open spec fn compared(self, path: Seq<char>, contents: Seq<u8>) -> (WatchView, bool) {
        if self.has_changes(path, contents) && self.has_file(path) {
            (self.with_hash(path, fnv1a64_spec(contents)), true)
        } else {
            (self, false)
        }
    }

    /// Second stage of judging an event, for a candidate about `path`: inside
    /// a debounce window it is dropped; otherwise it is accepted and the
    /// entry of `path`, if there is one, is cleared.
    pub open spec fn debounced(self, path: Seq<char>, now: u64) -> (WatchView, bool) {
        if self.suppressed(path, now) {
            (self, false)
        } else {
            (self.unmarked(path), true)
        }
    }

    /// The whole judgement of an event at `now`: the state afterwards, and
    /// whether the event is accepted.
    pub open spec fn judged(self, event: WatchEventView, probe: ProbeView, now: u64) -> (
        WatchView,
        bool,
    ) {
        let (state, candidate) = self.classified(event, probe);
        if candidate {
            state.debounced(event.paths[0], now)
        } else {
            (state, false)
        }
    }

    /// The state after each of `paths` was marked at `now`.
    pub open spec fn marked_all(self, paths: Seq<Seq<char>>, now: u64) -> WatchView
        decreases paths.len(),
    {
        if paths.len() == 0 {
            self
        } else {
            self.marked_all(paths.drop_last(), now).marked(paths.last(), now)
        }
    }
}

/// A mark never expires before it was set: the deadline of a path lies at
/// or after the moment at which it was marked.
pub proof fn lemma_deadline_not_before_mark(state: WatchView, path: Seq<char>, now: u64)
    ensures
        state.marked(path, now).ignore_until.dom().contains(path),
        state.marked(path, now).ignore_until[path] >= now,
{
}

/// A path marked at `t` is ignored at every moment before the deadline of
/// `t` and at no moment from the deadline on. The deadline is `t + 500`
/// wherever the clock can hold that moment, so the path is ignored
/// throughout `[t, t + 500)` and no longer at `t + 500`.
pub proof fn lemma_debounce_window(state: WatchView, path: Seq<char>, t: u64, now: u64)
    ensures
        state.marked(path, t).suppressed(path, now) <==> now < deadline(t),
        t + DEBOUNCE_MS <= u64::MAX ==> deadline(t) == t + DEBOUNCE_MS,
        t <= deadline(t),
{
}

/// An event about a path marked at `t` is dropped, whatever its kind and
/// whatever is on disk, at every moment before the deadline of `t`, which
/// is `t + 500` wherever the clock can hold that moment. From the deadline
/// on the mark no longer matters: the event is accepted exactly when its
/// kind and the disk make it a candidate.
pub proof fn lemma_debounce_boundary(
    state: WatchView,
    event: WatchEventView,
    probe: ProbeView,
    t: u64,
    now: u64,
)
    requires
        event.paths.len() > 0,
    ensures
        now < deadline(t) ==> !state.marked(event.paths[0], t).judged(event, probe, now).1,
        now >= deadline(t) ==> state.marked(event.paths[0], t).judged(event, probe, now).1
            == state.marked(event.paths[0], t).classified(event, probe).1,
        t + DEBOUNCE_MS <= u64::MAX ==> deadline(t) == t + DEBOUNCE_MS,
{
    let marked = state.marked(event.paths[0], t);
    let (after, candidate) = marked.classified(event, probe);
    assert(after.ignore_until == marked.ignore_until);
}

/// A modification that only touches metadata, or whose kind is unknown, is
/// dropped and leaves the state as it was, whatever the file holds.
pub proof fn lemma_attribute_change_rejected(
    state: WatchView,
    event: WatchEventView,
    probe: ProbeView,
    now: u64,
)
    requires
        event.kind == EventKind::Modify(ModifyKind::Metadata) || event.kind == EventKind::Modify(
            ModifyKind::Other,
        ) || event.kind == EventKind::Modify(ModifyKind::Any),
    ensures
        state.judged(event, probe, now) == (state, false),
{
}

/// A creation whose path the fresh walk of the root did not list is
/// dropped; so is one that came without a path or without a walk.
pub proof fn lemma_unlisted_creation_rejected(
    state: WatchView,
    event: WatchEventView,
    probe: ProbeView,
    now: u64,
)
    requires
        event.kind == EventKind::Create,
        probe matches ProbeView::Listing(l) ==> event.paths.len() == 0 || !listed_paths(
            l,
        ).contains(event.paths[0]),
    ensures
        !state.judged(event, probe, now).1,
{
}

/// Events of the kinds that say nothing about content are dropped and leave
/// the state as it was.
pub proof fn lemma_other_kinds_rejected(
    state: WatchView,
    event: WatchEventView,
    probe: ProbeView,
    now: u64,
)
    requires
        event.kind == EventKind::Any || event.kind == EventKind::Access || event.kind
            == EventKind::Other,
    ensures
        state.judged(event, probe, now) == (state, false),
{
}

/// Marking paths changes the debounce table alone: each marked path gets
/// the deadline of `now`, every other path keeps what it had.
pub proof fn lemma_marked_all(state: WatchView, paths: Seq<Seq<char>>, now: u64)
    ensures
        state.marked_all(paths, now).root == state.root,
        state.marked_all(paths, now).files == state.files,
        state.marked_all(paths, now).hashes == state.hashes,
        forall|p: Seq<char>|
            paths.contains(p) ==> {
                &&& #[trigger] state.marked_all(paths, now).ignore_until.dom().contains(p)
                &&& state.marked_all(paths, now).ignore_until[p] == deadline(now)
            },
        forall|p: Seq<char>|
            !paths.contains(p) ==> {
                &&& #[trigger] state.marked_all(paths, now).ignore_until.dom().contains(p)
                    == state.ignore_until.dom().contains(p)
                &&& state.marked_all(paths, now).ignore_until[p] == state.ignore_until[p]
            },
    decreases paths.len(),
{
    if paths.len() > 0 {
        let earlier = paths.drop_last();
        lemma_marked_all(state, earlier, now);
        let done = state.marked_all(paths, now);
        assert forall|p: Seq<char>| paths.contains(p) implies {
            &&& #[trigger] done.ignore_until.dom().contains(p)
            &&& done.ignore_until[p] == deadline(now)
        } by {
            if p != paths.last() {
                let i = choose|i: int| 0 <= i < paths.len() && paths[i] == p;
                assert(earlier[i] == p);
                assert(earlier.contains(p));
            }
        }
        assert forall|p: Seq<char>| !paths.contains(p) implies {
            &&& #[trigger] done.ignore_until.dom().contains(p) == state.ignore_until.dom().contains(
                p,
            )
            &&& done.ignore_until[p] == state.ignore_until[p]
        } by {
            assert(paths[paths.len() - 1] == paths.last());
            if earlier.contains(p) {
                let i = choose|i: int| 0 <= i < earlier.len() && earlier[i] == p;
                assert(paths[i] == p);
            }
        }
    }
}

} // verus!
