//! The watch state of one root: an index of the known files with their
//! content hashes, and a table of paths to ignore for a while after the
//! synchroniser itself touched them.

use crate::actions::{action_paths, lemma_relative_entries_distinct};
use crate::actions::{actions_view, buffers_view, data_for, message_for, plan, relative_entries};
use crate::actions::{sync_paths, sync_plan, touched, write_plan, FsAction, FsActionView};
use crate::backoff::{poll_timeout, rounds_after_step, Backoff, PollStep};
use crate::events::{paths_view, EventKind, ModifyKind, Probe, Received, WatchEvent};
use crate::hasher::fnv1a64;
use crate::listing::{lemma_listed_hashes_are_listed, listed_hashes, listed_paths};
use crate::listing::{listing_view, ListedFile};
use crate::message_handler::{compose_data_message, distinct_paths, entries_view};
use crate::message_handler::{FileEntry, MessageType};
use crate::paths::{make_absolute_path, make_local_path};
use crate::watch_state::{deadline, lemma_marked_all, WatchView, DEBOUNCE_MS};
use vstd::hash_map::StringHashMap;
use vstd::prelude::*;
use vstd::slice::slice_to_vec;

verus! {

/// The watch state of one root.
pub struct FileWatcher {
    root: String,
    files: Vec<String>,
    file_hashes: StringHashMap<u64>,
    ignore_files_until: StringHashMap<u64>,
}

impl View for FileWatcher {
    type V = WatchView;

    closed spec fn view(&self) -> WatchView {
        WatchView {
            root: self.root@,
            files: paths_view(self.files@),
            hashes: self.file_hashes@,
            ignore_until: self.ignore_files_until@,
        }
    }
}

/// Appends to `actions` what writing `contents` to the file at `path` asks
/// of the disk.
fn push_write(actions: &mut Vec<FsAction>, path: String, contents: &Vec<u8>)
    ensures
        actions_view(final(actions)@) == actions_view(old(actions)@) + seq![
            FsActionView::EnsureParent { path: path@ },
            FsActionView::Write { path: path@, contents: contents@ },
        ],
{
    actions.push(FsAction::EnsureParent { path: path.clone() });
    actions.push(FsAction::Write { path, contents: slice_to_vec(contents.as_slice()) });
    proof {
        assert(actions_view(actions@) =~= actions_view(old(actions)@) + seq![
            FsActionView::EnsureParent { path: path@ },
            FsActionView::Write { path: path@, contents: contents@ },
        ]);
    }
}

impl FileWatcher {
    /// Whether the state keeps its invariant.
    pub open spec fn wf(&self) -> bool {
        self@.wf()
    }

    /// A watch state for `root`, indexed from `listing`, with nothing
    /// ignored.
    pub fn new(root: &str, listing: &Vec<ListedFile>) -> (fw: Self)
        ensures
            fw.wf(),
            fw@.root == root@,
            fw@.files == listed_paths(listing_view(listing@)),
            fw@.hashes == listed_hashes(listing_view(listing@)),
            fw@.ignore_until == Map::<Seq<char>, u64>::empty(),
    {
        let mut fw = FileWatcher {
            root: root.to_owned(),
            files: Vec::new(),
            file_hashes: StringHashMap::new(),
            ignore_files_until: StringHashMap::new(),
        };
        fw.index_files(listing);
        fw
    }

    /// The absolute path of the watched root.
    pub fn root(&self) -> (root: &str)
        ensures
            root@ == self@.root,
    {
        self.root.as_str()
    }

    /// The absolute paths of the indexed files, in the order of the walk.
    pub fn files(&self) -> (files: &Vec<String>)
        ensures
            paths_view(files@) == self@.files,
    {
        &self.files
    }

    /// Rebuilds the index from a fresh walk of the root: the files are the
    /// listed paths, and each file that could be read gets its hash.
    pub fn index_files(&mut self, listing: &Vec<ListedFile>)
        ensures
            final(self)@ == old(self)@.reindexed(listing_view(listing@)),
            final(self).wf(),
    {
        let ghost views = listing_view(listing@);
        let mut files: Vec<String> = Vec::new();
        let mut hashes: StringHashMap<u64> = StringHashMap::new();
        let mut i: usize = 0;
        while i < listing.len()
            invariant
                i <= listing@.len(),
                views == listing_view(listing@),
                files@.len() == i,
                paths_view(files@) == listed_paths(views.take(i as int)),
                hashes@ == listed_hashes(views.take(i as int)),
            decreases listing@.len() - i,
        {
            let file = &listing[i];
            proof {
                assert(views[i as int] == file@);
                assert(views.take(i + 1).drop_last() =~= views.take(i as int));
                let grown = paths_view(files@.push(file.path));
                let wanted = listed_paths(views.take(i + 1));
                assert(views.len() == listing@.len());
                assert(grown.len() == i + 1);
                assert(wanted.len() == i + 1);
                assert forall|j: int| 0 <= j < grown.len() implies grown[j] == wanted[j] by {
                    if j < i {
                        assert(paths_view(files@)[j] == listed_paths(views.take(i as int))[j]);
                    }
                }
                assert(grown =~= wanted);
            }
            files.push(file.path.clone());
            match &file.contents {
                Some(contents) => {
                    hashes.insert(file.path.clone(), fnv1a64(contents.as_slice()));
                },
                None => {},
            }
            i += 1;
        }
        proof {
            assert(views.take(i as int) =~= views);
            lemma_listed_hashes_are_listed(views);
        }
        self.files = files;
        self.file_hashes = hashes;
    }

    /// Whether `path` is an indexed file.
    pub fn has_file(&self, path: &str) -> (found: bool)
        ensures
            found == self@.has_file(path@),
    {
        let wanted = path.to_owned();
        let mut i: usize = 0;
        while i < self.files.len()
            invariant
                i <= self.files@.len(),
                wanted@ == path@,
                forall|j: int| 0 <= j < i ==> paths_view(self.files@)[j] != path@,
            decreases self.files@.len() - i,
        {
            if self.files[i] == wanted {
                proof {
                    assert(paths_view(self.files@)[i as int] == path@);
                }
                return true;
            }
            i += 1;
        }
        false
    }

    /// The hash recorded for `path`, or 0 where none is recorded.
    pub fn stored_hash(&self, path: &str) -> (hash: u64)
        ensures
            hash == self@.stored_hash(path@),
    {
        match self.file_hashes.get(path) {
            Some(hash) => *hash,
            None => 0,
        }
    }

    /// Whether `contents` differ, by their hash, from what is recorded for
    /// `path`.
    pub fn has_changes(&self, path: &str, contents: &Vec<u8>) -> (changed: bool)
        ensures
            changed == self@.has_changes(path@, contents@),
    {
        let new_hash = fnv1a64(contents.as_slice());
        let old_hash = self.stored_hash(path);
        old_hash != new_hash
    }

    /// Marks `path` as touched by the synchroniser itself at `now`: events
    /// for it are ignored until the deadline that `now` gives.
    pub fn mark_as_modified(&mut self, path: &str, now: u64)
        ensures
            final(self)@ == old(self)@.marked(path@, now),
            old(self).wf() ==> final(self).wf(),
    {
        let until = now.saturating_add(DEBOUNCE_MS);
        self.ignore_files_until.insert(path.to_owned(), until);
        proof {
            assert(self@.files == old(self)@.files);
            assert(self@.hashes == old(self)@.hashes);
        }
    }

    /// Judges a change of `path` whose bytes are now `contents`, recording
    /// the new hash where the change counts.
    fn compare(&mut self, path: &str, contents: &Vec<u8>) -> (candidate: bool)
        ensures
            (final(self)@, candidate) == old(self)@.compared(path@, contents@),
            old(self).wf() ==> final(self).wf(),
    {
        if self.has_changes(path, contents) && self.has_file(path) {
            let hash = fnv1a64(contents.as_slice());
            self.file_hashes.insert(path.to_owned(), hash);
            proof {
                assert(self@.files == old(self)@.files);
                assert(self@ == old(self)@.with_hash(path@, hash));
            }
            true
        } else {
            false
        }
    }

    /// Judges a candidate about `path` against the debounce table.
    fn debounce(&mut self, path: &str, now: u64) -> (accepted: bool)
        ensures
            (final(self)@, accepted) == old(self)@.debounced(path@, now),
            old(self).wf() ==> final(self).wf(),
    {
        let pending = match self.ignore_files_until.get(path) {
            Some(until) => *until > now,
            None => false,
        };
        if pending {
            false
        } else {
            self.ignore_files_until.remove(path);
            proof {
                assert(self@.files == old(self)@.files);
                assert(self@.hashes == old(self)@.hashes);
                assert(self@ == old(self)@.unmarked(path@));
            }
            true
        }
    }

    /// Judges one raw notification at `now`, given what `probe` found on
    /// disk for it, and says whether it is to be sent on. The index, the
    /// recorded hashes and the debounce table change as the judgement says.
    pub fn try_get_event(&mut self, event: &WatchEvent, probe: &Probe, now: u64) -> (accepted: bool)
        ensures
            (final(self)@, accepted) == old(self)@.judged(event@, probe@, now),
            old(self).wf() ==> final(self).wf(),
    {
        let candidate = match (event.kind, probe) {
            (EventKind::Create, Probe::Listing(listing)) => {
                self.index_files(listing);
                event.paths.len() > 0 && self.has_file(event.paths[0].as_str())
            },
            (EventKind::Modify(ModifyKind::Data), Probe::Contents(contents)) => {
                event.paths.len() > 0 && self.compare(event.paths[0].as_str(), contents)
            },
            (EventKind::Modify(ModifyKind::Name), Probe::Contents(contents)) => {
                event.paths.len() > 0 && self.compare(event.paths[0].as_str(), contents)
            },
            (EventKind::Remove, _) => {
                event.paths.len() > 0 && self.has_file(event.paths[0].as_str())
            },
            _ => false,
        };
        proof {
            assert(event@.paths.len() == event.paths@.len());
            if event.paths@.len() > 0 {
                assert(event@.paths[0] == event.paths@[0]@);
            }
            assert((self@, candidate) == old(self)@.classified(event@, probe@));
        }
        if candidate {
            self.debounce(event.paths[0].as_str(), now)
        } else {
            false
        }
    }

    /// One turn of a poll for an event: judges what the wait on the notifier
    /// gave and decides how the poll goes on. Silence ends the poll. An
    /// accepted notification ends it too, with that notification. A dropped
    /// one, or an error of the notifier, costs a round of patience, and the
    /// poll waits again for as long as the rounds that are left allow.
    pub fn poll_step(
        &mut self,
        backoff: &mut Backoff,
        received: &Received,
        probe: &Probe,
        now: u64,
    ) -> (step: PollStep)
        ensures
            old(self).wf() ==> final(self).wf(),
            match *received {
                Received::Silence => {
                    &&& step == PollStep::GiveUp
                    &&& final(self)@ == old(self)@
                    &&& final(backoff).rounds() == old(backoff).rounds()
                },
                Received::Fault => {
                    &&& final(self)@ == old(self)@
                    &&& final(backoff).rounds() == rounds_after_step(old(backoff).rounds())
                    &&& step == (PollStep::Retry {
                        timeout_ms: poll_timeout(final(backoff).rounds()) as u64,
                    })
                },
                Received::Event(event) => {
                    &&& final(self)@ == old(self)@.judged(event@, probe@, now).0
                    &&& if old(self)@.judged(event@, probe@, now).1 {
                        &&& step == PollStep::Deliver
                        &&& final(backoff).rounds() == old(backoff).rounds()
                    } else {
                        &&& final(backoff).rounds() == rounds_after_step(old(backoff).rounds())
                        &&& step == (PollStep::Retry {
                            timeout_ms: poll_timeout(final(backoff).rounds()) as u64,
                        })
                    }
                },
            },
    {
        match received {
            Received::Silence => PollStep::GiveUp,
            Received::Fault => {
                backoff.step();
                PollStep::Retry { timeout_ms: backoff.timeout_ms() }
            },
            Received::Event(event) => {
                if self.try_get_event(event, probe, now) {
                    PollStep::Deliver
                } else {
                    backoff.step();
                    PollStep::Retry { timeout_ms: backoff.timeout_ms() }
                }
            },
        }
    }

    /// Builds the message that reports `event`. `contents` are the bytes now
    /// in the file it names; a removal does not read them. Only a creation,
    /// a change of data or name, and a removal are reported, and only with
    /// exactly one path: everything else gives `None`.
    pub fn make_message_type(
        &self,
        event: &WatchEvent,
        contents: Vec<u8>,
    ) -> (msg: Option<MessageType>)
        ensures
            msg is Some <==> message_for(self@.root, event@, contents@) is Some,
            msg matches Some(m) ==> message_for(self@.root, event@, contents@) == Some(m@),
    {
        if event.paths.len() != 1 {
            return None;
        }
        proof {
            assert(event@.paths[0] == event.paths@[0]@);
        }
        match event.kind {
            EventKind::Create => {
                let path = make_local_path(self.root.as_str(), event.paths[0].as_str());
                Some(MessageType::CreateEvent { path, contents })
            },
            EventKind::Modify(ModifyKind::Data) | EventKind::Modify(ModifyKind::Name) => {
                let path = make_local_path(self.root.as_str(), event.paths[0].as_str());
                Some(MessageType::ModifyEvent { path, contents })
            },
            EventKind::Remove => {
                let path = make_local_path(self.root.as_str(), event.paths[0].as_str());
                Some(MessageType::DeleteEvent { path })
            },
            _ => None,
        }
    }

    /// Builds the frame that reports `event`, ready to be written to a peer.
    pub fn make_msg_data(&self, event: &WatchEvent, contents: Vec<u8>) -> (data: Option<Vec<u8>>)
        ensures
            data is Some <==> message_for(self@.root, event@, contents@) is Some,
            data matches Some(bytes) ==> bytes@ == data_for(
                message_for(self@.root, event@, contents@)->0,
            ),
    {
        match self.make_message_type(event, contents) {
            None => None,
            Some(msg) => Some(compose_data_message(&msg)),
        }
    }

    /// The entries of a full dump: the indexed files in order, each under
    /// its root-relative path, with `contents[i]` as the bytes of the file
    /// at position `i`. Where the index names distinct files below the
    /// root, the dump names no path twice.
    pub fn get_relative_files(&self, contents: &Vec<Vec<u8>>) -> (entries: Vec<FileEntry>)
        ensures
            entries_view(entries@) == relative_entries(
                self@.root,
                self@.files,
                buffers_view(contents@),
            ),
            self@.indexes_distinct_files_below_root() ==> distinct_paths(entries_view(entries@)),
    {
        proof {
            if self@.indexes_distinct_files_below_root() {
                lemma_relative_entries_distinct(
                    self@.root,
                    self@.files,
                    buffers_view(contents@),
                );
            }
        }
        let ghost wanted = relative_entries(self@.root, self@.files, buffers_view(contents@));
        let mut entries: Vec<FileEntry> = Vec::new();
        let mut i: usize = 0;
        while i < self.files.len() && i < contents.len()
            invariant
                i <= self.files@.len(),
                i <= contents@.len(),
                wanted == relative_entries(self@.root, self@.files, buffers_view(contents@)),
                entries@.len() == i,
                forall|j: int| 0 <= j < i ==> entries@[j]@ == wanted[j],
            decreases self.files@.len() - i,
        {
            let path = make_local_path(self.root.as_str(), self.files[i].as_str());
            let bytes = slice_to_vec(contents[i].as_slice());
            proof {
                assert(self@.files[i as int] == self.files@[i as int]@);
                assert(buffers_view(contents@)[i as int] == contents@[i as int]@);
            }
            entries.push(FileEntry { path, contents: bytes });
            i += 1;
        }
        proof {
            assert(entries_view(entries@) =~= wanted);
        }
        entries
    }

    /// Takes in a message from a peer at `now`: returns what it asks of the
    /// disk, in order, and marks every path that it touches, so that the
    /// notifications which those very writes cause are not sent back.
    ///
    /// `is_authoritative` says that we are the authority for the tree. A
    /// full dump is then out of place: it asks nothing and marks nothing.
    /// The marks do not wait for the disk: a write that fails later leaves
    /// its path marked all the same, and a notification about a marked path
    /// is dropped until the deadline of `now`.
    pub fn handle_message(
        &mut self,
        msg: &MessageType,
        is_authoritative: bool,
        now: u64,
    ) -> (actions: Vec<FsAction>)
        ensures
            actions_view(actions@) == plan(old(self)@.root, msg@, is_authoritative),
            final(self)@ == old(self)@.marked_all(
                touched(old(self)@.root, msg@, is_authoritative),
                now,
            ),
            forall|path: Seq<char>, later: u64|
                touched(old(self)@.root, msg@, is_authoritative).contains(path) && later
                    < deadline(now) ==> #[trigger] final(self)@.suppressed(path, later),
            old(self).wf() ==> final(self).wf(),
    {
        let ghost root = self@.root;
        proof {
            lemma_marked_all(old(self)@, touched(root, msg@, is_authoritative), now);
        }
        let mut actions: Vec<FsAction> = Vec::new();
        match msg {
            MessageType::Sync { files } => {
                if is_authoritative {
                    proof {
                        assert(actions_view(actions@) =~= Seq::empty());
                    }
                    return actions;
                }
                let ghost views = entries_view(files@);
                let mut i: usize = 0;
                while i < files.len()
                    invariant
                        i <= files@.len(),
                        views == entries_view(files@),
                        root == old(self)@.root,
                        self@.root == root,
                        old(self).wf() ==> self.wf(),
                        actions_view(actions@) == sync_plan(root, views.take(i as int)),
                        self@ == old(self)@.marked_all(sync_paths(root, views.take(i as int)), now),
                    decreases files@.len() - i,
                {
                    let entry = &files[i];
                    let path = make_absolute_path(self.root.as_str(), entry.path.as_str());
                    let ghost before = actions_view(actions@);
                    proof {
                        assert(views[i as int] == entry@);
                        assert(views.take(i + 1).drop_last() =~= views.take(i as int));
                        assert(views.take(i + 1).last() == entry@);
                        let paths = sync_paths(root, views.take(i + 1));
                        assert(paths.drop_last() =~= sync_paths(root, views.take(i as int)));
                        assert(paths.last() == path@);
                    }
                    self.mark_as_modified(path.as_str(), now);
                    push_write(&mut actions, path, &entry.contents);
                    proof {
                        assert(actions_view(actions@) == before + write_plan(
                            root,
                            entry@.path,
                            entry@.contents,
                        ));
                    }
                    i += 1;
                }
                proof {
                    assert(views.take(i as int) =~= views);
                    assert(self@ == old(self)@.marked_all(
                        touched(root, msg@, is_authoritative),
                        now,
                    ));
                }
            },
            MessageType::CreateEvent { path, contents } => {
                let abs_path = make_absolute_path(self.root.as_str(), path.as_str());
                self.mark_as_modified(abs_path.as_str(), now);
                push_write(&mut actions, abs_path, contents);
                proof {
                    let paths = touched(root, msg@, is_authoritative);
                    assert(old(self)@.marked_all(paths.drop_last(), now) == old(self)@);
                    assert(self@ == old(self)@.marked_all(paths, now));
                    assert(actions_view(actions@) =~= plan(root, msg@, is_authoritative));
                }
            },
            MessageType::ModifyEvent { path, contents } => {
                let abs_path = make_absolute_path(self.root.as_str(), path.as_str());
                self.mark_as_modified(abs_path.as_str(), now);
                push_write(&mut actions, abs_path, contents);
                proof {
                    let paths = touched(root, msg@, is_authoritative);
                    assert(old(self)@.marked_all(paths.drop_last(), now) == old(self)@);
                    assert(self@ == old(self)@.marked_all(paths, now));
                    assert(actions_view(actions@) =~= plan(root, msg@, is_authoritative));
                }
            },
            MessageType::DeleteEvent { path } => {
                let abs_path = make_absolute_path(self.root.as_str(), path.as_str());
                self.mark_as_modified(abs_path.as_str(), now);
                actions.push(FsAction::Remove { path: abs_path });
                proof {
                    let paths = touched(root, msg@, is_authoritative);
                    assert(old(self)@.marked_all(paths.drop_last(), now) == old(self)@);
                    assert(self@ == old(self)@.marked_all(paths, now));
                    assert(actions_view(actions@) =~= plan(root, msg@, is_authoritative));
                }
            },
            MessageType::MoveEvent { old_path, new_path } => {
                let abs_old_path = make_absolute_path(self.root.as_str(), old_path.as_str());
                let abs_new_path = make_absolute_path(self.root.as_str(), new_path.as_str());
                self.mark_as_modified(abs_old_path.as_str(), now);
                self.mark_as_modified(abs_new_path.as_str(), now);
                actions.push(FsAction::EnsureParent { path: abs_new_path.clone() });
                actions.push(FsAction::Rename { from: abs_old_path, to: abs_new_path });
                proof {
                    let paths = touched(root, msg@, is_authoritative);
                    let first = paths.drop_last();
                    assert(first =~= seq![abs_old_path@]);
                    assert(old(self)@.marked_all(first.drop_last(), now) == old(self)@);
                    assert(old(self)@.marked_all(first, now) == old(self)@.marked(
                        abs_old_path@,
                        now,
                    ));
                    assert(self@ == old(self)@.marked_all(paths, now));
                    assert(actions_view(actions@) =~= plan(root, msg@, is_authoritative));
                }
            },
        }
        actions
    }

    /// Marks the paths that `action` changed on disk, once it was carried
    /// out at `now`, so that the window in which they are ignored counts from
    /// the write itself.
    pub fn action_done(&mut self, action: &FsAction, now: u64)
        ensures
            final(self)@ == old(self)@.marked_all(action_paths(action@), now),
            old(self).wf() ==> final(self).wf(),
    {
        match action {
            FsAction::EnsureParent { path } => {},
            FsAction::Write { path, contents } => {
                self.mark_as_modified(path.as_str(), now);
                proof {
                    let paths = action_paths(action@);
                    assert(old(self)@.marked_all(paths.drop_last(), now) == old(self)@);
                }
            },
            FsAction::Remove { path } => {
                self.mark_as_modified(path.as_str(), now);
                proof {
                    let paths = action_paths(action@);
                    assert(old(self)@.marked_all(paths.drop_last(), now) == old(self)@);
                }
            },
            FsAction::Rename { from, to } => {
                self.mark_as_modified(from.as_str(), now);
                self.mark_as_modified(to.as_str(), now);
                proof {
                    let paths = action_paths(action@);
                    let first = paths.drop_last();
                    assert(first =~= seq![from@]);
                    assert(old(self)@.marked_all(first.drop_last(), now) == old(self)@);
                    assert(old(self)@.marked_all(first, now) == old(self)@.marked(from@, now));
                }
            },
        }
    }
}

} // verus!
