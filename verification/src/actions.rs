//! What taking in a message asks of the disk, and what an accepted
//! notification sends to the peers.

use crate::codec::encode_message;
use crate::events::{EventKind, ModifyKind, ProbeView, WatchEventView};
use crate::message_handler::{distinct_paths, framable, frame, FileEntryView, MessageView};
use crate::paths::{absolute_path, below_root, lemma_relative_of_absolute, relative_path};
use crate::paths::lemma_relative_path_injective;
use crate::watch_state::{deadline, lemma_marked_all, WatchView, DEBOUNCE_MS};
use vstd::prelude::*;

verus! {

/// One thing to do on disk. Paths are absolute.
#[derive(Debug, Clone, PartialEq, Eq)]
pub enum FsAction {
    /// Create the directories above `path` that are missing.
    EnsureParent { path: String },
    /// Write `contents` to the file at `path`, replacing what is there.
    Write { path: String, contents: Vec<u8> },
    /// Remove the file at `path`.
    Remove { path: String },
    /// Rename the file at `from` to `to`.
    Rename { from: String, to: String },
}

/// What an `FsAction` holds, as mathematical sequences.
pub enum FsActionView {
    EnsureParent { path: Seq<char> },
    Write { path: Seq<char>, contents: Seq<u8> },
    Remove { path: Seq<char> },
    Rename { from: Seq<char>, to: Seq<char> },
}

impl View for FsAction {
    type V = FsActionView;

    open spec fn view(&self) -> FsActionView {
        match self {
            FsAction::EnsureParent { path } => FsActionView::EnsureParent { path: path@ },
            FsAction::Write { path, contents } => FsActionView::Write {
                path: path@,
                contents: contents@,
            },
            FsAction::Remove { path } => FsActionView::Remove { path: path@ },
            FsAction::Rename { from, to } => FsActionView::Rename { from: from@, to: to@ },
        }
    }
}

/// The views of a list of actions, in order.
pub open spec fn actions_view(actions: Seq<FsAction>) -> Seq<FsActionView> {
    actions.map_values(|a: FsAction| a@)
}

/// What writing `contents` to the root-relative `path` asks of the disk:
/// the directories above the file, then its bytes.
pub open spec fn write_plan(root: Seq<char>, path: Seq<char>, contents: Seq<u8>) -> Seq<
    FsActionView,
> {
    seq![
        FsActionView::EnsureParent { path: absolute_path(root, path) },
        FsActionView::Write { path: absolute_path(root, path), contents },
    ]
}

/// What a full dump asks of the disk: its entries written one after the
/// other, in order.
pub open spec fn sync_plan(root: Seq<char>, files: Seq<FileEntryView>) -> Seq<FsActionView>
    decreases files.len(),
{
    if files.len() == 0 {
        Seq::empty()
    } else {
        sync_plan(root, files.drop_last()) + write_plan(
            root,
            files.last().path,
            files.last().contents,
        )
    }
}

/// A full dump asks two things per entry and nothing else: at `2 * i` the
/// directories above entry `i`, at `2 * i + 1` its bytes.
pub proof fn lemma_sync_plan_shape(root: Seq<char>, files: Seq<FileEntryView>)
    ensures
        sync_plan(root, files).len() == 2 * files.len(),
        forall|i: int|
            0 <= i < files.len() ==> {
                &&& #[trigger] sync_plan(root, files)[2 * i] == (FsActionView::EnsureParent {
                    path: absolute_path(root, files[i].path),
                })
                &&& sync_plan(root, files)[2 * i + 1] == (FsActionView::Write {
                    path: absolute_path(root, files[i].path),
                    contents: files[i].contents,
                })
            },
    decreases files.len(),
{
    if files.len() > 0 {
        let earlier = files.drop_last();
        lemma_sync_plan_shape(root, earlier);
        let all = sync_plan(root, files);
        assert forall|i: int| 0 <= i < files.len() implies {
            &&& #[trigger] all[2 * i] == (FsActionView::EnsureParent {
                path: absolute_path(root, files[i].path),
            })
            &&& all[2 * i + 1] == (FsActionView::Write {
                path: absolute_path(root, files[i].path),
                contents: files[i].contents,
            })
        } by {
            if i < earlier.len() {
                assert(earlier[i] == files[i]);
                assert(all[2 * i] == sync_plan(root, earlier)[2 * i]);
                assert(all[2 * i + 1] == sync_plan(root, earlier)[2 * i + 1]);
            }
        }
    }
}

/// The absolute paths that a full dump writes, in order.
pub open spec fn sync_paths(root: Seq<char>, files: Seq<FileEntryView>) -> Seq<Seq<char>> {
    files.map_values(|e: FileEntryView| absolute_path(root, e.path))
}

/// What an inbound message asks of the disk: a creation or modification
/// is written, a removal removes the file, a move renames it once the
/// directories above its new place exist. A full dump counts only from the
/// side that is authoritative for us: where we are the authority ourselves,
/// it asks nothing.
pub open spec fn plan(root: Seq<char>, msg: MessageView, is_authoritative: bool) -> Seq<
    FsActionView,
> {
    match msg {
        MessageView::Sync { files } => if is_authoritative {
            Seq::empty()
        } else {
            sync_plan(root, files)
        },
        MessageView::CreateEvent { path, contents } => write_plan(root, path, contents),
        MessageView::ModifyEvent { path, contents } => write_plan(root, path, contents),
        MessageView::DeleteEvent { path } => seq![
            FsActionView::Remove { path: absolute_path(root, path) },
        ],
        MessageView::MoveEvent { old_path, new_path } => seq![
            FsActionView::EnsureParent { path: absolute_path(root, new_path) },
            FsActionView::Rename {
                from: absolute_path(root, old_path),
                to: absolute_path(root, new_path),
            },
        ],
    }
}

/// The absolute paths that an inbound message touches, in the order in
/// which they are marked.
pub open spec fn touched(root: Seq<char>, msg: MessageView, is_authoritative: bool) -> Seq<
    Seq<char>,
> {
    match msg {
        MessageView::Sync { files } => if is_authoritative {
            Seq::empty()
        } else {
            sync_paths(root, files)
        },
        MessageView::CreateEvent { path, contents } => seq![absolute_path(root, path)],
        MessageView::ModifyEvent { path, contents } => seq![absolute_path(root, path)],
        MessageView::DeleteEvent { path } => seq![absolute_path(root, path)],
        MessageView::MoveEvent { old_path, new_path } => seq![
            absolute_path(root, old_path),
            absolute_path(root, new_path),
        ],
    }
}

/// The message that reports an event: its one path made relative to
/// `root`, with the bytes now in the file for a creation or for a change of
/// data or name. A modification of any other sort reports nothing, whatever
/// the file holds; neither do the other kinds, nor an event that does not
/// name exactly one path.
pub open spec fn message_for(root: Seq<char>, event: WatchEventView, contents: Seq<u8>) -> Option<
    MessageView,
> {
    if event.paths.len() != 1 {
        None
    } else {
        let path = relative_path(root, event.paths[0]);
        match event.kind {
            EventKind::Create => Some(MessageView::CreateEvent { path, contents }),
            EventKind::Modify(ModifyKind::Data) => Some(
                MessageView::ModifyEvent { path, contents },
            ),
            EventKind::Modify(ModifyKind::Name) => Some(
                MessageView::ModifyEvent { path, contents },
            ),
            EventKind::Remove => Some(MessageView::DeleteEvent { path }),
            _ => None,
        }
    }
}

/// A modification that only touches metadata, or whose sort is unknown,
/// is never reported: it gives no message for any root, any paths and any
/// contents.
pub proof fn lemma_attribute_change_not_reported(
    root: Seq<char>,
    event: WatchEventView,
    contents: Seq<u8>,
)
    requires
        event.kind == EventKind::Modify(ModifyKind::Metadata) || event.kind == EventKind::Modify(
            ModifyKind::Other,
        ) || event.kind == EventKind::Modify(ModifyKind::Any),
    ensures
        message_for(root, event, contents) is None,
{
}

/// Only what the judgement can accept is ever reported: an event whose kind
/// the judgement always drops gives no message either.
pub proof fn lemma_reported_kinds(root: Seq<char>, event: WatchEventView, contents: Seq<u8>)
    requires
        message_for(root, event, contents) is Some,
    ensures
        event.paths.len() == 1,
        event.kind == EventKind::Create || event.kind == EventKind::Modify(ModifyKind::Data)
            || event.kind == EventKind::Modify(ModifyKind::Name) || event.kind
            == EventKind::Remove,
{
}

/// The bytes to send for a message: its frame, or nothing at all where it
/// fits no frame.
pub open spec fn data_for(m: MessageView) -> Seq<u8> {
    if framable(m) {
        frame(encode_message(m))
    } else {
        Seq::empty()
    }
}

/// The indexed files paired with their bytes, as far as both lists reach:
/// each path made relative to `root`.
pub open spec fn relative_entries(
    root: Seq<char>,
    files: Seq<Seq<char>>,
    contents: Seq<Seq<u8>>,
) -> Seq<FileEntryView> {
    Seq::new(
        if files.len() <= contents.len() {
            files.len()
        } else {
            contents.len()
        },
        |i: int| FileEntryView { path: relative_path(root, files[i]), contents: contents[i] },
    )
}

/// A dump of distinct files below the root names no path twice.
pub proof fn lemma_relative_entries_distinct(
    root: Seq<char>,
    files: Seq<Seq<char>>,
    contents: Seq<Seq<u8>>,
)
    requires
        files.no_duplicates(),
        forall|i: int| 0 <= i < files.len() ==> below_root(root, #[trigger] files[i]),
    ensures
        distinct_paths(relative_entries(root, files, contents)),
{
    let entries = relative_entries(root, files, contents);
    assert forall|i: int, j: int|
        0 <= i < entries.len() && 0 <= j < entries.len() && (#[trigger] entries[i]).path == (
        #[trigger] entries[j]).path implies i == j by {
        lemma_relative_path_injective(root, files[i], files[j]);
    }
}

/// The paths that an action changes on disk, in order: none for making
/// directories, the file for a write or a removal, both names for a rename.
pub open spec fn action_paths(action: FsActionView) -> Seq<Seq<char>> {
    match action {
        FsActionView::EnsureParent { path } => Seq::empty(),
        FsActionView::Write { path, contents } => seq![path],
        FsActionView::Remove { path } => seq![path],
        FsActionView::Rename { from, to } => seq![from, to],
    }
}

/// The byte sequences of a list of buffers, in order.
pub open spec fn buffers_view(buffers: Seq<Vec<u8>>) -> Seq<Seq<u8>> {
    buffers.map_values(|b: Vec<u8>| b@)
}

/// No echo: once a message was taken in at `t`, a notification about any
/// path that it touched is dropped at every moment before the deadline of
/// `t`, that is, throughout `[t, t + 500)` wherever the clock can hold
/// `t + 500`, whatever the kind of the notification and whatever is on disk.
pub proof fn lemma_applied_paths_suppressed(
    state: WatchView,
    msg: MessageView,
    is_authoritative: bool,
    event: WatchEventView,
    probe: ProbeView,
    t: u64,
    now: u64,
)
    requires
        now < deadline(t),
        event.paths.len() > 0,
        touched(state.root, msg, is_authoritative).contains(event.paths[0]),
    ensures
        !state.marked_all(touched(state.root, msg, is_authoritative), t).judged(event, probe, now).1,
        t + DEBOUNCE_MS <= u64::MAX ==> deadline(t) == t + DEBOUNCE_MS,
{
    let paths = touched(state.root, msg, is_authoritative);
    let applied = state.marked_all(paths, t);
    lemma_marked_all(state, paths, t);
    assert(applied.ignore_until.dom().contains(event.paths[0]));
    assert(applied.suppressed(event.paths[0], now));
    let (after, candidate) = applied.classified(event, probe);
    assert(after.ignore_until == applied.ignore_until);
}

/// No echo of a change: after a creation or modification of the
/// root-relative `path` was taken in at `t`, the notification that the
/// write below the root causes is dropped at every moment before the
/// deadline of `t`.
pub proof fn lemma_no_echo_of_write(
    state: WatchView,
    path: Seq<char>,
    contents: Seq<u8>,
    is_authoritative: bool,
    event: WatchEventView,
    probe: ProbeView,
    t: u64,
    now: u64,
)
    requires
        now < deadline(t),
        event.paths.len() > 0,
        event.paths[0] == absolute_path(state.root, path),
    ensures
        !state.marked_all(
            touched(state.root, MessageView::CreateEvent { path, contents }, is_authoritative),
            t,
        ).judged(event, probe, now).1,
        !state.marked_all(
            touched(state.root, MessageView::ModifyEvent { path, contents }, is_authoritative),
            t,
        ).judged(event, probe, now).1,
{
    let created = MessageView::CreateEvent { path, contents };
    let modified = MessageView::ModifyEvent { path, contents };
    assert(touched(state.root, created, is_authoritative)[0] == event.paths[0]);
    assert(touched(state.root, modified, is_authoritative)[0] == event.paths[0]);
    lemma_applied_paths_suppressed(state, created, is_authoritative, event, probe, t, now);
    lemma_applied_paths_suppressed(state, modified, is_authoritative, event, probe, t, now);
}

/// A full dump that reaches the authority for the tree is ignored: it asks
/// nothing of the disk and leaves the watch state as it was.
pub proof fn lemma_sync_ignored_by_authority(state: WatchView, files: Seq<FileEntryView>, now: u64)
    ensures
        plan(state.root, MessageView::Sync { files }, true) == Seq::<FsActionView>::empty(),
        state.marked_all(touched(state.root, MessageView::Sync { files }, true), now) == state,
{
}

/// A change is mirrored: what happens to the file at `path` below one root
/// is, once reported and taken in, asked of the file at `path` below the
/// other root. A creation, or a change of data or name, writes the same
/// bytes there; a removal removes the file there.
pub proof fn lemma_change_is_mirrored(
    here: Seq<char>,
    there: Seq<char>,
    path: Seq<char>,
    event: WatchEventView,
    contents: Seq<u8>,
    is_authoritative: bool,
)
    requires
        event.paths == seq![absolute_path(here, path)],
        event.kind == EventKind::Create || event.kind == EventKind::Modify(ModifyKind::Data)
            || event.kind == EventKind::Modify(ModifyKind::Name) || event.kind
            == EventKind::Remove,
    ensures
        message_for(here, event, contents) is Some,
        plan(there, message_for(here, event, contents)->0, is_authoritative) == if event.kind
            == EventKind::Remove {
            seq![FsActionView::Remove { path: absolute_path(there, path) }]
        } else {
            write_plan(there, path, contents)
        },
{
    lemma_relative_of_absolute(here, path);
}

} // verus!
