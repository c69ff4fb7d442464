//! Raw change notifications as the watch state takes them in: what
//! happened, to which paths, and what was looked up on disk about it.

use crate::listing::{listing_view, ListedFile, ListedFileView};
use vstd::prelude::*;

verus! {

/// What kind of modification the notifier saw.
#[derive(Debug, Clone, Copy, PartialEq, Eq)]
pub enum ModifyKind {
    Any,
    Data,
    Metadata,
    Name,
    Other,
}

/// What the notifier saw happen.
#[derive(Debug, Clone, Copy, PartialEq, Eq)]
pub enum EventKind {
    Any,
    Access,
    Create,
    Modify(ModifyKind),
    Remove,
    Other,
}

/// One raw notification: what happened, and the absolute paths it is about.
#[derive(Debug, Clone, PartialEq, Eq)]
pub struct WatchEvent {
    pub kind: EventKind,
    pub paths: Vec<String>,
}

/// What a `WatchEvent` holds, as mathematical sequences.
pub struct WatchEventView {
    pub kind: EventKind,
    pub paths: Seq<Seq<char>>,
}

/// The paths of a list of strings, in order.
pub open spec fn paths_view(files: Seq<String>) -> Seq<Seq<char>> {
    files.map_values(|f: String| f@)
}

impl View for WatchEvent {
    type V = WatchEventView;

    open spec fn view(&self) -> WatchEventView {
        WatchEventView { kind: self.kind, paths: paths_view(self.paths@) }
    }
}

/// What the program found out on disk about an event, before the watch
/// state judges it.
#[derive(Debug, Clone, PartialEq, Eq)]
pub enum Probe {
    /// Nothing was looked up.
    Nothing,
    /// A fresh walk of the root.
    Listing(Vec<ListedFile>),
    /// The bytes now in the file that the event names first.
    Contents(Vec<u8>),
}

/// What a `Probe` holds, as mathematical sequences.
pub enum ProbeView {
    Nothing,
    Listing(Seq<ListedFileView>),
    Contents(Seq<u8>),
}

impl View for Probe {
    type V = ProbeView;

    open spec fn view(&self) -> ProbeView {
        match self {
            Probe::Nothing => ProbeView::Nothing,
            Probe::Listing(l) => ProbeView::Listing(listing_view(l@)),
            Probe::Contents(c) => ProbeView::Contents(c@),
        }
    }
}

/// Which probe the judgement of an event reads.
#[derive(Debug, Clone, Copy, PartialEq, Eq)]
pub enum ProbeKind {
    Nothing,
    Listing,
    Contents,
}

/// A creation is judged against a fresh walk, a change of data or name
/// against the file's bytes, everything else against nothing.
pub open spec fn probe_for(kind: EventKind) -> ProbeKind {
    match kind {
        EventKind::Create => ProbeKind::Listing,
        EventKind::Modify(ModifyKind::Data) => ProbeKind::Contents,
        EventKind::Modify(ModifyKind::Name) => ProbeKind::Contents,
        _ => ProbeKind::Nothing,
    }
}

/// Which probe the judgement of an event of this kind reads.
pub fn probe_needed(kind: EventKind) -> (needed: ProbeKind)
    ensures
        needed == probe_for(kind),
{
    match kind {
        EventKind::Create => ProbeKind::Listing,
        EventKind::Modify(ModifyKind::Data) => ProbeKind::Contents,
        EventKind::Modify(ModifyKind::Name) => ProbeKind::Contents,
        _ => ProbeKind::Nothing,
    }
}

/// What one wait on the notifier gave.
#[derive(Debug, Clone, PartialEq, Eq)]
pub enum Received {
    /// Nothing arrived within the wait.
    Silence,
    /// The notifier reported an error of its own.
    Fault,
    /// A notification arrived.
    Event(WatchEvent),
}

} // verus!
