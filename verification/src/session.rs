//! What a connection does next: the decisions of the loop that reads from
//! a peer and of the loop that feeds local changes to peers.

use crate::message_handler::{MessageError, MessageType};
use vstd::prelude::*;

verus! {

/// How long, in milliseconds, the feeding loop rests when no local change
/// is waiting.
pub const IDLE_SLEEP_MS: u64 = 10;

/// Which side of a connection we are.
#[derive(Debug, Clone, Copy, PartialEq, Eq)]
pub enum Role {
    Server,
    Client,
}

/// A server is the authority for its tree; a client is not.
pub open spec fn role_is_authoritative(role: Role) -> bool {
    role == Role::Server
}

/// Whether `role` is the authority for the tree, which decides if a full
/// dump from the peer is taken in.
pub fn is_authoritative(role: Role) -> (authoritative: bool)
    ensures
        authoritative == role_is_authoritative(role),
{
    match role {
        Role::Server => true,
        Role::Client => false,
    }
}

/// What the reading loop does after one attempt to read a message.
#[derive(Debug)]
pub enum ReaderStep {
    /// Apply the message, then read on.
    Apply(MessageType),
    /// Nothing to apply; read on.
    Skip,
    /// The connection is gone; leave the loop.
    Stop,
}

/// Decides the next step of the reading loop: a message is applied, a
/// disconnect ends the loop, and any other error is passed over with the
/// connection left open.
pub fn reader_step(read: Result<MessageType, MessageError>) -> (step: ReaderStep)
    ensures
        match read {
            Ok(msg) => step matches ReaderStep::Apply(m) && m == msg,
            Err(e) => if e@.is_disconnected {
                step is Stop
            } else {
                step is Skip
            },
        },
{
    match read {
        Ok(msg) => ReaderStep::Apply(msg),
        Err(e) => {
            if e.is_disconnected() {
                ReaderStep::Stop
            } else {
                ReaderStep::Skip
            }
        },
    }
}

/// What the feeding loop does with the frame of a local change.
#[derive(Debug, Clone, PartialEq, Eq)]
pub enum FeedStep {
    /// Nothing to send.
    Skip,
    /// Hand this frame to every peer, whatever becomes of it at the others.
    Send(Vec<u8>),
}

/// Decides what becomes of a local change: its frame is sent, unless the
/// change gave no message or its message fits no frame.
pub fn feed_step(data: Option<Vec<u8>>) -> (step: FeedStep)
    ensures
        match data {
            Some(bytes) => if bytes@.len() == 0 {
                step is Skip
            } else {
                step == FeedStep::Send(bytes)
            },
            None => step is Skip,
        },
{
    match data {
        Some(bytes) => {
            if bytes.len() == 0 {
                FeedStep::Skip
            } else {
                FeedStep::Send(bytes)
            }
        },
        None => FeedStep::Skip,
    }
}

} // verus!
