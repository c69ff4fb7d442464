//! The messages that peers exchange, and the framing of one message on a
//! byte stream.

use crate::codec::{decode, decode_message, encodable, encode, encode_message};
use crate::codec::lemma_decode_encode;
use crate::wire::lemma_u32_be_round_trip;
use crate::wire::{be_u32, block, get_u32, put_block, MAX_BLOCK_LEN};
use vstd::prelude::*;

verus! {

/// One file of a full dump: its root-relative path and its bytes.
#[derive(Debug, Clone, PartialEq, Eq)]
pub struct FileEntry {
    pub path: String,
    pub contents: Vec<u8>,
}

/// What a `FileEntry` holds, as mathematical sequences.
pub struct FileEntryView {
    pub path: Seq<char>,
    pub contents: Seq<u8>,
}

impl View for FileEntry {
    type V = FileEntryView;

    open spec fn view(&self) -> FileEntryView {
        FileEntryView { path: self.path@, contents: self.contents@ }
    }
}

/// A change to replay on the other side. Paths are relative to the
/// synchronised root and use `/` as separator.
#[derive(Debug, Clone, PartialEq, Eq)]
pub enum MessageType {
    /// The whole tree, sent once by a server to a client that just connected:
    /// a map from path to bytes, written down as its entries in order. A
    /// dump built from an index of distinct files names no path twice; where
    /// one does, the entries are applied in order and the later one wins.
    Sync { files: Vec<FileEntry> },
    /// A file appeared at `path`, holding `contents`.
    CreateEvent { path: String, contents: Vec<u8> },
    /// The file at `path` now holds `contents`.
    ModifyEvent { path: String, contents: Vec<u8> },
    /// The file at `path` is gone.
    DeleteEvent { path: String },
    /// The file at `old_path` is now at `new_path`.
    MoveEvent { old_path: String, new_path: String },
}

/// What a `MessageType` holds, as mathematical sequences.
pub enum MessageView {
    Sync { files: Seq<FileEntryView> },
    CreateEvent { path: Seq<char>, contents: Seq<u8> },
    ModifyEvent { path: Seq<char>, contents: Seq<u8> },
    DeleteEvent { path: Seq<char> },
    MoveEvent { old_path: Seq<char>, new_path: Seq<char> },
}

/// No path occurs twice among the entries: the entries are a map from
/// path to bytes, written down in some order.
pub open spec fn distinct_paths(files: Seq<FileEntryView>) -> bool {
    forall|i: int, j: int|
        0 <= i < files.len() && 0 <= j < files.len() && (#[trigger] files[i]).path
            == (#[trigger] files[j]).path ==> i == j
}

/// The entries as a map from path to bytes. Where a path does occur twice,
/// the later entry counts, as it does when the entries are applied in order.
pub open spec fn files_map(files: Seq<FileEntryView>) -> Map<Seq<char>, Seq<u8>>
    decreases files.len(),
{
    if files.len() == 0 {
        Map::empty()
    } else {
        files_map(files.drop_last()).insert(files.last().path, files.last().contents)
    }
}

/// With distinct paths, the map holds every entry as it stands: the bytes
/// of entry `i` under the path of entry `i`, and nothing under other paths.
pub proof fn lemma_files_map_of_distinct(files: Seq<FileEntryView>)
    requires
        distinct_paths(files),
    ensures
        forall|i: int|
            0 <= i < files.len() ==> {
                &&& files_map(files).dom().contains((#[trigger] files[i]).path)
                &&& files_map(files)[files[i].path] == files[i].contents
            },
        forall|p: Seq<char>|
            files_map(files).dom().contains(p) ==> exists|i: int|
                0 <= i < files.len() && (#[trigger] files[i]).path == p,
    decreases files.len(),
{
    if files.len() > 0 {
        let earlier = files.drop_last();
        let n = earlier.len() as int;
        assert forall|i: int, j: int|
            0 <= i < earlier.len() && 0 <= j < earlier.len() && (#[trigger] earlier[i]).path == (
            #[trigger] earlier[j]).path implies i == j by {
            assert(files[i].path == files[j].path);
        }
        lemma_files_map_of_distinct(earlier);
        assert forall|i: int| 0 <= i < files.len() implies {
            &&& files_map(files).dom().contains((#[trigger] files[i]).path)
            &&& files_map(files)[files[i].path] == files[i].contents
        } by {
            if i < n {
                assert(earlier[i] == files[i]);
                assert(files[i].path != files[n].path);
            }
        }
        assert forall|p: Seq<char>| files_map(files).dom().contains(p) implies exists|i: int|
            0 <= i < files.len() && (#[trigger] files[i]).path == p by {
            if p == files[n].path {
            } else {
                assert(files_map(earlier).dom().contains(p));
                let i = choose|i: int| 0 <= i < earlier.len() && (#[trigger] earlier[i]).path == p;
                assert(files[i].path == p);
            }
        }
    }
}

/// The views of a list of entries, in order.
pub open spec fn entries_view(files: Seq<FileEntry>) -> Seq<FileEntryView> {
    files.map_values(|e: FileEntry| e@)
}

impl View for MessageType {
    type V = MessageView;

    open spec fn view(&self) -> MessageView {
        match self {
            MessageType::Sync { files } => MessageView::Sync { files: entries_view(files@) },
            MessageType::CreateEvent { path, contents } => MessageView::CreateEvent {
                path: path@,
                contents: contents@,
            },
            MessageType::ModifyEvent { path, contents } => MessageView::ModifyEvent {
                path: path@,
                contents: contents@,
            },
            MessageType::DeleteEvent { path } => MessageView::DeleteEvent { path: path@ },
            MessageType::MoveEvent { old_path, new_path } => MessageView::MoveEvent {
                old_path: old_path@,
                new_path: new_path@,
            },
        }
    }
}

/// The messages that fit a frame: they have an encoding, and a 32-bit
/// prefix can announce its length.
pub open spec fn framable(m: MessageView) -> bool {
    encodable(m) && encode_message(m).len() <= 0xffff_ffff
}

/// A frame: the payload as a block, that is, its length as four big-endian
/// bytes and then the payload itself.
pub open spec fn frame(payload: Seq<u8>) -> Seq<u8> {
    block(payload)
}

/// The frame that carries `event`. A message that fits no frame gives the
/// empty vector, which is no frame at all.
pub fn compose_data_message(event: &MessageType) -> (data: Vec<u8>)
    ensures
        framable(event@) ==> data@ == frame(encode_message(event@)),
        !framable(event@) ==> data@.len() == 0,
        framable(event@) ==> data@.len() >= 5,
{
    let mut data: Vec<u8> = Vec::new();
    match encode(event) {
        None => {},
        Some(event_data) => {
            if event_data.len() <= MAX_BLOCK_LEN {
                put_block(&mut data, event_data.as_slice());
                proof {
                    assert(data@ =~= frame(encode_message(event@)));
                }
            }
        },
    }
    data
}

/// Why a payload was refused: it is the encoding of no message.
#[derive(Debug, Clone, Copy, PartialEq, Eq)]
pub struct Malformed;

/// Decodes the payload of one frame.
pub fn parse_msg(data: &[u8]) -> (r: Result<MessageType, Malformed>)
    ensures
        r is Ok <==> decode_message(data@) is Some,
        r matches Ok(m) ==> decode_message(data@) == Some(m@),
{
    match decode(data) {
        Some(event) => Ok(event),
        None => Err(Malformed),
    }
}

/// Why a message could not be read or written, and whether the connection
/// is gone for good.
#[derive(Debug)]
pub struct MessageError {
    msg: String,
    is_disconnected: bool,
}

/// What a `MessageError` holds.
pub struct MessageErrorView {
    pub msg: Seq<char>,
    pub is_disconnected: bool,
}

impl View for MessageError {
    type V = MessageErrorView;

    closed spec fn view(&self) -> MessageErrorView {
        MessageErrorView { msg: self.msg@, is_disconnected: self.is_disconnected }
    }
}

impl MessageError {
    /// An error that leaves the connection open.
    pub fn parse_error(msg: &str) -> (e: Self)
        ensures
            e@ == (MessageErrorView { msg: msg@, is_disconnected: false }),
    {
        MessageError { msg: msg.to_owned(), is_disconnected: false }
    }

    /// An error that ends the connection.
    pub fn disconnect_error(msg: &str) -> (e: Self)
        ensures
            e@ == (MessageErrorView { msg: msg@, is_disconnected: true }),
    {
        MessageError { msg: msg.to_owned(), is_disconnected: true }
    }

    /// Whether the connection is gone.
    pub fn is_disconnected(&self) -> (gone: bool)
        ensures
            gone == self@.is_disconnected,
    {
        self.is_disconnected
    }

    /// The text of the error.
    pub fn message(&self) -> (msg: &str)
        ensures
            msg@ == self@.msg,
    {
        self.msg.as_str()
    }
}

/// What one read on the stream gave: an I/O error, or the bytes that
/// arrived (none at all when the peer closed the stream).
#[derive(Debug, Clone, PartialEq, Eq)]
pub enum StreamRead {
    Failed,
    Bytes(Vec<u8>),
}

/// The error of a header or payload that did not arrive in full.
pub open spec fn short_read_error() -> MessageErrorView {
    MessageErrorView { msg: "Failed to read length"@, is_disconnected: false }
}

/// The error of a stream that the peer closed between two frames.
pub open spec fn closed_error() -> MessageErrorView {
    MessageErrorView { msg: "Disconnected"@, is_disconnected: true }
}

/// The error of a payload that is the encoding of no message.
pub open spec fn malformed_error() -> MessageErrorView {
    MessageErrorView { msg: "Failed to parse message"@, is_disconnected: false }
}

/// The error of a message that fits no frame.
pub open spec fn unframable_error() -> MessageErrorView {
    MessageErrorView { msg: "Failed to serialize message"@, is_disconnected: false }
}

/// The error of a frame that the stream did not take in full.
pub open spec fn write_failed_error() -> MessageErrorView {
    MessageErrorView { msg: "Failed to write message"@, is_disconnected: true }
}

/// First half of reading a message: judges the read of the four length
/// bytes and gives the number of payload bytes to read next. No byte at
/// all is an orderly disconnect; an I/O error, or a header that is not four
/// bytes long, is a failed read that leaves the connection open.
pub fn read_msg_length(header: &StreamRead) -> (r: Result<usize, MessageError>)
    ensures
        match *header {
            StreamRead::Failed => r matches Err(e) && e@ == short_read_error(),
            StreamRead::Bytes(b) => if b@.len() == 0 {
                r matches Err(e) && e@ == closed_error()
            } else if b@.len() == 4 {
                r matches Ok(len) && len as int == be_u32(b@)
            } else {
                r matches Err(e) && e@ == short_read_error()
            },
        },
{
    match header {
        StreamRead::Failed => Err(MessageError::parse_error("Failed to read length")),
        StreamRead::Bytes(b) => {
            if b.len() == 0 {
                Err(MessageError::disconnect_error("Disconnected"))
            } else if b.len() == 4 {
                proof {
                    assert(b@.skip(0) =~= b@);
                }
                Ok(get_u32(b.as_slice(), 0) as usize)
            } else {
                Err(MessageError::parse_error("Failed to read length"))
            }
        },
    }
}

/// Second half of reading a message: judges the read of the `len` payload
/// bytes and decodes them. An I/O error or a payload of another length is a
/// failed read; a payload that encodes no message is a parse error. Neither
/// closes the connection.
pub fn read_msg_body(len: usize, payload: &StreamRead) -> (r: Result<MessageType, MessageError>)
    ensures
        match *payload {
            StreamRead::Failed => r matches Err(e) && e@ == short_read_error(),
            StreamRead::Bytes(b) => if b@.len() != len {
                r matches Err(e) && e@ == short_read_error()
            } else {
                match decode_message(b@) {
                    Some(m) => r matches Ok(got) && got@ == m,
                    None => r matches Err(e) && e@ == malformed_error(),
                }
            },
        },
{
    match payload {
        StreamRead::Failed => Err(MessageError::parse_error("Failed to read length")),
        StreamRead::Bytes(b) => {
            if b.len() != len {
                Err(MessageError::parse_error("Failed to read length"))
            } else {
                match parse_msg(b.as_slice()) {
                    Ok(event) => Ok(event),
                    Err(_) => Err(MessageError::parse_error("Failed to parse message")),
                }
            }
        },
    }
}

/// First half of writing a message: the frame to hand to the stream in one
/// piece, or an error for a message that fits no frame.
pub fn write_msg(msg: &MessageType) -> (r: Result<Vec<u8>, MessageError>)
    ensures
        framable(msg@) ==> (r matches Ok(data) && data@ == frame(encode_message(msg@))),
        !framable(msg@) ==> (r matches Err(e) && e@ == unframable_error()),
{
    let msg_data = compose_data_message(msg);
    if msg_data.len() == 0 {
        return Err(MessageError::parse_error("Failed to serialize message"));
    }
    Ok(msg_data)
}

/// Second half of writing a message: a frame that the stream did not take
/// in full means the connection is broken.
pub fn write_msg_done(written: bool) -> (r: Result<(), MessageError>)
    ensures
        written ==> r is Ok,
        !written ==> (r matches Err(e) && e@ == write_failed_error()),
{
    if written {
        Ok(())
    } else {
        Err(MessageError::disconnect_error("Failed to write message"))
    }
}

/// A frame read back gives the message that was framed: its first four
/// bytes announce exactly the bytes that follow, and those decode to the
/// message.
pub proof fn lemma_frame_round_trip(m: MessageView)
    requires
        framable(m),
    ensures
        ({
            let data = frame(encode_message(m));
            &&& data.len() == 4 + encode_message(m).len()
            &&& be_u32(data.take(4)) == data.len() - 4
            &&& decode_message(data.skip(4)) == Some(m)
        }),
{
    let payload = encode_message(m);
    let data = frame(payload);
    lemma_u32_be_round_trip(payload.len() as int);
    lemma_decode_encode(m);
    assert(data.skip(4) =~= payload);
}

} // verus!
