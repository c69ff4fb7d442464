//! The byte layout of a message: one tag byte, then the fields of the
//! variant as texts and blocks. A full dump carries the number of its
//! entries as a 32-bit big-endian count before them.

use crate::message_handler::{entries_view, FileEntry, FileEntryView, MessageType, MessageView};
use crate::wire::{block, take_block, take_text, text, u32_be, be_u32};
use crate::wire::{lemma_be_u32_canonical, lemma_u32_be_round_trip};
use crate::wire::{lemma_take_block_of_block, lemma_take_block_sound};
use crate::wire::{lemma_take_text_of_text, lemma_take_text_sound};
use crate::wire::{get_block, get_text, get_u32, put_block, put_text, put_u32, MAX_BLOCK_LEN};
use vstd::prelude::*;
use vstd::utf8::encode_utf8;

verus! {

/// The tag of a full dump.
pub const TAG_SYNC: u8 = 0;

/// The tag of a creation.
pub const TAG_CREATE: u8 = 1;

/// The tag of a modification.
pub const TAG_MODIFY: u8 = 2;

/// The tag of a removal.
pub const TAG_DELETE: u8 = 3;

/// The tag of a move.
pub const TAG_MOVE: u8 = 4;

/// Whether a 32-bit prefix can announce the UTF-8 length of `s`.
pub open spec fn text_fits(s: Seq<char>) -> bool {
    encode_utf8(s).len() <= 0xffff_ffff
}

/// Whether a 32-bit prefix can announce the length of `b`.
pub open spec fn block_fits(b: Seq<u8>) -> bool {
    b.len() <= 0xffff_ffff
}

/// Whether both lengths of an entry fit their prefixes.
pub open spec fn entry_fits(e: FileEntryView) -> bool {
    text_fits(e.path) && block_fits(e.contents)
}

/// The messages that have an encoding: every length fits its prefix.
pub open spec fn encodable(m: MessageView) -> bool {
    match m {
        MessageView::Sync { files } => {
            &&& files.len() <= 0xffff_ffff
            &&& forall|i: int| 0 <= i < files.len() ==> entry_fits(#[trigger] files[i])
        },
        MessageView::CreateEvent { path, contents } => text_fits(path) && block_fits(contents),
        MessageView::ModifyEvent { path, contents } => text_fits(path) && block_fits(contents),
        MessageView::DeleteEvent { path } => text_fits(path),
        MessageView::MoveEvent { old_path, new_path } => text_fits(old_path) && text_fits(
            new_path,
        ),
    }
}

/// One entry on the wire: its path as a text, then its contents as a block.
pub open spec fn entry_bytes(e: FileEntryView) -> Seq<u8> {
    text(e.path) + block(e.contents)
}

/// The entries on the wire, one after the other.
pub open spec fn entries_bytes(es: Seq<FileEntryView>) -> Seq<u8>
    decreases es.len(),
{
    if es.len() == 0 {
        Seq::empty()
    } else {
        entry_bytes(es[0]) + entries_bytes(es.drop_first())
    }
}

/// The encoding of a message.
pub open spec fn encode_message(m: MessageView) -> Seq<u8> {
    match m {
        MessageView::Sync { files } => seq![TAG_SYNC] + u32_be(files.len() as int)
            + entries_bytes(files),
        MessageView::CreateEvent { path, contents } => seq![TAG_CREATE] + text(path) + block(
            contents,
        ),
        MessageView::ModifyEvent { path, contents } => seq![TAG_MODIFY] + text(path) + block(
            contents,
        ),
        MessageView::DeleteEvent { path } => seq![TAG_DELETE] + text(path),
        MessageView::MoveEvent { old_path, new_path } => seq![TAG_MOVE] + text(old_path) + text(
            new_path,
        ),
    }
}

/// Splits a leading entry off `input`.
pub open spec fn take_entry(input: Seq<u8>) -> Option<(FileEntryView, Seq<u8>)> {
    match take_text(input) {
        Some((path, after_path)) => match take_block(after_path) {
            Some((contents, rest)) => Some((FileEntryView { path, contents }, rest)),
            None => None,
        },
        None => None,
    }
}

/// Splits `count` leading entries off `input`.
pub open spec fn take_entries(input: Seq<u8>, count: nat) -> Option<
    (Seq<FileEntryView>, Seq<u8>),
>
    decreases count,
{
    if count == 0 {
        Some((Seq::empty(), input))
    } else {
        match take_entry(input) {
            Some((e, after)) => match take_entries(after, (count - 1) as nat) {
                Some((es, rest)) => Some((seq![e] + es, rest)),
                None => None,
            },
            None => None,
        }
    }
}

/// The message that `bytes` encode, or `None` when they encode none: an
/// unknown tag, a field cut short, a path that is not UTF-8, or bytes left
/// over after the last field.
pub open spec fn decode_message(bytes: Seq<u8>) -> Option<MessageView> {
    if bytes.len() == 0 {
        None
    } else {
        let body = bytes.skip(1);
        if bytes[0] == TAG_SYNC {
            if body.len() < 4 {
                None
            } else {
                match take_entries(body.skip(4), be_u32(body) as nat) {
                    Some((files, rest)) => if rest.len() == 0 {
                        Some(MessageView::Sync { files })
                    } else {
                        None
                    },
                    None => None,
                }
            }
        } else if bytes[0] == TAG_CREATE || bytes[0] == TAG_MODIFY {
            match take_entry(body) {
                Some((e, rest)) => if rest.len() != 0 {
                    None
                } else if bytes[0] == TAG_CREATE {
                    Some(MessageView::CreateEvent { path: e.path, contents: e.contents })
                } else {
                    Some(MessageView::ModifyEvent { path: e.path, contents: e.contents })
                },
                None => None,
            }
        } else if bytes[0] == TAG_DELETE {
            match take_text(body) {
                Some((path, rest)) => if rest.len() == 0 {
                    Some(MessageView::DeleteEvent { path })
                } else {
                    None
                },
                None => None,
            }
        } else if bytes[0] == TAG_MOVE {
            match take_text(body) {
                Some((old_path, after)) => match take_text(after) {
                    Some((new_path, rest)) => if rest.len() == 0 {
                        Some(MessageView::MoveEvent { old_path, new_path })
                    } else {
                        None
                    },
                    None => None,
                },
                None => None,
            }
        } else {
            None
        }
    }
}

/// An entry followed by anything splits back into the entry and the rest.
pub proof fn lemma_take_entry_of_entry(e: FileEntryView, rest: Seq<u8>)
    requires
        entry_fits(e),
    ensures
        take_entry(entry_bytes(e) + rest) == Some((e, rest)),
{
    let after_path = block(e.contents) + rest;
    assert(entry_bytes(e) + rest =~= text(e.path) + after_path);
    lemma_take_text_of_text(e.path, after_path);
    lemma_take_block_of_block(e.contents, rest);
}

/// Whatever splits as an entry was that entry followed by the rest.
pub proof fn lemma_take_entry_sound(input: Seq<u8>)
    requires
        take_entry(input) is Some,
    ensures
        ({
            let (e, rest) = take_entry(input)->0;
            &&& entry_fits(e)
            &&& input =~= entry_bytes(e) + rest
            &&& rest.len() < input.len()
        }),
{
    lemma_take_text_sound(input);
    let (path, after_path) = take_text(input)->0;
    lemma_take_block_sound(after_path);
}

/// Entries followed by anything split back into the entries and the rest.
pub proof fn lemma_take_entries_of_entries(es: Seq<FileEntryView>, rest: Seq<u8>)
    requires
        forall|i: int| 0 <= i < es.len() ==> entry_fits(#[trigger] es[i]),
    ensures
        take_entries(entries_bytes(es) + rest, es.len()) == Some((es, rest)),
    decreases es.len(),
{
    if es.len() == 0 {
        assert(entries_bytes(es) + rest =~= rest);
        assert(es =~= Seq::empty());
    } else {
        let tail = es.drop_first();
        let after = entries_bytes(tail) + rest;
        assert(entries_bytes(es) + rest =~= entry_bytes(es[0]) + after);
        lemma_take_entry_of_entry(es[0], after);
        assert forall|i: int| 0 <= i < tail.len() implies entry_fits(#[trigger] tail[i]) by {
            assert(tail[i] == es[i + 1]);
        }
        lemma_take_entries_of_entries(tail, rest);
        assert(seq![es[0]] + tail =~= es);
    }
}

/// Concatenation does not depend on how it is bracketed.
proof fn lemma_concat_assoc(a: Seq<u8>, b: Seq<u8>, c: Seq<u8>)
    ensures
        (a + b) + c == a + (b + c),
{
    assert((a + b) + c =~= a + (b + c));
}

/// Whatever splits as `count` entries was those entries followed by the rest.
pub proof fn lemma_take_entries_sound(input: Seq<u8>, count: nat)
    requires
        take_entries(input, count) is Some,
    ensures
        ({
            let (es, rest) = take_entries(input, count)->0;
            &&& es.len() == count
            &&& forall|i: int| 0 <= i < es.len() ==> entry_fits(#[trigger] es[i])
            &&& input == entries_bytes(es) + rest
        }),
    decreases count,
{
    if count == 0 {
        assert(input =~= entries_bytes(Seq::empty()) + input);
    } else {
        let (e, after) = take_entry(input)->0;
        let (tail, rest) = take_entries(after, (count - 1) as nat)->0;
        let es = seq![e] + tail;
        assert(take_entries(input, count) == Some((es, rest)));
        assert(input == entry_bytes(e) + after) by {
            lemma_take_entry_sound(input);
        }
        assert(entry_fits(e)) by {
            lemma_take_entry_sound(input);
        }
        lemma_take_entries_sound(after, (count - 1) as nat);
        assert(es[0] == e);
        assert(es.drop_first() =~= tail);
        assert(entries_bytes(es) == entry_bytes(e) + entries_bytes(tail));
        lemma_concat_assoc(entry_bytes(e), entries_bytes(tail), rest);
        assert forall|i: int| 0 <= i < es.len() implies entry_fits(#[trigger] es[i]) by {
            if i > 0 {
                assert(es[i] == tail[i - 1]);
            }
        }
    }
}

/// Decoding undoes encoding: every encodable message, whatever its variant
/// and however empty its fields, comes back unchanged from its own bytes.
pub proof fn lemma_decode_encode(m: MessageView)
    requires
        encodable(m),
    ensures
        decode_message(encode_message(m)) == Some(m),
{
    let bytes = encode_message(m);
    let body = bytes.skip(1);
    let nothing = Seq::<u8>::empty();
    match m {
        MessageView::Sync { files } => {
            let count = u32_be(files.len() as int);
            lemma_u32_be_round_trip(files.len() as int);
            assert(body =~= count + entries_bytes(files));
            assert(be_u32(body) == be_u32(count));
            assert(body.skip(4) =~= entries_bytes(files) + nothing);
            lemma_take_entries_of_entries(files, nothing);
        },
        MessageView::CreateEvent { path, contents } => {
            let e = FileEntryView { path, contents };
            assert(body =~= entry_bytes(e) + nothing);
            lemma_take_entry_of_entry(e, nothing);
        },
        MessageView::ModifyEvent { path, contents } => {
            let e = FileEntryView { path, contents };
            assert(body =~= entry_bytes(e) + nothing);
            lemma_take_entry_of_entry(e, nothing);
        },
        MessageView::DeleteEvent { path } => {
            assert(body =~= text(path) + nothing);
            lemma_take_text_of_text(path, nothing);
        },
        MessageView::MoveEvent { old_path, new_path } => {
            let after = text(new_path) + nothing;
            assert(body =~= text(old_path) + after);
            lemma_take_text_of_text(old_path, after);
            lemma_take_text_of_text(new_path, nothing);
        },
    }
}

/// Different messages have different encodings.
pub proof fn lemma_encoding_injective(a: MessageView, b: MessageView)
    requires
        encodable(a),
        encodable(b),
        encode_message(a) == encode_message(b),
    ensures
        a == b,
{
    lemma_decode_encode(a);
    lemma_decode_encode(b);
}

/// Encoding undoes decoding: bytes that decode to a message are exactly the
/// encoding of that message, so no two byte strings stand for one message.
pub proof fn lemma_decode_sound(bytes: Seq<u8>)
    requires
        decode_message(bytes) is Some,
    ensures
        encodable(decode_message(bytes)->0),
        encode_message(decode_message(bytes)->0) =~= bytes,
{
    let body = bytes.skip(1);
    assert(bytes =~= seq![bytes[0]] + body);
    if bytes[0] == TAG_SYNC {
        lemma_be_u32_canonical(body);
        lemma_take_entries_sound(body.skip(4), be_u32(body) as nat);
        assert(body =~= body.take(4) + body.skip(4));
    } else if bytes[0] == TAG_CREATE || bytes[0] == TAG_MODIFY {
        lemma_take_entry_sound(body);
    } else if bytes[0] == TAG_DELETE {
        lemma_take_text_sound(body);
    } else {
        lemma_take_text_sound(body);
        let (old_path, after) = take_text(body)->0;
        lemma_take_text_sound(after);
    }
}

/// Appending an entry to a list appends its bytes to the list's bytes.
pub proof fn lemma_entries_bytes_push(es: Seq<FileEntryView>, e: FileEntryView)
    ensures
        entries_bytes(es.push(e)) =~= entries_bytes(es) + entry_bytes(e),
    decreases es.len(),
{
    let all = es.push(e);
    if es.len() == 0 {
        assert(all.drop_first() =~= Seq::empty());
        assert(entries_bytes(all.drop_first()) =~= Seq::empty());
    } else {
        assert(all.drop_first() =~= es.drop_first().push(e));
        lemma_entries_bytes_push(es.drop_first(), e);
    }
}

/// Whether a 32-bit prefix can announce the UTF-8 length of `s`.
fn text_fits_exec(s: &str) -> (fits: bool)
    ensures
        fits == text_fits(s@),
{
    s.as_bytes().len() <= MAX_BLOCK_LEN
}

/// Whether a 32-bit prefix can announce the length of `b`.
fn block_fits_exec(b: &Vec<u8>) -> (fits: bool)
    ensures
        fits == block_fits(b@),
{
    b.len() <= MAX_BLOCK_LEN
}

/// Appends an entry to `out`, unless one of its lengths does not fit its
/// prefix; `out` is then left as it was.
fn put_entry(out: &mut Vec<u8>, path: &str, contents: &Vec<u8>) -> (done: bool)
    ensures
        done == (text_fits(path@) && block_fits(contents@)),
        done ==> final(out)@ == old(out)@ + entry_bytes(
            FileEntryView { path: path@, contents: contents@ },
        ),
        !done ==> final(out)@ == old(out)@,
{
    if !text_fits_exec(path) || !block_fits_exec(contents) {
        return false;
    }
    put_text(out, path);
    put_block(out, contents.as_slice());
    proof {
        let e = FileEntryView { path: path@, contents: contents@ };
        assert(out@ =~= old(out)@ + entry_bytes(e));
    }
    true
}

/// Encodes `msg`, or returns `None` when one of its lengths does not fit a
/// 32-bit prefix.
pub fn encode(msg: &MessageType) -> (r: Option<Vec<u8>>)
    ensures
        r is Some <==> encodable(msg@),
        r matches Some(bytes) ==> bytes@ == encode_message(msg@),
{
    let mut out: Vec<u8> = Vec::new();
    match msg {
        MessageType::Sync { files } => {
            if files.len() > MAX_BLOCK_LEN {
                return None;
            }
            out.push(TAG_SYNC);
            put_u32(&mut out, files.len() as u32);
            let ghost head = out@;
            let ghost views = entries_view(files@);
            let mut i: usize = 0;
            while i < files.len()
                invariant
                    i <= files@.len(),
                    views == entries_view(files@),
                    msg@ == (MessageView::Sync { files: views }),
                    out@ == head + entries_bytes(views.take(i as int)),
                    forall|j: int| 0 <= j < i ==> entry_fits(#[trigger] views[j]),
                decreases files@.len() - i,
            {
                let entry = &files[i];
                proof {
                    assert(views[i as int] == entry@);
                }
                if !put_entry(&mut out, entry.path.as_str(), &entry.contents) {
                    proof {
                        assert(0 <= i < views.len());
                        assert(!entry_fits(views[i as int]));
                    }
                    return None;
                }
                proof {
                    assert(views.take(i + 1) =~= views.take(i as int).push(views[i as int]));
                    lemma_entries_bytes_push(views.take(i as int), views[i as int]);
                    assert(out@ =~= head + entries_bytes(views.take(i + 1)));
                }
                i += 1;
            }
            proof {
                assert(views.take(i as int) =~= views);
                assert(head =~= seq![TAG_SYNC] + u32_be(files@.len() as int));
            }
            Some(out)
        },
        MessageType::CreateEvent { path, contents } => {
            out.push(TAG_CREATE);
            if !put_entry(&mut out, path.as_str(), contents) {
                return None;
            }
            proof {
                assert(out@ =~= encode_message(msg@));
            }
            Some(out)
        },
        MessageType::ModifyEvent { path, contents } => {
            out.push(TAG_MODIFY);
            if !put_entry(&mut out, path.as_str(), contents) {
                return None;
            }
            proof {
                assert(out@ =~= encode_message(msg@));
            }
            Some(out)
        },
        MessageType::DeleteEvent { path } => {
            if !text_fits_exec(path.as_str()) {
                return None;
            }
            out.push(TAG_DELETE);
            put_text(&mut out, path.as_str());
            Some(out)
        },
        MessageType::MoveEvent { old_path, new_path } => {
            if !text_fits_exec(old_path.as_str()) || !text_fits_exec(new_path.as_str()) {
                return None;
            }
            out.push(TAG_MOVE);
            put_text(&mut out, old_path.as_str());
            put_text(&mut out, new_path.as_str());
            Some(out)
        },
    }
}

/// `acc` followed by the entries that a split gave, keeping the split's rest.
pub open spec fn after_entries(
    acc: Seq<FileEntryView>,
    split: Option<(Seq<FileEntryView>, Seq<u8>)>,
) -> Option<(Seq<FileEntryView>, Seq<u8>)> {
    match split {
        Some((es, rest)) => Some((acc + es, rest)),
        None => None,
    }
}

/// Reads the entry that starts at `pos`: the entry and the position after
/// it, or `None` when no entry starts there.
fn get_entry(data: &[u8], pos: usize) -> (r: Option<(FileEntry, usize)>)
    requires
        pos <= data@.len(),
    ensures
        r is Some <==> take_entry(data@.skip(pos as int)) is Some,
        r matches Some((e, next)) ==> {
            &&& pos < next <= data@.len()
            &&& take_entry(data@.skip(pos as int)) == Some((e@, data@.skip(next as int)))
        },
{
    match get_text(data, pos) {
        None => None,
        Some((path, after_path)) => match get_block(data, after_path) {
            None => None,
            Some((contents, next)) => Some((FileEntry { path, contents }, next)),
        },
    }
}

/// Decodes the message that `data` encodes, or returns `None` when `data`
/// encodes none.
pub fn decode(data: &[u8]) -> (r: Option<MessageType>)
    ensures
        r is Some <==> decode_message(data@) is Some,
        r matches Some(m) ==> decode_message(data@) == Some(m@),
{
    let len = data.len();
    if len == 0 {
        return None;
    }
    let tag = data[0];
    if tag == TAG_SYNC {
        if len - 1 < 4 {
            return None;
        }
        let count = get_u32(data, 1);
        let ghost start = data@.skip(1).skip(4);
        proof {
            assert(start =~= data@.skip(5));
        }
        let mut files: Vec<FileEntry> = Vec::new();
        let mut pos: usize = 5;
        let mut i: u32 = 0;
        while i < count
            invariant
                i <= count,
                5 <= pos <= data@.len(),
                data@[0] == TAG_SYNC,
                count as int == be_u32(data@.skip(1)),
                start == data@.skip(1).skip(4),
                take_entries(start, count as nat) == after_entries(
                    entries_view(files@),
                    take_entries(data@.skip(pos as int), (count - i) as nat),
                ),
            decreases count - i,
        {
            let ghost acc = entries_view(files@);
            let ghost cur = data@.skip(pos as int);
            match get_entry(data, pos) {
                None => {
                    return None;
                },
                Some((entry, next)) => {
                    proof {
                        let after = data@.skip(next as int);
                        let more = take_entries(after, (count - i - 1) as nat);
                        assert(take_entries(cur, (count - i) as nat) == after_entries(
                            seq![entry@],
                            more,
                        ));
                        assert(entries_view(files@.push(entry)) =~= acc.push(entry@));
                        if more is Some {
                            let (es, _) = more->0;
                            assert(acc + (seq![entry@] + es) =~= acc.push(entry@) + es);
                        }
                    }
                    files.push(entry);
                    pos = next;
                    i += 1;
                },
            }
        }
        if pos != len {
            return None;
        }
        proof {
            assert(entries_view(files@) + Seq::<FileEntryView>::empty() =~= entries_view(
                files@,
            ));
        }
        Some(MessageType::Sync { files })
    } else if tag == TAG_CREATE || tag == TAG_MODIFY {
        match get_entry(data, 1) {
            None => None,
            Some((entry, next)) => {
                if next != len {
                    None
                } else if tag == TAG_CREATE {
                    Some(MessageType::CreateEvent { path: entry.path, contents: entry.contents })
                } else {
                    Some(MessageType::ModifyEvent { path: entry.path, contents: entry.contents })
                }
            },
        }
    } else if tag == TAG_DELETE {
        match get_text(data, 1) {
            None => None,
            Some((path, next)) => {
                if next != len {
                    None
                } else {
                    Some(MessageType::DeleteEvent { path })
                }
            },
        }
    } else if tag == TAG_MOVE {
        match get_text(data, 1) {
            None => None,
            Some((old_path, after)) => match get_text(data, after) {
                None => None,
                Some((new_path, next)) => {
                    if next != len {
                        None
                    } else {
                        Some(MessageType::MoveEvent { old_path, new_path })
                    }
                },
            },
        }
    } else {
        None
    }
}

} // verus!
