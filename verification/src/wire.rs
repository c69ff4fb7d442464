//! Building blocks of the wire format: big-endian 32-bit lengths and
//! length-prefixed byte blocks, each with its encoder, its decoder and the
//! facts that make decoding the inverse of encoding.

use vstd::prelude::*;
use vstd::slice::{slice_subrange, slice_to_vec};
use vstd::utf8::{decode_utf8, encode_utf8, valid_utf8};
use vstd::utf8::{decode_utf8_encode_utf8, encode_utf8_decode_utf8, encode_utf8_valid_utf8};

verus! {

/// Largest length a 32-bit prefix can announce.
pub const MAX_BLOCK_LEN: usize = 0xffff_ffff;

/// The four bytes of `n`, most significant first.
pub open spec fn u32_be(n: int) -> Seq<u8> {
    seq![
        ((n / 0x100_0000) % 0x100) as u8,
        ((n / 0x1_0000) % 0x100) as u8,
        ((n / 0x100) % 0x100) as u8,
        (n % 0x100) as u8,
    ]
}

/// The number that the first four bytes of `bytes` spell, most significant
/// byte first.
pub open spec fn be_u32(bytes: Seq<u8>) -> int {
    bytes[0] as int * 0x100_0000 + bytes[1] as int * 0x1_0000 + bytes[2] as int * 0x100
        + bytes[3] as int
}

/// A block: its length as a 32-bit big-endian prefix, then its bytes.
pub open spec fn block(payload: Seq<u8>) -> Seq<u8> {
    u32_be(payload.len() as int) + payload
}

/// Splits a leading block off `input`: the block's payload and what
/// follows it, or `None` when the prefix or the payload is cut short.
pub open spec fn take_block(input: Seq<u8>) -> Option<(Seq<u8>, Seq<u8>)> {
    if input.len() < 4 {
        None
    } else {
        let n = be_u32(input);
        if input.len() < 4 + n {
            None
        } else {
            Some((input.subrange(4, 4 + n), input.skip(4 + n)))
        }
    }
}

/// Reading a length back gives the length written.
pub proof fn lemma_u32_be_round_trip(n: int)
    requires
        0 <= n <= 0xffff_ffff,
    ensures
        u32_be(n).len() == 4,
        be_u32(u32_be(n)) == n,
{
}

/// Writing the length read gives back the four bytes it was read from.
pub proof fn lemma_be_u32_canonical(bytes: Seq<u8>)
    requires
        bytes.len() >= 4,
    ensures
        0 <= be_u32(bytes) <= 0xffff_ffff,
        u32_be(be_u32(bytes)) =~= bytes.take(4),
{
}

/// A block followed by anything splits back into its payload and the rest.
pub proof fn lemma_take_block_of_block(payload: Seq<u8>, rest: Seq<u8>)
    requires
        payload.len() <= 0xffff_ffff,
    ensures
        take_block(block(payload) + rest) == Some((payload, rest)),
{
    let input = block(payload) + rest;
    lemma_u32_be_round_trip(payload.len() as int);
    assert(be_u32(input) == be_u32(u32_be(payload.len() as int)));
    assert(input.subrange(4, 4 + payload.len() as int) =~= payload);
    assert(input.skip(4 + payload.len() as int) =~= rest);
}

/// Whatever splits as a block was that block followed by the rest.
pub proof fn lemma_take_block_sound(input: Seq<u8>)
    requires
        take_block(input) is Some,
    ensures
        ({
            let (payload, rest) = take_block(input)->0;
            &&& payload.len() <= 0xffff_ffff
            &&& input =~= block(payload) + rest
            &&& rest.len() < input.len()
        }),
{
    lemma_be_u32_canonical(input);
}

/// Appends the big-endian bytes of `n` to `out`.
pub(crate) fn put_u32(out: &mut Vec<u8>, n: u32)
    ensures
        final(out)@ == old(out)@ + u32_be(n as int),
{
    out.push((n >> 24) as u8);
    out.push(((n >> 16) & 0xff) as u8);
    out.push(((n >> 8) & 0xff) as u8);
    out.push((n & 0xff) as u8);
    proof {
        assert((n >> 24) == n / 0x100_0000 && (n >> 24) < 0x100) by (bit_vector);
        assert(((n >> 16) & 0xff) == (n / 0x1_0000) % 0x100) by (bit_vector);
        assert(((n >> 8) & 0xff) == (n / 0x100) % 0x100) by (bit_vector);
        assert((n & 0xff) == n % 0x100) by (bit_vector);
        assert(out@ =~= old(out)@ + u32_be(n as int));
    }
}

/// Reads the big-endian number in `data[pos..pos + 4]`.
pub(crate) fn get_u32(data: &[u8], pos: usize) -> (n: u32)
    requires
        pos + 4 <= data@.len(),
    ensures
        n as int == be_u32(data@.skip(pos as int)),
{
    let b0 = data[pos] as u32;
    let b1 = data[pos + 1] as u32;
    let b2 = data[pos + 2] as u32;
    let b3 = data[pos + 3] as u32;
    b0 * 0x100_0000 + b1 * 0x1_0000 + b2 * 0x100 + b3
}

/// Appends `src` to `out`, byte for byte.
pub(crate) fn put_bytes(out: &mut Vec<u8>, src: &[u8])
    ensures
        final(out)@ == old(out)@ + src@,
{
    let mut i: usize = 0;
    while i < src.len()
        invariant
            i <= src@.len(),
            out@ == old(out)@ + src@.take(i as int),
        decreases src@.len() - i,
    {
        out.push(src[i]);
        i += 1;
        proof {
            assert(out@ =~= old(out)@ + src@.take(i as int));
        }
    }
    proof {
        assert(src@.take(i as int) =~= src@);
    }
}

/// Appends `payload` to `out` as a block.
pub(crate) fn put_block(out: &mut Vec<u8>, payload: &[u8])
    requires
        payload@.len() <= MAX_BLOCK_LEN,
    ensures
        final(out)@ == old(out)@ + block(payload@),
{
    put_u32(out, payload.len() as u32);
    put_bytes(out, payload);
    proof {
        assert(out@ =~= old(out)@ + block(payload@));
    }
}

/// Reads the block that starts at `pos`: its payload and the position
/// after it, or `None` when `data` ends inside the block.
pub(crate) fn get_block(data: &[u8], pos: usize) -> (r: Option<(Vec<u8>, usize)>)
    requires
        pos <= data@.len(),
    ensures
        r is Some <==> take_block(data@.skip(pos as int)) is Some,
        r matches Some((payload, next)) ==> {
            &&& pos < next <= data@.len()
            &&& take_block(data@.skip(pos as int)) == Some(
                (payload@, data@.skip(next as int)),
            )
        },
{
    let len = data.len();
    if len - pos < 4 {
        return None;
    }
    let n = get_u32(data, pos) as usize;
    if len - pos - 4 < n {
        return None;
    }
    let start = pos + 4;
    let payload = slice_to_vec(slice_subrange(data, start, start + n));
    proof {
        let input = data@.skip(pos as int);
        assert(input.subrange(4, 4 + n as int) =~= data@.subrange(start as int, start + n));
        assert(input.skip(4 + n as int) =~= data@.skip(start + n));
    }
    Some((payload, start + n))
}

/// A text: the block of its UTF-8 bytes.
pub open spec fn text(s: Seq<char>) -> Seq<u8> {
    block(encode_utf8(s))
}

/// Splits a leading text off `input`, or `None` when no block leads
/// `input` or its payload is not UTF-8.
pub open spec fn take_text(input: Seq<u8>) -> Option<(Seq<char>, Seq<u8>)> {
    match take_block(input) {
        Some((payload, rest)) => if valid_utf8(payload) {
            Some((decode_utf8(payload), rest))
        } else {
            None
        },
        None => None,
    }
}

/// A text followed by anything splits back into its characters and the rest.
pub proof fn lemma_take_text_of_text(s: Seq<char>, rest: Seq<u8>)
    requires
        encode_utf8(s).len() <= 0xffff_ffff,
    ensures
        take_text(text(s) + rest) == Some((s, rest)),
{
    lemma_take_block_of_block(encode_utf8(s), rest);
    encode_utf8_valid_utf8(s);
    encode_utf8_decode_utf8(s);
}

/// Whatever splits as a text was that text followed by the rest.
pub proof fn lemma_take_text_sound(input: Seq<u8>)
    requires
        take_text(input) is Some,
    ensures
        ({
            let (s, rest) = take_text(input)->0;
            &&& encode_utf8(s).len() <= 0xffff_ffff
            &&& input =~= text(s) + rest
            &&& rest.len() < input.len()
        }),
{
    lemma_take_block_sound(input);
    let (payload, _) = take_block(input)->0;
    decode_utf8_encode_utf8(payload);
}

/// `String::from_utf8`, with its error dropped: a string that comes back
/// consists of exactly the given bytes, and none comes back only where no
/// string consists of them.
#[verifier::external_body]
fn string_from_utf8(bytes: Vec<u8>) -> (r: Option<String>)
    ensures
        r matches Some(s) ==> encode_utf8(s@) == bytes@,
        r is None ==> forall|s: Seq<char>| #[trigger] encode_utf8(s) != bytes@,
{
    String::from_utf8(bytes).ok()
}

/// Appends `s` to `out` as a text.
pub(crate) fn put_text(out: &mut Vec<u8>, s: &str)
    requires
        encode_utf8(s@).len() <= MAX_BLOCK_LEN,
    ensures
        final(out)@ == old(out)@ + text(s@),
{
    put_block(out, s.as_bytes());
}

/// Reads the text that starts at `pos`: the string and the position after
/// it, or `None` when `data` ends inside the block or the payload is not
/// UTF-8.
pub(crate) fn get_text(data: &[u8], pos: usize) -> (r: Option<(String, usize)>)
    requires
        pos <= data@.len(),
    ensures
        r is Some <==> take_text(data@.skip(pos as int)) is Some,
        r matches Some((s, next)) ==> {
            &&& pos < next <= data@.len()
            &&& take_text(data@.skip(pos as int)) == Some((s@, data@.skip(next as int)))
        },
{
    match get_block(data, pos) {
        None => None,
        Some((payload, next)) => {
            let ghost bytes = payload@;
            match string_from_utf8(payload) {
                None => {
                    proof {
                        if valid_utf8(bytes) {
                            decode_utf8_encode_utf8(bytes);
                        }
                    }
                    None
                },
                Some(s) => {
                    proof {
                        encode_utf8_valid_utf8(s@);
                        encode_utf8_decode_utf8(s@);
                    }
                    Some((s, next))
                },
            }
        },
    }
}

} // verus!
