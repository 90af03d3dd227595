//! The byte-level frame format, as mathematical functions on sequences.

use vstd::prelude::*;

verus! {

/// First byte of every frame.
pub const MAGIC: u8 = 0x10;

/// Shortest run a reference can encode.
pub const MIN_MATCH: usize = 3;

/// Longest run a reference can encode.
pub const MAX_MATCH: usize = 18;

/// Farthest distance a reference can reach back.
pub const WINDOW: usize = 4096;

/// One past the largest length the header can record.
pub const LENGTH_LIMIT: usize = 0x100_0000;

/// One unit of the compressed stream.
pub enum Token {
    /// A byte copied to the output as it stands.
    Literal(u8),
    /// `length` bytes copied from `offset` bytes before the end of the output.
    Reference { length: nat, offset: nat },
}

/// The four header bytes for a payload of `len` bytes: the magic byte, then
/// the low 24 bits of `len`, least significant byte first.
pub open spec fn header(len: nat) -> Seq<u8> {
    seq![MAGIC, (len % 256) as u8, ((len / 256) % 256) as u8, ((len / 65536) % 256) as u8]
}

/// The length recorded in the header bytes of `frame`.
pub open spec fn header_length(frame: Seq<u8>) -> nat
    recommends
        frame.len() >= 4,
{
    (frame[1] as nat) + (frame[2] as nat) * 256 + (frame[3] as nat) * 65536
}

/// Whether a token can be represented in the stream.
pub open spec fn token_fits(t: Token) -> bool {
    match t {
        Token::Literal(_) => true,
        Token::Reference { length, offset } => MIN_MATCH <= length <= MAX_MATCH && 1 <= offset
            <= WINDOW,
    }
}

/// The first byte of an encoded reference: the length less three in the high
/// nibble, the top four bits of the offset less one in the low nibble.
pub open spec fn reference_hi(length: nat, offset: nat) -> u8 {
    ((length - 3) * 16 + (offset - 1) / 256) as u8
}

/// The second byte of an encoded reference: the low eight bits of the offset
/// less one.
pub open spec fn reference_lo(offset: nat) -> u8 {
    ((offset - 1) % 256) as u8
}

/// The bytes that carry one token: one for a literal, two for a reference.
pub open spec fn token_bytes(t: Token) -> Seq<u8> {
    match t {
        Token::Literal(b) => seq![b],
        Token::Reference { length, offset } => seq![
            reference_hi(length, offset),
            reference_lo(offset),
        ],
    }
}

/// The length that an encoded reference stands for.
pub open spec fn reference_length(hi: u8) -> nat {
    (hi / 16 + 3) as nat
}

/// The distance that an encoded reference reaches back.
pub open spec fn reference_backoff(hi: u8, lo: u8) -> nat {
    ((hi % 16) * 256 + lo + 1) as nat
}

/// The mask that selects slot `slot` of a flag byte; slot 0 is the most
/// significant bit.
pub open spec fn slot_mask(slot: nat) -> u8
    recommends
        slot < 8,
{
    0x80u8 >> (slot as u8)
}

/// Whether slot `slot` of `flag` marks a reference.
pub open spec fn flag_bit(flag: u8, slot: nat) -> bool
    recommends
        slot < 8,
{
    flag & slot_mask(slot) != 0
}

/// The flag byte of a group of at most eight tokens: slot `i` is set exactly
/// when token `i` is a reference, and unused slots stay clear.
pub open spec fn flag_byte(group: Seq<Token>) -> u8
    recommends
        group.len() <= 8,
    decreases group.len(),
{
    if group.len() == 0 {
        0
    } else {
        let rest = flag_byte(group.drop_last());
        if group.last() is Reference {
            rest | slot_mask((group.len() - 1) as nat)
        } else {
            rest
        }
    }
}

/// The token bytes of a group, in order, without the flag byte.
pub open spec fn payload(group: Seq<Token>) -> Seq<u8>
    decreases group.len(),
{
    if group.len() == 0 {
        Seq::empty()
    } else {
        payload(group.drop_last()) + token_bytes(group.last())
    }
}

/// One group on the wire: its flag byte, then its tokens.
pub open spec fn encode_group(group: Seq<Token>) -> Seq<u8>
    recommends
        0 < group.len() <= 8,
{
    seq![flag_byte(group)] + payload(group)
}

/// A token stream on the wire: full groups of eight, then the remainder if
/// there is one. No group is written for an empty stream.
pub open spec fn encode_tokens(tokens: Seq<Token>) -> Seq<u8>
    decreases tokens.len(),
{
    if tokens.len() == 0 {
        Seq::empty()
    } else if tokens.len() <= 8 {
        encode_group(tokens)
    } else {
        encode_group(tokens.take(8)) + encode_tokens(tokens.skip(8))
    }
}

/// The output after appending `count` bytes, each read `backoff` bytes before
/// the end as it then is. A run may overlap the bytes it produces.
pub open spec fn copy_back(out: Seq<u8>, backoff: nat, count: nat) -> Seq<u8>
    recommends
        1 <= backoff <= out.len(),
    decreases count,
{
    if count == 0 {
        out
    } else {
        copy_back(out.push(out[out.len() - backoff]), backoff, (count - 1) as nat)
    }
}

/// `count` zero bytes.
pub open spec fn zeros(count: nat) -> Seq<u8> {
    Seq::new(count, |i: int| 0u8)
}

} // verus!
