//! Tolerant decoding of a frame.

use super::frame::{
    copy_back, flag_bit, header_length, reference_backoff, reference_length, zeros, MAGIC,
};
use vstd::prelude::*;

verus! {

/// What can be wrong with a frame.
#[derive(Debug, Clone, PartialEq, Eq)]
pub enum DecompressError {
    /// Token number `i` of the stream (counted from zero) is a reference that
    /// reaches `offs` bytes back, further than the output then is long.
    BadReference { i: usize, offs: usize },
    /// The input is shorter than a header.
    DataTooShort,
    /// The first byte is not the magic byte.
    BadHeader,
    /// The input ended where `expected` should have been read.
    UnexpectedEof { expected: &'static str },
}

impl DecompressError {
    pub fn bad_reference(i: usize, offs: usize) -> (e: Self)
        ensures
            e == (DecompressError::BadReference { i, offs }),
    {
        DecompressError::BadReference { i, offs }
    }

    pub fn data_too_short() -> (e: Self)
        ensures
            e == DecompressError::DataTooShort,
    {
        DecompressError::DataTooShort
    }

    pub fn bad_header() -> (e: Self)
        ensures
            e == DecompressError::BadHeader,
    {
        DecompressError::BadHeader
    }

    pub fn unexpected_eof(expected: &'static str) -> (e: Self)
        ensures
            e == (DecompressError::UnexpectedEof { expected }),
    {
        DecompressError::UnexpectedEof { expected }
    }
}

/// The diagnostic for an input that ends where a flag byte is due.
pub open spec fn eof_flag() -> DecompressError {
    DecompressError::UnexpectedEof { expected: "flag byte" }
}

/// The diagnostic for an input that ends where a literal is due.
pub open spec fn eof_literal() -> DecompressError {
    DecompressError::UnexpectedEof { expected: "literal" }
}

/// The diagnostic for an input that ends inside a reference.
pub open spec fn eof_reference() -> DecompressError {
    DecompressError::UnexpectedEof { expected: "backref" }
}

/// Decoding from a group boundary: `pos` is where the next flag byte would
/// be, `out` and `errs` are what has been produced, `tok` counts the tokens
/// read so far. Decoding ends once `out` holds `target` bytes.
pub open spec fn decode_groups(
    input: Seq<u8>,
    target: nat,
    pos: nat,
    out: Seq<u8>,
    errs: Seq<DecompressError>,
    tok: nat,
) -> (Seq<u8>, Seq<DecompressError>)
    decreases input.len() - pos, 0nat,
{
    if out.len() >= target {
        (out, errs)
    } else if pos >= input.len() {
        (out, errs.push(eof_flag()))
    } else {
        decode_slots(input, target, pos + 1, out, errs, tok, input[pos as int], 0)
    }
}

/// Decoding inside a group, at slot `slot` of its flag byte `flag`.
///
/// A clear slot reads one literal. A set slot reads a two byte reference; one
/// that reaches before the start of the output is reported and stands for as
/// many zero bytes as it is long, and decoding goes on. A run is appended
/// whole, so the output may end up to seventeen bytes past `target`.
pub open spec fn decode_slots(
    input: Seq<u8>,
    target: nat,
    pos: nat,
    out: Seq<u8>,
    errs: Seq<DecompressError>,
    tok: nat,
    flag: u8,
    slot: nat,
) -> (Seq<u8>, Seq<DecompressError>)
    decreases input.len() - pos, 1nat,
{
    if slot >= 8 {
        decode_groups(input, target, pos, out, errs, tok)
    } else if out.len() >= target {
        (out, errs)
    } else if !flag_bit(flag, slot) {
        if pos >= input.len() {
            (out, errs.push(eof_literal()))
        } else {
            decode_slots(
                input,
                target,
                pos + 1,
                out.push(input[pos as int]),
                errs,
                tok + 1,
                flag,
                slot + 1,
            )
        }
    } else {
        if pos + 2 > input.len() {
            (out, errs.push(eof_reference()))
        } else {
            let length = reference_length(input[pos as int]);
            let backoff = reference_backoff(input[pos as int], input[(pos + 1) as int]);
            if out.len() < backoff {
                decode_slots(
                    input,
                    target,
                    pos + 2,
                    out + zeros(length),
                    errs.push(
                        DecompressError::BadReference { i: tok as usize, offs: backoff as usize },
                    ),
                    tok + 1,
                    flag,
                    slot + 1,
                )
            } else {
                decode_slots(
                    input,
                    target,
                    pos + 2,
                    copy_back(out, backoff, length),
                    errs,
                    tok + 1,
                    flag,
                    slot + 1,
                )
            }
        }
    }
}

/// What decoding `input` yields: the bytes recovered and the diagnostics in
/// the order in which they arose.
///
/// An input shorter than four bytes is `DataTooShort`, one that does not
/// start with the magic byte is `BadHeader`; both yield no bytes. Otherwise
/// tokens are read until the length in the header is reached or the input
/// runs out. Input after the last token needed is ignored.
pub open spec fn decompress_spec(input: Seq<u8>) -> (Seq<u8>, Seq<DecompressError>) {
    if input.len() < 4 {
        (Seq::empty(), seq![DecompressError::DataTooShort])
    } else if input[0] != MAGIC {
        (Seq::empty(), seq![DecompressError::BadHeader])
    } else {
        decode_groups(input, header_length(input), 4, Seq::empty(), Seq::empty(), 0)
    }
}

/// Appends `count` zero bytes to `out`.
fn push_zeros(out: &mut Vec<u8>, count: usize)
    ensures
        final(out)@ == old(out)@ + zeros(count as nat),
{
    let mut k: usize = 0;
    while k < count
        invariant
            k <= count,
            out@ == old(out)@ + zeros(k as nat),
        decreases count - k,
    {
        out.push(0u8);
        k += 1;
    }
}

/// Appends `count` bytes to `out`, each read `backoff` bytes before the end.
fn push_run(out: &mut Vec<u8>, backoff: usize, count: usize)
    requires
        1 <= backoff <= old(out)@.len(),
    ensures
        final(out)@ == copy_back(old(out)@, backoff as nat, count as nat),
{
    let mut k: usize = 0;
    while k < count
        invariant
            k <= count,
            backoff <= out@.len(),
            1 <= backoff,
            copy_back(out@, backoff as nat, (count - k) as nat) == copy_back(
                old(out)@,
                backoff as nat,
                count as nat,
            ),
        decreases count - k,
    {
        let b = out[out.len() - backoff];
        out.push(b);
        k += 1;
    }
}

/// Decodes a frame, going on past a bad reference and stopping where the
/// input runs out. Returns the bytes recovered so far together with every
/// diagnostic met.
pub fn decompress(input: &[u8]) -> (result: (Vec<u8>, Vec<DecompressError>))
    ensures
        result.0@ == decompress_spec(input@).0,
        result.1@ == decompress_spec(input@).1,
{
    let mut out: Vec<u8> = Vec::new();
    let mut errs: Vec<DecompressError> = Vec::new();
    let n = input.len();
    if n < 4 {
        errs.push(DecompressError::data_too_short());
        assert(errs@ == seq![DecompressError::DataTooShort]);
        return (out, errs);
    }
    if input[0] != MAGIC {
        errs.push(DecompressError::bad_header());
        assert(errs@ == seq![DecompressError::BadHeader]);
        return (out, errs);
    }
    let target: usize = input[1] as usize + (input[2] as usize) * 256 + (input[3] as usize) * 65536;
    let mut pos: usize = 4;
    let mut tok: usize = 0;
    while out.len() < target
        invariant
            n == input@.len(),
            4 <= pos <= n,
            tok <= pos,
            decode_groups(input@, target as nat, pos as nat, out@, errs@, tok as nat)
                == decompress_spec(input@),
        decreases n - pos,
    {
        if pos >= n {
            errs.push(DecompressError::unexpected_eof("flag byte"));
            return (out, errs);
        }
        let ghost group_start = pos;
        let flag = input[pos];
        pos += 1;
        let mut slot: u8 = 0;
        while slot < 8 && out.len() < target
            invariant
                n == input@.len(),
                4 <= pos <= n,
                slot <= 8,
                tok < pos,
                group_start < pos,
                decode_slots(
                    input@,
                    target as nat,
                    pos as nat,
                    out@,
                    errs@,
                    tok as nat,
                    flag,
                    slot as nat,
                ) == decompress_spec(input@),
            decreases 8 - slot,
        {
            if flag & (0x80u8 >> slot) == 0 {
                if pos >= n {
                    errs.push(DecompressError::unexpected_eof("literal"));
                    return (out, errs);
                }
                out.push(input[pos]);
                pos += 1;
            } else {
                if n - pos < 2 {
                    errs.push(DecompressError::unexpected_eof("backref"));
                    return (out, errs);
                }
                let hi = input[pos];
                let lo = input[pos + 1];
                let length: usize = (hi / 16) as usize + 3;
                let backoff: usize = (hi % 16) as usize * 256 + lo as usize + 1;
                if out.len() < backoff {
                    errs.push(DecompressError::bad_reference(tok, backoff));
                    push_zeros(&mut out, length);
                } else {
                    push_run(&mut out, backoff, length);
                }
                pos += 2;
            }
            tok += 1;
            slot += 1;
        }
    }
    (out, errs)
}

} // verus!
