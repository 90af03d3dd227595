//! What holds between `compress` and `decompress`.

use super::compress::{compress_spec, next_token, span, tokenize};
use super::decompress::{decode_groups, decode_slots, decompress_spec, DecompressError};
use super::frame::{
    copy_back, encode_group, encode_tokens, flag_bit, flag_byte, header, header_length, payload,
    reference_backoff, reference_hi, reference_length, reference_lo, slot_mask, token_bytes,
    token_fits, Token, LENGTH_LIMIT, MAGIC,
};
use super::matcher::{lemma_find_match, CompressionStrategy};
use vstd::prelude::*;

verus! {

/// Whether `tokens` spell out `x` from position `c` to its end: each literal
/// is the byte at its place, and each reference fits the format, reaches no
/// further back than the start of `x`, and repeats the bytes it points at.
pub open spec fn parses(x: Seq<u8>, c: int, tokens: Seq<Token>) -> bool
    decreases tokens.len(),
{
    if tokens.len() == 0 {
        c == x.len()
    } else {
        &&& 0 <= c < x.len()
        &&& match tokens[0] {
            Token::Literal(b) => b == x[c],
            Token::Reference { length, offset } => {
                &&& token_fits(tokens[0])
                &&& offset <= c
                &&& c + length <= x.len()
                &&& forall|i: int| c <= i < c + length ==> #[trigger] x[i] == x[i - offset]
            },
        }
        &&& parses(x, c + span(tokens[0]), tokens.skip(1))
    }
}

/// The tokens that the compressor emits spell out its input.
pub proof fn lemma_tokenize_parses(x: Seq<u8>, c: int, strategy: CompressionStrategy)
    requires
        0 <= c <= x.len(),
    ensures
        parses(x, c, tokenize(x, c, strategy)),
    decreases x.len() - c,
{
    if c < x.len() {
        lemma_find_match(x, c, strategy);
        let t = next_token(x, c, strategy);
        let rest = tokenize(x, c + span(t), strategy);
        lemma_tokenize_parses(x, c + span(t), strategy);
        let all = seq![t] + rest;
        assert(all[0] == t);
        assert(all.skip(1) =~= rest);
    }
}

/// A slot of a group's flag byte is set exactly where the group holds a
/// reference.
pub proof fn lemma_flag_byte(group: Seq<Token>, slot: nat)
    requires
        group.len() <= 8,
        slot < 8,
    ensures
        flag_bit(flag_byte(group), slot) == (slot < group.len() && group[slot as int] is Reference),
    decreases group.len(),
{
    if group.len() == 0 {
        let m = slot_mask(slot);
        assert(0u8 & m == 0) by (bit_vector);
    } else {
        let shorter = group.drop_last();
        lemma_flag_byte(shorter, slot);
        let rest = flag_byte(shorter);
        let i = (group.len() - 1) as u8;
        let j = slot as u8;
        assert(i < 8 && j < 8 ==> (((rest | (0x80u8 >> i)) & (0x80u8 >> j) != 0) <==> (rest & (0x80u8
            >> j) != 0 || i == j))) by (bit_vector);
        if slot < shorter.len() {
            assert(shorter[slot as int] == group[slot as int]);
        }
    }
}

/// The bytes of two runs of tokens, one after the other.
pub proof fn lemma_payload_concat(a: Seq<Token>, b: Seq<Token>)
    ensures
        payload(a + b) == payload(a) + payload(b),
    decreases b.len(),
{
    if b.len() == 0 {
        assert(a + b =~= a);
        assert(payload(a) + payload(b) =~= payload(a));
    } else {
        lemma_payload_concat(a, b.drop_last());
        assert((a + b).drop_last() =~= a + b.drop_last());
        assert((a + b).last() == b.last());
        assert(payload(a + b) =~= payload(a) + payload(b));
    }
}

/// The bytes of a run of tokens start with the bytes of its first token.
pub proof fn lemma_payload_front(tokens: Seq<Token>)
    requires
        tokens.len() > 0,
    ensures
        payload(tokens) == token_bytes(tokens[0]) + payload(tokens.skip(1)),
{
    let first = seq![tokens[0]];
    assert(first + tokens.skip(1) =~= tokens);
    lemma_payload_concat(first, tokens.skip(1));
    assert(first.drop_last() =~= Seq::<Token>::empty());
    assert(payload(Seq::<Token>::empty()) =~= Seq::<u8>::empty());
    assert(payload(first) =~= token_bytes(tokens[0]));
}

/// The two bytes of a reference give back its length and its offset.
pub proof fn lemma_reference_bytes(length: nat, offset: nat)
    requires
        token_fits(Token::Reference { length, offset }),
    ensures
        reference_length(reference_hi(length, offset)) == length,
        reference_backoff(reference_hi(length, offset), reference_lo(offset)) == offset,
{
    let top = (offset - 1) / 256;
    assert(0 <= top < 16);
    let hi = (length - 3) * 16 + top;
    assert(0 <= hi < 256);
    assert(hi / 16 == length - 3);
    assert(hi % 16 == top);
}

/// Copying a run that repeats earlier bytes of `x` extends a prefix of `x`
/// to a longer prefix.
pub proof fn lemma_copy_back_prefix(x: Seq<u8>, c: int, offset: nat, length: nat)
    requires
        1 <= offset <= c,
        c + length <= x.len(),
        forall|i: int| c <= i < c + length ==> #[trigger] x[i] == x[i - offset],
    ensures
        copy_back(x.take(c), offset, length) == x.take(c + length),
    decreases length,
{
    if length > 0 {
        let out = x.take(c);
        assert(out[out.len() - offset] == x[c]);
        assert(out.push(x[c]) =~= x.take(c + 1));
        lemma_copy_back_prefix(x, c + 1, offset, (length - 1) as nat);
    }
}

/// The first group of a stream and the tokens after it.
pub open spec fn first_group(tokens: Seq<Token>) -> Seq<Token> {
    if tokens.len() <= 8 {
        tokens
    } else {
        tokens.take(8)
    }
}

/// The tokens after the first group of a stream.
pub open spec fn later_groups(tokens: Seq<Token>) -> Seq<Token> {
    if tokens.len() <= 8 {
        Seq::empty()
    } else {
        tokens.skip(8)
    }
}

/// A stream that is not empty is its first group, then the rest.
pub proof fn lemma_split_groups(tokens: Seq<Token>)
    requires
        tokens.len() > 0,
    ensures
        0 < first_group(tokens).len() <= 8,
        first_group(tokens).len() < 8 ==> later_groups(tokens).len() == 0,
        later_groups(tokens).len() < tokens.len(),
        first_group(tokens) + later_groups(tokens) == tokens,
        encode_tokens(tokens) == encode_group(first_group(tokens)) + encode_tokens(
            later_groups(tokens),
        ),
{
    let first = first_group(tokens);
    let later = later_groups(tokens);
    assert(first + later =~= tokens);
    if tokens.len() <= 8 {
        assert(encode_tokens(later) =~= Seq::<u8>::empty());
        assert(encode_group(first) + encode_tokens(later) =~= encode_group(first));
    }
}

/// Where the input from `pos` on is a group followed by `rest`, the byte at
/// `pos` is the group's flag byte and the group's tokens follow it.
proof fn lemma_read_flag(input: Seq<u8>, pos: nat, group: Seq<Token>, rest: Seq<u8>)
    requires
        pos <= input.len(),
        input.skip(pos as int) == encode_group(group) + rest,
    ensures
        pos < input.len(),
        input[pos as int] == flag_byte(group),
        input.skip(pos as int + 1) == payload(group.skip(0)) + rest,
{
    let enc = encode_group(group) + rest;
    assert(input.skip(pos as int).len() == enc.len());
    assert(input.skip(pos as int)[0] == enc[0]);
    assert(group.skip(0) =~= group);
    assert(input.skip(pos as int + 1) =~= input.skip(pos as int).skip(1));
    assert(enc.skip(1) =~= payload(group) + rest);
}

/// Where the input from `pos` on is `bytes` followed by `rest`, the bytes at
/// `pos` are `bytes` and `rest` follows them.
proof fn lemma_read_bytes(input: Seq<u8>, pos: nat, bytes: Seq<u8>, rest: Seq<u8>)
    requires
        pos <= input.len(),
        input.skip(pos as int) == bytes + rest,
    ensures
        pos + bytes.len() <= input.len(),
        forall|k: int| 0 <= k < bytes.len() ==> input[pos + k] == #[trigger] bytes[k],
        input.skip(pos as int + bytes.len()) == rest,
{
    let all = bytes + rest;
    assert(input.skip(pos as int).len() == all.len());
    assert forall|k: int| 0 <= k < bytes.len() implies input[pos + k] == #[trigger] bytes[k] by {
        assert(input.skip(pos as int)[k] == all[k]);
    }
    assert(input.skip(pos as int + bytes.len()) =~= input.skip(pos as int).skip(
        bytes.len() as int,
    ));
    assert(all.skip(bytes.len() as int) =~= rest);
}

/// What is left of a group from a slot that holds a token: that token's
/// bytes, then the bytes from the next slot on.
proof fn lemma_slot_bytes(group: Seq<Token>, after: Seq<Token>, slot: nat)
    requires
        slot < group.len(),
    ensures
        payload(group.skip(slot as int)) == token_bytes(group[slot as int]) + payload(
            group.skip(slot as int + 1),
        ),
        (group.skip(slot as int) + after)[0] == group[slot as int],
        (group.skip(slot as int) + after).skip(1) == group.skip(slot as int + 1) + after,
{
    let here = group.skip(slot as int);
    assert(here[0] == group[slot as int]);
    assert(here.skip(1) =~= group.skip(slot as int + 1));
    lemma_payload_front(here);
    assert((here + after).skip(1) =~= group.skip(slot as int + 1) + after);
}

/// Decoding from inside a group recovers the rest of `x`.
///
/// `group` is the group being read and `slot` the next slot in it; `after`
/// holds the tokens of the groups that follow. The input from `pos` on is
/// what is left of this group, then the groups that follow.
proof fn lemma_decode_slots(
    x: Seq<u8>,
    input: Seq<u8>,
    group: Seq<Token>,
    after: Seq<Token>,
    slot: nat,
    pos: nat,
    c: int,
    errs: Seq<DecompressError>,
    tok: nat,
)
    requires
        0 < group.len() <= 8,
        slot <= group.len(),
        group.len() < 8 ==> after.len() == 0,
        pos <= input.len(),
        input.skip(pos as int) == payload(group.skip(slot as int)) + encode_tokens(after),
        0 <= c <= x.len(),
        parses(x, c, group.skip(slot as int) + after),
    ensures
        decode_slots(input, x.len(), pos, x.take(c), errs, tok, flag_byte(group), slot) == (
            x,
            errs,
        ),
    decreases group.len() - slot + after.len(), slot,
{
    if slot == group.len() {
        lemma_decode_group_end(x, input, group, after, pos, c, errs, tok);
    } else {
        lemma_decode_token(x, input, group, after, slot, pos, c, errs, tok);
    }
}

/// The case of `lemma_decode_slots` in which the group has been read whole.
proof fn lemma_decode_group_end(
    x: Seq<u8>,
    input: Seq<u8>,
    group: Seq<Token>,
    after: Seq<Token>,
    pos: nat,
    c: int,
    errs: Seq<DecompressError>,
    tok: nat,
)
    requires
        0 < group.len() <= 8,
        group.len() < 8 ==> after.len() == 0,
        pos <= input.len(),
        input.skip(pos as int) == payload(group.skip(group.len() as int)) + encode_tokens(after),
        0 <= c <= x.len(),
        parses(x, c, group.skip(group.len() as int) + after),
    ensures
        decode_slots(input, x.len(), pos, x.take(c), errs, tok, flag_byte(group), group.len())
            == (x, errs),
    decreases after.len(), group.len(), 0nat,
{
    let here = group.skip(group.len() as int);
    assert(here + after =~= after);
    assert(here =~= Seq::<Token>::empty());
    assert(payload(here) + encode_tokens(after) =~= encode_tokens(after));
    let out = x.take(c);
    let target = x.len();
    if after.len() == 0 {
        assert(out =~= x);
        assert(decode_groups(input, target, pos, out, errs, tok) == (out, errs));
    } else {
        lemma_split_groups(after);
        let next = first_group(after);
        let later = later_groups(after);
        lemma_read_flag(input, pos, next, encode_tokens(later));
        assert(next.skip(0) + later =~= after);
        lemma_decode_slots(x, input, next, later, 0, pos + 1, c, errs, tok);
        assert(group.len() == 8);
        assert(out.len() < target);
        assert(decode_groups(input, target, pos, out, errs, tok) == decode_slots(
            input,
            target,
            pos + 1,
            out,
            errs,
            tok,
            input[pos as int],
            0,
        ));
    }
}

/// The case of `lemma_decode_slots` in which a token is read.
proof fn lemma_decode_token(
    x: Seq<u8>,
    input: Seq<u8>,
    group: Seq<Token>,
    after: Seq<Token>,
    slot: nat,
    pos: nat,
    c: int,
    errs: Seq<DecompressError>,
    tok: nat,
)
    requires
        0 < group.len() <= 8,
        slot < group.len(),
        group.len() < 8 ==> after.len() == 0,
        pos <= input.len(),
        input.skip(pos as int) == payload(group.skip(slot as int)) + encode_tokens(after),
        0 <= c <= x.len(),
        parses(x, c, group.skip(slot as int) + after),
    ensures
        decode_slots(input, x.len(), pos, x.take(c), errs, tok, flag_byte(group), slot) == (
            x,
            errs,
        ),
    decreases group.len() - slot + after.len(), slot, 0nat,
{
    let t = group[slot as int];
    let out = x.take(c);
    let tail = payload(group.skip(slot as int + 1)) + encode_tokens(after);
    lemma_slot_bytes(group, after, slot);
    lemma_flag_byte(group, slot);
    assert(input.skip(pos as int) =~= token_bytes(t) + tail);
    lemma_read_bytes(input, pos, token_bytes(t), tail);
    match t {
        Token::Literal(b) => {
            assert(input[pos as int] == token_bytes(t)[0]);
            assert(out.push(x[c]) =~= x.take(c + 1));
            lemma_decode_slots(x, input, group, after, slot + 1, pos + 1, c + 1, errs, tok + 1);
        },
        Token::Reference { length, offset } => {
            lemma_reference_bytes(length, offset);
            assert(input[pos as int] == token_bytes(t)[0]);
            assert(input[pos as int + 1] == token_bytes(t)[1]);
            lemma_copy_back_prefix(x, c, offset, length);
            lemma_decode_slots(
                x,
                input,
                group,
                after,
                slot + 1,
                pos + 2,
                c + length,
                errs,
                tok + 1,
            );
        },
    }
}

/// Any stream of tokens that spells out `x`, framed with the length of `x`,
/// decodes to `x` without a diagnostic.
pub proof fn lemma_decode_parsed(x: Seq<u8>, tokens: Seq<Token>)
    requires
        x.len() < LENGTH_LIMIT,
        parses(x, 0, tokens),
    ensures
        decompress_spec(header(x.len()) + encode_tokens(tokens)) == (
            x,
            Seq::<DecompressError>::empty(),
        ),
{
    let head = header(x.len());
    let frame = head + encode_tokens(tokens);
    let none = Seq::<DecompressError>::empty();
    assert(frame[0] == MAGIC);
    assert(frame[1] == head[1] && frame[2] == head[2] && frame[3] == head[3]);
    assert(header_length(frame) == x.len());
    assert(x.take(0) =~= Seq::<u8>::empty());
    if tokens.len() == 0 {
        assert(x =~= Seq::<u8>::empty());
    } else {
        lemma_split_groups(tokens);
        let first = first_group(tokens);
        let later = later_groups(tokens);
        assert(frame.skip(4) =~= encode_group(first) + encode_tokens(later));
        lemma_read_flag(frame, 4, first, encode_tokens(later));
        assert(first.skip(0) + later =~= tokens);
        lemma_decode_slots(x, frame, first, later, 0, 5, 0, none, 0);
    }
}

/// Decompressing what `compress` made of `x` gives `x` back, with no
/// diagnostic, whichever strategy was used, for every `x` whose length the
/// header can record.
pub proof fn lemma_roundtrip(x: Seq<u8>, strategy: CompressionStrategy)
    requires
        x.len() < LENGTH_LIMIT,
    ensures
        decompress_spec(compress_spec(x, strategy)) == (x, Seq::<DecompressError>::empty()),
{
    lemma_tokenize_parses(x, 0, strategy);
    lemma_decode_parsed(x, tokenize(x, 0, strategy));
}

/// The two strategies may produce different frames, but both frames
/// decompress to the same bytes: the input.
pub proof fn lemma_strategies_decode_alike(x: Seq<u8>)
    requires
        x.len() < LENGTH_LIMIT,
    ensures
        decompress_spec(compress_spec(x, CompressionStrategy::CheckMostRecentOnly)).0 == x,
        decompress_spec(compress_spec(x, CompressionStrategy::CheckAllCandidates)).0 == x,
{
    lemma_roundtrip(x, CompressionStrategy::CheckMostRecentOnly);
    lemma_roundtrip(x, CompressionStrategy::CheckAllCandidates);
}

/// Every frame starts with the magic byte, followed by the low 24 bits of
/// the input's length; for an input below 16 MiB that is the length itself.
pub proof fn lemma_frame_header(x: Seq<u8>, strategy: CompressionStrategy)
    ensures
        compress_spec(x, strategy).len() >= 4,
        compress_spec(x, strategy)[0] == MAGIC,
        header_length(compress_spec(x, strategy)) == x.len() % (LENGTH_LIMIT as nat),
        x.len() < LENGTH_LIMIT ==> header_length(compress_spec(x, strategy)) == x.len(),
{
    let head = header(x.len());
    let frame = compress_spec(x, strategy);
    assert(frame[0] == head[0]);
    assert(frame[1] == head[1] && frame[2] == head[2] && frame[3] == head[3]);
}

} // verus!
