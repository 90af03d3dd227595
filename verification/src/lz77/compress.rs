//! Encoding a byte buffer as a frame.

use super::frame::{encode_group, encode_tokens, flag_byte, header, payload, Token, MAGIC};
use super::matcher::{
    find_match, find_match_spec, lemma_find_match, note_positions, table_tracks,
    CompressionStrategy,
};
use vstd::prelude::*;

verus! {

/// The token emitted at position `c`: a reference where the match finder
/// offers one, else the byte itself.
pub open spec fn next_token(s: Seq<u8>, c: int, strategy: CompressionStrategy) -> Token
    recommends
        0 <= c < s.len(),
{
    match find_match_spec(s, c, strategy) {
        Some((offset, length)) => Token::Reference { length, offset },
        None => Token::Literal(s[c]),
    }
}

/// How many input bytes a token stands for.
pub open spec fn span(t: Token) -> nat {
    match t {
        Token::Literal(_) => 1,
        Token::Reference { length, offset } => length,
    }
}

/// The tokens for `s` from position `c` to its end: the token at `c`, then
/// the tokens from where that one stops.
pub open spec fn tokenize(s: Seq<u8>, c: int, strategy: CompressionStrategy) -> Seq<Token>
    decreases s.len() - c,
    via tokenize_advances
{
    if c < 0 || c >= s.len() {
        Seq::empty()
    } else {
        let t = next_token(s, c, strategy);
        seq![t] + tokenize(s, c + span(t), strategy)
    }
}

/// Every token stands for at least one byte and none runs past the end of
/// the input, so `tokenize` terminates.
#[via_fn]
proof fn tokenize_advances(s: Seq<u8>, c: int, strategy: CompressionStrategy) {
    if 0 <= c < s.len() {
        lemma_find_match(s, c, strategy);
    }
}

/// The frame for `s`: the header with the length of `s`, then its tokens in
/// groups of eight.
pub open spec fn compress_spec(s: Seq<u8>, strategy: CompressionStrategy) -> Seq<u8> {
    header(s.len()) + encode_tokens(tokenize(s, 0, strategy))
}

/// Appending one group to whole groups appends its encoding.
pub proof fn lemma_encode_tokens_append(whole: Seq<Token>, group: Seq<Token>)
    requires
        whole.len() % 8 == 0,
        0 < group.len() <= 8,
    ensures
        encode_tokens(whole + group) == encode_tokens(whole) + encode_group(group),
    decreases whole.len(),
{
    if whole.len() == 0 {
        assert(whole + group =~= group);
        assert(encode_tokens(whole) + encode_group(group) =~= encode_group(group));
    } else {
        let all = whole + group;
        assert(all.take(8) =~= whole.take(8));
        assert(all.skip(8) =~= whole.skip(8) + group);
        lemma_encode_tokens_append(whole.skip(8), group);
        if whole.len() == 8 {
            assert(whole.take(8) =~= whole);
            assert(encode_tokens(whole.skip(8)) =~= Seq::<u8>::empty());
        }
        assert(encode_tokens(all) =~= encode_tokens(whole) + encode_group(group));
    }
}

/// Compresses `input` into a frame.
///
/// The header records the low 24 bits of the length, so only an input of
/// fewer than 16 MiB can be recovered from its frame.
#[verifier::rlimit(30)]
pub fn compress(input: &[u8], strategy: CompressionStrategy) -> (out: Vec<u8>)
    ensures
        out@ == compress_spec(input@, strategy),
{
    let n = input.len();
    let mut out: Vec<u8> = Vec::new();
    out.push(MAGIC);
    out.push((n % 256) as u8);
    out.push(((n / 256) % 256) as u8);
    out.push(((n / 65536) % 256) as u8);
    assert(out@ =~= header(n as nat));

    let mut table: Vec<usize> = vec![0usize; 256];
    let mut flag: u8 = 0;
    let mut count: u8 = 0;
    let mut pending: Vec<u8> = Vec::new();
    let mut c: usize = 0;
    let ghost mut whole: Seq<Token> = Seq::empty();
    let ghost mut group: Seq<Token> = Seq::empty();
    assert(tokenize(input@, 0, strategy) =~= whole + group + tokenize(input@, 0, strategy));
    assert(out@ =~= header(n as nat) + encode_tokens(whole));
    while c < n
        invariant
            n == input@.len(),
            c <= n,
            count < 8,
            whole.len() % 8 == 0,
            group.len() == count,
            table_tracks(table@, input@, c as int),
            out@ == header(n as nat) + encode_tokens(whole),
            flag == flag_byte(group),
            pending@ == payload(group),
            tokenize(input@, 0, strategy) == whole + group + tokenize(input@, c as int, strategy),
        decreases n - c,
    {
        let ghost t = next_token(input@, c as int, strategy);
        let ghost rest = tokenize(input@, c as int + span(t), strategy);
        let start = c;
        match find_match(input, c, strategy, &table) {
            Some(m) => {
                flag = flag | (0x80u8 >> count);
                pending.push(((m.length - 3) * 16 + (m.offset - 1) / 256) as u8);
                pending.push(((m.offset - 1) % 256) as u8);
                c += m.length;
            },
            None => {
                pending.push(input[c]);
                c += 1;
            },
        }
        note_positions(input, &mut table, start, c);
        count += 1;
        proof {
            let grown = group.push(t);
            assert(grown.drop_last() =~= group);
            assert(pending@ =~= payload(grown));
            assert(flag == flag_byte(grown));
            assert(whole + group + (seq![t] + rest) =~= whole + grown + rest);
            group = grown;
        }
        if count == 8 {
            out.push(flag);
            out.append(&mut pending);
            proof {
                lemma_encode_tokens_append(whole, group);
                assert(out@ =~= header(n as nat) + (encode_tokens(whole) + encode_group(group)));
                assert(whole + group + rest =~= (whole + group) + Seq::<Token>::empty() + rest);
                whole = whole + group;
                group = Seq::empty();
            }
            flag = 0;
            count = 0;
        }
    }
    assert(tokenize(input@, 0, strategy) =~= whole + group);
    if count > 0 {
        out.push(flag);
        out.append(&mut pending);
        proof {
            lemma_encode_tokens_append(whole, group);
            assert(out@ =~= header(n as nat) + (encode_tokens(whole) + encode_group(group)));
        }
    } else {
        assert(whole + group =~= whole);
    }
    out
}

/// Compresses `data` with the thorough strategy if `lz77` is set, and hands
/// it back as it is otherwise.
pub fn maybe_compress(lz77: bool, data: Vec<u8>) -> (out: Vec<u8>)
    ensures
        out@ == if lz77 {
            compress_spec(data@, CompressionStrategy::CheckAllCandidates)
        } else {
            data@
        },
{
    if lz77 {
        compress(data.as_slice(), CompressionStrategy::CheckAllCandidates)
    } else {
        data
    }
}

} // verus!
