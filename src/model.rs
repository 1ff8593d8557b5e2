//! The mathematical model of MD5 compression, round by round.
use vstd::prelude::*;
use crate::consts::RC;

verus! {

/// Addition modulo 2^32.
pub open spec fn add32(x: u32, y: u32) -> u32 {
    (x + y) as u32
}

/// `wrapping_add` on `u32` is addition modulo 2^32.
pub proof fn lemma_wrapping_add(x: u32, y: u32)
    ensures
        x.wrapping_add(y) == add32(x, y),
{
    assert(x.wrapping_add(y) == add32(x, y)) by (bit_vector);
}

/// Left rotation of a 32-bit word by `s` bits, taken modulo 32: a multiple
/// of 32 leaves the word as it is.
pub open spec fn rotl(x: u32, s: u32) -> u32 {
    let k = s % 32;
    if k == 0 {
        x
    } else {
        (x << k) | (x >> ((32 - k) as u32))
    }
}

/// Stage 1: bits of `y` where `x` is set, bits of `z` elsewhere.
pub open spec fn fn_f(x: u32, y: u32, z: u32) -> u32 {
    (x & y) | (!x & z)
}

/// Stage 2: bits of `x` where `z` is set, bits of `y` elsewhere.
pub open spec fn fn_g(x: u32, y: u32, z: u32) -> u32 {
    (x & z) | (y & !z)
}

/// Stage 3: parity of the three words.
pub open spec fn fn_h(x: u32, y: u32, z: u32) -> u32 {
    x ^ y ^ z
}

/// Stage 4: `y` xor the bits of `x` or of not `z`.
pub open spec fn fn_i(x: u32, y: u32, z: u32) -> u32 {
    y ^ (x | !z)
}

/// One round's new register value, from the stage function's output `f`,
/// the register `w` being replaced, the register `x`, the message word `m`,
/// the additive constant `c` and the rotation `s`.
#[verifier::opaque]
pub open spec fn round_value(f: u32, w: u32, x: u32, m: u32, c: u32, s: u32) -> u32 {
    add32(rotl(add32(add32(add32(f, w), m), c), s), x)
}

/// The stage function of round `i`.
pub open spec fn mix(i: int, x: u32, y: u32, z: u32) -> u32 {
    if i < 16 {
        fn_f(x, y, z)
    } else if i < 32 {
        fn_g(x, y, z)
    } else if i < 48 {
        fn_h(x, y, z)
    } else {
        fn_i(x, y, z)
    }
}

/// The message word that round `i` reads.
pub open spec fn msg_index(i: int) -> int {
    if i < 16 {
        i
    } else if i < 32 {
        (5 * i + 1) % 16
    } else if i < 48 {
        (3 * i + 5) % 16
    } else {
        (7 * i) % 16
    }
}

/// The rotation of round `i`: four amounts per stage, taken in turn.
pub open spec fn shift(i: int) -> u32 {
    let j = i % 4;
    if i < 16 {
        if j == 0 { 7 } else if j == 1 { 12 } else if j == 2 { 17 } else { 22 }
    } else if i < 32 {
        if j == 0 { 5 } else if j == 1 { 9 } else if j == 2 { 14 } else { 20 }
    } else if i < 48 {
        if j == 0 { 4 } else if j == 1 { 11 } else if j == 2 { 16 } else { 23 }
    } else {
        if j == 0 { 6 } else if j == 1 { 10 } else if j == 2 { 15 } else { 21 }
    }
}

/// The four working registers `(a, b, c, d)`.
pub type Regs = (u32, u32, u32, u32);

/// Round `i` on the registers: `a` is replaced and the roles rotate, so that
/// the result is again read as `(a, b, c, d)`.
pub open spec fn step(r: Regs, m: Seq<u32>, i: int) -> Regs {
    (
        r.3,
        round_value(mix(i, r.1, r.2, r.3), r.0, r.1, m[msg_index(i)], RC@[i], shift(i)),
        r.1,
        r.2,
    )
}

/// The registers after the first `n` rounds over the message words `m`.
#[verifier::opaque]
pub open spec fn rounds(r: Regs, m: Seq<u32>, n: nat) -> Regs
    decreases n,
{
    if n == 0 {
        r
    } else {
        step(rounds(r, m, (n - 1) as nat), m, n - 1)
    }
}

/// One more round extends the rounds done so far.
pub proof fn lemma_rounds_step(r: Regs, m: Seq<u32>, n: nat)
    ensures
        rounds(r, m, n + 1) == step(rounds(r, m, n), m, n as int),
{
    reveal_with_fuel(rounds, 2);
}

/// No round leaves the registers as they are.
pub proof fn lemma_rounds_zero(r: Regs, m: Seq<u32>)
    ensures
        rounds(r, m, 0) == r,
{
    reveal(rounds);
}

/// The little-endian 32-bit word at word position `j` of `b`.
pub open spec fn le_word(b: Seq<u8>, j: int) -> u32 {
    (b[4 * j] as u32) | ((b[4 * j + 1] as u32) << 8) | ((b[4 * j + 2] as u32) << 16) | ((
    b[4 * j + 3] as u32) << 24)
}

/// A 64-byte block read as 16 little-endian words.
pub open spec fn block_words(b: Seq<u8>) -> Seq<u32> {
    Seq::new(16, |j: int| le_word(b, j))
}

/// The state after folding one block into the state `s` (four words).
pub open spec fn compress_block_spec(s: Seq<u32>, b: Seq<u8>) -> Seq<u32> {
    let r = rounds((s[0], s[1], s[2], s[3]), block_words(b), 64);
    seq![add32(s[0], r.0), add32(s[1], r.1), add32(s[2], r.2), add32(s[3], r.3)]
}

/// The state after folding the blocks into `s`, first block first.
pub open spec fn compress_spec(s: Seq<u32>, blocks: Seq<[u8; 64]>) -> Seq<u32>
    decreases blocks.len(),
{
    if blocks.len() == 0 {
        s
    } else {
        compress_block_spec(compress_spec(s, blocks.drop_last()), blocks.last()@)
    }
}

/// Folding no block leaves the state unchanged.
pub proof fn lemma_compress_empty(s: Seq<u32>)
    ensures
        compress_spec(s, Seq::<[u8; 64]>::empty()) == s,
{
}

/// Folding a sequence of blocks in one call equals folding a first part and
/// then, from the state that it left, the rest: each block sees the state
/// that the blocks before it produced.
pub proof fn lemma_compress_split(s: Seq<u32>, first: Seq<[u8; 64]>, rest: Seq<[u8; 64]>)
    ensures
        compress_spec(s, first + rest) == compress_spec(compress_spec(s, first), rest),
    decreases rest.len(),
{
    if rest.len() == 0 {
        assert(first + rest =~= first);
    } else {
        assert((first + rest).drop_last() =~= first + rest.drop_last());
        assert((first + rest).last() == rest.last());
        lemma_compress_split(s, first, rest.drop_last());
    }
}

/// Folding one block is one step of the fold.
pub proof fn lemma_compress_single(s: Seq<u32>, b: [u8; 64])
    ensures
        compress_spec(s, seq![b]) == compress_block_spec(s, b@),
{
    assert(seq![b].drop_last() =~= Seq::<[u8; 64]>::empty());
    lemma_compress_empty(s);
}

/// The result depends on the state and the blocks alone: equal inputs give
/// equal results.
pub proof fn lemma_compress_deterministic(
    s1: Seq<u32>,
    s2: Seq<u32>,
    b1: Seq<[u8; 64]>,
    b2: Seq<[u8; 64]>,
)
    requires
        s1 == s2,
        b1 == b2,
    ensures
        compress_spec(s1, b1) == compress_spec(s2, b2),
{
}

} // verus!
