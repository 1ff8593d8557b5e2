//! The scheduled compression backend: the stage functions in the forms that
//! suit short chains of move and logic instructions, message words and
//! constants read by round from the block and the table, and the four
//! registers rotated after each round.
use vstd::prelude::*;
use crate::consts::RC;
use crate::soft::rotl32;
use crate::model::{
    add32, block_words, compress_spec, fn_f, fn_g, fn_h, fn_i, le_word, lemma_rounds_step,
    lemma_rounds_zero, lemma_wrapping_add, mix, msg_index, round_value, rounds, shift,
};

verus! {

/// The rotation amounts, four per stage.
pub const SHIFTS: [u32; 16] = [7, 12, 17, 22, 5, 9, 14, 20, 4, 11, 16, 23, 6, 10, 15, 21];

/// The forms of the stage functions that this backend computes equal those
/// of the model, on every input.
pub proof fn lemma_stage_forms(x: u32, y: u32, z: u32)
    ensures
        ((y ^ z) & x) ^ z == fn_f(x, y, z),
        (!z & y) | (z & x) == fn_g(x, y, z),
        (y ^ z) ^ x == fn_h(x, y, z),
        (!z | x) ^ y == fn_i(x, y, z),
{
    assert(((y ^ z) & x) ^ z == (x & y) | (!x & z)) by (bit_vector);
    assert((!z & y) | (z & x) == (x & z) | (y & !z)) by (bit_vector);
    assert((y ^ z) ^ x == x ^ y ^ z) by (bit_vector);
    assert((!z | x) ^ y == y ^ (x | !z)) by (bit_vector);
}

/// The stage function of round `i` on the registers `x`, `y`, `z`.
fn stage_fn(i: usize, x: u32, y: u32, z: u32) -> (r: u32)
    requires
        i < 64,
    ensures
        r == mix(i as int, x, y, z),
{
    proof {
        lemma_stage_forms(x, y, z);
    }
    if i < 16 {
        ((y ^ z) & x) ^ z
    } else if i < 32 {
        (!z & y) | (z & x)
    } else if i < 48 {
        (y ^ z) ^ x
    } else {
        (!z | x) ^ y
    }
}

/// The index of the message word that round `i` reads.
fn word_index(i: usize) -> (j: usize)
    requires
        i < 64,
    ensures
        j == msg_index(i as int),
        j < 16,
{
    if i < 16 {
        i
    } else if i < 32 {
        (5 * i + 1) % 16
    } else if i < 48 {
        (3 * i + 5) % 16
    } else {
        (7 * i) % 16
    }
}

/// The little-endian word at word position `j` of the block.
fn load_word(block: &[u8; 64], j: usize) -> (r: u32)
    requires
        j < 16,
    ensures
        r == le_word(block@, j as int),
{
    let k = 4 * j;
    (block[k] as u32) | ((block[k + 1] as u32) << 8) | ((block[k + 2] as u32) << 16) | ((
    block[k + 3] as u32) << 24)
}

/// The end of a round: the message word, the constant and the stage output
/// are added to `w` one by one, the sum is rotated and `x` is added.
fn round_tail(w: u32, x: u32, m: u32, c: u32, f: u32, s: u32) -> (r: u32)
    ensures
        r == round_value(f, w, x, m, c, s),
{
    let mut t = w;
    proof {
        lemma_wrapping_add(t, m);
    }
    t = t.wrapping_add(m);
    proof {
        lemma_wrapping_add(t, c);
    }
    t = t.wrapping_add(c);
    proof {
        lemma_wrapping_add(t, f);
    }
    t = t.wrapping_add(f);
    proof {
        assert(add32(add32(add32(w, m), c), f) == add32(add32(add32(f, w), m), c))
            by (bit_vector);
    }
    let t = rotl32(t, s);
    proof {
        lemma_wrapping_add(t, x);
        reveal(round_value);
    }
    t.wrapping_add(x)
}

/// Folds the blocks into the state, first block first; no block leaves the
/// state as it is.
pub fn compress(state: &mut [u32; 4], blocks: &[[u8; 64]])
    ensures
        final(state)@ == compress_spec(old(state)@, blocks@),
{
    let mut left: usize = blocks.len();
    let mut p: usize = 0;
    while left > 0
        invariant
            p + left == blocks@.len(),
            state@.len() == 4,
            state@ == compress_spec(old(state)@, blocks@.take(p as int)),
        decreases left,
    {
        let block = &blocks[p];
        let mut a = state[0];
        let mut b = state[1];
        let mut c = state[2];
        let mut d = state[3];
        let ghost init = (a, b, c, d);
        let ghost wds = block_words(block@);
        proof {
            lemma_rounds_zero(init, wds);
        }
        let mut i: usize = 0;
        while i < 64
            invariant
                i <= 64,
                wds == block_words(block@),
                rounds(init, wds, i as nat) == (a, b, c, d),
            decreases 64 - i,
        {
            let f = stage_fn(i, b, c, d);
            let j = word_index(i);
            let m = load_word(block, j);
            let s = SHIFTS[4 * (i / 16) + i % 4];
            assert(s == shift(i as int));
            let t = round_tail(a, b, m, RC[i], f, s);
            proof {
                lemma_rounds_step(init, wds, i as nat);
            }
            a = d;
            d = c;
            c = b;
            b = t;
            i = i + 1;
        }
        proof {
            lemma_wrapping_add(state@[0], a);
            lemma_wrapping_add(state@[1], b);
            lemma_wrapping_add(state@[2], c);
            lemma_wrapping_add(state@[3], d);
        }
        let ghost before = state@;
        state[0] = state[0].wrapping_add(a);
        state[1] = state[1].wrapping_add(b);
        state[2] = state[2].wrapping_add(c);
        state[3] = state[3].wrapping_add(d);
        proof {
            let done = blocks@.take(p as int + 1);
            assert(done.drop_last() =~= blocks@.take(p as int));
            assert(done.last() == blocks@[p as int]);
            assert(state@ =~= crate::model::compress_block_spec(before, block@));
        }
        p = p + 1;
        left = left - 1;
    }
    assert(blocks@.take(p as int) =~= blocks@);
}

} // verus!
