//! The portable compression backend, built from 32-bit integer operations.
use vstd::prelude::*;
use crate::consts::RC;
use crate::model::{
    add32, block_words, compress_block_spec, compress_spec, fn_f, fn_g, fn_h, fn_i, le_word,
    lemma_rounds_step, lemma_rounds_zero, lemma_wrapping_add, rotl, round_value, rounds,
};

verus! {

/// `x` rotated left by `s` bits, taken modulo 32.
pub(crate) fn rotl32(x: u32, s: u32) -> (r: u32)
    ensures
        r == rotl(x, s),
{
    let k = s % 32;
    if k == 0 {
        x
    } else {
        (x << k) | (x >> (32 - k))
    }
}

/// A stage-1 round: the new value of register `w`.
pub fn op_f(w: u32, x: u32, y: u32, z: u32, m: u32, c: u32, s: u32) -> (r: u32)
    ensures
        r == round_value(fn_f(x, y, z), w, x, m, c, s),
{
    let t = ((x & y) | (!x & z)).wrapping_add(w).wrapping_add(m).wrapping_add(c);
    proof {
        assert(((x & y) | (!x & z)).wrapping_add(w).wrapping_add(m).wrapping_add(c)
            == add32(add32(add32(fn_f(x, y, z), w), m), c)) by (bit_vector);
    }
    let t = rotl32(t, s);
    proof {
        lemma_wrapping_add(t, x);
        reveal(round_value);
    }
    t.wrapping_add(x)
}

/// A stage-2 round: the new value of register `w`.
pub fn op_g(w: u32, x: u32, y: u32, z: u32, m: u32, c: u32, s: u32) -> (r: u32)
    ensures
        r == round_value(fn_g(x, y, z), w, x, m, c, s),
{
    // The two masked terms never share a set bit, so adding them equals
    // or-ing them; the term that reads `x` comes last.
    let mut t = w;
    proof {
        lemma_wrapping_add(t, m);
    }
    t = t.wrapping_add(m);
    proof {
        lemma_wrapping_add(t, c);
    }
    t = t.wrapping_add(c);
    proof {
        lemma_wrapping_add(t, y & !z);
    }
    t = t.wrapping_add(y & !z);
    proof {
        lemma_wrapping_add(t, x & z);
    }
    t = t.wrapping_add(x & z);
    proof {
        assert(add32(add32(add32(add32(w, m), c), y & !z), x & z)
            == add32(add32(add32((x & z) | (y & !z), w), m), c)) by (bit_vector);
    }
    let t = rotl32(t, s);
    proof {
        lemma_wrapping_add(t, x);
        reveal(round_value);
    }
    t.wrapping_add(x)
}

/// A stage-3 round that keeps part of the parity between rounds: the parity
/// is taken of `x`, `y` and what `h_tmp` holds on entry, in place of `z`,
/// which is not read; on exit `h_tmp` holds `y`. A caller that passes `z` in
/// `h_tmp` gets the stage-3 round, and `y` is the `z` of the next one.
pub fn op_h_reuse(w: u32, x: u32, y: u32, _z: u32, m: u32, c: u32, s: u32, h_tmp: &mut u32) -> (r: u32)
    ensures
        r == round_value(fn_h(x, y, *old(h_tmp)), w, x, m, c, s),
        *final(h_tmp) == y,
{
    let ghost h0 = *h_tmp;
    *h_tmp ^= y;
    *h_tmp ^= x;
    let h = *h_tmp;
    assert(h == fn_h(x, y, h0)) by (bit_vector)
        requires
            h == (h0 ^ y) ^ x,
    ;
    proof {
        assert(h.wrapping_add(w).wrapping_add(m).wrapping_add(c)
            == add32(add32(add32(h, w), m), c)) by (bit_vector);
    }
    let t = h.wrapping_add(w).wrapping_add(m).wrapping_add(c);
    let t = rotl32(t, s);
    proof {
        lemma_wrapping_add(t, x);
        reveal(round_value);
    }
    *h_tmp = y;
    t.wrapping_add(x)
}

/// A stage-4 round: the new value of register `w`.
pub fn op_i(w: u32, x: u32, y: u32, z: u32, m: u32, c: u32, s: u32) -> (r: u32)
    ensures
        r == round_value(fn_i(x, y, z), w, x, m, c, s),
{
    let t = (y ^ (x | !z)).wrapping_add(w).wrapping_add(m).wrapping_add(c);
    proof {
        assert((y ^ (x | !z)).wrapping_add(w).wrapping_add(m).wrapping_add(c)
            == add32(add32(add32(fn_i(x, y, z), w), m), c)) by (bit_vector);
    }
    let t = rotl32(t, s);
    proof {
        lemma_wrapping_add(t, x);
        reveal(round_value);
    }
    t.wrapping_add(x)
}

/// Folds one block into the state.
#[verifier::spinoff_prover]
pub fn compress_block(state: &mut [u32; 4], input: &[u8; 64])
    ensures
        final(state)@ == compress_block_spec(old(state)@, input@),
{
    let mut a = state[0];
    let mut b = state[1];
    let mut c = state[2];
    let mut d = state[3];

    let mut data = [0u32; 16];
    let mut i: usize = 0;
    while i < 16
        invariant
            i <= 16,
            data@.len() == 16,
            forall|j: int| 0 <= j < i ==> data@[j] == le_word(input@, j),
        decreases 16 - i,
    {
        let k = 4 * i;
        data[i] = (input[k] as u32) | ((input[k + 1] as u32) << 8) | ((input[k + 2] as u32) << 16)
            | ((input[k + 3] as u32) << 24);
        i = i + 1;
    }
    let ghost init = (a, b, c, d);
    let ghost wds = block_words(input@);
    assert(data@ =~= wds);
    proof {
        lemma_rounds_zero(init, wds);
    }

    // the words that the rounds read most often
    let w0 = data[0];
    let w1 = data[1];
    let w4 = data[4];
    let w5 = data[5];
    let w8 = data[8];
    let w12 = data[12];
    let w2 = data[2];
    let w6 = data[6];
    let w9 = data[9];
    let w14 = data[14];

    // round 1
    a = op_f(a, b, c, d, w0, RC[0], 7);
    assert(rounds(init, wds, 1) == (d, a, b, c)) by {
        lemma_rounds_step(init, wds, 0);
    }
    d = op_f(d, a, b, c, w1, RC[1], 12);
    assert(rounds(init, wds, 2) == (c, d, a, b)) by {
        lemma_rounds_step(init, wds, 1);
    }
    c = op_f(c, d, a, b, w2, RC[2], 17);
    assert(rounds(init, wds, 3) == (b, c, d, a)) by {
        lemma_rounds_step(init, wds, 2);
    }
    b = op_f(b, c, d, a, data[3], RC[3], 22);
    assert(rounds(init, wds, 4) == (a, b, c, d)) by {
        lemma_rounds_step(init, wds, 3);
    }

    a = op_f(a, b, c, d, w4, RC[4], 7);
    assert(rounds(init, wds, 5) == (d, a, b, c)) by {
        lemma_rounds_step(init, wds, 4);
    }
    d = op_f(d, a, b, c, w5, RC[5], 12);
    assert(rounds(init, wds, 6) == (c, d, a, b)) by {
        lemma_rounds_step(init, wds, 5);
    }
    c = op_f(c, d, a, b, w6, RC[6], 17);
    assert(rounds(init, wds, 7) == (b, c, d, a)) by {
        lemma_rounds_step(init, wds, 6);
    }
    b = op_f(b, c, d, a, data[7], RC[7], 22);
    assert(rounds(init, wds, 8) == (a, b, c, d)) by {
        lemma_rounds_step(init, wds, 7);
    }

    a = op_f(a, b, c, d, w8, RC[8], 7);
    assert(rounds(init, wds, 9) == (d, a, b, c)) by {
        lemma_rounds_step(init, wds, 8);
    }
    d = op_f(d, a, b, c, w9, RC[9], 12);
    assert(rounds(init, wds, 10) == (c, d, a, b)) by {
        lemma_rounds_step(init, wds, 9);
    }
    c = op_f(c, d, a, b, data[10], RC[10], 17);
    assert(rounds(init, wds, 11) == (b, c, d, a)) by {
        lemma_rounds_step(init, wds, 10);
    }
    b = op_f(b, c, d, a, data[11], RC[11], 22);
    assert(rounds(init, wds, 12) == (a, b, c, d)) by {
        lemma_rounds_step(init, wds, 11);
    }

    a = op_f(a, b, c, d, w12, RC[12], 7);
    assert(rounds(init, wds, 13) == (d, a, b, c)) by {
        lemma_rounds_step(init, wds, 12);
    }
    d = op_f(d, a, b, c, data[13], RC[13], 12);
    assert(rounds(init, wds, 14) == (c, d, a, b)) by {
        lemma_rounds_step(init, wds, 13);
    }
    c = op_f(c, d, a, b, w14, RC[14], 17);
    assert(rounds(init, wds, 15) == (b, c, d, a)) by {
        lemma_rounds_step(init, wds, 14);
    }
    b = op_f(b, c, d, a, data[15], RC[15], 22);
    assert(rounds(init, wds, 16) == (a, b, c, d)) by {
        lemma_rounds_step(init, wds, 15);
    }

    // round 2
    a = op_g(a, b, c, d, w1, RC[16], 5);
    assert(rounds(init, wds, 17) == (d, a, b, c)) by {
        lemma_rounds_step(init, wds, 16);
    }
    d = op_g(d, a, b, c, w6, RC[17], 9);
    assert(rounds(init, wds, 18) == (c, d, a, b)) by {
        lemma_rounds_step(init, wds, 17);
    }
    c = op_g(c, d, a, b, data[11], RC[18], 14);
    assert(rounds(init, wds, 19) == (b, c, d, a)) by {
        lemma_rounds_step(init, wds, 18);
    }
    b = op_g(b, c, d, a, w0, RC[19], 20);
    assert(rounds(init, wds, 20) == (a, b, c, d)) by {
        lemma_rounds_step(init, wds, 19);
    }

    a = op_g(a, b, c, d, w5, RC[20], 5);
    assert(rounds(init, wds, 21) == (d, a, b, c)) by {
        lemma_rounds_step(init, wds, 20);
    }
    d = op_g(d, a, b, c, data[10], RC[21], 9);
    assert(rounds(init, wds, 22) == (c, d, a, b)) by {
        lemma_rounds_step(init, wds, 21);
    }
    c = op_g(c, d, a, b, data[15], RC[22], 14);
    assert(rounds(init, wds, 23) == (b, c, d, a)) by {
        lemma_rounds_step(init, wds, 22);
    }
    b = op_g(b, c, d, a, w4, RC[23], 20);
    assert(rounds(init, wds, 24) == (a, b, c, d)) by {
        lemma_rounds_step(init, wds, 23);
    }

    a = op_g(a, b, c, d, w9, RC[24], 5);
    assert(rounds(init, wds, 25) == (d, a, b, c)) by {
        lemma_rounds_step(init, wds, 24);
    }
    d = op_g(d, a, b, c, w14, RC[25], 9);
    assert(rounds(init, wds, 26) == (c, d, a, b)) by {
        lemma_rounds_step(init, wds, 25);
    }
    c = op_g(c, d, a, b, data[3], RC[26], 14);
    assert(rounds(init, wds, 27) == (b, c, d, a)) by {
        lemma_rounds_step(init, wds, 26);
    }
    b = op_g(b, c, d, a, w8, RC[27], 20);
    assert(rounds(init, wds, 28) == (a, b, c, d)) by {
        lemma_rounds_step(init, wds, 27);
    }

    a = op_g(a, b, c, d, data[13], RC[28], 5);
    assert(rounds(init, wds, 29) == (d, a, b, c)) by {
        lemma_rounds_step(init, wds, 28);
    }
    d = op_g(d, a, b, c, w2, RC[29], 9);
    assert(rounds(init, wds, 30) == (c, d, a, b)) by {
        lemma_rounds_step(init, wds, 29);
    }
    c = op_g(c, d, a, b, data[7], RC[30], 14);
    assert(rounds(init, wds, 31) == (b, c, d, a)) by {
        lemma_rounds_step(init, wds, 30);
    }
    b = op_g(b, c, d, a, w12, RC[31], 20);
    assert(rounds(init, wds, 32) == (a, b, c, d)) by {
        lemma_rounds_step(init, wds, 31);
    }

    // round 3
    let mut h_tmp = d;
    a = op_h_reuse(a, b, c, d, w5, RC[32], 4, &mut h_tmp);
    assert(rounds(init, wds, 33) == (d, a, b, c)) by {
        lemma_rounds_step(init, wds, 32);
    }
    d = op_h_reuse(d, a, b, c, w8, RC[33], 11, &mut h_tmp);
    assert(rounds(init, wds, 34) == (c, d, a, b)) by {
        lemma_rounds_step(init, wds, 33);
    }
    c = op_h_reuse(c, d, a, b, data[11], RC[34], 16, &mut h_tmp);
    assert(rounds(init, wds, 35) == (b, c, d, a)) by {
        lemma_rounds_step(init, wds, 34);
    }
    b = op_h_reuse(b, c, d, a, w14, RC[35], 23, &mut h_tmp);
    assert(rounds(init, wds, 36) == (a, b, c, d)) by {
        lemma_rounds_step(init, wds, 35);
    }

    a = op_h_reuse(a, b, c, d, w1, RC[36], 4, &mut h_tmp);
    assert(rounds(init, wds, 37) == (d, a, b, c)) by {
        lemma_rounds_step(init, wds, 36);
    }
    d = op_h_reuse(d, a, b, c, w4, RC[37], 11, &mut h_tmp);
    assert(rounds(init, wds, 38) == (c, d, a, b)) by {
        lemma_rounds_step(init, wds, 37);
    }
    c = op_h_reuse(c, d, a, b, data[7], RC[38], 16, &mut h_tmp);
    assert(rounds(init, wds, 39) == (b, c, d, a)) by {
        lemma_rounds_step(init, wds, 38);
    }
    b = op_h_reuse(b, c, d, a, data[10], RC[39], 23, &mut h_tmp);
    assert(rounds(init, wds, 40) == (a, b, c, d)) by {
        lemma_rounds_step(init, wds, 39);
    }

    a = op_h_reuse(a, b, c, d, data[13], RC[40], 4, &mut h_tmp);
    assert(rounds(init, wds, 41) == (d, a, b, c)) by {
        lemma_rounds_step(init, wds, 40);
    }
    d = op_h_reuse(d, a, b, c, w0, RC[41], 11, &mut h_tmp);
    assert(rounds(init, wds, 42) == (c, d, a, b)) by {
        lemma_rounds_step(init, wds, 41);
    }
    c = op_h_reuse(c, d, a, b, data[3], RC[42], 16, &mut h_tmp);
    assert(rounds(init, wds, 43) == (b, c, d, a)) by {
        lemma_rounds_step(init, wds, 42);
    }
    b = op_h_reuse(b, c, d, a, w6, RC[43], 23, &mut h_tmp);
    assert(rounds(init, wds, 44) == (a, b, c, d)) by {
        lemma_rounds_step(init, wds, 43);
    }

    a = op_h_reuse(a, b, c, d, w9, RC[44], 4, &mut h_tmp);
    assert(rounds(init, wds, 45) == (d, a, b, c)) by {
        lemma_rounds_step(init, wds, 44);
    }
    d = op_h_reuse(d, a, b, c, w12, RC[45], 11, &mut h_tmp);
    assert(rounds(init, wds, 46) == (c, d, a, b)) by {
        lemma_rounds_step(init, wds, 45);
    }
    c = op_h_reuse(c, d, a, b, data[15], RC[46], 16, &mut h_tmp);
    assert(rounds(init, wds, 47) == (b, c, d, a)) by {
        lemma_rounds_step(init, wds, 46);
    }
    b = op_h_reuse(b, c, d, a, w2, RC[47], 23, &mut h_tmp);
    assert(rounds(init, wds, 48) == (a, b, c, d)) by {
        lemma_rounds_step(init, wds, 47);
    }

    // round 4
    a = op_i(a, b, c, d, w0, RC[48], 6);
    assert(rounds(init, wds, 49) == (d, a, b, c)) by {
        lemma_rounds_step(init, wds, 48);
    }
    d = op_i(d, a, b, c, data[7], RC[49], 10);
    assert(rounds(init, wds, 50) == (c, d, a, b)) by {
        lemma_rounds_step(init, wds, 49);
    }
    c = op_i(c, d, a, b, w14, RC[50], 15);
    assert(rounds(init, wds, 51) == (b, c, d, a)) by {
        lemma_rounds_step(init, wds, 50);
    }
    b = op_i(b, c, d, a, w5, RC[51], 21);
    assert(rounds(init, wds, 52) == (a, b, c, d)) by {
        lemma_rounds_step(init, wds, 51);
    }

    a = op_i(a, b, c, d, w12, RC[52], 6);
    assert(rounds(init, wds, 53) == (d, a, b, c)) by {
        lemma_rounds_step(init, wds, 52);
    }
    d = op_i(d, a, b, c, data[3], RC[53], 10);
    assert(rounds(init, wds, 54) == (c, d, a, b)) by {
        lemma_rounds_step(init, wds, 53);
    }
    c = op_i(c, d, a, b, data[10], RC[54], 15);
    assert(rounds(init, wds, 55) == (b, c, d, a)) by {
        lemma_rounds_step(init, wds, 54);
    }
    b = op_i(b, c, d, a, w1, RC[55], 21);
    assert(rounds(init, wds, 56) == (a, b, c, d)) by {
        lemma_rounds_step(init, wds, 55);
    }

    a = op_i(a, b, c, d, w8, RC[56], 6);
    assert(rounds(init, wds, 57) == (d, a, b, c)) by {
        lemma_rounds_step(init, wds, 56);
    }
    d = op_i(d, a, b, c, data[15], RC[57], 10);
    assert(rounds(init, wds, 58) == (c, d, a, b)) by {
        lemma_rounds_step(init, wds, 57);
    }
    c = op_i(c, d, a, b, w6, RC[58], 15);
    assert(rounds(init, wds, 59) == (b, c, d, a)) by {
        lemma_rounds_step(init, wds, 58);
    }
    b = op_i(b, c, d, a, data[13], RC[59], 21);
    assert(rounds(init, wds, 60) == (a, b, c, d)) by {
        lemma_rounds_step(init, wds, 59);
    }

    a = op_i(a, b, c, d, w4, RC[60], 6);
    assert(rounds(init, wds, 61) == (d, a, b, c)) by {
        lemma_rounds_step(init, wds, 60);
    }
    d = op_i(d, a, b, c, data[11], RC[61], 10);
    assert(rounds(init, wds, 62) == (c, d, a, b)) by {
        lemma_rounds_step(init, wds, 61);
    }
    c = op_i(c, d, a, b, w2, RC[62], 15);
    assert(rounds(init, wds, 63) == (b, c, d, a)) by {
        lemma_rounds_step(init, wds, 62);
    }
    b = op_i(b, c, d, a, w9, RC[63], 21);
    assert(rounds(init, wds, 64) == (a, b, c, d)) by {
        lemma_rounds_step(init, wds, 63);
    }

    state[0] = state[0].wrapping_add(a);
    state[1] = state[1].wrapping_add(b);
    state[2] = state[2].wrapping_add(c);
    state[3] = state[3].wrapping_add(d);
    proof {
        lemma_wrapping_add(old(state)@[0], a);
        lemma_wrapping_add(old(state)@[1], b);
        lemma_wrapping_add(old(state)@[2], c);
        lemma_wrapping_add(old(state)@[3], d);
    }
    assert(state@ =~= compress_block_spec(old(state)@, input@));
}

/// Folds the blocks into the state, first block first; no block leaves the
/// state as it is.
pub fn compress(state: &mut [u32; 4], blocks: &[[u8; 64]])
    ensures
        final(state)@ == compress_spec(old(state)@, blocks@),
{
    let mut i: usize = 0;
    while i < blocks.len()
        invariant
            i <= blocks@.len(),
            state@ == compress_spec(old(state)@, blocks@.take(i as int)),
        decreases blocks@.len() - i,
    {
        compress_block(state, &blocks[i]);
        proof {
            let done = blocks@.take(i as int + 1);
            assert(done.drop_last() =~= blocks@.take(i as int));
            assert(done.last() == blocks@[i as int]);
        }
        i = i + 1;
    }
    assert(blocks@.take(i as int) =~= blocks@);
}

} // verus!
