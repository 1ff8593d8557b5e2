use md5::consts::RC;
use md5::sched::{compress as sched_compress, SHIFTS};
use md5::soft::{compress as soft_compress, compress_block, op_f, op_g, op_h_reuse, op_i};

const START: [u32; 4] = [0x67452301, 0xefcdab89, 0x98badcfe, 0x10325476];

/// The one padded block of a message of at most 55 bytes.
fn one_block(msg: &[u8]) -> [u8; 64] {
    let mut b = [0u8; 64];
    b[..msg.len()].copy_from_slice(msg);
    b[msg.len()] = 0x80;
    b[56..].copy_from_slice(&((msg.len() as u64) * 8).to_le_bytes());
    b
}

fn to_hex(state: &[u32; 4]) -> String {
    state
        .iter()
        .flat_map(|w| w.to_le_bytes())
        .map(|b| format!("{:02x}", b))
        .collect()
}

/// A fixed sequence of blocks with varied bytes.
fn sample_blocks(n: usize) -> Vec<[u8; 64]> {
    let mut x: u32 = 0x2545f491;
    (0..n)
        .map(|_| {
            let mut b = [0u8; 64];
            for byte in b.iter_mut() {
                x ^= x << 13;
                x ^= x >> 17;
                x ^= x << 5;
                *byte = (x >> 24) as u8;
            }
            b
        })
        .collect()
}

#[test]
fn scheduled_empty_message_digest() {
    let mut state = START;
    sched_compress(&mut state, &[one_block(b"")]);
    assert_eq!(to_hex(&state), "d41d8cd98f00b204e9800998ecf8427e");
}

#[test]
fn scheduled_abc_digest() {
    let mut state = START;
    sched_compress(&mut state, &[one_block(b"abc")]);
    assert_eq!(to_hex(&state), "900150983cd24fb0d6963f7d28e17f72");
}

#[test]
fn backends_agree_on_many_inputs() {
    let blocks = sample_blocks(9);
    for n in 0..=blocks.len() {
        let starts = [START, [0, 0, 0, 0], [0xffff_ffff; 4], [1, 0x8000_0000, 7, 0xdead_beef]];
        for s in starts {
            let mut portable = s;
            let mut scheduled = s;
            soft_compress(&mut portable, &blocks[..n]);
            sched_compress(&mut scheduled, &blocks[..n]);
            assert_eq!(portable, scheduled);
        }
    }
}

#[test]
fn scheduled_no_blocks_leave_state_unchanged() {
    let mut state = [9u32, 8, 7, 6];
    sched_compress(&mut state, &[]);
    assert_eq!(state, [9u32, 8, 7, 6]);
}

#[test]
fn single_block_step_gives_abc_digest() {
    let mut state = START;
    compress_block(&mut state, &one_block(b"abc"));
    assert_eq!(to_hex(&state), "900150983cd24fb0d6963f7d28e17f72");
}

#[test]
fn first_round_of_each_stage() {
    let [a, b, c, d] = START;
    assert_eq!(op_f(a, b, c, d, 0x80, RC[0], 7), 0xa5202774);
    assert_eq!(op_g(a, b, c, d, 0x80, RC[0], 7), 0x8bf5ec6c);
    let mut h_tmp = d;
    assert_eq!(op_h_reuse(a, b, c, d, 0x80, RC[0], 7, &mut h_tmp), 0xea4328db);
    assert_eq!(h_tmp, c);
    assert_eq!(op_i(a, b, c, d, 0x80, RC[0], 7), 0x036d63e4);
}

#[test]
fn stage_two_masked_sum() {
    assert_eq!(op_g(0x12345678, 0xffff_ffff, 0, 0x0f0f_0f0f, 0xdead_beef, RC[16], 5), 0xc1e93b1d);
}

#[test]
fn round_sums_wrap() {
    let mut h_tmp = 9u32;
    assert_eq!(op_h_reuse(0xffff_ffff, 3, 5, 9, 1, 2, 4, &mut h_tmp), 0x113);
    assert_eq!(h_tmp, 5);
}

#[test]
fn rotation_table() {
    assert_eq!(SHIFTS, [7, 12, 17, 22, 5, 9, 14, 20, 4, 11, 16, 23, 6, 10, 15, 21]);
}

#[test]
fn zero_rotation_leaves_the_sum() {
    assert_eq!(op_f(0xffff_ffff, 0xffff_ffff, 1, 0, 0, 0, 0), 0xffff_ffff);
    assert_eq!(op_g(0, 0x0000_ffff, 0xffff_0000, 0x00ff_00ff, 0, 0, 0), 0xff01_00fe);
    assert_eq!(op_g(0, 0xffff_ffff, 0, 0xffff_ffff, 0, 0, 0), 0xffff_fffe);
    assert_eq!(op_i(0, 0, 0, 0, 0, 0, 0), 0xffff_ffff);
    assert_eq!(op_i(0, 0, 0, 0xffff_ffff, 0, 0, 0), 0);
}

#[test]
fn rotation_is_taken_modulo_32() {
    let (w, x, y, z, m, c) = (0x1111_1111, 0x1234_5678, 0x9abc_def0, 0x0fed_cba9, 0x2222_2222, 0x3333_3333);
    assert_eq!(op_f(w, x, y, z, m, c, 33), 0x1efc_e327);
    assert_eq!(op_f(w, x, y, z, m, c, 33), op_f(w, x, y, z, m, c, 1));
    assert_eq!(op_i(w, x, y, z, m, c, 32), op_i(w, x, y, z, m, c, 0));
}

#[test]
fn parity_round_reads_the_carried_word() {
    let mut h_tmp = 4u32;
    assert_eq!(op_h_reuse(0, 1, 2, 99, 0, 0, 1, &mut h_tmp), 15);
    assert_eq!(h_tmp, 2);
}
