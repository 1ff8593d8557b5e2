use md5::consts::RC;
use md5::soft::compress;

const INIT: [u32; 4] = [0x67452301, 0xefcdab89, 0x98badcfe, 0x10325476];

/// Pads a message into 64-byte blocks: a one bit, zeros, and the bit length.
fn pad(msg: &[u8]) -> Vec<[u8; 64]> {
    let mut bytes = msg.to_vec();
    bytes.push(0x80);
    while bytes.len() % 64 != 56 {
        bytes.push(0);
    }
    bytes.extend_from_slice(&((msg.len() as u64) * 8).to_le_bytes());
    bytes
        .chunks_exact(64)
        .map(|c| {
            let mut b = [0u8; 64];
            b.copy_from_slice(c);
            b
        })
        .collect()
}

fn hex(state: &[u32; 4]) -> String {
    state
        .iter()
        .flat_map(|w| w.to_le_bytes())
        .map(|b| format!("{:02x}", b))
        .collect()
}

fn digest(msg: &[u8]) -> String {
    let mut state = INIT;
    compress(&mut state, &pad(msg));
    hex(&state)
}

#[test]
fn empty_message_digest() {
    assert_eq!(pad(b"").len(), 1);
    assert_eq!(digest(b""), "d41d8cd98f00b204e9800998ecf8427e");
}

#[test]
fn abc_digest() {
    assert_eq!(pad(b"abc").len(), 1);
    assert_eq!(digest(b"abc"), "900150983cd24fb0d6963f7d28e17f72");
}

#[test]
fn two_block_digest() {
    let msg = b"12345678901234567890123456789012345678901234567890123456789012345678901234567890";
    assert_eq!(pad(msg).len(), 2);
    assert_eq!(digest(msg), "57edf4a22be3c955ac49da2e2107b67a");
}

#[test]
fn alphabet_digest() {
    let msg = b"abcdefghijklmnopqrstuvwxyz";
    assert_eq!(digest(msg), "c3fcd3d76192e4007dfb496cca67e13b");
}

#[test]
fn two_blocks_in_one_call_equal_two_calls() {
    let blocks = pad(b"12345678901234567890123456789012345678901234567890123456789012345678901234567890");
    let mut one = INIT;
    compress(&mut one, &blocks);
    let mut two = INIT;
    compress(&mut two, &blocks[..1]);
    compress(&mut two, &blocks[1..]);
    assert_eq!(one, two);
}

#[test]
fn no_blocks_leave_state_unchanged() {
    let mut state = [1u32, 2, 3, 0xffff_ffff];
    compress(&mut state, &[]);
    assert_eq!(state, [1u32, 2, 3, 0xffff_ffff]);
}

#[test]
fn repeated_calls_agree() {
    let blocks = pad(b"abc");
    let mut first = [5u32, 6, 7, 8];
    let mut second = [5u32, 6, 7, 8];
    compress(&mut first, &blocks);
    compress(&mut second, &blocks);
    assert_eq!(first, second);
    assert_ne!(first, [5u32, 6, 7, 8]);
}

#[test]
fn round_constants_are_fixed() {
    let first = RC;
    let second = RC;
    assert_eq!(first, second);
    assert_eq!(RC.len(), 64);
    assert_eq!(RC[0], 0xd76aa478);
    assert_eq!(RC[63], 0xeb86d391);
}

#[test]
fn all_ones_block_changes_state() {
    let mut state = INIT;
    compress(&mut state, &[[0xffu8; 64]]);
    assert_ne!(state, INIT);
}
