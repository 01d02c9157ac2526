use collidervm_toy::codec::{
    calculate_flow_id, encode_routing_message, flow_id_from_digest, flow_id_to_prefix_bytes,
};
use collidervm_toy::params::{check_widths, ColliderVmConfig, FlowError};
use collidervm_toy::search::{find_valid_nonce, find_valid_nonce_from, search_budget};

fn direct_digest(input: u32, nonce: u64) -> [u8; 32] {
    let mut hasher = blake3::Hasher::new();
    hasher.update(&input.to_le_bytes());
    hasher.update(&nonce.to_le_bytes());
    *hasher.finalize().as_bytes()
}

fn decode_nibbles(nibbles: &[u8]) -> u64 {
    let mut value: u64 = 0;
    let mut byte_index = 0;
    while 2 * byte_index + 1 < nibbles.len() {
        let byte = (nibbles[2 * byte_index] as u64) * 16 + nibbles[2 * byte_index + 1] as u64;
        value += byte << (8 * byte_index);
        byte_index += 1;
    }
    value
}

#[test]
fn routing_message_is_input_then_nonce_little_endian() {
    let message = encode_routing_message(0x1234_5678, 0x5678_9abc_def0_2143);
    assert_eq!(
        message,
        vec![0x78, 0x56, 0x34, 0x12, 0x43, 0x21, 0xf0, 0xde, 0xbc, 0x9a, 0x78, 0x56]
    );
    assert_eq!(
        encode_routing_message(123, 3545),
        vec![0x7b, 0x00, 0x00, 0x00, 0xd9, 0x0d, 0x00, 0x00, 0x00, 0x00, 0x00, 0x00]
    );
}

#[test]
fn flow_id_agrees_with_direct_hash() {
    for input in [0u32, 1, 100, 123, 200, u32::MAX] {
        for nonce in 0u64..300 {
            let digest = direct_digest(input, nonce);
            let word = u32::from_le_bytes([digest[0], digest[1], digest[2], digest[3]]);
            let prefix = word & 0xffff;
            match calculate_flow_id(input, nonce, 16, 4) {
                Ok((index, got)) => {
                    assert_eq!(got, digest);
                    assert_eq!(index, prefix);
                    assert!(index < 16);
                }
                Err(e) => {
                    assert!(prefix >= 16);
                    assert_eq!(e, FlowError::OutOfRange { index: prefix, limit: 16 });
                }
            }
        }
    }
}

#[test]
fn flow_id_from_digest_exact_values() {
    let mut digest = [0u8; 32];
    digest[0] = 0x0d;
    digest[1] = 0x00;
    digest[2] = 0xff;
    digest[3] = 0xee;
    assert_eq!(flow_id_from_digest(&digest, 16, 4), Ok(13));
    assert_eq!(flow_id_from_digest(&digest, 8, 4), Ok(13));
    assert_eq!(
        flow_id_from_digest(&digest, 24, 4),
        Err(FlowError::OutOfRange { index: 0x00ff_000d, limit: 16 })
    );
    assert_eq!(
        flow_id_from_digest(&digest, 32, 16),
        Err(FlowError::OutOfRange { index: 0xeeff_000d, limit: 65536 })
    );
    assert_eq!(flow_id_from_digest(&digest, 32, 32), Ok(0xeeff_000d));
    assert_eq!(flow_id_from_digest(&digest, 0, 0), Ok(0));
    digest[0] = 0x10;
    assert_eq!(
        flow_id_from_digest(&digest, 16, 4),
        Err(FlowError::OutOfRange { index: 16, limit: 16 })
    );
    assert_eq!(flow_id_from_digest(&digest, 16, 5), Ok(16));
}

#[test]
fn widths_that_do_not_go_together_are_refused() {
    let digest = [0u8; 32];
    for (b, l) in [(12usize, 4usize), (40, 4), (33, 0), (16, 17), (8, 9), (64, 64)] {
        assert!(!check_widths(b, l));
        assert_eq!(flow_id_from_digest(&digest, b, l), Err(FlowError::InvalidParameters));
        assert_eq!(calculate_flow_id(1, 2, b, l), Err(FlowError::InvalidParameters));
        assert_eq!(find_valid_nonce(1, b, l), Err(FlowError::InvalidParameters));
        assert_eq!(find_valid_nonce_from(1, b, l, 0, 5), Err(FlowError::InvalidParameters));
    }
    for (b, l) in [(0usize, 0usize), (8, 0), (8, 8), (16, 4), (24, 24), (32, 0), (32, 32)] {
        assert!(check_widths(b, l));
    }
}

#[test]
fn config_well_formedness() {
    let good = ColliderVmConfig { n: 3, m: 2, l: 4, b: 16, k: 2 };
    assert!(good.is_well_formed());
    let bad = ColliderVmConfig { n: 3, m: 2, l: 4, b: 12, k: 2 };
    assert!(!bad.is_well_formed());
    let too_wide = ColliderVmConfig { n: 3, m: 2, l: 20, b: 16, k: 2 };
    assert!(!too_wide.is_well_formed());
}

#[test]
fn prefix_nibbles_exact_vectors() {
    assert_eq!(flow_id_to_prefix_bytes(0x3412, 16), vec![0x1, 0x2, 0x3, 0x4]);
    assert_eq!(flow_id_to_prefix_bytes(0x000d, 16), vec![0x0, 0xd, 0x0, 0x0]);
    assert_eq!(
        flow_id_to_prefix_bytes(0x1234_5678, 32),
        vec![0x7, 0x8, 0x5, 0x6, 0x3, 0x4, 0x1, 0x2]
    );
    assert_eq!(flow_id_to_prefix_bytes(0x1234_5678, 24), vec![0x7, 0x8, 0x5, 0x6, 0x3, 0x4]);
    assert_eq!(flow_id_to_prefix_bytes(0x1234_5678, 8), vec![0x7, 0x8]);
    assert_eq!(flow_id_to_prefix_bytes(0x1234_5678, 0), Vec::<u8>::new());
    assert_eq!(flow_id_to_prefix_bytes(u32::MAX, 32), vec![0xf; 8]);
}

#[test]
fn prefix_round_trip_on_values() {
    for flow_id in [0u32, 1, 13, 0xff, 0x100, 0x3412, 0xabcdef, 0x1234_5678, u32::MAX] {
        for b in [0usize, 8, 16, 24, 32] {
            let prefix = flow_id_to_prefix_bytes(flow_id, b);
            assert_eq!(prefix.len(), b / 4);
            assert!(prefix.iter().all(|n| *n <= 15));
            let check_order: Vec<u8> = prefix.iter().rev().copied().collect();
            let back: Vec<u8> = check_order.iter().rev().copied().collect();
            assert_eq!(back, prefix);
            let low_bits = (flow_id as u64) % (1u64 << b);
            assert_eq!(decode_nibbles(&back), low_bits);
        }
    }
}

#[test]
fn search_returns_least_accepted_nonce() {
    let (nonce, flow_id, digest) = find_valid_nonce(123, 16, 4).unwrap();
    assert_eq!(nonce, 3545);
    assert_eq!(digest, direct_digest(123, nonce));
    assert!(flow_id < 16);
    assert_eq!(
        flow_id,
        u32::from_le_bytes([digest[0], digest[1], digest[2], digest[3]]) & 0xffff
    );
    for earlier in 0..nonce {
        assert!(calculate_flow_id(123, earlier, 16, 4).is_err());
    }
    assert_eq!(calculate_flow_id(123, nonce, 16, 4), Ok((flow_id, digest)));
}

#[test]
fn search_is_deterministic() {
    for input in [100u32, 123, 200] {
        let first = find_valid_nonce(input, 16, 4);
        let second = find_valid_nonce(input, 16, 4);
        assert!(first.is_ok());
        assert_eq!(first, second);
    }
}

#[test]
fn search_with_every_index_accepted_takes_nonce_zero() {
    let (nonce, flow_id, digest) = find_valid_nonce(5, 32, 32).unwrap();
    assert_eq!(nonce, 0);
    assert_eq!(digest, direct_digest(5, 0));
    assert_eq!(flow_id, u32::from_le_bytes([digest[0], digest[1], digest[2], digest[3]]));
    let (nonce, flow_id, _) = find_valid_nonce(5, 0, 0).unwrap();
    assert_eq!((nonce, flow_id), (0, 0));
}

#[test]
fn search_gives_up_when_the_range_holds_no_accepted_nonce() {
    let (nonce, _, _) = find_valid_nonce(123, 16, 4).unwrap();
    assert!(nonce > 0);
    assert_eq!(
        find_valid_nonce_from(123, 16, 4, 0, nonce),
        Err(FlowError::SearchExhausted { attempts: nonce, expected: 4096 })
    );
    assert_eq!(
        find_valid_nonce_from(123, 16, 4, 0, 0),
        Err(FlowError::SearchExhausted { attempts: 0, expected: 4096 })
    );
    let found = find_valid_nonce_from(123, 16, 4, 0, nonce + 1).unwrap();
    assert_eq!(found.0, nonce);
    let later = find_valid_nonce_from(123, 16, 4, nonce + 1, 1_000_000).unwrap();
    assert!(later.0 > nonce);
}

#[test]
fn search_stops_at_the_largest_nonce() {
    let mut input = 0u32;
    while (0..3).any(|k| calculate_flow_id(input, u64::MAX - k, 16, 0).is_ok()) {
        input += 1;
    }
    assert_eq!(
        find_valid_nonce_from(input, 16, 0, u64::MAX - 2, 10),
        Err(FlowError::SearchExhausted { attempts: 3, expected: 65536 })
    );
    assert_eq!(
        find_valid_nonce_from(input, 16, 0, u64::MAX, u64::MAX),
        Err(FlowError::SearchExhausted { attempts: 1, expected: 65536 })
    );
}

#[test]
fn search_with_a_single_accepted_index() {
    let (nonce, flow_id, digest) = find_valid_nonce(7, 8, 0).unwrap();
    assert_eq!(flow_id, 0);
    assert_eq!(digest[0], 0);
    assert_eq!(digest, direct_digest(7, nonce));
    assert!(nonce <= 100 * 256);
}

#[test]
fn search_budget_exact_values() {
    assert_eq!(search_budget(16, 4), Some((4096, 409_601)));
    assert_eq!(search_budget(32, 0), Some((4_294_967_296, 429_496_729_601)));
    assert_eq!(search_budget(8, 8), Some((1, 101)));
    assert_eq!(search_budget(0, 0), Some((1, 101)));
    assert_eq!(search_budget(12, 4), None);
    assert_eq!(search_budget(16, 17), None);
    assert_eq!(search_budget(40, 8), None);
}
