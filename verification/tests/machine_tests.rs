//! Runs the scripts of the library on a small stack machine.
//!
//! The machine knows the opcodes that the fragments use. The program that
//! hashes the witness message on the stack is stood in for by one reserved
//! opcode, which the machine carries out with the `blake3` crate: it takes
//! the 24 nibbles of the message from the stack and leaves the 64 nibbles of
//! the digest. A signature check passes when a signature and a key are there.

use bitcoin::blockdata::script::{Builder, ScriptBuf};
use bitcoin::secp256k1::{Keypair, Message, Secp256k1, SecretKey};
use bitcoin::PublicKey;
use collidervm_toy::codec::flow_id_to_prefix_bytes;
use collidervm_toy::fragments::{
    build_greater_than_check, build_less_than_check, build_prefix_equalverify,
    build_script_reconstruct_x, build_success_script, combine_scripts,
};
use collidervm_toy::program::{
    build_script_f1_blake3_locked, build_script_f2_blake3_locked, create_toy_sighash_message,
};
use collidervm_toy::search::find_valid_nonce;

const HASH_STAND_IN: u8 = 0xb3;

fn number(item: &[u8]) -> i64 {
    let mut value: i64 = 0;
    for (i, byte) in item.iter().enumerate() {
        let mut part = *byte as i64;
        if i + 1 == item.len() {
            part &= 0x7f;
        }
        value |= part << (8 * i);
    }
    match item.last() {
        Some(last) if last & 0x80 != 0 => -value,
        _ => value,
    }
}

fn item_of(n: i64) -> Vec<u8> {
    let mut bytes = Vec::new();
    let mut rest = n.unsigned_abs();
    while rest > 0 {
        bytes.push((rest & 0xff) as u8);
        rest >>= 8;
    }
    if let Some(last) = bytes.last().copied() {
        if last & 0x80 != 0 {
            bytes.push(if n < 0 { 0x80 } else { 0x00 });
        } else if n < 0 {
            let top = bytes.len() - 1;
            bytes[top] |= 0x80;
        }
    }
    bytes
}

fn truthy(item: &[u8]) -> bool {
    item.iter().enumerate().any(|(i, b)| *b != 0 && !(i + 1 == item.len() && *b == 0x80))
}

fn hash_on_stack(stack: &mut Vec<Vec<u8>>) -> bool {
    if stack.len() < 24 {
        return false;
    }
    let nibbles: Vec<i64> = stack.split_off(stack.len() - 24).iter().map(|i| number(i)).collect();
    if nibbles.iter().any(|n| *n < 0 || *n > 15) {
        return false;
    }
    let mut message = Vec::new();
    for limb in nibbles.chunks(8) {
        let value = limb.iter().fold(0u32, |acc, n| acc * 16 + *n as u32);
        message.extend_from_slice(&value.to_le_bytes());
    }
    for byte in blake3::hash(&message).as_bytes() {
        stack.push(item_of((byte >> 4) as i64));
        stack.push(item_of((byte & 0x0f) as i64));
    }
    true
}

fn run(script: &[u8]) -> Option<Vec<Vec<u8>>> {
    let mut stack: Vec<Vec<u8>> = Vec::new();
    let mut alt: Vec<Vec<u8>> = Vec::new();
    let mut pc = 0;
    while pc < script.len() {
        let op = script[pc];
        pc += 1;
        match op {
            0x00 => stack.push(Vec::new()),
            0x01..=0x4b => {
                let end = pc + op as usize;
                stack.push(script.get(pc..end)?.to_vec());
                pc = end;
            }
            0x51..=0x60 => stack.push(item_of(op as i64 - 0x50)),
            0x69 => {
                if !truthy(&stack.pop()?) {
                    return None;
                }
            }
            0x6b => alt.push(stack.pop()?),
            0x6c => stack.push(alt.pop()?),
            0x74 => stack.push(item_of(stack.len() as i64)),
            0x75 => {
                stack.pop()?;
            }
            0x76 => stack.push(stack.last()?.clone()),
            0x79 => {
                let n = number(&stack.pop()?);
                if n < 0 || n as usize >= stack.len() {
                    return None;
                }
                stack.push(stack[stack.len() - 1 - n as usize].clone());
            }
            0x7c => {
                let top = stack.pop()?;
                let below = stack.pop()?;
                stack.push(top);
                stack.push(below);
            }
            0x88 => {
                let top = stack.pop()?;
                let below = stack.pop()?;
                if top != below {
                    return None;
                }
            }
            0x8c => {
                let n = number(&stack.pop()?);
                stack.push(item_of(n - 1));
            }
            0x93 => {
                let top = number(&stack.pop()?);
                let below = number(&stack.pop()?);
                stack.push(item_of(below + top));
            }
            0x94 => {
                let top = number(&stack.pop()?);
                let below = number(&stack.pop()?);
                stack.push(item_of(below - top));
            }
            0x9f => {
                let top = number(&stack.pop()?);
                let below = number(&stack.pop()?);
                stack.push(item_of((below < top) as i64));
            }
            0xa0 => {
                let top = number(&stack.pop()?);
                let below = number(&stack.pop()?);
                stack.push(item_of((below > top) as i64));
            }
            0xad => {
                let key = stack.pop()?;
                let signature = stack.pop()?;
                if key.is_empty() || signature.is_empty() {
                    return None;
                }
            }
            HASH_STAND_IN => {
                if !hash_on_stack(&mut stack) {
                    return None;
                }
            }
            _ => return None,
        }
    }
    Some(stack)
}

fn succeeds(script: &[u8]) -> bool {
    match run(script) {
        Some(stack) => stack.len() == 1 && truthy(&stack[0]),
        None => false,
    }
}

fn push_limb(mut b: Builder, limb: u32) -> Builder {
    for shift in (0..8).rev() {
        b = b.push_int(((limb >> (4 * shift)) & 0xf) as i64);
    }
    b
}

fn message_push_script(input: u32, nonce: u64) -> ScriptBuf {
    let mut b = Builder::new();
    b = push_limb(b, input);
    b = push_limb(b, nonce as u32);
    b = push_limb(b, (nonce >> 32) as u32);
    b.into_script()
}

struct TestCase {
    nonce: u64,
    flow_id_prefix: Vec<u8>,
    witness: Vec<u8>,
    script_f1: ScriptBuf,
    script_f2: ScriptBuf,
}

fn create_test_case(b: usize, l: usize, input_value: u32) -> TestCase {
    let secp = Secp256k1::new();
    let sk = SecretKey::from_slice(&[0x42u8; 32]).unwrap();
    let signer_keypair = Keypair::from_secret_key(&secp, &sk);
    let signer_pubkey = PublicKey::new(signer_keypair.public_key());
    let hash_program = ScriptBuf::from_bytes(vec![HASH_STAND_IN]);

    let (nonce, flow_id, _hash) = find_valid_nonce(input_value, b, l).unwrap();
    let flow_id_prefix: Vec<u8> = flow_id_to_prefix_bytes(flow_id, b);

    let script_f1 = build_script_f1_blake3_locked(&signer_pubkey, &flow_id_prefix, b, &hash_program);
    let script_f2 = build_script_f2_blake3_locked(&signer_pubkey, &flow_id_prefix, b, &hash_program);

    let sighash = Message::from_digest(create_toy_sighash_message(&script_f1, 150_000));
    let sig = secp.sign_schnorr_no_aux_rand(&sighash, &signer_keypair);
    let sig_bytes: [u8; 64] = sig.serialize();

    let mut witness = message_push_script(input_value, nonce).to_bytes();
    witness.extend(Builder::new().push_slice(sig_bytes).into_bytes());

    TestCase { nonce, flow_id_prefix, witness, script_f1, script_f2 }
}

fn with_witness(witness: &[u8], script: &ScriptBuf) -> Vec<u8> {
    let mut full = witness.to_vec();
    full.extend(script.to_bytes());
    full
}

#[test]
fn test_f1_e2e_with_valid_input() {
    let test_case = create_test_case(16, 4, 123);
    assert!(succeeds(&with_witness(&test_case.witness, &test_case.script_f1)));
}

#[test]
fn test_f1_e2e_with_invalid_input() {
    let test_case = create_test_case(16, 4, 100);
    assert!(!succeeds(&with_witness(&test_case.witness, &test_case.script_f1)));
}

#[test]
fn test_f2_e2e_with_valid_input() {
    let test_case = create_test_case(16, 4, 123);
    assert!(succeeds(&with_witness(&test_case.witness, &test_case.script_f2)));
}

#[test]
fn test_f2_e2e_with_invalid_input() {
    let test_case = create_test_case(16, 4, 200);
    assert!(!succeeds(&with_witness(&test_case.witness, &test_case.script_f2)));
}

#[test]
fn test_encoding() {
    let x_sig_script = {
        let mut b = Builder::new();
        b = b.push_int(0x00_i64);
        b = b.push_int(0x0d_i64);
        b = b.push_int(0x00_i64);
        b = b.push_int(0x00_i64);
        b.into_script()
    };
    let flow_id_prefix = vec![0x00, 0x0d, 0x00, 0x00];
    let script_part_1 = build_prefix_equalverify(&flow_id_prefix);
    let locking_script = combine_scripts(&[script_part_1, build_success_script()]);
    let mut full_f1 = x_sig_script.to_bytes();
    full_f1.extend(locking_script.to_bytes());
    assert!(succeeds(&full_f1));
}

#[test]
fn stage_bounds_are_strict() {
    for (input, f1, f2) in [
        (99u32, false, true),
        (100, false, true),
        (101, true, true),
        (199, true, true),
        (200, true, false),
        (201, true, false),
        (0, false, true),
        (0x7fff_ffff, true, false),
    ] {
        let test_case = create_test_case(8, 4, input);
        assert_eq!(succeeds(&with_witness(&test_case.witness, &test_case.script_f1)), f1);
        assert_eq!(succeeds(&with_witness(&test_case.witness, &test_case.script_f2)), f2);
    }
}

#[test]
fn every_prefix_width_is_accepted_with_its_own_nonce() {
    for (b, l) in [(0usize, 0usize), (8, 2), (16, 8), (24, 16), (32, 24)] {
        let test_case = create_test_case(b, l, 150);
        assert_eq!(test_case.flow_id_prefix.len(), b / 4);
        assert!(succeeds(&with_witness(&test_case.witness, &test_case.script_f1)));
        assert!(succeeds(&with_witness(&test_case.witness, &test_case.script_f2)));
    }
}

#[test]
fn witness_with_another_prefix_is_rejected() {
    let test_case = create_test_case(16, 4, 123);
    let mut other_nonce = test_case.nonce + 1;
    while find_prefix(123, other_nonce) == test_case.flow_id_prefix {
        other_nonce += 1;
    }
    let mut witness = message_push_script(123, other_nonce).to_bytes();
    witness.extend(Builder::new().push_slice([1u8; 64]).into_bytes());
    assert!(!succeeds(&with_witness(&witness, &test_case.script_f1)));
    assert!(!succeeds(&with_witness(&witness, &test_case.script_f2)));

    let mut wrong_prefix = test_case.flow_id_prefix.clone();
    wrong_prefix[1] ^= 0x1;
    let key = PublicKey::new(
        Keypair::from_secret_key(&Secp256k1::new(), &SecretKey::from_slice(&[0x42u8; 32]).unwrap())
            .public_key(),
    );
    let hash_program = ScriptBuf::from_bytes(vec![HASH_STAND_IN]);
    let script = build_script_f1_blake3_locked(&key, &wrong_prefix, 16, &hash_program);
    assert!(!succeeds(&with_witness(&test_case.witness, &script)));
}

fn find_prefix(input: u32, nonce: u64) -> Vec<u8> {
    let mut message = input.to_le_bytes().to_vec();
    message.extend_from_slice(&nonce.to_le_bytes());
    let digest = blake3::hash(&message);
    let bytes = digest.as_bytes();
    vec![bytes[0] >> 4, bytes[0] & 0xf, bytes[1] >> 4, bytes[1] & 0xf]
}

#[test]
fn missing_signature_is_rejected() {
    let test_case = create_test_case(16, 4, 123);
    let mut witness = message_push_script(123, test_case.nonce).to_bytes();
    witness.extend(Builder::new().push_int(0).into_bytes());
    assert!(!succeeds(&with_witness(&witness, &test_case.script_f1)));
}

#[test]
fn reconstruction_leaves_the_value_on_top_and_the_nibbles_below() {
    for value in [0u32, 1, 15, 16, 100, 123, 200, 0xabcdef, 0x1234_5678, 0x7fff_ffff] {
        let mut script = push_limb(Builder::new(), value).into_bytes();
        script.extend(Builder::new().push_int(5).push_int(6).into_bytes());
        script.extend(build_script_reconstruct_x().to_bytes());
        let stack = run(&script).unwrap();
        assert_eq!(stack.len(), 11);
        assert_eq!(number(&stack[10]), value as i64);
        for i in 0..8 {
            assert_eq!(number(&stack[i]), ((value >> (4 * (7 - i))) & 0xf) as i64);
        }
        assert_eq!(number(&stack[8]), 5);
        assert_eq!(number(&stack[9]), 6);
    }
}

#[test]
fn threshold_checks_on_the_machine() {
    for (value, bound) in [(0i64, 0u32), (1, 0), (100, 100), (101, 100), (199, 200), (200, 200), (70000, 65536)] {
        let mut greater = Builder::new().push_int(1).push_int(value).into_bytes();
        greater.extend(build_greater_than_check(bound).to_bytes());
        assert_eq!(succeeds(&greater), value > bound as i64);
        let mut less = Builder::new().push_int(1).push_int(value).into_bytes();
        less.extend(build_less_than_check(bound).to_bytes());
        assert_eq!(succeeds(&less), value < bound as i64);
    }
}
