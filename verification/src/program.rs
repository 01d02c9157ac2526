//! The two locking scripts of a flow, and the message that is signed for one.

use vstd::prelude::*;
use bitcoin::blockdata::script::ScriptBuf;
use bitcoin::key::PublicKey;
use crate::behaviour::{lemma_stage_program_encoding, stage_head_program, stage_tail_program};
use crate::codec::{check_order, push_u64_le, u64_le_bytes};
use crate::fragments::{build_drop_script, build_greater_than_check, build_less_than_check,
    build_prefix_equalverify, build_script_reconstruct_x, build_signature_check,
    build_success_script, combine_scripts, concat_scripts, drop_bytes, equalverify_bytes,
    reconstruct_x_bytes, signature_check_bytes, threshold_check_bytes};
use crate::machine::encode;
use crate::params::{F1_THRESHOLD, F2_THRESHOLD, HASH_NIBBLES};
use crate::script::{OP_GREATERTHAN, OP_LESSTHAN, OP_TRUE, public_key_bytes, script_bytes,
    script_from_bytes, script_to_bytes};

verus! {

/// The stages of a flow.
#[derive(Debug, Clone, Copy, PartialEq, Eq, Structural)]
pub enum Stage {
    /// The value must lie above [`F1_THRESHOLD`].
    LowerBound,
    /// The value must lie below [`F2_THRESHOLD`].
    UpperBound,
}

/// The check that a stage makes of the value.
pub open spec fn stage_check_bytes(stage: Stage) -> Seq<u8> {
    match stage {
        Stage::LowerBound => threshold_check_bytes(F1_THRESHOLD, OP_GREATERTHAN),
        Stage::UpperBound => threshold_check_bytes(F2_THRESHOLD, OP_LESSTHAN),
    }
}

/// The locking script of a stage, piece by piece: the signature check, the
/// reconstruction of the value, the stage's check of it, the hash program,
/// the drops that leave only as many nibbles of the digest as the prefix
/// has, the check of those against the prefix, and the success marker.
pub open spec fn stage_program_bytes(
    stage: Stage,
    key: Seq<u8>,
    prefix: Seq<u8>,
    hash_program: Seq<u8>,
) -> Seq<u8>
    recommends
        prefix.len() <= HASH_NIBBLES,
{
    signature_check_bytes(key) + reconstruct_x_bytes() + stage_check_bytes(stage) + hash_program
        + drop_bytes((HASH_NIBBLES - prefix.len()) as nat) + equalverify_bytes(check_order(prefix))
        + seq![OP_TRUE]
}

proof fn lemma_concat_push(fragments: Seq<ScriptBuf>, last: ScriptBuf)
    ensures
        concat_scripts(fragments.push(last)) == concat_scripts(fragments) + script_bytes(last),
{
    assert(fragments.push(last).drop_last() =~= fragments);
}

/// Builds the locking script of a stage.
///
/// `hash_program` is the script that hashes the twelve-byte message on the
/// stack and leaves the 64 nibbles of the digest; `flow_id_prefix` holds the
/// `b_bits / 4` nibbles that the digest must begin with.
#[verifier::rlimit(40)]
pub fn compile_stage_program(
    stage: Stage,
    signer_pubkey: &PublicKey,
    flow_id_prefix: &[u8],
    b_bits: usize,
    hash_program: &ScriptBuf,
) -> (script: ScriptBuf)
    requires
        b_bits <= 32,
        b_bits % 8 == 0,
        flow_id_prefix@.len() == b_bits / 4,
    ensures
        script_bytes(script) == stage_program_bytes(
            stage,
            public_key_bytes(*signer_pubkey),
            flow_id_prefix@,
            script_bytes(*hash_program),
        ),
        script_bytes(script) == signature_check_bytes(public_key_bytes(*signer_pubkey)) + encode(
            stage_head_program(stage),
        ) + script_bytes(*hash_program) + encode(stage_tail_program(flow_id_prefix@)),
{
    proof {
        lemma_stage_program_encoding(
            stage,
            public_key_bytes(*signer_pubkey),
            flow_id_prefix@,
            script_bytes(*hash_program),
        );
    }
    let needed_nibbles: usize = flow_id_prefix.len();
    let to_drop: usize = HASH_NIBBLES - needed_nibbles;
    let mut parts: Vec<ScriptBuf> = Vec::new();
    proof {
        assert(concat_scripts(parts@) =~= Seq::<u8>::empty());
    }
    let verify_signature = build_signature_check(signer_pubkey);
    proof {
        lemma_concat_push(parts@, verify_signature);
    }
    parts.push(verify_signature);
    let reconstruct_x = build_script_reconstruct_x();
    proof {
        lemma_concat_push(parts@, reconstruct_x);
    }
    parts.push(reconstruct_x);
    let value_check = match stage {
        Stage::LowerBound => build_greater_than_check(F1_THRESHOLD),
        Stage::UpperBound => build_less_than_check(F2_THRESHOLD),
    };
    proof {
        lemma_concat_push(parts@, value_check);
    }
    parts.push(value_check);
    let compute_hash = script_from_bytes(script_to_bytes(hash_program));
    proof {
        lemma_concat_push(parts@, compute_hash);
    }
    parts.push(compute_hash);
    let drop_script = build_drop_script(to_drop);
    proof {
        lemma_concat_push(parts@, drop_script);
    }
    parts.push(drop_script);
    let prefix_check = build_prefix_equalverify(flow_id_prefix);
    proof {
        lemma_concat_push(parts@, prefix_check);
    }
    parts.push(prefix_check);
    let success = build_success_script();
    proof {
        lemma_concat_push(parts@, success);
    }
    parts.push(success);
    let script = combine_scripts(parts.as_slice());
    proof {
        assert(script_bytes(script) =~= stage_program_bytes(
            stage,
            public_key_bytes(*signer_pubkey),
            flow_id_prefix@,
            script_bytes(*hash_program),
        ));
    }
    script
}

/// Builds the locking script of the first stage: the value must lie above
/// [`F1_THRESHOLD`], and the digest must end in the prefix.
pub fn build_script_f1_blake3_locked(
    signer_pubkey: &PublicKey,
    flow_id_prefix: &[u8],
    b_bits: usize,
    hash_program: &ScriptBuf,
) -> (script: ScriptBuf)
    requires
        b_bits <= 32,
        b_bits % 8 == 0,
        flow_id_prefix@.len() == b_bits / 4,
    ensures
        script_bytes(script) == stage_program_bytes(
            Stage::LowerBound,
            public_key_bytes(*signer_pubkey),
            flow_id_prefix@,
            script_bytes(*hash_program),
        ),
        script_bytes(script) == signature_check_bytes(public_key_bytes(*signer_pubkey)) + encode(
            stage_head_program(Stage::LowerBound),
        ) + script_bytes(*hash_program) + encode(stage_tail_program(flow_id_prefix@)),
{
    compile_stage_program(Stage::LowerBound, signer_pubkey, flow_id_prefix, b_bits, hash_program)
}

/// Builds the locking script of the second stage: the value must lie below
/// [`F2_THRESHOLD`], and the digest must end in the prefix.
pub fn build_script_f2_blake3_locked(
    signer_pubkey: &PublicKey,
    flow_id_prefix: &[u8],
    b_bits: usize,
    hash_program: &ScriptBuf,
) -> (script: ScriptBuf)
    requires
        b_bits <= 32,
        b_bits % 8 == 0,
        flow_id_prefix@.len() == b_bits / 4,
    ensures
        script_bytes(script) == stage_program_bytes(
            Stage::UpperBound,
            public_key_bytes(*signer_pubkey),
            flow_id_prefix@,
            script_bytes(*hash_program),
        ),
        script_bytes(script) == signature_check_bytes(public_key_bytes(*signer_pubkey)) + encode(
            stage_head_program(Stage::UpperBound),
        ) + script_bytes(*hash_program) + encode(stage_tail_program(flow_id_prefix@)),
{
    compile_stage_program(Stage::UpperBound, signer_pubkey, flow_id_prefix, b_bits, hash_program)
}

/// The SHA-256 digest of a message, as the `bitcoin_hashes` crate computes it.
pub uninterp spec fn sha256_digest(message: Seq<u8>) -> Seq<u8>;

/// Calls `Hash::hash` of `bitcoin_hashes` for its `sha256::Hash` and takes
/// the 32 bytes of the hash. The contract only names the result.
#[verifier::external_body]
fn sha256_hash(message: &[u8]) -> (digest: [u8; 32])
    ensures
        digest@ == sha256_digest(message@),
{
    let hash: bitcoin_hashes::sha256::Hash = bitcoin_hashes::Hash::hash(message);
    bitcoin_hashes::Hash::to_byte_array(hash)
}

/// The digest that stands for a locking script and an amount in a signature:
/// the SHA-256 digest of the script's bytes followed by the amount in
/// satoshis, least significant byte first.
pub fn create_toy_sighash_message(locking_script: &ScriptBuf, value_sat: u64) -> (digest: [u8; 32])
    ensures
        digest@ == sha256_digest(script_bytes(*locking_script) + u64_le_bytes(value_sat)),
{
    let mut message = script_to_bytes(locking_script);
    push_u64_le(&mut message, value_sat);
    sha256_hash(message.as_slice())
}

} // verus!
