//! The pieces that a locking script is put together from.

use vstd::prelude::*;
use bitcoin::blockdata::script::ScriptBuf;
use bitcoin::key::PublicKey;
use crate::behaviour::{drop_program, equalverify_program, lemma_drop_encoding,
    lemma_equalverify_encoding, lemma_reconstruct_encoding, lemma_threshold_check_encoding,
    reconstruct_program, threshold_check_program};
use crate::codec::check_order;
use crate::machine::encode;
use crate::script::{OP_0, OP_1SUB, OP_ADD, OP_CHECKSIGVERIFY, OP_DEPTH, OP_DROP, OP_DUP,
    OP_EQUALVERIFY, OP_FROMALTSTACK, OP_GREATERTHAN, OP_LESSTHAN, OP_PICK, OP_SUB, OP_SWAP,
    OP_TOALTSTACK, OP_TRUE, OP_VERIFY, builder_bytes, builder_into_script, builder_new,
    builder_push_int, builder_push_key, builder_push_opcode, public_key_bytes, push_data_bytes,
    push_int_bytes, script_bytes, script_from_bytes, script_to_bytes};

verus! {

/// The bytes of the scripts of a sequence, one after the other.
pub open spec fn concat_scripts(fragments: Seq<ScriptBuf>) -> Seq<u8>
    decreases fragments.len(),
{
    if fragments.len() == 0 {
        Seq::empty()
    } else {
        concat_scripts(fragments.drop_last()) + script_bytes(fragments.last())
    }
}

/// Joins scripts into one by putting their bytes one after the other.
pub fn combine_scripts(fragments: &[ScriptBuf]) -> (combined: ScriptBuf)
    ensures
        script_bytes(combined) == concat_scripts(fragments@),
{
    let mut bytes: Vec<u8> = Vec::new();
    let mut i: usize = 0;
    while i < fragments.len()
        invariant
            i <= fragments.len(),
            bytes@ == concat_scripts(fragments@.take(i as int)),
        decreases fragments.len() - i,
    {
        let mut part = script_to_bytes(&fragments[i]);
        proof {
            assert(fragments@.take(i + 1).drop_last() =~= fragments@.take(i as int));
            assert(fragments@.take(i + 1).last() == fragments@[i as int]);
        }
        bytes.append(&mut part);
        i += 1;
    }
    assert(fragments@.take(i as int) =~= fragments@);
    script_from_bytes(bytes)
}

/// The checks of a sequence of values, first to last: each value is pushed
/// and compared with the top of the stack, and the script fails unless they
/// are equal.
pub open spec fn equalverify_bytes(values: Seq<u8>) -> Seq<u8>
    decreases values.len(),
{
    if values.len() == 0 {
        Seq::empty()
    } else {
        equalverify_bytes(values.drop_last()) + push_int_bytes(values.last() as int).push(
            OP_EQUALVERIFY,
        )
    }
}

/// A script that checks the top of the stack against a prefix, nibble by
/// nibble. The last nibble of the prefix is checked first: the stack gives
/// back last what was pushed first.
pub fn build_prefix_equalverify(prefix_data: &[u8]) -> (script: ScriptBuf)
    ensures
        script_bytes(script) == equalverify_bytes(check_order(prefix_data@)),
        script_bytes(script) == encode(equalverify_program(check_order(prefix_data@))),
{
    proof {
        lemma_equalverify_encoding(check_order(prefix_data@));
    }
    let mut b = builder_new();
    let n: usize = prefix_data.len();
    let ghost order = check_order(prefix_data@);
    let mut i: usize = 0;
    while i < n
        invariant
            n == prefix_data.len(),
            i <= n,
            order == check_order(prefix_data@),
            order.len() == n,
            builder_bytes(b) == equalverify_bytes(order.take(i as int)),
        decreases n - i,
    {
        let nibble: u8 = prefix_data[n - 1 - i];
        proof {
            assert(order[i as int] == nibble);
            assert(order.take(i + 1).drop_last() =~= order.take(i as int));
            assert(order.take(i + 1).last() == nibble);
        }
        b = builder_push_int(b, nibble as i64);
        b = builder_push_opcode(b, OP_EQUALVERIFY);
        proof {
            assert(builder_bytes(b) =~= equalverify_bytes(order.take(i as int)) + push_int_bytes(
                nibble as int,
            ).push(OP_EQUALVERIFY));
        }
        i += 1;
    }
    assert(order.take(i as int) =~= order);
    builder_into_script(b)
}

/// One round of the reconstruction: fetch the nibble that lies `i` places
/// above the bottom of the stack, take the accumulator back from the other
/// stack, double it four times, add the nibble and put the sum away again.
pub open spec fn reconstruct_step_bytes(i: int) -> Seq<u8>
    recommends
        0 <= i < 0x1_0000_0000,
{
    seq![OP_DEPTH, OP_1SUB] + push_int_bytes(i) + seq![
        OP_SUB,
        OP_PICK,
        OP_FROMALTSTACK,
        OP_DUP,
        OP_ADD,
        OP_DUP,
        OP_ADD,
        OP_DUP,
        OP_ADD,
        OP_DUP,
        OP_ADD,
        OP_SWAP,
        OP_ADD,
        OP_TOALTSTACK,
    ]
}

/// The first `rounds` rounds of the reconstruction, for the nibbles from the
/// bottom of the stack upwards.
pub open spec fn reconstruct_steps_bytes(rounds: nat) -> Seq<u8>
    decreases rounds,
{
    if rounds == 0 {
        Seq::empty()
    } else {
        reconstruct_steps_bytes((rounds - 1) as nat) + reconstruct_step_bytes(rounds - 1)
    }
}

/// The script that rebuilds a 32-bit value from the eight nibbles at the
/// bottom of the stack: an accumulator that starts at zero on the other
/// stack, eight rounds, and the accumulator brought back at the end.
pub open spec fn reconstruct_x_bytes() -> Seq<u8> {
    seq![OP_0, OP_TOALTSTACK] + reconstruct_steps_bytes(8) + seq![OP_FROMALTSTACK]
}

/// A script that leaves on top of the stack the value whose nibbles are the
/// eight lowest items of the stack, and leaves those items where they are.
#[verifier::rlimit(40)]
pub fn build_script_reconstruct_x() -> (script: ScriptBuf)
    ensures
        script_bytes(script) == reconstruct_x_bytes(),
        script_bytes(script) == encode(reconstruct_program()),
{
    proof {
        lemma_reconstruct_encoding();
    }
    let mut b = builder_new();
    b = builder_push_int(b, 0);
    b = builder_push_opcode(b, OP_TOALTSTACK);
    assert(builder_bytes(b) =~= seq![OP_0, OP_TOALTSTACK] + reconstruct_steps_bytes(0));
    let mut i: u8 = 0;
    while i < 8
        invariant
            i <= 8,
            builder_bytes(b) == seq![OP_0, OP_TOALTSTACK] + reconstruct_steps_bytes(i as nat),
        decreases 8 - i,
    {
        let ghost before = builder_bytes(b);
        b = builder_push_opcode(b, OP_DEPTH);
        b = builder_push_opcode(b, OP_1SUB);
        b = builder_push_int(b, i as i64);
        b = builder_push_opcode(b, OP_SUB);
        b = builder_push_opcode(b, OP_PICK);
        b = builder_push_opcode(b, OP_FROMALTSTACK);
        let ghost fetched = builder_bytes(b);
        let mut j: u8 = 0;
        while j < 4
            invariant
                j <= 4,
                builder_bytes(b) == fetched + Seq::new(
                    2 * j as nat,
                    |k: int|
                        if k % 2 == 0 {
                            OP_DUP
                        } else {
                            OP_ADD
                        },
                ),
            decreases 4 - j,
        {
            b = builder_push_opcode(b, OP_DUP);
            b = builder_push_opcode(b, OP_ADD);
            assert(builder_bytes(b) =~= fetched + Seq::new(
                2 * (j + 1) as nat,
                |k: int|
                    if k % 2 == 0 {
                        OP_DUP
                    } else {
                        OP_ADD
                    },
            ));
            j += 1;
        }
        b = builder_push_opcode(b, OP_SWAP);
        b = builder_push_opcode(b, OP_ADD);
        b = builder_push_opcode(b, OP_TOALTSTACK);
        assert(builder_bytes(b) =~= before + reconstruct_step_bytes(i as int));
        assert(builder_bytes(b) =~= seq![OP_0, OP_TOALTSTACK] + reconstruct_steps_bytes(
            (i + 1) as nat,
        ));
        i += 1;
    }
    b = builder_push_opcode(b, OP_FROMALTSTACK);
    assert(builder_bytes(b) =~= reconstruct_x_bytes());
    builder_into_script(b)
}

/// The check of a public key's signature: the key is pushed, and the script
/// fails unless the signature below it is one of that key.
pub open spec fn signature_check_bytes(key: Seq<u8>) -> Seq<u8> {
    push_data_bytes(key).push(OP_CHECKSIGVERIFY)
}

/// A script that demands a signature of the given key.
pub fn build_signature_check(signer_pubkey: &PublicKey) -> (script: ScriptBuf)
    ensures
        script_bytes(script) == signature_check_bytes(public_key_bytes(*signer_pubkey)),
{
    let mut b = builder_new();
    b = builder_push_key(b, signer_pubkey);
    b = builder_push_opcode(b, OP_CHECKSIGVERIFY);
    assert(builder_bytes(b) =~= signature_check_bytes(public_key_bytes(*signer_pubkey)));
    builder_into_script(b)
}

/// The comparison of the top of the stack with a bound: the bound is pushed,
/// the two are compared by the given opcode, and the script fails unless the
/// comparison holds.
pub open spec fn threshold_check_bytes(bound: u32, comparison: u8) -> Seq<u8> {
    push_int_bytes(bound as int) + seq![comparison, OP_VERIFY]
}

/// A script that fails unless the top of the stack is greater than `bound`.
pub fn build_greater_than_check(bound: u32) -> (script: ScriptBuf)
    ensures
        script_bytes(script) == threshold_check_bytes(bound, OP_GREATERTHAN),
        script_bytes(script) == encode(threshold_check_program(bound, OP_GREATERTHAN)),
{
    proof {
        lemma_threshold_check_encoding(bound, OP_GREATERTHAN);
    }
    let mut b = builder_new();
    b = builder_push_int(b, bound as i64);
    b = builder_push_opcode(b, OP_GREATERTHAN);
    b = builder_push_opcode(b, OP_VERIFY);
    assert(builder_bytes(b) =~= threshold_check_bytes(bound, OP_GREATERTHAN));
    builder_into_script(b)
}

/// A script that fails unless the top of the stack is less than `bound`.
pub fn build_less_than_check(bound: u32) -> (script: ScriptBuf)
    ensures
        script_bytes(script) == threshold_check_bytes(bound, OP_LESSTHAN),
        script_bytes(script) == encode(threshold_check_program(bound, OP_LESSTHAN)),
{
    proof {
        lemma_threshold_check_encoding(bound, OP_LESSTHAN);
    }
    let mut b = builder_new();
    b = builder_push_int(b, bound as i64);
    b = builder_push_opcode(b, OP_LESSTHAN);
    b = builder_push_opcode(b, OP_VERIFY);
    assert(builder_bytes(b) =~= threshold_check_bytes(bound, OP_LESSTHAN));
    builder_into_script(b)
}

/// `count` times the opcode that drops the top of the stack.
pub open spec fn drop_bytes(count: nat) -> Seq<u8> {
    Seq::new(count, |k: int| OP_DROP)
}

/// A script that drops the `count` topmost items of the stack.
pub fn build_drop_script(count: usize) -> (script: ScriptBuf)
    ensures
        script_bytes(script) == drop_bytes(count as nat),
        script_bytes(script) == encode(drop_program(count as nat)),
{
    proof {
        lemma_drop_encoding(count as nat);
    }
    let mut b = builder_new();
    let mut i: usize = 0;
    assert(builder_bytes(b) =~= drop_bytes(0));
    while i < count
        invariant
            i <= count,
            builder_bytes(b) == drop_bytes(i as nat),
        decreases count - i,
    {
        b = builder_push_opcode(b, OP_DROP);
        assert(builder_bytes(b) =~= drop_bytes((i + 1) as nat));
        i += 1;
    }
    builder_into_script(b)
}

/// A script that ends in success: it pushes a true value.
pub fn build_success_script() -> (script: ScriptBuf)
    ensures
        script_bytes(script) == seq![OP_TRUE],
{
    let mut b = builder_new();
    b = builder_push_opcode(b, OP_TRUE);
    assert(builder_bytes(b) =~= seq![OP_TRUE]);
    builder_into_script(b)
}

} // verus!
