//! From an input value and a nonce to a digest, from a digest to a flow
//! index, and from a flow index to the nibbles that a locking script checks.

use vstd::prelude::*;
use vstd::arithmetic::power2::{pow2, lemma2_to64, lemma_pow2_strictly_increases};
use vstd::bits::{low_bits_mask, lemma_u32_low_bits_mask_is_mod, lemma_u64_shl_is_mul,
    lemma_u32_shl_is_mul};
use crate::params::{FlowError, HASH_LIMB_LEN, HASH_MESSAGE_LEN, check_widths, valid_widths};

verus! {

/// The BLAKE3 digest of a message, as the `blake3` crate computes it.
pub uninterp spec fn blake3_digest(message: Seq<u8>) -> Seq<u8>;

/// Calls `blake3::hash`, the crate's default hash function, and copies the
/// 32 bytes of its output. The contract only names the result.
#[verifier::external_body]
fn blake3_hash(message: &[u8]) -> (digest: [u8; 32])
    ensures
        digest@ == blake3_digest(message@),
{
    *blake3::hash(message).as_bytes()
}

/// The four bytes of `x`, least significant first.
pub open spec fn u32_le_bytes(x: u32) -> Seq<u8> {
    seq![
        (x % 256) as u8,
        (x / 0x100 % 256) as u8,
        (x / 0x1_0000 % 256) as u8,
        (x / 0x100_0000 % 256) as u8,
    ]
}

/// The eight bytes of `x`, least significant first.
pub open spec fn u64_le_bytes(x: u64) -> Seq<u8> {
    seq![
        (x % 256) as u8,
        (x / 0x100 % 256) as u8,
        (x / 0x1_0000 % 256) as u8,
        (x / 0x100_0000 % 256) as u8,
        (x / 0x1_0000_0000 % 256) as u8,
        (x / 0x100_0000_0000 % 256) as u8,
        (x / 0x1_0000_0000_0000 % 256) as u8,
        (x / 0x100_0000_0000_0000 % 256) as u8,
    ]
}

/// The number whose little-endian bytes are the first four of `bytes`.
pub open spec fn u32_from_le_bytes(bytes: Seq<u8>) -> nat
    recommends
        bytes.len() >= 4,
{
    (bytes[0] as nat) + 0x100 * (bytes[1] as nat) + 0x1_0000 * (bytes[2] as nat) + 0x100_0000 * (
    bytes[3] as nat)
}

/// The twelve bytes that are hashed for an input and a nonce: the input,
/// then the nonce, both least significant byte first.
pub open spec fn routing_message(input: u32, nonce: u64) -> Seq<u8> {
    u32_le_bytes(input) + u64_le_bytes(nonce)
}

/// The low `b_bits` bits of the first four bytes of a digest.
pub open spec fn digest_prefix(digest: Seq<u8>, b_bits: nat) -> nat
    recommends
        digest.len() >= 4,
{
    u32_from_le_bytes(digest) % pow2(b_bits)
}

/// What a digest gives under the widths `b_bits` and `l_bits`: its prefix as
/// the flow index where that lies below `2^l_bits`, and otherwise the reason
/// why there is none.
pub open spec fn flow_outcome(digest: Seq<u8>, b_bits: nat, l_bits: nat) -> Result<u32, FlowError>
    recommends
        digest.len() >= 4,
{
    if !valid_widths(b_bits, l_bits) {
        Err(FlowError::InvalidParameters)
    } else if digest_prefix(digest, b_bits) < pow2(l_bits) {
        Ok(digest_prefix(digest, b_bits) as u32)
    } else {
        Err(
            FlowError::OutOfRange {
                index: digest_prefix(digest, b_bits) as u32,
                limit: pow2(l_bits) as u64,
            },
        )
    }
}

/// Whether the nonce routes the input into the accepted set.
pub open spec fn nonce_accepted(input: u32, nonce: u64, b_bits: nat, l_bits: nat) -> bool {
    flow_outcome(blake3_digest(routing_message(input, nonce)), b_bits, l_bits) is Ok
}

fn push_u32_le(out: &mut Vec<u8>, x: u32)
    ensures
        final(out)@ == old(out)@ + u32_le_bytes(x),
{
    out.push((x % 256) as u8);
    out.push((x / 0x100 % 256) as u8);
    out.push((x / 0x1_0000 % 256) as u8);
    out.push((x / 0x100_0000 % 256) as u8);
    assert(out@ =~= old(out)@ + u32_le_bytes(x));
}

pub(crate) fn push_u64_le(out: &mut Vec<u8>, x: u64)
    ensures
        final(out)@ == old(out)@ + u64_le_bytes(x),
{
    out.push((x % 256) as u8);
    out.push((x / 0x100 % 256) as u8);
    out.push((x / 0x1_0000 % 256) as u8);
    out.push((x / 0x100_0000 % 256) as u8);
    out.push((x / 0x1_0000_0000 % 256) as u8);
    out.push((x / 0x100_0000_0000 % 256) as u8);
    out.push((x / 0x1_0000_0000_0000 % 256) as u8);
    out.push((x / 0x100_0000_0000_0000 % 256) as u8);
    assert(out@ =~= old(out)@ + u64_le_bytes(x));
}

/// The bytes that are hashed for an input and a nonce.
pub fn encode_routing_message(input: u32, nonce: u64) -> (message: Vec<u8>)
    ensures
        message@ == routing_message(input, nonce),
{
    let mut message: Vec<u8> = Vec::new();
    push_u32_le(&mut message, input);
    push_u64_le(&mut message, nonce);
    message
}

/// `2^exponent`, for an exponent of at most 32.
pub(crate) fn power_of_two(exponent: usize) -> (p: u64)
    requires
        exponent <= 32,
    ensures
        p == pow2(exponent as nat),
{
    proof {
        lemma2_to64();
        if exponent < 32 {
            lemma_pow2_strictly_increases(exponent as nat, 32);
        }
        lemma_u64_shl_is_mul(1, exponent as u64);
    }
    1u64 << exponent
}

/// The flow index that a digest leads to.
///
/// The first four bytes of the digest are read as a little-endian number and
/// cut to their low `b_bits` bits. That prefix is the index if it lies below
/// `2^l_bits`; if not, the digest is turned down as out of range. Widths that
/// do not go together are refused before the digest is looked at.
#[verifier::rlimit(40)]
pub fn flow_id_from_digest(digest: &[u8; 32], b_bits: usize, l_bits: usize) -> (res: Result<
    u32,
    FlowError,
>)
    ensures
        res == flow_outcome(digest@, b_bits as nat, l_bits as nat),
        res matches Ok(index) ==> index < pow2(l_bits as nat),
{
    if !check_widths(b_bits, l_bits) {
        return Err(FlowError::InvalidParameters);
    }
    let word: u32 = (digest[0] as u32) + 0x100 * (digest[1] as u32) + 0x1_0000 * (digest[2] as u32)
        + 0x100_0000 * (digest[3] as u32);
    let mask: u32 = if b_bits >= 32 {
        u32::MAX
    } else {
        proof {
            lemma2_to64();
            lemma_pow2_strictly_increases(b_bits as nat, 32);
            lemma_u32_shl_is_mul(1, b_bits as u32);
        }
        (1u32 << b_bits) - 1
    };
    let prefix: u32 = word & mask;
    proof {
        lemma2_to64();
        if b_bits >= 32 {
            assert(word & u32::MAX == word) by (bit_vector);
            assert(word as nat % pow2(32) == word as nat);
        } else {
            lemma_pow2_strictly_increases(b_bits as nat, 32);
            lemma_u32_low_bits_mask_is_mod(word, b_bits as nat);
            assert(low_bits_mask(b_bits as nat) == pow2(b_bits as nat) - 1);
        }
        assert(prefix as nat == digest_prefix(digest@, b_bits as nat));
    }
    let limit: u64 = power_of_two(l_bits);
    if (prefix as u64) < limit {
        Ok(prefix)
    } else {
        Err(FlowError::OutOfRange { index: prefix, limit })
    }
}

/// Hashes the input with the nonce and derives the flow index.
///
/// Returns the index together with the digest when the nonce is accepted. The
/// digest is the BLAKE3 digest of [`routing_message`]; what is made of it is
/// stated by [`flow_outcome`].
pub fn calculate_flow_id(input: u32, nonce: u64, b_bits: usize, l_bits: usize) -> (res: Result<
    (u32, [u8; 32]),
    FlowError,
>)
    ensures
        match res {
            Ok((index, digest)) => {
                &&& digest@ == blake3_digest(routing_message(input, nonce))
                &&& flow_outcome(digest@, b_bits as nat, l_bits as nat) == Ok::<u32, FlowError>(
                    index,
                )
                &&& index < pow2(l_bits as nat)
            },
            Err(e) => flow_outcome(
                blake3_digest(routing_message(input, nonce)),
                b_bits as nat,
                l_bits as nat,
            ) == Err::<u32, FlowError>(e),
        },
        res is Ok <==> nonce_accepted(input, nonce, b_bits as nat, l_bits as nat),
{
    if !check_widths(b_bits, l_bits) {
        return Err(FlowError::InvalidParameters);
    }
    let message = encode_routing_message(input, nonce);
    let digest = blake3_hash(message.as_slice());
    match flow_id_from_digest(&digest, b_bits, l_bits) {
        Ok(index) => Ok((index, digest)),
        Err(e) => Err(e),
    }
}

/// The nibbles of the low `b_bits / 8` bytes of a flow index: the bytes least
/// significant first, and of each byte the high nibble before the low one.
pub open spec fn prefix_nibbles(flow_id: u32, b_bits: nat) -> Seq<u8> {
    Seq::new(
        b_bits / 4,
        |i: int|
            if i % 2 == 0 {
                u32_le_bytes(flow_id)[i / 2] / 16
            } else {
                u32_le_bytes(flow_id)[i / 2] % 16
            },
    )
}

/// The number that a sequence of nibbles stands for when it is laid out as
/// [`prefix_nibbles`] lays it out: two nibbles to a byte, high nibble first,
/// bytes least significant first.
pub open spec fn nibbles_value(nibbles: Seq<u8>) -> nat
    decreases nibbles.len(),
{
    if nibbles.len() < 2 {
        0
    } else {
        16 * (nibbles[0] as nat) + (nibbles[1] as nat) + 256 * nibbles_value(
            nibbles.subrange(2, nibbles.len() as int),
        )
    }
}

/// The order in which a locking script compares the nibbles of a prefix: the
/// last one first, since the stack hands back last what was pushed first.
pub open spec fn check_order(prefix: Seq<u8>) -> Seq<u8> {
    prefix.reverse()
}

/// Splits the low `b_bits / 8` little-endian bytes of a flow index into
/// nibbles, byte by byte, high nibble first.
#[verifier::rlimit(40)]
pub fn flow_id_to_prefix_bytes(flow_id: u32, b_bits: usize) -> (nibbles: Vec<u8>)
    requires
        b_bits <= 32,
        b_bits % 8 == 0,
    ensures
        nibbles@ == prefix_nibbles(flow_id, b_bits as nat),
        nibbles@.len() == b_bits / 4,
        forall|i: int| 0 <= i < nibbles@.len() ==> nibbles@[i] <= 15,
{
    let prefix_len: usize = b_bits / 8;
    let mut le4: Vec<u8> = Vec::new();
    push_u32_le(&mut le4, flow_id);
    let mut nibbles: Vec<u8> = Vec::with_capacity(prefix_len * 2);
    let mut i: usize = 0;
    while i < prefix_len
        invariant
            prefix_len == b_bits / 8,
            b_bits <= 32,
            b_bits % 8 == 0,
            i <= prefix_len,
            le4@ == u32_le_bytes(flow_id),
            nibbles@.len() == 2 * i,
            forall|j: int|
                0 <= j < 2 * i ==> nibbles@[j] == #[trigger] prefix_nibbles(
                    flow_id,
                    b_bits as nat,
                )[j],
        decreases prefix_len - i,
    {
        let byte: u8 = le4[i];
        assert((byte >> 4) & 0x0F == byte / 16) by (bit_vector);
        assert(byte & 0x0F == byte % 16) by (bit_vector);
        nibbles.push((byte >> 4) & 0x0F);
        nibbles.push(byte & 0x0F);
        i += 1;
    }
    assert(nibbles@ =~= prefix_nibbles(flow_id, b_bits as nat));
    nibbles
}

/// A prefix, put into the order in which a script checks it and reversed
/// again, stands for the low `b_bits` bits of the flow index that it was made
/// from.
pub proof fn lemma_prefix_round_trip(flow_id: u32, b_bits: nat)
    requires
        b_bits <= 32,
        b_bits % 8 == 0,
    ensures
        check_order(prefix_nibbles(flow_id, b_bits)).reverse() == prefix_nibbles(flow_id, b_bits),
        nibbles_value(check_order(prefix_nibbles(flow_id, b_bits)).reverse()) == flow_id as nat
            % pow2(b_bits),
{
    let prefix = prefix_nibbles(flow_id, b_bits);
    assert(prefix.reverse().reverse() =~= prefix);
    lemma_nibbles_value_of_prefix(flow_id, b_bits);
}

proof fn lemma_nibbles_value_unfold(nibbles: Seq<u8>, byte: u8)
    requires
        nibbles.len() >= 2,
        nibbles[0] == byte / 16,
        nibbles[1] == byte % 16,
    ensures
        nibbles_value(nibbles) == byte as nat + 256 * nibbles_value(
            nibbles.subrange(2, nibbles.len() as int),
        ),
{
}

/// The nibbles made from a flow index stand for its low `b_bits` bits.
#[verifier::rlimit(40)]
pub proof fn lemma_nibbles_value_of_prefix(flow_id: u32, b_bits: nat)
    requires
        b_bits <= 32,
        b_bits % 8 == 0,
    ensures
        nibbles_value(prefix_nibbles(flow_id, b_bits)) == flow_id as nat % pow2(b_bits),
{
    lemma2_to64();
    let whole = prefix_nibbles(flow_id, b_bits);
    let bytes = u32_le_bytes(flow_id);
    let b0 = bytes[0];
    let b1 = bytes[1];
    let b2 = bytes[2];
    let b3 = bytes[3];
    let x = flow_id;
    if b_bits == 0 {
        assert(whole.len() == 0);
    } else {
        let tail1 = whole.subrange(2, whole.len() as int);
        lemma_nibbles_value_unfold(whole, b0);
        if b_bits == 8 {
            assert(tail1.len() == 0);
            assert(x % 256 == x % 0x100) by (bit_vector);
        } else {
            let tail2 = tail1.subrange(2, tail1.len() as int);
            assert(tail1[0] == whole[2] && tail1[1] == whole[3]);
            lemma_nibbles_value_unfold(tail1, b1);
            if b_bits == 16 {
                assert(tail2.len() == 0);
                assert(x % 256 + 256 * (x / 0x100 % 256) == x % 0x1_0000) by (bit_vector);
            } else {
                let tail3 = tail2.subrange(2, tail2.len() as int);
                assert(tail2[0] == whole[4] && tail2[1] == whole[5]);
                lemma_nibbles_value_unfold(tail2, b2);
                if b_bits == 24 {
                    assert(tail3.len() == 0);
                    assert(x % 256 + 256 * (x / 0x100 % 256 + 256 * (x / 0x1_0000 % 256)) == x
                        % 0x100_0000) by (bit_vector);
                } else {
                    let tail4 = tail3.subrange(2, tail3.len() as int);
                    assert(b_bits == 32);
                    assert(tail3[0] == whole[6] && tail3[1] == whole[7]);
                    lemma_nibbles_value_unfold(tail3, b3);
                    assert(tail4.len() == 0);
                    assert(x % 256 + 256 * (x / 0x100 % 256 + 256 * (x / 0x1_0000 % 256 + 256 * (x
                        / 0x100_0000 % 256))) == x) by (bit_vector);
                    assert(x as nat % 0x1_0000_0000 == x as nat);
                }
            }
        }
    }
}

/// The hashed message is three limbs: the input, the low half of the nonce
/// and its high half, each least significant byte first.
#[verifier::rlimit(40)]
pub proof fn lemma_routing_message_limbs(input: u32, nonce: u64)
    ensures
        routing_message(input, nonce).len() == HASH_MESSAGE_LEN,
        u32_le_bytes(input).len() == HASH_LIMB_LEN,
        routing_message(input, nonce) == u32_le_bytes(input) + u32_le_bytes(
            (nonce % 0x1_0000_0000) as u32,
        ) + u32_le_bytes((nonce / 0x1_0000_0000) as u32),
{
    let lo = (nonce % 0x1_0000_0000) as u32;
    let hi = (nonce / 0x1_0000_0000) as u32;
    assert({
        &&& lo % 256 == nonce % 256
        &&& lo / 0x100 % 256 == nonce / 0x100 % 256
        &&& lo / 0x1_0000 % 256 == nonce / 0x1_0000 % 256
        &&& lo / 0x100_0000 % 256 == nonce / 0x100_0000 % 256
    }) by (bit_vector)
        requires
            lo == (nonce % 0x1_0000_0000) as u32,
    ;
    assert({
        &&& hi % 256 == nonce / 0x1_0000_0000 % 256
        &&& hi / 0x100 % 256 == nonce / 0x100_0000_0000 % 256
        &&& hi / 0x1_0000 % 256 == nonce / 0x1_0000_0000_0000 % 256
        &&& hi / 0x100_0000 % 256 == nonce / 0x100_0000_0000_0000 % 256
    }) by (bit_vector)
        requires
            hi == (nonce / 0x1_0000_0000) as u32,
    ;
    assert(u64_le_bytes(nonce) =~= u32_le_bytes(lo) + u32_le_bytes(hi));
    assert(routing_message(input, nonce) =~= u32_le_bytes(input) + u32_le_bytes(lo)
        + u32_le_bytes(hi));
}

} // verus!
