//! The search for a nonce that routes an input into the accepted set.

use vstd::prelude::*;
use vstd::arithmetic::power2::{pow2, lemma2_to64, lemma_pow2_strictly_increases};
use crate::codec::{blake3_digest, calculate_flow_id, flow_outcome, nonce_accepted, power_of_two,
    routing_message};
use crate::params::{FlowError, SEARCH_SAFETY_FACTOR, check_widths, valid_widths};

verus! {

/// A nonce, the flow index that it leads to, and the digest behind both.
pub type Routing = (u64, u32, [u8; 32]);

/// The number of nonces that a search is expected to take: `2^(b_bits - l_bits)`.
pub open spec fn expected_attempts(b_bits: nat, l_bits: nat) -> nat {
    pow2((b_bits - l_bits) as nat)
}

/// The number of nonces that [`find_valid_nonce`] tries before it gives up.
pub open spec fn attempt_budget(b_bits: nat, l_bits: nat) -> nat {
    SEARCH_SAFETY_FACTOR as nat * expected_attempts(b_bits, l_bits) + 1
}

/// How many nonces there are to try from `first` on when `count` are asked
/// for: no nonce lies beyond the largest 64-bit number.
pub open spec fn nonces_tried(first: u64, count: u64) -> nat {
    if first as nat + count as nat <= 0x1_0000_0000_0000_0000 {
        count as nat
    } else {
        (0x1_0000_0000_0000_0000 - first as nat) as nat
    }
}

/// No nonce from `first` up to, but without, `end` is accepted.
pub open spec fn none_accepted(input: u32, b_bits: nat, l_bits: nat, first: nat, end: nat) -> bool {
    forall|r: u64| first <= r < end ==> !#[trigger] nonce_accepted(input, r, b_bits, l_bits)
}

/// What a search over `count` nonces from `first` on comes to.
///
/// With widths that do not go together it is refused. Otherwise it succeeds
/// with the least accepted nonce of the range, the digest of that nonce and
/// the index read from the digest; where the range holds no accepted nonce it
/// is exhausted, and says how many nonces were tried and how many a search is
/// expected to take.
pub open spec fn is_search_outcome(
    input: u32,
    b_bits: nat,
    l_bits: nat,
    first: u64,
    count: u64,
    res: Result<Routing, FlowError>,
) -> bool {
    if !valid_widths(b_bits, l_bits) {
        res == Err::<Routing, FlowError>(FlowError::InvalidParameters)
    } else {
        match res {
            Ok((nonce, index, digest)) => {
                &&& first <= nonce < first + nonces_tried(first, count)
                &&& none_accepted(input, b_bits, l_bits, first as nat, nonce as nat)
                &&& nonce_accepted(input, nonce, b_bits, l_bits)
                &&& digest@ == blake3_digest(routing_message(input, nonce))
                &&& flow_outcome(digest@, b_bits, l_bits) == Ok::<u32, FlowError>(index)
            },
            Err(e) => {
                &&& e == (FlowError::SearchExhausted {
                    attempts: nonces_tried(first, count) as u64,
                    expected: expected_attempts(b_bits, l_bits) as u64,
                })
                &&& none_accepted(
                    input,
                    b_bits,
                    l_bits,
                    first as nat,
                    first as nat + nonces_tried(first, count),
                )
            },
        }
    }
}

/// Tries `count` nonces in ascending order from `first` on, or as many as
/// there are up to the largest 64-bit number, and returns the first that is
/// accepted.
pub fn find_valid_nonce_from(
    input: u32,
    b_bits: usize,
    l_bits: usize,
    first: u64,
    count: u64,
) -> (res: Result<Routing, FlowError>)
    ensures
        is_search_outcome(input, b_bits as nat, l_bits as nat, first, count, res),
{
    if !check_widths(b_bits, l_bits) {
        return Err(FlowError::InvalidParameters);
    }
    let expected: u64 = power_of_two(b_bits - l_bits);
    let mut nonce: u64 = first;
    let mut tried: u64 = 0;
    while tried < count
        invariant
            valid_widths(b_bits as nat, l_bits as nat),
            expected == expected_attempts(b_bits as nat, l_bits as nat),
            tried <= count,
            nonce == first + tried,
            none_accepted(input, b_bits as nat, l_bits as nat, first as nat, nonce as nat),
        decreases count - tried,
    {
        match calculate_flow_id(input, nonce, b_bits, l_bits) {
            Ok((index, digest)) => {
                return Ok((nonce, index, digest));
            },
            Err(_) => {},
        }
        tried += 1;
        if nonce == u64::MAX {
            return Err(FlowError::SearchExhausted { attempts: tried, expected });
        }
        nonce += 1;
    }
    Err(FlowError::SearchExhausted { attempts: tried, expected })
}

/// The number of nonces that a search is expected to take and the number
/// that [`find_valid_nonce`] tries at most, for widths that go together.
pub fn search_budget(b_bits: usize, l_bits: usize) -> (budget: Option<(u64, u64)>)
    ensures
        !valid_widths(b_bits as nat, l_bits as nat) ==> budget is None,
        valid_widths(b_bits as nat, l_bits as nat) ==> budget == Some(
            (
                expected_attempts(b_bits as nat, l_bits as nat) as u64,
                attempt_budget(b_bits as nat, l_bits as nat) as u64,
            ),
        ) && attempt_budget(b_bits as nat, l_bits as nat) <= u64::MAX,
{
    if !check_widths(b_bits, l_bits) {
        return None;
    }
    proof {
        lemma2_to64();
        if b_bits - l_bits < 32 {
            lemma_pow2_strictly_increases((b_bits - l_bits) as nat, 32);
        }
    }
    let expected: u64 = power_of_two(b_bits - l_bits);
    Some((expected, SEARCH_SAFETY_FACTOR * expected + 1))
}

/// Finds the least nonce that routes `input` into the accepted set.
///
/// Nonces are tried from 0 upwards. The search gives up once it has tried a
/// hundred times the expected number of nonces and one more.
pub fn find_valid_nonce(input: u32, b_bits: usize, l_bits: usize) -> (res: Result<
    Routing,
    FlowError,
>)
    ensures
        !valid_widths(b_bits as nat, l_bits as nat) ==> res == Err::<Routing, FlowError>(
            FlowError::InvalidParameters,
        ),
        valid_widths(b_bits as nat, l_bits as nat) ==> {
            &&& attempt_budget(b_bits as nat, l_bits as nat) <= u64::MAX
            &&& is_search_outcome(
                input,
                b_bits as nat,
                l_bits as nat,
                0,
                attempt_budget(b_bits as nat, l_bits as nat) as u64,
                res,
            )
        },
{
    match search_budget(b_bits, l_bits) {
        None => Err(FlowError::InvalidParameters),
        Some((_, budget)) => find_valid_nonce_from(input, b_bits, l_bits, 0, budget),
    }
}

/// A search is determined by its arguments: two outcomes of the same search
/// are the same nonce, index and digest, or the same failure.
pub proof fn lemma_search_deterministic(
    input: u32,
    b_bits: nat,
    l_bits: nat,
    first: u64,
    count: u64,
    one: Result<Routing, FlowError>,
    other: Result<Routing, FlowError>,
)
    requires
        is_search_outcome(input, b_bits, l_bits, first, count, one),
        is_search_outcome(input, b_bits, l_bits, first, count, other),
    ensures
        one == other,
{
    if valid_widths(b_bits, l_bits) {
        match (one, other) {
            (Ok((n1, i1, d1)), Ok((n2, i2, d2))) => {
                assert(n1 == n2);
                assert(d1@ == d2@);
                assert(d1 == d2);
            },
            (Ok((n1, _, _)), Err(_)) => {
                assert(false);
            },
            (Err(_), Ok((n2, _, _))) => {
                assert(false);
            },
            (Err(_), Err(_)) => {},
        }
    }
}

} // verus!
