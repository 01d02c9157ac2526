//! Bitcoin scripts as the `bitcoin` crate builds them.
//!
//! A script is a sequence of bytes. The crate's `Builder`, `ScriptBuf` and
//! `PublicKey` are carried through as they are; what is said of them here is
//! taken on trust from the crate's source and stated over those bytes.

use vstd::prelude::*;
use bitcoin::blockdata::opcodes::Opcode;
use bitcoin::blockdata::script::{Builder, ScriptBuf};
use bitcoin::key::PublicKey;

verus! {

pub const OP_0: u8 = 0x00;

pub const OP_TRUE: u8 = 0x51;

pub const OP_VERIFY: u8 = 0x69;

pub const OP_TOALTSTACK: u8 = 0x6b;

pub const OP_FROMALTSTACK: u8 = 0x6c;

pub const OP_DEPTH: u8 = 0x74;

pub const OP_DROP: u8 = 0x75;

pub const OP_DUP: u8 = 0x76;

pub const OP_PICK: u8 = 0x79;

pub const OP_SWAP: u8 = 0x7c;

pub const OP_EQUALVERIFY: u8 = 0x88;

pub const OP_1SUB: u8 = 0x8c;

pub const OP_ADD: u8 = 0x93;

pub const OP_SUB: u8 = 0x94;

pub const OP_LESSTHAN: u8 = 0x9f;

pub const OP_GREATERTHAN: u8 = 0xa0;

pub const OP_CHECKSIGVERIFY: u8 = 0xad;

/// `bitcoin::blockdata::script::Builder`, opaque.
#[verifier::external_type_specification]
#[verifier::external_body]
pub struct ExBuilder(Builder);

/// `bitcoin::blockdata::script::ScriptBuf`, opaque.
#[verifier::external_type_specification]
#[verifier::external_body]
pub struct ExScriptBuf(ScriptBuf);

/// `bitcoin::key::PublicKey`, opaque.
#[verifier::external_type_specification]
#[verifier::external_body]
pub struct ExPublicKey(PublicKey);

/// The bytes of the script that a builder has put together so far.
pub uninterp spec fn builder_bytes(builder: Builder) -> Seq<u8>;

/// The bytes of a script.
pub uninterp spec fn script_bytes(script: ScriptBuf) -> Seq<u8>;

/// The serialized form of a public key: 33 bytes if it is marked as
/// compressed, 65 bytes if not.
pub uninterp spec fn public_key_bytes(key: PublicKey) -> Seq<u8>;

/// The instruction that pushes the number `n`, for `0 <= n < 2^32`.
///
/// Zero and the numbers up to 16 each have an opcode of their own. A larger
/// number is pushed as data: a length byte, then the number's bytes, least
/// significant first, in as many bytes as leave the top bit of the last one
/// clear.
pub open spec fn push_int_bytes(n: int) -> Seq<u8>
    recommends
        0 <= n < 0x1_0000_0000,
{
    if n == 0 {
        seq![OP_0]
    } else if n <= 16 {
        seq![(0x50 + n) as u8]
    } else if n < 0x80 {
        seq![1u8, n as u8]
    } else if n < 0x8000 {
        seq![2u8, (n % 256) as u8, (n / 0x100) as u8]
    } else if n < 0x80_0000 {
        seq![3u8, (n % 256) as u8, (n / 0x100 % 256) as u8, (n / 0x1_0000) as u8]
    } else if n < 0x8000_0000 {
        seq![
            4u8,
            (n % 256) as u8,
            (n / 0x100 % 256) as u8,
            (n / 0x1_0000 % 256) as u8,
            (n / 0x100_0000) as u8,
        ]
    } else {
        seq![
            5u8,
            (n % 256) as u8,
            (n / 0x100 % 256) as u8,
            (n / 0x1_0000 % 256) as u8,
            (n / 0x100_0000) as u8,
            0u8,
        ]
    }
}

/// The instruction that pushes up to 75 bytes of data: their number, then
/// the bytes.
pub open spec fn push_data_bytes(data: Seq<u8>) -> Seq<u8>
    recommends
        data.len() <= 75,
{
    seq![data.len() as u8] + data
}

/// `Builder::new`: a builder that holds the empty script.
#[verifier::external_body]
pub(crate) fn builder_new() -> (builder: Builder)
    ensures
        builder_bytes(builder) == Seq::<u8>::empty(),
{
    Builder::new()
}

/// `Builder::push_int`: appends the instruction that pushes `n`. The source
/// picks an opcode for 0 and for 1 to 16 and encodes other numbers as a
/// minimal script number behind a length byte; [`push_int_bytes`] states
/// that for the numbers admitted here.
#[verifier::external_body]
pub(crate) fn builder_push_int(builder: Builder, n: i64) -> (extended: Builder)
    requires
        0 <= n < 0x1_0000_0000,
    ensures
        builder_bytes(extended) == builder_bytes(builder) + push_int_bytes(n as int),
{
    builder.push_int(n)
}

/// `Builder::push_opcode`, on the opcode with the given code: appends that
/// one byte.
#[verifier::external_body]
pub(crate) fn builder_push_opcode(builder: Builder, code: u8) -> (extended: Builder)
    ensures
        builder_bytes(extended) == builder_bytes(builder).push(code),
{
    builder.push_opcode(Opcode::from(code))
}

/// `Builder::push_key`: appends the instruction that pushes the key's
/// serialized form, which is 33 or 65 bytes long and so takes a single
/// length byte.
#[verifier::external_body]
pub(crate) fn builder_push_key(builder: Builder, key: &PublicKey) -> (extended: Builder)
    ensures
        builder_bytes(extended) == builder_bytes(builder) + push_data_bytes(public_key_bytes(*key)),
        builder_bytes(extended).len() == builder_bytes(builder).len() + 34 || builder_bytes(
            extended,
        ).len() == builder_bytes(builder).len() + 66,
{
    builder.push_key(key)
}

/// `Builder::into_script`: the script that the builder has put together.
#[verifier::external_body]
pub(crate) fn builder_into_script(builder: Builder) -> (script: ScriptBuf)
    ensures
        script_bytes(script) == builder_bytes(builder),
{
    builder.into_script()
}

/// `Script::to_bytes`, reached through `ScriptBuf`: a copy of the script's
/// bytes.
#[verifier::external_body]
pub(crate) fn script_to_bytes(script: &ScriptBuf) -> (bytes: Vec<u8>)
    ensures
        bytes@ == script_bytes(*script),
{
    script.to_bytes()
}

/// `ScriptBuf::from_bytes`: the script made of the given bytes.
#[verifier::external_body]
pub(crate) fn script_from_bytes(bytes: Vec<u8>) -> (script: ScriptBuf)
    ensures
        script_bytes(script) == bytes@,
{
    ScriptBuf::from_bytes(bytes)
}

} // verus!
