//! The types and values of contract calls, and the byte layout of a call's
//! arguments.
//!
//! Every argument has one 32-byte slot in the head of the block, in
//! declaration order. A value of fixed size stands in its slot. A value of
//! variable size stands behind the head, and its slot holds the offset of
//! that place from the start of the block.

use vstd::prelude::*;
use vstd::utf8::encode_utf8;
use crate::types::Address;
use crate::word::{pow256, word_of, zeros, U256};

verus! {

/// A type whose values take exactly one 32-byte word.
#[derive(Clone, Copy, Debug, PartialEq, Eq, Structural)]
pub enum WordType {
    /// An unsigned integer of the given number of bits: a multiple of 8, from 8 to 256.
    Uint(u16),
    Bool,
    Address,
}

/// A parameter or return type.
#[derive(Clone, Copy, Debug, PartialEq, Eq, Structural)]
pub enum AbiType {
    Word(WordType),
    /// A byte string of any length.
    Bytes,
    /// A text of any length, laid out as its UTF-8 bytes.
    Str,
    /// A sequence, of any length, of one-word values of one type.
    Array(WordType),
}

/// A value that takes one word.
#[derive(Clone, Copy, Debug, PartialEq, Eq)]
pub enum WordValue {
    Uint(U256),
    Bool(bool),
    Address(Address),
}

/// An argument or a returned value.
#[derive(Clone, Debug, PartialEq, Eq)]
pub enum AbiValue {
    Word(WordValue),
    Bytes(Vec<u8>),
    Str(String),
    Array(Vec<WordValue>),
}

/// What a one-word value is: a number, a truth value, or 20 address bytes.
pub enum WordModel {
    Uint(nat),
    Bool(bool),
    Address(Seq<u8>),
}

/// What a value is.
pub enum AbiModel {
    Word(WordModel),
    Bytes(Seq<u8>),
    Str(Seq<char>),
    Array(Seq<WordModel>),
}

impl View for WordValue {
    type V = WordModel;

    open spec fn view(&self) -> WordModel {
        match *self {
            WordValue::Uint(u) => WordModel::Uint(u.value()),
            WordValue::Bool(b) => WordModel::Bool(b),
            WordValue::Address(a) => WordModel::Address(a@),
        }
    }
}

/// The models of a sequence of one-word values.
pub open spec fn word_models(ws: Seq<WordValue>) -> Seq<WordModel> {
    ws.map_values(|w: WordValue| w@)
}

impl View for AbiValue {
    type V = AbiModel;

    open spec fn view(&self) -> AbiModel {
        match *self {
            AbiValue::Word(w) => AbiModel::Word(w@),
            AbiValue::Bytes(b) => AbiModel::Bytes(b@),
            AbiValue::Str(s) => AbiModel::Str(s@),
            AbiValue::Array(ws) => AbiModel::Array(word_models(ws@)),
        }
    }
}

/// The models of a sequence of values.
pub open spec fn models(vs: Seq<AbiValue>) -> Seq<AbiModel> {
    vs.map_values(|v: AbiValue| v@)
}

/// Whether a one-word type is one that exists: an integer has 8 to 256 bits, in whole bytes.
pub open spec fn word_type_ok(t: WordType) -> bool {
    match t {
        WordType::Uint(bits) => 8 <= bits <= 256 && bits % 8 == 0,
        _ => true,
    }
}

/// Whether a one-word value lies in the domain of a one-word type.
pub open spec fn word_fits(t: WordType, v: WordModel) -> bool {
    match (t, v) {
        (WordType::Uint(bits), WordModel::Uint(n)) => word_type_ok(t) && n < pow256(
            (bits / 8) as nat,
        ),
        (WordType::Bool, WordModel::Bool(_)) => true,
        (WordType::Address, WordModel::Address(a)) => a.len() == 20,
        _ => false,
    }
}

/// Whether every one of the first `k` values lies in the domain of `t`.
pub open spec fn words_fit(t: WordType, ws: Seq<WordModel>, k: int) -> bool {
    forall|i: int| 0 <= i < k ==> word_fits(t, #[trigger] ws[i])
}

/// Whether a value lies in the domain of a type.
pub open spec fn fits(t: AbiType, v: AbiModel) -> bool {
    match (t, v) {
        (AbiType::Word(wt), AbiModel::Word(w)) => word_fits(wt, w),
        (AbiType::Bytes, AbiModel::Bytes(_)) => true,
        (AbiType::Str, AbiModel::Str(_)) => true,
        (AbiType::Array(wt), AbiModel::Array(ws)) => words_fit(wt, ws, ws.len() as int),
        _ => false,
    }
}

/// Whether the first `k` values lie in the domains of the first `k` types.
pub open spec fn fit_upto(types: Seq<AbiType>, vals: Seq<AbiModel>, k: int) -> bool {
    forall|i: int| 0 <= i < k ==> fits(#[trigger] types[i], vals[i])
}

/// Whether the values are arguments for parameters of these types.
pub open spec fn all_fit(types: Seq<AbiType>, vals: Seq<AbiModel>) -> bool {
    types.len() == vals.len() && fit_upto(types, vals, types.len() as int)
}

/// The word of a one-word value.
pub open spec fn word_bytes(v: WordModel) -> Seq<u8> {
    match v {
        WordModel::Uint(n) => word_of(n),
        WordModel::Bool(b) => word_of(
            if b {
                1
            } else {
                0
            },
        ),
        WordModel::Address(a) => zeros(12) + a,
    }
}

/// The words of the first `k` one-word values, one after the other.
pub open spec fn words_bytes(ws: Seq<WordModel>, k: nat) -> Seq<u8>
    decreases k,
{
    if k == 0 {
        Seq::empty()
    } else {
        words_bytes(ws, (k - 1) as nat) + word_bytes(ws[k - 1])
    }
}

/// Whether a value stands behind the head.
pub open spec fn is_dynamic(v: AbiModel) -> bool {
    !(v is Word)
}

/// The number that leads a value behind the head: how many bytes or items follow.
pub open spec fn count_of(v: AbiModel) -> nat {
    match v {
        AbiModel::Word(_) => 0,
        AbiModel::Bytes(b) => b.len(),
        AbiModel::Str(s) => encode_utf8(s).len(),
        AbiModel::Array(ws) => ws.len(),
    }
}

/// The bytes of a value behind the head, without the leading count and the padding.
pub open spec fn payload_of(v: AbiModel) -> Seq<u8> {
    match v {
        AbiModel::Word(_) => Seq::empty(),
        AbiModel::Bytes(b) => b,
        AbiModel::Str(s) => encode_utf8(s),
        AbiModel::Array(ws) => words_bytes(ws, ws.len()),
    }
}

/// How many zero bytes fill `n` bytes up to a multiple of 32.
pub open spec fn pad_len(n: nat) -> nat {
    ((32 - n % 32) % 32) as nat
}

/// What a value puts behind the head: nothing, or its count, its bytes and the padding.
pub open spec fn tail_of(v: AbiModel) -> Seq<u8> {
    if is_dynamic(v) {
        word_of(count_of(v)) + payload_of(v) + zeros(pad_len(payload_of(v).len()))
    } else {
        Seq::empty()
    }
}

/// What the first `k` values put behind the head.
pub open spec fn tails(vals: Seq<AbiModel>, k: nat) -> Seq<u8>
    decreases k,
{
    if k == 0 {
        Seq::empty()
    } else {
        tails(vals, (k - 1) as nat) + tail_of(vals[k - 1])
    }
}

/// The slot of the value at index `i`: the value's word, or the offset of its tail.
pub open spec fn head_of(vals: Seq<AbiModel>, i: int) -> Seq<u8> {
    match vals[i] {
        AbiModel::Word(w) => word_bytes(w),
        _ => word_of(32 * vals.len() + tails(vals, i as nat).len()),
    }
}

/// The slots of the first `k` values.
pub open spec fn heads(vals: Seq<AbiModel>, k: nat) -> Seq<u8>
    decreases k,
{
    if k == 0 {
        Seq::empty()
    } else {
        heads(vals, (k - 1) as nat) + head_of(vals, k - 1)
    }
}

/// The argument block of a sequence of values: all slots, then all tails.
pub open spec fn encoded(vals: Seq<AbiModel>) -> Seq<u8> {
    heads(vals, vals.len()) + tails(vals, vals.len())
}

/// Why a call could not be encoded.
#[derive(Clone, Copy, Debug, PartialEq, Eq, Structural)]
pub enum EncodingError {
    /// The interface has no function of that name.
    UnknownFunction,
    /// The number of arguments is not the number of parameters.
    ArityMismatch,
    /// An argument lies outside the domain of its parameter's type.
    TypeMismatch,
    /// The block would be longer than a buffer in memory can be.
    TooLarge,
}

} // verus!
