//! Decoding of argument blocks.

use vstd::prelude::*;
use vstd::utf8::{decode_utf8, encode_utf8, encode_utf8_decode_utf8, valid_utf8};
use crate::abi::{
    models, word_models, word_type_ok, AbiModel, AbiType, AbiValue, WordModel, WordType, WordValue,
};
use crate::types::Address;
use crate::word::{be_value, pow256, read_word, U256};

verus! {

/// Why a block could not be decoded.
#[derive(Clone, Copy, Debug, PartialEq, Eq, Structural)]
pub enum DecodingError {
    /// The interface has no function of that name.
    UnknownFunction,
    /// The block is shorter than one slot for each value.
    LengthMismatch,
    /// An offset points outside the block.
    BadOffset,
    /// A count reaches beyond the end of the block.
    BadLength,
    /// A word holds no value of its type.
    BadValue,
    /// The bytes of a text are not UTF-8.
    BadUtf8,
}

/// The 32 bytes of `buf` from `at` on.
pub open spec fn word_at(buf: Seq<u8>, at: int) -> Seq<u8> {
    buf.subrange(at, at + 32)
}

/// The one-word value of type `t` that a word holds, if it holds one.
pub open spec fn decoded_word(t: WordType, w: Seq<u8>) -> Option<WordModel> {
    match t {
        WordType::Uint(bits) => if word_type_ok(t) && be_value(w) < pow256((bits / 8) as nat) {
            Some(WordModel::Uint(be_value(w)))
        } else {
            None
        },
        WordType::Bool => if be_value(w) == 0 {
            Some(WordModel::Bool(false))
        } else if be_value(w) == 1 {
            Some(WordModel::Bool(true))
        } else {
            None
        },
        WordType::Address => if be_value(w) < pow256(20) {
            Some(WordModel::Address(w.skip(12)))
        } else {
            None
        },
    }
}

/// The values of the `k` words from `start` on, if each holds a value of type `t`.
pub open spec fn decoded_words(t: WordType, buf: Seq<u8>, start: int, k: nat) -> Option<
    Seq<WordModel>,
>
    decreases k,
{
    if k == 0 {
        Some(Seq::empty())
    } else {
        match decoded_words(t, buf, start, (k - 1) as nat) {
            None => None,
            Some(ws) => match decoded_word(t, word_at(buf, start + 32 * (k - 1))) {
                None => None,
                Some(w) => Some(ws.push(w)),
            },
        }
    }
}

/// The value of type `t` whose slot is the one at index `i`.
pub open spec fn decoded_item(t: AbiType, buf: Seq<u8>, i: int) -> Result<AbiModel, DecodingError> {
    let slot = word_at(buf, 32 * i);
    match t {
        AbiType::Word(wt) => match decoded_word(wt, slot) {
            Some(w) => Ok(AbiModel::Word(w)),
            None => Err(DecodingError::BadValue),
        },
        _ => {
            let offset = be_value(slot);
            if offset + 32 > buf.len() {
                Err(DecodingError::BadOffset)
            } else {
                let count = be_value(word_at(buf, offset as int));
                let start = offset + 32;
                match t {
                    AbiType::Array(wt) => if start + 32 * count > buf.len() {
                        Err(DecodingError::BadLength)
                    } else {
                        match decoded_words(wt, buf, start as int, count) {
                            Some(ws) => Ok(AbiModel::Array(ws)),
                            None => Err(DecodingError::BadValue),
                        }
                    },
                    _ => if start + count > buf.len() {
                        Err(DecodingError::BadLength)
                    } else {
                        let data = buf.subrange(start as int, (start + count) as int);
                        if t is Bytes {
                            Ok(AbiModel::Bytes(data))
                        } else if valid_utf8(data) {
                            Ok(AbiModel::Str(decode_utf8(data)))
                        } else {
                            Err(DecodingError::BadUtf8)
                        }
                    },
                }
            }
        },
    }
}

/// The values in the first `k` slots, or the error of the first slot that has one.
pub open spec fn decoded_upto(types: Seq<AbiType>, buf: Seq<u8>, k: nat) -> Result<
    Seq<AbiModel>,
    DecodingError,
>
    decreases k,
{
    if k == 0 {
        Ok(Seq::empty())
    } else {
        match decoded_upto(types, buf, (k - 1) as nat) {
            Err(e) => Err(e),
            Ok(vs) => match decoded_item(types[k - 1], buf, k - 1) {
                Err(e) => Err(e),
                Ok(v) => Ok(vs.push(v)),
            },
        }
    }
}

/// The values that a block holds for the given types.
pub open spec fn decoded(types: Seq<AbiType>, buf: Seq<u8>) -> Result<Seq<AbiModel>, DecodingError> {
    if buf.len() < 32 * types.len() {
        Err(DecodingError::LengthMismatch)
    } else {
        decoded_upto(types, buf, types.len())
    }
}

/// A word that holds no value spoils every longer run of words.
pub proof fn lemma_decoded_words_none(t: WordType, buf: Seq<u8>, start: int, k: nat, m: nat)
    requires
        k <= m,
        decoded_words(t, buf, start, k) is None,
    ensures
        decoded_words(t, buf, start, m) is None,
    decreases m,
{
    if k < m {
        lemma_decoded_words_none(t, buf, start, k, (m - 1) as nat);
    }
}

/// The first error among the slots is the error of every longer run of slots.
pub proof fn lemma_decoded_upto_err(types: Seq<AbiType>, buf: Seq<u8>, k: nat, m: nat)
    requires
        k <= m,
        decoded_upto(types, buf, k) is Err,
    ensures
        decoded_upto(types, buf, m) == decoded_upto(types, buf, k),
    decreases m,
{
    if k < m {
        lemma_decoded_upto_err(types, buf, k, (m - 1) as nat);
    }
}

/// `String::from_utf8` of std: the text whose UTF-8 bytes are `bytes`, and
/// none exactly where `bytes` is not UTF-8.
#[verifier::external_body]
fn text_from_utf8(bytes: Vec<u8>) -> (r: Option<String>)
    ensures
        r is Some <==> valid_utf8(bytes@),
        r matches Some(s) ==> encode_utf8(s@) == bytes@,
{
    match String::from_utf8(bytes) {
        Ok(s) => Some(s),
        Err(_) => None,
    }
}

/// The one-word value of type `t` that a word holds, if it holds one.
pub fn decode_word(t: WordType, w: U256) -> (r: Option<WordValue>)
    ensures
        match r {
            Some(v) => decoded_word(t, w.bytes@) == Some(v@),
            None => decoded_word(t, w.bytes@) is None,
        },
{
    match t {
        WordType::Uint(bits) => {
            if 8 <= bits && bits <= 256 && bits % 8 == 0 && w.fits_bytes((bits / 8) as usize) {
                Some(WordValue::Uint(w))
            } else {
                None
            }
        },
        WordType::Bool => {
            match w.to_u64() {
                Some(0) => Some(WordValue::Bool(false)),
                Some(1) => Some(WordValue::Bool(true)),
                _ => None,
            }
        },
        WordType::Address => {
            if w.fits_bytes(20) {
                let mut bytes: [u8; 20] = [0u8; 20];
                let mut i: usize = 0;
                while i < 20
                    invariant
                        i <= 20,
                        forall|j: int| 0 <= j < i ==> bytes@[j] == w.bytes@[12 + j],
                    decreases 20 - i,
                {
                    bytes[i] = w.bytes[12 + i];
                    i += 1;
                }
                assert(bytes@ =~= w.bytes@.skip(12));
                Some(WordValue::Address(Address { bytes }))
            } else {
                None
            }
        },
    }
}

/// The `count` one-word values of type `t` from `start` on.
fn decode_words(t: WordType, buf: &[u8], start: usize, count: usize) -> (r: Option<Vec<WordValue>>)
    requires
        start + 32 * count <= buf@.len(),
    ensures
        match r {
            Some(ws) => decoded_words(t, buf@, start as int, count as nat) == Some(
                word_models(ws@),
            ),
            None => decoded_words(t, buf@, start as int, count as nat) is None,
        },
{
    let mut out: Vec<WordValue> = Vec::new();
    let mut k: usize = 0;
    let len: usize = buf.len();
    assert(word_models(out@) =~= Seq::<WordModel>::empty());
    while k < count
        invariant
            k <= count,
            len == buf@.len(),
            start + 32 * count <= len,
            decoded_words(t, buf@, start as int, k as nat) == Some(word_models(out@)),
        decreases count - k,
    {
        let w = read_word(buf, start + 32 * k);
        match decode_word(t, w) {
            Some(v) => {
                let ghost before = out@;
                out.push(v);
                assert(word_models(out@) =~= word_models(before).push(v@));
            },
            None => {
                proof {
                    lemma_decoded_words_none(t, buf@, start as int, (k + 1) as nat, count as nat);
                }
                return None;
            },
        }
        k += 1;
    }
    Some(out)
}

/// The value of type `t` whose slot is the one at index `i`.
fn decode_item(t: AbiType, buf: &[u8], i: usize) -> (r: Result<AbiValue, DecodingError>)
    requires
        32 * (i + 1) <= buf@.len(),
    ensures
        match r {
            Ok(v) => decoded_item(t, buf@, i as int) == Ok::<AbiModel, DecodingError>(v@),
            Err(e) => decoded_item(t, buf@, i as int) == Err::<AbiModel, DecodingError>(e),
        },
{
    let len: usize = buf.len();
    let slot = read_word(buf, 32 * i);
    match t {
        AbiType::Word(wt) => match decode_word(wt, slot) {
            Some(w) => Ok(AbiValue::Word(w)),
            None => Err(DecodingError::BadValue),
        },
        _ => {
            let offset: usize = match slot.to_usize() {
                Some(o) => o,
                None => {
                    return Err(DecodingError::BadOffset);
                },
            };
            if offset > len - 32 {
                return Err(DecodingError::BadOffset);
            }
            let count_word = read_word(buf, offset);
            let start: usize = offset + 32;
            let count: usize = match count_word.to_usize() {
                Some(c) => c,
                None => {
                    return Err(DecodingError::BadLength);
                },
            };
            match t {
                AbiType::Array(wt) => {
                    if count > (len - start) / 32 {
                        return Err(DecodingError::BadLength);
                    }
                    match decode_words(wt, buf, start, count) {
                        Some(ws) => Ok(AbiValue::Array(ws)),
                        None => Err(DecodingError::BadValue),
                    }
                },
                _ => {
                    if count > len - start {
                        return Err(DecodingError::BadLength);
                    }
                    let data = vstd::slice::slice_to_vec(
                        vstd::slice::slice_subrange(buf, start, start + count),
                    );
                    match t {
                        AbiType::Bytes => Ok(AbiValue::Bytes(data)),
                        _ => match text_from_utf8(data) {
                            Some(s) => {
                                proof {
                                    encode_utf8_decode_utf8(s@);
                                }
                                Ok(AbiValue::Str(s))
                            },
                            None => Err(DecodingError::BadUtf8),
                        },
                    }
                },
            }
        },
    }
}

/// Reads from a block the values of the given types.
///
/// The values are those of `decoded`. The block is refused where it is
/// shorter than its slots, where an offset or a count reaches outside it,
/// where a word holds no value of its type, and where a text is not UTF-8;
/// the error is that of the first slot that has one.
pub fn decode_values(types: &[AbiType], buf: &[u8]) -> (r: Result<Vec<AbiValue>, DecodingError>)
    ensures
        match r {
            Ok(vals) => decoded(types@, buf@) == Ok::<Seq<AbiModel>, DecodingError>(
                models(vals@),
            ),
            Err(e) => decoded(types@, buf@) == Err::<Seq<AbiModel>, DecodingError>(e),
        },
{
    let n: usize = types.len();
    if buf.len() / 32 < n {
        return Err(DecodingError::LengthMismatch);
    }
    let mut out: Vec<AbiValue> = Vec::new();
    let mut i: usize = 0;
    assert(models(out@) =~= Seq::<AbiModel>::empty());
    while i < n
        invariant
            i <= n,
            n == types@.len(),
            32 * n <= buf@.len(),
            decoded_upto(types@, buf@, i as nat) == Ok::<Seq<AbiModel>, DecodingError>(
                models(out@),
            ),
        decreases n - i,
    {
        match decode_item(types[i], buf, i) {
            Ok(v) => {
                let ghost before = out@;
                out.push(v);
                assert(models(out@) =~= models(before).push(v@));
            },
            Err(e) => {
                proof {
                    lemma_decoded_upto_err(types@, buf@, (i + 1) as nat, n as nat);
                }
                return Err(e);
            },
        }
        i += 1;
    }
    Ok(out)
}

} // verus!
