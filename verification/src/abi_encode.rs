//! Encoding of argument blocks.

use vstd::prelude::*;
use crate::abi::{
    all_fit, encoded, fit_upto, fits, heads, models, pad_len, tail_of, tails, word_bytes,
    word_fits, word_models, words_bytes, words_fit, AbiModel, AbiType, AbiValue, EncodingError,
    WordModel, WordType, WordValue,
};
use crate::word::{lemma_be_bytes_len, lemma_be_bytes_of_value, word_of, zeros, U256};

verus! {

/// Appends `data` to `out`.
pub fn append_bytes(out: &mut Vec<u8>, data: &[u8])
    ensures
        final(out)@ == old(out)@ + data@,
{
    let mut i: usize = 0;
    let n: usize = data.len();
    while i < n
        invariant
            i <= n,
            n == data@.len(),
            out@ == old(out)@ + data@.take(i as int),
        decreases n - i,
    {
        out.push(data[i]);
        assert(data@.take(i + 1) =~= data@.take(i as int).push(data@[i as int]));
        i += 1;
    }
    assert(data@.take(n as int) =~= data@);
}

/// Appends `n` zero bytes to `out`.
pub fn append_zeros(out: &mut Vec<u8>, n: usize)
    ensures
        final(out)@ == old(out)@ + zeros(n as nat),
{
    let mut i: usize = 0;
    while i < n
        invariant
            i <= n,
            out@ == old(out)@ + zeros(i as nat),
        decreases n - i,
    {
        out.push(0u8);
        assert(zeros((i + 1) as nat) =~= zeros(i as nat).push(0u8));
        i += 1;
    }
}

/// The word of a one-word value.
pub fn word_of_value(w: &WordValue) -> (r: U256)
    ensures
        r.bytes@ == word_bytes(w@),
{
    match w {
        WordValue::Uint(u) => {
            proof {
                lemma_be_bytes_of_value(u.bytes@);
            }
            *u
        },
        WordValue::Bool(b) => U256::from_u64(
            if *b {
                1
            } else {
                0
            },
        ),
        WordValue::Address(a) => {
            let mut bytes: [u8; 32] = [0u8; 32];
            let mut i: usize = 0;
            while i < 20
                invariant
                    i <= 20,
                    forall|j: int| 0 <= j < 12 ==> bytes@[j] == 0,
                    forall|j: int| 0 <= j < i ==> bytes@[12 + j] == a.bytes@[j],
                decreases 20 - i,
            {
                bytes[12 + i] = a.bytes[i];
                i += 1;
            }
            assert(bytes@ =~= zeros(12) + a.bytes@);
            U256 { bytes }
        },
    }
}

/// Whether a one-word value lies in the domain of a one-word type.
pub fn word_value_fits(t: WordType, w: &WordValue) -> (r: bool)
    ensures
        r == word_fits(t, w@),
{
    match (t, w) {
        (WordType::Uint(bits), WordValue::Uint(u)) => {
            if 8 <= bits && bits <= 256 && bits % 8 == 0 {
                u.fits_bytes((bits / 8) as usize)
            } else {
                false
            }
        },
        (WordType::Bool, WordValue::Bool(_)) => true,
        (WordType::Address, WordValue::Address(_)) => true,
        _ => false,
    }
}

/// Whether a value lies in the domain of a type.
pub fn value_fits(t: AbiType, v: &AbiValue) -> (r: bool)
    ensures
        r == fits(t, v@),
{
    match (t, v) {
        (AbiType::Word(wt), AbiValue::Word(w)) => word_value_fits(wt, w),
        (AbiType::Bytes, AbiValue::Bytes(_)) => true,
        (AbiType::Str, AbiValue::Str(_)) => true,
        (AbiType::Array(wt), AbiValue::Array(ws)) => {
            let mut i: usize = 0;
            let n: usize = ws.len();
            while i < n
                invariant
                    i <= n,
                    n == ws@.len(),
                    t == AbiType::Array(wt),
                    v@ == AbiModel::Array(word_models(ws@)),
                    words_fit(wt, word_models(ws@), i as int),
                decreases n - i,
            {
                assert(word_models(ws@)[i as int] == ws@[i as int]@);
                if !word_value_fits(wt, &ws[i]) {
                    assert(!word_fits(wt, word_models(ws@)[i as int]));
                    return false;
                }
                i += 1;
            }
            true
        },
        _ => false,
    }
}

/// Appends what a value puts behind the head.
pub fn append_tail(out: &mut Vec<u8>, v: &AbiValue)
    ensures
        final(out)@ == old(out)@ + tail_of(v@),
{
    match v {
        AbiValue::Word(_) => {
            assert(old(out)@ + tail_of(v@) =~= old(out)@);
        },
        AbiValue::Bytes(b) => {
            append_counted(out, b.as_slice());
        },
        AbiValue::Str(s) => {
            append_counted(out, s.as_str().as_bytes());
        },
        AbiValue::Array(ws) => {
            let n: usize = ws.len();
            let count = U256::from_usize(n);
            append_bytes(out, count.bytes.as_slice());
            let ghost ms = word_models(ws@);
            let mut i: usize = 0;
            while i < n
                invariant
                    i <= n,
                    n == ws@.len(),
                    ms == word_models(ws@),
                    out@ == old(out)@ + word_of(n as nat) + words_bytes(ms, i as nat),
                decreases n - i,
            {
                let w = word_of_value(&ws[i]);
                append_bytes(out, w.bytes.as_slice());
                assert(ms[i as int] == ws@[i as int]@);
                assert(old(out)@ + word_of(n as nat) + words_bytes(ms, i as nat) + w.bytes@
                    =~= old(out)@ + word_of(n as nat) + words_bytes(ms, (i + 1) as nat));
                i += 1;
            }
            proof {
                assert forall|i: int| 0 <= i < n implies word_bytes(#[trigger] ms[i]).len()
                    == 32 by {
                    lemma_word_value_len(ws@[i]);
                }
                lemma_words_bytes_len(ms, n as nat);
                let payload = words_bytes(ms, n as nat);
                assert(pad_len(payload.len()) == 0);
                assert(old(out)@ + word_of(n as nat) + payload =~= old(out)@ + (word_of(n as nat)
                    + payload + zeros(0)));
            }
        },
    }
}

/// Appends a byte string with its length in front and its padding behind.
fn append_counted(out: &mut Vec<u8>, data: &[u8])
    ensures
        final(out)@ == old(out)@ + (word_of(data@.len()) + data@ + zeros(pad_len(data@.len()))),
{
    let n: usize = data.len();
    let count = U256::from_usize(n);
    append_bytes(out, count.bytes.as_slice());
    append_bytes(out, data);
    let pad: usize = (32 - n % 32) % 32;
    append_zeros(out, pad);
    assert(old(out)@ + word_of(n as nat) + data@ + zeros(pad as nat) =~= old(out)@ + (word_of(
        n as nat,
    ) + data@ + zeros(pad_len(n as nat))));
}

/// A one-word value's word is 32 bytes long, where the value has a type.
pub proof fn lemma_word_bytes_len(t: WordType, w: WordModel)
    requires
        word_fits(t, w),
    ensures
        word_bytes(w).len() == 32,
{
    match w {
        WordModel::Uint(n) => lemma_be_bytes_len(n, 32),
        WordModel::Bool(b) => {
            lemma_be_bytes_len(0, 32);
            lemma_be_bytes_len(1, 32);
        },
        WordModel::Address(a) => {},
    }
}

/// The word of a value in memory is 32 bytes long.
pub proof fn lemma_word_value_len(w: WordValue)
    ensures
        word_bytes(w@).len() == 32,
{
    match w {
        WordValue::Uint(u) => lemma_be_bytes_len(u.value(), 32),
        WordValue::Bool(b) => {
            lemma_be_bytes_len(0, 32);
            lemma_be_bytes_len(1, 32);
        },
        WordValue::Address(a) => {},
    }
}

/// Words of 32 bytes each make `32 * k` bytes.
pub proof fn lemma_words_bytes_len(ms: Seq<WordModel>, k: nat)
    requires
        k <= ms.len(),
        forall|i: int| 0 <= i < k ==> word_bytes(#[trigger] ms[i]).len() == 32,
    ensures
        words_bytes(ms, k).len() == 32 * k,
    decreases k,
{
    if k > 0 {
        lemma_words_bytes_len(ms, (k - 1) as nat);
    }
}

/// The slots of values that have types take 32 bytes each.
pub proof fn lemma_heads_len(types: Seq<AbiType>, vals: Seq<AbiModel>, k: nat)
    requires
        k <= vals.len(),
        types.len() == vals.len(),
        fit_upto(types, vals, k as int),
    ensures
        heads(vals, k).len() == 32 * k,
    decreases k,
{
    if k > 0 {
        lemma_heads_len(types, vals, (k - 1) as nat);
        let i = k - 1;
        assert(fits(types[i], vals[i]));
        match vals[i] {
            AbiModel::Word(w) => {
                match types[i] {
                    AbiType::Word(wt) => lemma_word_bytes_len(wt, w),
                    _ => {},
                }
            },
            _ => lemma_be_bytes_len(32 * vals.len() + tails(vals, i as nat).len(), 32),
        }
    }
}

/// What stands behind the head only grows with more values.
pub proof fn lemma_tails_monotonic(vals: Seq<AbiModel>, i: nat, k: nat)
    requires
        i <= k,
    ensures
        tails(vals, i).len() <= tails(vals, k).len(),
    decreases k,
{
    if i < k {
        lemma_tails_monotonic(vals, i, (k - 1) as nat);
    }
}

/// The length of a block: 32 bytes for each value, and the tails.
pub proof fn lemma_encoded_len(types: Seq<AbiType>, vals: Seq<AbiModel>)
    requires
        all_fit(types, vals),
    ensures
        encoded(vals).len() == 32 * vals.len() + tails(vals, vals.len()).len(),
{
    lemma_heads_len(types, vals, vals.len());
}

/// Lays out `values` as the argument block for parameters of `types`.
///
/// The block is `encoded` of the values. It is refused where the number of
/// values is not the number of types, where a value lies outside its type,
/// and where the block would not fit in memory.
pub fn encode_values(types: &[AbiType], values: &[AbiValue]) -> (r: Result<Vec<u8>, EncodingError>)
    ensures
        match r {
            Ok(bytes) => all_fit(types@, models(values@)) && bytes@ == encoded(models(values@)),
            Err(EncodingError::ArityMismatch) => types@.len() != values@.len(),
            Err(EncodingError::TypeMismatch) => types@.len() == values@.len() && !all_fit(
                types@,
                models(values@),
            ),
            Err(EncodingError::TooLarge) => all_fit(types@, models(values@)) && encoded(
                models(values@),
            ).len() > usize::MAX,
            Err(EncodingError::UnknownFunction) => false,
        },
{
    let n: usize = values.len();
    if types.len() != n {
        return Err(EncodingError::ArityMismatch);
    }
    let ghost ms = models(values@);
    let mut i: usize = 0;
    while i < n
        invariant
            i <= n,
            n == values@.len(),
            n == types@.len(),
            ms == models(values@),
            fit_upto(types@, ms, i as int),
        decreases n - i,
    {
        assert(ms[i as int] == values@[i as int]@);
        if !value_fits(types[i], &values[i]) {
            return Err(EncodingError::TypeMismatch);
        }
        i += 1;
    }
    proof {
        lemma_encoded_len(types@, ms);
    }
    if n > usize::MAX / 32 {
        return Err(EncodingError::TooLarge);
    }
    let head_len: usize = 32 * n;
    let mut head: Vec<u8> = Vec::new();
    let mut tail: Vec<u8> = Vec::new();
    i = 0;
    while i < n
        invariant
            i <= n,
            n == values@.len(),
            ms == models(values@),
            all_fit(types@, ms),
            head_len == 32 * n,
            encoded(ms).len() == 32 * n + tails(ms, n as nat).len(),
            head@ == heads(ms, i as nat),
            tail@ == tails(ms, i as nat),
        decreases n - i,
    {
        assert(ms[i as int] == values@[i as int]@);
        match &values[i] {
            AbiValue::Word(w) => {
                let word = word_of_value(w);
                append_bytes(&mut head, word.bytes.as_slice());
                assert(tail@ + tail_of(ms[i as int]) =~= tail@);
            },
            other => {
                if tail.len() > usize::MAX - head_len {
                    proof {
                        lemma_tails_monotonic(ms, i as nat, n as nat);
                    }
                    return Err(EncodingError::TooLarge);
                }
                let offset = U256::from_usize(head_len + tail.len());
                append_bytes(&mut head, offset.bytes.as_slice());
                append_tail(&mut tail, other);
            },
        }
        i += 1;
    }
    if tail.len() > usize::MAX - head_len {
        return Err(EncodingError::TooLarge);
    }
    head.append(&mut tail);
    Ok(head)
}

} // verus!
