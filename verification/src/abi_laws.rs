//! What holds between encoding and decoding.

use vstd::prelude::*;
use vstd::utf8::{encode_utf8_decode_utf8, encode_utf8_valid_utf8};
use crate::abi::{
    all_fit, count_of, encoded, fit_upto, fits, head_of, heads, pad_len, payload_of, tail_of,
    tails, word_bytes, word_fits, words_bytes, words_fit, AbiModel, AbiType, WordModel, WordType,
};
use crate::abi_decode::{
    decoded, decoded_item, decoded_upto, decoded_word, decoded_words, word_at, DecodingError,
};
use crate::abi_encode::{lemma_heads_len, lemma_word_bytes_len, lemma_words_bytes_len};
use crate::word::{
    be_value, leading_zeros, lemma_be_bytes_len, lemma_pow256_monotonic, lemma_u128_below_word,
    lemma_word_below_pow, lemma_word_of_value, word_of, zeros,
};

verus! {

/// A one-word value is read back from its word.
pub proof fn lemma_word_round_trip(t: WordType, w: WordModel)
    requires
        word_fits(t, w),
    ensures
        decoded_word(t, word_bytes(w)) == Some(w),
{
    match w {
        WordModel::Uint(n) => {
            match t {
                WordType::Uint(bits) => {
                    lemma_pow256_monotonic((bits / 8) as nat, 32);
                    lemma_word_of_value(n);
                },
                _ => {},
            }
        },
        WordModel::Bool(b) => {
            lemma_u128_below_word(0);
            lemma_u128_below_word(1);
            lemma_word_of_value(0);
            lemma_word_of_value(1);
        },
        WordModel::Address(a) => {
            let word = zeros(12) + a;
            assert(leading_zeros(word, 12));
            lemma_word_below_pow(word, 20);
            assert(word.skip(12) =~= a);
        },
    }
}

/// The slot of the value at index `i` stands at byte `32 * i` of the head.
pub proof fn lemma_heads_slot(types: Seq<AbiType>, vals: Seq<AbiModel>, k: nat, i: int)
    requires
        0 <= i < k <= vals.len(),
        types.len() == vals.len(),
        fit_upto(types, vals, k as int),
    ensures
        heads(vals, k).len() == 32 * k,
        heads(vals, k).subrange(32 * i, 32 * i + 32) == head_of(vals, i),
    decreases k,
{
    lemma_heads_len(types, vals, k);
    lemma_heads_len(types, vals, (k - 1) as nat);
    let prev = heads(vals, (k - 1) as nat);
    let last = head_of(vals, k - 1);
    if i == k - 1 {
        assert(heads(vals, k).subrange(32 * i, 32 * i + 32) =~= last);
    } else {
        lemma_heads_slot(types, vals, (k - 1) as nat, i);
        assert(heads(vals, k).subrange(32 * i, 32 * i + 32) =~= prev.subrange(
            32 * i,
            32 * i + 32,
        ));
    }
}

/// The tail of the value at index `i` stands behind the tails of the values before it.
pub proof fn lemma_tails_slice(vals: Seq<AbiModel>, k: nat, i: int)
    requires
        0 <= i < k <= vals.len(),
    ensures
        tails(vals, i as nat).len() + tail_of(vals[i]).len() <= tails(vals, k).len(),
        tails(vals, k).subrange(
            tails(vals, i as nat).len() as int,
            (tails(vals, i as nat).len() + tail_of(vals[i]).len()) as int,
        ) == tail_of(vals[i]),
    decreases k,
{
    let a = tails(vals, i as nat).len() as int;
    let b = a + tail_of(vals[i]).len();
    if i == k - 1 {
        assert(tails(vals, k).subrange(a, b) =~= tail_of(vals[i]));
    } else {
        lemma_tails_slice(vals, (k - 1) as nat, i);
        assert(tails(vals, k).subrange(a, b) =~= tails(vals, (k - 1) as nat).subrange(a, b));
    }
}

/// The word of the item at index `j` stands at byte `32 * j` of the items' words.
pub proof fn lemma_words_slot(t: WordType, ws: Seq<WordModel>, k: nat, j: int)
    requires
        0 <= j < k <= ws.len(),
        words_fit(t, ws, k as int),
    ensures
        words_bytes(ws, k).len() == 32 * k,
        words_bytes(ws, k).subrange(32 * j, 32 * j + 32) == word_bytes(ws[j]),
    decreases k,
{
    assert forall|i: int| 0 <= i < k implies word_bytes(#[trigger] ws[i]).len() == 32 by {
        lemma_word_bytes_len(t, ws[i]);
    }
    lemma_words_bytes_len(ws, k);
    lemma_words_bytes_len(ws, (k - 1) as nat);
    if j == k - 1 {
        assert(words_bytes(ws, k).subrange(32 * j, 32 * j + 32) =~= word_bytes(ws[j]));
    } else {
        lemma_words_slot(t, ws, (k - 1) as nat, j);
        assert(words_bytes(ws, k).subrange(32 * j, 32 * j + 32) =~= words_bytes(
            ws,
            (k - 1) as nat,
        ).subrange(32 * j, 32 * j + 32));
    }
}

/// A one-word value is read back from where its word stands in a block.
pub proof fn lemma_word_in_block(t: WordType, ws: Seq<WordModel>, buf: Seq<u8>, start: int, j: int)
    requires
        0 <= j < ws.len(),
        words_fit(t, ws, ws.len() as int),
        0 <= start,
        start + 32 * ws.len() <= buf.len(),
        buf.subrange(start, start + 32 * ws.len()) == words_bytes(ws, ws.len()),
    ensures
        decoded_word(t, word_at(buf, start + 32 * j)) == Some(ws[j]),
{
    let all = buf.subrange(start, start + 32 * ws.len());
    let word = word_at(buf, start + 32 * j);
    assert(word == all.subrange(32 * j, 32 * j + 32)) by {
        assert(all.len() == 32 * ws.len());
        assert(word =~= all.subrange(32 * j, 32 * j + 32));
    }
    assert(all.subrange(32 * j, 32 * j + 32) == word_bytes(ws[j])) by {
        lemma_words_slot(t, ws, ws.len(), j);
    }
    assert(word_fits(t, ws[j]));
    lemma_word_round_trip(t, ws[j]);
}

/// One-word values are read back from where their words stand in a block.
pub proof fn lemma_words_round_trip(
    t: WordType,
    ws: Seq<WordModel>,
    buf: Seq<u8>,
    start: int,
    k: nat,
)
    requires
        k <= ws.len(),
        words_fit(t, ws, ws.len() as int),
        0 <= start,
        start + 32 * ws.len() <= buf.len(),
        buf.subrange(start, start + 32 * ws.len()) == words_bytes(ws, ws.len()),
    ensures
        decoded_words(t, buf, start, k) == Some(ws.take(k as int)),
    decreases k,
{
    if k == 0 {
        assert(ws.take(0) =~= Seq::<WordModel>::empty());
    } else {
        let j = k - 1;
        lemma_words_round_trip(t, ws, buf, start, j as nat);
        lemma_word_in_block(t, ws, buf, start, j);
        assert(ws.take(k as int) =~= ws.take(j).push(ws[j]));
    }
}

/// A value is read back from its slot in the block of all the values.
pub proof fn lemma_item_round_trip(types: Seq<AbiType>, vals: Seq<AbiModel>, i: int)
    requires
        all_fit(types, vals),
        0 <= i < vals.len(),
        encoded(vals).len() <= usize::MAX,
    ensures
        decoded_item(types[i], encoded(vals), i) == Ok::<AbiModel, DecodingError>(vals[i]),
{
    let n = vals.len();
    let buf = encoded(vals);
    let head = heads(vals, n);
    let tail = tails(vals, n);
    lemma_heads_slot(types, vals, n, i);
    assert(word_at(buf, 32 * i) =~= head.subrange(32 * i, 32 * i + 32));
    assert(fits(types[i], vals[i]));
    match vals[i] {
        AbiModel::Word(w) => {
            match types[i] {
                AbiType::Word(wt) => lemma_word_round_trip(wt, w),
                _ => {},
            }
        },
        _ => {
            let v = vals[i];
            lemma_tails_slice(vals, n, i);
            let a = tails(vals, i as nat).len() as int;
            let own = tail_of(v);
            let offset = 32 * n + a;
            let count = count_of(v);
            let payload = payload_of(v);
            let size = payload.len() as int;
            lemma_be_bytes_len(count, 32);
            assert(own.len() == 32 + size + pad_len(payload.len()));
            lemma_u128_below_word(offset as nat);
            lemma_word_of_value(offset as nat);
            assert(buf.subrange(offset, offset + own.len()) =~= tail.subrange(a, a + own.len()));
            assert(word_at(buf, offset) =~= own.subrange(0, 32));
            assert(own.subrange(0, 32) =~= word_of(count));
            let start = offset + 32;
            assert(buf.subrange(start, start + size) =~= own.subrange(32, 32 + size));
            assert(own.subrange(32, 32 + size) =~= payload);
            match v {
                AbiModel::Array(ws) => {
                    match types[i] {
                        AbiType::Array(wt) => {
                            if ws.len() > 0 {
                                lemma_words_slot(wt, ws, ws.len(), 0);
                            }
                            assert(payload.len() == 32 * ws.len());
                            lemma_u128_below_word(count);
                            lemma_word_of_value(count);
                            lemma_words_round_trip(wt, ws, buf, start, ws.len());
                            assert(ws.take(ws.len() as int) =~= ws);
                        },
                        _ => {},
                    }
                },
                AbiModel::Str(cs) => {
                    lemma_u128_below_word(count);
                    lemma_word_of_value(count);
                    encode_utf8_valid_utf8(cs);
                    encode_utf8_decode_utf8(cs);
                },
                _ => {
                    lemma_u128_below_word(count);
                    lemma_word_of_value(count);
                },
            }
        },
    }
}

/// The values in the first `k` slots of their own block are the first `k` values.
pub proof fn lemma_prefix_round_trip(types: Seq<AbiType>, vals: Seq<AbiModel>, k: nat)
    requires
        all_fit(types, vals),
        k <= vals.len(),
        encoded(vals).len() <= usize::MAX,
    ensures
        decoded_upto(types, encoded(vals), k) == Ok::<Seq<AbiModel>, DecodingError>(
            vals.take(k as int),
        ),
    decreases k,
{
    if k == 0 {
        assert(vals.take(0) =~= Seq::<AbiModel>::empty());
    } else {
        lemma_prefix_round_trip(types, vals, (k - 1) as nat);
        lemma_item_round_trip(types, vals, k - 1);
        assert(vals.take(k as int) =~= vals.take(k - 1).push(vals[k - 1]));
    }
}

/// Decoding inverts encoding: values that lie in the domains of their types
/// are read back unchanged from the block that they were laid out in, as long
/// as that block fits in memory.
pub proof fn lemma_decode_inverts_encode(types: Seq<AbiType>, vals: Seq<AbiModel>)
    requires
        all_fit(types, vals),
        encoded(vals).len() <= usize::MAX,
    ensures
        decoded(types, encoded(vals)) == Ok::<Seq<AbiModel>, DecodingError>(vals),
{
    lemma_heads_len(types, vals, vals.len());
    lemma_prefix_round_trip(types, vals, vals.len());
    assert(vals.take(vals.len() as int) =~= vals);
}

/// Two sequences of values of the same types that are laid out as the same
/// block are the same values.
pub proof fn lemma_encoding_is_injective(
    types: Seq<AbiType>,
    a: Seq<AbiModel>,
    b: Seq<AbiModel>,
)
    requires
        all_fit(types, a),
        all_fit(types, b),
        encoded(a) == encoded(b),
        encoded(a).len() <= usize::MAX,
    ensures
        a == b,
{
    lemma_decode_inverts_encode(types, a);
    lemma_decode_inverts_encode(types, b);
}

/// A one-word value that is read from a word lies in the domain of its type.
pub proof fn lemma_decoded_word_fits(t: WordType, w: Seq<u8>)
    requires
        w.len() == 32,
        decoded_word(t, w) is Some,
    ensures
        word_fits(t, decoded_word(t, w)->Some_0),
{
}

/// One-word values that are read from a block lie in the domain of their type.
pub proof fn lemma_decoded_words_fit(t: WordType, buf: Seq<u8>, start: int, k: nat)
    requires
        0 <= start,
        start + 32 * k <= buf.len(),
        decoded_words(t, buf, start, k) is Some,
    ensures
        decoded_words(t, buf, start, k)->Some_0.len() == k,
        words_fit(t, decoded_words(t, buf, start, k)->Some_0, k as int),
    decreases k,
{
    if k > 0 {
        lemma_decoded_words_fit(t, buf, start, (k - 1) as nat);
        lemma_decoded_word_fits(t, word_at(buf, start + 32 * (k - 1)));
    }
}

/// The values that are read from a block lie in the domains of the types
/// that they were read for, one value for each type.
pub proof fn lemma_decoded_values_fit(types: Seq<AbiType>, buf: Seq<u8>, k: nat)
    requires
        k <= types.len(),
        32 * types.len() <= buf.len(),
        decoded_upto(types, buf, k) is Ok,
    ensures
        decoded_upto(types, buf, k)->Ok_0.len() == k,
        fit_upto(types, decoded_upto(types, buf, k)->Ok_0, k as int),
    decreases k,
{
    if k > 0 {
        let i = k - 1;
        lemma_decoded_values_fit(types, buf, i as nat);
        let slot = word_at(buf, 32 * i);
        match types[i] {
            AbiType::Word(wt) => lemma_decoded_word_fits(wt, slot),
            AbiType::Array(wt) => {
                let start = be_value(slot) + 32;
                let count = be_value(word_at(buf, be_value(slot) as int));
                lemma_decoded_words_fit(wt, buf, start as int, count);
            },
            _ => {},
        }
    }
}

/// Decoding gives typed values: as many as there are types, each in the
/// domain of its type.
pub proof fn lemma_decoded_fits(types: Seq<AbiType>, buf: Seq<u8>)
    requires
        decoded(types, buf) is Ok,
    ensures
        all_fit(types, decoded(types, buf)->Ok_0),
{
    lemma_decoded_values_fit(types, buf, types.len());
}

} // verus!
