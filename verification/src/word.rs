//! Big-endian numbers: 256-bit words and the byte strings they are made of.

use vstd::prelude::*;

verus! {

/// 256 to the power of `n`.
pub open spec fn pow256(n: nat) -> nat
    decreases n,
{
    if n == 0 {
        1
    } else {
        256 * pow256((n - 1) as nat)
    }
}

/// The number that a byte string denotes when read big-endian.
pub open spec fn be_value(bytes: Seq<u8>) -> nat
    decreases bytes.len(),
{
    if bytes.len() == 0 {
        0
    } else {
        be_value(bytes.drop_last()) * 256 + bytes.last() as nat
    }
}

/// The big-endian byte string of length `len` for `n`, reduced modulo `256^len`.
pub open spec fn be_bytes(n: nat, len: nat) -> Seq<u8>
    decreases len,
{
    if len == 0 {
        Seq::empty()
    } else {
        be_bytes(n / 256, (len - 1) as nat).push((n % 256) as u8)
    }
}

/// The 32-byte word that stands for `n`.
pub open spec fn word_of(n: nat) -> Seq<u8> {
    be_bytes(n, 32)
}

pub proof fn lemma_pow256_positive(n: nat)
    ensures
        pow256(n) >= 1,
    decreases n,
{
    if n > 0 {
        lemma_pow256_positive((n - 1) as nat);
    }
}

pub proof fn lemma_pow256_values()
    ensures
        pow256(0) == 1,
        pow256(1) == 0x100,
        pow256(8) == 0x1_0000_0000_0000_0000,
        pow256(16) == 0x1_0000_0000_0000_0000_0000_0000_0000_0000,
{
    reveal_with_fuel(pow256, 17);
}

pub proof fn lemma_be_bytes_len(n: nat, len: nat)
    ensures
        be_bytes(n, len).len() == len,
    decreases len,
{
    if len > 0 {
        lemma_be_bytes_len(n / 256, (len - 1) as nat);
    }
}

/// A byte string of length `k` denotes a number below `256^k`.
pub proof fn lemma_be_value_bound(bytes: Seq<u8>)
    ensures
        be_value(bytes) < pow256(bytes.len()),
    decreases bytes.len(),
{
    if bytes.len() > 0 {
        lemma_be_value_bound(bytes.drop_last());
        let hi = be_value(bytes.drop_last());
        let p = pow256((bytes.len() - 1) as nat);
        assert(hi * 256 + 255 < p * 256) by (nonlinear_arith)
            requires
                hi < p,
        ;
    }
}

/// Reading back the bytes written for `n` gives `n`, where `n` fits.
pub proof fn lemma_be_value_of_bytes(n: nat, len: nat)
    requires
        n < pow256(len),
    ensures
        be_value(be_bytes(n, len)) == n,
        be_bytes(n, len).len() == len,
    decreases len,
{
    lemma_be_bytes_len(n, len);
    if len > 0 {
        let rest = (len - 1) as nat;
        assert(n / 256 < pow256(rest)) by (nonlinear_arith)
            requires
                n < 256 * pow256(rest),
        ;
        lemma_be_value_of_bytes(n / 256, rest);
        let s = be_bytes(n, len);
        assert(s.drop_last() =~= be_bytes(n / 256, rest));
        assert(s.last() == (n % 256) as u8);
    }
}

/// Writing the number that a byte string denotes gives the byte string back.
pub proof fn lemma_be_bytes_of_value(bytes: Seq<u8>)
    ensures
        be_bytes(be_value(bytes), bytes.len()) == bytes,
    decreases bytes.len(),
{
    if bytes.len() > 0 {
        let front = bytes.drop_last();
        lemma_be_bytes_of_value(front);
        let v = be_value(bytes);
        let hi = be_value(front);
        let lo = bytes.last() as nat;
        assert(v / 256 == hi && v % 256 == lo) by (nonlinear_arith)
            requires
                v == hi * 256 + lo,
                lo < 256,
        ;
        assert(be_bytes(v, bytes.len()) =~= bytes);
    } else {
        assert(be_bytes(be_value(bytes), 0) =~= bytes);
    }
}

/// A prefix already fixes the number from below.
pub proof fn lemma_be_value_prefix(bytes: Seq<u8>, i: int)
    requires
        0 <= i <= bytes.len(),
    ensures
        be_value(bytes) >= be_value(bytes.take(i)) * pow256((bytes.len() - i) as nat),
    decreases bytes.len() - i,
{
    if i == bytes.len() {
        assert(bytes.take(i) =~= bytes);
        assert(pow256(0) == 1);
        assert(be_value(bytes) * 1 == be_value(bytes));
    } else {
        let front = bytes.drop_last();
        lemma_be_value_prefix(front, i);
        assert(front.take(i) =~= bytes.take(i));
        let a = be_value(bytes.take(i));
        let p = pow256((bytes.len() - 1 - i) as nat);
        let f = be_value(front);
        assert(pow256((bytes.len() - i) as nat) == 256 * p);
        assert(f * 256 >= a * (256 * p)) by (nonlinear_arith)
            requires
                f >= a * p,
        ;
    }
}

/// An unsigned 256-bit number, held as its 32 big-endian bytes.
#[derive(Clone, Copy, Debug, PartialEq, Eq)]
pub struct U256 {
    pub bytes: [u8; 32],
}

impl U256 {
    /// The number that the word denotes.
    pub open spec fn value(self) -> nat {
        be_value(self.bytes@)
    }

    pub fn zero() -> (r: U256)
        ensures
            r.value() == 0,
            r.bytes@ == word_of(0),
    {
        U256::from_u128(0)
    }

    pub fn from_u64(x: u64) -> (r: U256)
        ensures
            r.value() == x,
            r.bytes@ == word_of(x as nat),
    {
        U256::from_u128(x as u128)
    }

    pub fn from_u128(x: u128) -> (r: U256)
        ensures
            r.value() == x,
            r.bytes@ == word_of(x as nat),
    {
        let mut bytes: [u8; 32] = [0u8; 32];
        let mut rem: u128 = x;
        let mut k: usize = 0;
        assert(be_bytes(rem as nat, 32) + bytes@.skip(32) =~= word_of(x as nat)) by {
            lemma_be_bytes_len(rem as nat, 32);
        }
        while k < 32
            invariant
                k <= 32,
                word_of(x as nat) == be_bytes(rem as nat, (32 - k) as nat) + bytes@.skip(32 - k),
            decreases 32 - k,
        {
            let ghost before = bytes@;
            let ghost old_rem = rem as nat;
            bytes[31 - k] = (rem % 256) as u8;
            rem = rem / 256;
            proof {
                let left = (31 - k) as nat;
                lemma_be_bytes_len(rem as nat, left);
                lemma_be_bytes_len(old_rem, left + 1);
                assert(be_bytes(old_rem, left + 1) == be_bytes(rem as nat, left).push(
                    (old_rem % 256) as u8,
                ));
                assert(be_bytes(old_rem, left + 1) + before.skip(32 - k) =~= be_bytes(
                    rem as nat,
                    left,
                ) + bytes@.skip(31 - k));
            }
            k += 1;
        }
        proof {
            assert(be_bytes(rem as nat, 0) + bytes@.skip(0) =~= bytes@);
            lemma_u128_below_word(x as nat);
            lemma_be_value_of_bytes(x as nat, 32);
        }
        U256 { bytes }
    }

    /// The number as a `u128`, where it fits.
    pub fn to_u128(&self) -> (r: Option<u128>)
        ensures
            match r {
                Some(v) => v == self.value(),
                None => self.value() > u128::MAX,
            },
    {
        let mut acc: u128 = 0;
        let mut i: usize = 0;
        assert(self.bytes@.take(0) =~= Seq::<u8>::empty());
        while i < 32
            invariant
                i <= 32,
                acc == be_value(self.bytes@.take(i as int)),
            decreases 32 - i,
        {
            if acc > u128::MAX / 256 {
                proof {
                    let rest = (32 - i) as nat;
                    lemma_be_value_prefix(self.bytes@, i as int);
                    lemma_pow256_positive((rest - 1) as nat);
                    assert(acc * pow256(rest) > u128::MAX) by (nonlinear_arith)
                        requires
                            acc >= 0x100_0000_0000_0000_0000_0000_0000_0000,
                            pow256(rest) >= 256,
                    ;
                }
                return None;
            }
            let b: u8 = self.bytes[i];
            proof {
                let next = self.bytes@.take(i + 1);
                assert(next.drop_last() =~= self.bytes@.take(i as int));
                assert(next.last() == b);
            }
            acc = acc * 256 + b as u128;
            i += 1;
        }
        assert(self.bytes@.take(32) =~= self.bytes@);
        Some(acc)
    }

    /// Whether the number is below `256^m`, that is fits in `m` bytes.
    pub fn fits_bytes(&self, m: usize) -> (r: bool)
        ensures
            r == (self.value() < pow256(m as nat)),
    {
        if m >= 32 {
            proof {
                lemma_be_value_bound(self.bytes@);
                lemma_pow256_monotonic(32, m as nat);
            }
            return true;
        }
        let k: usize = 32 - m;
        let mut i: usize = 0;
        proof {
            lemma_word_below_pow(self.bytes@, m as nat);
        }
        while i < k
            invariant
                i <= k,
                k == 32 - m,
                m <= 32,
                leading_zeros(self.bytes@, i as int),
                (self.value() < pow256(m as nat)) == leading_zeros(self.bytes@, k as int),
            decreases k - i,
        {
            if self.bytes[i] != 0 {
                assert(self.bytes@[i as int] != 0);
                return false;
            }
            i += 1;
        }
        true
    }

    /// The number as a `usize`, where it fits.
    pub fn to_usize(&self) -> (r: Option<usize>)
        ensures
            match r {
                Some(v) => v == self.value(),
                None => self.value() > usize::MAX,
            },
    {
        match self.to_u64() {
            Some(v) => if v <= usize::MAX as u64 {
                Some(v as usize)
            } else {
                None
            },
            None => None,
        }
    }

    pub fn from_usize(x: usize) -> (r: U256)
        ensures
            r.value() == x,
            r.bytes@ == word_of(x as nat),
    {
        U256::from_u64(x as u64)
    }

    /// The number as a `u64`, where it fits.
    pub fn to_u64(&self) -> (r: Option<u64>)
        ensures
            match r {
                Some(v) => v == self.value(),
                None => self.value() > u64::MAX,
            },
    {
        match self.to_u128() {
            Some(v) => if v <= u64::MAX as u128 {
                Some(v as u64)
            } else {
                None
            },
            None => None,
        }
    }
}

/// `n` zero bytes.
pub open spec fn zeros(n: nat) -> Seq<u8> {
    Seq::new(n, |i: int| 0u8)
}

/// Whether the first `k` bytes are all zero.
pub open spec fn leading_zeros(bytes: Seq<u8>, k: int) -> bool {
    forall|i: int| 0 <= i < k ==> bytes[i] == 0
}

pub proof fn lemma_pow256_monotonic(a: nat, b: nat)
    requires
        a <= b,
    ensures
        pow256(a) <= pow256(b),
    decreases b,
{
    if a < b {
        lemma_pow256_monotonic(a, (b - 1) as nat);
        lemma_pow256_positive((b - 1) as nat);
    }
}

/// Zero bytes in front do not change the number.
pub proof fn lemma_be_value_skip_zeros(bytes: Seq<u8>, k: int)
    requires
        0 <= k <= bytes.len(),
        leading_zeros(bytes, k),
    ensures
        be_value(bytes) == be_value(bytes.skip(k)),
    decreases bytes.len(),
{
    if bytes.len() == k {
        if k > 0 {
            let front = bytes.drop_last();
            lemma_be_value_skip_zeros(front, k - 1);
            assert(front.skip(k - 1) =~= Seq::<u8>::empty());
            assert(bytes.last() == bytes[k - 1]);
        }
        assert(bytes.skip(k) =~= Seq::<u8>::empty());
    } else {
        let front = bytes.drop_last();
        lemma_be_value_skip_zeros(front, k);
        assert(bytes.skip(k).drop_last() =~= front.skip(k));
        assert(bytes.skip(k).last() == bytes.last());
    }
}

/// A word is below `256^m` exactly when all but its last `m` bytes are zero.
pub proof fn lemma_word_below_pow(bytes: Seq<u8>, m: nat)
    requires
        m <= bytes.len(),
    ensures
        be_value(bytes) < pow256(m) <==> leading_zeros(bytes, bytes.len() - m),
{
    let k = bytes.len() - m;
    if leading_zeros(bytes, k) {
        lemma_be_value_skip_zeros(bytes, k);
        lemma_be_value_bound(bytes.skip(k));
    } else {
        let j = choose|j: int| 0 <= j < k && bytes[j] != 0;
        lemma_be_value_prefix(bytes, j + 1);
        let head = bytes.take(j + 1);
        assert(head.last() == bytes[j]);
        assert(be_value(head) >= 1);
        let rest = (bytes.len() - (j + 1)) as nat;
        lemma_pow256_monotonic(m, rest);
        assert(be_value(head) * pow256(rest) >= pow256(rest)) by (nonlinear_arith)
            requires
                be_value(head) >= 1,
        ;
    }
}

/// The word for a number below `256^32` has that number as its value.
pub proof fn lemma_word_of_value(n: nat)
    requires
        n < pow256(32),
    ensures
        be_value(word_of(n)) == n,
        word_of(n).len() == 32,
{
    lemma_be_value_of_bytes(n, 32);
}

/// Every `u128`, and so every length of a buffer in memory, is below `256^32`.
pub proof fn lemma_u128_below_word(n: nat)
    requires
        n <= u128::MAX,
    ensures
        n < pow256(32),
{
    lemma_pow256_values();
    lemma_pow256_monotonic(16, 32);
}

/// Copies the 32 bytes that start at `at`.
pub(crate) fn read_word(buf: &[u8], at: usize) -> (r: U256)
    requires
        at + 32 <= buf@.len(),
    ensures
        r.bytes@ == buf@.subrange(at as int, at + 32),
{
    let mut bytes: [u8; 32] = [0u8; 32];
    let mut i: usize = 0;
    let n: usize = buf.len();
    while i < 32
        invariant
            i <= 32,
            n == buf@.len(),
            at + 32 <= n,
            forall|j: int| 0 <= j < i ==> bytes@[j] == buf@[at + j],
        decreases 32 - i,
    {
        bytes[i] = buf[at + i];
        i += 1;
    }
    assert(bytes@ =~= buf@.subrange(at as int, at + 32));
    U256 { bytes }
}

} // verus!
