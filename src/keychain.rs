//! Keys over a curve whose field is not the scalar field: such a key is a
//! big unsigned integer, split into scalar words of `SCALAR_MAX_BYTES`
//! little-endian bytes each (a scalar holds 31 bytes without reduction).

use crate::ids::Scalar;
use vstd::arithmetic::power::{lemma_pow_positive, pow};
use vstd::prelude::*;

verus! {

/// The number of bytes of a big integer one scalar word holds
pub const SCALAR_MAX_BYTES: usize = 31;

/// The byte `j` (0 to 7, least significant first) of a limb
pub open spec fn limb_byte(x: u64, j: int) -> u8 {
    ((x >> (8 * j) as u64) & 0xff) as u8
}

/// The limb `k` (0 to 3, least significant first) of a scalar
pub open spec fn limb_at(s: Scalar, k: int) -> u64 {
    if k == 0 {
        s.limb0
    } else if k == 1 {
        s.limb1
    } else if k == 2 {
        s.limb2
    } else {
        s.limb3
    }
}

/// The 32 little-endian bytes of a scalar
pub open spec fn scalar_bytes(s: Scalar) -> Seq<u8> {
    Seq::new(32, |t: int| limb_byte(limb_at(s, t / 8), t % 8))
}

/// The value of little-endian bytes
pub open spec fn le_value(s: Seq<u8>) -> nat
    decreases s.len(),
{
    if s.len() == 0 {
        0
    } else {
        (le_value(s.drop_last()) + s.last() * pow(256, (s.len() - 1) as nat)) as nat
    }
}

/// Packs eight little-endian bytes into a limb
fn pack_limb(b: &Vec<u8>, at: usize) -> (r: u64)
    requires
        at + 8 <= b.len(),
    ensures
        forall|j: int| 0 <= j < 8 ==> #[trigger] limb_byte(r, j) == b@[at + j],
{
    let b0 = b[at] as u64;
    let b1 = b[at + 1] as u64;
    let b2 = b[at + 2] as u64;
    let b3 = b[at + 3] as u64;
    let b4 = b[at + 4] as u64;
    let b5 = b[at + 5] as u64;
    let b6 = b[at + 6] as u64;
    let b7 = b[at + 7] as u64;
    let x = b0 | (b1 << 8u64) | (b2 << 16u64) | (b3 << 24u64) | (b4 << 32u64) | (b5 << 40u64) | (b6 << 48u64) | (b7 << 56u64);
    assert(((x >> 0u64) & 0xff) == b0 && ((x >> 8u64) & 0xff) == b1 && ((x >> 16u64) & 0xff) == b2 && ((x >> 24u64) & 0xff) == b3
        && ((x >> 32u64) & 0xff) == b4 && ((x >> 40u64) & 0xff) == b5 && ((x >> 48u64) & 0xff) == b6 && ((x >> 56u64) & 0xff)
        == b7) by (bit_vector)
        requires
            b0 < 256 && b1 < 256 && b2 < 256 && b3 < 256 && b4 < 256 && b5 < 256 && b6 < 256 && b7 < 256,
            x == b0 | (b1 << 8u64) | (b2 << 16u64) | (b3 << 24u64) | (b4 << 32u64) | (b5 << 40u64) | (b6 << 48u64) | (b7 << 56u64),
    ;
    assert forall|j: int| 0 <= j < 8 implies #[trigger] limb_byte(x, j) == b@[at + j] by {
        if j == 0 {
            assert(limb_byte(x, 0) == ((x >> 0u64) & 0xff) as u8);
        } else if j == 1 {
            assert(limb_byte(x, 1) == ((x >> 8u64) & 0xff) as u8);
        } else if j == 2 {
            assert(limb_byte(x, 2) == ((x >> 16u64) & 0xff) as u8);
        } else if j == 3 {
            assert(limb_byte(x, 3) == ((x >> 24u64) & 0xff) as u8);
        } else if j == 4 {
            assert(limb_byte(x, 4) == ((x >> 32u64) & 0xff) as u8);
        } else if j == 5 {
            assert(limb_byte(x, 5) == ((x >> 40u64) & 0xff) as u8);
        } else if j == 6 {
            assert(limb_byte(x, 6) == ((x >> 48u64) & 0xff) as u8);
        } else {
            assert(limb_byte(x, 7) == ((x >> 56u64) & 0xff) as u8);
        }
    }
    x
}

impl Scalar {
    /// The scalar whose 32 little-endian bytes are given (the bytes must
    /// encode a value below the field modulus)
    pub fn from_le_bytes(b: &Vec<u8>) -> (r: Scalar)
        requires
            b@.len() == 32,
        ensures
            scalar_bytes(r) == b@,
    {
        let r = Scalar { limb0: pack_limb(b, 0), limb1: pack_limb(b, 8), limb2: pack_limb(b, 16), limb3: pack_limb(b, 24) };
        assert forall|t: int| 0 <= t < 32 implies #[trigger] scalar_bytes(r)[t] == b@[t] by {
            let k = t / 8;
            let j = t % 8;
            assert(t == 8 * k + j && 0 <= k < 4 && 0 <= j < 8) by (nonlinear_arith)
                requires 0 <= t < 32, k == t / 8, j == t % 8;
            assert(limb_byte(limb_at(r, k), j) == b@[8 * k + j]);
        }
        assert(scalar_bytes(r) =~= b@);
        r
    }

    /// The 32 little-endian bytes of the scalar
    pub fn to_le_bytes(&self) -> (r: Vec<u8>)
        ensures
            r@ == scalar_bytes(*self),
    {
        let mut r: Vec<u8> = Vec::new();
        let mut t: usize = 0;
        while t < 32
            invariant
                t <= 32,
                r@ =~= scalar_bytes(*self).subrange(0, t as int),
            decreases 32 - t,
        {
            let limb = if t < 8 {
                self.limb0
            } else if t < 16 {
                self.limb1
            } else if t < 24 {
                self.limb2
            } else {
                self.limb3
            };
            let shift = (8 * (t % 8)) as u64;
            let byte = ((limb >> shift) & 0xff) as u8;
            proof {
                assert(limb == limb_at(*self, t as int / 8));
            }
            r.push(byte);
            t = t + 1;
        }
        r
    }
}

/// A big unsigned integer, as its little-endian bytes without trailing
/// zeros
pub struct BigUint {
    bytes: Vec<u8>,
}

impl BigUint {
    /// The integer's value
    pub closed spec fn value(&self) -> nat {
        le_value(self.bytes@)
    }

    /// The integer's bytes
    pub closed spec fn bytes(&self) -> Seq<u8> {
        self.bytes@
    }

    /// The bytes have no trailing zero
    pub closed spec fn wf(&self) -> bool {
        self.bytes@.len() > 0 ==> self.bytes@.last() != 0
    }

    /// The integer of the given little-endian bytes
    pub fn from_bytes_le(b: &Vec<u8>) -> (r: BigUint)
        ensures
            r.wf(),
            r.value() == le_value(b@),
            r.bytes().len() <= b@.len(),
    {
        let mut bytes: Vec<u8> = Vec::new();
        let mut i: usize = 0;
        while i < b.len()
            invariant
                i <= b.len(),
                bytes@ == b@.subrange(0, i as int),
            decreases b.len() - i,
        {
            bytes.push(b[i]);
            i = i + 1;
            assert(bytes@ =~= b@.subrange(0, i as int));
        }
        assert(b@.subrange(0, i as int) =~= b@);
        while bytes.len() > 0 && bytes[bytes.len() - 1] == 0
            invariant
                le_value(bytes@) == le_value(b@),
                bytes@.len() <= b@.len(),
            decreases bytes.len(),
        {
            let ghost before = bytes@;
            assert(before.last() == 0);
            bytes.pop();
            proof {
                assert(before.drop_last() =~= bytes@);
                assert(le_value(before) == le_value(before.drop_last()) + before.last() * pow(256, (before.len() - 1) as nat));
            }
        }
        BigUint { bytes }
    }

    /// The integer's little-endian bytes
    pub fn to_bytes_le(&self) -> (r: Vec<u8>)
        ensures
            r@ == self.bytes(),
    {
        let mut r: Vec<u8> = Vec::new();
        let mut i: usize = 0;
        while i < self.bytes.len()
            invariant
                i <= self.bytes.len(),
                r@ == self.bytes@.subrange(0, i as int),
            decreases self.bytes.len() - i,
        {
            r.push(self.bytes[i]);
            i = i + 1;
            assert(r@ =~= self.bytes@.subrange(0, i as int));
        }
        assert(self.bytes@.subrange(0, i as int) =~= self.bytes@);
        r
    }
}

/// The bytes word `i` of a split takes: the `i`-th run of 31 bytes, padded
/// with zeros to 32 bytes
pub open spec fn word_chunk(bytes: Seq<u8>, i: int) -> Seq<u8> {
    Seq::new(32, |j: int| if j < 31 && 31 * i + j < bytes.len() { bytes[31 * i + j] } else { 0u8 })
}

/// The bytes of the words recombined: the first 31 bytes of each word, one
/// word after the other
pub open spec fn combined_bytes(words: Seq<Scalar>) -> Seq<u8> {
    Seq::new(31 * words.len(), |t: int| scalar_bytes(words[t / 31])[t % 31])
}

/// A key over a non-native curve, as scalar words
pub struct NonNativeKey {
    pub key_words: Vec<Scalar>,
}

impl NonNativeKey {
    /// Splits an integer into `key_words` scalar words of 31 bytes each,
    /// least significant first; words past the integer's bytes are zero
    pub fn split_biguint_into_words(val: &BigUint, key_words: usize) -> (r: NonNativeKey)
        ensures
            r.key_words@.len() == key_words,
            forall|i: int| 0 <= i < key_words ==> #[trigger] scalar_bytes(r.key_words@[i]) == word_chunk(val.bytes(), i),
    {
        let bytes = val.to_bytes_le();
        let mut words: Vec<Scalar> = Vec::new();
        let mut i: usize = 0;
        while i < key_words
            invariant
                i <= key_words,
                bytes@ == val.bytes(),
                words@.len() == i,
                forall|k: int| 0 <= k < i ==> #[trigger] scalar_bytes(words@[k]) == word_chunk(val.bytes(), k),
            decreases key_words - i,
        {
            let mut chunk: Vec<u8> = Vec::new();
            let mut j: usize = 0;
            while j < 32
                invariant
                    j <= 32,
                    i < key_words,
                    bytes@ == val.bytes(),
                    chunk@ =~= word_chunk(val.bytes(), i as int).subrange(0, j as int),
                decreases 32 - j,
            {
                let in_range = j < SCALAR_MAX_BYTES && (i as u128) * 31 + (j as u128) < bytes.len() as u128;
                let byte = if in_range {
                    proof {
                        assert(31 * i + j < bytes@.len());
                    }
                    bytes[31 * i + j]
                } else {
                    0u8
                };
                chunk.push(byte);
                j = j + 1;
            }
            let word = Scalar::from_le_bytes(&chunk);
            words.push(word);
            i = i + 1;
        }
        NonNativeKey { key_words: words }
    }

    /// Recombines the words into an integer: the first 31 bytes of each word,
    /// one word after the other
    pub fn combine_words_into_biguint(&self) -> (r: BigUint)
        requires
            31 * self.key_words@.len() <= usize::MAX,
        ensures
            r.wf(),
            r.value() == le_value(combined_bytes(self.key_words@)),
    {
        let mut bytes: Vec<u8> = Vec::new();
        let mut i: usize = 0;
        while i < self.key_words.len()
            invariant
                i <= self.key_words.len(),
                bytes@ =~= combined_bytes(self.key_words@).subrange(0, 31 * i),
            decreases self.key_words.len() - i,
        {
            let word_bytes = self.key_words[i].to_le_bytes();
            let mut j: usize = 0;
            while j < SCALAR_MAX_BYTES
                invariant
                    j <= 31,
                    i < self.key_words.len(),
                    word_bytes@ == scalar_bytes(self.key_words@[i as int]),
                    bytes@ =~= combined_bytes(self.key_words@).subrange(0, 31 * i + j),
                decreases 31 - j,
            {
                proof {
                    let t = 31 * i + j;
                    assert(t / 31 == i && t % 31 == j) by (nonlinear_arith)
                        requires t == 31 * i + j, 0 <= j < 31, i >= 0;
                    assert(t < 31 * self.key_words@.len()) by (nonlinear_arith)
                        requires t == 31 * i + j, j < 31, i < self.key_words@.len();
                }
                bytes.push(word_bytes[j]);
                j = j + 1;
            }
            i = i + 1;
        }
        assert(combined_bytes(self.key_words@).subrange(0, 31 * i) =~= combined_bytes(self.key_words@));
        BigUint::from_bytes_le(&bytes)
    }
}

// --------
// | Laws |
// --------

/// A trailing zero byte does not change the value
pub proof fn lemma_le_value_trailing_zeros(s: Seq<u8>, n: nat)
    ensures
        le_value(s + Seq::new(n, |i: int| 0u8)) == le_value(s),
    decreases n,
{
    if n > 0 {
        let t = s + Seq::new(n, |i: int| 0u8);
        assert(t.drop_last() =~= s + Seq::new((n - 1) as nat, |i: int| 0u8));
        lemma_le_value_trailing_zeros(s, (n - 1) as nat);
    }
}

/// Recombining the words of a split gives the integer's bytes followed by
/// zeros
pub proof fn lemma_split_combine_bytes(bytes: Seq<u8>, words: Seq<Scalar>)
    requires
        bytes.len() <= 31 * words.len(),
        forall|i: int| 0 <= i < words.len() ==> #[trigger] scalar_bytes(words[i]) == word_chunk(bytes, i),
    ensures
        combined_bytes(words) == bytes + Seq::new((31 * words.len() - bytes.len()) as nat, |i: int| 0u8),
{
    let c = combined_bytes(words);
    let z = bytes + Seq::new((31 * words.len() - bytes.len()) as nat, |i: int| 0u8);
    assert forall|t: int| 0 <= t < c.len() implies c[t] == z[t] by {
        let i = t / 31;
        let j = t % 31;
        assert(t == 31 * i + j && 0 <= j < 31 && 0 <= i < words.len()) by (nonlinear_arith)
            requires 0 <= t < 31 * words.len(), i == t / 31, j == t % 31;
        assert(scalar_bytes(words[i]) == word_chunk(bytes, i));
    }
    assert(c =~= z);
}

/// The value of bytes is below 256 to the power of their length, and a
/// last byte that is not zero makes it at least 256 to the length less one
pub proof fn lemma_le_value_bounds(s: Seq<u8>)
    ensures
        le_value(s) < pow(256, s.len()),
        s.len() > 0 && s.last() != 0 ==> le_value(s) >= pow(256, (s.len() - 1) as nat),
    decreases s.len(),
{
    if s.len() > 0 {
        lemma_le_value_bounds(s.drop_last());
        let n = (s.len() - 1) as nat;
        let p = pow(256, n);
        lemma_pow_positive(256, n);
        assert(pow(256, n + 1) == 256 * p) by {
            vstd::arithmetic::power::lemma_pow_adds(256, n, 1);
            vstd::arithmetic::power::lemma_pow1(256);
        }
        assert(le_value(s.drop_last()) + s.last() * p < 256 * p) by (nonlinear_arith)
            requires le_value(s.drop_last()) < p, s.last() < 256, p > 0;
        assert(s.last() != 0 ==> s.last() * p >= p) by (nonlinear_arith)
            requires p > 0;
    } else {
        vstd::arithmetic::power::lemma_pow0(256);
    }
}

/// Splitting an integer below 256 to the power 31 times the number of words
/// into words and recombining them gives the integer back.
pub proof fn lemma_split_combine_round_trip(n: BigUint, key_words: nat, words: Seq<Scalar>)
    requires
        n.wf(),
        n.value() < pow(256, 31 * key_words),
        words.len() == key_words,
        forall|i: int| 0 <= i < key_words ==> #[trigger] scalar_bytes(words[i]) == word_chunk(n.bytes(), i),
    ensures
        le_value(combined_bytes(words)) == n.value(),
{
    let b = n.bytes();
    lemma_le_value_bounds(b);
    if b.len() > 31 * key_words {
        vstd::arithmetic::power::lemma_pow_increases(256, 31 * key_words, (b.len() - 1) as nat);
    }
    lemma_split_combine_bytes(b, words);
    lemma_le_value_trailing_zeros(b, (31 * key_words - b.len()) as nat);
}

} // verus!
