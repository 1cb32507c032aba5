//! Fixed-width 256-bit words, stored as 32 big-endian bytes.

use vstd::prelude::*;

verus! {

/// The number `256^n`.
pub open spec fn pow256(n: nat) -> nat
    decreases n,
{
    if n == 0 {
        1
    } else {
        256 * pow256((n - 1) as nat)
    }
}

/// The unsigned number that a big-endian byte string denotes.
pub open spec fn be_value(s: Seq<u8>) -> nat
    decreases s.len(),
{
    if s.len() == 0 {
        0
    } else {
        be_value(s.drop_last()) * 256 + (s.last() as nat)
    }
}

/// A big-endian number of `n` bytes is below `256^n`.
pub proof fn lemma_be_value_bound(s: Seq<u8>)
    ensures
        be_value(s) < pow256(s.len()),
    decreases s.len(),
{
    if s.len() > 0 {
        let d = s.drop_last();
        lemma_be_value_bound(d);
        let p = pow256(d.len());
        let v = be_value(d);
        let l = s.last() as nat;
        assert(v * 256 + l < p * 256) by (nonlinear_arith)
            requires
                v < p,
                l < 256,
        ;
    }
}

/// Concatenating big-endian byte strings shifts the first by the length of the second.
pub proof fn lemma_be_value_concat(a: Seq<u8>, b: Seq<u8>)
    ensures
        be_value(a + b) == be_value(a) * pow256(b.len()) + be_value(b),
    decreases b.len(),
{
    if b.len() == 0 {
        assert(a + b =~= a);
        assert(pow256(0) == 1);
        assert(be_value(b) == 0);
        assert(be_value(a) * 1 == be_value(a));
    } else {
        let b0 = b.drop_last();
        lemma_be_value_concat(a, b0);
        assert((a + b).drop_last() =~= a + b0);
        assert((a + b).last() == b.last());
        let x = be_value(a);
        let p = pow256(b0.len());
        let y = be_value(b0);
        let l = b.last() as nat;
        assert((x * p + y) * 256 + l == x * (256 * p) + (y * 256 + l)) by (nonlinear_arith);
        assert(pow256(b.len()) == 256 * p);
        assert(be_value(b) == y * 256 + l);
        assert(be_value(a + b) == be_value(a + b0) * 256 + l);
        assert(be_value(a + b) == x * pow256(b.len()) + be_value(b));
    }
}

/// Two big-endian strings of one length compare as numbers at their first differing byte.
pub proof fn lemma_be_value_first_difference(a: Seq<u8>, b: Seq<u8>, k: int)
    requires
        a.len() == b.len(),
        0 <= k < a.len(),
        a.take(k) == b.take(k),
        a[k] < b[k],
    ensures
        be_value(a) < be_value(b),
{
    let n = a.len();
    let ha = a.take(k + 1);
    let hb = b.take(k + 1);
    let ta = a.skip(k + 1);
    let tb = b.skip(k + 1);
    assert(a =~= ha + ta);
    assert(b =~= hb + tb);
    lemma_be_value_concat(ha, ta);
    lemma_be_value_concat(hb, tb);
    assert(ha.drop_last() =~= a.take(k));
    assert(hb.drop_last() =~= b.take(k));
    lemma_be_value_bound(ta);
    assert(ta.len() == tb.len());
    let p = pow256(ta.len());
    let pre = be_value(a.take(k));
    let xa = a[k] as nat;
    let xb = b[k] as nat;
    let ra = be_value(ta);
    let rb = be_value(tb);
    assert((pre * 256 + xa) * p + ra < (pre * 256 + xb) * p + rb) by (nonlinear_arith)
        requires
            xa < xb,
            ra < p,
    ;
}

/// Powers of 256 grow with the exponent.
pub proof fn lemma_pow256_monotone(a: nat, b: nat)
    requires
        a <= b,
    ensures
        pow256(a) <= pow256(b),
    decreases b,
{
    if a < b {
        lemma_pow256_monotone(a, (b - 1) as nat);
        lemma_pow256_positive((b - 1) as nat);
    }
}

/// A run of zero bytes denotes zero.
pub proof fn lemma_be_value_zeros(s: Seq<u8>)
    requires
        forall|i: int| 0 <= i < s.len() ==> s[i] == 0,
    ensures
        be_value(s) == 0,
    decreases s.len(),
{
    if s.len() > 0 {
        lemma_be_value_zeros(s.drop_last());
    }
}

/// The 32 big-endian bytes of a 64-bit number widened to 256 bits.
pub open spec fn u64_word_bytes(n: u64) -> Seq<u8> {
    Seq::new(
        32,
        |i: int|
            if i < 24 {
                0u8
            } else {
                ((n as nat / pow256((31 - i) as nat)) % 256) as u8
            },
    )
}

/// The byte-wise AND of two equally long byte strings.
pub open spec fn bytes_and(a: Seq<u8>, b: Seq<u8>) -> Seq<u8> {
    Seq::new(a.len(), |i: int| a[i] & b[i])
}

/// The name of the Keccak-256 digest of a byte string.
pub uninterp spec fn keccak256_digest(data: Seq<u8>) -> Seq<u8>;

/// Keccak-256 of `data`, computed by `alloy_primitives::keccak256`.
///
/// The contract claims only that the digest is a function of the bytes hashed,
/// named `keccak256_digest`; it says nothing of the digest's value.
#[verifier::external_body]
pub(crate) fn keccak256(data: &[u8]) -> (digest: Word256)
    ensures
        digest@ == keccak256_digest(data@),
{
    Word256 { bytes: alloy_primitives::keccak256(data).0 }
}

/// The last `j` bytes of a widened 64-bit number denote it modulo `256^j`.
pub proof fn lemma_u64_word_tail(n: u64, j: nat)
    requires
        j <= 8,
    ensures
        be_value(u64_word_bytes(n).skip(32 - j)) == n as nat % pow256(j),
    decreases j,
{
    let w = u64_word_bytes(n);
    if j == 0 {
        assert(w.skip(32) =~= Seq::<u8>::empty());
        assert(be_value(Seq::<u8>::empty()) == 0);
        assert(n as nat % 1 == 0);
    } else {
        let j0 = (j - 1) as nat;
        lemma_u64_word_tail(n, j0);
        let t = w.skip(32 - j0);
        let t1 = w.skip(32 - j);
        let x = w[32 - j];
        assert(t1 =~= seq![x] + t);
        lemma_be_value_concat(seq![x], t);
        assert(seq![x].drop_last() =~= Seq::<u8>::empty());
        assert(be_value(Seq::<u8>::empty()) == 0);
        assert(be_value(seq![x]) == x as nat);
        assert(pow256(j) == 256 * pow256(j0));
        let p = pow256(j0);
        lemma_pow256_positive(j0);
        assert(x as nat == (n as nat / p) % 256);
        vstd::arithmetic::div_mod::lemma_mod_breakdown(n as int, p as int, 256);
        assert(p * 256 == 256 * p) by (nonlinear_arith);
        assert(x as nat * p == p * x as nat) by (nonlinear_arith);
    }
}

/// Widening a 64-bit number to a word keeps its value.
pub proof fn lemma_u64_word_value(n: u64)
    ensures
        be_value(u64_word_bytes(n)) == n,
{
    let w = u64_word_bytes(n);
    lemma_u64_word_tail(n, 8);
    lemma_pow256_small();
    vstd::arithmetic::div_mod::lemma_small_mod(n as nat, pow256(8));
    assert(w =~= w.take(24) + w.skip(24));
    lemma_be_value_concat(w.take(24), w.skip(24));
    lemma_be_value_zeros(w.take(24));
}

/// The powers of 256 that a 64-bit number spans.
pub proof fn lemma_pow256_small()
    ensures
        pow256(7) == 0x100_0000_0000_0000,
        pow256(8) == 0x1_0000_0000_0000_0000,
{
    assert(pow256(0) == 1);
    assert(pow256(1) == 0x100);
    assert(pow256(2) == 0x1_0000);
    assert(pow256(3) == 0x100_0000);
    assert(pow256(4) == 0x1_0000_0000);
    assert(pow256(5) == 0x100_0000_0000);
    assert(pow256(6) == 0x1_0000_0000_0000);
    assert(pow256(7) == 0x100_0000_0000_0000);
}

/// Every power of 256 is positive.
pub proof fn lemma_pow256_positive(n: nat)
    ensures
        pow256(n) > 0,
    decreases n,
{
    if n > 0 {
        lemma_pow256_positive((n - 1) as nat);
    }
}

/// A 256-bit word: an unsigned integer or a hash, as 32 big-endian bytes.
#[derive(Clone, Copy, Debug)]
pub struct Word256 {
    pub bytes: [u8; 32],
}

impl View for Word256 {
    type V = Seq<u8>;

    open spec fn view(&self) -> Seq<u8> {
        self.bytes@
    }
}

impl Word256 {
    /// The number that the word denotes.
    pub open spec fn value(self) -> nat {
        be_value(self@)
    }

    /// Wraps 32 big-endian bytes.
    pub fn from_bytes(bytes: [u8; 32]) -> (w: Word256)
        ensures
            w@ == bytes@,
    {
        Word256 { bytes }
    }

    /// The 64-bit number `n` widened to 256 bits.
    pub fn from_u64(n: u64) -> (w: Word256)
        ensures
            w@ == u64_word_bytes(n),
            w.value() == n,
    {
        let mut bytes = [0u8; 32];
        let mut p: u64 = 1;
        let mut j: usize = 0;
        while j < 8
            invariant
                0 <= j <= 8,
                p > 0,
                j < 8 ==> p == pow256(j as nat),
                bytes@.len() == 32,
                forall|i: int| 0 <= i < 32 - j ==> bytes@[i] == 0,
                forall|i: int| 32 - j <= i < 32 ==> bytes@[i] == u64_word_bytes(n)[i],
            decreases 8 - j,
        {
            bytes[31 - j] = ((n / p) % 256) as u8;
            assert(bytes@[31 - j as int] == u64_word_bytes(n)[31 - j as int]);
            if j < 7 {
                assert(pow256((j + 1) as nat) == 256 * pow256(j as nat));
                proof {
                    lemma_pow256_small();
                    lemma_pow256_monotone(j as nat, 6);
                }
                p = p * 256;
            }
            j = j + 1;
        }
        assert(bytes@ =~= u64_word_bytes(n));
        proof {
            lemma_u64_word_value(n);
        }
        Word256 { bytes }
    }

    /// Byte-wise AND of two words.
    pub fn and(&self, other: &Word256) -> (w: Word256)
        ensures
            w@ == bytes_and(self@, other@),
    {
        let mut bytes = [0u8; 32];
        let mut i: usize = 0;
        while i < 32
            invariant
                0 <= i <= 32,
                bytes@.len() == 32,
                self@.len() == 32,
                other@.len() == 32,
                forall|k: int| 0 <= k < i ==> bytes@[k] == self@[k] & other@[k],
            decreases 32 - i,
        {
            bytes[i] = self.bytes[i] & other.bytes[i];
            i = i + 1;
        }
        assert(bytes@ =~= bytes_and(self@, other@));
        Word256 { bytes }
    }

    /// Numeric order of the two words.
    pub fn less_than(&self, other: &Word256) -> (lt: bool)
        ensures
            lt == (self.value() < other.value()),
    {
        let mut i: usize = 0;
        while i < 32
            invariant
                0 <= i <= 32,
                self@.len() == 32,
                other@.len() == 32,
                self@.take(i as int) == other@.take(i as int),
            decreases 32 - i,
        {
            let x = self.bytes[i];
            let y = other.bytes[i];
            if x < y {
                proof {
                    lemma_be_value_first_difference(self@, other@, i as int);
                }
                return true;
            } else if y < x {
                proof {
                    lemma_be_value_first_difference(other@, self@, i as int);
                }
                return false;
            }
            assert(self@.take(i + 1) =~= self@.take(i as int).push(self@[i as int]));
            assert(other@.take(i + 1) =~= other@.take(i as int).push(other@[i as int]));
            i = i + 1;
        }
        assert(self@ =~= self@.take(32));
        assert(other@ =~= other@.take(32));
        false
    }

    /// Byte-wise equality.
    pub fn equals(&self, other: &Word256) -> (eq: bool)
        ensures
            eq == (self@ == other@),
    {
        let mut i: usize = 0;
        while i < 32
            invariant
                0 <= i <= 32,
                self@.len() == 32,
                other@.len() == 32,
                self@.take(i as int) == other@.take(i as int),
            decreases 32 - i,
        {
            if self.bytes[i] != other.bytes[i] {
                return false;
            }
            assert(self@.take(i + 1) =~= self@.take(i as int).push(self@[i as int]));
            assert(other@.take(i + 1) =~= other@.take(i as int).push(other@[i as int]));
            i = i + 1;
        }
        assert(self@ =~= self@.take(32));
        assert(other@ =~= other@.take(32));
        true
    }
}

} // verus!
