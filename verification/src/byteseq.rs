//! Small executable helpers on byte vectors and slices.

use vstd::prelude::*;

verus! {

/// The sequence of views of a list of byte strings.
pub open spec fn hashes_view(v: Seq<Vec<u8>>) -> Seq<Seq<u8>> {
    Seq::new(v.len(), |i: int| v[i]@)
}

/// Copy a byte vector.
pub fn copy_bytes(b: &Vec<u8>) -> (r: Vec<u8>)
    ensures
        r@ == b@,
{
    let mut r: Vec<u8> = Vec::new();
    let mut i: usize = 0;
    while i < b.len()
        invariant
            i <= b@.len(),
            r@ == b@.subrange(0, i as int),
        decreases b@.len() - i,
    {
        r.push(b[i]);
        i += 1;
        proof {
            assert(r@ =~= b@.subrange(0, i as int));
        }
    }
    proof {
        assert(r@ =~= b@);
    }
    r
}

/// Copy the bytes of `b` from `start` (inclusive) to `end` (exclusive).
pub fn copy_slice_range(b: &[u8], start: usize, end: usize) -> (r: Vec<u8>)
    requires
        start <= end <= b@.len(),
    ensures
        r@ == b@.subrange(start as int, end as int),
{
    let mut r: Vec<u8> = Vec::new();
    let mut i: usize = start;
    while i < end
        invariant
            start <= i <= end <= b@.len(),
            r@ == b@.subrange(start as int, i as int),
        decreases end - i,
    {
        r.push(b[i]);
        i += 1;
        proof {
            assert(r@ =~= b@.subrange(start as int, i as int));
        }
    }
    r
}

/// Copy a list of byte vectors.
pub fn copy_hashes(v: &Vec<Vec<u8>>) -> (r: Vec<Vec<u8>>)
    ensures
        hashes_view(r@) == hashes_view(v@),
        r@.len() == v@.len(),
{
    let mut r: Vec<Vec<u8>> = Vec::new();
    let mut i: usize = 0;
    while i < v.len()
        invariant
            i <= v@.len(),
            r@.len() == i,
            forall|k: int| 0 <= k < i ==> (#[trigger] r@[k])@ == v@[k]@,
        decreases v@.len() - i,
    {
        r.push(copy_bytes(&v[i]));
        i += 1;
    }
    proof {
        assert(hashes_view(r@) =~= hashes_view(v@));
    }
    r
}

/// Byte-for-byte equality of two vectors.
pub fn bytes_eq(a: &Vec<u8>, b: &Vec<u8>) -> (r: bool)
    ensures
        r == (a@ == b@),
{
    if a.len() != b.len() {
        return false;
    }
    let mut i: usize = 0;
    while i < a.len()
        invariant
            a@.len() == b@.len(),
            i <= a@.len(),
            forall|k: int| 0 <= k < i ==> a@[k] == b@[k],
        decreases a@.len() - i,
    {
        if a[i] != b[i] {
            return false;
        }
        i += 1;
    }
    proof {
        assert(a@ =~= b@);
    }
    true
}

/// Equality of two optional byte vectors.
pub fn opt_bytes_eq(a: &Option<Vec<u8>>, b: &Option<Vec<u8>>) -> (r: bool)
    ensures
        r == match (a, b) {
            (Some(x), Some(y)) => x@ == y@,
            (None, None) => true,
            _ => false,
        },
{
    match (a, b) {
        (Some(x), Some(y)) => bytes_eq(x, y),
        (None, None) => true,
        _ => false,
    }
}

/// The `k` little-endian bytes of `n`: low byte first.
pub open spec fn le_bytes(n: nat, k: nat) -> Seq<u8>
    decreases k,
{
    if k == 0 {
        Seq::empty()
    } else {
        seq![(n % 256) as u8] + le_bytes(n / 256, (k - 1) as nat)
    }
}

/// The value of a little-endian byte string.
pub open spec fn le_word(s: Seq<u8>) -> nat
    decreases s.len(),
{
    if s.len() == 0 {
        0
    } else {
        s[0] as nat + 256 * le_word(s.skip(1))
    }
}

/// `256^k`.
pub open spec fn pow256le(k: nat) -> nat
    decreases k,
{
    if k == 0 {
        1
    } else {
        256 * pow256le((k - 1) as nat)
    }
}

pub proof fn lemma_le_round(n: nat, k: nat)
    requires
        n < pow256le(k),
    ensures
        le_bytes(n, k).len() == k,
        le_word(le_bytes(n, k)) == n,
    decreases k,
{
    if k > 0 {
        assert(n / 256 < pow256le((k - 1) as nat));
        lemma_le_round(n / 256, (k - 1) as nat);
        let s = le_bytes(n, k);
        assert(s == seq![(n % 256) as u8] + le_bytes(n / 256, (k - 1) as nat));
        assert(s.skip(1) =~= le_bytes(n / 256, (k - 1) as nat));
        assert(s[0] == (n % 256) as u8);
    }
}

pub proof fn lemma_le_word_bound(s: Seq<u8>)
    ensures
        le_word(s) < pow256le(s.len()),
    decreases s.len(),
{
    if s.len() > 0 {
        lemma_le_word_bound(s.skip(1));
    }
}

pub proof fn lemma_pow256le_values()
    ensures
        pow256le(4) == 0x1_0000_0000,
        pow256le(7) == 0x100_0000_0000_0000,
        pow256le(8) == 0x1_0000_0000_0000_0000,
{
    reveal_with_fuel(pow256le, 9);
}

pub proof fn lemma_pow256le_mono(a: nat, b: nat)
    requires
        a <= b,
    ensures
        pow256le(a) <= pow256le(b),
    decreases b,
{
    if a < b && b > 0 {
        lemma_pow256le_mono(a, (b - 1) as nat);
    }
}

/// Re-encoding the value of a fixed-width little-endian string gives the
/// string back.
pub proof fn lemma_le_bytes_of_word(s: Seq<u8>)
    ensures
        le_bytes(le_word(s), s.len()) == s,
    decreases s.len(),
{
    if s.len() == 0 {
        assert(le_bytes(0, 0) =~= s);
    } else {
        let w = le_word(s.skip(1));
        let v = le_word(s);
        assert(v == s[0] + 256 * w);
        assert(v % 256 == s[0] && v / 256 == w) by (nonlinear_arith)
            requires
                v == s[0] + 256 * w,
                0 <= s[0] < 256,
                0 <= w,
        ;
        lemma_le_bytes_of_word(s.skip(1));
        assert(le_bytes(v, s.len()) == seq![(v % 256) as u8] + le_bytes(v / 256, (s.len() - 1) as nat));
        assert(le_bytes(v, s.len()) =~= s);
    }
}

/// Append the `k` little-endian bytes of `n`.
pub fn push_le_bytes(buf: &mut Vec<u8>, n: u64, k: usize)
    ensures
        final(buf)@ == old(buf)@ + le_bytes(n as nat, k as nat),
    decreases k,
{
    if k == 0 {
        proof {
            assert(buf@ =~= old(buf)@ + le_bytes(n as nat, 0));
        }
    } else {
        buf.push((n % 256) as u8);
        push_le_bytes(buf, n / 256, k - 1);
        proof {
            assert(buf@ =~= old(buf)@ + le_bytes(n as nat, k as nat));
        }
    }
}

/// Read the little-endian value of `b[pos..pos + k]`.
pub fn read_le_word(b: &[u8], pos: usize, k: usize) -> (r: u64)
    requires
        pos + k <= b@.len(),
        k <= 8,
    ensures
        r as nat == le_word(b@.subrange(pos as int, (pos + k) as int)),
{
    let blen = b.len();
    let mut v: u64 = 0;
    let mut i: usize = k;
    proof {
        assert(b@.subrange((pos + k) as int, (pos + k) as int) =~= Seq::<u8>::empty());
    }
    while i > 0
        invariant
            blen == b@.len(),
            pos + k <= b@.len(),
            k <= 8,
            i <= k,
            v as nat == le_word(b@.subrange((pos + i) as int, (pos + k) as int)),
        decreases i,
    {
        proof {
            lemma_le_word_bound(b@.subrange((pos + i) as int, (pos + k) as int));
            lemma_pow256le_values();
            lemma_pow256le_mono((k - i) as nat, 7);
        }
        i -= 1;
        v = v * 256 + b[pos + i] as u64;
        proof {
            let s = b@.subrange((pos + i) as int, (pos + k) as int);
            assert(s.skip(1) =~= b@.subrange((pos + i + 1) as int, (pos + k) as int));
            assert(s[0] == b@[pos + i]);
            assert(v as nat == s[0] as nat + 256 * le_word(s.skip(1)));
        }
    }
    v
}

} // verus!
