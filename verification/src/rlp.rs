//! A verified codec for the recursive-length-prefix (RLP) byte strings that
//! make up an execution block header.
//!
//! Only what the header codec needs is implemented: byte-string items and a
//! single enclosing list. The spec functions are the ground truth for the
//! wire layout; the executable encoders and parsers are proved against them,
//! and parsing is strict: it accepts exactly the bytes the encoders produce.

use vstd::prelude::*;
use crate::DecodeError;
use crate::byteseq::{copy_slice_range, hashes_view};

verus! {

// ---------------------------------------------------------------------------
// Big-endian integers
// ---------------------------------------------------------------------------

/// Minimal big-endian byte representation of `n` (empty for zero).
pub open spec fn be_of(n: nat) -> Seq<u8>
    decreases n,
{
    if n == 0 {
        Seq::empty()
    } else {
        be_of(n / 256).push((n % 256) as u8)
    }
}

/// The value of a big-endian byte string.
pub open spec fn be_val(s: Seq<u8>) -> nat
    decreases s.len(),
{
    if s.len() == 0 {
        0
    } else {
        be_val(s.drop_last()) * 256 + s.last() as nat
    }
}

/// `256^k`.
pub open spec fn pow256(k: nat) -> nat
    decreases k,
{
    if k == 0 {
        1
    } else {
        256 * pow256((k - 1) as nat)
    }
}

/// A big-endian string with no leading zero: drop them.
pub open spec fn min_be(s: Seq<u8>) -> Seq<u8>
    decreases s.len(),
{
    if s.len() == 0 || s[0] != 0 {
        s
    } else {
        min_be(s.skip(1))
    }
}

/// Left-pad a big-endian string with zeros to 32 bytes.
pub open spec fn pad_left32(s: Seq<u8>) -> Seq<u8> {
    Seq::new((32 - s.len()) as nat, |i: int| 0u8) + s
}

pub proof fn lemma_be_of_val(n: nat)
    ensures
        be_val(be_of(n)) == n,
        n > 0 ==> be_of(n).len() > 0 && be_of(n)[0] != 0,
        n == 0 ==> be_of(n).len() == 0,
    decreases n,
{
    if n > 0 {
        lemma_be_of_val(n / 256);
        let s = be_of(n);
        assert(s == be_of(n / 256).push((n % 256) as u8));
        assert(s.drop_last() == be_of(n / 256));
        assert(s.last() == (n % 256) as u8);
        if n / 256 > 0 {
            assert(s[0] == be_of(n / 256)[0]);
        }
    }
}

pub proof fn lemma_be_of_len(n: nat, k: nat)
    requires
        n < pow256(k),
    ensures
        be_of(n).len() <= k,
    decreases n,
{
    if n > 0 {
        assert(k > 0) by {
            if k == 0 {
                assert(pow256(0) == 1);
            }
        }
        assert(n / 256 < pow256((k - 1) as nat));
        lemma_be_of_len(n / 256, (k - 1) as nat);
    }
}

/// Re-encoding the value of a minimal big-endian string gives the string
/// back.
pub proof fn lemma_be_of_val_inv(s: Seq<u8>)
    requires
        s.len() == 0 || s[0] != 0,
    ensures
        be_of(be_val(s)) == s,
    decreases s.len(),
{
    if s.len() > 0 {
        let w = be_val(s.drop_last());
        let v = be_val(s);
        assert(v == w * 256 + s.last());
        assert(v % 256 == s.last() && v / 256 == w) by (nonlinear_arith)
            requires
                v == w * 256 + s.last(),
                0 <= s.last() < 256,
                0 <= w,
        ;
        if s.len() == 1 {
            assert(s.drop_last() =~= Seq::<u8>::empty());
            assert(w == 0);
            assert(v == s.last());
            assert(v != 0) by {
                assert(s[0] == s.last());
            }
            assert(be_of(v) == be_of(0).push((v % 256) as u8));
            assert(be_of(v) =~= s);
        } else {
            assert(s.drop_last()[0] == s[0]);
            lemma_be_of_val_inv(s.drop_last());
            assert(w != 0) by {
                if w == 0 {
                    lemma_be_of_val(0);
                    assert(be_of(0).len() == 0);
                    assert(s.drop_last().len() > 0);
                }
            }
            assert(v != 0) by (nonlinear_arith)
                requires
                    v == w * 256 + s.last(),
                    w > 0,
                    s.last() >= 0,
            ;
            assert(be_of(v) == be_of(v / 256).push((v % 256) as u8));
            assert(be_of(v) =~= s);
        }
    }
}

pub proof fn lemma_be_val_bound(s: Seq<u8>)
    ensures
        be_val(s) < pow256(s.len()),
    decreases s.len(),
{
    if s.len() > 0 {
        lemma_be_val_bound(s.drop_last());
    }
}

pub proof fn lemma_pow256_values()
    ensures
        pow256(1) == 0x100,
        pow256(2) == 0x1_0000,
        pow256(4) == 0x1_0000_0000,
        pow256(7) == 0x100_0000_0000_0000,
        pow256(8) == 0x1_0000_0000_0000_0000,
        pow256(32) > 0x1_0000_0000_0000_0000,
{
    reveal_with_fuel(pow256, 33);
}

pub proof fn lemma_pow256_mono(a: nat, b: nat)
    requires
        a <= b,
    ensures
        pow256(a) <= pow256(b),
    decreases b,
{
    if a < b && b > 0 {
        lemma_pow256_mono(a, (b - 1) as nat);
    }
}

/// Dropping all-zero leading bytes is exactly `min_be`.
pub proof fn lemma_min_be_skip(s: Seq<u8>, i: int)
    requires
        0 <= i <= s.len(),
        forall|k: int| 0 <= k < i ==> s[k] == 0,
        i < s.len() ==> s[i] != 0,
    ensures
        min_be(s) == s.skip(i),
    decreases i,
{
    if i == 0 {
        assert(s.skip(0) =~= s);
    } else {
        assert(s.len() > 0 && s[0] == 0);
        lemma_min_be_skip(s.skip(1), i - 1);
        assert(s.skip(1).skip(i - 1) =~= s.skip(i));
    }
}

/// `min_be` has no leading zero and never grows.
pub proof fn lemma_min_be_wf(s: Seq<u8>)
    ensures
        min_be(s).len() <= s.len(),
        min_be(s).len() > 0 ==> min_be(s)[0] != 0,
    decreases s.len(),
{
    if !(s.len() == 0 || s[0] != 0) {
        lemma_min_be_wf(s.skip(1));
    }
}

/// Stripping undoes padding for minimal strings of at most 32 bytes.
pub proof fn lemma_min_be_pad(p: Seq<u8>)
    requires
        p.len() <= 32,
        p.len() == 0 || p[0] != 0,
    ensures
        min_be(pad_left32(p)) == p,
{
    let pad = pad_left32(p);
    let i = 32 - p.len();
    lemma_min_be_skip(pad, i);
    assert(pad.skip(i) =~= p);
}

/// Padding undoes stripping for 32-byte strings.
pub proof fn lemma_pad_min_be(s: Seq<u8>)
    requires
        s.len() == 32,
    ensures
        pad_left32(min_be(s)) == s,
{
    lemma_pad_min_be_aux(s, 0);
}

proof fn lemma_pad_min_be_aux(s: Seq<u8>, i: int)
    requires
        0 <= i <= s.len(),
        forall|k: int| 0 <= k < i ==> s[k] == 0,
        s.len() == 32,
    ensures
        (i < s.len() && s[i] != 0) || i == s.len() ==> pad_left32(s.skip(i)) == s,
        pad_left32(min_be(s)) == s,
    decreases s.len() - i,
{
    if i < s.len() && s[i] == 0 {
        lemma_pad_min_be_aux(s, i + 1);
    } else {
        lemma_min_be_skip(s, i);
        assert(pad_left32(s.skip(i)) =~= s);
    }
}

// ---------------------------------------------------------------------------
// RLP encodings (spec)
// ---------------------------------------------------------------------------

/// The RLP encoding of a byte-string item with payload `p`.
pub open spec fn rlp_str(p: Seq<u8>) -> Seq<u8> {
    if p.len() == 1 && p[0] < 0x80 {
        p
    } else if p.len() < 56 {
        seq![(0x80 + p.len()) as u8] + p
    } else {
        seq![(0xb7 + be_of(p.len()).len()) as u8] + be_of(p.len()) + p
    }
}

/// The RLP header announcing a list whose payload is `n` bytes long.
pub open spec fn rlp_list_hdr(n: nat) -> Seq<u8> {
    if n < 56 {
        seq![(0xc0 + n) as u8]
    } else {
        seq![(0xf7 + be_of(n).len()) as u8] + be_of(n)
    }
}

/// Concatenated encodings of a sequence of string-item payloads.
pub open spec fn flat_enc(items: Seq<Seq<u8>>) -> Seq<u8>
    decreases items.len(),
{
    if items.len() == 0 {
        Seq::empty()
    } else {
        rlp_str(items[0]) + flat_enc(items.skip(1))
    }
}

pub proof fn lemma_flat_enc_push(items: Seq<Seq<u8>>, x: Seq<u8>)
    ensures
        flat_enc(items.push(x)) == flat_enc(items) + rlp_str(x),
    decreases items.len(),
{
    if items.len() == 0 {
        let e = Seq::<Seq<u8>>::empty();
        assert(items.push(x)[0] == x);
        assert(items.push(x).skip(1) =~= e);
        assert(flat_enc(e) == Seq::<u8>::empty());
        assert(flat_enc(items.push(x)) == rlp_str(x) + flat_enc(e));
        assert(flat_enc(items.push(x)) =~= flat_enc(items) + rlp_str(x));
    } else {
        lemma_flat_enc_push(items.skip(1), x);
        assert(items.push(x).skip(1) =~= items.skip(1).push(x));
        assert(items.push(x)[0] == items[0]);
        assert(flat_enc(items.push(x)) =~= flat_enc(items) + rlp_str(x));
    }
}

/// Splitting a sequence of items splits its concatenated encoding.
pub proof fn lemma_flat_enc_split(items: Seq<Seq<u8>>, i: int)
    requires
        0 <= i <= items.len(),
    ensures
        flat_enc(items) == flat_enc(items.take(i)) + flat_enc(items.skip(i)),
    decreases i,
{
    if i == 0 {
        assert(items.take(0) =~= Seq::<Seq<u8>>::empty());
        assert(items.skip(0) =~= items);
        assert(flat_enc(items) =~= flat_enc(items.take(0)) + flat_enc(items.skip(0)));
    } else {
        lemma_flat_enc_split(items.skip(1), i - 1);
        assert(items.take(i)[0] == items[0]);
        assert(items.take(i).skip(1) =~= items.skip(1).take(i - 1));
        assert(items.skip(1).skip(i - 1) =~= items.skip(i));
        assert(flat_enc(items) =~= flat_enc(items.take(i)) + flat_enc(items.skip(i)));
    }
}

// ---------------------------------------------------------------------------
// Executable encoders
// ---------------------------------------------------------------------------

/// Append the bytes of `p` to `buf`.
pub fn append_bytes(buf: &mut Vec<u8>, p: &Vec<u8>)
    ensures
        final(buf)@ == old(buf)@ + p@,
{
    let mut i: usize = 0;
    while i < p.len()
        invariant
            i <= p@.len(),
            buf@ == old(buf)@ + p@.subrange(0, i as int),
        decreases p@.len() - i,
    {
        buf.push(p[i]);
        i += 1;
        proof {
            assert(buf@ =~= old(buf)@ + p@.subrange(0, i as int));
        }
    }
    proof {
        assert(p@.subrange(0, p@.len() as int) =~= p@);
    }
}

/// Minimal big-endian bytes of a `u64`.
pub fn u64_be_min(n: u64) -> (r: Vec<u8>)
    ensures
        r@ == be_of(n as nat),
    decreases n,
{
    if n == 0 {
        Vec::new()
    } else {
        let mut v = u64_be_min(n / 256);
        v.push((n % 256) as u8);
        v
    }
}

/// Minimal big-endian bytes of a `usize`.
pub fn usize_be_min(n: usize) -> (r: Vec<u8>)
    ensures
        r@ == be_of(n as nat),
    decreases n,
{
    if n == 0 {
        Vec::new()
    } else {
        let mut v = usize_be_min(n / 256);
        v.push((n % 256) as u8);
        v
    }
}

/// Strip leading zero bytes.
pub fn strip_leading_zeros(v: &Vec<u8>) -> (r: Vec<u8>)
    ensures
        r@ == min_be(v@),
{
    let mut i: usize = 0;
    while i < v.len() && v[i] == 0
        invariant
            i <= v@.len(),
            forall|k: int| 0 <= k < i ==> v@[k] == 0,
        decreases v@.len() - i,
    {
        i += 1;
    }
    proof {
        lemma_min_be_skip(v@, i as int);
        assert(v@.skip(i as int) =~= v@.subrange(i as int, v@.len() as int));
    }
    copy_slice_range(v.as_slice(), i, v.len())
}

/// Append the RLP string item with payload `p` to `buf`.
pub fn append_str(buf: &mut Vec<u8>, p: &Vec<u8>)
    ensures
        final(buf)@ == old(buf)@ + rlp_str(p@),
{
    if p.len() == 1 && p[0] < 0x80 {
        buf.push(p[0]);
        proof {
            assert(buf@ =~= old(buf)@ + rlp_str(p@));
        }
    } else if p.len() < 56 {
        buf.push(0x80 + p.len() as u8);
        append_bytes(buf, p);
        proof {
            assert(buf@ =~= old(buf)@ + rlp_str(p@));
        }
    } else {
        let lb = usize_be_min(p.len());
        proof {
            lemma_pow256_values();
            lemma_pow256_mono(8, 16);
            lemma_be_of_len(p@.len(), 8);
            lemma_be_of_val(p@.len());
        }
        buf.push(0xb7 + lb.len() as u8);
        append_bytes(buf, &lb);
        append_bytes(buf, p);
        proof {
            assert(buf@ =~= old(buf)@ + rlp_str(p@));
        }
    }
}

/// Append the RLP header of a list whose payload is `n` bytes long.
pub fn append_list_hdr(buf: &mut Vec<u8>, n: usize)
    ensures
        final(buf)@ == old(buf)@ + rlp_list_hdr(n as nat),
{
    if n < 56 {
        buf.push(0xc0 + n as u8);
        proof {
            assert(buf@ =~= old(buf)@ + rlp_list_hdr(n as nat));
        }
    } else {
        let lb = usize_be_min(n);
        proof {
            lemma_pow256_values();
            lemma_pow256_mono(8, 16);
            lemma_be_of_len(n as nat, 8);
            lemma_be_of_val(n as nat);
        }
        buf.push(0xf7 + lb.len() as u8);
        append_bytes(buf, &lb);
        proof {
            assert(buf@ =~= old(buf)@ + rlp_list_hdr(n as nat));
        }
    }
}

// ---------------------------------------------------------------------------
// Parsers (spec)
// ---------------------------------------------------------------------------

/// Parse one string item of `b` starting at `pos`: its payload and the
/// position just past it. Strict: only the bytes `rlp_str` produces are
/// accepted.
pub open spec fn spec_parse_str(b: Seq<u8>, pos: int) -> Result<(Seq<u8>, int), DecodeError> {
    if pos < 0 || pos >= b.len() {
        Err(DecodeError::Truncated)
    } else {
        let p0 = b[pos];
        if p0 < 0x80 {
            Ok((seq![p0], pos + 1))
        } else if p0 <= 0xb7 {
            let n = p0 - 0x80;
            if pos + 1 + n > b.len() {
                Err(DecodeError::Truncated)
            } else if n == 1 && b[pos + 1] < 0x80 {
                Err(DecodeError::NonCanonical)
            } else {
                Ok((b.subrange(pos + 1, pos + 1 + n), pos + 1 + n))
            }
        } else if p0 <= 0xbf {
            let ll = p0 - 0xb7;
            if pos + 1 + ll > b.len() {
                Err(DecodeError::Truncated)
            } else {
                let lb = b.subrange(pos + 1, pos + 1 + ll);
                let n = be_val(lb);
                if lb[0] == 0 {
                    Err(DecodeError::NonCanonical)
                } else if n < 56 {
                    Err(DecodeError::NonCanonical)
                } else if pos + 1 + ll + n > b.len() {
                    Err(DecodeError::Truncated)
                } else {
                    Ok((b.subrange(pos + 1 + ll, pos + 1 + ll + n), pos + 1 + ll + n))
                }
            }
        } else {
            Err(DecodeError::TypeMismatch)
        }
    }
}

/// Parse a list header of `b` at `pos`: the payload length it announces and
/// the position where the payload starts. The payload must fit in `b`.
pub open spec fn spec_parse_list_hdr(b: Seq<u8>, pos: int) -> Result<(int, int), DecodeError> {
    if pos < 0 || pos >= b.len() {
        Err(DecodeError::Truncated)
    } else {
        let p0 = b[pos];
        if p0 < 0xc0 {
            Err(DecodeError::TypeMismatch)
        } else if p0 <= 0xf7 {
            let n = p0 - 0xc0;
            if pos + 1 + n > b.len() {
                Err(DecodeError::Truncated)
            } else {
                Ok((n, pos + 1))
            }
        } else {
            let ll = p0 - 0xf7;
            if pos + 1 + ll > b.len() {
                Err(DecodeError::Truncated)
            } else {
                let lb = b.subrange(pos + 1, pos + 1 + ll);
                let n = be_val(lb);
                if lb[0] == 0 {
                    Err(DecodeError::NonCanonical)
                } else if n < 56 {
                    Err(DecodeError::NonCanonical)
                } else if pos + 1 + ll + n > b.len() {
                    Err(DecodeError::Truncated)
                } else {
                    Ok((n as int, pos + 1 + ll))
                }
            }
        }
    }
}

/// Parse `k` consecutive string items starting at `pos`.
pub open spec fn spec_parse_items(b: Seq<u8>, pos: int, k: nat) -> Result<
    (Seq<Seq<u8>>, int),
    DecodeError,
>
    decreases k,
{
    if k == 0 {
        Ok((Seq::empty(), pos))
    } else {
        match spec_parse_str(b, pos) {
            Err(e) => Err(e),
            Ok((p, np)) => match spec_parse_items(b, np, (k - 1) as nat) {
                Err(e) => Err(e),
                Ok((rest, fp)) => Ok((seq![p] + rest, fp)),
            },
        }
    }
}

// ---------------------------------------------------------------------------
// Parsers (executable)
// ---------------------------------------------------------------------------

/// Big-endian value of `b[pos..pos + ll]`.
pub(crate) fn read_be_val(b: &[u8], pos: usize, ll: usize) -> (r: u64)
    requires
        pos + ll <= b@.len(),
        ll <= 8,
    ensures
        r as nat == be_val(b@.subrange(pos as int, (pos + ll) as int)),
{
    let blen = b.len();
    let mut v: u64 = 0;
    let mut i: usize = 0;
    proof {
        assert(b@.subrange(pos as int, pos as int) =~= Seq::<u8>::empty());
    }
    while i < ll
        invariant
            blen == b@.len(),
            pos + ll <= b@.len(),
            ll <= 8,
            i <= ll,
            v as nat == be_val(b@.subrange(pos as int, (pos + i) as int)),
        decreases ll - i,
    {
        proof {
            lemma_be_val_bound(b@.subrange(pos as int, (pos + i) as int));
            lemma_pow256_values();
            lemma_pow256_mono(i as nat, 7);
        }
        v = v * 256 + b[pos + i] as u64;
        i += 1;
        proof {
            let s = b@.subrange(pos as int, (pos + i) as int);
            assert(s.drop_last() =~= b@.subrange(pos as int, (pos + i - 1) as int));
            assert(s.last() == b@[pos + i - 1]);
        }
    }
    v
}

/// Parse one string item at `pos`: the payload bytes and the position just
/// past the item.
pub fn parse_str(b: &[u8], pos: usize) -> (r: Result<(Vec<u8>, usize), DecodeError>)
    ensures
        ({
            let s = spec_parse_str(b@, pos as int);
            match r {
                Ok((p, np)) => s == Ok::<(Seq<u8>, int), DecodeError>((p@, np as int)) && pos < np
                    <= b@.len(),
                Err(e) => s == Err::<(Seq<u8>, int), DecodeError>(e),
            }
        }),
{
    if pos >= b.len() {
        return Err(DecodeError::Truncated);
    }
    let p0 = b[pos];
    if p0 < 0x80 {
        let mut p: Vec<u8> = Vec::new();
        p.push(p0);
        proof {
            assert(p@ =~= seq![b@[pos as int]]);
        }
        Ok((p, pos + 1))
    } else if p0 <= 0xb7 {
        let n = (p0 - 0x80) as usize;
        if n > b.len() - pos - 1 {
            return Err(DecodeError::Truncated);
        }
        if n == 1 && b[pos + 1] < 0x80 {
            return Err(DecodeError::NonCanonical);
        }
        let p = copy_slice_range(b, pos + 1, pos + 1 + n);
        Ok((p, pos + 1 + n))
    } else if p0 <= 0xbf {
        let ll = (p0 - 0xb7) as usize;
        if ll > b.len() - pos - 1 {
            return Err(DecodeError::Truncated);
        }
        if b[pos + 1] == 0 {
            return Err(DecodeError::NonCanonical);
        }
        let n64 = read_be_val(b, pos + 1, ll);
        if n64 < 56 {
            return Err(DecodeError::NonCanonical);
        }
        let rem = b.len() - pos - 1 - ll;
        if n64 > rem as u64 {
            return Err(DecodeError::Truncated);
        }
        let n = n64 as usize;
        let p = copy_slice_range(b, pos + 1 + ll, pos + 1 + ll + n);
        Ok((p, pos + 1 + ll + n))
    } else {
        Err(DecodeError::TypeMismatch)
    }
}

/// Parse a list header at `pos`: the announced payload length and the
/// position where the payload starts.
pub fn parse_list_hdr(b: &[u8], pos: usize) -> (r: Result<(usize, usize), DecodeError>)
    ensures
        ({
            let s = spec_parse_list_hdr(b@, pos as int);
            match r {
                Ok((n, cp)) => s == Ok::<(int, int), DecodeError>((n as int, cp as int)) && pos
                    < cp && cp + n <= b@.len(),
                Err(e) => s == Err::<(int, int), DecodeError>(e),
            }
        }),
{
    if pos >= b.len() {
        return Err(DecodeError::Truncated);
    }
    let p0 = b[pos];
    if p0 < 0xc0 {
        Err(DecodeError::TypeMismatch)
    } else if p0 <= 0xf7 {
        let n = (p0 - 0xc0) as usize;
        if n > b.len() - pos - 1 {
            return Err(DecodeError::Truncated);
        }
        Ok((n, pos + 1))
    } else {
        let ll = (p0 - 0xf7) as usize;
        if ll > b.len() - pos - 1 {
            return Err(DecodeError::Truncated);
        }
        if b[pos + 1] == 0 {
            return Err(DecodeError::NonCanonical);
        }
        let n64 = read_be_val(b, pos + 1, ll);
        if n64 < 56 {
            return Err(DecodeError::NonCanonical);
        }
        let rem = b.len() - pos - 1 - ll;
        if n64 > rem as u64 {
            return Err(DecodeError::Truncated);
        }
        Ok((n64 as usize, pos + 1 + ll))
    }
}

/// Parse `k` consecutive string items starting at `pos`.
pub fn parse_items(b: &[u8], pos: usize, k: usize) -> (r: Result<
    (Vec<Vec<u8>>, usize),
    DecodeError,
>)
    ensures
        ({
            let s = spec_parse_items(b@, pos as int, k as nat);
            match r {
                Ok((items, np)) => s == Ok::<(Seq<Seq<u8>>, int), DecodeError>(
                    (hashes_view(items@), np as int),
                ) && items@.len() == k && (k > 0 ==> np <= b@.len()),
                Err(e) => s == Err::<(Seq<Seq<u8>>, int), DecodeError>(e),
            }
        }),
{
    let mut items: Vec<Vec<u8>> = Vec::new();
    let mut cur: usize = pos;
    let mut j: usize = 0;
    proof {
        assert(hashes_view(items@) =~= Seq::<Seq<u8>>::empty());
    }
    while j < k
        invariant
            j <= k,
            items@.len() == j,
            j > 0 ==> cur <= b@.len(),
            j == 0 ==> cur == pos,
            spec_parse_items(b@, pos as int, k as nat) == (match spec_parse_items(
                b@,
                cur as int,
                (k - j) as nat,
            ) {
                Ok((rest, fp)) => Ok::<(Seq<Seq<u8>>, int), DecodeError>(
                    (hashes_view(items@) + rest, fp),
                ),
                Err(e) => Err::<(Seq<Seq<u8>>, int), DecodeError>(e),
            }),
        decreases k - j,
    {
        let ghost old_items = items@;
        let ghost old_cur = cur as int;
        match parse_str(b, cur) {
            Err(e) => {
                return Err(e);
            },
            Ok((p, np)) => {
                items.push(p);
                cur = np;
                j += 1;
                proof {
                    assert(hashes_view(items@) =~= hashes_view(old_items).push(p@));
                    let inner = spec_parse_items(b@, cur as int, (k - j) as nat);
                    match inner {
                        Ok((rest, fp)) => {
                            assert(hashes_view(old_items) + (seq![p@] + rest) =~= hashes_view(
                                items@,
                            ) + rest);
                        },
                        Err(e) => {},
                    }
                }
            },
        }
    }
    proof {
        assert(spec_parse_items(b@, cur as int, 0) == Ok::<(Seq<Seq<u8>>, int), DecodeError>(
            (Seq::empty(), cur as int),
        ));
        assert(hashes_view(items@) + Seq::<Seq<u8>>::empty() =~= hashes_view(items@));
    }
    Ok((items, cur))
}

// ---------------------------------------------------------------------------
// Round-trip lemmas
// ---------------------------------------------------------------------------

/// A sub-window of a window of `b` is the matching sub-window of its image.
pub proof fn lemma_window(b: Seq<u8>, pos: int, w: Seq<u8>, off: int, len: int)
    requires
        0 <= pos,
        pos + w.len() <= b.len(),
        b.subrange(pos, pos + w.len() as int) == w,
        0 <= off,
        0 <= len,
        off + len <= w.len(),
    ensures
        b.subrange(pos + off, pos + off + len) == w.subrange(off, off + len),
{
    assert forall|i: int|
        0 <= i < len implies #[trigger] b.subrange(pos + off, pos + off + len)[i] == w.subrange(
        off,
        off + len,
    )[i] by {
        assert(b.subrange(pos, pos + w.len() as int)[off + i] == b[pos + off + i]);
        assert(b.subrange(pos + off, pos + off + len)[i] == b[pos + off + i]);
    }
    assert(b.subrange(pos + off, pos + off + len) =~= w.subrange(off, off + len));
}

/// Bounded payloads give a bounded concatenated encoding.
pub proof fn lemma_flat_enc_len(items: Seq<Seq<u8>>, m: nat)
    requires
        m < 0x1_0000_0000_0000_0000,
        forall|k: int| 0 <= k < items.len() ==> (#[trigger] items[k]).len() <= m,
    ensures
        flat_enc(items).len() <= items.len() * (m + 9),
    decreases items.len(),
{
    if items.len() > 0 {
        assert(forall|k: int|
            0 <= k < items.skip(1).len() ==> (#[trigger] items.skip(1)[k]).len() <= m);
        lemma_flat_enc_len(items.skip(1), m);
        lemma_pow256_values();
        lemma_pow256_mono(8, 32);
        lemma_be_of_len(items[0].len(), 8);
        assert(rlp_str(items[0]).len() <= m + 9);
        assert((items.len() - 1) * (m + 9) + (m + 9) == items.len() * (m + 9))
            by (nonlinear_arith)
            requires
                items.len() >= 1,
        ;
    }
}

/// Parsing an encoded string item recovers its payload.
pub proof fn lemma_parse_str_of_enc(b: Seq<u8>, pos: int, p: Seq<u8>)
    requires
        0 <= pos,
        p.len() < 0x1_0000_0000_0000_0000,
        pos + rlp_str(p).len() <= b.len(),
        b.subrange(pos, pos + rlp_str(p).len() as int) == rlp_str(p),
    ensures
        spec_parse_str(b, pos) == Ok::<(Seq<u8>, int), DecodeError>(
            (p, pos + rlp_str(p).len()),
        ),
{
    let e = rlp_str(p);
    assert(b.subrange(pos, pos + e.len() as int)[0] == b[pos]);
    if p.len() == 1 && p[0] < 0x80 {
        assert(b[pos] == p[0]);
        assert(seq![b[pos]] =~= p);
    } else if p.len() < 56 {
        assert(b[pos] == e[0]);
        assert(e[0] == (0x80 + p.len()) as u8);
        lemma_window(b, pos, e, 1, p.len() as int);
        assert(e.subrange(1, 1 + p.len() as int) =~= p);
        if p.len() == 1 {
            assert(b.subrange(pos + 1, pos + 1 + p.len() as int)[0] == b[pos + 1]);
            assert(b[pos + 1] == p[0]);
        }
    } else {
        let lb = be_of(p.len());
        lemma_be_of_val(p.len());
        lemma_pow256_values();
        lemma_pow256_mono(8, 16);
        lemma_be_of_len(p.len(), 8);
        assert(lb.len() >= 1);
        assert(b[pos] == e[0]);
        assert(e[0] == (0xb7 + lb.len()) as u8);
        lemma_window(b, pos, e, 1, lb.len() as int);
        assert(e.subrange(1, 1 + lb.len() as int) =~= lb);
        lemma_window(b, pos, e, 1 + lb.len() as int, p.len() as int);
        assert(e.subrange(1 + lb.len() as int, 1 + lb.len() + p.len() as int) =~= p);
        let lb2 = b.subrange(pos + 1, pos + 1 + lb.len() as int);
        assert(lb2[0] == lb[0]);
    }
}

/// Parsing an encoded list header recovers the announced length.
pub proof fn lemma_parse_list_hdr_of_enc(b: Seq<u8>, pos: int, n: nat)
    requires
        0 <= pos,
        n < 0x1_0000_0000_0000_0000,
        pos + rlp_list_hdr(n).len() + n <= b.len(),
        b.subrange(pos, pos + rlp_list_hdr(n).len() as int) == rlp_list_hdr(n),
    ensures
        spec_parse_list_hdr(b, pos) == Ok::<(int, int), DecodeError>(
            (n as int, pos + rlp_list_hdr(n).len()),
        ),
{
    let e = rlp_list_hdr(n);
    assert(b.subrange(pos, pos + e.len() as int)[0] == b[pos]);
    if n < 56 {
        assert(b[pos] == e[0]);
        assert(e[0] == (0xc0 + n) as u8);
    } else {
        let lb = be_of(n);
        lemma_be_of_val(n);
        lemma_pow256_values();
        lemma_pow256_mono(8, 16);
        lemma_be_of_len(n, 8);
        assert(lb.len() >= 1);
        assert(b[pos] == e[0]);
        assert(e[0] == (0xf7 + lb.len()) as u8);
        lemma_window(b, pos, e, 1, lb.len() as int);
        assert(e.subrange(1, 1 + lb.len() as int) =~= lb);
        let lb2 = b.subrange(pos + 1, pos + 1 + lb.len() as int);
        assert(lb2[0] == lb[0]);
    }
}

/// Parsing the concatenated encodings of `items` recovers `items`.
pub proof fn lemma_parse_items_of_enc(b: Seq<u8>, pos: int, items: Seq<Seq<u8>>)
    requires
        0 <= pos,
        forall|k: int|
            0 <= k < items.len() ==> (#[trigger] items[k]).len() < 0x1_0000_0000_0000_0000,
        pos + flat_enc(items).len() <= b.len(),
        b.subrange(pos, pos + flat_enc(items).len() as int) == flat_enc(items),
    ensures
        spec_parse_items(b, pos, items.len()) == Ok::<(Seq<Seq<u8>>, int), DecodeError>(
            (items, pos + flat_enc(items).len()),
        ),
    decreases items.len(),
{
    let w = flat_enc(items);
    if items.len() == 0 {
        assert(Seq::<Seq<u8>>::empty() =~= items);
    } else {
        let e0 = rlp_str(items[0]);
        let rest = items.skip(1);
        assert(w == e0 + flat_enc(rest));
        lemma_window(b, pos, w, 0, e0.len() as int);
        assert(w.subrange(0, e0.len() as int) =~= e0);
        lemma_parse_str_of_enc(b, pos, items[0]);
        let pos1 = pos + e0.len() as int;
        lemma_window(b, pos, w, e0.len() as int, flat_enc(rest).len() as int);
        assert(w.subrange(e0.len() as int, w.len() as int) =~= flat_enc(rest));
        lemma_parse_items_of_enc(b, pos1, rest);
        assert(seq![items[0]] + rest =~= items);
    }
}


/// A parsed string item occupies exactly the bytes its payload re-encodes
/// to: parsing is strict, so the consumed window is `rlp_str` of the
/// payload.
pub proof fn lemma_enc_of_parse_str(b: Seq<u8>, pos: int)
    requires
        spec_parse_str(b, pos) is Ok,
    ensures
        ({
            let (p, np) = spec_parse_str(b, pos)->Ok_0;
            &&& pos < np <= b.len()
            &&& rlp_str(p) == b.subrange(pos, np)
        }),
{
    let (p, np) = spec_parse_str(b, pos)->Ok_0;
    let p0 = b[pos];
    if p0 < 0x80 {
        assert(rlp_str(p) =~= b.subrange(pos, np));
    } else if p0 <= 0xb7 {
        let n = p0 - 0x80;
        assert(p == b.subrange(pos + 1, pos + 1 + n));
        assert(p.len() == n);
        if n == 1 {
            assert(p[0] == b[pos + 1]);
            assert(p[0] >= 0x80);
        }
        assert(rlp_str(p) == seq![(0x80 + p.len()) as u8] + p);
        assert(rlp_str(p) =~= b.subrange(pos, np));
    } else {
        let ll = p0 - 0xb7;
        let lb = b.subrange(pos + 1, pos + 1 + ll);
        let n = be_val(lb);
        assert(lb[0] != 0);
        lemma_be_of_val_inv(lb);
        assert(be_of(n) == lb);
        assert(p == b.subrange(pos + 1 + ll, pos + 1 + ll + n));
        assert(p.len() == n >= 56);
        assert(rlp_str(p) == seq![(0xb7 + be_of(p.len()).len()) as u8] + be_of(p.len()) + p);
        assert(rlp_str(p) =~= b.subrange(pos, np));
    }
}

/// A parsed list header occupies exactly the bytes its announced length
/// re-encodes to.
pub proof fn lemma_enc_of_parse_list_hdr(b: Seq<u8>, pos: int)
    requires
        spec_parse_list_hdr(b, pos) is Ok,
    ensures
        ({
            let (n, cp) = spec_parse_list_hdr(b, pos)->Ok_0;
            &&& pos < cp
            &&& 0 <= n
            &&& cp + n <= b.len()
            &&& rlp_list_hdr(n as nat) == b.subrange(pos, cp)
        }),
{
    let (n, cp) = spec_parse_list_hdr(b, pos)->Ok_0;
    let p0 = b[pos];
    if p0 <= 0xf7 {
        assert(rlp_list_hdr(n as nat) =~= b.subrange(pos, cp));
    } else {
        let ll = p0 - 0xf7;
        let lb = b.subrange(pos + 1, pos + 1 + ll);
        assert(lb[0] != 0);
        lemma_be_of_val_inv(lb);
        assert(be_of(n as nat) == lb);
        assert(rlp_list_hdr(n as nat) == seq![(0xf7 + be_of(n as nat).len()) as u8] + be_of(
            n as nat,
        ));
        assert(rlp_list_hdr(n as nat) =~= b.subrange(pos, cp));
    }
}

/// Parsed items occupy exactly the bytes their payloads re-encode to.
pub proof fn lemma_enc_of_parse_items(b: Seq<u8>, pos: int, k: nat)
    requires
        0 <= pos <= b.len(),
        spec_parse_items(b, pos, k) is Ok,
    ensures
        ({
            let (items, fp) = spec_parse_items(b, pos, k)->Ok_0;
            &&& pos <= fp <= b.len()
            &&& items.len() == k
            &&& flat_enc(items) == b.subrange(pos, fp)
        }),
    decreases k,
{
    let (items, fp) = spec_parse_items(b, pos, k)->Ok_0;
    if k == 0 {
        assert(flat_enc(items) =~= b.subrange(pos, fp));
    } else {
        let (p, np) = spec_parse_str(b, pos)->Ok_0;
        lemma_enc_of_parse_str(b, pos);
        lemma_enc_of_parse_items(b, np, (k - 1) as nat);
        let (rest, fp2) = spec_parse_items(b, np, (k - 1) as nat)->Ok_0;
        assert(items == seq![p] + rest && fp == fp2);
        assert(items[0] == p);
        assert(items.skip(1) =~= rest);
        assert(flat_enc(items) == rlp_str(p) + flat_enc(rest));
        assert(flat_enc(items) =~= b.subrange(pos, fp));
    }
}

} // verus!
