//! The three proof variants and their byte codecs.
//!
//! Every hash is 32 bytes. The two pre-Capella variants are fixed-size:
//! their encodings concatenate fixed counts of hashes (and, after the merge,
//! a beacon block root and a little-endian slot). The Capella-onward variant
//! carries a variable execution branch of at most twelve hashes behind a
//! four-byte offset.

use vstd::prelude::*;
use crate::DecodeError;
use crate::byteseq::{
    copy_slice_range, hashes_view, le_bytes, le_word, lemma_le_bytes_of_word, lemma_le_round,
    lemma_le_word_bound, lemma_pow256le_values, push_le_bytes, read_le_word,
};
use crate::rlp::lemma_window;

verus! {

/// Every entry is a 32-byte hash.
pub open spec fn all_len32(s: Seq<Seq<u8>>) -> bool {
    forall|k: int| 0 <= k < s.len() ==> (#[trigger] s[k]).len() == 32
}

/// The concatenation of a sequence of hashes.
pub open spec fn flat_hashes(s: Seq<Seq<u8>>) -> Seq<u8>
    decreases s.len(),
{
    if s.len() == 0 {
        Seq::empty()
    } else {
        s[0] + flat_hashes(s.skip(1))
    }
}

/// The `k` consecutive 32-byte windows of `b` starting at `pos`.
pub open spec fn hash_windows(b: Seq<u8>, pos: int, k: nat) -> Seq<Seq<u8>> {
    Seq::new(k, |i: int| b.subrange(pos + 32 * i, pos + 32 * i + 32))
}

pub proof fn lemma_flat_hashes_len(s: Seq<Seq<u8>>)
    requires
        all_len32(s),
    ensures
        flat_hashes(s).len() == 32 * s.len(),
    decreases s.len(),
{
    if s.len() > 0 {
        assert(all_len32(s.skip(1)));
        lemma_flat_hashes_len(s.skip(1));
    }
}

pub proof fn lemma_flat_hashes_push(s: Seq<Seq<u8>>, x: Seq<u8>)
    ensures
        flat_hashes(s.push(x)) == flat_hashes(s) + x,
    decreases s.len(),
{
    if s.len() == 0 {
        let e = Seq::<Seq<u8>>::empty();
        assert(s.push(x)[0] == x);
        assert(s.push(x).skip(1) =~= e);
        assert(flat_hashes(e) == Seq::<u8>::empty());
        assert(flat_hashes(s.push(x)) == x + flat_hashes(e));
        assert(flat_hashes(s.push(x)) =~= flat_hashes(s) + x);
    } else {
        lemma_flat_hashes_push(s.skip(1), x);
        assert(s.push(x).skip(1) =~= s.skip(1).push(x));
        assert(s.push(x)[0] == s[0]);
        assert(flat_hashes(s.push(x)) =~= flat_hashes(s) + x);
    }
}

/// The `i`-th 32-byte window of a concatenation of 32-byte hashes is the
/// `i`-th hash.
pub proof fn lemma_flat_hashes_index(s: Seq<Seq<u8>>, i: int)
    requires
        all_len32(s),
        0 <= i < s.len(),
    ensures
        flat_hashes(s).subrange(32 * i, 32 * i + 32) == s[i],
    decreases i,
{
    lemma_flat_hashes_len(s);
    if i == 0 {
        assert(flat_hashes(s).subrange(0, 32) =~= s[0]);
    } else {
        assert(all_len32(s.skip(1)));
        lemma_flat_hashes_index(s.skip(1), i - 1);
        lemma_flat_hashes_len(s.skip(1));
        assert(s.skip(1)[i - 1] == s[i]);
        assert(flat_hashes(s).subrange(32 * i, 32 * i + 32) =~= flat_hashes(s.skip(1)).subrange(
            32 * (i - 1),
            32 * (i - 1) + 32,
        ));
    }
}

/// Reading windows from a buffer that holds a hash concatenation recovers
/// the hashes.
pub proof fn lemma_hash_windows_of_flat(b: Seq<u8>, pos: int, s: Seq<Seq<u8>>)
    requires
        all_len32(s),
        0 <= pos,
        pos + 32 * s.len() <= b.len(),
        b.subrange(pos, pos + 32 * s.len()) == flat_hashes(s),
    ensures
        hash_windows(b, pos, s.len()) == s,
{
    lemma_flat_hashes_len(s);
    assert forall|i: int| 0 <= i < s.len() implies #[trigger] hash_windows(b, pos, s.len())[i]
        == s[i] by {
        lemma_window(b, pos, flat_hashes(s), 32 * i, 32);
        lemma_flat_hashes_index(s, i);
    }
    assert(hash_windows(b, pos, s.len()) =~= s);
}

// ---------------------------------------------------------------------------
// Types
// ---------------------------------------------------------------------------

/// Value of a proof for the era from the merge up to Capella.
#[verifier::ext_equal]
pub ghost struct RootsV {
    pub beacon_block_proof: Seq<Seq<u8>>,
    pub beacon_block_root: Seq<u8>,
    pub execution_block_proof: Seq<Seq<u8>>,
    pub slot: u64,
}

/// Value of a proof for the Capella-onward era.
#[verifier::ext_equal]
pub ghost struct SummariesV {
    pub beacon_block_proof: Seq<Seq<u8>>,
    pub beacon_block_root: Seq<u8>,
    pub execution_block_proof: Seq<Seq<u8>>,
    pub slot: u64,
}

/// Value of a proof: one of the three era shapes.
#[verifier::ext_equal]
pub ghost enum ProofV {
    HistoricalHashes(Seq<Seq<u8>>),
    HistoricalRoots(RootsV),
    HistoricalSummaries(SummariesV),
}

/// Proof that a beacon block is part of `historical_roots` and that an
/// execution block hash is part of that beacon block: for execution headers
/// from the merge up to Capella.
#[derive(Debug, Clone, PartialEq, Eq)]
pub struct BlockProofHistoricalRoots {
    /// Branch tying the beacon block root to the historical batch: fourteen
    /// hashes.
    pub beacon_block_proof: Vec<Vec<u8>>,
    /// Root of the beacon block the branches meet at.
    pub beacon_block_root: Vec<u8>,
    /// Branch tying the execution block hash to the beacon block root:
    /// eleven hashes.
    pub execution_block_proof: Vec<Vec<u8>>,
    /// Slot of the beacon block; selects the leaf index within the batch.
    pub slot: u64,
}

/// Proof that a beacon block is part of `historical_summaries` and that an
/// execution block hash is part of that beacon block: for execution headers
/// from Capella on.
#[derive(Debug, Clone, PartialEq, Eq)]
pub struct BlockProofHistoricalSummaries {
    /// Branch tying the beacon block root to the summary: thirteen hashes.
    pub beacon_block_proof: Vec<Vec<u8>>,
    /// Root of the beacon block the branches meet at.
    pub beacon_block_root: Vec<u8>,
    /// Branch tying the execution block hash to the beacon block root: up
    /// to twelve hashes.
    pub execution_block_proof: Vec<Vec<u8>>,
    /// Slot of the beacon block; selects the leaf index within the summary.
    pub slot: u64,
}

/// A header's proof: one variant per chain era.
#[derive(Debug, Clone, PartialEq, Eq)]
pub enum BlockHeaderProof {
    /// Before the merge: fifteen hashes tying the header into the
    /// pre-merge header accumulator.
    HistoricalHashes(Vec<Vec<u8>>),
    /// From the merge up to Capella.
    HistoricalRoots(BlockProofHistoricalRoots),
    /// From Capella on.
    HistoricalSummaries(BlockProofHistoricalSummaries),
}

impl View for BlockProofHistoricalRoots {
    type V = RootsV;

    open spec fn view(&self) -> RootsV {
        RootsV {
            beacon_block_proof: hashes_view(self.beacon_block_proof@),
            beacon_block_root: self.beacon_block_root@,
            execution_block_proof: hashes_view(self.execution_block_proof@),
            slot: self.slot,
        }
    }
}

impl View for BlockProofHistoricalSummaries {
    type V = SummariesV;

    open spec fn view(&self) -> SummariesV {
        SummariesV {
            beacon_block_proof: hashes_view(self.beacon_block_proof@),
            beacon_block_root: self.beacon_block_root@,
            execution_block_proof: hashes_view(self.execution_block_proof@),
            slot: self.slot,
        }
    }
}

impl View for BlockHeaderProof {
    type V = ProofV;

    open spec fn view(&self) -> ProofV {
        match self {
            BlockHeaderProof::HistoricalHashes(p) => ProofV::HistoricalHashes(hashes_view(p@)),
            BlockHeaderProof::HistoricalRoots(p) => ProofV::HistoricalRoots(p@),
            BlockHeaderProof::HistoricalSummaries(p) => ProofV::HistoricalSummaries(p@),
        }
    }
}

/// A pre-merge accumulator proof: exactly fifteen 32-byte hashes.
pub open spec fn wf_acc_v(p: Seq<Seq<u8>>) -> bool {
    p.len() == 15 && all_len32(p)
}

/// A historical-roots proof: a fourteen-hash beacon branch, a 32-byte root,
/// an eleven-hash execution branch.
pub open spec fn wf_roots_v(v: RootsV) -> bool {
    &&& v.beacon_block_proof.len() == 14
    &&& all_len32(v.beacon_block_proof)
    &&& v.beacon_block_root.len() == 32
    &&& v.execution_block_proof.len() == 11
    &&& all_len32(v.execution_block_proof)
}

/// A historical-summaries proof: a thirteen-hash beacon branch, a 32-byte
/// root, an execution branch of at most twelve hashes.
pub open spec fn wf_summaries_v(v: SummariesV) -> bool {
    &&& v.beacon_block_proof.len() == 13
    &&& all_len32(v.beacon_block_proof)
    &&& v.beacon_block_root.len() == 32
    &&& v.execution_block_proof.len() <= 12
    &&& all_len32(v.execution_block_proof)
}

/// The populated variant has its era's shape.
pub open spec fn wf_proof_v(p: ProofV) -> bool {
    match p {
        ProofV::HistoricalHashes(h) => wf_acc_v(h),
        ProofV::HistoricalRoots(v) => wf_roots_v(v),
        ProofV::HistoricalSummaries(v) => wf_summaries_v(v),
    }
}

// ---------------------------------------------------------------------------
// Encodings (spec)
// ---------------------------------------------------------------------------

/// Wire bytes of a pre-merge accumulator proof: the hashes, concatenated.
pub open spec fn spec_encode_acc(p: Seq<Seq<u8>>) -> Seq<u8> {
    flat_hashes(p)
}

/// Wire bytes of a historical-roots proof: both branches fixed, the slot
/// little-endian at the end.
pub open spec fn spec_encode_roots(v: RootsV) -> Seq<u8> {
    flat_hashes(v.beacon_block_proof) + v.beacon_block_root + flat_hashes(v.execution_block_proof)
        + le_bytes(v.slot as nat, 8)
}

/// Wire bytes of a historical-summaries proof: the fixed fields, a four-byte
/// offset to the variable execution branch, then that branch.
pub open spec fn spec_encode_summaries(v: SummariesV) -> Seq<u8> {
    flat_hashes(v.beacon_block_proof) + v.beacon_block_root + le_bytes(460, 4) + le_bytes(
        v.slot as nat,
        8,
    ) + flat_hashes(v.execution_block_proof)
}

/// Wire bytes of a proof: the populated variant's encoding, with no tag of
/// its own.
pub open spec fn spec_encode_proof(p: ProofV) -> Seq<u8> {
    match p {
        ProofV::HistoricalHashes(h) => spec_encode_acc(h),
        ProofV::HistoricalRoots(v) => spec_encode_roots(v),
        ProofV::HistoricalSummaries(v) => spec_encode_summaries(v),
    }
}

// ---------------------------------------------------------------------------
// Decoders (spec)
// ---------------------------------------------------------------------------

/// Decode a pre-merge accumulator proof: exactly 480 bytes, fifteen hashes.
pub open spec fn spec_decode_acc(b: Seq<u8>) -> Result<Seq<Seq<u8>>, DecodeError> {
    if b.len() != 480 {
        Err(DecodeError::ProofLength)
    } else {
        Ok(hash_windows(b, 0, 15))
    }
}

/// Decode a historical-roots proof: exactly 840 bytes.
pub open spec fn spec_decode_roots(b: Seq<u8>) -> Result<RootsV, DecodeError> {
    if b.len() != 840 {
        Err(DecodeError::ProofLength)
    } else {
        Ok(
            RootsV {
                beacon_block_proof: hash_windows(b, 0, 14),
                beacon_block_root: b.subrange(448, 480),
                execution_block_proof: hash_windows(b, 480, 11),
                slot: le_word(b.subrange(832, 840)) as u64,
            },
        )
    }
}

/// Decode a historical-summaries proof: at least the 460 fixed bytes, the
/// offset exactly 460, and a whole number of at most twelve hashes after it.
pub open spec fn spec_decode_summaries(b: Seq<u8>) -> Result<SummariesV, DecodeError> {
    if b.len() < 460 {
        Err(DecodeError::ProofLength)
    } else if le_word(b.subrange(448, 452)) != 460 {
        Err(DecodeError::OffsetInvalid)
    } else if (b.len() - 460) % 32 != 0 {
        Err(DecodeError::ProofLength)
    } else if (b.len() - 460) / 32 > 12 {
        Err(DecodeError::BranchTooLong)
    } else {
        Ok(
            SummariesV {
                beacon_block_proof: hash_windows(b, 0, 13),
                beacon_block_root: b.subrange(416, 448),
                execution_block_proof: hash_windows(b, 460, ((b.len() - 460) / 32) as nat),
                slot: le_word(b.subrange(452, 460)) as u64,
            },
        )
    }
}

// ---------------------------------------------------------------------------
// Codecs (executable)
// ---------------------------------------------------------------------------

/// Append each hash of `v` to `buf`.
fn append_hashes(buf: &mut Vec<u8>, v: &Vec<Vec<u8>>)
    ensures
        final(buf)@ == old(buf)@ + flat_hashes(hashes_view(v@)),
{
    let ghost hv = hashes_view(v@);
    let mut j: usize = 0;
    proof {
        assert(hv.take(0) =~= Seq::<Seq<u8>>::empty());
        assert(buf@ =~= old(buf)@ + flat_hashes(hv.take(0)));
    }
    while j < v.len()
        invariant
            j <= v@.len(),
            hv == hashes_view(v@),
            buf@ == old(buf)@ + flat_hashes(hv.take(j as int)),
        decreases v@.len() - j,
    {
        crate::rlp::append_bytes(buf, &v[j]);
        j += 1;
        proof {
            assert(hv.take(j as int) =~= hv.take(j - 1).push(hv[j - 1]));
            lemma_flat_hashes_push(hv.take(j - 1), hv[j - 1]);
        }
    }
    proof {
        assert(hv.take(v@.len() as int) =~= hv);
    }
}

/// Read `k` consecutive 32-byte hashes starting at `pos`.
fn read_hashes(b: &[u8], pos: usize, k: usize) -> (r: Vec<Vec<u8>>)
    requires
        pos + 32 * k <= b@.len(),
    ensures
        hashes_view(r@) == hash_windows(b@, pos as int, k as nat),
        r@.len() == k,
{
    let blen = b.len();
    let mut r: Vec<Vec<u8>> = Vec::new();
    let mut j: usize = 0;
    while j < k
        invariant
            blen == b@.len(),
            j <= k,
            pos + 32 * k <= b@.len(),
            r@.len() == j,
            forall|i: int| 0 <= i < j ==> (#[trigger] r@[i])@ == hash_windows(
                b@,
                pos as int,
                k as nat,
            )[i],
        decreases k - j,
    {
        proof {
            assert(32 * (j + 1) <= 32 * k);
        }
        let h = copy_slice_range(b, pos + 32 * j, pos + 32 * j + 32);
        r.push(h);
        j += 1;
    }
    proof {
        assert(hashes_view(r@) =~= hash_windows(b@, pos as int, k as nat));
    }
    r
}

/// Decode a pre-merge accumulator proof from exactly 480 bytes.
pub fn decode_historical_hashes(b: &[u8]) -> (r: Result<Vec<Vec<u8>>, DecodeError>)
    ensures
        match r {
            Ok(p) => spec_decode_acc(b@) == Ok::<Seq<Seq<u8>>, DecodeError>(hashes_view(p@)),
            Err(e) => spec_decode_acc(b@) == Err::<Seq<Seq<u8>>, DecodeError>(e),
        },
{
    if b.len() != 480 {
        return Err(DecodeError::ProofLength);
    }
    Ok(read_hashes(b, 0, 15))
}

impl BlockProofHistoricalRoots {
    /// The proof has its era's shape.
    pub open spec fn wf(&self) -> bool {
        wf_roots_v(self@)
    }

    /// Append the wire bytes of this proof to `buf`.
    pub fn ssz_append(&self, buf: &mut Vec<u8>)
        ensures
            final(buf)@ == old(buf)@ + spec_encode_roots(self@),
    {
        append_hashes(buf, &self.beacon_block_proof);
        crate::rlp::append_bytes(buf, &self.beacon_block_root);
        append_hashes(buf, &self.execution_block_proof);
        push_le_bytes(buf, self.slot, 8);
        proof {
            assert(buf@ =~= old(buf)@ + spec_encode_roots(self@));
        }
    }

    /// Decode a proof from exactly 840 wire bytes.
    pub fn from_ssz_bytes(b: &[u8]) -> (r: Result<Self, DecodeError>)
        ensures
            match r {
                Ok(p) => spec_decode_roots(b@) == Ok::<RootsV, DecodeError>(p@),
                Err(e) => spec_decode_roots(b@) == Err::<RootsV, DecodeError>(e),
            },
    {
        if b.len() != 840 {
            return Err(DecodeError::ProofLength);
        }
        let beacon_block_proof = read_hashes(b, 0, 14);
        let beacon_block_root = copy_slice_range(b, 448, 480);
        let execution_block_proof = read_hashes(b, 480, 11);
        let slot = read_le_word(b, 832, 8);
        proof {
            lemma_le_word_bound(b@.subrange(832, 840));
            lemma_pow256le_values();
        }
        Ok(
            BlockProofHistoricalRoots {
                beacon_block_proof,
                beacon_block_root,
                execution_block_proof,
                slot,
            },
        )
    }
}

impl BlockProofHistoricalSummaries {
    /// The proof has its era's shape.
    pub open spec fn wf(&self) -> bool {
        wf_summaries_v(self@)
    }

    /// Append the wire bytes of this proof to `buf`.
    pub fn ssz_append(&self, buf: &mut Vec<u8>)
        ensures
            final(buf)@ == old(buf)@ + spec_encode_summaries(self@),
    {
        append_hashes(buf, &self.beacon_block_proof);
        crate::rlp::append_bytes(buf, &self.beacon_block_root);
        push_le_bytes(buf, 460, 4);
        push_le_bytes(buf, self.slot, 8);
        append_hashes(buf, &self.execution_block_proof);
        proof {
            assert(buf@ =~= old(buf)@ + spec_encode_summaries(self@));
        }
    }

    /// Decode a proof from its wire bytes: 460 fixed bytes and a whole
    /// number of at most twelve hashes.
    pub fn from_ssz_bytes(b: &[u8]) -> (r: Result<Self, DecodeError>)
        ensures
            match r {
                Ok(p) => spec_decode_summaries(b@) == Ok::<SummariesV, DecodeError>(p@),
                Err(e) => spec_decode_summaries(b@) == Err::<SummariesV, DecodeError>(e),
            },
    {
        if b.len() < 460 {
            return Err(DecodeError::ProofLength);
        }
        let off = read_le_word(b, 448, 4);
        if off != 460 {
            proof {
                lemma_le_word_bound(b@.subrange(448, 452));
                lemma_pow256le_values();
            }
            return Err(DecodeError::OffsetInvalid);
        }
        let rem = b.len() - 460;
        if rem % 32 != 0 {
            return Err(DecodeError::ProofLength);
        }
        let cnt = rem / 32;
        if cnt > 12 {
            return Err(DecodeError::BranchTooLong);
        }
        let beacon_block_proof = read_hashes(b, 0, 13);
        let beacon_block_root = copy_slice_range(b, 416, 448);
        let slot = read_le_word(b, 452, 8);
        let execution_block_proof = read_hashes(b, 460, cnt);
        proof {
            lemma_le_word_bound(b@.subrange(452, 460));
            lemma_pow256le_values();
        }
        Ok(
            BlockProofHistoricalSummaries {
                beacon_block_proof,
                beacon_block_root,
                execution_block_proof,
                slot,
            },
        )
    }
}

impl BlockHeaderProof {
    /// The populated variant has its era's shape.
    pub open spec fn wf(&self) -> bool {
        wf_proof_v(self@)
    }

    /// The wire encoding of a proof is not a fixed size: its variant and,
    /// after Capella, its branch decide it.
    pub fn is_ssz_fixed_len() -> (r: bool)
        ensures
            r == false,
    {
        false
    }

    /// Append the wire bytes of the populated variant to `buf`; no variant
    /// tag is written.
    pub fn ssz_append(&self, buf: &mut Vec<u8>)
        ensures
            final(buf)@ == old(buf)@ + spec_encode_proof(self@),
    {
        match self {
            BlockHeaderProof::HistoricalHashes(p) => {
                append_hashes(buf, p);
            },
            BlockHeaderProof::HistoricalRoots(p) => {
                p.ssz_append(buf);
            },
            BlockHeaderProof::HistoricalSummaries(p) => {
                p.ssz_append(buf);
            },
        }
    }

    /// The number of wire bytes `ssz_append` writes: 480 before the merge,
    /// 840 up to Capella, 460 plus the execution branch after.
    pub fn ssz_bytes_len(&self) -> (r: usize)
        requires
            self.wf(),
        ensures
            r == spec_encode_proof(self@).len(),
            self@ is HistoricalHashes ==> r == 480,
            self@ is HistoricalRoots ==> r == 840,
    {
        match self {
            BlockHeaderProof::HistoricalHashes(p) => {
                proof {
                    assert(self@ == ProofV::HistoricalHashes(hashes_view(p@)));
                    assert(wf_acc_v(hashes_view(p@)));
                    lemma_flat_hashes_len(hashes_view(p@));
                    assert(spec_encode_proof(self@) == flat_hashes(hashes_view(p@)));
                    assert(hashes_view(p@).len() == 15);
                    assert(spec_encode_proof(self@).len() == 480);
                }
                480
            },
            BlockHeaderProof::HistoricalRoots(p) => {
                proof {
                    assert(self@ == ProofV::HistoricalRoots(p@));
                    lemma_flat_hashes_len(hashes_view(p.beacon_block_proof@));
                    lemma_flat_hashes_len(hashes_view(p.execution_block_proof@));
                    lemma_pow256le_values();
                    lemma_le_round(p.slot as nat, 8);
                }
                840
            },
            BlockHeaderProof::HistoricalSummaries(p) => {
                proof {
                    assert(self@ == ProofV::HistoricalSummaries(p@));
                    lemma_flat_hashes_len(hashes_view(p.beacon_block_proof@));
                    lemma_flat_hashes_len(hashes_view(p.execution_block_proof@));
                    lemma_pow256le_values();
                    lemma_le_round(460, 4);
                    lemma_le_round(p.slot as nat, 8);
                }
                460 + 32 * p.execution_block_proof.len()
            },
        }
    }
}

// ---------------------------------------------------------------------------
// Round-trip lemmas
// ---------------------------------------------------------------------------

/// Decoding an encoded accumulator proof recovers it.
pub proof fn lemma_acc_round_trip(p: Seq<Seq<u8>>)
    requires
        wf_acc_v(p),
    ensures
        spec_decode_acc(spec_encode_acc(p)) == Ok::<Seq<Seq<u8>>, DecodeError>(p),
{
    let b = spec_encode_acc(p);
    lemma_flat_hashes_len(p);
    assert(b.subrange(0, 480) =~= flat_hashes(p));
    lemma_hash_windows_of_flat(b, 0, p);
}

/// Decoding an encoded historical-roots proof recovers it.
pub proof fn lemma_roots_round_trip(v: RootsV)
    requires
        wf_roots_v(v),
    ensures
        spec_decode_roots(spec_encode_roots(v)) == Ok::<RootsV, DecodeError>(v),
{
    let b = spec_encode_roots(v);
    let f1 = flat_hashes(v.beacon_block_proof);
    let f2 = flat_hashes(v.execution_block_proof);
    lemma_flat_hashes_len(v.beacon_block_proof);
    lemma_flat_hashes_len(v.execution_block_proof);
    lemma_pow256le_values();
    lemma_le_round(v.slot as nat, 8);
    assert(b.len() == 840);
    assert(b.subrange(0, 448) =~= f1);
    lemma_hash_windows_of_flat(b, 0, v.beacon_block_proof);
    assert(b.subrange(448, 480) =~= v.beacon_block_root);
    assert(b.subrange(480, 832) =~= f2);
    lemma_hash_windows_of_flat(b, 480, v.execution_block_proof);
    assert(b.subrange(832, 840) =~= le_bytes(v.slot as nat, 8));
    match spec_decode_roots(b) {
        Ok(w) => {
            assert(w =~= v);
        },
        Err(e) => {
            assert(false);
        },
    }
}

/// Decoding an encoded historical-summaries proof recovers it.
pub proof fn lemma_summaries_round_trip(v: SummariesV)
    requires
        wf_summaries_v(v),
    ensures
        spec_decode_summaries(spec_encode_summaries(v)) == Ok::<SummariesV, DecodeError>(v),
{
    let b = spec_encode_summaries(v);
    let f1 = flat_hashes(v.beacon_block_proof);
    let f2 = flat_hashes(v.execution_block_proof);
    let e = v.execution_block_proof.len() as int;
    lemma_flat_hashes_len(v.beacon_block_proof);
    lemma_flat_hashes_len(v.execution_block_proof);
    lemma_pow256le_values();
    lemma_le_round(460, 4);
    lemma_le_round(v.slot as nat, 8);
    assert(b.len() == 460 + 32 * e);
    assert(b.subrange(448, 452) =~= le_bytes(460, 4));
    assert((32 * e) % 32 == 0 && (32 * e) / 32 == e) by (nonlinear_arith)
        requires
            0 <= e,
    ;
    assert(b.subrange(0, 416) =~= f1);
    lemma_hash_windows_of_flat(b, 0, v.beacon_block_proof);
    assert(b.subrange(416, 448) =~= v.beacon_block_root);
    assert(b.subrange(452, 460) =~= le_bytes(v.slot as nat, 8));
    assert(b.subrange(460, 460 + 32 * e) =~= f2);
    lemma_hash_windows_of_flat(b, 460, v.execution_block_proof);
    match spec_decode_summaries(b) {
        Ok(w) => {
            assert(w =~= v);
        },
        Err(err) => {
            assert(false);
        },
    }
}


/// The fixed shapes of the three eras' proofs: a pre-merge proof encodes to
/// exactly 480 bytes; a historical-roots proof has a fourteen-hash beacon
/// branch, an eleven-hash execution branch and 840 encoded bytes; a
/// historical-summaries proof has a thirteen-hash beacon branch, an
/// execution branch of at most twelve hashes, and 460 encoded bytes plus 32
/// per execution-branch hash.
pub proof fn lemma_proof_sizes(p: ProofV)
    requires
        wf_proof_v(p),
    ensures
        match p {
            ProofV::HistoricalHashes(h) => h.len() == 15 && spec_encode_proof(p).len() == 480,
            ProofV::HistoricalRoots(v) => v.beacon_block_proof.len() == 14
                && v.execution_block_proof.len() == 11 && spec_encode_proof(p).len() == 840,
            ProofV::HistoricalSummaries(v) => v.beacon_block_proof.len() == 13
                && v.execution_block_proof.len() <= 12 && spec_encode_proof(p).len() == 460 + 32
                * v.execution_block_proof.len(),
        },
{
    lemma_pow256le_values();
    match p {
        ProofV::HistoricalHashes(h) => {
            lemma_flat_hashes_len(h);
        },
        ProofV::HistoricalRoots(v) => {
            lemma_flat_hashes_len(v.beacon_block_proof);
            lemma_flat_hashes_len(v.execution_block_proof);
            lemma_le_round(v.slot as nat, 8);
        },
        ProofV::HistoricalSummaries(v) => {
            lemma_flat_hashes_len(v.beacon_block_proof);
            lemma_flat_hashes_len(v.execution_block_proof);
            lemma_le_round(460, 4);
            lemma_le_round(v.slot as nat, 8);
        },
    }
}

/// The concatenation of consecutive windows is the windowed byte range.
pub proof fn lemma_flat_of_windows(b: Seq<u8>, pos: int, k: nat)
    requires
        0 <= pos,
        pos + 32 * k <= b.len(),
    ensures
        flat_hashes(hash_windows(b, pos, k)) == b.subrange(pos, pos + 32 * k),
    decreases k,
{
    if k == 0 {
        assert(hash_windows(b, pos, 0) =~= Seq::<Seq<u8>>::empty());
        assert(flat_hashes(hash_windows(b, pos, 0)) =~= b.subrange(pos, pos));
    } else {
        lemma_flat_of_windows(b, pos + 32, (k - 1) as nat);
        assert(hash_windows(b, pos, k).skip(1) =~= hash_windows(b, pos + 32, (k - 1) as nat));
        assert(hash_windows(b, pos, k)[0] == b.subrange(pos, pos + 32));
        assert(flat_hashes(hash_windows(b, pos, k)) == b.subrange(pos, pos + 32) + flat_hashes(
            hash_windows(b, pos + 32, (k - 1) as nat),
        ));
        assert(flat_hashes(hash_windows(b, pos, k)) =~= b.subrange(pos, pos + 32 * k));
    }
}

/// Re-encoding a decoded accumulator proof gives the decoded bytes back.
pub proof fn lemma_acc_enc_of_decode(b: Seq<u8>)
    requires
        spec_decode_acc(b) is Ok,
    ensures
        spec_encode_acc(spec_decode_acc(b)->Ok_0) == b,
{
    lemma_flat_of_windows(b, 0, 15);
    assert(b.subrange(0, 480) =~= b);
}

/// Re-encoding a decoded historical-roots proof gives the decoded bytes
/// back.
pub proof fn lemma_roots_enc_of_decode(b: Seq<u8>)
    requires
        spec_decode_roots(b) is Ok,
    ensures
        spec_encode_roots(spec_decode_roots(b)->Ok_0) == b,
{
    let v = spec_decode_roots(b)->Ok_0;
    lemma_flat_of_windows(b, 0, 14);
    lemma_flat_of_windows(b, 480, 11);
    let sl = b.subrange(832, 840);
    lemma_le_word_bound(sl);
    lemma_pow256le_values();
    lemma_le_bytes_of_word(sl);
    assert(le_bytes(v.slot as nat, 8) == sl);
    assert(spec_encode_roots(v) =~= b);
}

/// Re-encoding a decoded historical-summaries proof gives the decoded
/// bytes back.
pub proof fn lemma_summaries_enc_of_decode(b: Seq<u8>)
    requires
        spec_decode_summaries(b) is Ok,
    ensures
        spec_encode_summaries(spec_decode_summaries(b)->Ok_0) == b,
{
    let v = spec_decode_summaries(b)->Ok_0;
    let e = (b.len() - 460) / 32;
    assert(32 * e == b.len() - 460) by (nonlinear_arith)
        requires
            (b.len() - 460) % 32 == 0,
            e == (b.len() - 460) / 32,
            b.len() >= 460,
    ;
    lemma_flat_of_windows(b, 0, 13);
    lemma_flat_of_windows(b, 460, e as nat);
    let off = b.subrange(448, 452);
    lemma_le_bytes_of_word(off);
    assert(le_bytes(460, 4) == off);
    let sl = b.subrange(452, 460);
    lemma_le_word_bound(sl);
    lemma_pow256le_values();
    lemma_le_bytes_of_word(sl);
    assert(le_bytes(v.slot as nat, 8) == sl);
    assert(spec_encode_summaries(v) =~= b);
}

} // verus!
