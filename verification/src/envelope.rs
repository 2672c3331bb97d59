//! The wire envelope pairing a header with its proof.
//!
//! The envelope is an offset-table container of exactly two variable-length
//! items: the header's canonical RLP bytes and the proof's bytes. The proof
//! bytes carry no tag of their own; which variant they hold is decided by
//! the decoded header's timestamp against the two fork boundaries, each
//! boundary belonging to the earlier era.

use vstd::prelude::*;
use crate::{DecodeError, LONDON_BLOCK_NUMBER, MERGE_TIMESTAMP, SHANGHAI_TIMESTAMP};
use crate::byteseq::{
    copy_slice_range, le_bytes, le_word, lemma_le_bytes_of_word, lemma_le_round,
    lemma_pow256le_values, push_le_bytes, read_le_word,
};
use crate::header::{
    header_rlp, header_sealed, lemma_header_enc_of_decode, lemma_header_round_trip,
    spec_decode_header, wf_header_v, Header, HeaderV,
};
use crate::rlp::append_bytes;
use crate::variants::{
    decode_historical_hashes, lemma_acc_enc_of_decode, lemma_acc_round_trip,
    lemma_roots_enc_of_decode, lemma_roots_round_trip, lemma_summaries_enc_of_decode,
    lemma_summaries_round_trip, spec_decode_acc, spec_decode_roots, spec_decode_summaries,
    spec_encode_proof, wf_proof_v, BlockHeaderProof, BlockProofHistoricalRoots,
    BlockProofHistoricalSummaries, ProofV,
};

verus! {

/// The chain era a header timestamp falls in.
#[derive(Clone, Copy, Debug, PartialEq, Eq, Structural)]
pub enum ProofEra {
    /// At or before the merge boundary.
    PreMerge,
    /// After the merge boundary, at or before the Shanghai boundary.
    MergeToCapella,
    /// After the Shanghai boundary.
    CapellaOnward,
}

/// The era of a timestamp: a pure function of the timestamp against the two
/// fixed boundaries, each boundary counted with the earlier era.
pub open spec fn spec_era_of(t: u64) -> ProofEra {
    if t <= MERGE_TIMESTAMP {
        ProofEra::PreMerge
    } else if t <= SHANGHAI_TIMESTAMP {
        ProofEra::MergeToCapella
    } else {
        ProofEra::CapellaOnward
    }
}

/// The era a header with timestamp `t` is proven under.
pub fn era_of_timestamp(t: u64) -> (r: ProofEra)
    ensures
        r == spec_era_of(t),
{
    if t <= MERGE_TIMESTAMP {
        ProofEra::PreMerge
    } else if t <= SHANGHAI_TIMESTAMP {
        ProofEra::MergeToCapella
    } else {
        ProofEra::CapellaOnward
    }
}

/// The populated proof variant is the one `t`'s era calls for.
pub open spec fn proof_matches_era(p: ProofV, t: u64) -> bool {
    match p {
        ProofV::HistoricalHashes(h) => spec_era_of(t) == ProofEra::PreMerge,
        ProofV::HistoricalRoots(v) => spec_era_of(t) == ProofEra::MergeToCapella,
        ProofV::HistoricalSummaries(v) => spec_era_of(t) == ProofEra::CapellaOnward,
    }
}

/// Era dispatch is deterministic in the timestamp, and both boundary values
/// select the earlier era.
pub proof fn lemma_era_dispatch(t: u64)
    ensures
        t <= MERGE_TIMESTAMP ==> spec_era_of(t) == ProofEra::PreMerge,
        MERGE_TIMESTAMP < t <= SHANGHAI_TIMESTAMP ==> spec_era_of(t) == ProofEra::MergeToCapella,
        t > SHANGHAI_TIMESTAMP ==> spec_era_of(t) == ProofEra::CapellaOnward,
{
}

/// Value of a header paired with its proof.
#[verifier::ext_equal]
pub ghost struct HeaderWithProofV {
    pub header: HeaderV,
    pub proof: ProofV,
}

/// A block header with the proof anchoring it into the canonical chain.
#[derive(Debug, Clone, PartialEq, Eq)]
pub struct HeaderWithProof {
    /// The execution block header.
    pub header: Header,
    /// The proof for the header's era.
    pub proof: BlockHeaderProof,
}

impl View for HeaderWithProof {
    type V = HeaderWithProofV;

    open spec fn view(&self) -> HeaderWithProofV {
        HeaderWithProofV { header: self.header@, proof: self.proof@ }
    }
}

/// Header fields have their wire widths and the proof has its era's shape.
pub open spec fn wf_hwp_v(v: HeaderWithProofV) -> bool {
    wf_header_v(v.header) && wf_proof_v(v.proof)
}

/// Wire bytes of a header with proof: two little-endian offsets (the first
/// fixed at eight, the second where the proof bytes start), the header's
/// canonical RLP bytes, then the proof bytes.
pub open spec fn spec_encode_hwp(v: HeaderWithProofV) -> Seq<u8> {
    le_bytes(8, 4) + le_bytes((8 + header_rlp(v.header).len()) as nat, 4) + header_rlp(v.header)
        + spec_encode_proof(v.proof)
}

/// What decoding an envelope yields: the header and the proof variant the
/// header's era selects, or the error of the first check that fails.
pub open spec fn spec_decode_hwp(b: Seq<u8>) -> Result<HeaderWithProofV, DecodeError> {
    if b.len() < 8 {
        Err(DecodeError::OffsetInvalid)
    } else {
        let o0 = le_word(b.subrange(0, 4));
        let o1 = le_word(b.subrange(4, 8));
        if o0 != 8 {
            Err(DecodeError::OffsetInvalid)
        } else if o1 < 8 || o1 > b.len() {
            Err(DecodeError::OffsetInvalid)
        } else {
            match spec_decode_header(b.subrange(8, o1 as int), LONDON_BLOCK_NUMBER) {
                Err(e) => Err(e),
                Ok(h) => {
                    let pb = b.subrange(o1 as int, b.len() as int);
                    if h.timestamp <= MERGE_TIMESTAMP {
                        match spec_decode_acc(pb) {
                            Err(e) => Err(e),
                            Ok(p) => Ok(
                                HeaderWithProofV { header: h, proof: ProofV::HistoricalHashes(p) },
                            ),
                        }
                    } else if h.timestamp <= SHANGHAI_TIMESTAMP {
                        match spec_decode_roots(pb) {
                            Err(e) => Err(e),
                            Ok(p) => Ok(
                                HeaderWithProofV { header: h, proof: ProofV::HistoricalRoots(p) },
                            ),
                        }
                    } else {
                        match spec_decode_summaries(pb) {
                            Err(e) => Err(e),
                            Ok(p) => Ok(
                                HeaderWithProofV {
                                    header: h,
                                    proof: ProofV::HistoricalSummaries(p),
                                },
                            ),
                        }
                    }
                },
            }
        }
    }
}

impl HeaderWithProof {
    /// Header fields have their wire widths and the proof has its era's
    /// shape.
    pub open spec fn wf(&self) -> bool {
        wf_hwp_v(self@)
    }

    /// The envelope is not a fixed size: both its items vary.
    pub fn is_ssz_fixed_len() -> (r: bool)
        ensures
            r == false,
    {
        false
    }

    /// Append the wire bytes of this value to `buf`. The proof's own
    /// variant drives the encoding; the header's era is not re-checked.
    pub fn ssz_append(&self, buf: &mut Vec<u8>)
        requires
            header_rlp(self@.header).len() + 8 <= 0xffff_ffff,
        ensures
            final(buf)@ == old(buf)@ + spec_encode_hwp(self@),
    {
        let hb = self.header.rlp();
        push_le_bytes(buf, 8, 4);
        push_le_bytes(buf, 8 + hb.len() as u64, 4);
        append_bytes(buf, &hb);
        self.proof.ssz_append(buf);
        proof {
            assert(buf@ =~= old(buf)@ + spec_encode_hwp(self@));
        }
    }

    /// The wire bytes of this value.
    pub fn as_ssz_bytes(&self) -> (r: Vec<u8>)
        requires
            header_rlp(self@.header).len() + 8 <= 0xffff_ffff,
        ensures
            r@ == spec_encode_hwp(self@),
    {
        let mut buf: Vec<u8> = Vec::new();
        self.ssz_append(&mut buf);
        proof {
            assert(buf@ =~= spec_encode_hwp(self@));
        }
        buf
    }

    /// Decode a header with proof from wire bytes: the offset table, the
    /// header, then the proof variant selected by the header's timestamp.
    /// No partial value is returned: any failing check fails the decode.
    pub fn from_ssz_bytes(b: &[u8]) -> (r: Result<HeaderWithProof, DecodeError>)
        ensures
            match r {
                Ok(x) => spec_decode_hwp(b@) == Ok::<HeaderWithProofV, DecodeError>(x@)
                    && wf_proof_v(x@.proof) && proof_matches_era(x@.proof, x@.header.timestamp),
                Err(e) => spec_decode_hwp(b@) == Err::<HeaderWithProofV, DecodeError>(e),
            },
    {
        if b.len() < 8 {
            return Err(DecodeError::OffsetInvalid);
        }
        let o0 = read_le_word(b, 0, 4);
        if o0 != 8 {
            return Err(DecodeError::OffsetInvalid);
        }
        let o1w = read_le_word(b, 4, 4);
        if o1w < 8 || o1w > b.len() as u64 {
            return Err(DecodeError::OffsetInvalid);
        }
        let o1 = o1w as usize;
        let hb = copy_slice_range(b, 8, o1);
        let header = match Header::decode_rlp(hb.as_slice(), LONDON_BLOCK_NUMBER) {
            Ok(h) => h,
            Err(e) => {
                return Err(e);
            },
        };
        let pb = copy_slice_range(b, o1, b.len());
        if header.timestamp <= MERGE_TIMESTAMP {
            match decode_historical_hashes(pb.as_slice()) {
                Ok(p) => Ok(HeaderWithProof { header, proof: BlockHeaderProof::HistoricalHashes(p) }),
                Err(e) => Err(e),
            }
        } else if header.timestamp <= SHANGHAI_TIMESTAMP {
            match BlockProofHistoricalRoots::from_ssz_bytes(pb.as_slice()) {
                Ok(p) => Ok(HeaderWithProof { header, proof: BlockHeaderProof::HistoricalRoots(p) }),
                Err(e) => Err(e),
            }
        } else {
            match BlockProofHistoricalSummaries::from_ssz_bytes(pb.as_slice()) {
                Ok(p) => Ok(
                    HeaderWithProof { header, proof: BlockHeaderProof::HistoricalSummaries(p) },
                ),
                Err(e) => Err(e),
            }
        }
    }
}

/// Decoding an encoding yields the value back: for every well-formed header
/// with proof whose variant matches its header's era, whose header is in
/// decodable (sealed) form, and whose header encoding leaves the second
/// offset within its four bytes.
pub proof fn lemma_round_trip(v: HeaderWithProofV)
    requires
        wf_hwp_v(v),
        header_sealed(v.header, LONDON_BLOCK_NUMBER),
        proof_matches_era(v.proof, v.header.timestamp),
        header_rlp(v.header).len() + 8 <= 0xffff_ffff,
    ensures
        spec_decode_hwp(spec_encode_hwp(v)) == Ok::<HeaderWithProofV, DecodeError>(v),
{
    let hb = header_rlp(v.header);
    let pb = spec_encode_proof(v.proof);
    let b = spec_encode_hwp(v);
    lemma_pow256le_values();
    lemma_le_round(8, 4);
    lemma_le_round((8 + hb.len()) as nat, 4);
    assert(b.subrange(0, 4) =~= le_bytes(8, 4));
    assert(b.subrange(4, 8) =~= le_bytes((8 + hb.len()) as nat, 4));
    assert(b.subrange(8, (8 + hb.len()) as int) =~= hb);
    lemma_header_round_trip(v.header, LONDON_BLOCK_NUMBER);
    assert(b.subrange((8 + hb.len()) as int, b.len() as int) =~= pb);
    match v.proof {
        ProofV::HistoricalHashes(p) => {
            lemma_acc_round_trip(p);
        },
        ProofV::HistoricalRoots(rv) => {
            lemma_roots_round_trip(rv);
        },
        ProofV::HistoricalSummaries(sv) => {
            lemma_summaries_round_trip(sv);
        },
    }
    match spec_decode_hwp(b) {
        Ok(w) => {
            assert(w =~= v);
        },
        Err(e) => {
            assert(false);
        },
    }
}

/// Re-encoding a decoded envelope gives the decoded bytes back: every byte
/// string the decoder accepts is a canonical encoding, so decoding and
/// re-encoding is the identity on wire bytes.
pub proof fn lemma_encode_of_decode(b: Seq<u8>)
    requires
        spec_decode_hwp(b) is Ok,
    ensures
        spec_encode_hwp(spec_decode_hwp(b)->Ok_0) == b,
{
    let v = spec_decode_hwp(b)->Ok_0;
    let o0s = b.subrange(0, 4);
    let o1s = b.subrange(4, 8);
    let o1 = le_word(o1s);
    lemma_le_bytes_of_word(o0s);
    lemma_le_bytes_of_word(o1s);
    assert(le_bytes(8, 4) == o0s);
    let hb = b.subrange(8, o1 as int);
    lemma_header_enc_of_decode(hb, LONDON_BLOCK_NUMBER);
    assert(header_rlp(v.header) == hb);
    assert(header_rlp(v.header).len() == o1 - 8);
    assert(le_bytes((8 + header_rlp(v.header).len()) as nat, 4) == o1s);
    let pb = b.subrange(o1 as int, b.len() as int);
    if v.header.timestamp <= MERGE_TIMESTAMP {
        lemma_acc_enc_of_decode(pb);
    } else if v.header.timestamp <= SHANGHAI_TIMESTAMP {
        lemma_roots_enc_of_decode(pb);
    } else {
        lemma_summaries_enc_of_decode(pb);
    }
    assert(spec_encode_proof(v.proof) == pb);
    assert(spec_encode_hwp(v) =~= b);
}

} // verus!
