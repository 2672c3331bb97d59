//! The execution block header and its canonical byte codec.
//!
//! A header's canonical byte form is one RLP list of 13 to 16 string items:
//! thirteen always-present fields, the two proof-of-work seal fields when
//! both are set, and the base fee from the London fork on. Decoding is
//! strict: it accepts exactly the lists the encoder produces, so decoding
//! and re-encoding is the identity on wire bytes.

use vstd::prelude::*;
use crate::DecodeError;
use crate::byteseq::{bytes_eq, copy_bytes, opt_bytes_eq};
use crate::hashing::{keccak256, keccak_of};
use crate::rlp::{
    append_bytes, append_list_hdr, append_str, be_of, be_val, flat_enc, lemma_be_of_len,
    lemma_be_of_val, lemma_be_of_val_inv, lemma_be_val_bound, lemma_enc_of_parse_items,
    lemma_enc_of_parse_list_hdr, lemma_flat_enc_len, lemma_flat_enc_push, lemma_flat_enc_split,
    lemma_min_be_pad, lemma_min_be_wf, lemma_pad_min_be, lemma_parse_items_of_enc,
    lemma_parse_list_hdr_of_enc, lemma_pow256_mono, lemma_pow256_values, lemma_window, min_be,
    pad_left32, parse_items, parse_list_hdr, rlp_list_hdr, rlp_str, spec_parse_items,
    spec_parse_list_hdr, strip_leading_zeros, u64_be_min,
};

verus! {

/// The mathematical value of a header: every byte field as a plain byte
/// sequence, fixed-width integers as themselves.
#[verifier::ext_equal]
pub ghost struct HeaderV {
    pub parent_hash: Seq<u8>,
    pub uncles_hash: Seq<u8>,
    pub author: Seq<u8>,
    pub state_root: Seq<u8>,
    pub transactions_root: Seq<u8>,
    pub receipts_root: Seq<u8>,
    pub log_bloom: Seq<u8>,
    pub difficulty: Seq<u8>,
    pub number: u64,
    pub gas_limit: Seq<u8>,
    pub gas_used: Seq<u8>,
    pub timestamp: u64,
    pub extra_data: Seq<u8>,
    pub mix_hash: Option<Seq<u8>>,
    pub nonce: Option<u64>,
    pub base_fee_per_gas: Option<Seq<u8>>,
}

/// A block header.
///
/// Hashes are 32 bytes, the author address 20, the bloom filter 256; the
/// 256-bit quantities (difficulty, gas fields, base fee) are held as 32-byte
/// big-endian strings.
#[derive(Debug, Clone)]
pub struct Header {
    /// Block parent hash.
    pub parent_hash: Vec<u8>,
    /// Block uncles hash.
    pub uncles_hash: Vec<u8>,
    /// Block author.
    pub author: Vec<u8>,
    /// Block state root.
    pub state_root: Vec<u8>,
    /// Block transactions root.
    pub transactions_root: Vec<u8>,
    /// Block receipts root.
    pub receipts_root: Vec<u8>,
    /// Block bloom filter.
    pub log_bloom: Vec<u8>,
    /// Block difficulty, big-endian.
    pub difficulty: Vec<u8>,
    /// Block number.
    pub number: u64,
    /// Block gas limit, big-endian.
    pub gas_limit: Vec<u8>,
    /// Block gas used, big-endian.
    pub gas_used: Vec<u8>,
    /// Block timestamp.
    pub timestamp: u64,
    /// Block extra data.
    pub extra_data: Vec<u8>,
    /// Block proof-of-work mix hash.
    pub mix_hash: Option<Vec<u8>>,
    /// Block proof-of-work nonce.
    pub nonce: Option<u64>,
    /// Block base fee per gas, big-endian; present from the London fork on.
    pub base_fee_per_gas: Option<Vec<u8>>,
}

impl View for Header {
    type V = HeaderV;

    open spec fn view(&self) -> HeaderV {
        HeaderV {
            parent_hash: self.parent_hash@,
            uncles_hash: self.uncles_hash@,
            author: self.author@,
            state_root: self.state_root@,
            transactions_root: self.transactions_root@,
            receipts_root: self.receipts_root@,
            log_bloom: self.log_bloom@,
            difficulty: self.difficulty@,
            number: self.number,
            gas_limit: self.gas_limit@,
            gas_used: self.gas_used@,
            timestamp: self.timestamp,
            extra_data: self.extra_data@,
            mix_hash: match &self.mix_hash {
                Some(m) => Some(m@),
                None => None,
            },
            nonce: self.nonce,
            base_fee_per_gas: match &self.base_fee_per_gas {
                Some(f) => Some(f@),
                None => None,
            },
        }
    }
}

/// Every field has its wire width, and the extra data is small enough for
/// its length prefix.
pub open spec fn wf_header_v(h: HeaderV) -> bool {
    &&& h.parent_hash.len() == 32
    &&& h.uncles_hash.len() == 32
    &&& h.author.len() == 20
    &&& h.state_root.len() == 32
    &&& h.transactions_root.len() == 32
    &&& h.receipts_root.len() == 32
    &&& h.log_bloom.len() == 256
    &&& h.difficulty.len() == 32
    &&& h.gas_limit.len() == 32
    &&& h.gas_used.len() == 32
    &&& match h.mix_hash {
        Some(m) => m.len() == 32,
        None => true,
    }
    &&& match h.base_fee_per_gas {
        Some(f) => f.len() == 32,
        None => true,
    }
    &&& h.extra_data.len() < 0x1_0000_0000
}

/// The header is in the form the decoder can return for boundary `london`:
/// both seal fields set, and a base fee exactly from that block number on.
pub open spec fn header_sealed(h: HeaderV, london: u64) -> bool {
    &&& h.mix_hash is Some
    &&& h.nonce is Some
    &&& (h.base_fee_per_gas is Some <==> h.number >= london)
}

/// The payloads of the header's RLP items, in wire order.
pub open spec fn header_items(h: HeaderV) -> Seq<Seq<u8>> {
    let base = seq![
        h.parent_hash,
        h.uncles_hash,
        h.author,
        h.state_root,
        h.transactions_root,
        h.receipts_root,
        h.log_bloom,
        min_be(h.difficulty),
        be_of(h.number as nat),
        min_be(h.gas_limit),
        min_be(h.gas_used),
        be_of(h.timestamp as nat),
        h.extra_data,
    ];
    let sealed = match (h.mix_hash, h.nonce) {
        (Some(m), Some(n)) => base + seq![m, be_of(n as nat)],
        _ => base,
    };
    match h.base_fee_per_gas {
        Some(f) => sealed + seq![min_be(f)],
        None => sealed,
    }
}

/// The payload of the header's RLP list.
pub open spec fn header_payload(h: HeaderV) -> Seq<u8> {
    flat_enc(header_items(h))
}

/// The canonical byte form of a header: one RLP list of its items.
pub open spec fn header_rlp(h: HeaderV) -> Seq<u8> {
    rlp_list_hdr(header_payload(h).len()) + header_payload(h)
}

// ---------------------------------------------------------------------------
// Field decoders
// ---------------------------------------------------------------------------

/// A fixed-width field: the payload must have exactly the field's width.
pub open spec fn spec_dec_fixed(p: Seq<u8>, n: nat) -> Result<Seq<u8>, DecodeError> {
    if p.len() == n {
        Ok(p)
    } else {
        Err(DecodeError::FieldLength)
    }
}

/// A 64-bit integer: at most eight bytes, no leading zero.
pub open spec fn spec_dec_u64(p: Seq<u8>) -> Result<u64, DecodeError> {
    if p.len() > 8 {
        Err(DecodeError::FieldLength)
    } else if p.len() > 0 && p[0] == 0 {
        Err(DecodeError::NonCanonical)
    } else {
        Ok(be_val(p) as u64)
    }
}

/// A 256-bit integer: at most 32 bytes, no leading zero, widened to the
/// 32-byte form the `Header` fields hold.
pub open spec fn spec_dec_u256(p: Seq<u8>) -> Result<Seq<u8>, DecodeError> {
    if p.len() > 32 {
        Err(DecodeError::FieldLength)
    } else if p.len() > 0 && p[0] == 0 {
        Err(DecodeError::NonCanonical)
    } else {
        Ok(pad_left32(p))
    }
}

fn dec_fixed(p: &Vec<u8>, n: usize) -> (r: Result<Vec<u8>, DecodeError>)
    ensures
        match r {
            Ok(v) => spec_dec_fixed(p@, n as nat) == Ok::<Seq<u8>, DecodeError>(v@),
            Err(e) => spec_dec_fixed(p@, n as nat) == Err::<Seq<u8>, DecodeError>(e),
        },
{
    if p.len() == n {
        Ok(copy_bytes(p))
    } else {
        Err(DecodeError::FieldLength)
    }
}

fn dec_u64(p: &Vec<u8>) -> (r: Result<u64, DecodeError>)
    ensures
        match r {
            Ok(v) => spec_dec_u64(p@) == Ok::<u64, DecodeError>(v),
            Err(e) => spec_dec_u64(p@) == Err::<u64, DecodeError>(e),
        },
{
    if p.len() > 8 {
        return Err(DecodeError::FieldLength);
    }
    if p.len() > 0 && p[0] == 0 {
        return Err(DecodeError::NonCanonical);
    }
    let v = crate::rlp::read_be_val(p.as_slice(), 0, p.len());
    proof {
        assert(p@.subrange(0, p@.len() as int) =~= p@);
        crate::rlp::lemma_be_val_bound(p@);
        crate::rlp::lemma_pow256_values();
        crate::rlp::lemma_pow256_mono(p@.len(), 8);
    }
    Ok(v)
}

fn dec_u256(p: &Vec<u8>) -> (r: Result<Vec<u8>, DecodeError>)
    ensures
        match r {
            Ok(v) => spec_dec_u256(p@) == Ok::<Seq<u8>, DecodeError>(v@),
            Err(e) => spec_dec_u256(p@) == Err::<Seq<u8>, DecodeError>(e),
        },
{
    if p.len() > 32 {
        return Err(DecodeError::FieldLength);
    }
    if p.len() > 0 && p[0] == 0 {
        return Err(DecodeError::NonCanonical);
    }
    let pad: usize = 32 - p.len();
    let mut v: Vec<u8> = Vec::new();
    let mut i: usize = 0;
    while i < pad
        invariant
            i <= pad,
            v@.len() == i,
            forall|k: int| 0 <= k < i ==> v@[k] == 0,
        decreases pad - i,
    {
        v.push(0);
        i += 1;
    }
    append_bytes(&mut v, p);
    proof {
        assert(v@ =~= pad_left32(p@));
    }
    Ok(v)
}

// ---------------------------------------------------------------------------
// The header decoder (spec)
// ---------------------------------------------------------------------------

/// Assemble a header from fifteen parsed item payloads and the optional
/// base-fee payload, converting each field in wire order.
pub open spec fn spec_header_from_items(
    items: Seq<Seq<u8>>,
    base_fee_item: Option<Seq<u8>>,
    number: u64,
) -> Result<HeaderV, DecodeError> {
    match spec_dec_fixed(items[0], 32) {
        Err(e) => Err(e),
        Ok(parent_hash) => match spec_dec_fixed(items[1], 32) {
            Err(e) => Err(e),
            Ok(uncles_hash) => match spec_dec_fixed(items[2], 20) {
                Err(e) => Err(e),
                Ok(author) => match spec_dec_fixed(items[3], 32) {
                    Err(e) => Err(e),
                    Ok(state_root) => match spec_dec_fixed(items[4], 32) {
                        Err(e) => Err(e),
                        Ok(transactions_root) => match spec_dec_fixed(items[5], 32) {
                            Err(e) => Err(e),
                            Ok(receipts_root) => match spec_dec_fixed(items[6], 256) {
                                Err(e) => Err(e),
                                Ok(log_bloom) => match spec_dec_u256(items[7]) {
                                    Err(e) => Err(e),
                                    Ok(difficulty) => match spec_dec_u256(items[9]) {
                                        Err(e) => Err(e),
                                        Ok(gas_limit) => match spec_dec_u256(items[10]) {
                                            Err(e) => Err(e),
                                            Ok(gas_used) => match spec_dec_u64(items[11]) {
                                                Err(e) => Err(e),
                                                Ok(timestamp) => match spec_dec_fixed(
                                                    items[13],
                                                    32,
                                                ) {
                                                    Err(e) => Err(e),
                                                    Ok(mix_hash) => match spec_dec_u64(items[14]) {
                                                        Err(e) => Err(e),
                                                        Ok(nonce) => match base_fee_item {
                                                            Some(f) => match spec_dec_u256(f) {
                                                                Err(e) => Err(e),
                                                                Ok(base_fee) => Ok(
                                                                    HeaderV {
                                                                        parent_hash,
                                                                        uncles_hash,
                                                                        author,
                                                                        state_root,
                                                                        transactions_root,
                                                                        receipts_root,
                                                                        log_bloom,
                                                                        difficulty,
                                                                        number,
                                                                        gas_limit,
                                                                        gas_used,
                                                                        timestamp,
                                                                        extra_data: items[12],
                                                                        mix_hash: Some(mix_hash),
                                                                        nonce: Some(nonce),
                                                                        base_fee_per_gas: Some(
                                                                            base_fee,
                                                                        ),
                                                                    },
                                                                ),
                                                            },
                                                            None => Ok(
                                                                HeaderV {
                                                                    parent_hash,
                                                                    uncles_hash,
                                                                    author,
                                                                    state_root,
                                                                    transactions_root,
                                                                    receipts_root,
                                                                    log_bloom,
                                                                    difficulty,
                                                                    number,
                                                                    gas_limit,
                                                                    gas_used,
                                                                    timestamp,
                                                                    extra_data: items[12],
                                                                    mix_hash: Some(mix_hash),
                                                                    nonce: Some(nonce),
                                                                    base_fee_per_gas: None,
                                                                },
                                                            ),
                                                        },
                                                    },
                                                },
                                            },
                                        },
                                    },
                                },
                            },
                        },
                    },
                },
            },
        },
    }
}

/// What decoding a header from `b` yields: the header, or the error of the
/// first check that fails. The enclosing list must fill `b` exactly; the
/// base-fee item is read exactly when the decoded number is at least
/// `london`.
pub open spec fn spec_decode_header(b: Seq<u8>, london: u64) -> Result<HeaderV, DecodeError> {
    match spec_parse_list_hdr(b, 0) {
        Err(e) => Err(e),
        Ok((plen, cpos)) => if cpos + plen != b.len() {
            Err(DecodeError::TrailingBytes)
        } else {
            match spec_parse_items(b, cpos, 15) {
                Err(e) => Err(e),
                Ok((items, p15)) => match spec_dec_u64(items[8]) {
                    Err(e) => Err(e),
                    Ok(number) => if number >= london {
                        match spec_parse_items(b, p15, 1) {
                            Err(e) => Err(e),
                            Ok((extra, p16)) => if p16 != b.len() {
                                Err(DecodeError::TrailingBytes)
                            } else {
                                spec_header_from_items(items, Some(extra[0]), number)
                            },
                        }
                    } else if p15 != b.len() {
                        Err(DecodeError::TrailingBytes)
                    } else {
                        spec_header_from_items(items, None, number)
                    },
                },
            }
        },
    }
}

// ---------------------------------------------------------------------------
// The header codec (executable)
// ---------------------------------------------------------------------------

impl Header {
    /// Append the canonical RLP encoding of this header to `s`.
    pub fn stream_rlp(&self, s: &mut Vec<u8>)
        ensures
            final(s)@ == old(s)@ + header_rlp(self@),
    {
        let ghost items = header_items(self@);
        let mut payload: Vec<u8> = Vec::new();
        proof {
            assert(items.take(0) =~= Seq::<Seq<u8>>::empty());
            assert(payload@ =~= flat_enc(items.take(0)));
        }
        append_str(&mut payload, &self.parent_hash);
        proof {
            lemma_take_step(items, 0);
            assert(items[0] == self@.parent_hash);
        }
        append_str(&mut payload, &self.uncles_hash);
        proof {
            lemma_take_step(items, 1);
            assert(items[1] == self@.uncles_hash);
        }
        append_str(&mut payload, &self.author);
        proof {
            lemma_take_step(items, 2);
            assert(items[2] == self@.author);
        }
        append_str(&mut payload, &self.state_root);
        proof {
            lemma_take_step(items, 3);
            assert(items[3] == self@.state_root);
        }
        append_str(&mut payload, &self.transactions_root);
        proof {
            lemma_take_step(items, 4);
            assert(items[4] == self@.transactions_root);
        }
        append_str(&mut payload, &self.receipts_root);
        proof {
            lemma_take_step(items, 5);
            assert(items[5] == self@.receipts_root);
        }
        append_str(&mut payload, &self.log_bloom);
        proof {
            lemma_take_step(items, 6);
            assert(items[6] == self@.log_bloom);
        }
        let diff = strip_leading_zeros(&self.difficulty);
        append_str(&mut payload, &diff);
        proof {
            lemma_take_step(items, 7);
            assert(items[7] == min_be(self@.difficulty));
        }
        let num = u64_be_min(self.number);
        append_str(&mut payload, &num);
        proof {
            lemma_take_step(items, 8);
            assert(items[8] == be_of(self@.number as nat));
        }
        let gl = strip_leading_zeros(&self.gas_limit);
        append_str(&mut payload, &gl);
        proof {
            lemma_take_step(items, 9);
            assert(items[9] == min_be(self@.gas_limit));
        }
        let gu = strip_leading_zeros(&self.gas_used);
        append_str(&mut payload, &gu);
        proof {
            lemma_take_step(items, 10);
            assert(items[10] == min_be(self@.gas_used));
        }
        let ts = u64_be_min(self.timestamp);
        append_str(&mut payload, &ts);
        proof {
            lemma_take_step(items, 11);
            assert(items[11] == be_of(self@.timestamp as nat));
        }
        append_str(&mut payload, &self.extra_data);
        proof {
            lemma_take_step(items, 12);
            assert(items[12] == self@.extra_data);
        }
        let ghost mut k: int = 13;
        match (&self.mix_hash, &self.nonce) {
            (Some(m), Some(n)) => {
                append_str(&mut payload, m);
                proof {
                    lemma_take_step(items, 13);
                    assert(items[13] == m@);
                }
                let nb = u64_be_min(*n);
                append_str(&mut payload, &nb);
                proof {
                    lemma_take_step(items, 14);
                    assert(items[14] == be_of(*n as nat));
                    k = 15;
                }
            },
            _ => {
                proof {
                    assert(!(self@.mix_hash is Some && self@.nonce is Some));
                }
            },
        }
        match &self.base_fee_per_gas {
            Some(f) => {
                let fm = strip_leading_zeros(f);
                append_str(&mut payload, &fm);
                proof {
                    lemma_take_step(items, k);
                    assert(items[k] == min_be(f@));
                    k = k + 1;
                }
            },
            None => {},
        }
        proof {
            assert(k == items.len());
            assert(items.take(k) =~= items);
            assert(payload@ == header_payload(self@));
        }
        append_list_hdr(s, payload.len());
        append_bytes(s, &payload);
        proof {
            assert(s@ =~= old(s)@ + header_rlp(self@));
        }
    }

    /// The canonical RLP encoding of this header.
    pub fn rlp(&self) -> (r: Vec<u8>)
        ensures
            r@ == header_rlp(self@),
    {
        let mut s: Vec<u8> = Vec::new();
        self.stream_rlp(&mut s);
        proof {
            assert(s@ =~= header_rlp(self@));
        }
        s
    }

    /// The Keccak-256 hash of the canonical encoding of this header.
    pub fn hash(&self) -> (r: Vec<u8>)
        ensures
            r@ == keccak_of(header_rlp(self@)),
            r@.len() == 32,
    {
        let encoded = self.rlp();
        keccak256(encoded.as_slice())
    }

    /// Decode a header from its canonical RLP bytes. A base-fee field is
    /// read exactly when the decoded block number is at least
    /// `london_block_number`.
    pub fn decode_rlp(b: &[u8], london_block_number: u64) -> (r: Result<Header, DecodeError>)
        ensures
            ({
                let s = spec_decode_header(b@, london_block_number);
                match r {
                    Ok(h) => s == Ok::<HeaderV, DecodeError>(h@),
                    Err(e) => s == Err::<HeaderV, DecodeError>(e),
                }
            }),
    {
        let (plen, cpos) = match parse_list_hdr(b, 0) {
            Ok(v) => v,
            Err(e) => {
                return Err(e);
            },
        };
        if plen != b.len() - cpos {
            return Err(DecodeError::TrailingBytes);
        }
        let (items, p15) = match parse_items(b, cpos, 15) {
            Ok(v) => v,
            Err(e) => {
                return Err(e);
            },
        };
        let number = match dec_u64(&items[8]) {
            Ok(v) => v,
            Err(e) => {
                return Err(e);
            },
        };
        let base_fee_item: Option<Vec<u8>>;
        if number >= london_block_number {
            let (extra, p16) = match parse_items(b, p15, 1) {
                Ok(v) => v,
                Err(e) => {
                    return Err(e);
                },
            };
            if p16 != b.len() {
                return Err(DecodeError::TrailingBytes);
            }
            base_fee_item = Some(copy_bytes(&extra[0]));
        } else {
            if p15 != b.len() {
                return Err(DecodeError::TrailingBytes);
            }
            base_fee_item = None;
        }
        let parent_hash = match dec_fixed(&items[0], 32) {
            Ok(v) => v,
            Err(e) => {
                return Err(e);
            },
        };
        let uncles_hash = match dec_fixed(&items[1], 32) {
            Ok(v) => v,
            Err(e) => {
                return Err(e);
            },
        };
        let author = match dec_fixed(&items[2], 20) {
            Ok(v) => v,
            Err(e) => {
                return Err(e);
            },
        };
        let state_root = match dec_fixed(&items[3], 32) {
            Ok(v) => v,
            Err(e) => {
                return Err(e);
            },
        };
        let transactions_root = match dec_fixed(&items[4], 32) {
            Ok(v) => v,
            Err(e) => {
                return Err(e);
            },
        };
        let receipts_root = match dec_fixed(&items[5], 32) {
            Ok(v) => v,
            Err(e) => {
                return Err(e);
            },
        };
        let log_bloom = match dec_fixed(&items[6], 256) {
            Ok(v) => v,
            Err(e) => {
                return Err(e);
            },
        };
        let difficulty = match dec_u256(&items[7]) {
            Ok(v) => v,
            Err(e) => {
                return Err(e);
            },
        };
        let gas_limit = match dec_u256(&items[9]) {
            Ok(v) => v,
            Err(e) => {
                return Err(e);
            },
        };
        let gas_used = match dec_u256(&items[10]) {
            Ok(v) => v,
            Err(e) => {
                return Err(e);
            },
        };
        let timestamp = match dec_u64(&items[11]) {
            Ok(v) => v,
            Err(e) => {
                return Err(e);
            },
        };
        let mix_hash = match dec_fixed(&items[13], 32) {
            Ok(v) => v,
            Err(e) => {
                return Err(e);
            },
        };
        let nonce = match dec_u64(&items[14]) {
            Ok(v) => v,
            Err(e) => {
                return Err(e);
            },
        };
        let base_fee_per_gas: Option<Vec<u8>> = match &base_fee_item {
            Some(f) => match dec_u256(f) {
                Ok(v) => Some(v),
                Err(e) => {
                    return Err(e);
                },
            },
            None => None,
        };
        let extra_data = copy_bytes(&items[12]);
        let h = Header {
            parent_hash,
            uncles_hash,
            author,
            state_root,
            transactions_root,
            receipts_root,
            log_bloom,
            difficulty,
            number,
            gas_limit,
            gas_used,
            timestamp,
            extra_data,
            mix_hash: Some(mix_hash),
            nonce: Some(nonce),
            base_fee_per_gas,
        };
        Ok(h)
    }
}

/// Extending the encoded prefix by one more item.
proof fn lemma_take_step(items: Seq<Seq<u8>>, k: int)
    requires
        0 <= k < items.len(),
    ensures
        flat_enc(items.take(k + 1)) == flat_enc(items.take(k)) + rlp_str(items[k]),
{
    assert(items.take(k + 1) =~= items.take(k).push(items[k]));
    lemma_flat_enc_push(items.take(k), items[k]);
}

/// Item payloads of a well-formed header are small, and there are 13 to 16
/// of them.
proof fn lemma_header_items_wf(h: HeaderV)
    requires
        wf_header_v(h),
    ensures
        forall|k: int|
            0 <= k < header_items(h).len() ==> (#[trigger] header_items(h)[k]).len()
                <= 0x1_0000_0000,
        13 <= header_items(h).len() <= 16,
{
    let items = header_items(h);
    lemma_min_be_wf(h.difficulty);
    lemma_min_be_wf(h.gas_limit);
    lemma_min_be_wf(h.gas_used);
    lemma_pow256_values();
    lemma_be_of_len(h.number as nat, 8);
    lemma_be_of_len(h.timestamp as nat, 8);
    match (h.mix_hash, h.nonce) {
        (Some(m), Some(n)) => {
            lemma_be_of_len(n as nat, 8);
        },
        _ => {},
    }
    match h.base_fee_per_gas {
        Some(f) => {
            lemma_min_be_wf(f);
        },
        None => {},
    }
}

/// Decoding the canonical encoding of a sealed, well-formed header yields
/// the header back, for the same London boundary.
pub proof fn lemma_header_round_trip(h: HeaderV, london: u64)
    requires
        wf_header_v(h),
        header_sealed(h, london),
    ensures
        spec_decode_header(header_rlp(h), london) == Ok::<HeaderV, DecodeError>(h),
{
    let items = header_items(h);
    let pl = header_payload(h);
    let hdr = rlp_list_hdr(pl.len());
    let b = header_rlp(h);
    lemma_header_items_wf(h);
    lemma_flat_enc_len(items, 0x1_0000_0000);
    lemma_pow256_values();
    assert(items.len() == 15 || items.len() == 16);
    assert(pl.len() < 0x1_0000_0000_0000_0000);

    // the list header parses and announces the whole payload
    assert(b.subrange(0, hdr.len() as int) =~= hdr);
    lemma_parse_list_hdr_of_enc(b, 0, pl.len());
    let cpos = hdr.len() as int;
    assert(b.subrange(cpos, b.len() as int) =~= pl);

    // the first fifteen items parse
    let pre = items.take(15);
    let post = items.skip(15);
    lemma_flat_enc_split(items, 15);
    lemma_window(b, cpos, pl, 0, flat_enc(pre).len() as int);
    assert(pl.subrange(0, flat_enc(pre).len() as int) =~= flat_enc(pre));
    assert(forall|k: int|
        0 <= k < pre.len() ==> (#[trigger] pre[k]).len() < 0x1_0000_0000_0000_0000);
    lemma_parse_items_of_enc(b, cpos, pre);
    let p15 = cpos + flat_enc(pre).len() as int;

    // the number field round-trips
    assert(pre[8] == be_of(h.number as nat));
    lemma_be_of_val(h.number as nat);
    lemma_be_of_len(h.number as nat, 8);
    assert(spec_dec_u64(pre[8]) == Ok::<u64, DecodeError>(h.number));

    // the remaining fields round-trip
    lemma_min_be_wf(h.difficulty);
    lemma_pad_min_be(h.difficulty);
    lemma_min_be_wf(h.gas_limit);
    lemma_pad_min_be(h.gas_limit);
    lemma_min_be_wf(h.gas_used);
    lemma_pad_min_be(h.gas_used);
    lemma_be_of_val(h.timestamp as nat);
    lemma_be_of_len(h.timestamp as nat, 8);
    let m = match h.mix_hash {
        Some(m) => m,
        None => Seq::empty(),
    };
    let n = match h.nonce {
        Some(n) => n,
        None => 0u64,
    };
    lemma_be_of_val(n as nat);
    lemma_be_of_len(n as nat, 8);
    assert(pre[0] == h.parent_hash);
    assert(pre[1] == h.uncles_hash);
    assert(pre[2] == h.author);
    assert(pre[3] == h.state_root);
    assert(pre[4] == h.transactions_root);
    assert(pre[5] == h.receipts_root);
    assert(pre[6] == h.log_bloom);
    assert(pre[7] == min_be(h.difficulty));
    assert(pre[9] == min_be(h.gas_limit));
    assert(pre[10] == min_be(h.gas_used));
    assert(pre[11] == be_of(h.timestamp as nat));
    assert(pre[12] == h.extra_data);
    assert(pre[13] == m);
    assert(pre[14] == be_of(n as nat));

    if h.number >= london {
        let f = match h.base_fee_per_gas {
            Some(f) => f,
            None => Seq::empty(),
        };
        lemma_min_be_wf(f);
        lemma_pad_min_be(f);
        assert(items.len() == 16);
        assert(post.len() == 1);
        assert(post[0] == min_be(f));
        lemma_window(b, cpos, pl, flat_enc(pre).len() as int, flat_enc(post).len() as int);
        assert(pl.subrange(flat_enc(pre).len() as int, pl.len() as int) =~= flat_enc(post));
        assert(forall|k: int|
            0 <= k < post.len() ==> (#[trigger] post[k]).len() < 0x1_0000_0000_0000_0000);
        lemma_parse_items_of_enc(b, p15, post);
        assert(p15 + flat_enc(post).len() == b.len());
        let res = spec_header_from_items(pre, Some(post[0]), h.number);
        assert(spec_dec_u256(post[0]) == Ok::<Seq<u8>, DecodeError>(f));
        match res {
            Ok(hh) => {
                assert(hh =~= h);
            },
            Err(e) => {
                assert(false);
            },
        }
    } else {
        assert(items.len() == 15);
        assert(pre =~= items);
        assert(p15 == b.len());
        let res = spec_header_from_items(pre, None, h.number);
        match res {
            Ok(hh) => {
                assert(hh =~= h);
            },
            Err(e) => {
                assert(false);
            },
        }
    }
}

/// Re-encoding a decoded header gives the decoded bytes back: the decoder
/// is strict, so every byte string it accepts is a canonical encoding.
pub proof fn lemma_header_enc_of_decode(b: Seq<u8>, london: u64)
    requires
        spec_decode_header(b, london) is Ok,
    ensures
        header_rlp(spec_decode_header(b, london)->Ok_0) == b,
{
    let h = spec_decode_header(b, london)->Ok_0;
    let (plen, cpos) = spec_parse_list_hdr(b, 0)->Ok_0;
    lemma_enc_of_parse_list_hdr(b, 0);
    assert(cpos + plen == b.len());
    let (items, p15) = spec_parse_items(b, cpos, 15)->Ok_0;
    lemma_enc_of_parse_items(b, cpos, 15);
    let number = spec_dec_u64(items[8])->Ok_0;
    lemma_pow256_values();

    let full_items = if number >= london {
        items + seq![spec_parse_items(b, p15, 1)->Ok_0.0[0]]
    } else {
        items
    };
    if number >= london {
        let (extra, p16) = spec_parse_items(b, p15, 1)->Ok_0;
        lemma_enc_of_parse_items(b, p15, 1);
        assert(p16 == b.len());
        assert(extra =~= seq![extra[0]]);
        assert(flat_enc(full_items.take(15)) + flat_enc(full_items.skip(15)) == flat_enc(
            full_items,
        )) by {
            lemma_flat_enc_split(full_items, 15);
        }
        assert(full_items.take(15) =~= items);
        assert(full_items.skip(15) =~= extra);
        assert(flat_enc(full_items) == b.subrange(cpos as int, b.len() as int)) by {
            assert(b.subrange(cpos as int, p15 as int) + b.subrange(p15 as int, b.len() as int)
                =~= b.subrange(cpos as int, b.len() as int));
        }
    } else {
        assert(p15 == b.len());
        assert(flat_enc(full_items) == b.subrange(cpos as int, b.len() as int));
    }

    // each decoded field re-encodes to the item it was read from
    assert(items[8].len() <= 8 && (items[8].len() == 0 || items[8][0] != 0));
    lemma_be_val_bound(items[8]);
    lemma_pow256_mono(items[8].len(), 8);
    lemma_be_of_val_inv(items[8]);
    assert(be_of(h.number as nat) == items[8]);
    assert(items[11].len() <= 8 && (items[11].len() == 0 || items[11][0] != 0));
    lemma_be_val_bound(items[11]);
    lemma_pow256_mono(items[11].len(), 8);
    lemma_be_of_val_inv(items[11]);
    assert(be_of(h.timestamp as nat) == items[11]);
    assert(items[14].len() <= 8 && (items[14].len() == 0 || items[14][0] != 0));
    lemma_be_val_bound(items[14]);
    lemma_pow256_mono(items[14].len(), 8);
    lemma_be_of_val_inv(items[14]);
    lemma_min_be_pad(items[7]);
    lemma_min_be_pad(items[9]);
    lemma_min_be_pad(items[10]);
    assert(min_be(h.difficulty) == items[7]);
    assert(min_be(h.gas_limit) == items[9]);
    assert(min_be(h.gas_used) == items[10]);

    let hi = header_items(h);
    assert(h.mix_hash is Some && h.nonce is Some);
    if number >= london {
        let f = spec_parse_items(b, p15, 1)->Ok_0.0[0];
        lemma_min_be_pad(f);
        assert(h.base_fee_per_gas is Some);
        assert(hi.len() == 16 && full_items.len() == 16);
        assert(hi[13] == items[13] && hi[14] == items[14] && hi[15] == f);
    } else {
        assert(h.base_fee_per_gas is None);
        assert(hi.len() == 15 && full_items.len() == 15);
        assert(hi[13] == items[13] && hi[14] == items[14]);
    }
    assert(hi[0] == items[0] && hi[1] == items[1] && hi[2] == items[2] && hi[3] == items[3]
        && hi[4] == items[4] && hi[5] == items[5] && hi[6] == items[6] && hi[7] == items[7]
        && hi[8] == items[8] && hi[9] == items[9] && hi[10] == items[10] && hi[11] == items[11]
        && hi[12] == items[12]);
    assert(hi =~= full_items);

    assert(header_payload(h) == b.subrange(cpos as int, b.len() as int));
    assert(header_payload(h).len() == plen);
    assert(header_rlp(h) == rlp_list_hdr(plen as nat) + header_payload(h));
    assert(header_rlp(h) =~= b);
}

impl PartialEq for Header {
    fn eq(&self, other: &Self) -> (r: bool) {
        let res = bytes_eq(&self.parent_hash, &other.parent_hash)
            && bytes_eq(&self.uncles_hash, &other.uncles_hash)
            && bytes_eq(&self.author, &other.author)
            && bytes_eq(&self.state_root, &other.state_root)
            && bytes_eq(&self.transactions_root, &other.transactions_root)
            && bytes_eq(&self.receipts_root, &other.receipts_root)
            && bytes_eq(&self.log_bloom, &other.log_bloom)
            && bytes_eq(&self.difficulty, &other.difficulty)
            && self.number == other.number
            && bytes_eq(&self.gas_limit, &other.gas_limit)
            && bytes_eq(&self.gas_used, &other.gas_used)
            && self.timestamp == other.timestamp
            && bytes_eq(&self.extra_data, &other.extra_data)
            && opt_bytes_eq(&self.mix_hash, &other.mix_hash)
            && (match (&self.nonce, &other.nonce) {
                (Some(a), Some(b)) => *a == *b,
                (None, None) => true,
                _ => false,
            })
            && opt_bytes_eq(&self.base_fee_per_gas, &other.base_fee_per_gas);
        proof {
            if res {
                assert(self@ =~= other@);
            }
            if self@ == other@ {
                assert(res);
            }
        }
        res
    }
}

impl Eq for Header {

}

impl vstd::std_specs::cmp::PartialEqSpecImpl for Header {
    open spec fn obeys_eq_spec() -> bool {
        true
    }

    open spec fn eq_spec(&self, other: &Self) -> bool {
        self@ == other@
    }
}

} // verus!
