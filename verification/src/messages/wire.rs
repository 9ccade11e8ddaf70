//! Messages exchanged over gossipsub and their wire format.
//!
//! A message is encoded as its variant tag (`u32`), then its fields in order:
//! integers little-endian (`u32` in four bytes, `u64` and `usize` in eight),
//! texts and byte strings as a `u64` byte length followed by the bytes. This
//! is the layout of bincode's default configuration, so peers that decode
//! with bincode read the same messages. Bytes after a message are ignored.

use vstd::prelude::*;

use crate::messages::codec::{
    bytes_field, lemma_take_bytes, lemma_take_string, lemma_take_u32, lemma_take_u64,
    lemma_take_usize, push_bytes_field, push_le, push_string_field, string_field, take_bytes,
    take_bytes_at, take_fixed, take_fixed_at, take_string, take_string_at, take_usize,
    take_usize_at, u32_field, u64_field, DecodeError,
};
use vstd::utf8::encode_utf8;

verus! {

/// 32-byte content-addressed message identifier.
pub type MessageId = [u8; 32];

/// Wire message types exchanged over gossipsub.
#[derive(Debug)]
pub enum WireMessage {
    ValidatorSignature {
        run_id: String,
        sender_id: u32,
        subnet_id: u32,
        sequence_id: u64,
        created_timestamp_ms: u64,
        padding: Vec<u8>,
    },
    LocalProof {
        run_id: String,
        sender_id: u32,
        subnet_id: u32,
        covered_validator_count: usize,
        sequence_id: u64,
        created_timestamp_ms: u64,
        padding: Vec<u8>,
    },
    GlobalProof {
        run_id: String,
        sender_id: u32,
        covered_signature_count: usize,
        sequence_id: u64,
        created_timestamp_ms: u64,
        padding: Vec<u8>,
    },
}

/// The content of a [`WireMessage`], with texts and byte strings as sequences.
pub enum WireMessageView {
    ValidatorSignature {
        run_id: Seq<char>,
        sender_id: u32,
        subnet_id: u32,
        sequence_id: u64,
        created_timestamp_ms: u64,
        padding: Seq<u8>,
    },
    LocalProof {
        run_id: Seq<char>,
        sender_id: u32,
        subnet_id: u32,
        covered_validator_count: usize,
        sequence_id: u64,
        created_timestamp_ms: u64,
        padding: Seq<u8>,
    },
    GlobalProof {
        run_id: Seq<char>,
        sender_id: u32,
        covered_signature_count: usize,
        sequence_id: u64,
        created_timestamp_ms: u64,
        padding: Seq<u8>,
    },
}

impl View for WireMessage {
    type V = WireMessageView;

    open spec fn view(&self) -> WireMessageView {
        match self {
            WireMessage::ValidatorSignature {
                run_id,
                sender_id,
                subnet_id,
                sequence_id,
                created_timestamp_ms,
                padding,
            } => WireMessageView::ValidatorSignature {
                run_id: run_id@,
                sender_id: *sender_id,
                subnet_id: *subnet_id,
                sequence_id: *sequence_id,
                created_timestamp_ms: *created_timestamp_ms,
                padding: padding@,
            },
            WireMessage::LocalProof {
                run_id,
                sender_id,
                subnet_id,
                covered_validator_count,
                sequence_id,
                created_timestamp_ms,
                padding,
            } => WireMessageView::LocalProof {
                run_id: run_id@,
                sender_id: *sender_id,
                subnet_id: *subnet_id,
                covered_validator_count: *covered_validator_count,
                sequence_id: *sequence_id,
                created_timestamp_ms: *created_timestamp_ms,
                padding: padding@,
            },
            WireMessage::GlobalProof {
                run_id,
                sender_id,
                covered_signature_count,
                sequence_id,
                created_timestamp_ms,
                padding,
            } => WireMessageView::GlobalProof {
                run_id: run_id@,
                sender_id: *sender_id,
                covered_signature_count: *covered_signature_count,
                sequence_id: *sequence_id,
                created_timestamp_ms: *created_timestamp_ms,
                padding: padding@,
            },
        }
    }
}

impl WireMessageView {
    pub open spec fn run_id(self) -> Seq<char> {
        match self {
            WireMessageView::ValidatorSignature { run_id, .. } => run_id,
            WireMessageView::LocalProof { run_id, .. } => run_id,
            WireMessageView::GlobalProof { run_id, .. } => run_id,
        }
    }

    pub open spec fn sender_id(self) -> u32 {
        match self {
            WireMessageView::ValidatorSignature { sender_id, .. } => sender_id,
            WireMessageView::LocalProof { sender_id, .. } => sender_id,
            WireMessageView::GlobalProof { sender_id, .. } => sender_id,
        }
    }

    pub open spec fn padding(self) -> Seq<u8> {
        match self {
            WireMessageView::ValidatorSignature { padding, .. } => padding,
            WireMessageView::LocalProof { padding, .. } => padding,
            WireMessageView::GlobalProof { padding, .. } => padding,
        }
    }

    /// The same message with its padding replaced.
    pub open spec fn with_padding(self, p: Seq<u8>) -> WireMessageView {
        match self {
            WireMessageView::ValidatorSignature {
                run_id,
                sender_id,
                subnet_id,
                sequence_id,
                created_timestamp_ms,
                ..
            } => WireMessageView::ValidatorSignature {
                run_id,
                sender_id,
                subnet_id,
                sequence_id,
                created_timestamp_ms,
                padding: p,
            },
            WireMessageView::LocalProof {
                run_id,
                sender_id,
                subnet_id,
                covered_validator_count,
                sequence_id,
                created_timestamp_ms,
                ..
            } => WireMessageView::LocalProof {
                run_id,
                sender_id,
                subnet_id,
                covered_validator_count,
                sequence_id,
                created_timestamp_ms,
                padding: p,
            },
            WireMessageView::GlobalProof {
                run_id,
                sender_id,
                covered_signature_count,
                sequence_id,
                created_timestamp_ms,
                ..
            } => WireMessageView::GlobalProof {
                run_id,
                sender_id,
                covered_signature_count,
                sequence_id,
                created_timestamp_ms,
                padding: p,
            },
        }
    }
}

/// The zero padding that brings `m`, without its own padding, up to
/// `target` encoded bytes: `target` less the unpadded length, none when the
/// unpadded message already reaches the target.
pub open spec fn padding_for(m: WireMessageView, target: usize) -> Seq<u8> {
    Seq::new(
        (if target >= unpadded_len(m) {
            target - unpadded_len(m)
        } else {
            0
        }) as nat,
        |i: int| 0u8,
    )
}

/// The bytes that encode a message.
pub open spec fn wire_encoding(m: WireMessageView) -> Seq<u8> {
    match m {
        WireMessageView::ValidatorSignature {
            run_id,
            sender_id,
            subnet_id,
            sequence_id,
            created_timestamp_ms,
            padding,
        } => u32_field(0) + (string_field(run_id) + (u32_field(sender_id) + (u32_field(subnet_id)
            + (u64_field(sequence_id) + (u64_field(created_timestamp_ms) + bytes_field(
            padding,
        )))))),
        WireMessageView::LocalProof {
            run_id,
            sender_id,
            subnet_id,
            covered_validator_count,
            sequence_id,
            created_timestamp_ms,
            padding,
        } => u32_field(1) + (string_field(run_id) + (u32_field(sender_id) + (u32_field(subnet_id)
            + (u64_field(covered_validator_count as u64) + (u64_field(sequence_id) + (u64_field(
            created_timestamp_ms,
        ) + bytes_field(padding))))))),
        WireMessageView::GlobalProof {
            run_id,
            sender_id,
            covered_signature_count,
            sequence_id,
            created_timestamp_ms,
            padding,
        } => u32_field(2) + (string_field(run_id) + (u32_field(sender_id) + (u64_field(
            covered_signature_count as u64,
        ) + (u64_field(sequence_id) + (u64_field(created_timestamp_ms) + bytes_field(
            padding,
        )))))),
    }
}

/// Decodes the fields of a validator signature that follow the tag.
pub open spec fn decode_signature_fields(b: Seq<u8>) -> Result<WireMessageView, DecodeError> {
    match take_string(b) {
        Err(e) => Err(e),
        Ok((run_id, b)) => match take_fixed(b, 4) {
            Err(e) => Err(e),
            Ok((sender_id, b)) => match take_fixed(b, 4) {
                Err(e) => Err(e),
                Ok((subnet_id, b)) => match take_fixed(b, 8) {
                    Err(e) => Err(e),
                    Ok((sequence_id, b)) => match take_fixed(b, 8) {
                        Err(e) => Err(e),
                        Ok((created_timestamp_ms, b)) => match take_bytes(b) {
                            Err(e) => Err(e),
                            Ok((padding, _)) => Ok(
                                WireMessageView::ValidatorSignature {
                                    run_id,
                                    sender_id: sender_id as u32,
                                    subnet_id: subnet_id as u32,
                                    sequence_id: sequence_id as u64,
                                    created_timestamp_ms: created_timestamp_ms as u64,
                                    padding,
                                },
                            ),
                        },
                    },
                },
            },
        },
    }
}

/// Decodes the fields of a local proof that follow the tag.
pub open spec fn decode_local_proof_fields(b: Seq<u8>) -> Result<WireMessageView, DecodeError> {
    match take_string(b) {
        Err(e) => Err(e),
        Ok((run_id, b)) => match take_fixed(b, 4) {
            Err(e) => Err(e),
            Ok((sender_id, b)) => match take_fixed(b, 4) {
                Err(e) => Err(e),
                Ok((subnet_id, b)) => match take_usize(b) {
                    Err(e) => Err(e),
                    Ok((covered_validator_count, b)) => match take_fixed(b, 8) {
                        Err(e) => Err(e),
                        Ok((sequence_id, b)) => match take_fixed(b, 8) {
                            Err(e) => Err(e),
                            Ok((created_timestamp_ms, b)) => match take_bytes(b) {
                                Err(e) => Err(e),
                                Ok((padding, _)) => Ok(
                                    WireMessageView::LocalProof {
                                        run_id,
                                        sender_id: sender_id as u32,
                                        subnet_id: subnet_id as u32,
                                        covered_validator_count,
                                        sequence_id: sequence_id as u64,
                                        created_timestamp_ms: created_timestamp_ms as u64,
                                        padding,
                                    },
                                ),
                            },
                        },
                    },
                },
            },
        },
    }
}

/// Decodes the fields of a global proof that follow the tag.
pub open spec fn decode_global_proof_fields(b: Seq<u8>) -> Result<WireMessageView, DecodeError> {
    match take_string(b) {
        Err(e) => Err(e),
        Ok((run_id, b)) => match take_fixed(b, 4) {
            Err(e) => Err(e),
            Ok((sender_id, b)) => match take_usize(b) {
                Err(e) => Err(e),
                Ok((covered_signature_count, b)) => match take_fixed(b, 8) {
                    Err(e) => Err(e),
                    Ok((sequence_id, b)) => match take_fixed(b, 8) {
                        Err(e) => Err(e),
                        Ok((created_timestamp_ms, b)) => match take_bytes(b) {
                            Err(e) => Err(e),
                            Ok((padding, _)) => Ok(
                                WireMessageView::GlobalProof {
                                    run_id,
                                    sender_id: sender_id as u32,
                                    covered_signature_count,
                                    sequence_id: sequence_id as u64,
                                    created_timestamp_ms: created_timestamp_ms as u64,
                                    padding,
                                },
                            ),
                        },
                    },
                },
            },
        },
    }
}

/// The message that the front of `b` encodes, or why there is none.
pub open spec fn wire_decoding(b: Seq<u8>) -> Result<WireMessageView, DecodeError> {
    match take_fixed(b, 4) {
        Err(e) => Err(e),
        Ok((tag, rest)) => if tag == 0 {
            decode_signature_fields(rest)
        } else if tag == 1 {
            decode_local_proof_fields(rest)
        } else if tag == 2 {
            decode_global_proof_fields(rest)
        } else {
            Err(DecodeError::InvalidVariant)
        },
    }
}

/// SHA-256 digest of a byte string, as computed by the `sha2` crate.
pub uninterp spec fn sha256(data: Seq<u8>) -> Seq<u8>;

/// `sha2::Sha256::digest`: the SHA-256 digest of `data`.
///
/// Claims only that the result is the named digest of the input bytes.
#[verifier::external_body]
fn sha256_digest(data: &[u8]) -> (r: [u8; 32])
    ensures
        r@ == sha256(data@),
{
    <sha2::Sha256 as sha2::Digest>::digest(data).into()
}

/// A copy of a byte string.
fn copy_bytes(src: &Vec<u8>) -> (r: Vec<u8>)
    ensures
        r@ == src@,
{
    let mut v: Vec<u8> = Vec::new();
    let mut i: usize = 0;
    while i < src.len()
        invariant
            i <= src.len(),
            v@ == src@.subrange(0, i as int),
        decreases src.len() - i,
    {
        v.push(src[i]);
        i = i + 1;
    }
    v
}

impl Clone for WireMessage {
    fn clone(&self) -> (r: Self)
        ensures
            r@ == self@,
    {
        match self {
            WireMessage::ValidatorSignature {
                run_id,
                sender_id,
                subnet_id,
                sequence_id,
                created_timestamp_ms,
                padding,
            } => WireMessage::ValidatorSignature {
                run_id: run_id.clone(),
                sender_id: *sender_id,
                subnet_id: *subnet_id,
                sequence_id: *sequence_id,
                created_timestamp_ms: *created_timestamp_ms,
                padding: copy_bytes(padding),
            },
            WireMessage::LocalProof {
                run_id,
                sender_id,
                subnet_id,
                covered_validator_count,
                sequence_id,
                created_timestamp_ms,
                padding,
            } => WireMessage::LocalProof {
                run_id: run_id.clone(),
                sender_id: *sender_id,
                subnet_id: *subnet_id,
                covered_validator_count: *covered_validator_count,
                sequence_id: *sequence_id,
                created_timestamp_ms: *created_timestamp_ms,
                padding: copy_bytes(padding),
            },
            WireMessage::GlobalProof {
                run_id,
                sender_id,
                covered_signature_count,
                sequence_id,
                created_timestamp_ms,
                padding,
            } => WireMessage::GlobalProof {
                run_id: run_id.clone(),
                sender_id: *sender_id,
                covered_signature_count: *covered_signature_count,
                sequence_id: *sequence_id,
                created_timestamp_ms: *created_timestamp_ms,
                padding: copy_bytes(padding),
            },
        }
    }
}

impl WireMessage {
    /// SHA-256 of the encoded message.
    pub fn message_id(&self) -> (r: MessageId)
        ensures
            r@ == sha256(wire_encoding(self@)),
    {
        let bytes = self.encode();
        sha256_digest(bytes.as_slice())
    }

    /// The number of padding bytes the message carries.
    fn padding_len(&self) -> (r: usize)
        ensures
            r == self@.padding().len(),
    {
        match self {
            WireMessage::ValidatorSignature { padding, .. } => padding.len(),
            WireMessage::LocalProof { padding, .. } => padding.len(),
            WireMessage::GlobalProof { padding, .. } => padding.len(),
        }
    }

    /// The same message with its padding replaced by `needed` zero bytes,
    /// where `needed` is what the message without padding lacks of
    /// `target_total_bytes` (none when it already reaches it). The encoding
    /// then takes the larger of the target and the unpadded length.
    pub fn with_payload_size(self, target_total_bytes: usize) -> (r: Self)
        ensures
            r@ == self@.with_padding(padding_for(self@, target_total_bytes)),
            r@.padding().len() == (if target_total_bytes >= unpadded_len(self@) {
                target_total_bytes - unpadded_len(self@)
            } else {
                0
            }),
            wire_encoding(r@).len() == (if target_total_bytes >= unpadded_len(self@) {
                target_total_bytes as int
            } else {
                unpadded_len(self@)
            }),
    {
        let current_len = self.encode().len();
        let old_padding = self.padding_len();
        proof {
            lemma_encoding_len(self@);
            lemma_padded_size(self@, target_total_bytes);
        }
        let unpadded = current_len - old_padding;
        let needed = target_total_bytes.saturating_sub(unpadded);
        let padding = zeros(needed);
        match self {
            WireMessage::ValidatorSignature {
                run_id,
                sender_id,
                subnet_id,
                sequence_id,
                created_timestamp_ms,
                ..
            } => WireMessage::ValidatorSignature {
                run_id,
                sender_id,
                subnet_id,
                sequence_id,
                created_timestamp_ms,
                padding,
            },
            WireMessage::LocalProof {
                run_id,
                sender_id,
                subnet_id,
                covered_validator_count,
                sequence_id,
                created_timestamp_ms,
                ..
            } => WireMessage::LocalProof {
                run_id,
                sender_id,
                subnet_id,
                covered_validator_count,
                sequence_id,
                created_timestamp_ms,
                padding,
            },
            WireMessage::GlobalProof {
                run_id,
                sender_id,
                covered_signature_count,
                sequence_id,
                created_timestamp_ms,
                ..
            } => WireMessage::GlobalProof {
                run_id,
                sender_id,
                covered_signature_count,
                sequence_id,
                created_timestamp_ms,
                padding,
            },
        }
    }

    /// The encoded message.
    pub fn encode(&self) -> (r: Vec<u8>)
        ensures
            r@ == wire_encoding(self@),
    {
        let mut out: Vec<u8> = Vec::new();
        match self {
            WireMessage::ValidatorSignature {
                run_id,
                sender_id,
                subnet_id,
                sequence_id,
                created_timestamp_ms,
                padding,
            } => {
                push_le(&mut out, 0, 4);
                push_string_field(&mut out, run_id);
                push_le(&mut out, *sender_id as u64, 4);
                push_le(&mut out, *subnet_id as u64, 4);
                push_le(&mut out, *sequence_id, 8);
                push_le(&mut out, *created_timestamp_ms, 8);
                push_bytes_field(&mut out, padding.as_slice());
            },
            WireMessage::LocalProof {
                run_id,
                sender_id,
                subnet_id,
                covered_validator_count,
                sequence_id,
                created_timestamp_ms,
                padding,
            } => {
                push_le(&mut out, 1, 4);
                push_string_field(&mut out, run_id);
                push_le(&mut out, *sender_id as u64, 4);
                push_le(&mut out, *subnet_id as u64, 4);
                push_le(&mut out, *covered_validator_count as u64, 8);
                push_le(&mut out, *sequence_id, 8);
                push_le(&mut out, *created_timestamp_ms, 8);
                push_bytes_field(&mut out, padding.as_slice());
            },
            WireMessage::GlobalProof {
                run_id,
                sender_id,
                covered_signature_count,
                sequence_id,
                created_timestamp_ms,
                padding,
            } => {
                push_le(&mut out, 2, 4);
                push_string_field(&mut out, run_id);
                push_le(&mut out, *sender_id as u64, 4);
                push_le(&mut out, *covered_signature_count as u64, 8);
                push_le(&mut out, *sequence_id, 8);
                push_le(&mut out, *created_timestamp_ms, 8);
                push_bytes_field(&mut out, padding.as_slice());
            },
        }
        proof {
            assert(out@ =~= wire_encoding(self@));
        }
        out
    }

    /// Decodes the message at the front of `data`.
    pub fn decode(data: &[u8]) -> (r: Result<Self, DecodeError>)
        ensures
            match wire_decoding(data@) {
                Ok(m) => r matches Ok(x) && x@ == m,
                Err(e) => r == Err::<Self, DecodeError>(e),
            },
    {
        proof {
            assert(data@.skip(0) =~= data@);
        }
        let (tag, pos) = take_fixed_at(data, 0, 4)?;
        if tag == 0 {
            Self::decode_signature_at(data, pos)
        } else if tag == 1 {
            Self::decode_local_proof_at(data, pos)
        } else if tag == 2 {
            Self::decode_global_proof_at(data, pos)
        } else {
            Err(DecodeError::InvalidVariant)
        }
    }

    fn decode_signature_at(data: &[u8], pos: usize) -> (r: Result<Self, DecodeError>)
        requires
            pos <= data@.len(),
        ensures
            match decode_signature_fields(data@.skip(pos as int)) {
                Ok(m) => r matches Ok(x) && x@ == m,
                Err(e) => r == Err::<Self, DecodeError>(e),
            },
    {
        let (run_id, pos) = take_string_at(data, pos)?;
        let (sender_id, pos) = take_fixed_at(data, pos, 4)?;
        let (subnet_id, pos) = take_fixed_at(data, pos, 4)?;
        let (sequence_id, pos) = take_fixed_at(data, pos, 8)?;
        let (created_timestamp_ms, pos) = take_fixed_at(data, pos, 8)?;
        let (padding, _) = take_bytes_at(data, pos)?;
        Ok(
            WireMessage::ValidatorSignature {
                run_id,
                sender_id: sender_id as u32,
                subnet_id: subnet_id as u32,
                sequence_id,
                created_timestamp_ms,
                padding,
            },
        )
    }

    fn decode_local_proof_at(data: &[u8], pos: usize) -> (r: Result<Self, DecodeError>)
        requires
            pos <= data@.len(),
        ensures
            match decode_local_proof_fields(data@.skip(pos as int)) {
                Ok(m) => r matches Ok(x) && x@ == m,
                Err(e) => r == Err::<Self, DecodeError>(e),
            },
    {
        let (run_id, pos) = take_string_at(data, pos)?;
        let (sender_id, pos) = take_fixed_at(data, pos, 4)?;
        let (subnet_id, pos) = take_fixed_at(data, pos, 4)?;
        let (covered_validator_count, pos) = take_usize_at(data, pos)?;
        let (sequence_id, pos) = take_fixed_at(data, pos, 8)?;
        let (created_timestamp_ms, pos) = take_fixed_at(data, pos, 8)?;
        let (padding, _) = take_bytes_at(data, pos)?;
        Ok(
            WireMessage::LocalProof {
                run_id,
                sender_id: sender_id as u32,
                subnet_id: subnet_id as u32,
                covered_validator_count,
                sequence_id,
                created_timestamp_ms,
                padding,
            },
        )
    }

    fn decode_global_proof_at(data: &[u8], pos: usize) -> (r: Result<Self, DecodeError>)
        requires
            pos <= data@.len(),
        ensures
            match decode_global_proof_fields(data@.skip(pos as int)) {
                Ok(m) => r matches Ok(x) && x@ == m,
                Err(e) => r == Err::<Self, DecodeError>(e),
            },
    {
        let (run_id, pos) = take_string_at(data, pos)?;
        let (sender_id, pos) = take_fixed_at(data, pos, 4)?;
        let (covered_signature_count, pos) = take_usize_at(data, pos)?;
        let (sequence_id, pos) = take_fixed_at(data, pos, 8)?;
        let (created_timestamp_ms, pos) = take_fixed_at(data, pos, 8)?;
        let (padding, _) = take_bytes_at(data, pos)?;
        Ok(
            WireMessage::GlobalProof {
                run_id,
                sender_id: sender_id as u32,
                covered_signature_count,
                sequence_id,
                created_timestamp_ms,
                padding,
            },
        )
    }

    /// The run the message belongs to.
    pub fn run_id(&self) -> (r: &str)
        ensures
            r@ == self@.run_id(),
    {
        match self {
            WireMessage::ValidatorSignature { run_id, .. } => run_id.as_str(),
            WireMessage::LocalProof { run_id, .. } => run_id.as_str(),
            WireMessage::GlobalProof { run_id, .. } => run_id.as_str(),
        }
    }

    /// The node that created the message.
    pub fn sender_id(&self) -> (r: u32)
        ensures
            r == self@.sender_id(),
    {
        match self {
            WireMessage::ValidatorSignature { sender_id, .. } => *sender_id,
            WireMessage::LocalProof { sender_id, .. } => *sender_id,
            WireMessage::GlobalProof { sender_id, .. } => *sender_id,
        }
    }
}

/// `n` zero bytes.
fn zeros(n: usize) -> (r: Vec<u8>)
    ensures
        r@ == Seq::new(n as nat, |i: int| 0u8),
{
    let mut v: Vec<u8> = Vec::new();
    let mut i: usize = 0;
    while i < n
        invariant
            i <= n,
            v@ == Seq::new(i as nat, |k: int| 0u8),
        decreases n - i,
    {
        v.push(0u8);
        i = i + 1;
        proof {
            assert(v@ =~= Seq::new(i as nat, |k: int| 0u8));
        }
    }
    v
}

/// Decoding inverts encoding: the message at the front of a message's
/// encoding, whatever bytes follow it, is that message. (A message's
/// encoding fits in memory, so its length is at most `u64::MAX`.)
pub proof fn lemma_decode_encode(m: WireMessageView, rest: Seq<u8>)
    requires
        wire_encoding(m).len() <= u64::MAX,
    ensures
        wire_decoding(wire_encoding(m) + rest) == Ok::<WireMessageView, DecodeError>(m),
{
    match m {
        WireMessageView::ValidatorSignature { run_id, sender_id, subnet_id, sequence_id, created_timestamp_ms, padding } => lemma_decode_encode_signature(run_id, sender_id, subnet_id, sequence_id, created_timestamp_ms, padding, rest),
        WireMessageView::LocalProof { run_id, sender_id, subnet_id, covered_validator_count, sequence_id, created_timestamp_ms, padding } => lemma_decode_encode_local_proof(run_id, sender_id, subnet_id, covered_validator_count, sequence_id, created_timestamp_ms, padding, rest),
        WireMessageView::GlobalProof { run_id, sender_id, covered_signature_count, sequence_id, created_timestamp_ms, padding } => lemma_decode_encode_global_proof(run_id, sender_id, covered_signature_count, sequence_id, created_timestamp_ms, padding, rest),
    }
}

proof fn lemma_decode_encode_signature(run_id: Seq<char>, sender_id: u32, subnet_id: u32, sequence_id: u64, created_timestamp_ms: u64, padding: Seq<u8>, rest: Seq<u8>)
    requires
        wire_encoding(WireMessageView::ValidatorSignature { run_id, sender_id, subnet_id, sequence_id, created_timestamp_ms, padding }).len() <= u64::MAX,
    ensures
        wire_decoding(wire_encoding(WireMessageView::ValidatorSignature { run_id, sender_id, subnet_id, sequence_id, created_timestamp_ms, padding }) + rest) == Ok::<WireMessageView, DecodeError>(WireMessageView::ValidatorSignature { run_id, sender_id, subnet_id, sequence_id, created_timestamp_ms, padding }),
{
    let m = WireMessageView::ValidatorSignature { run_id, sender_id, subnet_id, sequence_id, created_timestamp_ms, padding };
        let p7 = bytes_field(padding) + rest;
        let p6 = u64_field(created_timestamp_ms) + p7;
        let p5 = u64_field(sequence_id) + p6;
        let p4 = u32_field(subnet_id) + p5;
        let p3 = u32_field(sender_id) + p4;
        let p2 = string_field(run_id) + p3;
        let p1 = u32_field(0) + p2;
        assert(wire_encoding(m) + rest =~= p1);
        assert(encode_utf8(run_id).len() <= string_field(run_id).len());
        assert(padding.len() <= bytes_field(padding).len());
        lemma_take_u32(0, p2);
        lemma_take_string(run_id, p3);
        lemma_take_u32(sender_id, p4);
        lemma_take_u32(subnet_id, p5);
        lemma_take_u64(sequence_id, p6);
        lemma_take_u64(created_timestamp_ms, p7);
        lemma_take_bytes(padding, rest);
    
}

proof fn lemma_decode_encode_local_proof(run_id: Seq<char>, sender_id: u32, subnet_id: u32, covered_validator_count: usize, sequence_id: u64, created_timestamp_ms: u64, padding: Seq<u8>, rest: Seq<u8>)
    requires
        wire_encoding(WireMessageView::LocalProof { run_id, sender_id, subnet_id, covered_validator_count, sequence_id, created_timestamp_ms, padding }).len() <= u64::MAX,
    ensures
        wire_decoding(wire_encoding(WireMessageView::LocalProof { run_id, sender_id, subnet_id, covered_validator_count, sequence_id, created_timestamp_ms, padding }) + rest) == Ok::<WireMessageView, DecodeError>(WireMessageView::LocalProof { run_id, sender_id, subnet_id, covered_validator_count, sequence_id, created_timestamp_ms, padding }),
{
    let m = WireMessageView::LocalProof { run_id, sender_id, subnet_id, covered_validator_count, sequence_id, created_timestamp_ms, padding };
        let p8 = bytes_field(padding) + rest;
        let p7 = u64_field(created_timestamp_ms) + p8;
        let p6 = u64_field(sequence_id) + p7;
        let p5 = u64_field(covered_validator_count as u64) + p6;
        let p4 = u32_field(subnet_id) + p5;
        let p3 = u32_field(sender_id) + p4;
        let p2 = string_field(run_id) + p3;
        let p1 = u32_field(1) + p2;
        assert(wire_encoding(m) + rest =~= p1);
        assert(encode_utf8(run_id).len() <= string_field(run_id).len());
        assert(padding.len() <= bytes_field(padding).len());
        lemma_take_u32(1, p2);
        lemma_take_string(run_id, p3);
        lemma_take_u32(sender_id, p4);
        lemma_take_u32(subnet_id, p5);
        lemma_take_usize(covered_validator_count, p6);
        lemma_take_u64(sequence_id, p7);
        lemma_take_u64(created_timestamp_ms, p8);
        lemma_take_bytes(padding, rest);
    
}

proof fn lemma_decode_encode_global_proof(run_id: Seq<char>, sender_id: u32, covered_signature_count: usize, sequence_id: u64, created_timestamp_ms: u64, padding: Seq<u8>, rest: Seq<u8>)
    requires
        wire_encoding(WireMessageView::GlobalProof { run_id, sender_id, covered_signature_count, sequence_id, created_timestamp_ms, padding }).len() <= u64::MAX,
    ensures
        wire_decoding(wire_encoding(WireMessageView::GlobalProof { run_id, sender_id, covered_signature_count, sequence_id, created_timestamp_ms, padding }) + rest) == Ok::<WireMessageView, DecodeError>(WireMessageView::GlobalProof { run_id, sender_id, covered_signature_count, sequence_id, created_timestamp_ms, padding }),
{
    let m = WireMessageView::GlobalProof { run_id, sender_id, covered_signature_count, sequence_id, created_timestamp_ms, padding };
        let p7 = bytes_field(padding) + rest;
        let p6 = u64_field(created_timestamp_ms) + p7;
        let p5 = u64_field(sequence_id) + p6;
        let p4 = u64_field(covered_signature_count as u64) + p5;
        let p3 = u32_field(sender_id) + p4;
        let p2 = string_field(run_id) + p3;
        let p1 = u32_field(2) + p2;
        assert(wire_encoding(m) + rest =~= p1);
        assert(encode_utf8(run_id).len() <= string_field(run_id).len());
        assert(padding.len() <= bytes_field(padding).len());
        lemma_take_u32(2, p2);
        lemma_take_string(run_id, p3);
        lemma_take_u32(sender_id, p4);
        lemma_take_usize(covered_signature_count, p5);
        lemma_take_u64(sequence_id, p6);
        lemma_take_u64(created_timestamp_ms, p7);
        lemma_take_bytes(padding, rest);
    
}

/// Length of the encoding of `m` without its padding bytes.
pub open spec fn unpadded_len(m: WireMessageView) -> int {
    match m {
        WireMessageView::ValidatorSignature { run_id, .. } => 44 + encode_utf8(run_id).len() as int,
        WireMessageView::LocalProof { run_id, .. } => 52 + encode_utf8(run_id).len() as int,
        WireMessageView::GlobalProof { run_id, .. } => 48 + encode_utf8(run_id).len() as int,
    }
}

/// The encoding is the unpadded part followed by the padding bytes.
pub proof fn lemma_encoding_len(m: WireMessageView)
    ensures
        wire_encoding(m).len() == unpadded_len(m) + m.padding().len(),
{
    crate::messages::codec::lemma_le_bytes_len(0, 4);
    crate::messages::codec::lemma_le_bytes_len(1, 4);
    crate::messages::codec::lemma_le_bytes_len(2, 4);
    match m {
        WireMessageView::ValidatorSignature { run_id, sender_id, subnet_id, sequence_id, created_timestamp_ms, padding } => {
            crate::messages::codec::lemma_le_bytes_len(encode_utf8(run_id).len(), 8);
            crate::messages::codec::lemma_le_bytes_len(sender_id as nat, 4);
            crate::messages::codec::lemma_le_bytes_len(subnet_id as nat, 4);
            crate::messages::codec::lemma_le_bytes_len(sequence_id as nat, 8);
            crate::messages::codec::lemma_le_bytes_len(created_timestamp_ms as nat, 8);
            crate::messages::codec::lemma_le_bytes_len(padding.len(), 8);
        },
        WireMessageView::LocalProof { run_id, sender_id, subnet_id, covered_validator_count, sequence_id, created_timestamp_ms, padding } => {
            crate::messages::codec::lemma_le_bytes_len(encode_utf8(run_id).len(), 8);
            crate::messages::codec::lemma_le_bytes_len(sender_id as nat, 4);
            crate::messages::codec::lemma_le_bytes_len(subnet_id as nat, 4);
            crate::messages::codec::lemma_le_bytes_len(covered_validator_count as nat, 8);
            crate::messages::codec::lemma_le_bytes_len(sequence_id as nat, 8);
            crate::messages::codec::lemma_le_bytes_len(created_timestamp_ms as nat, 8);
            crate::messages::codec::lemma_le_bytes_len(padding.len(), 8);
        },
        WireMessageView::GlobalProof { run_id, sender_id, covered_signature_count, sequence_id, created_timestamp_ms, padding } => {
            crate::messages::codec::lemma_le_bytes_len(encode_utf8(run_id).len(), 8);
            crate::messages::codec::lemma_le_bytes_len(sender_id as nat, 4);
            crate::messages::codec::lemma_le_bytes_len(covered_signature_count as nat, 8);
            crate::messages::codec::lemma_le_bytes_len(sequence_id as nat, 8);
            crate::messages::codec::lemma_le_bytes_len(created_timestamp_ms as nat, 8);
            crate::messages::codec::lemma_le_bytes_len(padding.len(), 8);
        },
    }
}

/// Sizing a message to a target: the unpadded length is the length of the
/// message without padding, and the sized message takes exactly the target,
/// or the unpadded length when that already exceeds the target.
pub proof fn lemma_padded_size(m: WireMessageView, target: usize)
    ensures
        unpadded_len(m) == wire_encoding(m.with_padding(Seq::empty())).len(),
        wire_encoding(m.with_padding(padding_for(m, target))).len() == if target >= unpadded_len(m) {
            target as int
        } else {
            unpadded_len(m)
        },
{
    let p = padding_for(m, target);
    lemma_encoding_len(m.with_padding(Seq::empty()));
    lemma_encoding_len(m.with_padding(p));
    assert(unpadded_len(m.with_padding(p)) == unpadded_len(m));
    assert(unpadded_len(m.with_padding(Seq::empty())) == unpadded_len(m));
    assert(m.with_padding(Seq::empty()).padding() =~= Seq::<u8>::empty());
    assert(m.with_padding(p).padding() == p);
}

/// Sizing is idempotent: sizing a sized message to the same target changes
/// nothing.
pub proof fn lemma_resize_idempotent(m: WireMessageView, target: usize)
    ensures
        ({
            let sized = m.with_padding(padding_for(m, target));
            sized.with_padding(padding_for(sized, target)) == sized
        }),
{
    let p = padding_for(m, target);
    let sized = m.with_padding(p);
    assert(unpadded_len(sized) == unpadded_len(m));
    assert(padding_for(sized, target) =~= p);
    assert(sized.with_padding(p) == sized);
}

/// Different messages have different encodings (encoding is injective), so
/// equal message ids come from equal messages unless SHA-256 collides.
pub proof fn lemma_encoding_injective(a: WireMessageView, b: WireMessageView)
    requires
        wire_encoding(a).len() <= u64::MAX,
        wire_encoding(a) == wire_encoding(b),
    ensures
        a == b,
{
    lemma_decode_encode(a, Seq::empty());
    lemma_decode_encode(b, Seq::empty());
    assert(wire_encoding(a) + Seq::empty() =~= wire_encoding(a));
    assert(wire_encoding(b) + Seq::empty() =~= wire_encoding(b));
}

/// The encoding opens with the variant index as a little-endian `u32`:
/// 0 for a validator signature, 1 for a local proof, 2 for a global proof.
pub proof fn lemma_variant_tags(m: WireMessageView)
    ensures
        wire_encoding(m).len() >= 4,
        m is ValidatorSignature ==> wire_encoding(m).take(4) == seq![0u8, 0u8, 0u8, 0u8],
        m is LocalProof ==> wire_encoding(m).take(4) == seq![1u8, 0u8, 0u8, 0u8],
        m is GlobalProof ==> wire_encoding(m).take(4) == seq![2u8, 0u8, 0u8, 0u8],
{
    reveal_with_fuel(crate::messages::codec::le_bytes, 5);
    lemma_encoding_len(m);
    assert(u32_field(0) =~= seq![0u8, 0u8, 0u8, 0u8]);
    assert(u32_field(1) =~= seq![1u8, 0u8, 0u8, 0u8]);
    assert(u32_field(2) =~= seq![2u8, 0u8, 0u8, 0u8]);
    match m {
        WireMessageView::ValidatorSignature { .. } => {
            assert(wire_encoding(m).take(4) =~= u32_field(0));
        },
        WireMessageView::LocalProof { .. } => {
            assert(wire_encoding(m).take(4) =~= u32_field(1));
        },
        WireMessageView::GlobalProof { .. } => {
            assert(wire_encoding(m).take(4) =~= u32_field(2));
        },
    }
}

/// Decoding reads the variant from the first four bytes: bytes decode as a
/// validator signature only when they open with 0,0,0,0, as a local proof
/// only with 1,0,0,0, and as a global proof only with 2,0,0,0.
pub proof fn lemma_decoded_variant(b: Seq<u8>)
    ensures
        wire_decoding(b) matches Ok(m) ==> b.len() >= 4 && (m is ValidatorSignature <==> b.take(4)
            == seq![0u8, 0u8, 0u8, 0u8]) && (m is LocalProof <==> b.take(4) == seq![
            1u8,
            0u8,
            0u8,
            0u8,
        ]) && (m is GlobalProof <==> b.take(4) == seq![2u8, 0u8, 0u8, 0u8]),
{
    crate::messages::codec::lemma_take_fixed_reads(b, 4);
    if b.len() >= 4 {
        let t = b.take(4);
        crate::messages::codec::lemma_le_value_small(t, 0);
        crate::messages::codec::lemma_le_value_small(t, 1);
        crate::messages::codec::lemma_le_value_small(t, 2);
        if t == seq![0u8, 0u8, 0u8, 0u8] {
            assert(t != seq![1u8, 0u8, 0u8, 0u8]);
            assert(t != seq![2u8, 0u8, 0u8, 0u8]);
        }
        if t == seq![1u8, 0u8, 0u8, 0u8] {
            assert(t != seq![0u8, 0u8, 0u8, 0u8]);
            assert(t != seq![2u8, 0u8, 0u8, 0u8]);
        }
        if t == seq![2u8, 0u8, 0u8, 0u8] {
            assert(t != seq![0u8, 0u8, 0u8, 0u8]);
            assert(t != seq![1u8, 0u8, 0u8, 0u8]);
        }
    }
}

} // verus!
