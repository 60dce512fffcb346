//! The wire layout of a probe.
//!
//! A probe payload is the sequence number as 8 big-endian bytes, the send time
//! in microseconds as 16 big-endian bytes, and zero padding up to the size that
//! was asked for. A reader takes the first 24 bytes and ignores the rest.

use byteorder::{BigEndian, ReadBytesExt, WriteBytesExt};
use vstd::prelude::*;

verus! {

/// Number of bytes taken by the sequence number.
pub const SEQUENCE_BYTES: usize = 8;

/// Number of bytes taken by the send time.
pub const TIMESTAMP_BYTES: usize = 16;

/// Number of bytes taken by the fixed part of a payload.
pub const HEADER_BYTES: usize = 24;

/// Why a datagram could not be read as a probe.
#[derive(Debug, Clone, Copy, PartialEq, Eq, Structural)]
pub enum DecodeError {
    /// The datagram is shorter than the fixed part of a payload.
    MalformedPayload,
}

/// The number of values that `width` bytes can tell apart.
pub open spec fn radix(width: nat) -> nat
    decreases width,
{
    if width == 0 {
        1
    } else {
        256 * radix((width - 1) as nat)
    }
}

/// The big-endian bytes of `value` in `width` bytes: the most significant
/// byte first. A value too large for the width loses its upper part.
pub open spec fn be_bytes(value: nat, width: nat) -> Seq<u8>
    decreases width,
{
    if width == 0 {
        Seq::empty()
    } else {
        be_bytes(value / 256, (width - 1) as nat).push((value % 256) as u8)
    }
}

/// The number that `bytes` spell when read big-endian.
pub open spec fn be_value(bytes: Seq<u8>) -> nat
    decreases bytes.len(),
{
    if bytes.len() == 0 {
        0
    } else {
        be_value(bytes.drop_last()) * 256 + bytes.last() as nat
    }
}

/// `be_bytes` gives exactly `width` bytes.
pub proof fn lemma_be_bytes_len(value: nat, width: nat)
    ensures
        be_bytes(value, width).len() == width,
    decreases width,
{
    if width > 0 {
        lemma_be_bytes_len(value / 256, (width - 1) as nat);
    }
}

/// Reading the big-endian bytes of a value that fits gives the value back.
pub proof fn lemma_be_value_of_be_bytes(value: nat, width: nat)
    requires
        value < radix(width),
    ensures
        be_value(be_bytes(value, width)) == value,
    decreases width,
{
    if width > 0 {
        let upper = be_bytes(value / 256, (width - 1) as nat);
        let all = be_bytes(value, width);
        assert(all.drop_last() =~= upper);
        lemma_be_value_of_be_bytes(value / 256, (width - 1) as nat);
    }
}

/// The values of a 64-bit and of a 128-bit number fit their widths.
pub proof fn lemma_radix_of_widths()
    ensures
        radix(8) == 0x1_0000_0000_0000_0000,
        radix(16) == 0x1_0000_0000_0000_0000_0000_0000_0000_0000,
{
    reveal_with_fuel(radix, 17);
}

/// `count` zero bytes.
pub open spec fn zero_bytes(count: nat) -> Seq<u8> {
    Seq::new(count, |i: int| 0u8)
}

/// The payload of the probe `sequence`, sent at `sent_at`, for a datagram of
/// `total_size` bytes. The fixed part is never cut short: a size below 24
/// gives 24 bytes.
pub open spec fn encoded_payload(sequence: u64, sent_at: u128, total_size: nat) -> Seq<u8> {
    let padding = if total_size > 24 {
        (total_size - 24) as nat
    } else {
        0
    };
    be_bytes(sequence as nat, 8) + be_bytes(sent_at as nat, 16) + zero_bytes(padding)
}

/// What a reader makes of `bytes`: sequence number and send time, or no probe
/// at all where the fixed part is incomplete.
pub open spec fn decoded_payload(bytes: Seq<u8>) -> Result<(u64, u128), DecodeError> {
    if bytes.len() < 24 {
        Err(DecodeError::MalformedPayload)
    } else {
        Ok((be_value(bytes.subrange(0, 8)) as u64, be_value(bytes.subrange(8, 24)) as u128))
    }
}

/// `byteorder::WriteBytesExt::write_u64` with `BigEndian`, on a vector as the
/// writer: the vector grows by the eight big-endian bytes of `value`. Writing
/// to a vector cannot fail.
#[verifier::external_body]
fn append_u64_be(out: &mut Vec<u8>, value: u64)
    ensures
        final(out)@ == old(out)@ + be_bytes(value as nat, 8),
{
    let _ = out.write_u64::<BigEndian>(value);
}

/// `byteorder::WriteBytesExt::write_u128` with `BigEndian`, on a vector as the
/// writer: the vector grows by the sixteen big-endian bytes of `value`.
#[verifier::external_body]
fn append_u128_be(out: &mut Vec<u8>, value: u128)
    ensures
        final(out)@ == old(out)@ + be_bytes(value as nat, 16),
{
    let _ = out.write_u128::<BigEndian>(value);
}

/// `byteorder::ReadBytesExt::read_u64` with `BigEndian`, on a slice as the
/// reader: the number spelt by the first eight bytes, or nothing where the
/// slice holds fewer.
#[verifier::external_body]
fn read_u64_be(bytes: &[u8]) -> (value: Option<u64>)
    ensures
        value is None <==> bytes@.len() < 8,
        value matches Some(v) ==> v as nat == be_value(bytes@.subrange(0, 8)),
{
    let mut reader = bytes;
    reader.read_u64::<BigEndian>().ok()
}

/// `byteorder::ReadBytesExt::read_u128` with `BigEndian`, on a slice as the
/// reader: the number spelt by the first sixteen bytes, or nothing where the
/// slice holds fewer.
#[verifier::external_body]
fn read_u128_be(bytes: &[u8]) -> (value: Option<u128>)
    ensures
        value is None <==> bytes@.len() < 16,
        value matches Some(v) ==> v as nat == be_value(bytes@.subrange(0, 16)),
{
    let mut reader = bytes;
    reader.read_u128::<BigEndian>().ok()
}

/// Builds the payload of one probe.
pub fn encode(sequence: u64, sent_at: u128, total_size: usize) -> (payload: Vec<u8>)
    ensures
        payload@ == encoded_payload(sequence, sent_at, total_size as nat),
        payload@.len() == if total_size > 24 { total_size as nat } else { 24 },
{
    let mut payload: Vec<u8> = Vec::new();
    append_u64_be(&mut payload, sequence);
    append_u128_be(&mut payload, sent_at);
    proof {
        lemma_be_bytes_len(sequence as nat, 8);
        lemma_be_bytes_len(sent_at as nat, 16);
    }
    let ghost header = be_bytes(sequence as nat, 8) + be_bytes(sent_at as nat, 16);
    assert(payload@ =~= header);
    while payload.len() < total_size
        invariant
            header == be_bytes(sequence as nat, 8) + be_bytes(sent_at as nat, 16),
            header.len() == 24,
            payload@.len() >= 24,
            payload@.len() <= total_size || payload@.len() == 24,
            payload@ =~= header + zero_bytes((payload@.len() - 24) as nat),
        decreases total_size - payload.len(),
    {
        payload.push(0u8);
    }
    proof {
        assert(payload@ =~= encoded_payload(sequence, sent_at, total_size as nat));
    }
    payload
}

/// Reads the sequence number and the send time out of a datagram. Bytes
/// beyond the fixed part are padding and are not looked at.
pub fn decode(bytes: &[u8]) -> (probe: Result<(u64, u128), DecodeError>)
    ensures
        probe == decoded_payload(bytes@),
        probe is Err <==> bytes@.len() < 24,
{
    if bytes.len() < HEADER_BYTES {
        return Err(DecodeError::MalformedPayload);
    }
    let rest = vstd::slice::slice_subrange(bytes, SEQUENCE_BYTES, HEADER_BYTES);
    let sequence = read_u64_be(bytes);
    let sent_at = read_u128_be(rest);
    proof {
        assert(rest@.subrange(0, 16) =~= bytes@.subrange(8, 24));
    }
    match (sequence, sent_at) {
        (Some(s), Some(t)) => Ok((s, t)),
        _ => Err(DecodeError::MalformedPayload),
    }
}

/// Decoding an encoded probe gives back its sequence number and send time,
/// whatever size was asked for.
pub proof fn lemma_decode_encode(sequence: u64, sent_at: u128, total_size: nat)
    ensures
        decoded_payload(encoded_payload(sequence, sent_at, total_size)) == Ok::<
            (u64, u128),
            DecodeError,
        >((sequence, sent_at)),
{
    let bytes = encoded_payload(sequence, sent_at, total_size);
    lemma_be_bytes_len(sequence as nat, 8);
    lemma_be_bytes_len(sent_at as nat, 16);
    lemma_radix_of_widths();
    lemma_be_value_of_be_bytes(sequence as nat, 8);
    lemma_be_value_of_be_bytes(sent_at as nat, 16);
    assert(bytes.subrange(0, 8) =~= be_bytes(sequence as nat, 8));
    assert(bytes.subrange(8, 24) =~= be_bytes(sent_at as nat, 16));
}

/// A datagram shorter than the fixed part is never read as a probe.
pub proof fn lemma_short_datagram_rejected(bytes: Seq<u8>)
    requires
        bytes.len() < 24,
    ensures
        decoded_payload(bytes) == Err::<(u64, u128), DecodeError>(DecodeError::MalformedPayload),
{
}

} // verus!
