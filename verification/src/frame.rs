//! Raw frames: a probe payload behind an IPv4 header and a UDP header.
//!
//! The IPv4 header has no options. It asks routers not to fragment the
//! datagram, so that a frame larger than the path allows is dropped and its
//! probe is seen as lost. Both checksums are filled in.

use crate::checksum::{
    checksum_of, internet_checksum, lemma_complement_cancels, lemma_word_sum_concat,
    lemma_word_sum_of_word, ones_complement, word_sum,
};
use crate::codec::{encode, encoded_payload};
use vstd::prelude::*;

verus! {

/// Bytes of an IPv4 header without options.
pub const IPV4_HEADER_BYTES: usize = 20;

/// Bytes of a UDP header.
pub const UDP_HEADER_BYTES: usize = 8;

/// Bytes that the two headers take together.
pub const FRAME_HEADER_BYTES: usize = 28;

/// The longest payload that fits a frame: the IPv4 length field has 16 bits.
pub const MAX_FRAME_PAYLOAD: usize = 65507;

/// Hops that a frame may take.
pub const TIME_TO_LIVE: u8 = 64;

/// The IPv4 protocol number of UDP.
pub const PROTOCOL_UDP: u8 = 17;

/// The source port of probes in raw frames.
pub const PROBE_SOURCE_PORT: u16 = 40000;

/// Where a frame comes from and where it goes.
#[derive(Debug, Clone, Copy, PartialEq, Eq)]
pub struct Endpoints {
    /// The IPv4 address of the sender.
    pub source: [u8; 4],
    /// The IPv4 address of the target.
    pub destination: [u8; 4],
    /// The UDP port of the sender.
    pub source_port: u16,
    /// The UDP port of the target.
    pub destination_port: u16,
}

/// Why no frame was built.
#[derive(Debug, Clone, Copy, PartialEq, Eq, Structural)]
pub enum FrameError {
    /// The payload is longer than `MAX_FRAME_PAYLOAD`.
    PayloadTooLarge,
}

/// The two bytes of a 16-bit field, high byte first.
pub open spec fn word_bytes(value: u16) -> Seq<u8> {
    seq![(value / 256) as u8, (value % 256) as u8]
}

/// An IPv4 header with the given checksum field: version 4 and five header
/// words, no service flags, the total length, identification zero, the
/// don't-fragment flag and offset zero, the time to live, the protocol, the
/// checksum, and the two addresses.
pub open spec fn ipv4_header_with(
    total_length: u16,
    source: Seq<u8>,
    destination: Seq<u8>,
    checksum: u16,
) -> Seq<u8> {
    seq![0x45u8, 0x00u8] + word_bytes(total_length) + seq![
        0x00u8,
        0x00u8,
        0x40u8,
        0x00u8,
        TIME_TO_LIVE,
        PROTOCOL_UDP,
    ] + word_bytes(checksum) + source + destination
}

/// The IPv4 header of a frame: its checksum is that of the header with a
/// zero checksum field.
pub open spec fn ipv4_header(total_length: u16, source: Seq<u8>, destination: Seq<u8>) -> Seq<u8> {
    ipv4_header_with(
        total_length,
        source,
        destination,
        checksum_of(ipv4_header_with(total_length, source, destination, 0)),
    )
}

/// A UDP header with the given checksum field: the two ports, the length of
/// header and payload, the checksum.
pub open spec fn udp_header_with(
    source_port: u16,
    destination_port: u16,
    udp_length: u16,
    checksum: u16,
) -> Seq<u8> {
    word_bytes(source_port) + word_bytes(destination_port) + word_bytes(udp_length) + word_bytes(
        checksum,
    )
}

/// What the UDP checksum covers besides the datagram: the two addresses, a
/// zero byte, the protocol, and the UDP length.
pub open spec fn pseudo_header(source: Seq<u8>, destination: Seq<u8>, udp_length: u16) -> Seq<u8> {
    source + destination + seq![0x00u8, PROTOCOL_UDP] + word_bytes(udp_length)
}

/// The UDP checksum of a datagram: the internet checksum of pseudo header,
/// header with a zero checksum field, and payload. A computed zero is sent
/// as all ones, since a zero field means that there is no checksum.
pub open spec fn udp_checksum_of(ends: Endpoints, payload: Seq<u8>) -> u16 {
    let udp_length = (UDP_HEADER_BYTES + payload.len()) as u16;
    let computed = checksum_of(
        pseudo_header(ends.source@, ends.destination@, udp_length) + udp_header_with(
            ends.source_port,
            ends.destination_port,
            udp_length,
            0,
        ) + payload,
    );
    if computed == 0 {
        0xffff
    } else {
        computed
    }
}

/// The frame that carries `payload` between `ends`.
pub open spec fn frame_of(ends: Endpoints, payload: Seq<u8>) -> Seq<u8> {
    ipv4_header((FRAME_HEADER_BYTES + payload.len()) as u16, ends.source@, ends.destination@)
        + udp_header_with(
        ends.source_port,
        ends.destination_port,
        (UDP_HEADER_BYTES + payload.len()) as u16,
        udp_checksum_of(ends, payload),
    ) + payload
}

/// Changing the checksum field of an IPv4 header changes the sum of its
/// words by the field's value.
pub proof fn lemma_ipv4_header_sum(
    total_length: u16,
    source: Seq<u8>,
    destination: Seq<u8>,
    checksum: u16,
)
    ensures
        word_sum(ipv4_header_with(total_length, source, destination, checksum)) == word_sum(
            ipv4_header_with(total_length, source, destination, 0),
        ) + checksum,
{
    let front = seq![0x45u8, 0x00u8] + word_bytes(total_length) + seq![
        0x00u8,
        0x00u8,
        0x40u8,
        0x00u8,
        TIME_TO_LIVE,
        PROTOCOL_UDP,
    ];
    let back = source + destination;
    assert(ipv4_header_with(total_length, source, destination, checksum) =~= front + (word_bytes(
        checksum,
    ) + back));
    assert(ipv4_header_with(total_length, source, destination, 0) =~= front + (word_bytes(0) + back));
    lemma_word_sum_concat(front, word_bytes(checksum) + back);
    lemma_word_sum_concat(front, word_bytes(0) + back);
    lemma_word_sum_concat(word_bytes(checksum), back);
    lemma_word_sum_concat(word_bytes(0), back);
    lemma_word_sum_of_word(checksum);
    lemma_word_sum_of_word(0);
}

/// The IPv4 header of a frame passes the receiver's test: its words,
/// checksum included, add up to all ones.
pub proof fn lemma_ipv4_header_verifies(total_length: u16, source: Seq<u8>, destination: Seq<u8>)
    ensures
        ones_complement(word_sum(ipv4_header(total_length, source, destination))) == 65535,
{
    let blank = ipv4_header_with(total_length, source, destination, 0);
    lemma_ipv4_header_sum(total_length, source, destination, checksum_of(blank));
    lemma_complement_cancels(word_sum(blank));
}

/// The UDP datagram of a frame passes the receiver's test: the words of
/// pseudo header, header and payload, checksum included, add up to all ones.
pub proof fn lemma_udp_datagram_verifies(ends: Endpoints, payload: Seq<u8>)
    ensures
        ({
            let udp_length = (UDP_HEADER_BYTES + payload.len()) as u16;
            ones_complement(
                word_sum(
                    pseudo_header(ends.source@, ends.destination@, udp_length) + udp_header_with(
                        ends.source_port,
                        ends.destination_port,
                        udp_length,
                        udp_checksum_of(ends, payload),
                    ) + payload,
                ),
            ) == 65535
        }),
{
    let udp_length = (UDP_HEADER_BYTES + payload.len()) as u16;
    let pseudo = pseudo_header(ends.source@, ends.destination@, udp_length);
    let front = pseudo + word_bytes(ends.source_port) + word_bytes(ends.destination_port)
        + word_bytes(udp_length);
    let check = udp_checksum_of(ends, payload);
    let blank = pseudo + udp_header_with(ends.source_port, ends.destination_port, udp_length, 0)
        + payload;
    let filled = pseudo + udp_header_with(
        ends.source_port,
        ends.destination_port,
        udp_length,
        check,
    ) + payload;
    assert(ends.source@.len() == 4 && ends.destination@.len() == 4);
    assert(front.len() == 18);
    assert(blank =~= front + (word_bytes(0) + payload));
    assert(filled =~= front + (word_bytes(check) + payload));
    lemma_word_sum_concat(front, word_bytes(0) + payload);
    lemma_word_sum_concat(front, word_bytes(check) + payload);
    lemma_word_sum_concat(word_bytes(0), payload);
    lemma_word_sum_concat(word_bytes(check), payload);
    lemma_word_sum_of_word(0);
    lemma_word_sum_of_word(check);
    lemma_complement_cancels(word_sum(blank));
    if checksum_of(blank) == 0 {
        crate::checksum::lemma_fold_step(word_sum(blank), 65535);
    }
}

/// Appends a 16-bit field, high byte first.
fn push_word(out: &mut Vec<u8>, value: u16)
    ensures
        final(out)@ == old(out)@ + word_bytes(value),
{
    out.push((value / 256) as u8);
    out.push((value % 256) as u8);
    proof {
        assert(out@ =~= old(out)@ + word_bytes(value));
    }
}

/// Appends a run of bytes.
fn push_bytes(out: &mut Vec<u8>, bytes: &[u8])
    ensures
        final(out)@ == old(out)@ + bytes@,
{
    let mut i: usize = 0;
    while i < bytes.len()
        invariant
            i <= bytes@.len(),
            out@ =~= old(out)@ + bytes@.subrange(0, i as int),
        decreases bytes@.len() - i,
    {
        out.push(bytes[i]);
        i += 1;
    }
    proof {
        assert(bytes@.subrange(0, i as int) =~= bytes@);
    }
}

/// Appends an IPv4 header with the given checksum field.
fn push_ipv4_header(out: &mut Vec<u8>, total_length: u16, ends: &Endpoints, checksum: u16)
    ensures
        final(out)@ == old(out)@ + ipv4_header_with(
            total_length,
            ends.source@,
            ends.destination@,
            checksum,
        ),
{
    out.push(0x45u8);
    out.push(0x00u8);
    push_word(out, total_length);
    out.push(0x00u8);
    out.push(0x00u8);
    out.push(0x40u8);
    out.push(0x00u8);
    out.push(TIME_TO_LIVE);
    out.push(PROTOCOL_UDP);
    push_word(out, checksum);
    push_bytes(out, vstd::array::array_as_slice(&ends.source));
    push_bytes(out, vstd::array::array_as_slice(&ends.destination));
    proof {
        assert(out@ =~= old(out)@ + ipv4_header_with(
            total_length,
            ends.source@,
            ends.destination@,
            checksum,
        ));
    }
}

/// Appends a UDP header with the given checksum field.
fn push_udp_header(out: &mut Vec<u8>, ends: &Endpoints, udp_length: u16, checksum: u16)
    ensures
        final(out)@ == old(out)@ + udp_header_with(
            ends.source_port,
            ends.destination_port,
            udp_length,
            checksum,
        ),
{
    push_word(out, ends.source_port);
    push_word(out, ends.destination_port);
    push_word(out, udp_length);
    push_word(out, checksum);
    proof {
        assert(out@ =~= old(out)@ + udp_header_with(
            ends.source_port,
            ends.destination_port,
            udp_length,
            checksum,
        ));
    }
}

/// Computes the UDP checksum of the datagram that carries `payload`.
fn udp_checksum(ends: &Endpoints, payload: &[u8]) -> (checksum: u16)
    requires
        payload@.len() <= MAX_FRAME_PAYLOAD,
    ensures
        checksum == udp_checksum_of(*ends, payload@),
{
    let udp_length: u16 = (UDP_HEADER_BYTES + payload.len()) as u16;
    let mut covered: Vec<u8> = Vec::new();
    push_bytes(&mut covered, vstd::array::array_as_slice(&ends.source));
    push_bytes(&mut covered, vstd::array::array_as_slice(&ends.destination));
    covered.push(0x00u8);
    covered.push(PROTOCOL_UDP);
    push_word(&mut covered, udp_length);
    proof {
        assert(covered@ =~= pseudo_header(ends.source@, ends.destination@, udp_length));
    }
    push_udp_header(&mut covered, ends, udp_length, 0);
    push_bytes(&mut covered, payload);
    let computed: u16 = internet_checksum(covered.as_slice());
    if computed == 0 {
        0xffff
    } else {
        computed
    }
}

/// Builds the frame that carries `payload` between `ends`. A payload longer
/// than `MAX_FRAME_PAYLOAD` fits no frame.
pub fn build_frame(ends: &Endpoints, payload: &[u8]) -> (frame: Result<Vec<u8>, FrameError>)
    ensures
        frame is Err <==> payload@.len() > MAX_FRAME_PAYLOAD,
        frame matches Ok(bytes) ==> bytes@ == frame_of(*ends, payload@) && bytes@.len()
            == FRAME_HEADER_BYTES + payload@.len(),
        frame matches Err(error) ==> error == FrameError::PayloadTooLarge,
{
    if payload.len() > MAX_FRAME_PAYLOAD {
        return Err(FrameError::PayloadTooLarge);
    }
    let total_length: u16 = (FRAME_HEADER_BYTES + payload.len()) as u16;
    let udp_length: u16 = (UDP_HEADER_BYTES + payload.len()) as u16;
    let mut blank: Vec<u8> = Vec::new();
    push_ipv4_header(&mut blank, total_length, ends, 0);
    proof {
        assert(blank@ =~= ipv4_header_with(total_length, ends.source@, ends.destination@, 0));
    }
    let header_checksum: u16 = internet_checksum(blank.as_slice());
    let datagram_checksum: u16 = udp_checksum(ends, payload);
    let mut bytes: Vec<u8> = Vec::new();
    push_ipv4_header(&mut bytes, total_length, ends, header_checksum);
    push_udp_header(&mut bytes, ends, udp_length, datagram_checksum);
    push_bytes(&mut bytes, payload);
    proof {
        assert(bytes@ =~= frame_of(*ends, payload@));
    }
    Ok(bytes)
}

/// The payload size that makes a frame of `total_size` bytes: what the
/// headers leave, and never less than the fixed part of a payload.
pub open spec fn payload_size_for(total_size: nat) -> nat {
    if total_size > FRAME_HEADER_BYTES + 24 {
        (total_size - FRAME_HEADER_BYTES) as nat
    } else {
        24
    }
}

/// Builds the raw frame of one probe: the payload of `encode`, sized so that
/// the whole frame has `total_size` bytes where that is at least 52, behind
/// both headers. A frame of more than 65535 bytes cannot be built.
pub fn encode_frame(sequence: u64, sent_at: u128, total_size: usize, ends: &Endpoints) -> (frame:
    Result<Vec<u8>, FrameError>)
    ensures
        frame is Err <==> total_size > FRAME_HEADER_BYTES + MAX_FRAME_PAYLOAD,
        frame matches Ok(bytes) ==> bytes@ == frame_of(
            *ends,
            encoded_payload(sequence, sent_at, payload_size_for(total_size as nat)),
        ) && bytes@.len() == FRAME_HEADER_BYTES + payload_size_for(total_size as nat),
        frame matches Err(error) ==> error == FrameError::PayloadTooLarge,
{
    let payload_size: usize = if total_size > FRAME_HEADER_BYTES + 24 {
        total_size - FRAME_HEADER_BYTES
    } else {
        24
    };
    let payload = encode(sequence, sent_at, payload_size);
    build_frame(ends, payload.as_slice())
}

} // verus!
