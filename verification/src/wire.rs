//! The wire codec.
//!
//! A packet is a 12-octet header followed by a payload.  Header layout, all
//! integers big-endian: octet 0 protocol version, octet 1 message type,
//! octet 2 flags (bit 7 to-gateway, bit 6 encrypted, bit 5 reply; the
//! remaining bits are reserved and preserved on forwarding), octet 3
//! sequence/marker, octets 4..8 source virtual IP, octets 8..12 destination
//! virtual IP.  On the stream transport each packet is preceded by a 4-octet
//! prefix: two reserved zero octets, then the packet length as a big-endian
//! 16-bit integer.

use vstd::prelude::*;

verus! {

pub const PROTOCOL_VERSION: u8 = 1;

pub const HEADER_LEN: usize = 12;

/// The largest whole packet the framing can carry.
pub const MAX_PACKET_LEN: usize = 65535;

/// The largest payload: `MAX_PACKET_LEN` less the header.
pub const MAX_PAYLOAD_LEN: usize = 65523;

pub const FLAG_TO_GATEWAY: u8 = 0x80;

pub const FLAG_ENCRYPTED: u8 = 0x40;

pub const FLAG_REPLY: u8 = 0x20;

/// The message types of the protocol.  Gateway-directed control types first,
/// then the data-plane types the server forwards or brokers.
#[derive(Clone, Copy, PartialEq, Eq, Structural, Debug)]
pub enum MessageType {
    PublicKeyRequest,
    PublicKeyResponse,
    SecretKeyExchange,
    SecretKeyResponse,
    Registration,
    RegistrationResponse,
    PollDeviceList,
    DeviceList,
    NotModified,
    Heartbeat,
    HeartbeatAck,
    Leave,
    TimeSync,
    TimeResponse,
    ErrorResponse,
    Data,
    PunchRequest,
    PunchInfo,
    Unreachable,
}

pub open spec fn spec_message_code(t: MessageType) -> u8 {
    match t {
        MessageType::PublicKeyRequest => 1,
        MessageType::PublicKeyResponse => 2,
        MessageType::SecretKeyExchange => 3,
        MessageType::SecretKeyResponse => 4,
        MessageType::Registration => 5,
        MessageType::RegistrationResponse => 6,
        MessageType::PollDeviceList => 7,
        MessageType::DeviceList => 8,
        MessageType::NotModified => 9,
        MessageType::Heartbeat => 10,
        MessageType::HeartbeatAck => 11,
        MessageType::Leave => 12,
        MessageType::TimeSync => 13,
        MessageType::TimeResponse => 14,
        MessageType::ErrorResponse => 15,
        MessageType::Data => 16,
        MessageType::PunchRequest => 17,
        MessageType::PunchInfo => 18,
        MessageType::Unreachable => 19,
    }
}

pub const MIN_MESSAGE_CODE: u8 = 1;

pub const MAX_MESSAGE_CODE: u8 = 19;

#[verifier::when_used_as_spec(spec_message_code)]
pub fn message_code(t: MessageType) -> (r: u8)
    ensures
        r == spec_message_code(t),
{
    match t {
        MessageType::PublicKeyRequest => 1,
        MessageType::PublicKeyResponse => 2,
        MessageType::SecretKeyExchange => 3,
        MessageType::SecretKeyResponse => 4,
        MessageType::Registration => 5,
        MessageType::RegistrationResponse => 6,
        MessageType::PollDeviceList => 7,
        MessageType::DeviceList => 8,
        MessageType::NotModified => 9,
        MessageType::Heartbeat => 10,
        MessageType::HeartbeatAck => 11,
        MessageType::Leave => 12,
        MessageType::TimeSync => 13,
        MessageType::TimeResponse => 14,
        MessageType::ErrorResponse => 15,
        MessageType::Data => 16,
        MessageType::PunchRequest => 17,
        MessageType::PunchInfo => 18,
        MessageType::Unreachable => 19,
    }
}

pub open spec fn spec_message_of_code(code: u8) -> Option<MessageType> {
    if code == 1 {
        Some(MessageType::PublicKeyRequest)
    } else if code == 2 {
        Some(MessageType::PublicKeyResponse)
    } else if code == 3 {
        Some(MessageType::SecretKeyExchange)
    } else if code == 4 {
        Some(MessageType::SecretKeyResponse)
    } else if code == 5 {
        Some(MessageType::Registration)
    } else if code == 6 {
        Some(MessageType::RegistrationResponse)
    } else if code == 7 {
        Some(MessageType::PollDeviceList)
    } else if code == 8 {
        Some(MessageType::DeviceList)
    } else if code == 9 {
        Some(MessageType::NotModified)
    } else if code == 10 {
        Some(MessageType::Heartbeat)
    } else if code == 11 {
        Some(MessageType::HeartbeatAck)
    } else if code == 12 {
        Some(MessageType::Leave)
    } else if code == 13 {
        Some(MessageType::TimeSync)
    } else if code == 14 {
        Some(MessageType::TimeResponse)
    } else if code == 15 {
        Some(MessageType::ErrorResponse)
    } else if code == 16 {
        Some(MessageType::Data)
    } else if code == 17 {
        Some(MessageType::PunchRequest)
    } else if code == 18 {
        Some(MessageType::PunchInfo)
    } else if code == 19 {
        Some(MessageType::Unreachable)
    } else {
        None
    }
}

#[verifier::when_used_as_spec(spec_message_of_code)]
pub fn message_of_code(code: u8) -> (r: Option<MessageType>)
    ensures
        r == spec_message_of_code(code),
{
    if 1 <= code && code <= 19 {
        Some(
            match code {
                1 => MessageType::PublicKeyRequest,
                2 => MessageType::PublicKeyResponse,
                3 => MessageType::SecretKeyExchange,
                4 => MessageType::SecretKeyResponse,
                5 => MessageType::Registration,
                6 => MessageType::RegistrationResponse,
                7 => MessageType::PollDeviceList,
                8 => MessageType::DeviceList,
                9 => MessageType::NotModified,
                10 => MessageType::Heartbeat,
                11 => MessageType::HeartbeatAck,
                12 => MessageType::Leave,
                13 => MessageType::TimeSync,
                14 => MessageType::TimeResponse,
                15 => MessageType::ErrorResponse,
                16 => MessageType::Data,
                17 => MessageType::PunchRequest,
                _ => {
                    if code == 18 {
                        MessageType::PunchInfo
                    } else {
                        MessageType::Unreachable
                    }
                },
            },
        )
    } else {
        None
    }
}

/// Decoding a code is the inverse of encoding a message type.
pub proof fn lemma_message_code_round_trip(t: MessageType)
    ensures
        spec_message_of_code(spec_message_code(t)) == Some(t),
        MIN_MESSAGE_CODE <= spec_message_code(t) <= MAX_MESSAGE_CODE,
{
}

/// Why a buffer was refused as a packet.
#[derive(Clone, Copy, PartialEq, Eq, Structural, Debug)]
pub enum WireError {
    /// Shorter than a header, or longer than the framing can carry.
    LengthOutOfBounds,
    /// The version octet differs from `PROTOCOL_VERSION`.
    UnknownVersion,
    /// The message-type octet encodes no message type.
    UnknownType,
}

/// A big-endian 32-bit integer read at offset `i`.
pub open spec fn spec_be32(b: Seq<u8>, i: int) -> u32 {
    (((b[i] as u32) << 24) | ((b[i + 1] as u32) << 16) | ((b[i + 2] as u32) << 8) | (b[i + 3]
        as u32))
}

/// The four big-endian octets of a 32-bit integer.
pub open spec fn spec_be32_bytes(x: u32) -> Seq<u8> {
    seq![(x >> 24) as u8, ((x >> 16) & 0xFF) as u8, ((x >> 8) & 0xFF) as u8, (x & 0xFF) as u8]
}

pub proof fn lemma_be32_round_trip(x: u32)
    ensures
        spec_be32(spec_be32_bytes(x), 0) == x,
{
    let b0 = (x >> 24) as u8;
    let b1 = ((x >> 16) & 0xFF) as u8;
    let b2 = ((x >> 8) & 0xFF) as u8;
    let b3 = (x & 0xFF) as u8;
    assert((((b0 as u32) << 24) | ((b1 as u32) << 16) | ((b2 as u32) << 8) | (b3 as u32)) == x)
        by (bit_vector)
        requires
            b0 == (x >> 24) as u8,
            b1 == ((x >> 16) & 0xFF) as u8,
            b2 == ((x >> 8) & 0xFF) as u8,
            b3 == (x & 0xFF) as u8,
    ;
}

pub fn be32_at(buf: &Vec<u8>, i: usize) -> (r: u32)
    requires
        i + 4 <= buf@.len(),
    ensures
        r == spec_be32(buf@, i as int),
{
    proof {
        vstd::std_specs::vec::axiom_spec_len(buf);
    }
    ((buf[i] as u32) << 24u32) | ((buf[i + 1] as u32) << 16u32) | ((buf[i + 2] as u32) << 8u32) | (
    buf[i + 3] as u32)
}

/// Appends the four big-endian octets of `x`.
pub fn push_be32(out: &mut Vec<u8>, x: u32)
    ensures
        final(out)@ == old(out)@ + spec_be32_bytes(x),
{
    out.push((x >> 24u32) as u8);
    out.push(((x >> 16u32) & 0xFF) as u8);
    out.push(((x >> 8u32) & 0xFF) as u8);
    out.push((x & 0xFF) as u8);
    proof {
        assert(out@ =~= old(out)@ + spec_be32_bytes(x));
    }
}

/// A big-endian 64-bit integer read at offset `i`.
pub open spec fn spec_be64(b: Seq<u8>, i: int) -> u64 {
    ((spec_be32(b, i) as u64) << 32) | (spec_be32(b, i + 4) as u64)
}

pub fn be64_at(buf: &Vec<u8>, i: usize) -> (r: u64)
    requires
        i + 8 <= buf@.len(),
    ensures
        r == spec_be64(buf@, i as int),
{
    proof {
        vstd::std_specs::vec::axiom_spec_len(buf);
    }
    let hi = be32_at(buf, i);
    let lo = be32_at(buf, i + 4);
    ((hi as u64) << 32u64) | (lo as u64)
}

/// The eight big-endian octets of a 64-bit integer.
pub open spec fn spec_be64_bytes(x: u64) -> Seq<u8> {
    spec_be32_bytes((x >> 32) as u32) + spec_be32_bytes((x & 0xFFFF_FFFF) as u32)
}

pub fn push_be64(out: &mut Vec<u8>, x: u64)
    ensures
        final(out)@ == old(out)@ + spec_be64_bytes(x),
{
    proof {
        assert((x & 0xFFFF_FFFF) <= 0xFFFF_FFFF) by (bit_vector);
    }
    push_be32(out, (x >> 32u64) as u32);
    push_be32(out, (x & 0xFFFF_FFFF) as u32);
    proof {
        assert(out@ =~= old(out)@ + spec_be64_bytes(x));
    }
}

/// Encoding then decoding gives the integer back.
pub proof fn lemma_be64_round_trip(x: u64)
    ensures
        spec_be64(spec_be64_bytes(x), 0) == x,
{
    let hi = (x >> 32) as u32;
    let lo = (x & 0xFFFF_FFFF) as u32;
    lemma_be32_round_trip(hi);
    lemma_be32_round_trip(lo);
    assert(spec_be64_bytes(x).subrange(0, 4) =~= spec_be32_bytes(hi));
    assert(spec_be64_bytes(x).subrange(4, 8) =~= spec_be32_bytes(lo));
    assert(spec_be32(spec_be64_bytes(x), 0) == spec_be32(spec_be32_bytes(hi), 0));
    assert(spec_be32(spec_be64_bytes(x), 4) == spec_be32(spec_be32_bytes(lo), 0));
    assert((((hi as u64) << 32) | (lo as u64)) == x) by (bit_vector)
        requires
            hi == (x >> 32) as u32,
            lo == (x & 0xFFFF_FFFF) as u32,
    ;
}

/// Reading four octets and re-encoding them gives the octets back.
pub proof fn lemma_be32_bytes_of(b: Seq<u8>, i: int)
    requires
        0 <= i,
        i + 4 <= b.len(),
    ensures
        spec_be32_bytes(spec_be32(b, i)) =~= b.subrange(i, i + 4),
{
    let x = spec_be32(b, i);
    let b0 = b[i];
    let b1 = b[i + 1];
    let b2 = b[i + 2];
    let b3 = b[i + 3];
    assert(((x >> 24) as u8 == b0 && ((x >> 16) & 0xFF) as u8 == b1 && ((x >> 8) & 0xFF) as u8
        == b2 && (x & 0xFF) as u8 == b3)) by (bit_vector)
        requires
            x == (((b0 as u32) << 24) | ((b1 as u32) << 16) | ((b2 as u32) << 8) | (b3 as u32)),
    ;
}

/// The header fields, decoded.
#[derive(Clone, Copy, PartialEq, Eq, Structural, Debug)]
pub struct PacketHeader {
    pub version: u8,
    pub msg_type: u8,
    pub flags: u8,
    pub seq: u8,
    pub source: u32,
    pub destination: u32,
}

/// The fields read from the first 12 octets of `b`.
pub open spec fn spec_header_of(b: Seq<u8>) -> PacketHeader {
    PacketHeader {
        version: b[0],
        msg_type: b[1],
        flags: b[2],
        seq: b[3],
        source: spec_be32(b, 4),
        destination: spec_be32(b, 8),
    }
}

/// The 12 header octets of `h`.
pub open spec fn spec_header_bytes(h: PacketHeader) -> Seq<u8> {
    seq![h.version, h.msg_type, h.flags, h.seq] + spec_be32_bytes(h.source) + spec_be32_bytes(
        h.destination,
    )
}

/// A buffer is accepted as a packet when its length is in bounds, its
/// version is current, and its message-type octet is known.
pub open spec fn spec_packet_ok(b: Seq<u8>) -> bool {
    &&& b.len() >= HEADER_LEN
    &&& b.len() <= MAX_PACKET_LEN
    &&& b[0] == PROTOCOL_VERSION
    &&& spec_message_of_code(b[1]) is Some
}

/// The packet encoding of header `h` followed by `payload`.
pub open spec fn spec_encode(h: PacketHeader, payload: Seq<u8>) -> Seq<u8> {
    spec_header_bytes(h) + payload
}

/// Encoding then decoding gives back the header and the payload.
pub proof fn lemma_header_round_trip(h: PacketHeader, payload: Seq<u8>)
    ensures
        spec_header_of(spec_encode(h, payload)) == h,
        spec_encode(h, payload).subrange(HEADER_LEN as int, spec_encode(h, payload).len() as int)
            =~= payload,
        spec_encode(h, payload).len() == HEADER_LEN + payload.len(),
{
    let b = spec_encode(h, payload);
    lemma_be32_round_trip(h.source);
    lemma_be32_round_trip(h.destination);
    assert(b.subrange(4, 8) =~= spec_be32_bytes(h.source));
    assert(b.subrange(8, 12) =~= spec_be32_bytes(h.destination));
    assert(spec_be32(b, 4) == spec_be32(spec_be32_bytes(h.source), 0));
    assert(spec_be32(b, 8) == spec_be32(spec_be32_bytes(h.destination), 0));
}

/// A parsed packet: the undamaged buffer, known to satisfy `spec_packet_ok`.
pub struct NetPacket {
    pub buf: Vec<u8>,
}

impl NetPacket {
    pub open spec fn wf(self) -> bool {
        spec_packet_ok(self.buf@)
    }

    pub open spec fn spec_header(self) -> PacketHeader {
        spec_header_of(self.buf@)
    }

    pub open spec fn spec_payload(self) -> Seq<u8> {
        self.buf@.subrange(HEADER_LEN as int, self.buf@.len() as int)
    }

    /// Accepts `buf` as a packet, or reports the first framing rule it
    /// breaks: bounds, then version, then message type.
    pub fn parse(buf: Vec<u8>) -> (r: Result<NetPacket, WireError>)
        ensures
            r is Ok <==> spec_packet_ok(buf@),
            r matches Ok(p) ==> p.buf@ == buf@ && p.wf(),
            r matches Err(e) ==> e == (if buf@.len() < HEADER_LEN || buf@.len() > MAX_PACKET_LEN {
                WireError::LengthOutOfBounds
            } else if buf@[0] != PROTOCOL_VERSION {
                WireError::UnknownVersion
            } else {
                WireError::UnknownType
            }),
    {
        if buf.len() < HEADER_LEN || buf.len() > MAX_PACKET_LEN {
            return Err(WireError::LengthOutOfBounds);
        }
        if buf[0] != PROTOCOL_VERSION {
            return Err(WireError::UnknownVersion);
        }
        if message_of_code(buf[1]).is_none() {
            return Err(WireError::UnknownType);
        }
        Ok(NetPacket { buf })
    }

    /// Encodes a packet: current version, the given type, flags, sequence
    /// octet and addresses, then the payload.  Refused only when the payload
    /// would overflow the framing.
    pub fn build(
        msg_type: MessageType,
        flags: u8,
        seq: u8,
        source: u32,
        destination: u32,
        payload: &Vec<u8>,
    ) -> (r: Result<NetPacket, WireError>)
        ensures
            r is Ok <==> payload@.len() <= MAX_PAYLOAD_LEN,
            r matches Err(e) ==> e == WireError::LengthOutOfBounds,
            r matches Ok(p) ==> {
                &&& p.wf()
                &&& p.buf@ == spec_encode(
                    PacketHeader {
                        version: PROTOCOL_VERSION,
                        msg_type: spec_message_code(msg_type),
                        flags,
                        seq,
                        source,
                        destination,
                    },
                    payload@,
                )
                &&& p.spec_header() == (PacketHeader {
                    version: PROTOCOL_VERSION,
                    msg_type: spec_message_code(msg_type),
                    flags,
                    seq,
                    source,
                    destination,
                })
                &&& p.spec_payload() == payload@
                &&& p.buf@.len() == HEADER_LEN + payload@.len()
            },
    {
        if payload.len() > MAX_PAYLOAD_LEN {
            return Err(WireError::LengthOutOfBounds);
        }
        let ghost h = PacketHeader {
            version: PROTOCOL_VERSION,
            msg_type: spec_message_code(msg_type),
            flags,
            seq,
            source,
            destination,
        };
        let mut buf: Vec<u8> = Vec::new();
        buf.push(PROTOCOL_VERSION);
        buf.push(message_code(msg_type));
        buf.push(flags);
        buf.push(seq);
        push_be32(&mut buf, source);
        push_be32(&mut buf, destination);
        proof {
            assert(buf@ =~= spec_header_bytes(h));
        }
        let mut i: usize = 0;
        while i < payload.len()
            invariant
                i <= payload@.len(),
                buf@ =~= spec_header_bytes(h) + payload@.subrange(0, i as int),
            decreases payload@.len() - i,
        {
            buf.push(payload[i]);
            i += 1;
            proof {
                assert(buf@ =~= spec_header_bytes(h) + payload@.subrange(0, i as int));
            }
        }
        proof {
            assert(payload@.subrange(0, payload@.len() as int) =~= payload@);
            lemma_header_round_trip(h, payload@);
            lemma_message_code_round_trip(msg_type);
        }
        let p = NetPacket { buf };
        proof {
            assert(p.spec_payload() =~= payload@);
        }
        Ok(p)
    }

    pub fn header(&self) -> (r: PacketHeader)
        requires
            self.wf(),
        ensures
            r == self.spec_header(),
    {
        PacketHeader {
            version: self.buf[0],
            msg_type: self.buf[1],
            flags: self.buf[2],
            seq: self.buf[3],
            source: be32_at(&self.buf, 4),
            destination: be32_at(&self.buf, 8),
        }
    }

    /// The message type; total because `wf` pins the type octet to a known
    /// code.
    pub fn message_type(&self) -> (r: MessageType)
        requires
            self.wf(),
        ensures
            Some(r) == spec_message_of_code(self.spec_header().msg_type),
    {
        let r = message_of_code(self.buf[1]);
        match r {
            Some(t) => t,
            None => {
                proof {
                    assert(false);
                }
                MessageType::Data
            },
        }
    }

    pub fn is_to_gateway(&self) -> (r: bool)
        requires
            self.wf(),
        ensures
            r == (self.spec_header().flags & FLAG_TO_GATEWAY != 0),
    {
        self.buf[2] & FLAG_TO_GATEWAY != 0
    }

    pub fn is_encrypted(&self) -> (r: bool)
        requires
            self.wf(),
        ensures
            r == (self.spec_header().flags & FLAG_ENCRYPTED != 0),
    {
        self.buf[2] & FLAG_ENCRYPTED != 0
    }

    pub fn is_reply(&self) -> (r: bool)
        requires
            self.wf(),
        ensures
            r == (self.spec_header().flags & FLAG_REPLY != 0),
    {
        self.buf[2] & FLAG_REPLY != 0
    }

    pub fn source(&self) -> (r: u32)
        requires
            self.wf(),
        ensures
            r == self.spec_header().source,
    {
        be32_at(&self.buf, 4)
    }

    pub fn destination(&self) -> (r: u32)
        requires
            self.wf(),
        ensures
            r == self.spec_header().destination,
    {
        be32_at(&self.buf, 8)
    }

    pub fn payload_len(&self) -> (r: usize)
        requires
            self.wf(),
        ensures
            r == self.spec_payload().len(),
    {
        self.buf.len() - HEADER_LEN
    }

    /// A copy of the payload octets.
    pub fn payload_to_vec(&self) -> (r: Vec<u8>)
        requires
            self.wf(),
        ensures
            r@ == self.spec_payload(),
    {
        let mut out: Vec<u8> = Vec::new();
        let mut i: usize = HEADER_LEN;
        while i < self.buf.len()
            invariant
                HEADER_LEN <= i <= self.buf@.len(),
                self.wf(),
                out@ =~= self.buf@.subrange(HEADER_LEN as int, i as int),
            decreases self.buf@.len() - i,
        {
            out.push(self.buf[i]);
            i += 1;
            proof {
                assert(out@ =~= self.buf@.subrange(HEADER_LEN as int, i as int));
            }
        }
        proof {
            assert(out@ =~= self.spec_payload());
        }
        out
    }

    pub fn buffer(&self) -> (r: &Vec<u8>)
        ensures
            r@ == self.buf@,
    {
        &self.buf
    }
}

/// Reads the stream-transport length prefix: two reserved zero octets, then
/// the packet length.  Lengths shorter than a header are refused, as is a
/// non-zero reserved octet.
pub fn parse_frame_prefix(b0: u8, b1: u8, b2: u8, b3: u8) -> (r: Result<u16, WireError>)
    ensures
        r is Ok <==> b0 == 0 && b1 == 0 && ((b2 as u16) << 8 | (b3 as u16)) >= HEADER_LEN,
        r matches Ok(n) ==> n == ((b2 as u16) << 8 | (b3 as u16)),
        r matches Err(e) ==> e == (if b0 != 0 || b1 != 0 {
            WireError::UnknownVersion
        } else {
            WireError::LengthOutOfBounds
        }),
{
    if b0 != 0 || b1 != 0 {
        return Err(WireError::UnknownVersion);
    }
    let n: u16 = ((b2 as u16) << 8u16) | (b3 as u16);
    if n < 12 {
        return Err(WireError::LengthOutOfBounds);
    }
    Ok(n)
}

/// The four prefix octets that announce a packet of length `len` on the
/// stream transport.
pub fn build_frame_prefix(len: u16) -> (r: [u8; 4])
    requires
        len >= HEADER_LEN,
    ensures
        r@ == seq![0u8, 0u8, (len >> 8) as u8, (len & 0xFF) as u8],
{
    [0u8, 0u8, (len >> 8u16) as u8, (len & 0xFF) as u8]
}

} // verus!
