//! Frame codec: the 9-octet frame header and the typed payloads of RFC 7540,
//! parsed from and serialized to byte buffers.
//!
//! All multi-byte integers are network byte order. The codec is
//! partial-read tolerant: parsing reports `TooShort` without consuming when
//! the buffer does not yet hold a whole header or payload.

use vstd::prelude::*;

use crate::types::DecodeError;
use crate::types::ErrorType;
use crate::types::FrameType;
use crate::types::SettingsParameter;
use crate::types::StreamId;
use crate::types::U31_MAX;

verus! {

// --- big-endian byte strings -----------------------------------------------

/// The two big-endian digits of a 16-bit value.
pub open spec fn spec_be16(v: u16) -> Seq<u8> {
    seq![(v / 0x100) as u8, (v % 0x100) as u8]
}

/// The three big-endian digits of a value below `2^24`.
pub open spec fn spec_be24(v: u32) -> Seq<u8> {
    seq![(v / 0x10000) as u8, ((v / 0x100) % 0x100) as u8, (v % 0x100) as u8]
}

/// The four big-endian digits of a 32-bit value.
pub open spec fn spec_be32(v: u32) -> Seq<u8> {
    seq![
        (v / 0x1000000) as u8,
        ((v / 0x10000) % 0x100) as u8,
        ((v / 0x100) % 0x100) as u8,
        (v % 0x100) as u8,
    ]
}

/// The value of two big-endian digits.
pub open spec fn spec_u16_be(b0: u8, b1: u8) -> u16 {
    (b0 * 0x100 + b1) as u16
}

/// The value of three big-endian digits.
pub open spec fn spec_u24_be(b0: u8, b1: u8, b2: u8) -> u32 {
    (b0 * 0x10000 + b1 * 0x100 + b2) as u32
}

/// The value of four big-endian digits.
pub open spec fn spec_u32_be(b0: u8, b1: u8, b2: u8, b3: u8) -> u32 {
    (b0 * 0x1000000 + b1 * 0x10000 + b2 * 0x100 + b3) as u32
}

/// The value of four big-endian digits with the top (reserved) bit ignored,
/// as the wire format asks for stream identifiers and window increments.
pub open spec fn spec_u31_be(b0: u8, b1: u8, b2: u8, b3: u8) -> u32 {
    ((b0 % 0x80) * 0x1000000 + b1 * 0x10000 + b2 * 0x100 + b3) as u32
}

/// Digit recomposition: reading back the digits of `spec_be32` gives the
/// value, and the reserved-bit-ignoring read agrees below `2^31`.
pub proof fn lemma_be32_round_trip(v: u32)
    ensures
        spec_u32_be(spec_be32(v)[0], spec_be32(v)[1], spec_be32(v)[2], spec_be32(v)[3]) == v,
        v <= U31_MAX ==> spec_u31_be(
            spec_be32(v)[0],
            spec_be32(v)[1],
            spec_be32(v)[2],
            spec_be32(v)[3],
        ) == v,
{
    let d3 = v as int / 0x1000000;
    let d2 = (v as int / 0x10000) % 0x100;
    let d1 = (v as int / 0x100) % 0x100;
    let d0 = v as int % 0x100;
    assert((v as int / 0x100) / 0x100 == v as int / 0x10000) by (nonlinear_arith);
    assert((v as int / 0x10000) / 0x100 == v as int / 0x1000000) by (nonlinear_arith);
    assert(v as int == d3 * 0x1000000 + d2 * 0x10000 + d1 * 0x100 + d0);
    assert(v as int <= 0x7fffffff ==> v as int / 0x1000000 < 0x80) by (nonlinear_arith);
}

/// Digit recomposition for the three-octet length field.
pub proof fn lemma_be24_round_trip(v: u32)
    requires
        v < 0x1000000,
    ensures
        spec_u24_be(spec_be24(v)[0], spec_be24(v)[1], spec_be24(v)[2]) == v,
{
    let d2 = v as int / 0x10000;
    let d1 = (v as int / 0x100) % 0x100;
    let d0 = v as int % 0x100;
    assert((v as int / 0x100) / 0x100 == v as int / 0x10000) by (nonlinear_arith);
    assert(v as int == d2 * 0x10000 + d1 * 0x100 + d0);
}

/// Digit recomposition for the two-octet settings identifier.
pub proof fn lemma_be16_round_trip(v: u16)
    ensures
        spec_u16_be(spec_be16(v)[0], spec_be16(v)[1]) == v,
{
}

/// Appends the two big-endian digits of `v`.
pub fn write_be16(buffer: &mut Vec<u8>, v: u16)
    ensures
        final(buffer)@ == old(buffer)@ + spec_be16(v),
{
    buffer.push((v / 0x100) as u8);
    buffer.push((v % 0x100) as u8);
    assert(buffer@ =~= old(buffer)@ + spec_be16(v));
}

/// Appends the three big-endian digits of a value below `2^24`.
pub fn write_be24(buffer: &mut Vec<u8>, v: u32)
    requires
        v < 0x1000000,
    ensures
        final(buffer)@ == old(buffer)@ + spec_be24(v),
{
    buffer.push((v / 0x10000) as u8);
    buffer.push((v / 0x100 % 0x100) as u8);
    buffer.push((v % 0x100) as u8);
    assert(buffer@ =~= old(buffer)@ + spec_be24(v));
}

/// Appends the four big-endian digits of `v`.
pub fn write_be32(buffer: &mut Vec<u8>, v: u32)
    ensures
        final(buffer)@ == old(buffer)@ + spec_be32(v),
{
    buffer.push((v / 0x1000000) as u8);
    buffer.push((v / 0x10000 % 0x100) as u8);
    buffer.push((v / 0x100 % 0x100) as u8);
    buffer.push((v % 0x100) as u8);
    assert(buffer@ =~= old(buffer)@ + spec_be32(v));
}

/// Reads four big-endian digits at `pos`, ignoring the reserved top bit.
pub fn read_u31_be(buffer: &Vec<u8>, pos: usize) -> (r: u32)
    requires
        pos + 4 <= buffer.len(),
    ensures
        r == spec_u31_be(
            buffer@[pos as int],
            buffer@[pos as int + 1],
            buffer@[pos as int + 2],
            buffer@[pos as int + 3],
        ),
        r <= U31_MAX,
{
    let b0 = buffer[pos] % 0x80;
    let b1 = buffer[pos + 1];
    let b2 = buffer[pos + 2];
    let b3 = buffer[pos + 3];
    b0 as u32 * 0x1000000 + b1 as u32 * 0x10000 + b2 as u32 * 0x100 + b3 as u32
}

/// Reads four big-endian digits at `pos`.
pub fn read_u32_be(buffer: &Vec<u8>, pos: usize) -> (r: u32)
    requires
        pos + 4 <= buffer.len(),
    ensures
        r == spec_u32_be(
            buffer@[pos as int],
            buffer@[pos as int + 1],
            buffer@[pos as int + 2],
            buffer@[pos as int + 3],
        ),
{
    let b0 = buffer[pos];
    let b1 = buffer[pos + 1];
    let b2 = buffer[pos + 2];
    let b3 = buffer[pos + 3];
    b0 as u32 * 0x1000000 + b1 as u32 * 0x10000 + b2 as u32 * 0x100 + b3 as u32
}

/// Copies `buffer[from..to]` into a fresh vector.
pub fn subvec(buffer: &Vec<u8>, from: usize, to: usize) -> (r: Vec<u8>)
    requires
        from <= to <= buffer.len(),
    ensures
        r@ == buffer@.subrange(from as int, to as int),
{
    let mut out: Vec<u8> = Vec::new();
    let mut i = from;
    while i < to
        invariant
            from <= i <= to <= buffer.len(),
            out@ == buffer@.subrange(from as int, i as int),
        decreases to - i,
    {
        out.push(buffer[i]);
        assert(out@ =~= buffer@.subrange(from as int, i as int + 1));
        i = i + 1;
    }
    out
}

// --- flag bits --------------------------------------------------------------

/// END_STREAM on DATA and HEADERS.
pub const FLAG_END_STREAM: u8 = 0x1;

/// ACK on SETTINGS and PING.
pub const FLAG_ACK: u8 = 0x1;

/// END_HEADERS on HEADERS, PUSH_PROMISE and CONTINUATION.
pub const FLAG_END_HEADERS: u8 = 0x4;

/// PADDED on DATA, HEADERS and PUSH_PROMISE.
pub const FLAG_PADDED: u8 = 0x8;

/// PRIORITY on HEADERS.
pub const FLAG_PRIORITY: u8 = 0x20;

/// Whether flag `bit` is set in `flags`.
pub open spec fn spec_has_flag(flags: u8, bit: u8) -> bool {
    flags & bit == bit
}

/// Whether flag `bit` is set in `flags`.
pub fn has_flag(flags: u8, bit: u8) -> (r: bool)
    ensures
        r == spec_has_flag(flags, bit),
{
    flags & bit == bit
}

// --- the frame header -------------------------------------------------------

/// The fixed 9-octet frame header: 24-bit payload length, type octet, flag
/// octet, and 31-bit stream identifier (the reserved top bit is ignored on
/// receive and written as zero on send).
#[derive(Debug, Clone, Copy, PartialEq, Eq, Structural)]
pub struct FrameHeader {
    pub length: u32,
    pub ty: FrameType,
    pub flags: u8,
    pub stream_id: StreamId,
}

impl FrameHeader {
    /// The number of octets a frame header occupies.
    pub const BYTES: usize = 9;

    /// The fields fit their wire widths.
    pub open spec fn wf(self) -> bool {
        self.length < 0x1000000 && self.stream_id <= U31_MAX
    }

    /// The nine wire octets of this header.
    pub open spec fn spec_encode(self) -> Seq<u8> {
        spec_be24(self.length) + seq![self.ty.spec_to_u8(), self.flags] + spec_be32(self.stream_id)
    }

    /// The header the first nine octets of `b` hold: `TooShort` when fewer
    /// than nine are buffered, `UnknownType` when the type octet names no
    /// known frame type.
    pub open spec fn spec_parse(b: Seq<u8>) -> Result<FrameHeader, DecodeError> {
        if b.len() < 9 {
            Err(DecodeError::TooShort)
        } else {
            match FrameType::spec_from_u8(b[3]) {
                Option::None => Err(DecodeError::UnknownType),
                Option::Some(ty) => Ok(
                    FrameHeader {
                        length: spec_u24_be(b[0], b[1], b[2]),
                        ty,
                        flags: b[4],
                        stream_id: spec_u31_be(b[5], b[6], b[7], b[8]),
                    },
                ),
            }
        }
    }

    /// Serializes this header onto the end of `buffer`, reserved bit zero.
    pub fn write_into(&self, buffer: &mut Vec<u8>)
        requires
            self.wf(),
        ensures
            final(buffer)@ == old(buffer)@ + self.spec_encode(),
    {
        write_be24(buffer, self.length);
        buffer.push(self.ty.to_u8());
        buffer.push(self.flags);
        write_be32(buffer, self.stream_id);
        assert(buffer@ =~= old(buffer)@ + self.spec_encode());
    }

    /// Parses a header from `buffer[pos..]` without consuming it.
    pub fn try_from(buffer: &Vec<u8>, pos: usize) -> (r: Result<FrameHeader, DecodeError>)
        requires
            pos <= buffer.len(),
        ensures
            r == FrameHeader::spec_parse(buffer@.skip(pos as int)),
    {
        let ghost b = buffer@.skip(pos as int);
        if buffer.len() - pos < 9 {
            return Err(DecodeError::TooShort);
        }
        let length = buffer[pos] as u32 * 0x10000 + buffer[pos + 1] as u32 * 0x100 + buffer[pos
            + 2] as u32;
        let ty = match FrameType::from_u8(buffer[pos + 3]) {
            Option::Some(ty) => ty,
            Option::None => {
                return Err(DecodeError::UnknownType);
            },
        };
        let flags = buffer[pos + 4];
        let stream_id = read_u31_be(buffer, pos + 5);
        assert(b[0] == buffer@[pos as int] && b[1] == buffer@[pos as int + 1] && b[2] == buffer@[
            pos as int + 2] && b[3] == buffer@[pos as int + 3] && b[4] == buffer@[pos as int + 4]
            && b[5] == buffer@[pos as int + 5] && b[6] == buffer@[pos as int + 6] && b[7]
            == buffer@[pos as int + 7] && b[8] == buffer@[pos as int + 8]);
        Ok(FrameHeader { length, ty, flags, stream_id })
    }
}

/// Parsing inverts serialization for any well-formed header, whatever bytes
/// follow it in the buffer.
pub proof fn lemma_header_round_trip(h: FrameHeader, rest: Seq<u8>)
    requires
        h.wf(),
    ensures
        FrameHeader::spec_parse(h.spec_encode() + rest) == Ok::<FrameHeader, DecodeError>(h),
{
    let b = h.spec_encode() + rest;
    lemma_be24_round_trip(h.length);
    lemma_be32_round_trip(h.stream_id);
    crate::types::lemma_frame_type_u8_round_trip(h.ty);
    assert(b[0] == spec_be24(h.length)[0]);
    assert(b[1] == spec_be24(h.length)[1]);
    assert(b[2] == spec_be24(h.length)[2]);
    assert(b[3] == h.ty.spec_to_u8());
    assert(b[4] == h.flags);
    assert(b[5] == spec_be32(h.stream_id)[0]);
    assert(b[6] == spec_be32(h.stream_id)[1]);
    assert(b[7] == spec_be32(h.stream_id)[2]);
    assert(b[8] == spec_be32(h.stream_id)[3]);
}

// --- frame payloads ---------------------------------------------------------

/// Where a frame error strikes: the whole connection (answered with GOAWAY)
/// or a single stream (answered with RST_STREAM).
#[derive(Debug, Clone, Copy, PartialEq, Eq, Structural)]
pub enum FrameError {
    Connection(ErrorType),
    Stream(ErrorType),
}

/// The mathematical model of a frame payload: the typed fields with byte
/// sequences in place of byte vectors.
pub enum PayloadView {
    Data { data: Seq<u8> },
    Headers {
        dependency: Option<StreamId>,
        exclusive_dependency: Option<bool>,
        weight: Option<u8>,
        fragment: Seq<u8>,
    },
    Priority { dependency: StreamId, exclusive_dependency: bool, weight: u8 },
    ResetStream { error: ErrorType },
    Settings { params: Seq<(SettingsParameter, u32)> },
    PushPromise { promised_stream: StreamId, fragment: Seq<u8> },
    Ping { data: Seq<u8> },
    GoAway { last_stream: StreamId, error: ErrorType, debug: Seq<u8> },
    WindowUpdate { increment: u32 },
    Continuation { fragment: Seq<u8> },
}

impl PayloadView {
    /// The frame type that carries this payload.
    pub open spec fn frame_type(self) -> FrameType {
        match self {
            PayloadView::Data { .. } => FrameType::Data,
            PayloadView::Headers { .. } => FrameType::Headers,
            PayloadView::Priority { .. } => FrameType::Priority,
            PayloadView::ResetStream { .. } => FrameType::ResetStream,
            PayloadView::Settings { .. } => FrameType::Settings,
            PayloadView::PushPromise { .. } => FrameType::PushPromise,
            PayloadView::Ping { .. } => FrameType::Ping,
            PayloadView::GoAway { .. } => FrameType::GoAway,
            PayloadView::WindowUpdate { .. } => FrameType::WindowUpdate,
            PayloadView::Continuation { .. } => FrameType::Continuation,
        }
    }

    /// The fields fit their wire widths: identifiers are 31-bit, the
    /// priority block fields stand or fall together, PING carries exactly
    /// eight octets, and a window increment is never zero.
    pub open spec fn wf(self) -> bool {
        match self {
            PayloadView::Headers { dependency, exclusive_dependency, weight, .. } => {
                &&& (dependency is Some <==> exclusive_dependency is Some)
                &&& (dependency is Some <==> weight is Some)
                &&& (dependency matches Some(d) ==> d <= U31_MAX)
            },
            PayloadView::Priority { dependency, .. } => dependency <= U31_MAX,
            PayloadView::PushPromise { promised_stream, .. } => 0 < promised_stream <= U31_MAX,
            PayloadView::Ping { data } => data.len() == 8,
            PayloadView::GoAway { last_stream, .. } => last_stream <= U31_MAX,
            PayloadView::WindowUpdate { increment } => 0 < increment <= U31_MAX,
            _ => true,
        }
    }
}

/// A typed frame payload, the variant parallel to the frame type.
#[derive(Debug, Clone, PartialEq, Eq)]
pub enum FramePayload {
    /// https://httpwg.org/specs/rfc7540.html#DATA
    Data { data: Vec<u8> },
    /// https://httpwg.org/specs/rfc7540.html#HEADERS
    Headers {
        dependency: Option<StreamId>,
        exclusive_dependency: Option<bool>,
        weight: Option<u8>,
        fragment: Vec<u8>,
    },
    /// https://httpwg.org/specs/rfc7540.html#PRIORITY
    Priority { dependency: StreamId, exclusive_dependency: bool, weight: u8 },
    /// https://httpwg.org/specs/rfc7540.html#RST_STREAM
    ResetStream { error: ErrorType },
    /// https://httpwg.org/specs/rfc7540.html#SETTINGS
    Settings { params: Vec<(SettingsParameter, u32)> },
    /// https://httpwg.org/specs/rfc7540.html#PUSH_PROMISE
    PushPromise { promised_stream: StreamId, fragment: Vec<u8> },
    /// https://httpwg.org/specs/rfc7540.html#PING
    Ping { data: Vec<u8> },
    /// https://httpwg.org/specs/rfc7540.html#GOAWAY
    GoAway { last_stream: StreamId, error: ErrorType, debug: Vec<u8> },
    /// https://httpwg.org/specs/rfc7540.html#WINDOW_UPDATE
    WindowUpdate { increment: u32 },
    /// https://httpwg.org/specs/rfc7540.html#CONTINUATION
    Continuation { fragment: Vec<u8> },
}

impl View for FramePayload {
    type V = PayloadView;

    open spec fn view(&self) -> PayloadView {
        match self {
            FramePayload::Data { data } => PayloadView::Data { data: data@ },
            FramePayload::Headers { dependency, exclusive_dependency, weight, fragment } => {
                PayloadView::Headers {
                    dependency: *dependency,
                    exclusive_dependency: *exclusive_dependency,
                    weight: *weight,
                    fragment: fragment@,
                }
            },
            FramePayload::Priority { dependency, exclusive_dependency, weight } => {
                PayloadView::Priority {
                    dependency: *dependency,
                    exclusive_dependency: *exclusive_dependency,
                    weight: *weight,
                }
            },
            FramePayload::ResetStream { error } => PayloadView::ResetStream { error: *error },
            FramePayload::Settings { params } => PayloadView::Settings { params: params@ },
            FramePayload::PushPromise { promised_stream, fragment } => {
                PayloadView::PushPromise {
                    promised_stream: *promised_stream,
                    fragment: fragment@,
                }
            },
            FramePayload::Ping { data } => PayloadView::Ping { data: data@ },
            FramePayload::GoAway { last_stream, error, debug } => {
                PayloadView::GoAway { last_stream: *last_stream, error: *error, debug: debug@ }
            },
            FramePayload::WindowUpdate { increment } => {
                PayloadView::WindowUpdate { increment: *increment }
            },
            FramePayload::Continuation { fragment } => {
                PayloadView::Continuation { fragment: fragment@ }
            },
        }
    }
}

/// A parse result with the payload replaced by its model, so that the
/// executable parser can be stated against the mathematical one.
pub open spec fn view_result(r: Result<FramePayload, FrameError>) -> Result<
    PayloadView,
    FrameError,
> {
    match r {
        Ok(p) => Ok(p@),
        Err(e) => Err(e),
    }
}

/// Strips the padding that the PADDED flag announces: one pad-length octet
/// up front, that many octets of padding at the back. A pad length that
/// reaches or exceeds the payload is a connection error of type
/// PROTOCOL_ERROR.
pub open spec fn spec_strip_padding(b: Seq<u8>, padded: bool) -> Result<Seq<u8>, FrameError> {
    if !padded {
        Ok(b)
    } else if b.len() < 1 {
        Err(FrameError::Connection(ErrorType::FrameSizeError))
    } else if b[0] as int >= b.len() {
        Err(FrameError::Connection(ErrorType::ProtocolError))
    } else {
        Ok(b.subrange(1, b.len() - b[0]))
    }
}

/// The settings pairs a SETTINGS payload holds, unknown identifiers ignored.
pub open spec fn spec_parse_settings_params(b: Seq<u8>) -> Seq<(SettingsParameter, u32)>
    decreases b.len(),
{
    if b.len() < 6 {
        Seq::empty()
    } else {
        let rest = spec_parse_settings_params(b.skip(6));
        match SettingsParameter::spec_from_u16(spec_u16_be(b[0], b[1])) {
            Option::Some(p) => seq![(p, spec_u32_be(b[2], b[3], b[4], b[5]))] + rest,
            Option::None => rest,
        }
    }
}

/// The payload the bytes `b` hold for a frame with header `h`, or the error
/// the frame raises. `b` is exactly the `h.length` payload octets.
pub open spec fn spec_parse_payload(b: Seq<u8>, h: FrameHeader) -> Result<
    PayloadView,
    FrameError,
> {
    match h.ty {
        FrameType::Data => {
            match spec_strip_padding(b, spec_has_flag(h.flags, FLAG_PADDED)) {
                Ok(d) => Ok(PayloadView::Data { data: d }),
                Err(e) => Err(e),
            }
        },
        FrameType::Headers => {
            match spec_strip_padding(b, spec_has_flag(h.flags, FLAG_PADDED)) {
                Ok(d) => {
                    if spec_has_flag(h.flags, FLAG_PRIORITY) {
                        if d.len() < 5 {
                            Err(FrameError::Connection(ErrorType::FrameSizeError))
                        } else {
                            Ok(
                                PayloadView::Headers {
                                    dependency: Some(spec_u31_be(d[0], d[1], d[2], d[3])),
                                    exclusive_dependency: Some(d[0] >= 0x80),
                                    weight: Some(d[4]),
                                    fragment: d.skip(5),
                                },
                            )
                        }
                    } else {
                        Ok(
                            PayloadView::Headers {
                                dependency: None,
                                exclusive_dependency: None,
                                weight: None,
                                fragment: d,
                            },
                        )
                    }
                },
                Err(e) => Err(e),
            }
        },
        FrameType::Priority => {
            if b.len() != 5 {
                Err(FrameError::Stream(ErrorType::FrameSizeError))
            } else {
                Ok(
                    PayloadView::Priority {
                        dependency: spec_u31_be(b[0], b[1], b[2], b[3]),
                        exclusive_dependency: b[0] >= 0x80,
                        weight: b[4],
                    },
                )
            }
        },
        FrameType::ResetStream => {
            if b.len() != 4 {
                Err(FrameError::Connection(ErrorType::FrameSizeError))
            } else {
                Ok(
                    PayloadView::ResetStream {
                        error: ErrorType::spec_from_u32(spec_u32_be(b[0], b[1], b[2], b[3])),
                    },
                )
            }
        },
        FrameType::Settings => {
            if spec_has_flag(h.flags, FLAG_ACK) && b.len() != 0 {
                Err(FrameError::Connection(ErrorType::FrameSizeError))
            } else if b.len() % 6 != 0 {
                Err(FrameError::Connection(ErrorType::FrameSizeError))
            } else {
                Ok(PayloadView::Settings { params: spec_parse_settings_params(b) })
            }
        },
        FrameType::PushPromise => {
            match spec_strip_padding(b, spec_has_flag(h.flags, FLAG_PADDED)) {
                Ok(d) => {
                    if d.len() < 4 {
                        Err(FrameError::Connection(ErrorType::FrameSizeError))
                    } else if spec_u31_be(d[0], d[1], d[2], d[3]) == 0 {
                        Err(FrameError::Connection(ErrorType::ProtocolError))
                    } else {
                        Ok(
                            PayloadView::PushPromise {
                                promised_stream: spec_u31_be(d[0], d[1], d[2], d[3]),
                                fragment: d.skip(4),
                            },
                        )
                    }
                },
                Err(e) => Err(e),
            }
        },
        FrameType::Ping => {
            if b.len() != 8 {
                Err(FrameError::Connection(ErrorType::FrameSizeError))
            } else {
                Ok(PayloadView::Ping { data: b })
            }
        },
        FrameType::GoAway => {
            if b.len() < 8 {
                Err(FrameError::Connection(ErrorType::FrameSizeError))
            } else {
                Ok(
                    PayloadView::GoAway {
                        last_stream: spec_u31_be(b[0], b[1], b[2], b[3]),
                        error: ErrorType::spec_from_u32(spec_u32_be(b[4], b[5], b[6], b[7])),
                        debug: b.skip(8),
                    },
                )
            }
        },
        FrameType::WindowUpdate => {
            if b.len() != 4 {
                Err(FrameError::Connection(ErrorType::FrameSizeError))
            } else if spec_u31_be(b[0], b[1], b[2], b[3]) == 0 {
                if h.stream_id == 0 {
                    Err(FrameError::Connection(ErrorType::ProtocolError))
                } else {
                    Err(FrameError::Stream(ErrorType::ProtocolError))
                }
            } else {
                Ok(PayloadView::WindowUpdate { increment: spec_u31_be(b[0], b[1], b[2], b[3]) })
            }
        },
        FrameType::Continuation => Ok(PayloadView::Continuation { fragment: b }),
    }
}

impl FramePayload {
    /// The frame type that carries this payload.
    pub fn frame_type(&self) -> (r: FrameType)
        ensures
            r == self@.frame_type(),
    {
        match self {
            FramePayload::Data { .. } => FrameType::Data,
            FramePayload::Headers { .. } => FrameType::Headers,
            FramePayload::Priority { .. } => FrameType::Priority,
            FramePayload::ResetStream { .. } => FrameType::ResetStream,
            FramePayload::Settings { .. } => FrameType::Settings,
            FramePayload::PushPromise { .. } => FrameType::PushPromise,
            FramePayload::Ping { .. } => FrameType::Ping,
            FramePayload::GoAway { .. } => FrameType::GoAway,
            FramePayload::WindowUpdate { .. } => FrameType::WindowUpdate,
            FramePayload::Continuation { .. } => FrameType::Continuation,
        }
    }

    /// Parses the payload octets of the frame with header `header`.
    /// `payload` must hold exactly the `header.length` payload octets; the
    /// engine holds a partially received frame (the pending header, the
    /// buffered bytes) until they have all arrived, losing none.
    pub fn try_from(payload: &Vec<u8>, header: &FrameHeader) -> (r: Result<
        FramePayload,
        FrameError,
    >)
        requires
            payload.len() == header.length,
        ensures
            view_result(r) == spec_parse_payload(payload@, *header),
    {
        match header.ty {
            FrameType::Data => Self::parse_data(payload, header),
            FrameType::Headers => Self::parse_headers(payload, header),
            FrameType::Priority => Self::parse_priority(payload, header),
            FrameType::ResetStream => Self::parse_reset_stream(payload, header),
            FrameType::Settings => Self::parse_settings(payload, header),
            FrameType::PushPromise => Self::parse_push_promise(payload, header),
            FrameType::Ping => Self::parse_ping(payload, header),
            FrameType::GoAway => Self::parse_goaway(payload, header),
            FrameType::WindowUpdate => Self::parse_window_update(payload, header),
            FrameType::Continuation => Self::parse_continuation(payload, header),
        }
    }

    fn parse_data(payload: &Vec<u8>, header: &FrameHeader) -> (r: Result<FramePayload, FrameError>)
        requires
            header.ty == FrameType::Data,
        ensures
            view_result(r) == spec_parse_payload(payload@, *header),
    {
        let padded = has_flag(header.flags, FLAG_PADDED);
        match Self::strip_padding(payload, padded) {
            Ok(data) => Ok(FramePayload::Data { data }),
            Err(e) => Err(e),
        }
    }

    fn parse_headers(payload: &Vec<u8>, header: &FrameHeader) -> (r: Result<
        FramePayload,
        FrameError,
    >)
        requires
            header.ty == FrameType::Headers,
        ensures
            view_result(r) == spec_parse_payload(payload@, *header),
    {
        let padded = has_flag(header.flags, FLAG_PADDED);
        match Self::strip_padding(payload, padded) {
            Ok(d) => {
                if has_flag(header.flags, FLAG_PRIORITY) {
                    if d.len() < 5 {
                        Err(FrameError::Connection(ErrorType::FrameSizeError))
                    } else {
                        let dependency = read_u31_be(&d, 0);
                        let exclusive = d[0] >= 0x80;
                        let weight = d[4];
                        let fragment = subvec(&d, 5, d.len());
                        assert(fragment@ =~= d@.skip(5));
                        Ok(
                            FramePayload::Headers {
                                dependency: Some(dependency),
                                exclusive_dependency: Some(exclusive),
                                weight: Some(weight),
                                fragment,
                            },
                        )
                    }
                } else {
                    Ok(
                        FramePayload::Headers {
                            dependency: None,
                            exclusive_dependency: None,
                            weight: None,
                            fragment: d,
                        },
                    )
                }
            },
            Err(e) => Err(e),
        }
    }

    fn parse_priority(payload: &Vec<u8>, header: &FrameHeader) -> (r: Result<
        FramePayload,
        FrameError,
    >)
        requires
            header.ty == FrameType::Priority,
        ensures
            view_result(r) == spec_parse_payload(payload@, *header),
    {
        if payload.len() != 5 {
            Err(FrameError::Stream(ErrorType::FrameSizeError))
        } else {
            let dependency = read_u31_be(payload, 0);
            let exclusive = payload[0] >= 0x80;
            let weight = payload[4];
            Ok(FramePayload::Priority { dependency, exclusive_dependency: exclusive, weight })
        }
    }

    fn parse_reset_stream(payload: &Vec<u8>, header: &FrameHeader) -> (r: Result<
        FramePayload,
        FrameError,
    >)
        requires
            header.ty == FrameType::ResetStream,
        ensures
            view_result(r) == spec_parse_payload(payload@, *header),
    {
        if payload.len() != 4 {
            Err(FrameError::Connection(ErrorType::FrameSizeError))
        } else {
            let error = ErrorType::from_u32(read_u32_be(payload, 0));
            Ok(FramePayload::ResetStream { error })
        }
    }

    fn parse_settings(payload: &Vec<u8>, header: &FrameHeader) -> (r: Result<
        FramePayload,
        FrameError,
    >)
        requires
            header.ty == FrameType::Settings,
        ensures
            view_result(r) == spec_parse_payload(payload@, *header),
    {
        if has_flag(header.flags, FLAG_ACK) && payload.len() != 0 {
            Err(FrameError::Connection(ErrorType::FrameSizeError))
        } else if payload.len() % 6 != 0 {
            Err(FrameError::Connection(ErrorType::FrameSizeError))
        } else {
            let params = Self::parse_settings_params(payload);
            Ok(FramePayload::Settings { params })
        }
    }

    fn parse_push_promise(payload: &Vec<u8>, header: &FrameHeader) -> (r: Result<
        FramePayload,
        FrameError,
    >)
        requires
            header.ty == FrameType::PushPromise,
        ensures
            view_result(r) == spec_parse_payload(payload@, *header),
    {
        let padded = has_flag(header.flags, FLAG_PADDED);
        match Self::strip_padding(payload, padded) {
            Ok(d) => {
                if d.len() < 4 {
                    Err(FrameError::Connection(ErrorType::FrameSizeError))
                } else {
                    let promised_stream = read_u31_be(&d, 0);
                    if promised_stream == 0 {
                        Err(FrameError::Connection(ErrorType::ProtocolError))
                    } else {
                        let fragment = subvec(&d, 4, d.len());
                        assert(fragment@ =~= d@.skip(4));
                        Ok(FramePayload::PushPromise { promised_stream, fragment })
                    }
                }
            },
            Err(e) => Err(e),
        }
    }

    fn parse_ping(payload: &Vec<u8>, header: &FrameHeader) -> (r: Result<FramePayload, FrameError>)
        requires
            header.ty == FrameType::Ping,
        ensures
            view_result(r) == spec_parse_payload(payload@, *header),
    {
        if payload.len() != 8 {
            Err(FrameError::Connection(ErrorType::FrameSizeError))
        } else {
            let data = subvec(payload, 0, payload.len());
            assert(data@ =~= payload@);
            Ok(FramePayload::Ping { data })
        }
    }

    fn parse_goaway(payload: &Vec<u8>, header: &FrameHeader) -> (r: Result<
        FramePayload,
        FrameError,
    >)
        requires
            header.ty == FrameType::GoAway,
        ensures
            view_result(r) == spec_parse_payload(payload@, *header),
    {
        if payload.len() < 8 {
            Err(FrameError::Connection(ErrorType::FrameSizeError))
        } else {
            let last_stream = read_u31_be(payload, 0);
            let error = ErrorType::from_u32(read_u32_be(payload, 4));
            let debug = subvec(payload, 8, payload.len());
            assert(debug@ =~= payload@.skip(8));
            Ok(FramePayload::GoAway { last_stream, error, debug })
        }
    }

    fn parse_window_update(payload: &Vec<u8>, header: &FrameHeader) -> (r: Result<
        FramePayload,
        FrameError,
    >)
        requires
            header.ty == FrameType::WindowUpdate,
        ensures
            view_result(r) == spec_parse_payload(payload@, *header),
    {
        if payload.len() != 4 {
            Err(FrameError::Connection(ErrorType::FrameSizeError))
        } else {
            let increment = read_u31_be(payload, 0);
            if increment == 0 {
                if header.stream_id == 0 {
                    Err(FrameError::Connection(ErrorType::ProtocolError))
                } else {
                    Err(FrameError::Stream(ErrorType::ProtocolError))
                }
            } else {
                Ok(FramePayload::WindowUpdate { increment })
            }
        }
    }

    fn parse_continuation(payload: &Vec<u8>, header: &FrameHeader) -> (r: Result<
        FramePayload,
        FrameError,
    >)
        requires
            header.ty == FrameType::Continuation,
        ensures
            view_result(r) == spec_parse_payload(payload@, *header),
    {
        let fragment = subvec(payload, 0, payload.len());
        assert(fragment@ =~= payload@);
        Ok(FramePayload::Continuation { fragment })
    }

    /// Removes the padding that the PADDED flag announces, handing back the
    /// octets that remain.
    fn strip_padding(payload: &Vec<u8>, padded: bool) -> (r: Result<Vec<u8>, FrameError>)
        ensures
            ({
                let spec = spec_strip_padding(payload@, padded);
                match r {
                    Ok(d) => spec == Ok::<Seq<u8>, FrameError>(d@),
                    Err(e) => spec == Err::<Seq<u8>, FrameError>(e),
                }
            }),
    {
        if !padded {
            let d = subvec(payload, 0, payload.len());
            assert(d@ =~= payload@);
            Ok(d)
        } else if payload.len() < 1 {
            Err(FrameError::Connection(ErrorType::FrameSizeError))
        } else {
            let pad = payload[0] as usize;
            if pad >= payload.len() {
                Err(FrameError::Connection(ErrorType::ProtocolError))
            } else {
                Ok(subvec(payload, 1, payload.len() - pad))
            }
        }
    }

    /// Collects the known settings pairs of a SETTINGS payload.
    fn parse_settings_params(payload: &Vec<u8>) -> (r: Vec<(SettingsParameter, u32)>)
        ensures
            r@ == spec_parse_settings_params(payload@),
    {
        let mut params: Vec<(SettingsParameter, u32)> = Vec::new();
        let mut i: usize = 0;
        assert(payload@.skip(0) =~= payload@);
        while payload.len() - i >= 6
            invariant
                i <= payload.len(),
                spec_parse_settings_params(payload@) == params@ + spec_parse_settings_params(
                    payload@.skip(i as int),
                ),
            decreases payload.len() - i,
        {
            let id = payload[i] as u16 * 0x100 + payload[i + 1] as u16;
            let value = read_u32_be(payload, i + 2);
            let ghost before = params@;
            let ghost tail = payload@.skip(i as int);
            assert(tail.skip(6) =~= payload@.skip(i as int + 6));
            assert(tail[0] == payload@[i as int] && tail[1] == payload@[i as int + 1] && tail[2]
                == payload@[i as int + 2] && tail[3] == payload@[i as int + 3] && tail[4]
                == payload@[i as int + 4] && tail[5] == payload@[i as int + 5]);
            match SettingsParameter::from_u16(id) {
                Option::Some(p) => {
                    params.push((p, value));
                    assert(params@ =~= before + seq![(p, value)]);
                    assert(before + (seq![(p, value)] + spec_parse_settings_params(
                        payload@.skip(i as int + 6),
                    )) =~= params@ + spec_parse_settings_params(payload@.skip(i as int + 6)));
                },
                Option::None => {},
            }
            i = i + 6;
        }
        assert(spec_parse_settings_params(payload@.skip(i as int)) =~= Seq::<
            (SettingsParameter, u32),
        >::empty());
        assert(params@ + Seq::<(SettingsParameter, u32)>::empty() =~= params@);
        params
    }
}

// --- serialization ----------------------------------------------------------

/// Appends all of `data` to `out`.
pub fn append_bytes(out: &mut Vec<u8>, data: &Vec<u8>)
    ensures
        final(out)@ == old(out)@ + data@,
{
    let mut i: usize = 0;
    assert(out@ =~= old(out)@ + data@.subrange(0, 0));
    while i < data.len()
        invariant
            i <= data.len(),
            out@ == old(out)@ + data@.subrange(0, i as int),
        decreases data.len() - i,
    {
        out.push(data[i]);
        assert(out@ =~= old(out)@ + data@.subrange(0, i as int + 1));
        i = i + 1;
    }
    assert(data@.subrange(0, data@.len() as int) =~= data@);
}

/// The stream-dependency word: the dependency with the exclusive bit on top.
pub open spec fn spec_dep_word(dependency: u32, exclusive: bool) -> u32 {
    if exclusive {
        (dependency + 0x80000000) as u32
    } else {
        dependency
    }
}

/// The wire octets of a list of settings pairs, six per pair.
pub open spec fn spec_encode_settings_params(params: Seq<(SettingsParameter, u32)>) -> Seq<u8>
    decreases params.len(),
{
    if params.len() == 0 {
        Seq::empty()
    } else {
        spec_be16(params[0].0.spec_to_u16()) + spec_be32(params[0].1)
            + spec_encode_settings_params(params.skip(1))
    }
}

/// The wire octets of a payload: the inverse of parsing, with no padding
/// and all reserved bits zero.
pub open spec fn spec_encode_payload(p: PayloadView) -> Seq<u8> {
    match p {
        PayloadView::Data { data } => data,
        PayloadView::Headers { dependency, exclusive_dependency, weight, fragment } => {
            match (dependency, exclusive_dependency, weight) {
                (Some(d), Some(e), Some(w)) => spec_be32(spec_dep_word(d, e)) + seq![w] + fragment,
                _ => fragment,
            }
        },
        PayloadView::Priority { dependency, exclusive_dependency, weight } => {
            spec_be32(spec_dep_word(dependency, exclusive_dependency)) + seq![weight]
        },
        PayloadView::ResetStream { error } => spec_be32(error.spec_to_u32()),
        PayloadView::Settings { params } => spec_encode_settings_params(params),
        PayloadView::PushPromise { promised_stream, fragment } => {
            spec_be32(promised_stream) + fragment
        },
        PayloadView::Ping { data } => data,
        PayloadView::GoAway { last_stream, error, debug } => {
            spec_be32(last_stream) + spec_be32(error.spec_to_u32()) + debug
        },
        PayloadView::WindowUpdate { increment } => spec_be32(increment),
        PayloadView::Continuation { fragment } => fragment,
    }
}

impl FramePayload {
    /// Serializes this payload's octets, without the frame header.
    pub fn into_payload(&self) -> (r: Vec<u8>)
        requires
            self@.wf(),
        ensures
            r@ == spec_encode_payload(self@),
    {
        let mut out: Vec<u8> = Vec::new();
        match self {
            FramePayload::Data { data } => {
                append_bytes(&mut out, data);
            },
            FramePayload::Headers { dependency, exclusive_dependency, weight, fragment } => {
                match (dependency, exclusive_dependency, weight) {
                    (Some(d), Some(e), Some(w)) => {
                        let word = if *e {
                            *d + 0x80000000
                        } else {
                            *d
                        };
                        write_be32(&mut out, word);
                        out.push(*w);
                        append_bytes(&mut out, fragment);
                        assert(out@ =~= spec_be32(spec_dep_word(*d, *e)) + seq![*w] + fragment@);
                    },
                    _ => {
                        append_bytes(&mut out, fragment);
                    },
                }
            },
            FramePayload::Priority { dependency, exclusive_dependency, weight } => {
                let word = if *exclusive_dependency {
                    *dependency + 0x80000000
                } else {
                    *dependency
                };
                write_be32(&mut out, word);
                out.push(*weight);
                assert(out@ =~= spec_be32(spec_dep_word(*dependency, *exclusive_dependency))
                    + seq![*weight]);
            },
            FramePayload::ResetStream { error } => {
                write_be32(&mut out, error.to_u32());
            },
            FramePayload::Settings { params } => {
                let mut i: usize = 0;
                assert(params@.skip(0) =~= params@);
                assert(out@ + spec_encode_settings_params(params@) =~= spec_encode_settings_params(
                    params@,
                ));
                while i < params.len()
                    invariant
                        i <= params.len(),
                        out@ + spec_encode_settings_params(params@.skip(i as int))
                            == spec_encode_settings_params(params@),
                    decreases params.len() - i,
                {
                    let ghost tail = params@.skip(i as int);
                    let (key, value) = params[i];
                    write_be16(&mut out, key.to_u16());
                    write_be32(&mut out, value);
                    assert(tail[0] == params@[i as int]);
                    assert(tail.skip(1) =~= params@.skip(i as int + 1));
                    i = i + 1;
                }
                assert(spec_encode_settings_params(params@.skip(params@.len() as int)) =~= Seq::<
                    u8,
                >::empty());
                assert(out@ + Seq::<u8>::empty() =~= out@);
            },
            FramePayload::PushPromise { promised_stream, fragment } => {
                write_be32(&mut out, *promised_stream);
                append_bytes(&mut out, fragment);
            },
            FramePayload::Ping { data } => {
                append_bytes(&mut out, data);
            },
            FramePayload::GoAway { last_stream, error, debug } => {
                write_be32(&mut out, *last_stream);
                write_be32(&mut out, error.to_u32());
                append_bytes(&mut out, debug);
            },
            FramePayload::WindowUpdate { increment } => {
                write_be32(&mut out, *increment);
            },
            FramePayload::Continuation { fragment } => {
                append_bytes(&mut out, fragment);
            },
        }
        out
    }

    /// Serializes the whole frame — header then payload — onto the end of
    /// `buffer`, with the given flag octet and stream identifier.
    pub fn write_into(&self, buffer: &mut Vec<u8>, stream_id: StreamId, flags: u8)
        requires
            self@.wf(),
            spec_encode_payload(self@).len() < 0x1000000,
            stream_id <= U31_MAX,
        ensures
            final(buffer)@ == old(buffer)@ + spec_frame_bytes(self@, flags, stream_id),
    {
        let payload = self.into_payload();
        let header = FrameHeader {
            length: payload.len() as u32,
            ty: self.frame_type(),
            flags,
            stream_id,
        };
        header.write_into(buffer);
        append_bytes(buffer, &payload);
    }
}

// --- the round trip ---------------------------------------------------------

/// The header the serializer writes in front of payload `p`.
pub open spec fn spec_frame_header(p: PayloadView, flags: u8, stream_id: StreamId) -> FrameHeader {
    FrameHeader {
        length: spec_encode_payload(p).len() as u32,
        ty: p.frame_type(),
        flags,
        stream_id,
    }
}

/// The whole wire image of a frame: header octets then payload octets.
pub open spec fn spec_frame_bytes(p: PayloadView, flags: u8, stream_id: StreamId) -> Seq<u8> {
    spec_frame_header(p, flags, stream_id).spec_encode() + spec_encode_payload(p)
}

/// The flag octet agrees with the payload it travels with: the serializer
/// writes no padding, announces a priority block exactly when the payload
/// holds one, and acknowledges settings only with an empty list.
pub open spec fn spec_flags_consistent(p: PayloadView, flags: u8) -> bool {
    match p {
        PayloadView::Data { .. } => !spec_has_flag(flags, FLAG_PADDED),
        PayloadView::Headers { dependency, .. } => {
            &&& !spec_has_flag(flags, FLAG_PADDED)
            &&& (spec_has_flag(flags, FLAG_PRIORITY) <==> dependency is Some)
        },
        PayloadView::PushPromise { .. } => !spec_has_flag(flags, FLAG_PADDED),
        PayloadView::Settings { params } => spec_has_flag(flags, FLAG_ACK) ==> params.len() == 0,
        _ => true,
    }
}

/// The dependency word keeps the dependency in its low 31 bits and the
/// exclusive marker in the top bit.
proof fn lemma_dep_word(dependency: u32, exclusive: bool)
    requires
        dependency <= U31_MAX,
    ensures
        ({
            let b = spec_be32(spec_dep_word(dependency, exclusive));
            &&& spec_u31_be(b[0], b[1], b[2], b[3]) == dependency
            &&& (b[0] >= 0x80 <==> exclusive)
        }),
{
    let w = spec_dep_word(dependency, exclusive);
    if exclusive {
        let v = dependency as int;
        assert(w as int == v + 0x80000000);
        assert((v + 0x80000000) / 0x1000000 == v / 0x1000000 + 0x80) by (nonlinear_arith);
        assert((v + 0x80000000) / 0x10000 == v / 0x10000 + 0x8000) by (nonlinear_arith);
        assert((v + 0x80000000) / 0x100 == v / 0x100 + 0x800000) by (nonlinear_arith);
        assert((v + 0x80000000) % 0x100 == v % 0x100) by (nonlinear_arith);
        assert((v / 0x10000 + 0x8000) % 0x100 == (v / 0x10000) % 0x100) by (nonlinear_arith);
        assert((v / 0x100 + 0x800000) % 0x100 == (v / 0x100) % 0x100) by (nonlinear_arith);
        assert(v / 0x1000000 < 0x80) by (nonlinear_arith)
            requires
                v <= 0x7fffffff,
        ;
        assert((v / 0x1000000 + 0x80) % 0x80 == v / 0x1000000) by (nonlinear_arith)
            requires
                0 <= v / 0x1000000 < 0x80,
        ;
        lemma_be32_round_trip(dependency);
        assert(spec_be32(w)[0] == (v / 0x1000000 + 0x80) as u8);
        assert(spec_be32(w)[0] as int % 0x80 == v / 0x1000000);
        assert(spec_be32(w)[1] == spec_be32(dependency)[1]);
        assert(spec_be32(w)[2] == spec_be32(dependency)[2]);
        assert(spec_be32(w)[3] == spec_be32(dependency)[3]);
        assert(spec_u31_be(spec_be32(w)[0], spec_be32(w)[1], spec_be32(w)[2], spec_be32(w)[3])
            == spec_u31_be(
            spec_be32(dependency)[0],
            spec_be32(dependency)[1],
            spec_be32(dependency)[2],
            spec_be32(dependency)[3],
        ));
    } else {
        lemma_be32_round_trip(dependency);
        assert(w as int / 0x1000000 < 0x80) by (nonlinear_arith)
            requires
                w as int <= 0x7fffffff,
        ;
    }
}

/// Settings pairs survive the trip onto the wire and back, and occupy six
/// octets each.
pub proof fn lemma_settings_params_round_trip(params: Seq<(SettingsParameter, u32)>)
    ensures
        spec_encode_settings_params(params).len() == 6 * params.len(),
        spec_parse_settings_params(spec_encode_settings_params(params)) == params,
    decreases params.len(),
{
    if params.len() == 0 {
    } else {
        let (p, v) = params[0];
        let rest = spec_encode_settings_params(params.skip(1));
        let b = spec_encode_settings_params(params);
        lemma_settings_params_round_trip(params.skip(1));
        lemma_be16_round_trip(p.spec_to_u16());
        lemma_be32_round_trip(v);
        crate::types::lemma_settings_parameter_u16_round_trip(p);
        assert(b =~= spec_be16(p.spec_to_u16()) + spec_be32(v) + rest);
        assert(b[0] == spec_be16(p.spec_to_u16())[0]);
        assert(b[1] == spec_be16(p.spec_to_u16())[1]);
        assert(b[2] == spec_be32(v)[0]);
        assert(b[3] == spec_be32(v)[1]);
        assert(b[4] == spec_be32(v)[2]);
        assert(b[5] == spec_be32(v)[3]);
        assert(b.skip(6) =~= rest);
        assert(spec_u16_be(b[0], b[1]) == p.spec_to_u16());
        assert(spec_u32_be(b[2], b[3], b[4], b[5]) == v);
        assert(spec_parse_settings_params(b) == seq![(p, v)] + params.skip(1));
        assert(seq![(p, v)] + params.skip(1) =~= params);
    }
}

/// Parsing inverts serialization for any well-formed payload under a flag
/// octet the serializer would use: the frame survives the trip onto the
/// wire and back.
pub proof fn lemma_payload_round_trip(p: PayloadView, h: FrameHeader)
    requires
        p.wf(),
        h.ty == p.frame_type(),
        spec_flags_consistent(p, h.flags),
    ensures
        spec_parse_payload(spec_encode_payload(p), h) == Ok::<PayloadView, FrameError>(p),
{
    let b = spec_encode_payload(p);
    match p {
        PayloadView::Data { data } => {
        },
        PayloadView::Headers { dependency, exclusive_dependency, weight, fragment } => {
            match (dependency, exclusive_dependency, weight) {
                (Some(d), Some(e), Some(w)) => {
                    lemma_dep_word(d, e);
                    let word = spec_be32(spec_dep_word(d, e));
                    assert(b =~= word + seq![w] + fragment);
                    assert(b.len() >= 5);
                    assert(b[0] == word[0] && b[1] == word[1] && b[2] == word[2] && b[3]
                        == word[3]);
                    assert(b[4] == w);
                    assert(b.skip(5) =~= fragment);
                },
                _ => {
                    assert(b == fragment);
                },
            }
        },
        PayloadView::Priority { dependency, exclusive_dependency, weight } => {
            lemma_dep_word(dependency, exclusive_dependency);
            let word = spec_be32(spec_dep_word(dependency, exclusive_dependency));
            assert(b =~= word + seq![weight]);
            assert(b.len() == 5);
            assert(b[0] == word[0] && b[1] == word[1] && b[2] == word[2] && b[3] == word[3]);
            assert(b[4] == weight);
        },
        PayloadView::ResetStream { error } => {
            lemma_be32_round_trip(error.spec_to_u32());
            crate::types::lemma_error_type_u32_round_trip(error);
        },
        PayloadView::Settings { params } => {
            lemma_settings_params_round_trip(params);
            assert(b.len() % 6 == 0) by (nonlinear_arith)
                requires
                    b.len() == 6 * params.len(),
            ;
        },
        PayloadView::PushPromise { promised_stream, fragment } => {
            lemma_be32_round_trip(promised_stream);
            let word = spec_be32(promised_stream);
            assert(b =~= word + fragment);
            assert(b[0] == word[0] && b[1] == word[1] && b[2] == word[2] && b[3] == word[3]);
            assert(b.skip(4) =~= fragment);
        },
        PayloadView::Ping { data } => {
        },
        PayloadView::GoAway { last_stream, error, debug } => {
            lemma_be32_round_trip(last_stream);
            lemma_be32_round_trip(error.spec_to_u32());
            crate::types::lemma_error_type_u32_round_trip(error);
            let w1 = spec_be32(last_stream);
            let w2 = spec_be32(error.spec_to_u32());
            assert(b =~= w1 + w2 + debug);
            assert(b[0] == w1[0] && b[1] == w1[1] && b[2] == w1[2] && b[3] == w1[3]);
            assert(b[4] == w2[0] && b[5] == w2[1] && b[6] == w2[2] && b[7] == w2[3]);
            assert(b.skip(8) =~= debug);
        },
        PayloadView::WindowUpdate { increment } => {
            lemma_be32_round_trip(increment);
        },
        PayloadView::Continuation { fragment } => {
        },
    }
}

/// The whole-frame round trip: serializing a well-formed payload behind its
/// header and parsing the bytes back gives the same header and payload.
/// Reserved bits are written as zero and there is no padding to remove, so
/// the trip is exact.
pub proof fn lemma_frame_round_trip(p: PayloadView, flags: u8, stream_id: StreamId)
    requires
        p.wf(),
        spec_flags_consistent(p, flags),
        stream_id <= U31_MAX,
        spec_encode_payload(p).len() < 0x1000000,
    ensures
        ({
            let h = spec_frame_header(p, flags, stream_id);
            let bytes = spec_frame_bytes(p, flags, stream_id);
            &&& FrameHeader::spec_parse(bytes) == Ok::<FrameHeader, DecodeError>(h)
            &&& spec_parse_payload(bytes.skip(9), h) == Ok::<PayloadView, FrameError>(p)
        }),
{
    let h = spec_frame_header(p, flags, stream_id);
    let bytes = spec_frame_bytes(p, flags, stream_id);
    lemma_header_round_trip(h, spec_encode_payload(p));
    assert(bytes.skip(9) =~= spec_encode_payload(p));
    lemma_payload_round_trip(p, h);
}


/// A payload the parser accepts is well formed and carried by the header's
/// frame type.
pub proof fn lemma_parse_wf(b: Seq<u8>, h: FrameHeader)
    ensures
        spec_parse_payload(b, h) matches Ok(p) ==> p.wf() && p.frame_type() == h.ty,
{
}

} // verus!
