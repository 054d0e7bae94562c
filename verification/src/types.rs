//! Shared protocol primitives: frame type, error code and settings
//! enumerations, their wire encodings, and the error taxonomy.

use vstd::prelude::*;

verus! {

/// The largest stream identifier and flow-control window value: `2^31 - 1`.
pub const U31_MAX: u32 = 0x7fff_ffff;

/// Stream identifiers are unsigned 31-bit integers; 0 addresses the
/// connection itself.
pub type StreamId = u32;

/// Frame types defined by RFC 7540; any other type octet is unknown and the
/// frame is skipped.
#[derive(Debug, Clone, Copy, PartialEq, Eq, Structural)]
pub enum FrameType {
    Data,
    Headers,
    Priority,
    ResetStream,
    Settings,
    PushPromise,
    Ping,
    GoAway,
    WindowUpdate,
    Continuation,
}

impl FrameType {
    /// The wire octet of this frame type.
    pub open spec fn spec_to_u8(self) -> u8 {
        match self {
            FrameType::Data => 0x0,
            FrameType::Headers => 0x1,
            FrameType::Priority => 0x2,
            FrameType::ResetStream => 0x3,
            FrameType::Settings => 0x4,
            FrameType::PushPromise => 0x5,
            FrameType::Ping => 0x6,
            FrameType::GoAway => 0x7,
            FrameType::WindowUpdate => 0x8,
            FrameType::Continuation => 0x9,
        }
    }

    /// The frame type a wire octet names, if any.
    pub open spec fn spec_from_u8(v: u8) -> Option<FrameType> {
        if v == 0x0 {
            Some(FrameType::Data)
        } else if v == 0x1 {
            Some(FrameType::Headers)
        } else if v == 0x2 {
            Some(FrameType::Priority)
        } else if v == 0x3 {
            Some(FrameType::ResetStream)
        } else if v == 0x4 {
            Some(FrameType::Settings)
        } else if v == 0x5 {
            Some(FrameType::PushPromise)
        } else if v == 0x6 {
            Some(FrameType::Ping)
        } else if v == 0x7 {
            Some(FrameType::GoAway)
        } else if v == 0x8 {
            Some(FrameType::WindowUpdate)
        } else if v == 0x9 {
            Some(FrameType::Continuation)
        } else {
            None
        }
    }

    pub fn to_u8(self) -> (r: u8)
        ensures
            r == self.spec_to_u8(),
    {
        match self {
            FrameType::Data => 0x0,
            FrameType::Headers => 0x1,
            FrameType::Priority => 0x2,
            FrameType::ResetStream => 0x3,
            FrameType::Settings => 0x4,
            FrameType::PushPromise => 0x5,
            FrameType::Ping => 0x6,
            FrameType::GoAway => 0x7,
            FrameType::WindowUpdate => 0x8,
            FrameType::Continuation => 0x9,
        }
    }

    pub fn from_u8(v: u8) -> (r: Option<FrameType>)
        ensures
            r == FrameType::spec_from_u8(v),
    {
        match v {
            0x0 => Some(FrameType::Data),
            0x1 => Some(FrameType::Headers),
            0x2 => Some(FrameType::Priority),
            0x3 => Some(FrameType::ResetStream),
            0x4 => Some(FrameType::Settings),
            0x5 => Some(FrameType::PushPromise),
            0x6 => Some(FrameType::Ping),
            0x7 => Some(FrameType::GoAway),
            0x8 => Some(FrameType::WindowUpdate),
            0x9 => Some(FrameType::Continuation),
            _ => None,
        }
    }
}

/// Conversions between a frame type and its wire octet invert each other.
pub proof fn lemma_frame_type_u8_round_trip(t: FrameType)
    ensures
        FrameType::spec_from_u8(t.spec_to_u8()) == Some(t),
{
}

/// Error codes defined by RFC 7540; an unknown code received from the peer
/// is treated as a generic internal error rather than rejected.
#[derive(Debug, Clone, Copy, PartialEq, Eq, Structural)]
pub enum ErrorType {
    NoError,
    ProtocolError,
    InternalError,
    FlowControlError,
    SettingsTimeout,
    StreamClosed,
    FrameSizeError,
    RefusedStream,
    Cancel,
    CompressionError,
    ConnectError,
    EnhanceYourCalm,
    InadequateSecurity,
    Http11Required,
}

impl ErrorType {
    /// The wire value of this error code.
    pub open spec fn spec_to_u32(self) -> u32 {
        match self {
            ErrorType::NoError => 0x0,
            ErrorType::ProtocolError => 0x1,
            ErrorType::InternalError => 0x2,
            ErrorType::FlowControlError => 0x3,
            ErrorType::SettingsTimeout => 0x4,
            ErrorType::StreamClosed => 0x5,
            ErrorType::FrameSizeError => 0x6,
            ErrorType::RefusedStream => 0x7,
            ErrorType::Cancel => 0x8,
            ErrorType::CompressionError => 0x9,
            ErrorType::ConnectError => 0xa,
            ErrorType::EnhanceYourCalm => 0xb,
            ErrorType::InadequateSecurity => 0xc,
            ErrorType::Http11Required => 0xd,
        }
    }

    /// The error code a wire value names; unknown values fall back to
    /// `InternalError`, the generic code.
    pub open spec fn spec_from_u32(v: u32) -> ErrorType {
        if v == 0x0 {
            ErrorType::NoError
        } else if v == 0x1 {
            ErrorType::ProtocolError
        } else if v == 0x2 {
            ErrorType::InternalError
        } else if v == 0x3 {
            ErrorType::FlowControlError
        } else if v == 0x4 {
            ErrorType::SettingsTimeout
        } else if v == 0x5 {
            ErrorType::StreamClosed
        } else if v == 0x6 {
            ErrorType::FrameSizeError
        } else if v == 0x7 {
            ErrorType::RefusedStream
        } else if v == 0x8 {
            ErrorType::Cancel
        } else if v == 0x9 {
            ErrorType::CompressionError
        } else if v == 0xa {
            ErrorType::ConnectError
        } else if v == 0xb {
            ErrorType::EnhanceYourCalm
        } else if v == 0xc {
            ErrorType::InadequateSecurity
        } else if v == 0xd {
            ErrorType::Http11Required
        } else {
            ErrorType::InternalError
        }
    }

    pub fn to_u32(self) -> (r: u32)
        ensures
            r == self.spec_to_u32(),
    {
        match self {
            ErrorType::NoError => 0x0,
            ErrorType::ProtocolError => 0x1,
            ErrorType::InternalError => 0x2,
            ErrorType::FlowControlError => 0x3,
            ErrorType::SettingsTimeout => 0x4,
            ErrorType::StreamClosed => 0x5,
            ErrorType::FrameSizeError => 0x6,
            ErrorType::RefusedStream => 0x7,
            ErrorType::Cancel => 0x8,
            ErrorType::CompressionError => 0x9,
            ErrorType::ConnectError => 0xa,
            ErrorType::EnhanceYourCalm => 0xb,
            ErrorType::InadequateSecurity => 0xc,
            ErrorType::Http11Required => 0xd,
        }
    }

    pub fn from_u32(v: u32) -> (r: ErrorType)
        ensures
            r == ErrorType::spec_from_u32(v),
    {
        match v {
            0x0 => ErrorType::NoError,
            0x1 => ErrorType::ProtocolError,
            0x2 => ErrorType::InternalError,
            0x3 => ErrorType::FlowControlError,
            0x4 => ErrorType::SettingsTimeout,
            0x5 => ErrorType::StreamClosed,
            0x6 => ErrorType::FrameSizeError,
            0x7 => ErrorType::RefusedStream,
            0x8 => ErrorType::Cancel,
            0x9 => ErrorType::CompressionError,
            0xa => ErrorType::ConnectError,
            0xb => ErrorType::EnhanceYourCalm,
            0xc => ErrorType::InadequateSecurity,
            0xd => ErrorType::Http11Required,
            _ => ErrorType::InternalError,
        }
    }
}

/// Conversions between an error code and its wire value invert each other.
pub proof fn lemma_error_type_u32_round_trip(e: ErrorType)
    ensures
        ErrorType::spec_from_u32(e.spec_to_u32()) == e,
{
}

/// The one flag a SETTINGS frame can carry.
#[derive(Debug, Clone, Copy, PartialEq, Eq, Structural)]
pub enum SettingsFlags {
    Ack,
}

impl SettingsFlags {
    /// The flag bit of this flag.
    pub open spec fn spec_bits(self) -> u8 {
        0x1
    }

    pub fn bits(self) -> (r: u8)
        ensures
            r == self.spec_bits(),
    {
        0x1
    }
}

/// Settings parameters defined by RFC 7540; unknown parameters received in a
/// SETTINGS frame are ignored, never errors.
#[derive(Debug, Clone, Copy, PartialEq, Eq, Structural)]
pub enum SettingsParameter {
    HeaderTableSize,
    EnablePush,
    MaxConcurrentStreams,
    InitialWindowSize,
    MaxFrameSize,
    MaxHeaderListSize,
}

impl SettingsParameter {
    /// The wire identifier of this parameter.
    pub open spec fn spec_to_u16(self) -> u16 {
        match self {
            SettingsParameter::HeaderTableSize => 0x1,
            SettingsParameter::EnablePush => 0x2,
            SettingsParameter::MaxConcurrentStreams => 0x3,
            SettingsParameter::InitialWindowSize => 0x4,
            SettingsParameter::MaxFrameSize => 0x5,
            SettingsParameter::MaxHeaderListSize => 0x6,
        }
    }

    /// The parameter a wire identifier names, if any.
    pub open spec fn spec_from_u16(v: u16) -> Option<SettingsParameter> {
        if v == 0x1 {
            Some(SettingsParameter::HeaderTableSize)
        } else if v == 0x2 {
            Some(SettingsParameter::EnablePush)
        } else if v == 0x3 {
            Some(SettingsParameter::MaxConcurrentStreams)
        } else if v == 0x4 {
            Some(SettingsParameter::InitialWindowSize)
        } else if v == 0x5 {
            Some(SettingsParameter::MaxFrameSize)
        } else if v == 0x6 {
            Some(SettingsParameter::MaxHeaderListSize)
        } else {
            None
        }
    }

    pub fn to_u16(self) -> (r: u16)
        ensures
            r == self.spec_to_u16(),
    {
        match self {
            SettingsParameter::HeaderTableSize => 0x1,
            SettingsParameter::EnablePush => 0x2,
            SettingsParameter::MaxConcurrentStreams => 0x3,
            SettingsParameter::InitialWindowSize => 0x4,
            SettingsParameter::MaxFrameSize => 0x5,
            SettingsParameter::MaxHeaderListSize => 0x6,
        }
    }

    pub fn from_u16(v: u16) -> (r: Option<SettingsParameter>)
        ensures
            r == SettingsParameter::spec_from_u16(v),
    {
        match v {
            0x1 => Some(SettingsParameter::HeaderTableSize),
            0x2 => Some(SettingsParameter::EnablePush),
            0x3 => Some(SettingsParameter::MaxConcurrentStreams),
            0x4 => Some(SettingsParameter::InitialWindowSize),
            0x5 => Some(SettingsParameter::MaxFrameSize),
            0x6 => Some(SettingsParameter::MaxHeaderListSize),
            _ => None,
        }
    }
}

/// Conversions between a settings parameter and its wire identifier invert
/// each other.
pub proof fn lemma_settings_parameter_u16_round_trip(p: SettingsParameter)
    ensures
        SettingsParameter::spec_from_u16(p.spec_to_u16()) == Some(p),
{
}

/// `2^n`.
pub open spec fn spec_pow2(n: nat) -> nat
    decreases n,
{
    if n == 0 {
        1
    } else {
        2 * spec_pow2((n - 1) as nat)
    }
}

/// The values of `2^n` for the prefix widths in use.
pub proof fn lemma_pow2_values()
    ensures
        spec_pow2(0) == 1,
        spec_pow2(1) == 2,
        spec_pow2(2) == 4,
        spec_pow2(3) == 8,
        spec_pow2(4) == 16,
        spec_pow2(5) == 32,
        spec_pow2(6) == 64,
        spec_pow2(7) == 128,
        spec_pow2(8) == 256,
        spec_pow2(29) == 0x20000000,
        spec_pow2(30) == 0x40000000,
{
    reveal_with_fuel(spec_pow2, 31);
}

/// Failures of the HPACK decoder; all are fatal to the connection as a
/// COMPRESSION_ERROR.
#[derive(Debug, Clone, Copy, PartialEq, Eq, Structural)]
pub enum HpackError {
    /// An integer representation overflowed the 32-bit range.
    InvalidIntegerOverflow,
    /// Huffman padding was not a prefix of the EOS symbol.
    InvalidHuffmanPadding,
    /// A Huffman-coded string did not decode to whole symbols.
    InvalidHuffmanCode,
    /// A field index was 0 or past the end of the tables.
    IndexOutOfRange,
    /// A dynamic table size update exceeded the last signaled limit, or
    /// appeared after the head of the block.
    ResizeExceedsLimit,
    /// The header block ended in the middle of a field representation.
    Truncated,
}

/// Failures of the frame decoder.
#[derive(Debug, Clone, Copy, PartialEq, Eq, Structural)]
pub enum DecodeError {
    /// Not enough bytes buffered to decode the frame; read more and retry.
    TooShort,
    /// The type octet names no known frame type.
    UnknownType,
    /// A stream identifier that must not be 0 was 0.
    ZeroStreamId,
    /// A WINDOW_UPDATE carried an increment of 0.
    ZeroWindowIncrement,
    /// A header block failed to decode.
    InvalidHeader(HpackError),
}

/// Failures surfaced to the caller of a request.
#[derive(Debug, Clone, Copy, PartialEq, Eq, Structural)]
pub enum RequestError {
    /// The connection has used up the odd 31-bit stream identifiers.
    OutOfStreamIds,
    /// The request target has no host, so no `:authority` can be formed.
    AuthorityCannotBeBase,
    /// A header name or value is too long for the compressed encoding.
    RequestTooLarge,
    /// The flow-control windows cannot take the body yet; sending waits
    /// until the peer replenishes them.
    FlowControlBlocked,
}

} // verus!
