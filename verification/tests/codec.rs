//! Frame codec tests: header parsing, each payload type, the boundary
//! errors, and the round trip.

use http2::frame::FrameError;
use http2::frame::FrameHeader;
use http2::frame::FramePayload;
use http2::types::DecodeError;
use http2::ErrorType;
use http2::FrameType;
use http2::SettingsParameter;

fn encode_frame(payload: &FramePayload, stream_id: u32, flags: u8) -> Vec<u8> {
    let mut out = Vec::new();
    payload.write_into(&mut out, stream_id, flags);
    out
}

fn decode_frame(bytes: &Vec<u8>) -> (FrameHeader, FramePayload) {
    let header = FrameHeader::try_from(bytes, 0).unwrap();
    let body: Vec<u8> = bytes[9..9 + header.length as usize].to_vec();
    let payload = FramePayload::try_from(&body, &header).unwrap();
    (header, payload)
}

#[test]
fn header_round_trip() {
    let header = FrameHeader { length: 0x01_02_03, ty: FrameType::Ping, flags: 0x1, stream_id: 7 };
    let mut bytes = Vec::new();
    header.write_into(&mut bytes);
    assert_eq!(bytes, vec![0x01, 0x02, 0x03, 0x06, 0x01, 0x00, 0x00, 0x00, 0x07]);
    assert_eq!(FrameHeader::try_from(&bytes, 0).unwrap(), header);
}

#[test]
fn header_too_short_and_unknown_type() {
    let short = vec![0x00, 0x00, 0x00];
    assert_eq!(FrameHeader::try_from(&short, 0), Err(DecodeError::TooShort));
    let unknown = vec![0x00, 0x00, 0x00, 0x63, 0x00, 0x00, 0x00, 0x00, 0x01];
    assert_eq!(FrameHeader::try_from(&unknown, 0), Err(DecodeError::UnknownType));
}

#[test]
fn reserved_bit_is_ignored_on_receive() {
    let bytes = vec![0x00, 0x00, 0x00, 0x00, 0x00, 0xff, 0xff, 0xff, 0xff];
    let header = FrameHeader::try_from(&bytes, 0).unwrap();
    assert_eq!(header.stream_id, 0x7fff_ffff);
}

#[test]
fn data_round_trip() {
    let payload = FramePayload::Data { data: b"hello".to_vec() };
    let bytes = encode_frame(&payload, 3, 0x1);
    let (header, decoded) = decode_frame(&bytes);
    assert_eq!(header.ty, FrameType::Data);
    assert_eq!(header.stream_id, 3);
    assert_eq!(decoded, payload);
}

#[test]
fn data_padding_is_stripped() {
    // length 7: pad length 2, "abc", two pad octets
    let body = vec![0x02, b'a', b'b', b'c', 0x00, 0x00];
    let header =
        FrameHeader { length: 6, ty: FrameType::Data, flags: 0x8, stream_id: 3 };
    let payload = FramePayload::try_from(&body, &header).unwrap();
    assert_eq!(payload, FramePayload::Data { data: b"abc".to_vec() });
}

#[test]
fn data_pad_length_exceeding_payload_is_protocol_error() {
    let body = vec![0x05, b'h', b'i'];
    let header = FrameHeader { length: 3, ty: FrameType::Data, flags: 0x8, stream_id: 3 };
    assert_eq!(
        FramePayload::try_from(&body, &header),
        Err(FrameError::Connection(ErrorType::ProtocolError))
    );
}

#[test]
fn headers_with_priority_round_trip() {
    let payload = FramePayload::Headers {
        dependency: Some(11),
        exclusive_dependency: Some(true),
        weight: Some(200),
        fragment: vec![0x82],
    };
    let bytes = encode_frame(&payload, 5, 0x24);
    let (header, decoded) = decode_frame(&bytes);
    assert_eq!(header.ty, FrameType::Headers);
    assert_eq!(decoded, payload);
}

#[test]
fn priority_round_trip_and_length_check() {
    let payload =
        FramePayload::Priority { dependency: 9, exclusive_dependency: false, weight: 15 };
    let bytes = encode_frame(&payload, 3, 0);
    let (_, decoded) = decode_frame(&bytes);
    assert_eq!(decoded, payload);

    let bad = vec![0x00, 0x00, 0x00, 0x01];
    let header = FrameHeader { length: 4, ty: FrameType::Priority, flags: 0, stream_id: 3 };
    assert_eq!(
        FramePayload::try_from(&bad, &header),
        Err(FrameError::Stream(ErrorType::FrameSizeError))
    );
}

#[test]
fn settings_round_trip_and_unknown_parameters_ignored() {
    let payload = FramePayload::Settings {
        params: vec![
            (SettingsParameter::EnablePush, 0),
            (SettingsParameter::InitialWindowSize, 0x7fff_ffff),
        ],
    };
    let bytes = encode_frame(&payload, 0, 0);
    let (_, decoded) = decode_frame(&bytes);
    assert_eq!(decoded, payload);

    // an unknown identifier (0x99) is skipped, the known one kept
    let body = vec![0x00, 0x99, 0, 0, 0, 1, 0x00, 0x02, 0, 0, 0, 0];
    let header = FrameHeader { length: 12, ty: FrameType::Settings, flags: 0, stream_id: 0 };
    assert_eq!(
        FramePayload::try_from(&body, &header).unwrap(),
        FramePayload::Settings { params: vec![(SettingsParameter::EnablePush, 0)] }
    );
}

#[test]
fn settings_with_five_byte_payload_is_frame_size_error() {
    let body = vec![0, 0, 0, 0, 0];
    let header = FrameHeader { length: 5, ty: FrameType::Settings, flags: 0, stream_id: 0 };
    assert_eq!(
        FramePayload::try_from(&body, &header),
        Err(FrameError::Connection(ErrorType::FrameSizeError))
    );
}

#[test]
fn settings_ack_with_payload_is_frame_size_error() {
    let body = vec![0, 0, 0, 0, 0, 0];
    let header = FrameHeader { length: 6, ty: FrameType::Settings, flags: 0x1, stream_id: 0 };
    assert_eq!(
        FramePayload::try_from(&body, &header),
        Err(FrameError::Connection(ErrorType::FrameSizeError))
    );
}

#[test]
fn ping_length_must_be_eight() {
    let body = vec![1, 2, 3];
    let header = FrameHeader { length: 3, ty: FrameType::Ping, flags: 0, stream_id: 0 };
    assert_eq!(
        FramePayload::try_from(&body, &header),
        Err(FrameError::Connection(ErrorType::FrameSizeError))
    );
}

#[test]
fn goaway_round_trip_and_unknown_error_code() {
    let payload = FramePayload::GoAway {
        last_stream: 5,
        error: ErrorType::EnhanceYourCalm,
        debug: b"calm down".to_vec(),
    };
    let bytes = encode_frame(&payload, 0, 0);
    let (_, decoded) = decode_frame(&bytes);
    assert_eq!(decoded, payload);

    // an unknown error code decodes as the generic internal error
    let body = vec![0, 0, 0, 1, 0xff, 0xff, 0xff, 0xff];
    let header = FrameHeader { length: 8, ty: FrameType::GoAway, flags: 0, stream_id: 0 };
    assert_eq!(
        FramePayload::try_from(&body, &header).unwrap(),
        FramePayload::GoAway { last_stream: 1, error: ErrorType::InternalError, debug: vec![] }
    );
}

#[test]
fn window_update_zero_increment_connection_and_stream() {
    let body = vec![0, 0, 0, 0];
    let conn = FrameHeader { length: 4, ty: FrameType::WindowUpdate, flags: 0, stream_id: 0 };
    assert_eq!(
        FramePayload::try_from(&body, &conn),
        Err(FrameError::Connection(ErrorType::ProtocolError))
    );
    let stream = FrameHeader { length: 4, ty: FrameType::WindowUpdate, flags: 0, stream_id: 3 };
    assert_eq!(
        FramePayload::try_from(&body, &stream),
        Err(FrameError::Stream(ErrorType::ProtocolError))
    );
}

#[test]
fn push_promise_and_reset_round_trip() {
    let pp = FramePayload::PushPromise { promised_stream: 2, fragment: vec![0x82] };
    let bytes = encode_frame(&pp, 3, 0x4);
    let (_, decoded) = decode_frame(&bytes);
    assert_eq!(decoded, pp);

    let rst = FramePayload::ResetStream { error: ErrorType::Cancel };
    let bytes = encode_frame(&rst, 3, 0);
    let (_, decoded) = decode_frame(&bytes);
    assert_eq!(decoded, rst);
}
