//! End-to-end engine scenarios over a scripted peer: the handshake, request
//! serialization, response assembly, CONTINUATION discipline, PING
//! round-trips, flow-control replenishment, and stream-id allocation.

use http2::frame::FrameHeader;
use http2::frame::FramePayload;
use http2::hpack::Encoder;
use http2::Connection;
use http2::ErrorType;
use http2::FrameType;
use http2::Method;
use http2::Request;
use http2::SettingsParameter;
use http2::UrlParts;

fn url(host: &str, path: &str) -> UrlParts {
    UrlParts {
        scheme: b"https".to_vec(),
        host: host.as_bytes().to_vec(),
        port: None,
        path: path.as_bytes().to_vec(),
        query: None,
    }
}

fn frame(payload: &FramePayload, stream_id: u32, flags: u8) -> Vec<u8> {
    let mut out = Vec::new();
    payload.write_into(&mut out, stream_id, flags);
    out
}

fn hpack_block(headers: &[(&str, &str)]) -> Vec<u8> {
    let list: Vec<(Vec<u8>, Vec<u8>)> =
        headers.iter().map(|(k, v)| (k.as_bytes().to_vec(), v.as_bytes().to_vec())).collect();
    Encoder::with_size(4096).encode(&list)
}

fn peer_settings() -> Vec<u8> {
    frame(&FramePayload::Settings { params: vec![] }, 0, 0)
}

/// Feeds bytes the connection must survive; panics on a connection error.
fn recv_ok(conn: &mut Connection, bytes: &Vec<u8>) -> Vec<(u32, Result<http2::Response, ErrorType>)> {
    let (events, status) = conn.receive(bytes);
    status.unwrap();
    events
}

/// Feeds bytes that must kill the connection; hands back the error.
fn recv_err(conn: &mut Connection, bytes: &Vec<u8>) -> ErrorType {
    let (_, status) = conn.receive(bytes);
    status.unwrap_err()
}

/// Splits a byte string into frames: (header, payload octets) pairs.
fn parse_frames(bytes: &Vec<u8>) -> Vec<(FrameHeader, Vec<u8>)> {
    let mut out = Vec::new();
    let mut pos = 0;
    while pos < bytes.len() {
        let header = FrameHeader::try_from(bytes, pos).unwrap();
        let start = pos + 9;
        let end = start + header.length as usize;
        out.push((header, bytes[start..end].to_vec()));
        pos = end;
    }
    out
}

fn decode_headers_block(block: &Vec<u8>) -> Vec<(String, String)> {
    let mut decoder = http2::hpack::Decoder::with_size(4096);
    decoder
        .decode(block)
        .unwrap()
        .into_iter()
        .map(|(k, v)| (String::from_utf8(k).unwrap(), String::from_utf8(v).unwrap()))
        .collect()
}

fn handshake(conn: &mut Connection) {
    let startup = conn.take_write_buf();
    // the 24-octet preface, then our SETTINGS
    assert_eq!(&startup[..24], b"PRI * HTTP/2.0\r\n\r\nSM\r\n\r\n");
    let frames = parse_frames(&startup[24..].to_vec());
    assert_eq!(frames[0].0.ty, FrameType::Settings);
    let events = recv_ok(conn, &peer_settings());
    assert!(events.is_empty());
    assert!(conn.is_ready());
    // our SETTINGS ACK went out
    let out = conn.take_write_buf();
    let frames = parse_frames(&out);
    assert_eq!(frames.len(), 1);
    assert_eq!(frames[0].0.ty, FrameType::Settings);
    assert_eq!(frames[0].0.flags, 0x1);
    assert_eq!(frames[0].0.length, 0);
}

#[test]
fn minimal_get() {
    let mut conn = Connection::new();
    handshake(&mut conn);

    let id = conn.request(&Request::get(url("example.test", "/"))).unwrap();
    assert_eq!(id, 3);
    let out = conn.take_write_buf();
    let frames = parse_frames(&out);
    assert_eq!(frames.len(), 1);
    let (header, block) = &frames[0];
    assert_eq!(header.ty, FrameType::Headers);
    assert_eq!(header.stream_id, 3);
    // END_STREAM | END_HEADERS
    assert_eq!(header.flags, 0x5);
    assert_eq!(
        decode_headers_block(block),
        vec![
            (":method".to_string(), "GET".to_string()),
            (":scheme".to_string(), "https".to_string()),
            (":path".to_string(), "/".to_string()),
            (":authority".to_string(), "example.test".to_string()),
        ]
    );

    let reply = frame(
        &FramePayload::Headers {
            dependency: None,
            exclusive_dependency: None,
            weight: None,
            fragment: hpack_block(&[(":status", "200"), ("content-length", "0")]),
        },
        3,
        0x5,
    );
    let events = recv_ok(&mut conn, &reply);
    assert_eq!(events.len(), 1);
    let (sid, result) = &events[0];
    assert_eq!(*sid, 3);
    let response = result.as_ref().unwrap();
    assert_eq!(response.status(), 200);
    assert!(response.body.is_empty());
}

#[test]
fn post_with_body() {
    let mut conn = Connection::new();
    handshake(&mut conn);

    let request = Request::new(Method::Post, url("example.test", "/x"), vec![], b"hi".to_vec());
    let id = conn.request(&request).unwrap();
    assert_eq!(id, 3);
    let out = conn.take_write_buf();
    let frames = parse_frames(&out);
    assert_eq!(frames.len(), 2);
    assert_eq!(frames[0].0.ty, FrameType::Headers);
    // END_HEADERS only: the body follows
    assert_eq!(frames[0].0.flags, 0x4);
    assert_eq!(frames[1].0.ty, FrameType::Data);
    assert_eq!(frames[1].0.flags, 0x1);
    assert_eq!(frames[1].1, b"hi".to_vec());

    let mut reply = frame(
        &FramePayload::Headers {
            dependency: None,
            exclusive_dependency: None,
            weight: None,
            fragment: hpack_block(&[(":status", "201")]),
        },
        3,
        0x4,
    );
    reply.extend(frame(&FramePayload::Data { data: b"ok".to_vec() }, 3, 0x1));
    let events = recv_ok(&mut conn, &reply);
    assert_eq!(events.len(), 1);
    let response = events[0].1.as_ref().unwrap();
    assert_eq!(response.status(), 201);
    assert_eq!(response.body, b"ok".to_vec());
}

#[test]
fn interleaved_responses() {
    let mut conn = Connection::new();
    handshake(&mut conn);

    let id1 = conn.request(&Request::get(url("example.test", "/one"))).unwrap();
    let id2 = conn.request(&Request::get(url("example.test", "/two"))).unwrap();
    assert_eq!(id1, 3);
    assert_eq!(id2, 5);
    conn.take_write_buf();

    // the peer answers the second request first
    let mut reply = frame(
        &FramePayload::Headers {
            dependency: None,
            exclusive_dependency: None,
            weight: None,
            fragment: hpack_block(&[(":status", "200")]),
        },
        5,
        0x4,
    );
    reply.extend(frame(&FramePayload::Data { data: b"second".to_vec() }, 5, 0x1));
    reply.extend(frame(
        &FramePayload::Headers {
            dependency: None,
            exclusive_dependency: None,
            weight: None,
            fragment: hpack_block(&[(":status", "200")]),
        },
        3,
        0x4,
    ));
    reply.extend(frame(&FramePayload::Data { data: b"first".to_vec() }, 3, 0x1));
    let events = recv_ok(&mut conn, &reply);
    assert_eq!(events.len(), 2);
    assert_eq!(events[0].0, 5);
    assert_eq!(events[0].1.as_ref().unwrap().body, b"second".to_vec());
    assert_eq!(events[1].0, 3);
    assert_eq!(events[1].1.as_ref().unwrap().body, b"first".to_vec());
}

#[test]
fn continuation_completes_headers() {
    let mut conn = Connection::new();
    handshake(&mut conn);
    conn.request(&Request::get(url("example.test", "/"))).unwrap();
    conn.take_write_buf();

    let block = hpack_block(&[(":status", "200"), ("x-side", "band")]);
    let (part1, part2) = block.split_at(3);
    let mut reply = frame(
        &FramePayload::Headers {
            dependency: None,
            exclusive_dependency: None,
            weight: None,
            fragment: part1.to_vec(),
        },
        3,
        0x1, // END_STREAM without END_HEADERS
    );
    reply.extend(frame(&FramePayload::Continuation { fragment: part2.to_vec() }, 3, 0x4));
    let events = recv_ok(&mut conn, &reply);
    assert_eq!(events.len(), 1);
    let response = events[0].1.as_ref().unwrap();
    assert_eq!(response.status(), 200);
    assert_eq!(
        response.header(&b"x-side".to_vec()),
        Some(b"band".to_vec())
    );
}

#[test]
fn frame_on_other_stream_during_continuation_is_protocol_error() {
    let mut conn = Connection::new();
    handshake(&mut conn);
    conn.request(&Request::get(url("example.test", "/"))).unwrap();
    conn.take_write_buf();

    let block = hpack_block(&[(":status", "200")]);
    let mut reply = frame(
        &FramePayload::Headers {
            dependency: None,
            exclusive_dependency: None,
            weight: None,
            fragment: block,
        },
        3,
        0x0, // neither END_HEADERS nor END_STREAM
    );
    // any frame on another stream while the block is open
    reply.extend(frame(&FramePayload::Data { data: b"x".to_vec() }, 5, 0x0));
    let (events, status) = conn.receive(&reply);
    assert_eq!(status.unwrap_err(), ErrorType::ProtocolError);
    // a GOAWAY went out and the waiting caller was resolved with the error
    assert_eq!(events.len(), 1);
    assert_eq!(events[0].0, 3);
    assert_eq!(events[0].1.as_ref().unwrap_err(), &ErrorType::ProtocolError);
    let out = conn.take_write_buf();
    let frames = parse_frames(&out);
    assert_eq!(frames.last().unwrap().0.ty, FrameType::GoAway);
}

#[test]
fn ping_round_trip() {
    let mut conn = Connection::new();
    handshake(&mut conn);
    let payload = vec![0x01, 0x02, 0x03, 0x04, 0x05, 0x06, 0x07, 0x08];
    let events = recv_ok(&mut conn, &frame(&FramePayload::Ping { data: payload.clone() }, 0, 0));
    assert!(events.is_empty());
    let out = conn.take_write_buf();
    let frames = parse_frames(&out);
    assert_eq!(frames.len(), 1);
    assert_eq!(frames[0].0.ty, FrameType::Ping);
    assert_eq!(frames[0].0.flags, 0x1);
    assert_eq!(frames[0].1, payload);
}

#[test]
fn ping_ack_is_not_answered() {
    let mut conn = Connection::new();
    handshake(&mut conn);
    let payload = vec![0; 8];
    recv_ok(&mut conn, &frame(&FramePayload::Ping { data: payload }, 0, 0x1));
    assert!(conn.take_write_buf().is_empty());
}

#[test]
fn flow_control_replenishment() {
    let mut conn = Connection::new();
    handshake(&mut conn);
    conn.request(&Request::get(url("example.test", "/big"))).unwrap();
    conn.take_write_buf();

    let reply = frame(
        &FramePayload::Headers {
            dependency: None,
            exclusive_dependency: None,
            weight: None,
            fragment: hpack_block(&[(":status", "200")]),
        },
        3,
        0x4,
    );
    recv_ok(&mut conn, &reply);
    conn.take_write_buf();

    // 65,536 octets of DATA across two frames
    let mut data = frame(&FramePayload::Data { data: vec![0u8; 16384] }, 3, 0);
    data.extend(frame(&FramePayload::Data { data: vec![0u8; 49152] }, 3, 0));
    recv_ok(&mut conn, &data);
    let out = conn.take_write_buf();
    let frames = parse_frames(&out);
    // one WINDOW_UPDATE for the stream and one for the connection per frame
    assert_eq!(frames.len(), 4);
    let increments: Vec<(u32, u32)> = frames
        .iter()
        .map(|(h, body)| {
            assert_eq!(h.ty, FrameType::WindowUpdate);
            let inc = u32::from_be_bytes([body[0], body[1], body[2], body[3]]) & 0x7fff_ffff;
            (h.stream_id, inc)
        })
        .collect();
    assert_eq!(increments, vec![(3, 16384), (0, 16384), (3, 49152), (0, 49152)]);
}

#[test]
fn stream_ids_increase_and_are_odd() {
    let mut conn = Connection::new();
    handshake(&mut conn);
    let a = conn.request(&Request::get(url("example.test", "/a"))).unwrap();
    let b = conn.request(&Request::get(url("example.test", "/b"))).unwrap();
    let c = conn.request(&Request::get(url("example.test", "/c"))).unwrap();
    assert_eq!((a, b, c), (3, 5, 7));
    assert!(a % 2 == 1 && b % 2 == 1 && c % 2 == 1);
}

#[test]
fn settings_five_byte_payload_is_connection_error() {
    let mut conn = Connection::new();
    handshake(&mut conn);
    let raw = vec![0x00, 0x00, 0x05, 0x04, 0x00, 0x00, 0x00, 0x00, 0x00, 0, 0, 0, 0, 0];
    assert_eq!(recv_err(&mut conn, &raw), ErrorType::FrameSizeError);
    let out = conn.take_write_buf();
    assert_eq!(parse_frames(&out).last().unwrap().0.ty, FrameType::GoAway);
}

#[test]
fn window_update_zero_increment_errors() {
    let mut conn = Connection::new();
    handshake(&mut conn);
    // on stream 0: connection error
    let raw = vec![0x00, 0x00, 0x04, 0x08, 0x00, 0x00, 0x00, 0x00, 0x00, 0, 0, 0, 0];
    assert_eq!(recv_err(&mut conn, &raw), ErrorType::ProtocolError);

    // on a stream: RST_STREAM with PROTOCOL_ERROR, the connection lives on
    let mut conn = Connection::new();
    handshake(&mut conn);
    conn.request(&Request::get(url("example.test", "/"))).unwrap();
    conn.take_write_buf();
    let raw = vec![0x00, 0x00, 0x04, 0x08, 0x00, 0x00, 0x00, 0x00, 0x03, 0, 0, 0, 0];
    recv_ok(&mut conn, &raw);
    let out = conn.take_write_buf();
    let frames = parse_frames(&out);
    assert_eq!(frames.len(), 1);
    assert_eq!(frames[0].0.ty, FrameType::ResetStream);
    assert_eq!(frames[0].0.stream_id, 3);
    assert_eq!(frames[0].1, vec![0, 0, 0, 1]);
}

#[test]
fn padded_data_with_oversize_pad_is_protocol_error() {
    let mut conn = Connection::new();
    handshake(&mut conn);
    conn.request(&Request::get(url("example.test", "/"))).unwrap();
    conn.take_write_buf();
    // DATA, PADDED, pad length 5 but only 2 payload octets
    let raw = vec![0x00, 0x00, 0x02, 0x00, 0x08, 0x00, 0x00, 0x00, 0x03, 0x05, 0x00];
    assert_eq!(recv_err(&mut conn, &raw), ErrorType::ProtocolError);
}

#[test]
fn unknown_frame_types_are_skipped() {
    let mut conn = Connection::new();
    handshake(&mut conn);
    let mut raw = vec![0x00, 0x00, 0x03, 0x63, 0x00, 0x00, 0x00, 0x00, 0x03, 1, 2, 3];
    raw.extend(frame(&FramePayload::Ping { data: vec![0; 8] }, 0, 0));
    let events = recv_ok(&mut conn, &raw);
    assert!(events.is_empty());
    // the PING after the unknown frame was still answered
    let out = conn.take_write_buf();
    assert_eq!(parse_frames(&out)[0].0.ty, FrameType::Ping);
}

#[test]
fn goaway_is_recorded() {
    let mut conn = Connection::new();
    handshake(&mut conn);
    let raw = frame(
        &FramePayload::GoAway { last_stream: 0, error: ErrorType::NoError, debug: vec![] },
        0,
        0,
    );
    recv_ok(&mut conn, &raw);
    assert!(conn.goaway_received());
}

#[test]
fn reset_stream_resolves_the_waiting_caller() {
    let mut conn = Connection::new();
    handshake(&mut conn);
    conn.request(&Request::get(url("example.test", "/"))).unwrap();
    conn.take_write_buf();
    let raw = frame(&FramePayload::ResetStream { error: ErrorType::RefusedStream }, 3, 0);
    let events = recv_ok(&mut conn, &raw);
    assert_eq!(events.len(), 1);
    assert_eq!(events[0].0, 3);
    assert_eq!(events[0].1.as_ref().unwrap_err(), &ErrorType::RefusedStream);
}

#[test]
fn partial_frames_wait_for_more_bytes() {
    let mut conn = Connection::new();
    handshake(&mut conn);
    let whole = frame(&FramePayload::Ping { data: vec![9; 8] }, 0, 0);
    let (first, second) = whole.split_at(11);
    assert!(recv_ok(&mut conn, &first.to_vec()).is_empty());
    assert!(conn.take_write_buf().is_empty());
    assert!(recv_ok(&mut conn, &second.to_vec()).is_empty());
    let out = conn.take_write_buf();
    assert_eq!(parse_frames(&out)[0].0.ty, FrameType::Ping);
}

#[test]
fn zero_initial_window_blocks_bodies_but_not_bare_requests() {
    let mut conn = Connection::new();
    conn.take_write_buf();
    let settings = frame(
        &FramePayload::Settings { params: vec![(SettingsParameter::InitialWindowSize, 0)] },
        0,
        0,
    );
    recv_ok(&mut conn, &settings);
    conn.take_write_buf();

    let post = Request::new(Method::Post, url("example.test", "/x"), vec![], b"hi".to_vec());
    assert_eq!(
        conn.request(&post).unwrap_err(),
        http2::RequestError::FlowControlBlocked
    );
    // a request without a body still goes out
    assert_eq!(conn.request(&Request::get(url("example.test", "/"))).unwrap(), 3);
}

#[test]
fn large_bodies_are_split_at_the_frame_size_limit() {
    let mut conn = Connection::new();
    handshake(&mut conn);
    let body = vec![7u8; 40000];
    let request = Request::new(Method::Post, url("example.test", "/big"), vec![], body);
    conn.request(&request).unwrap();
    let out = conn.take_write_buf();
    let frames = parse_frames(&out);
    assert_eq!(frames.len(), 4);
    assert_eq!(frames[0].0.ty, FrameType::Headers);
    let data: Vec<(u32, u8)> =
        frames[1..].iter().map(|(h, _)| (h.length, h.flags)).collect();
    // 16384-octet DATA frames, END_STREAM on the last
    assert_eq!(data, vec![(16384, 0), (16384, 0), (7232, 1)]);
}
