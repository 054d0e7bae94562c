//! HPACK codec tests: the integer primitive, cross-checks against another
//! HPACK implementation, Huffman decoding, and the failure modes.

use http2::hpack::Decoder;
use http2::hpack::Encoder;
use http2::HpackError;

fn pairs(list: &[(&str, &str)]) -> Vec<(Vec<u8>, Vec<u8>)> {
    list.iter().map(|(k, v)| (k.as_bytes().to_vec(), v.as_bytes().to_vec())).collect()
}

#[test]
fn encode_integer() {
    // https://httpwg.org/specs/rfc7541.html#integer.representation.example1
    assert_eq!(Encoder::encode_integer(10, 5, 0), vec![0b00001010_u8]);
}

#[test]
fn encode_integer_with_continuation() {
    // https://httpwg.org/specs/rfc7541.html#integer.representation.example2
    assert_eq!(Encoder::encode_integer(1337, 5, 0), vec![0b00011111, 0b10011010, 0b00001010]);
}

#[test]
fn encode() {
    let mut encoder = Encoder::with_size(4096);
    let mut decoder = hpack::Decoder::new();

    let headers = vec![(":method", "GET"), (":path", "/")];
    let encoded = encoder.encode(&pairs(&headers));
    let decoded = decoder.decode(&encoded).unwrap();
    let expected: Vec<(Vec<u8>, Vec<u8>)> = headers
        .into_iter()
        .map(|(k, v)| (k.as_bytes().to_vec(), v.as_bytes().to_vec()))
        .collect();
    assert_eq!(decoded, expected);
}

#[test]
fn decode() {
    let mut decoder = Decoder::with_size(4096);
    let mut encoder = hpack::Encoder::new();

    let headers = vec![(&b":method"[..], &b"GET"[..]), (&b":path"[..], &b"/"[..])];
    let encoded = encoder.encode(headers.clone());
    let decoded = decoder.decode(&encoded).unwrap();
    let expected: Vec<(Vec<u8>, Vec<u8>)> =
        headers.into_iter().map(|(k, v)| (k.to_vec(), v.to_vec())).collect();
    assert_eq!(decoded, expected);
}

#[test]
fn round_trip_many_headers() {
    let mut encoder = Encoder::with_size(4096);
    let mut decoder = Decoder::with_size(4096);
    let headers = pairs(&[
        (":method", "POST"),
        (":path", "/a/b?c=d"),
        ("content-type", "application/json"),
        ("x-empty", ""),
        ("x-dup", "one"),
        ("x-dup", "two"),
    ]);
    let encoded = encoder.encode(&headers);
    assert_eq!(decoder.decode(&encoded).unwrap(), headers);
}

#[test]
fn decode_indexed_static_entries() {
    // indexed fields 2 (:method GET) and 4 (:path /)
    let mut decoder = Decoder::with_size(4096);
    let decoded = decoder.decode(&vec![0x82, 0x84]).unwrap();
    assert_eq!(decoded, pairs(&[(":method", "GET"), (":path", "/")]));
}

#[test]
fn decode_incremental_indexing_uses_dynamic_table() {
    // literal with incremental indexing, then the indexed reference 62
    let mut their_encoder = hpack::Encoder::new();
    let first = their_encoder.encode(vec![(&b"custom-key"[..], &b"custom-value"[..])]);
    let second = their_encoder.encode(vec![(&b"custom-key"[..], &b"custom-value"[..])]);
    // the second block references the dynamic table entry
    assert!(second.len() < first.len());
    let mut decoder = Decoder::with_size(4096);
    assert_eq!(decoder.decode(&first).unwrap(), pairs(&[("custom-key", "custom-value")]));
    assert_eq!(decoder.decode(&second).unwrap(), pairs(&[("custom-key", "custom-value")]));
}

#[test]
fn decode_huffman_string() {
    // RFC 7541 C.4.1: "www.example.com", Huffman coded
    let block = vec![
        0x00, 0x8c, 0xf1, 0xe3, 0xc2, 0xe5, 0xf2, 0x3a, 0x6b, 0xa0, 0xab, 0x90, 0xf4, 0xff, 0x00,
    ];
    let mut decoder = Decoder::with_size(4096);
    let decoded = decoder.decode(&block).unwrap();
    assert_eq!(decoded, pairs(&[("www.example.com", "")]));
}

#[test]
fn decode_huffman_bad_padding() {
    // the symbol '0' is 00000; the 000 padding is not an EOS prefix
    let block = vec![0x00, 0x81, 0x00, 0x00];
    let mut decoder = Decoder::with_size(4096);
    assert_eq!(decoder.decode(&block), Err(HpackError::InvalidHuffmanPadding));
}

#[test]
fn decode_truncated_block() {
    // a literal whose value string never arrives
    let block = vec![0x00, 0x03, b'a', b'b', b'c'];
    let mut decoder = Decoder::with_size(4096);
    assert_eq!(decoder.decode(&block), Err(HpackError::Truncated));
}

#[test]
fn decode_index_out_of_range() {
    // indexed field 62 with an empty dynamic table
    let mut decoder = Decoder::with_size(4096);
    assert_eq!(decoder.decode(&vec![0xbe]), Err(HpackError::IndexOutOfRange));
}

#[test]
fn decode_integer_overflow() {
    // indexed field whose index overflows 32 bits
    let block = vec![0xff, 0xff, 0xff, 0xff, 0xff, 0xff, 0x7f];
    let mut decoder = Decoder::with_size(4096);
    assert_eq!(decoder.decode(&block), Err(HpackError::InvalidIntegerOverflow));
}

#[test]
fn resize_exceeding_limit_is_refused() {
    // dynamic table size update to 5000 against a signaled cap of 4096
    let block = vec![0x3f, 0xe9, 0x26];
    let mut decoder = Decoder::with_size(4096);
    assert_eq!(decoder.decode(&block), Err(HpackError::ResizeExceedsLimit));
}

#[test]
fn resize_within_limit_evicts() {
    let mut their_encoder = hpack::Encoder::new();
    let first = their_encoder.encode(vec![(&b"custom-key"[..], &b"custom-value"[..])]);
    let mut decoder = Decoder::with_size(4096);
    decoder.decode(&first).unwrap();
    // resize to zero clears the dynamic table; index 62 is then out of range
    let mut block = vec![0x20];
    block.push(0xbe);
    assert_eq!(decoder.decode(&block), Err(HpackError::IndexOutOfRange));
}

#[test]
fn resize_after_head_of_block_is_refused() {
    // a size update behind an indexed field
    let block = vec![0x82, 0x20];
    let mut decoder = Decoder::with_size(4096);
    assert_eq!(decoder.decode(&block), Err(HpackError::ResizeExceedsLimit));
}
