//! Caller-facing surface tests: methods, responses, header lookup and the
//! status pseudo-header.

use http2::Method;
use http2::Request;
use http2::Response;
use http2::UrlParts;

fn resp(headers: &[(&str, &str)], body: &[u8]) -> Response {
    Response {
        headers: headers
            .iter()
            .map(|(k, v)| (k.as_bytes().to_vec(), v.as_bytes().to_vec()))
            .collect(),
        body: body.to_vec(),
    }
}

#[test]
fn method_names() {
    assert_eq!(Method::Get.as_ref(), "GET");
    assert_eq!(Method::Post.as_ref(), "POST");
    assert_eq!(Method::Head.as_ref(), "HEAD");
    assert_eq!(Method::Other("BREW".to_string()).as_ref(), "BREW");
}

#[test]
fn status_and_ok() {
    let response = resp(&[(":status", "204")], b"");
    assert_eq!(response.status(), 204);
    assert!(response.ok());
    let response = resp(&[(":status", "404")], b"");
    assert_eq!(response.status(), 404);
    assert!(!response.ok());
}

#[test]
fn header_lookup_lowercases_the_key() {
    let response = resp(&[("content-type", "text/plain"), ("x-two", "a"), ("x-two", "b")], b"");
    assert_eq!(
        response.header(&b"Content-Type".to_vec()),
        Some(b"text/plain".to_vec())
    );
    assert_eq!(response.header(&b"missing".to_vec()), None);
    let all = response.headers(&b"X-TWO".to_vec());
    assert_eq!(all, vec![b"a".to_vec(), b"b".to_vec()]);
}

#[test]
fn request_header_list_lowercases_names_and_keeps_order() {
    let mut request = Request::get(UrlParts {
        scheme: b"https".to_vec(),
        host: b"example.test".to_vec(),
        port: Some(8443),
        path: b"/q".to_vec(),
        query: Some(b"k=v".to_vec()),
    });
    request.headers.push((b"X-First".to_vec(), b"1".to_vec()));
    request.headers.push((b"X-SECOND".to_vec(), b"2".to_vec()));
    let list = request.build_header_list().unwrap();
    let as_strings: Vec<(String, String)> = list
        .into_iter()
        .map(|(k, v)| (String::from_utf8(k).unwrap(), String::from_utf8(v).unwrap()))
        .collect();
    assert_eq!(
        as_strings,
        vec![
            (":method".to_string(), "GET".to_string()),
            (":scheme".to_string(), "https".to_string()),
            (":path".to_string(), "/q?k=v".to_string()),
            (":authority".to_string(), "example.test:8443".to_string()),
            ("x-first".to_string(), "1".to_string()),
            ("x-second".to_string(), "2".to_string()),
        ]
    );
}

#[test]
fn request_without_host_is_refused() {
    let request = Request::get(UrlParts {
        scheme: b"https".to_vec(),
        host: vec![],
        port: None,
        path: b"/".to_vec(),
        query: None,
    });
    assert_eq!(
        request.build_header_list().unwrap_err(),
        http2::RequestError::AuthorityCannotBeBase
    );
}
