use mininet::head::{parse_request_head, RawHeader, ReqParse};
use mininet::req::HttpMethod;
use mininet::server::{content_length, FeedResult, RequestParser};

fn feed_whole(bytes: &[u8]) -> Option<mininet::req::HttpServerRequest> {
    let mut p = RequestParser::new();
    match p.feed(bytes) {
        FeedResult::Complete => Some(p.into_request()),
        _ => None,
    }
}

fn feed_chunks(bytes: &[u8], chunk_len: usize) -> Option<mininet::req::HttpServerRequest> {
    let mut p = RequestParser::new();
    let mut i = 0;
    while i < bytes.len() {
        let j = (i + chunk_len).min(bytes.len());
        match p.feed(&bytes[i..j]) {
            FeedResult::Complete => {
                assert_eq!(j, bytes.len(), "completed before the buffer's end");
                return Some(p.into_request());
            },
            FeedResult::Error => return None,
            FeedResult::NeedMore => (),
        }
        i = j;
    }
    None
}

#[test]
fn whole_buffer_and_byte_by_byte_agree() {
    let raw = b"GET / HTTP/1.1\r\nHost: x\r\n\r\n";
    let whole = feed_whole(raw).unwrap();
    for chunk_len in [1, 2, 3, 5, 7, raw.len()] {
        let split = feed_chunks(raw, chunk_len).unwrap();
        assert_eq!(whole.method, split.method);
        assert_eq!(whole.path, split.path);
        assert_eq!(whole.body, split.body);
        assert_eq!(whole.headers.len(), split.headers.len());
        for (a, b) in whole.headers.iter().zip(split.headers.iter()) {
            assert_eq!(a.name, b.name);
            assert_eq!(a.value, b.value);
        }
    }
}

#[test]
fn simple_get_components() {
    let req = feed_whole(b"GET /index.html HTTP/1.1\r\nHost: x\r\n\r\n").unwrap();
    assert_eq!(Some("GET".to_string()), req.method);
    assert_eq!(Some("/index.html".to_string()), req.path);
    assert_eq!(1, req.headers.len());
    assert_eq!("Host", req.headers[0].name);
    assert_eq!("x", req.headers[0].value);
    assert!(req.body.is_empty());
}

#[test]
fn content_length_boundary_exact_body() {
    let raw = b"POST /u HTTP/1.1\r\nContent-Length: 5\r\n\r\nhello";
    let req = feed_whole(raw).unwrap();
    assert_eq!(5, req.body.len());
    assert_eq!(b"hello".to_vec(), req.body);

    // The same request arriving with the body split off the head.
    let mut p = RequestParser::new();
    assert_eq!(FeedResult::NeedMore, p.feed(b"POST /u HTTP/1.1\r\nContent-Length: 5\r\n\r\nhel"));
    assert_eq!(FeedResult::Complete, p.feed(b"lo"));
    let req = p.into_request();
    assert_eq!(5, req.body.len());
    assert_eq!(b"hello".to_vec(), req.body);
}

#[test]
fn early_close_is_fatal() {
    // The peer closes while the body is still short: a zero-length chunk.
    let mut p = RequestParser::new();
    assert_eq!(FeedResult::NeedMore, p.feed(b"POST /u HTTP/1.1\r\nContent-Length: 5\r\n\r\nhel"));
    assert_eq!(FeedResult::Error, p.feed(b""));

    // The peer closes while the head is still short.
    let mut p = RequestParser::new();
    assert_eq!(FeedResult::NeedMore, p.feed(b"GET / HT"));
    assert_eq!(FeedResult::Error, p.feed(b""));
}

#[test]
fn malformed_head_is_fatal() {
    let mut p = RequestParser::new();
    assert_eq!(FeedResult::Error, p.feed(b"GET / HTP/1.1\r\nHost: x\r\n\r\n"));
}

#[test]
fn missing_content_length_means_empty_body() {
    let req = feed_whole(b"GET / HTTP/1.1\r\n\r\n").unwrap();
    assert!(req.body.is_empty());
}

#[test]
fn next_read_len_is_bounded() {
    let mut p = RequestParser::new();
    assert_eq!(64, p.next_read_len());
    assert_eq!(
        FeedResult::NeedMore,
        p.feed(b"POST /u HTTP/1.1\r\nContent-Length: 100\r\n\r\n")
    );
    assert_eq!(64, p.next_read_len());
    assert_eq!(FeedResult::NeedMore, p.feed(&[b'a'; 64]));
    assert_eq!(36, p.next_read_len());
}

#[test]
fn content_length_takes_first_parsable_match() {
    let raw = b"GET / HTTP/1.1\r\nContent-Length: bad\r\nContent-Length: 7\r\nContent-Length: 9\r\n\r\n";
    match parse_request_head(raw) {
        ReqParse::Complete(h) => {
            assert_eq!(Some(7), content_length(&h.headers));
        },
        _ => panic!("expected a complete head"),
    }
}

#[test]
fn content_length_absent_or_unparsable() {
    let none: Vec<RawHeader> = Vec::new();
    assert_eq!(None, content_length(&none));
    match parse_request_head(b"GET / HTTP/1.1\r\nContent-Length: 99x\r\n\r\n") {
        ReqParse::Complete(h) => assert_eq!(None, content_length(&h.headers)),
        _ => panic!("expected a complete head"),
    }
}

#[test]
fn method_names_round_trip() {
    let m = HttpMethod::Get;
    for v in [
        HttpMethod::Get,
        HttpMethod::Head,
        HttpMethod::Options,
        HttpMethod::Put,
        HttpMethod::Post,
        HttpMethod::Delete,
    ] {
        assert_eq!(Some(v), m.from_http(v.to_http()));
    }
    assert_eq!("GET", HttpMethod::Get.to_http());
    assert_eq!(None, m.from_http("get"));
    assert_eq!(None, m.from_http("PATCH"));
}

#[test]
fn header_with_non_text_value_is_dropped() {
    let mut raw = b"GET / HTTP/1.1\r\nX-Bin: ".to_vec();
    raw.extend_from_slice(&[0xff, 0xfe]);
    raw.extend_from_slice(b"\r\nHost: x\r\n\r\n");
    let req = feed_whole(&raw).unwrap();
    assert_eq!(1, req.headers.len());
    assert_eq!("Host", req.headers[0].name);
}
