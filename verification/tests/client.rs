use mininet::client::{http_get, parse_response, render_request, HttpClientError, Response};
use mininet::stack::{SocketAddr, TcpError, TcpListen, TcpSocket, TcpStack, UdpSocket};

fn response_bytes(code: u16, reason: &str, body: &[u8]) -> Vec<u8> {
    let mut raw = format!("HTTP/1.1 {} {}\r\nContent-Type: text/plain\r\n\r\n", code, reason)
        .into_bytes();
    raw.extend_from_slice(body);
    raw
}

#[test]
fn status_codes_classify() {
    for (code, reason, ok) in [
        (200u16, "OK", true),
        (204, "No Content", true),
        (301, "Moved Permanently", false),
        (404, "Not Found", false),
        (500, "Internal Server Error", false),
    ] {
        let raw = response_bytes(code, reason, b"payload");
        match parse_response(&raw) {
            Ok(resp) => {
                assert!(ok, "status {} should have failed", code);
                assert_eq!(b"payload".to_vec(), resp.body);
            },
            Err(HttpClientError::FailedStatusCode(c)) => {
                assert!(!ok, "status {} should have succeeded", code);
                assert_eq!(code, c);
            },
            Err(e) => panic!("unexpected error: {:?}", e),
        }
    }
}

#[test]
fn success_keeps_headers_and_body() {
    let raw = response_bytes(200, "OK", b"hello");
    let resp = parse_response(&raw).unwrap();
    assert_eq!(
        vec![("Content-Type".to_string(), "text/plain".to_string())],
        resp.headers
    );
    assert_eq!(b"hello".to_vec(), resp.body);
}

#[test]
fn incomplete_and_malformed_responses() {
    assert!(matches!(
        parse_response(b"HTTP/1.1 200 OK\r\nContent-T"),
        Err(HttpClientError::IncompleteResponse)
    ));
    assert!(matches!(
        parse_response(b"HTP/9 banana\r\n\r\n"),
        Err(HttpClientError::HttpParseError)
    ));
}

#[test]
fn request_line_is_exact() {
    assert_eq!(
        "GET /p HTTP/1.1\r\nHost: h\r\nConnection: close\r\n\r\n",
        render_request("/p", "h")
    );
}

struct MockSocket {
    reply: Vec<u8>,
    sent: Vec<u8>,
}

impl TcpSocket for MockSocket {
    fn read(&mut self, _buf: &mut Vec<u8>) -> Result<usize, TcpError> {
        Ok(0)
    }

    fn read_to_end(&mut self) -> Result<Vec<u8>, TcpError> {
        Ok(self.reply.clone())
    }

    fn send(&mut self, data: &[u8]) -> Result<usize, TcpError> {
        self.sent.extend_from_slice(data);
        Ok(data.len())
    }
}

struct MockListener;

impl TcpListen for MockListener {
    type TcpSocket = MockSocket;

    fn accept(&mut self) -> Result<(MockSocket, SocketAddr), TcpError> {
        Err(TcpError::Closed)
    }
}

struct MockUdp;

impl UdpSocket for MockUdp {
    fn read_from(&mut self, _buf: &mut Vec<u8>) -> Result<(usize, SocketAddr), TcpError> {
        Err(TcpError::Unknown)
    }

    fn send_to(&mut self, _addr: SocketAddr, data: &[u8]) -> Result<usize, TcpError> {
        Ok(data.len())
    }
}

struct MockStack {
    reply: Vec<u8>,
    connected: Vec<SocketAddr>,
}

impl TcpStack for MockStack {
    type TcpSocket = MockSocket;
    type UdpSocket = MockUdp;
    type TcpListener = MockListener;

    fn create_socket_listener(&mut self, _addr: SocketAddr) -> Result<MockListener, TcpError> {
        Ok(MockListener)
    }

    fn create_socket_connected(&mut self, addr: SocketAddr) -> Result<MockSocket, TcpError> {
        self.connected.push(addr);
        Ok(MockSocket { reply: self.reply.clone(), sent: Vec::new() })
    }

    fn get_socket_address(&self, host_and_port: &str) -> Result<SocketAddr, TcpError> {
        let _ = host_and_port;
        Ok(SocketAddr::new(93, 184, 216, 34, 80))
    }

    fn create_udp_socket(&mut self) -> Result<MockUdp, TcpError> {
        Ok(MockUdp)
    }
}

#[test]
fn http_get_success_against_a_literal_address() {
    let mut stack = MockStack {
        reply: response_bytes(200, "OK", b"it works"),
        connected: Vec::new(),
    };
    let resp: Response = http_get(&mut stack, "http://127.0.0.1:8080/hello").unwrap();
    assert_eq!(b"it works".to_vec(), resp.body);
    assert_eq!(1, stack.connected.len());
    assert_eq!(8080, stack.connected[0].port);
}

#[test]
fn http_get_default_port_and_failure_status() {
    let mut stack = MockStack {
        reply: response_bytes(404, "Not Found", b""),
        connected: Vec::new(),
    };
    let r = http_get(&mut stack, "http://1.2.3.4/missing");
    assert!(matches!(r, Err(HttpClientError::FailedStatusCode(404))));
    assert_eq!(80, stack.connected[0].port);
}

#[test]
fn http_get_url_errors() {
    let mut stack = MockStack { reply: Vec::new(), connected: Vec::new() };
    assert!(matches!(
        http_get(&mut stack, "not a url"),
        Err(HttpClientError::UrlParseError)
    ));
    match http_get(&mut stack, "ftp://example.org/file") {
        Err(HttpClientError::UnsupportedUrlScheme(s)) => assert_eq!("ftp", s),
        other => panic!("unexpected outcome: {:?}", other),
    }
}

struct FailStack;

impl TcpStack for FailStack {
    type TcpSocket = MockSocket;
    type UdpSocket = MockUdp;
    type TcpListener = MockListener;

    fn create_socket_listener(&mut self, _addr: SocketAddr) -> Result<MockListener, TcpError> {
        Err(TcpError::Unknown)
    }

    fn create_socket_connected(&mut self, _addr: SocketAddr) -> Result<MockSocket, TcpError> {
        Err(TcpError::Unknown)
    }

    fn get_socket_address(&self, _host_and_port: &str) -> Result<SocketAddr, TcpError> {
        Err(TcpError::Unknown)
    }

    fn create_udp_socket(&mut self) -> Result<MockUdp, TcpError> {
        Err(TcpError::Unknown)
    }
}

#[test]
fn http_get_transport_failures_come_back_as_transport_errors() {
    let mut stack = FailStack;
    // A hostname authority fails at resolution; a literal one at connecting.
    assert!(matches!(
        http_get(&mut stack, "http://example.org/"),
        Err(HttpClientError::TcpError(TcpError::Unknown))
    ));
    assert!(matches!(
        http_get(&mut stack, "http://1.2.3.4/"),
        Err(HttpClientError::TcpError(TcpError::Unknown))
    ));
}
