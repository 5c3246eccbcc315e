use mininet::resp::{
    render_reply, render_status_line, HttpResponseWriter, HttpStatusCode, HttpStatusCodes,
};
use mininet::stack::{race_result, RaceWinner, SocketAddr, TcpError};
use mininet::text::{parse_usize, push_decimal, str_eq};

#[test]
fn named_status_codes() {
    assert_eq!((200, "OK"), HttpStatusCodes::Okay.to_http());
    assert_eq!((202, "Accepted"), HttpStatusCodes::Accepted.to_http());
    assert_eq!((204, "No Content"), HttpStatusCodes::NoContent.to_http());
    assert_eq!((400, "Bad Request"), HttpStatusCodes::BadRequest.to_http());
    assert_eq!((404, "Not Found"), HttpStatusCodes::NotFound.to_http());
    assert_eq!((500, "Internal Server Error"), HttpStatusCodes::InternalError.to_http());
}

#[test]
fn custom_status_code() {
    let c = HttpStatusCode::Custom(418, "I'm a teapot".to_string());
    let (code, text) = c.to_http();
    assert_eq!(418, code);
    assert_eq!("I'm a teapot", text);
    let s = HttpStatusCode::standard(HttpStatusCodes::Okay);
    assert_eq!((200, "OK".to_string()), s.to_http());
}

#[test]
fn rendered_reply_is_exact() {
    assert_eq!(
        "HTTP/1.1 404 Not Found\r\n",
        render_status_line(&HttpStatusCode::Standard(HttpStatusCodes::NotFound))
    );
    assert_eq!(
        "HTTP/1.1 200 OK\r\nContent-Type: text/html\r\n\r\n<h1>hi</h1>",
        render_reply(
            &HttpStatusCode::Standard(HttpStatusCodes::Okay),
            "text/html",
            "<h1>hi</h1>"
        )
    );
}

struct Captured {
    written: std::rc::Rc<std::cell::RefCell<Vec<u8>>>,
}

impl HttpResponseWriter for Captured {
    fn write(&mut self, data: &[u8]) -> Result<(), TcpError> {
        self.written.borrow_mut().extend_from_slice(data);
        Ok(())
    }
}

#[test]
fn reply_helpers_write_the_rendered_bytes() {
    let sink = std::rc::Rc::new(std::cell::RefCell::new(Vec::new()));
    let w = Captured { written: sink.clone() };
    w.http_ok("text/plain", "ok").unwrap();
    assert_eq!(
        b"HTTP/1.1 200 OK\r\nContent-Type: text/plain\r\n\r\nok".to_vec(),
        *sink.borrow()
    );

    let sink = std::rc::Rc::new(std::cell::RefCell::new(Vec::new()));
    let w = Captured { written: sink.clone() };
    w.http_reply(
        HttpStatusCode::Custom(418, "I'm a teapot".to_string()),
        "text/plain",
        "no",
    )
    .unwrap();
    assert_eq!(
        b"HTTP/1.1 418 I'm a teapot\r\nContent-Type: text/plain\r\n\r\nno".to_vec(),
        *sink.borrow()
    );
}

#[test]
fn timeout_race_decision() {
    assert_eq!(Ok(5), race_result(RaceWinner::Operation(5u32)));
    let lost: Result<u32, TcpError> = race_result(RaceWinner::Timer);
    assert!(matches!(lost, Err(TcpError::Timeout)));
}

#[test]
fn socket_addr_holds_its_octets() {
    let a = SocketAddr::new(192, 168, 0, 1, 8080);
    assert_eq!(192, a.ip.a);
    assert_eq!(168, a.ip.b);
    assert_eq!(0, a.ip.c);
    assert_eq!(1, a.ip.d);
    assert_eq!(8080, a.port);
}

#[test]
fn decimal_reading() {
    assert_eq!(Some(123), parse_usize("123"));
    assert_eq!(Some(5), parse_usize("+5"));
    assert_eq!(Some(0), parse_usize("000"));
    assert_eq!(None, parse_usize(""));
    assert_eq!(None, parse_usize("+"));
    assert_eq!(None, parse_usize("12a"));
    assert_eq!(None, parse_usize("-3"));
    assert_eq!(None, parse_usize("99999999999999999999999999"));
}

#[test]
fn decimal_printing() {
    let mut s = String::new();
    push_decimal(0, &mut s);
    push_decimal(65535, &mut s);
    assert_eq!("065535", s);
}

#[test]
fn string_equality() {
    assert!(str_eq("", ""));
    assert!(str_eq("Content-Length", "Content-Length"));
    assert!(!str_eq("Content-Length", "content-length"));
    assert!(!str_eq("a", "ab"));
}
