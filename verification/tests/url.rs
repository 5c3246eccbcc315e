use mininet::url::{Authority, Url};

#[test]
fn parse_test_cases() {
    let urls = [
        "http://www.google.com",
        "http://127.0.0.1",
        "http://127.0.0.1:9999",
        "http://www.google.com/index.html",
        "http://foobar.com:8080/index.html",
    ];

    for url in urls {
        println!("URL: {}", url);
        let r = Url::parse(url).unwrap();
        println!("Parsed into: {:#?}", r);

        println!();
    }
}

#[test]
fn parse_literal_ip_with_port_and_path() {
    let u = Url::parse("http://127.0.0.1:9999/index.html").unwrap();
    assert_eq!("http", u.scheme);
    assert!(matches!(u.authority, Authority::Ip(127, 0, 0, 1)));
    assert_eq!(Some(9999), u.port);
    assert_eq!(Some("/index.html".to_string()), u.path);
}

#[test]
fn parse_hostname_components() {
    let u = Url::parse("http://foobar.com:8080/index.html").unwrap();
    assert_eq!("http", u.scheme);
    match &u.authority {
        Authority::Hostname(h) => assert_eq!("foobar.com", h),
        _ => panic!("expected a hostname"),
    }
    assert_eq!(Some(8080), u.port);
    assert_eq!(Some("/index.html".to_string()), u.path);
}

#[test]
fn parse_bare_host_has_no_port_or_path() {
    let u = Url::parse("http://www.google.com").unwrap();
    assert_eq!(None, u.port);
    assert_eq!(None, u.path);
}

#[test]
fn round_trip_reconstructs_components() {
    let cases = [
        "http://www.google.com",
        "http://127.0.0.1",
        "http://127.0.0.1:9999",
        "http://www.google.com/index.html",
        "http://foobar.com:8080/index.html",
        "http://007.2.3.4:0080/x",
        "http://h:99999/x",
    ];
    for case in cases {
        let u = Url::parse(case).unwrap();
        let s = u.to_url_string();
        let v = Url::parse(&s).unwrap();
        assert_eq!(u.scheme, v.scheme);
        assert_eq!(u.port, v.port);
        assert_eq!(u.path, v.path);
        match (&u.authority, &v.authority) {
            (Authority::Hostname(a), Authority::Hostname(b)) => assert_eq!(a, b),
            (Authority::Ip(a, b, c, d), Authority::Ip(e, f, g, h)) => {
                assert_eq!((a, b, c, d), (e, f, g, h))
            },
            _ => panic!("authority kind changed in the round trip"),
        }
    }
}

#[test]
fn leading_zero_octets_still_make_a_quad() {
    let u = Url::parse("http://007.2.3.4/x").unwrap();
    assert!(matches!(u.authority, Authority::Ip(7, 2, 3, 4)));
}

#[test]
fn out_of_range_octet_falls_back_to_hostname() {
    let u = Url::parse("http://256.1.1.1/").unwrap();
    match u.authority {
        Authority::Hostname(h) => assert_eq!("256.1.1.1", h),
        _ => panic!("expected a hostname"),
    }
}

#[test]
fn partial_quad_match_falls_back_to_hostname() {
    let u = Url::parse("http://1.2.3.4x/").unwrap();
    match u.authority {
        Authority::Hostname(h) => assert_eq!("1.2.3.4x", h),
        _ => panic!("expected a hostname"),
    }
}

#[test]
fn port_too_large_becomes_part_of_the_path() {
    let u = Url::parse("http://h:99999/x").unwrap();
    assert_eq!(None, u.port);
    assert_eq!(Some(":99999/x".to_string()), u.path);
}

#[test]
fn rejected_urls() {
    assert!(Url::parse("").is_none());
    assert!(Url::parse("http:/x").is_none());
    assert!(Url::parse("://host").is_none());
    assert!(Url::parse("http://").is_none());
    assert!(Url::parse("http://:80").is_none());
}

#[test]
fn authority_parse_quad_and_hostname() {
    assert!(matches!(Authority::parse("10.0.0.1"), Some(Authority::Ip(10, 0, 0, 1))));
    match Authority::parse("example.org") {
        Some(Authority::Hostname(h)) => assert_eq!("example.org", h),
        _ => panic!("expected a hostname"),
    }
    assert!(Authority::parse("").is_none());
}
