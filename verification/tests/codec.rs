use httpd::http::{Error, HttpPath, Method, Request, ResponseCode, Version};

#[test]
fn header() {
    let buf = "GET /%20 HTTP/1.1\r\n";
    let status = buf.lines().next().unwrap();
    let found = Request::read(status, &vec![]).unwrap();

    let wanted = Request {
        method: Method::GET,
        version: Version::OneOne,
        path: "/ ".into(),
        headers: vec![],
    };
    assert_eq!(found, wanted);
}

#[test]
fn header_fields_collected_in_order() {
    let lines = vec![
        "Host: example".to_string(),
        "Accept: text/html, text/plain".to_string(),
    ];
    let req = Request::read("GET / HTTP/1.1", &lines).unwrap();
    assert_eq!(
        req.headers,
        vec![
            ("Host".to_string(), "example".to_string()),
            ("Accept".to_string(), "text/html".to_string()),
            ("Accept".to_string(), "text/plain".to_string()),
        ]
    );
}

#[test]
fn request_errors() {
    assert_eq!(Request::read("", &vec![]), Err(Error::Missing));
    assert_eq!(Request::read("   ", &vec![]), Err(Error::Missing));
    assert_eq!(Request::read("PUT / HTTP/1.1", &vec![]), Err(Error::BadMethod));
    assert_eq!(Request::read("GET", &vec![]), Err(Error::Missing));
    assert_eq!(Request::read("GET nopath HTTP/1.1", &vec![]), Err(Error::BadPath));
    assert_eq!(Request::read("GET /%zz HTTP/1.1", &vec![]), Err(Error::BadPath));
    assert_eq!(Request::read("GET /", &vec![]), Err(Error::Malformed));
    assert_eq!(Request::read("GET / HTTP/2.0", &vec![]), Err(Error::BadVersion));
    assert_eq!(Request::read("GET / HTTP/1.1 junk", &vec![]), Err(Error::ExtraWord));
    let lines = vec!["NoColonHere".to_string()];
    assert_eq!(Request::read("GET / HTTP/1.1", &lines), Err(Error::BadHeader));
}

#[test]
fn percent_decoding() {
    assert_eq!(HttpPath::from_str(b"/%41").unwrap().0, "/A");
    assert_eq!(HttpPath::from_str(b"/%4a%4B").unwrap().0, "/JK");
    assert_eq!(HttpPath::from_str(b"/plain").unwrap().0, "/plain");
    assert!(HttpPath::from_str(b"nope").is_none());
    assert!(HttpPath::from_str(b"/%4").is_none());
    assert!(HttpPath::from_str(b"/%4g").is_none());
    assert!(HttpPath::from_str(b"/%ff").is_none());
}

#[test]
fn percent_decoding_multibyte() {
    // decoded bytes form UTF-8; unchanged escapes would not
    assert_eq!(HttpPath::from_str(b"/%C3%A9").unwrap().0, "/\u{e9}");
}

#[test]
fn request_accessors() {
    let req = Request::read("HEAD /x HTTP/1.0", &vec![]).unwrap();
    assert_eq!(req.method(), Method::HEAD);
    assert_eq!(req.path(), "/x");
    assert_eq!(req.version(), Version::One);
}

#[test]
fn response_code_words() {
    assert_eq!(ResponseCode::Okay.val(), "200 OK");
    assert_eq!(ResponseCode::NotFound.val(), "404 Not found");
    assert_eq!(ResponseCode::PermissionDenied.val(), "403 Forbidden");
    assert_eq!(ResponseCode::InternalError.val(), "500 Internal Server Error");
}

#[test]
fn content_length_rendering() {
    let mut s = String::new();
    httpd::http::append_u64(&mut s, 0);
    assert_eq!(s, "0");
    let mut s = String::new();
    httpd::http::append_u64(&mut s, 1234);
    assert_eq!(s, "1234");
    let mut s = String::new();
    httpd::http::append_u64(&mut s, u64::MAX);
    assert_eq!(s, "18446744073709551615");
}
