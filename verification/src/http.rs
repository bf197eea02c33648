//! HTTP/1.x request codec: methods, versions, status codes, percent
//! decoding of request paths, and request-line and header parsing.

use crate::text;
use crate::text::{comma_values, scan_to, skip_spaces, token_end, trimmed};
use vstd::prelude::*;
use vstd::string::StringSliceAdditionalSpecFns;
use vstd::string::StrSliceExecFns;
use vstd::utf8::{decode_utf8, encode_utf8, valid_utf8};

verus! {

/// The request methods the server understands.
#[derive(Debug, PartialEq, Eq, Structural, Clone, Copy)]
pub enum Method {
    GET,
    HEAD,
}

/// The HTTP protocol versions the server understands.
#[derive(Debug, PartialEq, Eq, Structural, Clone, Copy)]
pub enum Version {
    One,
    OneOne,
}

/// The status codes a response can carry.
#[derive(Debug, PartialEq, Eq, Structural, Clone, Copy)]
pub enum ResponseCode {
    Okay,
    NotFound,
    PermissionDenied,
    InternalError,
}

/// The status line fragment for each response code: numeric code and reason.
pub open spec fn code_str(c: ResponseCode) -> Seq<char> {
    match c {
        ResponseCode::Okay => "200 OK"@,
        ResponseCode::NotFound => "404 Not found"@,
        ResponseCode::PermissionDenied => "403 Forbidden"@,
        ResponseCode::InternalError => "500 Internal Server Error"@,
    }
}

impl ResponseCode {
    /// The status line fragment written after the version word.
    pub fn val(&self) -> (r: &'static str)
        ensures
            r@ == code_str(*self),
    {
        match self {
            ResponseCode::Okay => "200 OK",
            ResponseCode::NotFound => "404 Not found",
            ResponseCode::PermissionDenied => "403 Forbidden",
            ResponseCode::InternalError => "500 Internal Server Error",
        }
    }
}

/// The value of an ASCII hexadecimal digit byte, upper or lower case.
pub open spec fn hex_val(b: u8) -> Option<u8> {
    if 48 <= b <= 57 {  // '0' ..= '9'
        Some((b - 48) as u8)
    } else if 97 <= b <= 102 {  // 'a' ..= 'f'
        Some((b - 87) as u8)
    } else if 65 <= b <= 70 {  // 'A' ..= 'F'
        Some((b - 55) as u8)
    } else {
        None
    }
}

/// The bytes `s` stands for once every `%XX` escape is replaced by the byte
/// it names; `None` when a `%` is not followed by two hexadecimal digits.
pub open spec fn percent_decode(s: Seq<u8>) -> Option<Seq<u8>>
    decreases s.len(),
{
    if s.len() == 0 {
        Some(Seq::empty())
    } else if s[0] == 37 {  // '%'
        if s.len() >= 3 && hex_val(s[1]) is Some && hex_val(s[2]) is Some {
            match percent_decode(s.skip(3)) {
                Some(rest) => Some(
                    seq![(hex_val(s[1]).unwrap() * 16 + hex_val(s[2]).unwrap()) as u8] + rest,
                ),
                None => None,
            }
        } else {
            None
        }
    } else {
        match percent_decode(s.skip(1)) {
            Some(rest) => Some(seq![s[0]] + rest),
            None => None,
        }
    }
}

/// The decoded request path named by the raw bytes `s`: `s` must begin with
/// `/`, every escape must be well-formed, and the decoded bytes must be UTF-8.
pub open spec fn http_path_of(s: Seq<u8>) -> Option<Seq<char>> {
    if s.len() > 0 && s[0] == 47 {  // '/'
        match percent_decode(s) {
            Some(b) => if valid_utf8(b) {
                Some(decode_utf8(b))
            } else {
                None
            },
            None => None,
        }
    } else {
        None
    }
}

/// A request path after percent decoding.
pub struct HttpPath(pub String);

/// Relies on `String::from_utf8`: it returns `Ok` exactly on well-formed
/// UTF-8 input, and the string it returns holds exactly the given bytes.
#[verifier::external_body]
fn string_from_utf8(v: Vec<u8>) -> (r: Option<String>)
    ensures
        r is Some <==> valid_utf8(v@),
        r matches Some(s) ==> s@ == decode_utf8(v@),
{
    match String::from_utf8(v) {
        Ok(s) => Some(s),
        Err(_) => None,
    }
}

/// The value of an ASCII hexadecimal digit byte, upper or lower case.
fn hex_digit(b: u8) -> (r: Option<u8>)
    ensures
        r == hex_val(b),
{
    if 48 <= b && b <= 57 {
        Some(b - 48)
    } else if 97 <= b && b <= 102 {
        Some(b - 87)
    } else if 65 <= b && b <= 70 {
        Some(b - 55)
    } else {
        None
    }
}

/// The bytes `s` stands for once every `%XX` escape is replaced by the byte
/// it names; `None` when a `%` is not followed by two hexadecimal digits.
pub fn percent_decode_bytes(s: &[u8]) -> (r: Option<Vec<u8>>)
    ensures
        r is Some <==> percent_decode(s@) is Some,
        r matches Some(v) ==> Some(v@) == percent_decode(s@),
{
    let n = s.len();
    let mut out: Vec<u8> = Vec::new();
    let mut i: usize = 0;
    proof {
        assert(s@.skip(0) =~= s@);
        if percent_decode(s@) is Some {
            assert(Seq::<u8>::empty() + percent_decode(s@).unwrap() =~= percent_decode(
                s@,
            ).unwrap());
        }
    }
    while i < n
        invariant
            i <= n == s@.len(),
            match percent_decode(s@.skip(i as int)) {
                Some(rest) => percent_decode(s@) == Some(out@ + rest),
                None => percent_decode(s@) is None,
            },
        decreases n - i,
    {
        let ghost tail = s@.skip(i as int);
        let ghost out0 = out@;
        if s[i] == 37 {
            if n - i < 3 {
                proof {
                    assert(tail[0] == 37 && tail.len() < 3);
                }
                return None;
            }
            let h = hex_digit(s[i + 1]);
            let l = hex_digit(s[i + 2]);
            proof {
                assert(tail[0] == 37 && tail[1] == s@[i + 1] && tail[2] == s@[i + 2]);
            }
            match (h, l) {
                (Some(hv), Some(lv)) => {
                    out.push(hv * 16 + lv);
                    i = i + 3;
                    proof {
                        assert(tail.skip(3) =~= s@.skip(i as int));
                        let r3 = percent_decode(s@.skip(i as int));
                        if r3 is Some {
                            assert(percent_decode(tail) == Some(
                                seq![(hv * 16 + lv) as u8] + r3.unwrap(),
                            ));
                            assert(out0 + (seq![(hv * 16 + lv) as u8] + r3.unwrap()) =~= out@
                                + r3.unwrap());
                        } else {
                            assert(percent_decode(tail) is None);
                        }
                    }
                },
                _ => {
                    return None;
                },
            }
        } else {
            out.push(s[i]);
            i = i + 1;
            proof {
                assert(tail[0] != 37);
                assert(tail.skip(1) =~= s@.skip(i as int));
                let r1 = percent_decode(s@.skip(i as int));
                if r1 is Some {
                    assert(percent_decode(tail) == Some(seq![tail[0]] + r1.unwrap()));
                    assert(out0 + (seq![tail[0]] + r1.unwrap()) =~= out@ + r1.unwrap());
                } else {
                    assert(percent_decode(tail) is None);
                }
            }
        }
    }
    proof {
        assert(s@.skip(n as int) =~= Seq::<u8>::empty());
        assert(out@ + Seq::<u8>::empty() =~= out@);
    }
    Some(out)
}

impl HttpPath {
    /// The decoded path named by the raw bytes `s`, or `None` when `s` does
    /// not begin with `/`, holds a malformed escape, or decodes to bytes
    /// that are not UTF-8.
    pub fn from_str(s: &[u8]) -> (r: Option<HttpPath>)
        ensures
            r is Some <==> http_path_of(s@) is Some,
            r matches Some(p) ==> Some(p.0@) == http_path_of(s@),
    {
        if s.len() == 0 || s[0] != 47 {
            return None;
        }
        match percent_decode_bytes(s) {
            Some(v) => match string_from_utf8(v) {
                Some(out) => Some(HttpPath(out)),
                None => None,
            },
            None => None,
        }
    }
}

/// What `b` reads as once every byte is written as a `%XX` escape with
/// upper-case digits.
pub open spec fn percent_encode(b: Seq<u8>) -> Seq<u8>
    decreases b.len(),
{
    if b.len() == 0 {
        Seq::empty()
    } else {
        seq![37u8, hex_digit_char((b[0] / 16) as u8), hex_digit_char((b[0] % 16) as u8)]
            + percent_encode(b.skip(1))
    }
}

/// The ASCII byte for the hexadecimal digit `v`, upper case.
pub open spec fn hex_digit_char(v: u8) -> u8 {
    if v < 10 {
        (48 + v) as u8
    } else {
        (55 + v) as u8
    }
}

/// Percent decoding undoes percent encoding: a path assembled from escaped
/// bytes resolves to exactly those bytes.
pub proof fn lemma_percent_round_trip(b: Seq<u8>)
    ensures
        percent_decode(percent_encode(b)) == Some(b),
    decreases b.len(),
{
    if b.len() == 0 {
        assert(percent_encode(b) =~= Seq::<u8>::empty());
        assert(Some(b) =~= Some(Seq::<u8>::empty()));
    } else {
        lemma_percent_round_trip(b.skip(1));
        let e = percent_encode(b);
        assert(hex_val(hex_digit_char((b[0] / 16) as u8)) == Some((b[0] / 16) as u8));
        assert(hex_val(hex_digit_char((b[0] % 16) as u8)) == Some((b[0] % 16) as u8));
        assert(e.skip(3) =~= percent_encode(b.skip(1)));
        assert(e[0] == 37 && hex_val(e[1]) is Some && hex_val(e[2]) is Some);
        assert((hex_val(e[1]).unwrap() * 16 + hex_val(e[2]).unwrap()) as u8 == b[0]);
        assert(seq![b[0]] + b.skip(1) =~= b);
    }
}

/// Bytes free of `%` decode to themselves.
pub proof fn lemma_plain_bytes_decode_to_themselves(s: Seq<u8>)
    requires
        forall|i: int| 0 <= i < s.len() ==> s[i] != 37,
    ensures
        percent_decode(s) == Some(s),
    decreases s.len(),
{
    if s.len() == 0 {
        assert(Some(s) =~= Some(Seq::<u8>::empty()));
    } else {
        lemma_plain_bytes_decode_to_themselves(s.skip(1));
        assert(seq![s[0]] + s.skip(1) =~= s);
    }
}

/// What can go wrong while reading a request.
#[derive(Debug, PartialEq, Eq, Structural, Clone, Copy)]
pub enum Error {
    Io,
    Malformed,
    Missing,
    BadVersion,
    BadHeader,
    BadPath,
    ExtraWord,
    BadMethod,
}

/// The method named by a request-line token.
pub open spec fn method_of(t: Seq<char>) -> Option<Method> {
    if t == "GET"@ {
        Some(Method::GET)
    } else if t == "HEAD"@ {
        Some(Method::HEAD)
    } else {
        None
    }
}

/// The version named by a request-line token.
pub open spec fn version_of(t: Seq<char>) -> Option<Version> {
    if t == "HTTP/1.0"@ {
        Some(Version::One)
    } else if t == "HTTP/1.1"@ {
        Some(Version::OneOne)
    } else {
        None
    }
}

/// What parsing the request line `s` yields: the method, the decoded path
/// and the version, or the first error in the order the line is read.
pub open spec fn spec_parse_status(s: Seq<char>) -> Result<(Method, Seq<char>, Version), Error> {
    let a0 = skip_spaces(s, 0);
    let e0 = token_end(s, a0);
    if a0 == s.len() {
        Err(Error::Missing)
    } else {
        match method_of(s.subrange(a0, e0)) {
            None => Err(Error::BadMethod),
            Some(m) => {
                let a1 = skip_spaces(s, e0);
                let e1 = token_end(s, a1);
                if a1 == s.len() {
                    Err(Error::Missing)
                } else {
                    match http_path_of(encode_utf8(s.subrange(a1, e1))) {
                        None => Err(Error::BadPath),
                        Some(path) => {
                            let a2 = skip_spaces(s, e1);
                            let e2 = token_end(s, a2);
                            if a2 == s.len() {
                                Err(Error::Malformed)
                            } else {
                                match version_of(s.subrange(a2, e2)) {
                                    None => Err(Error::BadVersion),
                                    Some(v) => if skip_spaces(s, e2) != s.len() {
                                        Err(Error::ExtraWord)
                                    } else {
                                        Ok((m, path, v))
                                    },
                                }
                            }
                        },
                    }
                }
            },
        }
    }
}

/// What parsing one header line yields: one `(key, value)` pair per
/// comma-separated value, the key being everything before the first colon,
/// each value trimmed; a line without a colon is refused.
pub open spec fn header_pairs(line: Seq<char>) -> Result<Seq<(Seq<char>, Seq<char>)>, Error> {
    let c = scan_to(line, 0, ':', false);
    if c == line.len() {
        Err(Error::BadHeader)
    } else {
        Ok(comma_values(line, c + 1).map(|k: int, v: Seq<char>| (line.subrange(0, c), v)))
    }
}

/// What parsing the header lines yields: the pairs of every line in order,
/// or the first line's error.
pub open spec fn spec_parse_headers(lines: Seq<Seq<char>>) -> Result<
    Seq<(Seq<char>, Seq<char>)>,
    Error,
>
    decreases lines.len(),
{
    if lines.len() == 0 {
        Ok(Seq::empty())
    } else {
        match header_pairs(lines[0]) {
            Err(e) => Err(e),
            Ok(hs) => match spec_parse_headers(lines.skip(1)) {
                Err(e) => Err(e),
                Ok(rest) => Ok(hs + rest),
            },
        }
    }
}

/// What reading a whole request yields.
pub open spec fn spec_parse_request(status: Seq<char>, lines: Seq<Seq<char>>) -> Result<
    (Method, Seq<char>, Version, Seq<(Seq<char>, Seq<char>)>),
    Error,
> {
    match spec_parse_status(status) {
        Err(e) => Err(e),
        Ok((m, p, v)) => match spec_parse_headers(lines) {
            Err(e) => Err(e),
            Ok(hs) => Ok((m, p, v, hs)),
        },
    }
}

/// One parsed request.
#[derive(Debug, PartialEq)]
pub struct Request {
    pub method: Method,
    pub path: String,
    pub version: Version,
    pub headers: Vec<(String, String)>,
}

impl Request {
    /// The decoded request path.
    pub fn path(&self) -> (r: &String)
        ensures
            r@ == self.path@,
    {
        &self.path
    }

    /// The request method.
    pub fn method(&self) -> (r: Method)
        ensures
            r == self.method,
    {
        self.method
    }

    /// The request version.
    pub fn version(&self) -> (r: Version)
        ensures
            r == self.version,
    {
        self.version
    }

    /// The request read from one status line and the header lines that
    /// followed it, as `spec_parse_request` describes.
    pub fn read(status: &str, header_lines: &Vec<String>) -> (r: Result<Request, Error>)
        ensures
            match spec_parse_request(status@, header_lines.deep_view()) {
                Ok((m, p, v, hs)) => r matches Ok(req) && req.method == m && req.path@ == p
                    && req.version == v && req.headers.deep_view() == hs,
                Err(e) => r == Err::<Request, Error>(e),
            },
    {
        let n = status.unicode_len();
        let a0 = text::find_non_space(status, 0, n);
        let e0 = text::find_stop(status, a0, n, ' ', true);
        if a0 == n {
            return Err(Error::Missing);
        }
        let mtok = status.substring_char(a0, e0);
        let method = if text::str_eq(mtok, "GET") {
            Method::GET
        } else if text::str_eq(mtok, "HEAD") {
            Method::HEAD
        } else {
            return Err(Error::BadMethod);
        };
        let a1 = text::find_non_space(status, e0, n);
        let e1 = text::find_stop(status, a1, n, ' ', true);
        if a1 == n {
            return Err(Error::Missing);
        }
        let ptok = status.substring_char(a1, e1);
        let path = match HttpPath::from_str(ptok.as_bytes()) {
            Some(p) => p.0,
            None => {
                return Err(Error::BadPath);
            },
        };
        let a2 = text::find_non_space(status, e1, n);
        let e2 = text::find_stop(status, a2, n, ' ', true);
        if a2 == n {
            return Err(Error::Malformed);
        }
        let vtok = status.substring_char(a2, e2);
        let version = if text::str_eq(vtok, "HTTP/1.0") {
            Version::One
        } else if text::str_eq(vtok, "HTTP/1.1") {
            Version::OneOne
        } else {
            return Err(Error::BadVersion);
        };
        if text::find_non_space(status, e2, n) != n {
            return Err(Error::ExtraWord);
        }
        let headers = match Self::read_headers(header_lines) {
            Ok(hs) => hs,
            Err(e) => {
                return Err(e);
            },
        };
        Ok(Request { method, path, version, headers })
    }

    /// The `(key, value)` pairs of the header lines, as
    /// `spec_parse_headers` describes.
    fn read_headers(lines: &Vec<String>) -> (r: Result<Vec<(String, String)>, Error>)
        ensures
            match spec_parse_headers(lines.deep_view()) {
                Ok(hs) => r matches Ok(v) && v.deep_view() == hs,
                Err(e) => r == Err::<Vec<(String, String)>, Error>(e),
            },
    {
        let ghost dv = lines.deep_view();
        let mut acc: Vec<(String, String)> = Vec::new();
        let mut li: usize = 0;
        proof {
            assert(dv.skip(0) =~= dv);
            if spec_parse_headers(dv) is Ok {
                let hs = spec_parse_headers(dv).unwrap();
                assert(Seq::<(Seq<char>, Seq<char>)>::empty() + hs =~~= hs);
            }
        }
        while li < lines.len()
            invariant
                li <= lines.len() == dv.len(),
                dv == lines.deep_view(),
                match spec_parse_headers(dv.skip(li as int)) {
                    Ok(rest) => spec_parse_headers(dv) == Ok::<_, Error>(acc.deep_view() + rest),
                    Err(e) => spec_parse_headers(dv) == Err::<
                        Seq<(Seq<char>, Seq<char>)>,
                        Error,
                    >(e),
                },
            decreases lines.len() - li,
        {
            let ghost acc0 = acc.deep_view();
            let ghost hl = dv[li as int];
            let line: &String = &lines[li];
            proof {
                assert(line@ == hl);
            }
            let hn = line.as_str().unicode_len();
            let c = text::find_stop(line.as_str(), 0, hn, ':', false);
            if c == hn {
                return Err(Error::BadHeader);
            }
            let key = text::copy_range(line.as_str(), 0, c);
            let ghost pending = comma_values(hl, c + 1).map(
                |k: int, v: Seq<char>| (hl.subrange(0, c as int), v),
            );
            let mut j = c + 1;
            proof {
                text::lemma_scan_to(hl, 0, ':', false);
            }
            loop
                invariant_except_break
                    acc.deep_view() + comma_values(hl, j as int).map(
                        |k: int, v: Seq<char>| (hl.subrange(0, c as int), v),
                    ) =~~= acc0 + pending,
                invariant
                    c < hn == hl.len(),
                    c + 1 <= j <= hn,
                    line@ == hl,
                    key@ == hl.subrange(0, c as int),
                ensures
                    acc.deep_view() =~~= acc0 + pending,
                decreases hn - j,
            {
                let ghost accb = acc.deep_view();
                let k = text::find_stop(line.as_str(), j, hn, ',', false);
                let v = text::trim(line.as_str().substring_char(j, k));
                let ghost vv = v@;
                acc.push((key.clone(), v));
                proof {
                    let f = |q: int, w: Seq<char>| (hl.subrange(0, c as int), w);
                    let cv = comma_values(hl, j as int);
                    assert(acc.deep_view() =~~= accb + seq![(key@, vv)]);
                    assert(cv[0] == trimmed(hl.subrange(j as int, k as int)));
                    if k < hn {
                        assert(cv =~~= seq![cv[0]] + comma_values(hl, k + 1));
                        assert(accb + cv.map(f) =~~= acc.deep_view() + comma_values(
                            hl,
                            k + 1,
                        ).map(f));
                    } else {
                        assert(cv =~~= seq![cv[0]]);
                        assert(accb + cv.map(f) =~~= acc.deep_view());
                    }
                }
                if k == hn {
                    break;
                }
                j = k + 1;
            }
            li = li + 1;
            proof {
                assert(hl == dv[li - 1]);
                assert(dv.skip(li - 1)[0] == hl);
                assert(dv.skip(li - 1).skip(1) =~= dv.skip(li as int));
                assert(header_pairs(hl) == Ok::<_, Error>(pending));
                let r1 = spec_parse_headers(dv.skip(li as int));
                if r1 is Ok {
                    assert(spec_parse_headers(dv.skip(li - 1)) == Ok::<_, Error>(
                        pending + r1.unwrap(),
                    ));
                    assert(acc0 + (pending + r1.unwrap()) =~~= acc.deep_view() + r1.unwrap());
                }
            }
        }
        proof {
            assert(dv.skip(lines.len() as int) =~= Seq::<Seq<char>>::empty());
            if spec_parse_headers(dv) is Ok {
                assert(acc.deep_view() + Seq::<(Seq<char>, Seq<char>)>::empty()
                    =~~= acc.deep_view());
            }
        }
        Ok(acc)
    }
}

/// The version word at the front of a status line.
pub open spec fn version_str(v: Version) -> Seq<char> {
    match v {
        Version::One => "HTTP/1.0"@,
        Version::OneOne => "HTTP/1.1"@,
    }
}

impl Version {
    /// The version word at the front of a status line.
    pub fn as_str(&self) -> (r: &'static str)
        ensures
            r@ == version_str(*self),
    {
        match self {
            Version::One => "HTTP/1.0",
            Version::OneOne => "HTTP/1.1",
        }
    }
}

/// The decimal digit character for `d`.
pub open spec fn digit_char(d: int) -> char {
    ((48 + d) as u8) as char
}

/// The decimal notation of `n`, most significant digit first.
pub open spec fn dec_str(n: int) -> Seq<char>
    decreases n,
    when n >= 0
{
    if n < 10 {
        seq![digit_char(n)]
    } else {
        dec_str(n / 10) + seq![digit_char(n % 10)]
    }
}

/// The one-character string for the decimal digit `d`.
fn digit_str(d: u64) -> (r: &'static str)
    requires
        d < 10,
    ensures
        r@ == seq![digit_char(d as int)],
{
    proof {
        reveal_strlit("0");
        reveal_strlit("1");
        reveal_strlit("2");
        reveal_strlit("3");
        reveal_strlit("4");
        reveal_strlit("5");
        reveal_strlit("6");
        reveal_strlit("7");
        reveal_strlit("8");
        reveal_strlit("9");
    }
    let r: &'static str = match d {
        0 => "0",
        1 => "1",
        2 => "2",
        3 => "3",
        4 => "4",
        5 => "5",
        6 => "6",
        7 => "7",
        8 => "8",
        _ => "9",
    };
    proof {
        assert(r@ =~= seq![digit_char(d as int)]);
    }
    r
}

/// Appends the decimal notation of `n`.
pub fn append_u64(out: &mut String, n: u64)
    ensures
        final(out)@ == old(out)@ + dec_str(n as int),
    decreases n,
{
    if n < 10 {
        out.append(digit_str(n));
    } else {
        append_u64(out, n / 10);
        out.append(digit_str(n % 10));
        proof {
            assert(old(out)@ + (dec_str(n as int / 10) + seq![digit_char(n as int % 10)])
                =~= (old(out)@ + dec_str(n as int / 10)) + seq![digit_char(n as int % 10)]);
        }
    }
}

/// A response body: in-memory text, a file of a known byte length whose
/// bytes the caller streams after the rendered head, or nothing.
pub enum Body {
    Text(String),
    File(u64),
    Empty,
}

/// The byte length announced in `Content-Length`.
pub open spec fn body_len(b: Body) -> u64 {
    match b {
        Body::Text(s) => (vstd::utf8::encode_utf8(s@).len() as usize) as u64,
        Body::File(n) => n,
        Body::Empty => 0,
    }
}

/// The text a `Text` body contributes after the head; files are streamed
/// by the caller and contribute nothing here.
pub open spec fn body_text(b: Body) -> Seq<char> {
    match b {
        Body::Text(s) => s@,
        Body::File(n) => Seq::empty(),
        Body::Empty => Seq::empty(),
    }
}

impl Body {
    /// The byte length announced in `Content-Length`.
    pub fn len(&self) -> (r: u64)
        ensures
            r == body_len(*self),
    {
        match self {
            Body::Text(s) => s.as_str().len() as u64,
            Body::File(n) => *n,
            Body::Empty => 0,
        }
    }
}

/// The header block of a response: one `key: value` line per pair.
pub open spec fn headers_text(hs: Seq<(String, String)>) -> Seq<char>
    decreases hs.len(),
{
    if hs.len() == 0 {
        Seq::empty()
    } else {
        hs[0].0@ + ": "@ + hs[0].1@ + "\r\n"@ + headers_text(hs.skip(1))
    }
}

/// The whole head of a response: status line, `Content-Length`, the other
/// headers, and the blank line.
pub open spec fn render_head(
    version: Version,
    code: ResponseCode,
    len: u64,
    hs: Seq<(String, String)>,
) -> Seq<char> {
    version_str(version) + " "@ + code_str(code) + "\r\n"@ + "Content-Length: "@ + dec_str(
        len as int,
    ) + "\r\n"@ + headers_text(hs) + "\r\n"@
}

/// One response about to be written: status, headers and body, plus
/// whether the request was `HEAD` and the body is therefore withheld.
pub struct Response {
    pub version: Version,
    pub code: ResponseCode,
    pub headers: Vec<(String, String)>,
    pub head: bool,
    pub body: Body,
}

/// Everything `write` renders: the head, then the text body unless the
/// response answers a `HEAD` request. File bytes are streamed by the
/// caller after the rendered text.
pub open spec fn render_response(r: Response) -> Seq<char> {
    render_head(r.version, r.code, body_len(r.body), r.headers@) + if r.head {
        Seq::<char>::empty()
    } else {
        body_text(r.body)
    }
}

impl Response {
    /// A response carrying `body` with the given status line and headers.
    pub fn new(
        code: ResponseCode,
        version: Version,
        headers: Vec<(String, String)>,
        head: bool,
        body: Body,
    ) -> (r: Response)
        ensures
            r == (Response { code, version, headers, head, body }),
    {
        Response { version, code, headers, head, body }
    }

    /// The rendered response, as `render_response` describes.
    pub fn write(&self) -> (out: String)
        ensures
            out@ == render_response(*self),
    {
        let mut out = String::new();
        out.append(self.version.as_str());
        out.append(" ");
        out.append(self.code.val());
        out.append("\r\n");
        out.append("Content-Length: ");
        append_u64(&mut out, self.body.len());
        out.append("\r\n");
        let ghost pre = out@;
        let n = self.headers.len();
        let mut i: usize = 0;
        proof {
            assert(self.headers@.skip(0) =~= self.headers@);
        }
        while i < n
            invariant
                i <= n == self.headers@.len(),
                out@ + headers_text(self.headers@.skip(i as int)) =~= pre + headers_text(
                    self.headers@,
                ),
            decreases n - i,
        {
            let ghost before = out@;
            let pair = &self.headers[i];
            out.append(pair.0.as_str());
            out.append(": ");
            out.append(pair.1.as_str());
            out.append("\r\n");
            i = i + 1;
            proof {
                let hs = self.headers@;
                assert(hs.skip(i - 1)[0] == hs[i - 1]);
                assert(hs.skip(i - 1).skip(1) =~= hs.skip(i as int));
                assert(out@ + headers_text(hs.skip(i as int)) =~= before + headers_text(
                    hs.skip(i - 1),
                ));
            }
        }
        proof {
            assert(self.headers@.skip(n as int) =~= Seq::<(String, String)>::empty());
        }
        out.append("\r\n");
        if !self.head {
            match &self.body {
                Body::Text(s) => {
                    out.append(s.as_str());
                },
                Body::File(_) => {},
                Body::Empty => {},
            }
        }
        proof {
            assert(out@ =~= render_response(*self));
        }
        out
    }
}

/// For every response, the answer to `HEAD` carries the same status line,
/// the same `Content-Length` and the same headers as the answer to `GET`,
/// and not one byte of body text.
pub proof fn lemma_head_equivalence(get: Response, head: Response)
    requires
        head.version == get.version,
        head.code == get.code,
        head.headers == get.headers,
        head.body == get.body,
        !get.head,
        head.head,
    ensures
        render_response(head) == render_head(
            get.version,
            get.code,
            body_len(get.body),
            get.headers@,
        ),
        render_response(get) == render_response(head) + body_text(get.body),
{
    assert(render_response(head) =~= render_head(
        get.version,
        get.code,
        body_len(get.body),
        get.headers@,
    ));
    assert(render_response(get) =~= render_response(head) + body_text(get.body));
}

} // verus!
