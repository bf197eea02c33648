//! The client worker's decisions: the connection's HTTP version and the
//! ALPN byte that carries it, index-file probing for directory requests,
//! the HTML directory listing, the mapping from filesystem errors to
//! status codes, and the assembly of one response.

use crate::fs::{FileError, FileInfo, OpenResponse};
use crate::http::{Body, Response, ResponseCode, Version};
use crate::mime::{db_map, ext_of, MimeDb};
use vstd::prelude::*;
use vstd::string::StringExecFns;
use vstd::string::StrSliceExecFns;
use vstd::utf8::encode_utf8;

verus! {

/// How many seconds a keep-alive connection may sit idle before it is
/// dropped without a response.
pub const KEEPALIVE_SECS: u64 = 60;

/// What the manager tells the client worker at startup.
#[derive(Debug, PartialEq, Eq, Structural, Clone, Copy)]
pub struct ClientConfig {
    pub tls: bool,
}

/// The protocol version a connection starts in: fixed by the ALPN byte on
/// TLS connections, unknown until the first request on plain ones.
#[derive(Debug, PartialEq, Eq, Structural, Clone, Copy)]
pub enum HttpVersion {
    One,
    OneOne,
    Unknown,
}

impl HttpVersion {
    /// The version named by one ALPN byte, if any.
    pub fn from_byte(b: u8) -> (r: Option<HttpVersion>)
        ensures
            b == 0 ==> r == Some(HttpVersion::One),
            b == 1 ==> r == Some(HttpVersion::OneOne),
            b == 2 ==> r == Some(HttpVersion::Unknown),
            b > 2 ==> r is None,
    {
        match b {
            0 => Some(HttpVersion::One),
            1 => Some(HttpVersion::OneOne),
            2 => Some(HttpVersion::Unknown),
            _ => None,
        }
    }

    /// The byte that names this version.
    pub fn to_byte(self) -> (r: u8)
        ensures
            self is One ==> r == 0,
            self is OneOne ==> r == 1,
            self is Unknown ==> r == 2,
    {
        match self {
            HttpVersion::One => 0,
            HttpVersion::OneOne => 1,
            HttpVersion::Unknown => 2,
        }
    }

    /// The connection version a parsed request version amounts to.
    pub fn from(source: Version) -> (r: HttpVersion)
        ensures
            source is One ==> r == HttpVersion::One,
            source is OneOne ==> r == HttpVersion::OneOne,
    {
        match source {
            Version::One => HttpVersion::One,
            Version::OneOne => HttpVersion::OneOne,
        }
    }
}

/// The connection version a negotiated ALPN protocol names: the two known
/// protocols name themselves, and an absent or unrecognized protocol
/// leaves the version unknown.
pub open spec fn alpn_version(alpn: Option<Seq<u8>>) -> HttpVersion {
    if alpn == Some(encode_utf8("http/1.0"@)) {
        HttpVersion::One
    } else if alpn == Some(encode_utf8("http/1.1"@)) {
        HttpVersion::OneOne
    } else {
        HttpVersion::Unknown
    }
}

/// Whether two byte slices hold the same bytes.
fn bytes_eq(a: &[u8], b: &[u8]) -> (r: bool)
    ensures
        r == (a@ == b@),
{
    if a.len() != b.len() {
        return false;
    }
    let n = a.len();
    let mut i: usize = 0;
    while i < n
        invariant
            i <= n == a@.len() && n == b@.len(),
            forall|k: int| 0 <= k < i ==> a@[k] == b@[k],
        decreases n - i,
    {
        if a[i] != b[i] {
            return false;
        }
        i = i + 1;
    }
    proof {
        assert(a@ =~= b@);
    }
    true
}

/// The version the crypto worker announces for a negotiated ALPN
/// protocol, as `alpn_version` says; `to_byte` turns it into the first
/// plaintext byte.
pub fn version_of_alpn(alpn: Option<&[u8]>) -> (r: HttpVersion)
    ensures
        match alpn {
            Some(b) => r == alpn_version(Some(b@)),
            None => r == alpn_version(None),
        },
{
    match alpn {
        Some(b) => {
            if bytes_eq(b, "http/1.0".as_bytes()) {
                HttpVersion::One
            } else if bytes_eq(b, "http/1.1".as_bytes()) {
                HttpVersion::OneOne
            } else {
                HttpVersion::Unknown
            }
        },
        None => HttpVersion::Unknown,
    }
}

/// Whether the connection stays open for another request: HTTP/1.1
/// connections do, and a connection of unknown version follows the
/// version of the request itself.
pub fn keep_alive(conn: HttpVersion, req: Version) -> (r: bool)
    ensures
        r == (conn is OneOne || (conn is Unknown && req is OneOne)),
{
    match conn {
        HttpVersion::One => false,
        HttpVersion::OneOne => true,
        HttpVersion::Unknown => match req {
            Version::One => false,
            Version::OneOne => true,
        },
    }
}

/// Whether `path` asks for a directory.
pub open spec fn is_dir_request(path: Seq<char>) -> bool {
    path.len() > 0 && path.last() == '/'
}

/// The path asked of the filesystem first: a directory request probes its
/// index file, any other request its own path.
pub open spec fn first_probe_spec(path: Seq<char>) -> Seq<char> {
    if is_dir_request(path) {
        path + "index.html"@
    } else {
        path
    }
}

/// The path asked of the filesystem first, as `first_probe_spec` says.
pub fn first_probe(path: &str) -> (r: String)
    ensures
        r@ == first_probe_spec(path@),
{
    let n = path.unicode_len();
    if n > 0 && path.get_char(n - 1) == '/' {
        let mut s = path.to_owned();
        s.append("index.html");
        s
    } else {
        path.to_owned()
    }
}

/// The second path to ask, if the first reply does not settle the
/// request: only a directory request whose index probe yielded no regular
/// file is re-asked under its own path.
pub open spec fn second_probe_spec(path: Seq<char>, first: OpenResponse) -> Option<Seq<char>> {
    if is_dir_request(path) && !(first is File) {
        Some(path)
    } else {
        None
    }
}

/// The second path to ask, as `second_probe_spec` says.
pub fn second_probe(path: &str, first: &OpenResponse) -> (r: Option<String>)
    ensures
        match second_probe_spec(path@, *first) {
            Some(p) => r matches Some(s) && s@ == p,
            None => r is None,
        },
{
    let n = path.unicode_len();
    if n > 0 && path.get_char(n - 1) == '/' {
        match first {
            OpenResponse::File(_) => None,
            _ => Some(path.to_owned()),
        }
    } else {
        None
    }
}

/// A directory request for `p` first probes `p + "index.html"`; a regular
/// file found there settles the request and the filesystem is not asked
/// again, while any other reply sends the request back under `p` itself.
pub proof fn lemma_directory_redirect(path: Seq<char>, first: OpenResponse)
    requires
        is_dir_request(path),
    ensures
        first_probe_spec(path) == path + "index.html"@,
        first is File ==> second_probe_spec(path, first) is None,
        !(first is File) ==> second_probe_spec(path, first) == Some(path),
{
}

/// The body of one listing line: `<a href=NAME/>NAME</a>` and a newline
/// for each entry.
pub open spec fn listing_entries(es: Seq<FileInfo>) -> Seq<char>
    decreases es.len(),
{
    if es.len() == 0 {
        Seq::empty()
    } else {
        "<a href="@ + es[0].name@ + "/>"@ + es[0].name@ + "</a>\n"@ + listing_entries(es.skip(1))
    }
}

/// The whole HTML listing synthesized for a directory.
pub open spec fn dir_listing_text(es: Seq<FileInfo>) -> Seq<char> {
    "<!DOCTYPE html>\n<html>\n<body>\n<pre>\n"@ + "<a href=../>../</a>\n"@ + listing_entries(es)
        + "</pre>\n</body>\n</html>\n"@
}

/// The HTML listing synthesized for a directory, as `dir_listing_text`
/// says.
pub fn dir_listing(entries: &Vec<FileInfo>) -> (r: String)
    ensures
        r@ == dir_listing_text(entries@),
{
    let mut out = String::new();
    out.append("<!DOCTYPE html>\n<html>\n<body>\n<pre>\n");
    out.append("<a href=../>../</a>\n");
    let ghost pre = out@;
    let n = entries.len();
    let mut i: usize = 0;
    proof {
        assert(entries@.skip(0) =~= entries@);
    }
    while i < n
        invariant
            i <= n == entries@.len(),
            out@ + listing_entries(entries@.skip(i as int)) =~= pre + listing_entries(entries@),
        decreases n - i,
    {
        let ghost before = out@;
        let name = &entries[i].name;
        out.append("<a href=");
        out.append(name.as_str());
        out.append("/>");
        out.append(name.as_str());
        out.append("</a>\n");
        i = i + 1;
        proof {
            let es = entries@;
            assert(es.skip(i - 1)[0] == es[i - 1]);
            assert(es.skip(i - 1).skip(1) =~= es.skip(i as int));
            assert(out@ + listing_entries(es.skip(i as int)) =~= before + listing_entries(
                es.skip(i - 1),
            ));
        }
    }
    proof {
        assert(entries@.skip(n as int) =~= Seq::<FileInfo>::empty());
    }
    out.append("</pre>\n</body>\n</html>\n");
    proof {
        assert(out@ =~= dir_listing_text(entries@));
    }
    out
}

/// The status code reported for one filesystem error.
pub open spec fn code_of_error_spec(e: FileError) -> ResponseCode {
    match e {
        FileError::NotFound => ResponseCode::NotFound,
        FileError::NotAllowed => ResponseCode::PermissionDenied,
        FileError::SpecialFile => ResponseCode::InternalError,
        FileError::Io => ResponseCode::InternalError,
    }
}

/// The status code reported for one filesystem error, as
/// `code_of_error_spec` says.
pub fn code_of_error(e: FileError) -> (r: ResponseCode)
    ensures
        r == code_of_error_spec(e),
{
    match e {
        FileError::NotFound => ResponseCode::NotFound,
        FileError::NotAllowed => ResponseCode::PermissionDenied,
        FileError::SpecialFile => ResponseCode::InternalError,
        FileError::Io => ResponseCode::InternalError,
    }
}

/// If the location that claims a path is blocked, the answer is 403
/// whatever is on disk: the denied verdict turns into
/// `PermissionDenied`, and the verdict itself never reads the disk.
pub proof fn lemma_blocked_is_403(locs: Seq<crate::fs::Location>, path: Seq<char>, i: int)
    requires
        crate::fs::matching_spec(locs, path) == Some(i),
        0 <= i < locs.len(),
        locs[i].blocked,
    ensures
        crate::fs::allow_spec(locs, path) == Err::<(), FileError>(FileError::NotAllowed),
        code_of_error_spec(FileError::NotAllowed) == ResponseCode::PermissionDenied,
{
    crate::fs::lemma_blocked_dominance(locs, path, i);
}

/// The media type served for `name`: the table's entry for its extension,
/// or `application/octet-stream` without one.
pub open spec fn mime_for(db: Seq<(String, String)>, name: Seq<char>) -> Seq<char> {
    match ext_of(name) {
        Some(e) => if db_map(db).contains_key(e) {
            db_map(db)[e]
        } else {
            "application/octet-stream"@
        },
        None => "application/octet-stream"@,
    }
}

/// The response owed for one filesystem reply: a found file is served with
/// its length and media type, a directory as its HTML listing, and an
/// error as its status code with an empty body. `file_len` is the served
/// file's length from `fstat`, owed exactly when the reply is a file.
pub fn respond(
    resp: &OpenResponse,
    file_len: Option<u64>,
    version: Version,
    head: bool,
    db: &MimeDb,
) -> (r: Response)
    requires
        resp is File ==> file_len is Some,
    ensures
        r.version == version,
        r.head == head,
        resp matches OpenResponse::File(info) ==> {
            &&& r.code == ResponseCode::Okay
            &&& r.body == Body::File(file_len.unwrap())
            &&& r.headers@.len() == 1
            &&& r.headers@[0].0@ == "Content-Type"@
            &&& r.headers@[0].1@ == mime_for(db.0@, info.name@)
        },
        resp matches OpenResponse::Dir(es) ==> {
            &&& r.code == ResponseCode::Okay
            &&& (r.body matches Body::Text(s) && s@ == dir_listing_text(es@))
            &&& r.headers@.len() == 1
            &&& r.headers@[0].0@ == "Content-Type"@
            &&& r.headers@[0].1@ == "text/html"@
        },
        resp matches OpenResponse::FileError(e) ==> {
            &&& r.code == code_of_error_spec(*e)
            &&& r.body is Empty
            &&& r.headers@.len() == 0
        },
{
    match resp {
        OpenResponse::File(info) => {
            let kind: String = match db.get(info.name.as_str()) {
                Some(k) => k.to_owned(),
                None => {
                    let s: &str = "application/octet-stream";
                    s.to_owned()
                },
            };
            let mut headers: Vec<(String, String)> = Vec::new();
            let ct: &str = "Content-Type";
            headers.push((ct.to_owned(), kind));
            Response::new(
                ResponseCode::Okay,
                version,
                headers,
                head,
                Body::File(file_len.unwrap()),
            )
        },
        OpenResponse::Dir(es) => {
            let text = dir_listing(es);
            let mut headers: Vec<(String, String)> = Vec::new();
            let ct: &str = "Content-Type";
            let th: &str = "text/html";
            headers.push((ct.to_owned(), th.to_owned()));
            Response::new(ResponseCode::Okay, version, headers, head, Body::Text(text))
        },
        OpenResponse::FileError(e) => {
            let headers: Vec<(String, String)> = Vec::new();
            Response::new(code_of_error(*e), version, headers, head, Body::Empty)
        },
    }
}

} // verus!
