use vstd::prelude::*;
use vstd::string::*;
use vstd::utf8::*;

use crate::error::{ConfigIssue, CryptoFailure, KayaError};
use crate::text::{ends_with, has_prefix, has_suffix, lines_of, same_text, split_lines, strip_prefix};
use crate::vault::{base64_decode, base64_of};

verus! {

/// An inbound message as the host sends it: a discriminator and the
/// optional fields of every handler.
pub struct IncomingMessage {
    pub id: Option<u64>,
    pub message: String,
    pub filename: Option<String>,
    pub content_type: Option<String>,
    pub text: Option<String>,
    pub base64: Option<String>,
    pub server: Option<String>,
    pub email: Option<String>,
    pub password: Option<String>,
}

/// The reply to one inbound message.
pub struct OutgoingMessage {
    pub id: Option<u64>,
    pub success: bool,
    pub error: Option<String>,
    pub urls: Option<Vec<String>>,
    pub message_type: Option<String>,
}

/// A validated request, carrying only what its handler needs.
pub enum Request {
    /// Replace the settings with these credentials.
    Config { server: Option<String>, email: Option<String>, password: Option<String> },
    /// Write `content` to the content collection under `filename`.
    Anga { filename: String, content: Vec<u8> },
    /// Write `text` to the metadata collection under `filename`.
    Meta { filename: String, text: String },
}

/// The view of an optional string.
pub open spec fn opt_view(o: Option<String>) -> Option<Seq<char>> {
    match o {
        Some(s) => Some(s@),
        None => None,
    }
}

/// What routing a message yields, over views: `Ok` holds the request kind
/// with its fields.
pub enum Routed {
    Config(Option<Seq<char>>, Option<Seq<char>>, Option<Seq<char>>),
    Anga(Seq<char>, Seq<u8>),
    Meta(Seq<char>, Seq<char>),
}

/// The view of a request.
pub open spec fn request_view(r: Request) -> Routed {
    match r {
        Request::Config { server, email, password } => Routed::Config(
            opt_view(server),
            opt_view(email),
            opt_view(password),
        ),
        Request::Anga { filename, content } => Routed::Anga(filename@, content@),
        Request::Meta { filename, text } => Routed::Meta(filename@, text@),
    }
}

/// The payload of a content write, selected by its content-type tag.
pub open spec fn anga_payload(m: IncomingMessage) -> Result<Seq<u8>, KayaError> {
    match m.content_type {
        Some(t) => if t@ == "base64"@ {
            match m.base64 {
                None => Err(KayaError::Config(ConfigIssue::MissingBase64)),
                Some(b) => if exists|bytes: Seq<u8>| #[trigger] base64_of(bytes) == b@ {
                    Ok(choose|bytes: Seq<u8>| #[trigger] base64_of(bytes) == b@)
                } else {
                    Err(KayaError::Base64)
                },
            }
        } else if t@ == "text"@ {
            match m.text {
                None => Err(KayaError::Config(ConfigIssue::MissingText)),
                Some(x) => Ok(encode_utf8(x@)),
            }
        } else {
            Err(KayaError::Config(ConfigIssue::UnknownContentType(t)))
        },
        None => match m.text {
            None => Err(KayaError::Config(ConfigIssue::MissingText)),
            Some(x) => Ok(encode_utf8(x@)),
        },
    }
}

/// How a message is routed.
pub open spec fn routing(m: IncomingMessage) -> Result<Routed, KayaError> {
    if m.message@ == "config"@ {
        Ok(Routed::Config(opt_view(m.server), opt_view(m.email), opt_view(m.password)))
    } else if m.message@ == "anga"@ {
        match m.filename {
            None => Err(KayaError::Config(ConfigIssue::MissingFilename)),
            Some(f) => match anga_payload(m) {
                Ok(c) => Ok(Routed::Anga(f@, c)),
                Err(e) => Err(e),
            },
        }
    } else if m.message@ == "meta"@ {
        match (m.filename, m.text) {
            (None, _) => Err(KayaError::Config(ConfigIssue::MissingFilename)),
            (Some(_), None) => Err(KayaError::Config(ConfigIssue::MissingText)),
            (Some(f), Some(t)) => Ok(Routed::Meta(f@, t@)),
        }
    } else {
        Err(KayaError::Config(ConfigIssue::UnknownMessage(m.message)))
    }
}

/// The view of a routing result.
pub open spec fn route_view(r: Result<Request, KayaError>) -> Result<Routed, KayaError> {
    match r {
        Ok(q) => Ok(request_view(q)),
        Err(e) => Err(e),
    }
}

fn clone_opt(o: &Option<String>) -> (r: Option<String>)
    ensures
        r == *o,
{
    match o {
        Some(s) => Some(s.clone()),
        None => None,
    }
}

fn utf8_bytes(s: &String) -> (r: Vec<u8>)
    ensures
        r@ == encode_utf8(s@),
{
    let b = s.as_str().as_bytes();
    let mut v: Vec<u8> = Vec::new();
    let mut i: usize = 0;
    while i < b.len()
        invariant
            i <= b@.len(),
            v@ == b@.subrange(0, i as int),
        decreases b@.len() - i,
    {
        v.push(b[i]);
        i += 1;
    }
    assert(v@ =~= b@);
    v
}

/// The payload of a content write: `"base64"` decodes the inline base64
/// field, `"text"` or no tag takes the inline text, any other tag is refused.
pub fn anga_content(m: &IncomingMessage) -> (r: Result<Vec<u8>, KayaError>)
    ensures
        match (r, anga_payload(*m)) {
            (Ok(v), Ok(c)) => v@ == c,
            (Err(e), Err(f)) => e == f,
            _ => false,
        },
{
    match &m.content_type {
        Some(t) => {
            if same_text(t.as_str(), "base64") {
                return match &m.base64 {
                    None => Err(KayaError::Config(ConfigIssue::MissingBase64)),
                    Some(b) => match base64_decode(b.as_str()) {
                        Some(bytes) => Ok(bytes),
                        None => Err(KayaError::Base64),
                    },
                };
            }
            if !same_text(t.as_str(), "text") {
                return Err(KayaError::Config(ConfigIssue::UnknownContentType(t.clone())));
            }
        },
        None => {},
    }
    match &m.text {
        None => Err(KayaError::Config(ConfigIssue::MissingText)),
        Some(x) => Ok(utf8_bytes(x)),
    }
}

/// Validates an inbound message and turns it into a request for its handler.
pub fn route(m: &IncomingMessage) -> (r: Result<Request, KayaError>)
    ensures
        route_view(r) == routing(*m),
{
    if same_text(m.message.as_str(), "config") {
        Ok(
            Request::Config {
                server: clone_opt(&m.server),
                email: clone_opt(&m.email),
                password: clone_opt(&m.password),
            },
        )
    } else if same_text(m.message.as_str(), "anga") {
        let filename = match &m.filename {
            None => return Err(KayaError::Config(ConfigIssue::MissingFilename)),
            Some(f) => f.clone(),
        };
        match anga_content(m) {
            Ok(content) => Ok(Request::Anga { filename, content }),
            Err(e) => Err(e),
        }
    } else if same_text(m.message.as_str(), "meta") {
        let filename = match &m.filename {
            None => return Err(KayaError::Config(ConfigIssue::MissingFilename)),
            Some(f) => f.clone(),
        };
        match &m.text {
            None => Err(KayaError::Config(ConfigIssue::MissingText)),
            Some(t) => Ok(Request::Meta { filename, text: t.clone() }),
        }
    } else {
        Err(KayaError::Config(ConfigIssue::UnknownMessage(m.message.clone())))
    }
}

/// The URL lines of a bookmark file's lines: each line that starts with
/// `URL=`, without that marker, in order.
pub open spec fn bookmark_lines(ls: Seq<Seq<char>>) -> Seq<Seq<char>>
    decreases ls.len(),
{
    if ls.len() == 0 {
        Seq::empty()
    } else if has_prefix(ls.last(), "URL="@) {
        bookmark_lines(ls.drop_last()).push(ls.last().subrange("URL="@.len() as int, ls.last().len() as int))
    } else {
        bookmark_lines(ls.drop_last())
    }
}

/// The bookmarked URLs that one bookmark file holds.
pub fn bookmark_urls(content: &str) -> (r: Vec<String>)
    ensures
        r@.map_values(|u: String| u@) == bookmark_lines(lines_of(content@)),
{
    let lines = split_lines(content);
    let ghost ls = lines_of(content@);
    let mut r: Vec<String> = Vec::new();
    let mut i: usize = 0;
    while i < lines.len()
        invariant
            i <= lines@.len(),
            lines@.len() == ls.len(),
            ls == lines_of(content@),
            forall|j: int| 0 <= j < lines@.len() ==> #[trigger] lines@[j]@ == ls[j],
            r@.map_values(|u: String| u@) == bookmark_lines(ls.subrange(0, i as int)),
        decreases lines@.len() - i,
    {
        let ghost pre = ls.subrange(0, i as int);
        let ghost post = ls.subrange(0, i as int + 1);
        assert(post.drop_last() =~= pre);
        assert(post.last() == lines@[i as int]@);
        match strip_prefix(lines[i].as_str(), "URL=") {
            Some(rest) => {
                let ghost before = r@;
                r.push(rest.to_owned());
                assert(rest@ =~= post.last().subrange("URL="@.len() as int, post.last().len() as int));
                assert(r@.map_values(|u: String| u@) =~= before.map_values(|u: String| u@).push(rest@));
            },
            None => {},
        }
        i += 1;
    }
    assert(ls.subrange(0, ls.len() as int) =~= ls);
    r
}

/// A file of the content collection whose extension is `url` holds bookmarks.
pub fn is_bookmark_file(name: &str) -> (r: bool)
    ensures
        r == (has_suffix(name@, ".url"@) && name@ != ".url"@),
{
    ends_with(name, ".url") && !same_text(name, ".url")
}

/// The character of a decimal digit.
pub open spec fn digit_char(d: int) -> char {
    if d == 0 {
        '0'
    } else if d == 1 {
        '1'
    } else if d == 2 {
        '2'
    } else if d == 3 {
        '3'
    } else if d == 4 {
        '4'
    } else if d == 5 {
        '5'
    } else if d == 6 {
        '6'
    } else if d == 7 {
        '7'
    } else if d == 8 {
        '8'
    } else {
        '9'
    }
}

/// The decimal text of `n`, without leading zeros.
pub open spec fn decimal_of(n: nat) -> Seq<char>
    decreases n,
{
    if n < 10 {
        seq![digit_char(n as int)]
    } else {
        decimal_of(n / 10).push(digit_char((n % 10) as int))
    }
}

fn digit_text(d: u32) -> (r: &'static str)
    requires
        d < 10,
    ensures
        r@ == seq![digit_char(d as int)],
{
    proof {
        reveal_strlit("0");
        reveal_strlit("1");
        reveal_strlit("2");
        reveal_strlit("3");
        reveal_strlit("4");
        reveal_strlit("5");
        reveal_strlit("6");
        reveal_strlit("7");
        reveal_strlit("8");
        reveal_strlit("9");
    }
    let r = if d == 0 {
        "0"
    } else if d == 1 {
        "1"
    } else if d == 2 {
        "2"
    } else if d == 3 {
        "3"
    } else if d == 4 {
        "4"
    } else if d == 5 {
        "5"
    } else if d == 6 {
        "6"
    } else if d == 7 {
        "7"
    } else if d == 8 {
        "8"
    } else {
        "9"
    };
    assert(r@ =~= seq![digit_char(d as int)]);
    r
}

/// The decimal text of `n`.
pub fn decimal(n: u32) -> (r: String)
    ensures
        r@ == decimal_of(n as nat),
    decreases n,
{
    if n < 10 {
        digit_text(n).to_owned()
    } else {
        let mut s = decimal(n / 10);
        s.append(digit_text(n % 10));
        assert(s@ =~= decimal_of(n as nat));
        s
    }
}

/// The text of a validation failure.
pub open spec fn issue_text(i: ConfigIssue) -> Seq<char> {
    match i {
        ConfigIssue::MissingFilename => "Missing filename"@,
        ConfigIssue::MissingBase64 => "Missing base64 content"@,
        ConfigIssue::MissingText => "Missing text content"@,
        ConfigIssue::UnknownContentType(t) => "Unknown content type: "@ + t@,
        ConfigIssue::UnknownMessage(t) => "Unknown message type: "@ + t@,
        ConfigIssue::InvalidMessageLength(n) => "Invalid message length: "@ + decimal_of(n as nat),
        ConfigIssue::Invalid(t) => "Invalid config: "@ + t@,
    }
}

/// The text of a cryptographic failure.
pub open spec fn crypto_text(f: CryptoFailure) -> Seq<char> {
    match f {
        CryptoFailure::SealFailed => "Failed to encrypt"@,
        CryptoFailure::TooShort => "Invalid encrypted data"@,
        CryptoFailure::OpenFailed => "Failed to decrypt"@,
        CryptoFailure::InvalidUtf8 => "Invalid UTF-8"@,
        CryptoFailure::InvalidKeyLength => "Invalid key length"@,
    }
}

/// The human-readable text of an error, as a failed response carries it.
pub open spec fn error_text(e: KayaError) -> Seq<char> {
    match e {
        KayaError::Io(t) => "IO error: "@ + t@,
        KayaError::UnexpectedEof => "IO error: failed to fill whole buffer"@,
        KayaError::Json(t) => "JSON error: "@ + t@,
        KayaError::Base64 => "Base64 decode error"@,
        KayaError::Http(t) => "HTTP error: "@ + t@,
        KayaError::Config(i) => "Config error: "@ + issue_text(i),
        KayaError::Encryption(f) => "Encryption error: "@ + crypto_text(f),
    }
}

fn joined(a: &str, b: &str) -> (r: String)
    ensures
        r@ == a@ + b@,
{
    let mut s = a.to_owned();
    s.append(b);
    s
}

impl ConfigIssue {
    /// The text of this failure.
    pub fn describe(&self) -> (r: String)
        ensures
            r@ == issue_text(*self),
    {
        match self {
            ConfigIssue::MissingFilename => "Missing filename".to_owned(),
            ConfigIssue::MissingBase64 => "Missing base64 content".to_owned(),
            ConfigIssue::MissingText => "Missing text content".to_owned(),
            ConfigIssue::UnknownContentType(t) => joined("Unknown content type: ", t.as_str()),
            ConfigIssue::UnknownMessage(t) => joined("Unknown message type: ", t.as_str()),
            ConfigIssue::InvalidMessageLength(n) => {
                let d = decimal(*n);
                joined("Invalid message length: ", d.as_str())
            },
            ConfigIssue::Invalid(t) => joined("Invalid config: ", t.as_str()),
        }
    }
}

impl CryptoFailure {
    /// The text of this failure.
    pub fn describe(&self) -> (r: String)
        ensures
            r@ == crypto_text(*self),
    {
        match self {
            CryptoFailure::SealFailed => "Failed to encrypt".to_owned(),
            CryptoFailure::TooShort => "Invalid encrypted data".to_owned(),
            CryptoFailure::OpenFailed => "Failed to decrypt".to_owned(),
            CryptoFailure::InvalidUtf8 => "Invalid UTF-8".to_owned(),
            CryptoFailure::InvalidKeyLength => "Invalid key length".to_owned(),
        }
    }
}

impl KayaError {
    /// The human-readable text of this error.
    pub fn describe(&self) -> (r: String)
        ensures
            r@ == error_text(*self),
    {
        match self {
            KayaError::Io(t) => joined("IO error: ", t.as_str()),
            KayaError::UnexpectedEof => "IO error: failed to fill whole buffer".to_owned(),
            KayaError::Json(t) => joined("JSON error: ", t.as_str()),
            KayaError::Base64 => "Base64 decode error".to_owned(),
            KayaError::Http(t) => joined("HTTP error: ", t.as_str()),
            KayaError::Config(i) => {
                let d = i.describe();
                joined("Config error: ", d.as_str())
            },
            KayaError::Encryption(f) => {
                let d = f.describe();
                joined("Encryption error: ", d.as_str())
            },
        }
    }
}

/// The reply to a handled message. Success carries the bookmark listing,
/// when it could be gathered, under the type `bookmarks`; failure carries the
/// error's text and nothing else.
pub fn response_for(id: Option<u64>, outcome: &Result<(), KayaError>, urls: Option<Vec<String>>) -> (r:
    OutgoingMessage)
    ensures
        r.id == id,
        r.success == (*outcome is Ok),
        *outcome is Ok ==> r.error is None && r.urls == urls && (r.message_type matches Some(t)
            && t@ == "bookmarks"@),
        *outcome matches Err(e) ==> (r.error matches Some(t) && t@ == error_text(e)) && r.urls is None
            && r.message_type is None,
{
    match outcome {
        Ok(()) => OutgoingMessage {
            id,
            success: true,
            error: None,
            urls,
            message_type: Some("bookmarks".to_owned()),
        },
        Err(e) => OutgoingMessage {
            id,
            success: false,
            error: Some(e.describe()),
            urls: None,
            message_type: None,
        },
    }
}

} // verus!
