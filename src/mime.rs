use vstd::prelude::*;

use crate::sync::Collection;
use crate::text::{after_last, last_segment, lowercase_of, same_text, to_lowercase};

verus! {

/// The MIME type announced for an upload with the given lower-case extension.
pub open spec fn mime_of_extension(ext: Seq<char>) -> Seq<char> {
    if ext == "md"@ {
        "text/markdown"@
    } else if ext == "url"@ || ext == "txt"@ {
        "text/plain"@
    } else if ext == "json"@ {
        "application/json"@
    } else if ext == "toml"@ {
        "application/toml"@
    } else if ext == "pdf"@ {
        "application/pdf"@
    } else if ext == "png"@ {
        "image/png"@
    } else if ext == "jpg"@ || ext == "jpeg"@ {
        "image/jpeg"@
    } else if ext == "gif"@ {
        "image/gif"@
    } else if ext == "webp"@ {
        "image/webp"@
    } else if ext == "svg"@ {
        "image/svg+xml"@
    } else if ext == "html"@ || ext == "htm"@ {
        "text/html"@
    } else {
        "application/octet-stream"@
    }
}

/// The MIME type of an already lower-cased extension.
pub fn mime_for_extension(ext: &str) -> (r: String)
    ensures
        r@ == mime_of_extension(ext@),
{
    let t = if same_text(ext, "md") {
        "text/markdown"
    } else if same_text(ext, "url") || same_text(ext, "txt") {
        "text/plain"
    } else if same_text(ext, "json") {
        "application/json"
    } else if same_text(ext, "toml") {
        "application/toml"
    } else if same_text(ext, "pdf") {
        "application/pdf"
    } else if same_text(ext, "png") {
        "image/png"
    } else if same_text(ext, "jpg") || same_text(ext, "jpeg") {
        "image/jpeg"
    } else if same_text(ext, "gif") {
        "image/gif"
    } else if same_text(ext, "webp") {
        "image/webp"
    } else if same_text(ext, "svg") {
        "image/svg+xml"
    } else if same_text(ext, "html") || same_text(ext, "htm") {
        "text/html"
    } else {
        "application/octet-stream"
    };
    t.to_owned()
}

/// The MIME type of a file name: by the lower-cased text after its last
/// `.`, or the whole name when it has none.
pub fn mime_type_for(filename: &str) -> (r: String)
    ensures
        r@ == mime_of_extension(lowercase_of(after_last(filename@, '.'))),
{
    let ext = last_segment(filename, '.');
    let lower = to_lowercase(ext);
    mime_for_extension(lower.as_str())
}

/// The MIME type of an upload: content files by their extension, metadata
/// files always as TOML.
pub fn upload_mime(c: Collection, filename: &str) -> (r: String)
    ensures
        c == Collection::Anga ==> r@ == mime_of_extension(lowercase_of(after_last(filename@, '.'))),
        c == Collection::Meta ==> r@ == "application/toml"@,
{
    match c {
        Collection::Anga => mime_type_for(filename),
        Collection::Meta => "application/toml".to_owned(),
    }
}

} // verus!
