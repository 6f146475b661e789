//! The Content-Type sent with an upload, chosen by the key's extension.

use vstd::prelude::*;
use crate::text::{chars_of, last_index_before, slice_of, str_eq, to_string_of};

verus! {

/// What `str::to_lowercase` makes of a string.
pub uninterp spec fn lower_of(s: Seq<char>) -> Seq<char>;

/// Relies on `str::to_lowercase`: the result depends on the characters
/// alone.
#[verifier::external_body]
pub(crate) fn lowercase(s: &str) -> (r: String)
    ensures
        r@ == lower_of(s@),
{
    s.to_lowercase()
}

/// What follows the last `.` of `key` (all of it when there is none).
pub open spec fn extension_of(key: Seq<char>) -> Seq<char> {
    key.subrange(last_index_before(key, '.', key.len() as int) + 1, key.len() as int)
}

/// The Content-Type of a lower-case extension.
pub open spec fn content_type_of(ext: Seq<char>) -> Seq<char> {
    if ext == "html"@ || ext == "htm"@ {
        "text/html"@
    } else if ext == "css"@ {
        "text/css"@
    } else if ext == "js"@ || ext == "mjs"@ {
        "application/javascript"@
    } else if ext == "json"@ {
        "application/json"@
    } else if ext == "xml"@ {
        "application/xml"@
    } else if ext == "csv"@ {
        "text/csv"@
    } else if ext == "txt"@ || ext == "log"@ {
        "text/plain"@
    } else if ext == "md"@ {
        "text/markdown"@
    } else if ext == "yaml"@ || ext == "yml"@ {
        "application/yaml"@
    } else if ext == "toml"@ {
        "application/toml"@
    } else if ext == "pdf"@ {
        "application/pdf"@
    } else if ext == "zip"@ {
        "application/zip"@
    } else if ext == "gz"@ || ext == "gzip"@ {
        "application/gzip"@
    } else if ext == "tar"@ {
        "application/x-tar"@
    } else if ext == "7z"@ {
        "application/x-7z-compressed"@
    } else if ext == "rar"@ {
        "application/x-rar-compressed"@
    } else if ext == "png"@ {
        "image/png"@
    } else if ext == "jpg"@ || ext == "jpeg"@ {
        "image/jpeg"@
    } else if ext == "gif"@ {
        "image/gif"@
    } else if ext == "webp"@ {
        "image/webp"@
    } else if ext == "svg"@ {
        "image/svg+xml"@
    } else if ext == "ico"@ {
        "image/x-icon"@
    } else if ext == "bmp"@ {
        "image/bmp"@
    } else if ext == "mp4"@ {
        "video/mp4"@
    } else if ext == "webm"@ {
        "video/webm"@
    } else if ext == "mov"@ {
        "video/quicktime"@
    } else if ext == "avi"@ {
        "video/x-msvideo"@
    } else if ext == "mkv"@ {
        "video/x-matroska"@
    } else if ext == "mp3"@ {
        "audio/mpeg"@
    } else if ext == "wav"@ {
        "audio/wav"@
    } else if ext == "ogg"@ {
        "audio/ogg"@
    } else if ext == "flac"@ {
        "audio/flac"@
    } else if ext == "aac"@ {
        "audio/aac"@
    } else if ext == "woff"@ {
        "font/woff"@
    } else if ext == "woff2"@ {
        "font/woff2"@
    } else if ext == "ttf"@ {
        "font/ttf"@
    } else if ext == "otf"@ {
        "font/otf"@
    } else if ext == "doc"@ {
        "application/msword"@
    } else if ext == "docx"@ {
        "application/vnd.openxmlformats-officedocument.wordprocessingml.document"@
    } else if ext == "xls"@ {
        "application/vnd.ms-excel"@
    } else if ext == "xlsx"@ {
        "application/vnd.openxmlformats-officedocument.spreadsheetml.sheet"@
    } else if ext == "ppt"@ {
        "application/vnd.ms-powerpoint"@
    } else if ext == "pptx"@ {
        "application/vnd.openxmlformats-officedocument.presentationml.presentation"@
    } else {
        "application/octet-stream"@
    }
}

/// The extension of `key`: what follows its last `.`.
pub fn extension(key: &str) -> (r: String)
    ensures
        r@ == extension_of(key@),
{
    let k = chars_of(key);
    proof {
        crate::text::lemma_last_index_before_bounds(k@, '.', k@.len() as int);
    }
    let start: usize = match crate::text::find_last_before(&k, '.', k.len()) {
        Some(p) => p + 1,
        None => 0,
    };
    slice_of(key, start, k.len())
}

fn content_type_name(ext: &str) -> (r: &'static str)
    ensures
        r@ == content_type_of(ext@),
{
    if str_eq(ext, "html") || str_eq(ext, "htm") {
        "text/html"
    } else if str_eq(ext, "css") {
        "text/css"
    } else if str_eq(ext, "js") || str_eq(ext, "mjs") {
        "application/javascript"
    } else if str_eq(ext, "json") {
        "application/json"
    } else if str_eq(ext, "xml") {
        "application/xml"
    } else if str_eq(ext, "csv") {
        "text/csv"
    } else if str_eq(ext, "txt") || str_eq(ext, "log") {
        "text/plain"
    } else if str_eq(ext, "md") {
        "text/markdown"
    } else if str_eq(ext, "yaml") || str_eq(ext, "yml") {
        "application/yaml"
    } else if str_eq(ext, "toml") {
        "application/toml"
    } else if str_eq(ext, "pdf") {
        "application/pdf"
    } else if str_eq(ext, "zip") {
        "application/zip"
    } else if str_eq(ext, "gz") || str_eq(ext, "gzip") {
        "application/gzip"
    } else if str_eq(ext, "tar") {
        "application/x-tar"
    } else if str_eq(ext, "7z") {
        "application/x-7z-compressed"
    } else if str_eq(ext, "rar") {
        "application/x-rar-compressed"
    } else if str_eq(ext, "png") {
        "image/png"
    } else if str_eq(ext, "jpg") || str_eq(ext, "jpeg") {
        "image/jpeg"
    } else if str_eq(ext, "gif") {
        "image/gif"
    } else if str_eq(ext, "webp") {
        "image/webp"
    } else if str_eq(ext, "svg") {
        "image/svg+xml"
    } else if str_eq(ext, "ico") {
        "image/x-icon"
    } else if str_eq(ext, "bmp") {
        "image/bmp"
    } else if str_eq(ext, "mp4") {
        "video/mp4"
    } else if str_eq(ext, "webm") {
        "video/webm"
    } else if str_eq(ext, "mov") {
        "video/quicktime"
    } else if str_eq(ext, "avi") {
        "video/x-msvideo"
    } else if str_eq(ext, "mkv") {
        "video/x-matroska"
    } else if str_eq(ext, "mp3") {
        "audio/mpeg"
    } else if str_eq(ext, "wav") {
        "audio/wav"
    } else if str_eq(ext, "ogg") {
        "audio/ogg"
    } else if str_eq(ext, "flac") {
        "audio/flac"
    } else if str_eq(ext, "aac") {
        "audio/aac"
    } else if str_eq(ext, "woff") {
        "font/woff"
    } else if str_eq(ext, "woff2") {
        "font/woff2"
    } else if str_eq(ext, "ttf") {
        "font/ttf"
    } else if str_eq(ext, "otf") {
        "font/otf"
    } else if str_eq(ext, "doc") {
        "application/msword"
    } else if str_eq(ext, "docx") {
        "application/vnd.openxmlformats-officedocument.wordprocessingml.document"
    } else if str_eq(ext, "xls") {
        "application/vnd.ms-excel"
    } else if str_eq(ext, "xlsx") {
        "application/vnd.openxmlformats-officedocument.spreadsheetml.sheet"
    } else if str_eq(ext, "ppt") {
        "application/vnd.ms-powerpoint"
    } else if str_eq(ext, "pptx") {
        "application/vnd.openxmlformats-officedocument.presentationml.presentation"
    } else {
        "application/octet-stream"
    }
}

/// The Content-Type for an extension already in lower case.
pub fn content_type_for_extension(ext: &str) -> (r: String)
    ensures
        r@ == content_type_of(ext@),
{
    to_string_of(content_type_name(ext))
}

/// The Content-Type for `key`, by its extension in lower case;
/// `application/octet-stream` when the extension is not known.
pub fn guess_content_type(key: &str) -> (r: String)
    ensures
        r@ == content_type_of(lower_of(extension_of(key@))),
{
    let ext = extension(key);
    let lower = lowercase(ext.as_str());
    content_type_for_extension(lower.as_str())
}

} // verus!
