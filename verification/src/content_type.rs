//! Content-Type classification: is a response a file to download, or a page to analyze?
use crate::text::{chars_of, contains, contains_in, has_prefix, lower_chars_of, starts_with, unicode_lowercase};
use vstd::prelude::*;

verus! {

/// Whether a lowercase content type denotes a downloadable file.
pub open spec fn downloadable_spec(ct: Seq<char>) -> bool {
    if has_prefix(ct, "video/"@) {
        true
    } else if has_prefix(ct, "audio/"@) {
        true
    } else if has_prefix(ct, "application/"@) {
        !(contains(ct, "html"@) || contains(ct, "xhtml"@) || contains(ct, "xml"@))
    } else if has_prefix(ct, "image/"@) {
        true
    } else {
        contains(ct, "octet-stream"@)
    }
}

/// Whether a lowercase content type denotes a page that needs extraction.
pub open spec fn extraction_spec(ct: Seq<char>) -> bool {
    has_prefix(ct, "text/html"@) || contains(ct, "html"@) || has_prefix(ct, "text/plain"@)
}

/// Classify an already lowercased content type as downloadable: video, audio,
/// image, any `application/` type that is not HTML or XML, or an octet stream.
pub fn is_downloadable_lower(ct: &[char]) -> (r: bool)
    ensures
        r == downloadable_spec(ct@),
{
    if starts_with(ct, &chars_of("video/")) {
        return true;
    }
    if starts_with(ct, &chars_of("audio/")) {
        return true;
    }
    if starts_with(ct, &chars_of("application/")) {
        if contains_in(ct, &chars_of("html")) || contains_in(ct, &chars_of("xhtml")) || contains_in(
            ct,
            &chars_of("xml"),
        ) {
            return false;
        }
        return true;
    }
    if starts_with(ct, &chars_of("image/")) {
        return true;
    }
    if contains_in(ct, &chars_of("octet-stream")) {
        return true;
    }
    false
}

/// Check if content-type indicates a downloadable file.
pub fn is_downloadable(content_type: &str) -> (r: bool)
    ensures
        r == downloadable_spec(unicode_lowercase(content_type@)),
{
    let ct = lower_chars_of(content_type);
    is_downloadable_lower(&ct)
}

/// Classify an already lowercased content type as a page needing extraction.
pub fn needs_extraction_lower(ct: &[char]) -> (r: bool)
    ensures
        r == extraction_spec(ct@),
{
    starts_with(ct, &chars_of("text/html")) || contains_in(ct, &chars_of("html")) || starts_with(
        ct,
        &chars_of("text/plain"),
    )
}

/// Check if content-type indicates a page that needs extraction.
pub fn needs_extraction(content_type: &str) -> (r: bool)
    ensures
        r == extraction_spec(unicode_lowercase(content_type@)),
{
    let ct = lower_chars_of(content_type);
    needs_extraction_lower(&ct)
}

/// Whether a URL names an HLS stream.
pub open spec fn hls_spec(url: Seq<char>) -> bool {
    contains(url, ".m3u8"@) || contains(url, "hls"@)
}

/// Check if URL is an HLS stream: it mentions `.m3u8` or `hls`.
pub fn is_hls(url: &str) -> (r: bool)
    ensures
        r == hls_spec(url@),
{
    let u = chars_of(url);
    contains_in(&u, &chars_of(".m3u8")) || contains_in(&u, &chars_of("hls"))
}

} // verus!
