//! Metadata of a download URL, read from the headers of its first response.
use crate::text::{
    chars_of, contains, contains_in, find, find_in, has_prefix, lemma_find_contains,
    parse_u64, parse_u64_of, slice_of, split, split_by, starts_with, string_of, strip_prefix_all,
    strip_suffix_all, trim, trim_end_matches, trim_of, trim_start_matches,
};
use crate::urls::{percent_decode, url_decode, url_decode_spec, url_last_segment, url_last_segment_spec};
use vstd::prelude::*;
use vstd::string::StringSliceAdditionalSpecFns;
use vstd::utf8::{decode_utf8_encode_utf8, encode_utf8, valid_utf8};

verus! {

/// The response headers a probe reads, each as the text of the header value
/// (`None` when the header is absent or its value is not visible ASCII text).
#[derive(Debug, Clone)]
pub struct ResponseHeaders {
    pub content_length: Option<String>,
    pub accept_ranges: Option<String>,
    pub content_type: Option<String>,
    pub content_disposition: Option<String>,
}

/// Result of probing a download URL.
#[derive(Debug, Clone)]
pub struct ProbeResult {
    /// Total resource size in bytes (from Content-Length).
    pub resource_size: Option<u64>,
    /// Whether the server supports Range requests (Accept-Ranges: bytes).
    pub resumable: bool,
    /// Suggested filename (from Content-Disposition or the URL).
    pub filename: Option<String>,
    /// Content type (from Content-Type).
    pub content_type: Option<String>,
    /// Final URL after redirects.
    pub final_url: String,
    /// Whether this is a text redirect (Content-Type: text/plain with a URL in the body).
    pub is_text_redirect: bool,
    /// Redirect target URL (if is_text_redirect).
    pub redirect_url: Option<String>,
}

/// The view of an optional string.
pub open spec fn opt_view(o: Option<String>) -> Option<Seq<char>> {
    match o {
        Some(s) => Some(s@),
        None => None,
    }
}

/// The second piece of `s` cut at `''` (`split("''").nth(1)`).
pub open spec fn second_quote_piece(s: Seq<char>) -> Option<Seq<char>> {
    match find(s, seq!['\'', '\'']) {
        Some(k) => {
            let rest = s.subrange(k + 2, s.len() as int);
            Some(
                match find(rest, seq!['\'', '\'']) {
                    Some(j) => rest.subrange(0, j),
                    None => rest,
                },
            )
        },
        None => None,
    }
}

/// The outcome of the parts of a Content-Disposition value from `i` on:
/// `None` when no part names a file, `Some(r)` when one does, with `r` the
/// filename or `None` for an undecodable `filename*=`.
pub open spec fn disposition_from(parts: Seq<Seq<char>>, i: int) -> Option<Option<Seq<char>>>
    decreases parts.len() - i,
{
    if i < 0 || i >= parts.len() {
        None
    } else {
        let part = trim(parts[i]);
        if has_prefix(part, "filename="@) {
            Some(
                Some(
                    strip_suffix_all(
                        strip_prefix_all(strip_prefix_all(part, "filename="@), seq!['"']),
                        seq!['"'],
                    ),
                ),
            )
        } else if has_prefix(part, "filename*="@) && second_quote_piece(
            strip_prefix_all(part, "filename*="@),
        ) is Some {
            Some(
                url_decode_spec(
                    encode_utf8(second_quote_piece(strip_prefix_all(part, "filename*="@))->0),
                ),
            )
        } else {
            disposition_from(parts, i + 1)
        }
    }
}

/// Filename from the last segment of the URL path, percent-decoded; `None`
/// when there is none, it is empty, or it does not decode.
pub open spec fn url_filename_spec(url: Seq<char>) -> Option<Seq<char>> {
    match url_last_segment_spec(url) {
        Some(seg) => if seg.len() > 0 {
            url_decode_spec(encode_utf8(seg))
        } else {
            None
        },
        None => None,
    }
}

/// Filename from Content-Disposition (`filename="..."`, or the RFC 5987
/// `filename*=charset''...` form, percent-decoded), else from the URL path.
pub open spec fn filename_spec(disposition: Option<Seq<char>>, url: Seq<char>) -> Option<Seq<char>> {
    match disposition {
        Some(cd) => match disposition_from(split(cd, seq![';']), 0) {
            Some(r) => r,
            None => url_filename_spec(url),
        },
        None => url_filename_spec(url),
    }
}

/// The probe result for given header values and final URL.
pub open spec fn probe_spec(h: ResponseHeaders, final_url: Seq<char>, r: ProbeResult) -> bool {
    &&& r.resource_size == match h.content_length {
        Some(v) => parse_u64(v@),
        None => None,
    }
    &&& r.resumable == match h.accept_ranges {
        Some(v) => contains(v@, "bytes"@),
        None => false,
    }
    &&& opt_view(r.content_type) == opt_view(h.content_type)
    &&& opt_view(r.filename) == filename_spec(opt_view(h.content_disposition), final_url)
    &&& r.final_url@ == final_url
    &&& r.is_text_redirect == match h.content_type {
        Some(v) => has_prefix(v@, "text/plain"@),
        None => false,
    }
    &&& r.redirect_url is None
}

/// `Some(s)` of the text of `v`.
fn some_string(v: &[char]) -> (r: Option<String>)
    ensures
        opt_view(r) == Some(v@),
{
    Some(string_of(v))
}

/// `urlencoding::decode` of the characters `v`.
fn decode_chars(v: &[char]) -> (r: Option<String>)
    ensures
        opt_view(r) == url_decode_spec(encode_utf8(v@)),
{
    let s = string_of(v);
    url_decode(s.as_str())
}

impl ProbeResult {
    /// Parse a probe result from the response headers and the final URL.
    pub fn from_headers(headers: &ResponseHeaders, final_url: String) -> (r: Self)
        ensures
            probe_spec(*headers, final_url@, r),
    {
        let resource_size = match &headers.content_length {
            Some(v) => parse_u64_of(&chars_of(v.as_str())),
            None => None,
        };
        let resumable = match &headers.accept_ranges {
            Some(v) => contains_in(&chars_of(v.as_str()), &chars_of("bytes")),
            None => false,
        };
        let content_type = match &headers.content_type {
            Some(v) => Some(v.clone()),
            None => None,
        };
        let filename = Self::extract_filename(headers, final_url.as_str());
        let is_text_redirect = match &headers.content_type {
            Some(v) => starts_with(&chars_of(v.as_str()), &chars_of("text/plain")),
            None => false,
        };
        ProbeResult {
            resource_size,
            resumable,
            filename,
            content_type,
            final_url,
            is_text_redirect,
            redirect_url: None,
        }
    }

    /// Extract a filename from Content-Disposition or from the URL.
    pub fn extract_filename(headers: &ResponseHeaders, url: &str) -> (r: Option<String>)
        ensures
            opt_view(r) == filename_spec(opt_view(headers.content_disposition), url@),
    {
        if let Some(cd) = &headers.content_disposition {
            let cd_chars = chars_of(cd.as_str());
            let semi: [char; 1] = [';'];
            assert(semi@ =~= seq![';']);
            let parts = split_by(&cd_chars, &semi);
            match disposition_filename(&parts) {
                Some(r) => {
                    return r;
                },
                None => {},
            }
        }
        Self::url_filename(url)
    }

    /// Filename from the last path segment of the URL, percent-decoded.
    pub fn url_filename(url: &str) -> (r: Option<String>)
        ensures
            opt_view(r) == url_filename_spec(url@),
    {
        match url_last_segment(url) {
            Some(seg) => {
                if seg.as_str().is_empty() {
                    None
                } else {
                    let text = seg.as_str();
                    url_decode(text)
                }
            },
            None => None,
        }
    }

    /// Get filename with fallback to "download".
    pub fn filename_or_default(&self) -> (r: String)
        ensures
            r@ == match self.filename {
                Some(f) => f@,
                None => "download"@,
            },
    {
        match &self.filename {
            Some(f) => f.clone(),
            None => "download".to_owned(),
        }
    }

    /// Check if this is a valid download (has size or is not a text redirect).
    pub fn is_valid(&self) -> (r: bool)
        ensures
            r == (self.resource_size is Some || !self.is_text_redirect),
    {
        self.resource_size.is_some() || !self.is_text_redirect
    }
}

/// The second piece of `s` cut at `''`.
fn second_quote_piece_of(s: &[char]) -> (r: Option<Vec<char>>)
    ensures
        match r {
            Some(v) => second_quote_piece(s@) == Some(v@),
            None => second_quote_piece(s@) is None,
        },
{
    let qq: [char; 2] = ['\'', '\''];
    assert(qq@ =~= seq!['\'', '\'']);
    match find_in(s, &qq) {
        Some(k) => {
            proof {
                lemma_find_contains(s@, qq@);
                assert(crate::text::occurs_at(s@, qq@, k as int));
                assert(s@.len() == s.len());
            }
            let rest = slice_of(s, k + 2, s.len());
            match find_in(&rest, &qq) {
                Some(j) => {
                    proof {
                        lemma_find_contains(rest@, qq@);
                    }
                    Some(slice_of(&rest, 0, j))
                },
                None => Some(rest),
            }
        },
        None => None,
    }
}

/// The filename named by the parts of a Content-Disposition value.
fn disposition_filename(parts: &Vec<Vec<char>>) -> (r: Option<Option<String>>)
    ensures
        match r {
            Some(x) => disposition_from(crate::text::views(parts@), 0) == Some(opt_view(x)),
            None => disposition_from(crate::text::views(parts@), 0) is None,
        },
{
    let key = chars_of("filename=");
    let key_star = chars_of("filename*=");
    let dq: [char; 1] = ['"'];
    assert(dq@ =~= seq!['"']);
    let mut i: usize = 0;
    while i < parts.len()
        invariant
            i <= parts.len(),
            key@ == "filename="@,
            key_star@ == "filename*="@,
            dq@ == seq!['"'],
            disposition_from(crate::text::views(parts@), 0) == disposition_from(
                crate::text::views(parts@),
                i as int,
            ),
        decreases parts.len() - i,
    {
        assert(crate::text::views(parts@)[i as int] == parts@[i as int]@);
        let part = trim_of(&parts[i]);
        if starts_with(&part, &key) {
            let v = trim_start_matches(&part, &key);
            let v = trim_start_matches(&v, &dq);
            let v = trim_end_matches(&v, &dq);
            return Some(some_string(&v));
        }
        if starts_with(&part, &key_star) {
            let encoded = trim_start_matches(&part, &key_star);
            match second_quote_piece_of(&encoded) {
                Some(f) => {
                    return Some(decode_chars(&f));
                },
                None => {},
            }
        }
        i = i + 1;
    }
    None
}

/// The file name taken from a URL is its last path segment percent-decoded:
/// the name's UTF-8 bytes are the segment's bytes with every `%XX` turned
/// into the byte it spells (so `my%20video.mp4` names `my video.mp4`). A
/// name is found exactly when the segment is non-empty and decodes to UTF-8.
pub proof fn law_url_filename_is_decoded(url: Seq<char>)
    ensures
        url_filename_spec(url) matches Some(f) ==> (url_last_segment_spec(url) matches Some(seg)
            && seg.len() > 0 && encode_utf8(f) == percent_decode(encode_utf8(seg))),
        (url_last_segment_spec(url) matches Some(seg) && seg.len() > 0 && valid_utf8(
            percent_decode(encode_utf8(seg)),
        )) ==> url_filename_spec(url) is Some,
        (url_last_segment_spec(url) matches Some(seg) && seg.len() > 0 && !valid_utf8(
            percent_decode(encode_utf8(seg)),
        )) ==> url_filename_spec(url) is None,
{
    if let Some(seg) = url_last_segment_spec(url) {
        if seg.len() > 0 {
            let pd = percent_decode(encode_utf8(seg));
            if valid_utf8(pd) {
                decode_utf8_encode_utf8(pd);
            }
        }
    }
}

} // verus!
