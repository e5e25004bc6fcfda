//! URL facts obtained from the `url` crate, and percent-decoding from the
//! `urlencoding` crate.
use vstd::prelude::*;
use vstd::string::StringSliceAdditionalSpecFns;
use vstd::utf8::{decode_utf8, valid_utf8};

verus! {

/// The host of the URL that `url::Url::parse` reads from a string
/// (`Url::host_str`); `None` when the string does not parse or has no host.
pub uninterp spec fn url_host_spec(url: Seq<char>) -> Option<Seq<char>>;

/// The last segment of the path of the URL that `url::Url::parse` reads from a
/// string (`Url::path_segments` then `last`); `None` when the string does not
/// parse or the URL cannot be a base.
pub uninterp spec fn url_last_segment_spec(url: Seq<char>) -> Option<Seq<char>>;

/// The URL `url::Url::join` makes of a base URL string and a reference, as a
/// string; `None` when the base does not parse or the join fails.
pub uninterp spec fn url_join_spec(base: Seq<char>, reference: Seq<char>) -> Option<Seq<char>>;

/// The text of the URL that `url::Url::parse` reads from a string
/// (`Url::as_str`, the normalised form); `None` when the string does not parse.
pub uninterp spec fn url_serialize_spec(url: Seq<char>) -> Option<Seq<char>>;

/// The port written in the URL that `url::Url::parse` reads from a string
/// (`Url::port`: `None` when absent or the scheme's default); the outer
/// `None` when the string does not parse.
pub uninterp spec fn url_port_spec(url: Seq<char>) -> Option<Option<u16>>;

/// The path of the URL that `url::Url::parse` reads from a string
/// (`Url::path`); `None` when the string does not parse.
pub uninterp spec fn url_path_spec(url: Seq<char>) -> Option<Seq<char>>;

/// The query of the URL that `url::Url::parse` reads from a string
/// (`Url::query`, without the `?`); the outer `None` when the string does not parse.
pub uninterp spec fn url_query_spec(url: Seq<char>) -> Option<Option<Seq<char>>>;

/// `url::Url::parse` followed by `Url::as_str`.
#[verifier::external_body]
pub(crate) fn url_serialize(url: &str) -> (r: Option<String>)
    ensures
        match r {
            Some(s) => url_serialize_spec(url@) == Some(s@),
            None => url_serialize_spec(url@) is None,
        },
{
    url::Url::parse(url).ok().map(|u| u.as_str().to_string())
}

/// `url::Url::parse` followed by `Url::port`.
#[verifier::external_body]
pub(crate) fn url_port(url: &str) -> (r: Option<Option<u16>>)
    ensures
        r == url_port_spec(url@),
{
    url::Url::parse(url).ok().map(|u| u.port())
}

/// `url::Url::parse` followed by `Url::path`.
#[verifier::external_body]
pub(crate) fn url_path(url: &str) -> (r: Option<String>)
    ensures
        match r {
            Some(s) => url_path_spec(url@) == Some(s@),
            None => url_path_spec(url@) is None,
        },
{
    url::Url::parse(url).ok().map(|u| u.path().to_string())
}

/// `url::Url::parse` followed by `Url::query`.
#[verifier::external_body]
pub(crate) fn url_query(url: &str) -> (r: Option<Option<String>>)
    ensures
        match r {
            Some(Some(q)) => url_query_spec(url@) == Some(Some(q@)),
            Some(None) => url_query_spec(url@) == Some(None::<Seq<char>>),
            None => url_query_spec(url@) is None,
        },
{
    url::Url::parse(url).ok().map(|u| u.query().map(|q| q.to_string()))
}

/// `url::Url::parse` followed by `Url::host_str`; a host is only found in a
/// string that parses.
#[verifier::external_body]
pub(crate) fn url_host(url: &str) -> (r: Option<String>)
    ensures
        match r {
            Some(h) => url_host_spec(url@) == Some(h@),
            None => url_host_spec(url@) is None,
        },
        r is Some ==> url_serialize_spec(url@) is Some,
{
    url::Url::parse(url).ok().and_then(|u| u.host_str().map(|h| h.to_string()))
}

/// `url::Url::parse` followed by `Url::path_segments` and its last item.
#[verifier::external_body]
pub(crate) fn url_last_segment(url: &str) -> (r: Option<String>)
    ensures
        match r {
            Some(s) => url_last_segment_spec(url@) == Some(s@),
            None => url_last_segment_spec(url@) is None,
        },
{
    url::Url::parse(url).ok().and_then(|u| u.path_segments().and_then(|s| s.last().map(|x| x.to_string())))
}

/// `url::Url::parse` of the base followed by `Url::join` with the reference.
#[verifier::external_body]
pub(crate) fn url_join(base: &str, reference: &str) -> (r: Option<String>)
    ensures
        match r {
            Some(s) => url_join_spec(base@, reference@) == Some(s@),
            None => url_join_spec(base@, reference@) is None,
        },
{
    url::Url::parse(base).ok().and_then(|b| b.join(reference).ok()).map(|u| u.to_string())
}

/// Value of an ASCII hexadecimal digit.
pub open spec fn hex_value(b: u8) -> Option<u8> {
    if 0x30 <= b && b <= 0x39 {
        Some((b - 0x30) as u8)
    } else if 0x41 <= b && b <= 0x46 {
        Some((b - 0x41 + 10) as u8)
    } else if 0x61 <= b && b <= 0x66 {
        Some((b - 0x61 + 10) as u8)
    } else {
        None
    }
}

/// Percent-decoding of bytes: each `%` followed by two hex digits becomes the
/// byte they spell; every other byte, `+` and a lone `%` included, is kept.
pub open spec fn percent_decode(b: Seq<u8>) -> Seq<u8>
    decreases b.len(),
{
    if b.len() == 0 {
        seq![]
    } else if b[0] == 0x25 && b.len() >= 3 && hex_value(b[1]) is Some && hex_value(b[2]) is Some {
        seq![(hex_value(b[1])->0 * 16 + hex_value(b[2])->0) as u8] + percent_decode(
            b.subrange(3, b.len() as int),
        )
    } else {
        seq![b[0]] + percent_decode(b.subrange(1, b.len() as int))
    }
}

/// What `urlencoding::decode` returns: the percent-decoded UTF-8 bytes of the
/// string as text, or `None` when they are not valid UTF-8.
pub open spec fn url_decode_spec(bytes: Seq<u8>) -> Option<Seq<char>> {
    if valid_utf8(percent_decode(bytes)) {
        Some(decode_utf8(percent_decode(bytes)))
    } else {
        None
    }
}

/// `urlencoding::decode`: percent-decode the UTF-8 bytes of `s`; `None` when
/// the decoded bytes are not valid UTF-8.
#[verifier::external_body]
pub(crate) fn url_decode(s: &str) -> (r: Option<String>)
    ensures
        match r {
            Some(d) => url_decode_spec(s.spec_bytes()) == Some(d@),
            None => url_decode_spec(s.spec_bytes()) is None,
        },
{
    match urlencoding::decode(s) {
        Ok(d) => Some(d.into_owned()),
        Err(_) => None,
    }
}

} // verus!
