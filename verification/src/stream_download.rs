//! The decisions around downloading an HLS or DASH stream: which playlist to
//! follow, what the files are called, and how the run is judged. Fetching
//! and writing the segments is left to the caller.
use crate::stream::{base_url_spec, best_variant_spec, find_best_variant, get_base_url, hls_segments_spec, parse_hls_playlist};
use crate::text::{append_chars, chars_of, decimal, decimal_of, decimal_padded, decimal_padded_of, string_of, string_views};
use vstd::prelude::*;

verus! {

/// What to do with a fetched HLS playlist.
pub enum HlsPlan {
    /// Download these segments, in order.
    Segments(Vec<String>),
    /// A master playlist: fetch the variant with the highest bandwidth instead.
    Variant(String),
    /// Neither segments nor variants.
    Empty,
}

/// What to do with a playlist fetched from `manifest_url`: its segments when
/// it lists any, else its best variant, else nothing.
pub fn plan_hls(manifest: &str, manifest_url: &str) -> (r: HlsPlan)
    ensures
        ({
            let base = base_url_spec(manifest_url@);
            let segs = hls_segments_spec(manifest@, base);
            match r {
                HlsPlan::Segments(v) => segs.len() > 0 && string_views(v@) == segs,
                HlsPlan::Variant(u) => segs.len() == 0 && best_variant_spec(manifest@, base) == Some(u@),
                HlsPlan::Empty => segs.len() == 0 && best_variant_spec(manifest@, base) is None,
            }
        }),
{
    let base = get_base_url(manifest_url);
    let segments = parse_hls_playlist(manifest, base.as_str());
    if segments.len() > 0 {
        return HlsPlan::Segments(segments);
    }
    match find_best_variant(manifest, base.as_str()) {
        Some(u) => HlsPlan::Variant(u),
        None => HlsPlan::Empty,
    }
}

/// `name.ext`.
pub open spec fn dotted(name: Seq<char>, ext: Seq<char>) -> Seq<char> {
    name + "."@ + ext
}

/// The output file and the segment directory of a stream download: the
/// given name (or the default) with the extension, and with `_segments`.
pub fn stream_file_names(filename: Option<&str>, default_name: &str, ext: &str) -> (r: (String, String))
    ensures
        ({
            let name = match filename {
                Some(f) => f@,
                None => default_name@,
            };
            r.0@ == dotted(name, ext@) && r.1@ == name + "_segments"@
        }),
{
    let name = match filename {
        Some(f) => chars_of(f),
        None => chars_of(default_name),
    };
    let mut out = name.clone();
    append_chars(&mut out, &chars_of("."));
    append_chars(&mut out, &chars_of(ext));
    let mut dir = name.clone();
    append_chars(&mut dir, &chars_of("_segments"));
    (string_of(&out), string_of(&dir))
}

/// `seg_NNNNN.ext`: the temporary file of segment `i`.
pub open spec fn temp_segment_spec(i: nat, ext: Seq<char>) -> Seq<char> {
    "seg_"@ + decimal_padded(i, 5) + "."@ + ext
}

/// The temporary file of segment `i`.
pub fn temp_segment_name(i: u64, ext: &str) -> (r: String)
    ensures
        r@ == temp_segment_spec(i as nat, ext@),
{
    let mut v = chars_of("seg_");
    append_chars(&mut v, &decimal_padded_of(i, 5));
    append_chars(&mut v, &chars_of("."));
    append_chars(&mut v, &chars_of(ext));
    string_of(&v)
}

/// `a/b`, the count of segments that arrived over the total.
pub open spec fn ratio_text(ok: nat, total: nat) -> Seq<char> {
    decimal(ok) + "/"@ + decimal(total)
}

/// `a/b` as text.
fn ratio(ok: usize, total: usize) -> (r: Vec<char>)
    ensures
        r@ == ratio_text(ok as nat, total as nat),
{
    let mut v = decimal_of(ok as u64);
    append_chars(&mut v, &chars_of("/"));
    append_chars(&mut v, &decimal_of(total as u64));
    v
}

/// How an HLS download went: it succeeded when no segment failed and at
/// least one arrived; otherwise the error says how many arrived.
pub fn hls_outcome(all_ok: bool, segs_ok: usize, total: usize) -> (r: (bool, Option<String>))
    ensures
        r.0 == (all_ok && segs_ok > 0),
        r.0 ==> r.1 is None,
        !r.0 ==> (r.1 matches Some(e) && e@ == "Only "@ + ratio_text(segs_ok as nat, total as nat)
            + " segments downloaded"@),
{
    if all_ok && segs_ok > 0 {
        (true, None)
    } else {
        let mut e = chars_of("Only ");
        append_chars(&mut e, &ratio(segs_ok, total));
        append_chars(&mut e, &chars_of(" segments downloaded"));
        (false, Some(string_of(&e)))
    }
}

/// How a DASH download went: it succeeded when a segment arrived; an error
/// names the count unless every segment arrived.
pub fn dash_outcome(segs_ok: usize, total: usize) -> (r: (bool, Option<String>))
    ensures
        r.0 == (segs_ok > 0),
        segs_ok == total ==> r.1 is None,
        segs_ok != total ==> (r.1 matches Some(e) && e@ == ratio_text(segs_ok as nat, total as nat)
            + " segments"@),
{
    let e = if segs_ok == total {
        None
    } else {
        let mut e = ratio(segs_ok, total);
        append_chars(&mut e, &chars_of(" segments"));
        Some(string_of(&e))
    };
    (segs_ok > 0, e)
}

} // verus!
