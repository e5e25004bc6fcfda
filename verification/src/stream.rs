//! Stream detection and HLS (`.m3u8`) playlist parsing.
use crate::text::{
    chars_of, contains, contains_in, find, find_in, find_in_from, has_prefix, lines, lines_of,
    lower_chars_of, opt_int, parse_u64, parse_u64_of, rfind, rfind_in, slice_of, split,
    split_by, starts_with, string_of, string_views, strip_prefix_all, trim, trim_of,
    trim_start_matches, unicode_lowercase, concat, append_chars, find_from,
};
use vstd::prelude::*;

verus! {

/// Kind of a media stream.
#[derive(Debug, Clone, Copy, PartialEq, Eq, Structural)]
pub enum StreamType {
    /// `.m3u8` playlist.
    HLS,
    /// `.mpd` manifest.
    DASH,
    /// A plain media file (`.mp4`, `.webm`, ...).
    Direct,
}

/// Information about a detected stream.
#[derive(Debug, Clone)]
pub struct StreamInfo {
    pub url: String,
    pub stream_type: StreamType,
    pub page_url: String,
    pub page_title: String,
    pub quality: Option<String>,
    pub resolution: Option<(u32, u32)>,
    pub bandwidth: Option<u64>,
}

/// Stream type named by a lowercase URL.
pub open spec fn stream_type_of_lower(lower: Seq<char>) -> StreamType {
    if contains(lower, ".m3u8"@) {
        StreamType::HLS
    } else if contains(lower, ".mpd"@) {
        StreamType::DASH
    } else {
        StreamType::Direct
    }
}

/// Stream type named by a lowercase content type, if it names one.
pub open spec fn stream_type_of_content_type(ct: Seq<char>) -> Option<StreamType> {
    if contains(ct, "mpegurl"@) || contains(ct, "x-mpegurl"@) {
        Some(StreamType::HLS)
    } else if contains(ct, "dash+xml"@) {
        Some(StreamType::DASH)
    } else if has_prefix(ct, "video/"@) || has_prefix(ct, "audio/"@) {
        Some(StreamType::Direct)
    } else {
        None
    }
}

/// What `detect_stream_type` returns for a URL and an optional content type.
pub open spec fn detect_spec(url: Seq<char>, content_type: Option<Seq<char>>) -> StreamType {
    match content_type {
        Some(ct) => match stream_type_of_content_type(unicode_lowercase(ct)) {
            Some(t) => t,
            None => stream_type_of_lower(unicode_lowercase(url)),
        },
        None => stream_type_of_lower(unicode_lowercase(url)),
    }
}

impl StreamType {
    /// Stream type of a lowercase URL: `.m3u8` is HLS, else `.mpd` is DASH, else direct.
    pub fn from_lower_url(lower: &[char]) -> (r: StreamType)
        ensures
            r == stream_type_of_lower(lower@),
    {
        if contains_in(lower, &chars_of(".m3u8")) {
            StreamType::HLS
        } else if contains_in(lower, &chars_of(".mpd")) {
            StreamType::DASH
        } else {
            StreamType::Direct
        }
    }

    /// Stream type named by a URL (compared in lowercase).
    pub fn from_url(url: &str) -> (r: StreamType)
        ensures
            r == stream_type_of_lower(unicode_lowercase(url@)),
    {
        let lower = lower_chars_of(url);
        StreamType::from_lower_url(&lower)
    }
}

/// Stream type named by a lowercase content type, if any.
pub fn stream_type_from_content_type(ct: &[char]) -> (r: Option<StreamType>)
    ensures
        r == stream_type_of_content_type(ct@),
{
    if contains_in(ct, &chars_of("mpegurl")) || contains_in(ct, &chars_of("x-mpegurl")) {
        Some(StreamType::HLS)
    } else if contains_in(ct, &chars_of("dash+xml")) {
        Some(StreamType::DASH)
    } else if starts_with(ct, &chars_of("video/")) || starts_with(ct, &chars_of("audio/")) {
        Some(StreamType::Direct)
    } else {
        None
    }
}

/// Detect the type of a stream from its content type, falling back to its URL.
pub fn detect_stream_type(url: &str, content_type: Option<&str>) -> (r: StreamType)
    ensures
        r == detect_spec(
            url@,
            match content_type {
                Some(c) => Some(c@),
                None => None,
            },
        ),
{
    if let Some(ct) = content_type {
        let ct_lower = lower_chars_of(ct);
        if let Some(t) = stream_type_from_content_type(&ct_lower) {
            return t;
        }
    }
    StreamType::from_url(url)
}

/// The URL up to and including its last `/`, or the whole URL when it has none.
pub open spec fn base_url_spec(url: Seq<char>) -> Seq<char> {
    match rfind(url, seq!['/']) {
        Some(pos) => url.subrange(0, pos + 1),
        None => url,
    }
}

/// The URL up to and including its last `/` (the directory of a manifest).
pub fn get_base_url(url: &str) -> (r: String)
    ensures
        r@ == base_url_spec(url@),
{
    let u = chars_of(url);
    let slash: [char; 1] = ['/'];
    assert(slash@ =~= seq!['/']);
    proof {
        crate::text::lemma_rfind_upto(u@, slash@, u@.len() - slash@.len());
    }
    match rfind_in(&u, &slash) {
        Some(pos) => string_of(&slice_of(&u, 0, pos + 1)),
        None => string_of(&u),
    }
}

/// A playlist entry made absolute: kept when it starts with `http`, otherwise
/// appended to `base` without its leading slashes.
pub open spec fn resolve_spec(base: Seq<char>, line: Seq<char>) -> Seq<char> {
    if has_prefix(line, "http"@) {
        line
    } else {
        base + strip_prefix_all(line, "/"@)
    }
}

/// Resolve a playlist entry against a base URL.
pub fn resolve(base: &[char], line: &[char]) -> (r: Vec<char>)
    ensures
        r@ == resolve_spec(base@, line@),
{
    if starts_with(line, &chars_of("http")) {
        slice_of(line, 0, line.len())
    } else {
        let rest = trim_start_matches(line, &chars_of("/"));
        concat(base, &rest)
    }
}

/// Segment URLs of an HLS playlist from line `i` on; `after_extinf` tells whether
/// an `#EXTINF:` tag is waiting for its URI.
pub open spec fn hls_segments_from(
    ls: Seq<Seq<char>>,
    base: Seq<char>,
    i: int,
    after_extinf: bool,
) -> Seq<Seq<char>>
    decreases ls.len() - i,
{
    if i < 0 || i >= ls.len() {
        seq![]
    } else {
        let line = trim(ls[i]);
        if has_prefix(line, "#EXTINF:"@) {
            hls_segments_from(ls, base, i + 1, true)
        } else if after_extinf && !has_prefix(line, "#"@) && line.len() > 0 {
            seq![resolve_spec(base, line)] + hls_segments_from(ls, base, i + 1, false)
        } else {
            hls_segments_from(ls, base, i + 1, after_extinf)
        }
    }
}

/// The segment URLs of an HLS media playlist: the first URI line after each
/// `#EXTINF:` tag, resolved against `base`.
pub open spec fn hls_segments_spec(content: Seq<char>, base: Seq<char>) -> Seq<Seq<char>> {
    hls_segments_from(lines(content), base, 0, false)
}

/// Parse the segment URLs of an HLS media playlist.
pub fn parse_hls_playlist(content: &str, base_url: &str) -> (r: Vec<String>)
    ensures
        string_views(r@) == hls_segments_spec(content@, base_url@),
{
    let c = chars_of(content);
    let base = chars_of(base_url);
    let ls = lines_of(&c);
    let extinf = chars_of("#EXTINF:");
    let hash = chars_of("#");
    let mut out: Vec<String> = Vec::new();
    let mut is_segment = false;
    let mut i: usize = 0;
    while i < ls.len()
        invariant
            i <= ls.len(),
            crate::text::views(ls@) == lines(c@),
            c@ == content@,
            base@ == base_url@,
            extinf@ == "#EXTINF:"@,
            hash@ == "#"@,
            string_views(out@) + hls_segments_from(lines(c@), base@, i as int, is_segment)
                == hls_segments_spec(content@, base_url@),
        decreases ls.len() - i,
    {
        let ghost ls_v = crate::text::views(ls@);
        assert(ls_v[i as int] == ls@[i as int]@);
        let line = trim_of(&ls[i]);
        if starts_with(&line, &extinf) {
            is_segment = true;
        } else if is_segment && !starts_with(&line, &hash) && line.len() > 0 {
            let url = resolve(&base, &line);
            let ghost before = string_views(out@);
            out.push(string_of(&url));
            assert(string_views(out@) =~= before.push(url@));
            assert(before + hls_segments_from(lines(c@), base@, i as int, true) =~= string_views(
                out@,
            ) + hls_segments_from(lines(c@), base@, i + 1, false));
            is_segment = false;
        }
        i = i + 1;
    }
    assert(hls_segments_from(lines(c@), base@, i as int, is_segment) =~= Seq::<Seq<char>>::empty());
    assert(string_views(out@) + Seq::<Seq<char>>::empty() =~= string_views(out@));
    out
}

/// The first piece that starts with `p`.
pub open spec fn first_with_prefix(pieces: Seq<Seq<char>>, p: Seq<char>) -> Option<Seq<char>>
    decreases pieces.len(),
{
    if pieces.len() == 0 {
        None
    } else if has_prefix(pieces[0], p) {
        Some(pieces[0])
    } else {
        first_with_prefix(pieces.drop_first(), p)
    }
}

/// The bandwidth announced by an `#EXT-X-STREAM-INF:` line: the first field cut
/// at colons, commas and spaces that starts with `BANDWIDTH=`, read as a `u64`
/// (0 when it does not parse); `None` when there is no such field. Cutting at
/// the colon too lets the attribute be found right after the tag as well as
/// anywhere later in the list.
pub open spec fn bandwidth_spec(line: Seq<char>) -> Option<nat> {
    match first_with_prefix(split(line, seq![',', ' ', ':']), "BANDWIDTH="@) {
        Some(f) => Some(
            match parse_u64(strip_prefix_all(f, "BANDWIDTH="@)) {
                Some(v) => v as nat,
                None => 0,
            },
        ),
        None => None,
    }
}

/// Best variant from line `i` on, given the best bandwidth and URL so far.
pub open spec fn variants_from(
    ls: Seq<Seq<char>>,
    base: Seq<char>,
    i: int,
    best_bw: nat,
    best: Option<Seq<char>>,
) -> Option<Seq<char>>
    decreases ls.len() - i,
{
    if i < 0 || i >= ls.len() {
        best
    } else {
        let line = trim(ls[i]);
        if has_prefix(line, "#EXT-X-STREAM-INF:"@) && bandwidth_spec(line) is Some && i + 1
            < ls.len() && !has_prefix(trim(ls[i + 1]), "#"@) && trim(ls[i + 1]).len() > 0
            && bandwidth_spec(line)->0 > best_bw {
            variants_from(
                ls,
                base,
                i + 1,
                bandwidth_spec(line)->0,
                Some(resolve_spec(base, trim(ls[i + 1]))),
            )
        } else {
            variants_from(ls, base, i + 1, best_bw, best)
        }
    }
}

/// The URL of the variant with the highest bandwidth in an HLS master
/// playlist: each `#EXT-X-STREAM-INF:` line with a `BANDWIDTH=` field whose
/// next line is a URI; the first of equal bandwidths wins, and a bandwidth of
/// 0 never does.
pub open spec fn best_variant_spec(content: Seq<char>, base: Seq<char>) -> Option<Seq<char>> {
    variants_from(lines(content), base, 0, 0, None)
}

/// The bandwidth of an `#EXT-X-STREAM-INF:` line.
pub fn bandwidth_of(line: &[char]) -> (r: Option<u64>)
    ensures
        opt_nat(r) == bandwidth_spec(line@),
{
    let delims: [char; 3] = [',', ' ', ':'];
    assert(delims@ =~= seq![',', ' ', ':']);
    let fields = split_by(line, &delims);
    let key = chars_of("BANDWIDTH=");
    let mut k: usize = 0;
    assert(split(line@, seq![',', ' ', ':']).subrange(0, fields@.len() as int) =~= split(
        line@,
        seq![',', ' ', ':'],
    ));
    while k < fields.len()
        invariant
            k <= fields.len(),
            key@ == "BANDWIDTH="@,
            crate::text::views(fields@) == split(line@, seq![',', ' ', ':']),
            first_with_prefix(split(line@, seq![',', ' ', ':']), "BANDWIDTH="@) == first_with_prefix(
                split(line@, seq![',', ' ', ':']).subrange(k as int, fields@.len() as int),
                "BANDWIDTH="@,
            ),
        decreases fields.len() - k,
    {
        let ghost rest = split(line@, seq![',', ' ', ':']).subrange(k as int, fields@.len() as int);
        assert(rest[0] == fields@[k as int]@);
        if starts_with(&fields[k], &key) {
            let value = trim_start_matches(&fields[k], &key);
            return match parse_u64_of(&value) {
                Some(v) => Some(v),
                None => Some(0),
            };
        }
        assert(rest.drop_first() =~= split(line@, seq![',', ' ', ':']).subrange(
            k + 1,
            fields@.len() as int,
        ));
        k = k + 1;
    }
    None
}

/// An optional `u64` read as an optional natural number.
pub open spec fn opt_nat(o: Option<u64>) -> Option<nat> {
    match o {
        Some(v) => Some(v as nat),
        None => None,
    }
}

/// Find the URL of the highest-bandwidth variant of an HLS master playlist.
pub fn find_best_variant(content: &str, base_url: &str) -> (r: Option<String>)
    ensures
        match r {
            Some(s) => best_variant_spec(content@, base_url@) == Some(s@),
            None => best_variant_spec(content@, base_url@) is None,
        },
{
    let c = chars_of(content);
    let base = chars_of(base_url);
    let ls = lines_of(&c);
    let tag = chars_of("#EXT-X-STREAM-INF:");
    let hash = chars_of("#");
    let mut best_bandwidth: u64 = 0;
    let mut best_url: Option<Vec<char>> = None;
    let mut i: usize = 0;
    while i < ls.len()
        invariant
            i <= ls.len(),
            crate::text::views(ls@) == lines(c@),
            c@ == content@,
            base@ == base_url@,
            tag@ == "#EXT-X-STREAM-INF:"@,
            hash@ == "#"@,
            variants_from(
                lines(c@),
                base@,
                i as int,
                best_bandwidth as nat,
                match best_url {
                    Some(v) => Some(v@),
                    None => None,
                },
            ) == best_variant_spec(content@, base_url@),
        decreases ls.len() - i,
    {
        let ghost ls_v = crate::text::views(ls@);
        assert(ls_v[i as int] == ls@[i as int]@);
        let line = trim_of(&ls[i]);
        if starts_with(&line, &tag) {
            if let Some(bw) = bandwidth_of(&line) {
                if i + 1 < ls.len() {
                    assert(ls_v[i + 1] == ls@[i + 1]@);
                    let url_line = trim_of(&ls[i + 1]);
                    if !starts_with(&url_line, &hash) && url_line.len() > 0 {
                        let url = resolve(&base, &url_line);
                        if bw > best_bandwidth {
                            best_bandwidth = bw;
                            best_url = Some(url);
                        }
                    }
                }
            }
        }
        i = i + 1;
    }
    match best_url {
        Some(v) => Some(string_of(&v)),
        None => None,
    }
}

/// The value of attribute `attr` in the first `<tag ` element of `xml`, or
/// the empty string.
pub open spec fn xml_attr_spec(xml: Seq<char>, tag: Seq<char>, attr: Seq<char>) -> Seq<char> {
    match find(xml, seq!['<'] + tag + seq![' ']) {
        Some(start) => {
            let chunk = xml.subrange(start, xml.len() as int);
            let end = match find(chunk, seq!['>']) {
                Some(e) => e,
                None => chunk.len() as int,
            };
            let opening = chunk.subrange(0, end);
            match find(opening, attr + seq!['=', '"']) {
                Some(a) => {
                    let q = a + attr.len() + 2;
                    match find(opening.subrange(q, opening.len() as int), seq!['"']) {
                        Some(e) => opening.subrange(q, q + e),
                        None => seq![],
                    }
                },
                None => seq![],
            }
        },
        None => seq![],
    }
}

/// Value of attribute `attr` in the first `<tag ` element of `xml`.
pub fn xml_attr(xml: &[char], tag: &[char], attr: &[char]) -> (r: Vec<char>)
    ensures
        r@ == xml_attr_spec(xml@, tag@, attr@),
{
    let lt: [char; 1] = ['<'];
    let sp: [char; 1] = [' '];
    let gt: [char; 1] = ['>'];
    let q2: [char; 2] = ['=', '"'];
    let dq: [char; 1] = ['"'];
    assert(lt@ =~= seq!['<']);
    assert(sp@ =~= seq![' ']);
    assert(gt@ =~= seq!['>']);
    assert(q2@ =~= seq!['=', '"']);
    assert(dq@ =~= seq!['"']);
    let mut search = concat(&lt, tag);
    append_chars(&mut search, &sp);
    match find_in(xml, &search) {
        Some(start) => {
            proof {
                crate::text::lemma_find_contains(xml@, search@);
            }
            let chunk = slice_of(xml, start, xml.len());
            let end = match find_in(&chunk, &gt) {
                Some(e) => {
                    proof {
                        crate::text::lemma_find_contains(chunk@, gt@);
                    }
                    e
                },
                None => chunk.len(),
            };
            let opening = slice_of(&chunk, 0, end);
            let attr_search = concat(attr, &q2);
            match find_in(&opening, &attr_search) {
                Some(a) => {
                    proof {
                        crate::text::lemma_find_contains(opening@, attr_search@);
                    }
                    let q = a + attr.len() + 2;
                    let tail = slice_of(&opening, q, opening.len());
                    match find_in(&tail, &dq) {
                        Some(e) => {
                            proof {
                                crate::text::lemma_find_contains(tail@, dq@);
                            }
                            slice_of(&opening, q, q + e)
                        },
                        None => Vec::new(),
                    }
                },
                None => Vec::new(),
            }
        },
        None => Vec::new(),
    }
}

/// Value of attribute `attr` in the first `<tag ` element of `xml`, or "".
pub fn extract_xml_tag(xml: &str, tag: &str, attr: &str) -> (r: String)
    ensures
        r@ == xml_attr_spec(xml@, tag@, attr@),
{
    string_of(&xml_attr(&chars_of(xml), &chars_of(tag), &chars_of(attr)))
}

// ------------------------------------------------------------------
// The best variant has the largest bandwidth
// ------------------------------------------------------------------

/// Line `i` announces a variant: an `#EXT-X-STREAM-INF:` line with a
/// `BANDWIDTH` field, followed by a non-empty line that is not a tag.
pub open spec fn variant_at(ls: Seq<Seq<char>>, i: int) -> bool {
    &&& 0 <= i && i + 1 < ls.len()
    &&& has_prefix(trim(ls[i]), "#EXT-X-STREAM-INF:"@)
    &&& bandwidth_spec(trim(ls[i])) is Some
    &&& !has_prefix(trim(ls[i + 1]), "#"@)
    &&& trim(ls[i + 1]).len() > 0
}

/// The bandwidth of the variant announced on line `i`.
pub open spec fn variant_bw(ls: Seq<Seq<char>>, i: int) -> nat {
    bandwidth_spec(trim(ls[i]))->0
}

/// The URL of the variant announced on line `i`.
pub open spec fn variant_url(ls: Seq<Seq<char>>, base: Seq<char>, i: int) -> Seq<char> {
    resolve_spec(base, trim(ls[i + 1]))
}

proof fn lemma_variants_from(
    ls: Seq<Seq<char>>,
    base: Seq<char>,
    i: int,
    best_bw: nat,
    best: Option<Seq<char>>,
)
    requires
        0 <= i <= ls.len(),
    ensures
        (forall|k: int| i <= k < ls.len() && #[trigger] variant_at(ls, k) ==> variant_bw(ls, k)
            <= best_bw) ==> variants_from(ls, base, i, best_bw, best) == best,
        (exists|k: int| i <= k < ls.len() && #[trigger] variant_at(ls, k) && variant_bw(ls, k)
            > best_bw) ==> exists|j: int|
            #![trigger variant_at(ls, j)]
            i <= j < ls.len() && variant_at(ls, j) && variant_bw(ls, j) > best_bw && variants_from(
                ls,
                base,
                i,
                best_bw,
                best,
            ) == Some(variant_url(ls, base, j)) && (forall|k: int|
                i <= k < ls.len() && #[trigger] variant_at(ls, k) ==> variant_bw(ls, k)
                    <= variant_bw(ls, j)) && (forall|k: int|
                i <= k < j && #[trigger] variant_at(ls, k) ==> variant_bw(ls, k) < variant_bw(ls, j)),
    decreases ls.len() - i,
{
    if i < ls.len() {
        let taken = variant_at(ls, i) && variant_bw(ls, i) > best_bw;
        if taken {
            let bw = variant_bw(ls, i);
            let u = Some(variant_url(ls, base, i));
            lemma_variants_from(ls, base, i + 1, bw, u);
            assert(variants_from(ls, base, i, best_bw, best) == variants_from(ls, base, i + 1, bw, u));
            if exists|k: int| i + 1 <= k < ls.len() && #[trigger] variant_at(ls, k) && variant_bw(ls, k) > bw {
                let j = choose|j: int|
                    #![trigger variant_at(ls, j)]
                    i + 1 <= j < ls.len() && variant_at(ls, j) && variant_bw(ls, j) > bw
                        && variants_from(ls, base, i + 1, bw, u) == Some(variant_url(ls, base, j))
                        && (forall|k: int|
                        i + 1 <= k < ls.len() && #[trigger] variant_at(ls, k) ==> variant_bw(ls, k)
                            <= variant_bw(ls, j)) && (forall|k: int|
                        i + 1 <= k < j && #[trigger] variant_at(ls, k) ==> variant_bw(ls, k)
                            < variant_bw(ls, j));
                assert(variant_at(ls, j));
            } else {
                assert(forall|k: int|
                    i + 1 <= k < ls.len() && #[trigger] variant_at(ls, k) ==> variant_bw(ls, k) <= bw);
                assert(variant_at(ls, i));
            }
        } else {
            lemma_variants_from(ls, base, i + 1, best_bw, best);
            assert(variants_from(ls, base, i, best_bw, best) == variants_from(
                ls,
                base,
                i + 1,
                best_bw,
                best,
            ));
            if exists|k: int| i <= k < ls.len() && #[trigger] variant_at(ls, k) && variant_bw(ls, k) > best_bw {
                let k0 = choose|k: int| i <= k < ls.len() && #[trigger] variant_at(ls, k) && variant_bw(ls, k) > best_bw;
                assert(k0 != i);
                assert(i + 1 <= k0);
                let j = choose|j: int|
                    #![trigger variant_at(ls, j)]
                    i + 1 <= j < ls.len() && variant_at(ls, j) && variant_bw(ls, j) > best_bw
                        && variants_from(ls, base, i + 1, best_bw, best) == Some(variant_url(ls, base, j))
                        && (forall|k: int|
                        i + 1 <= k < ls.len() && #[trigger] variant_at(ls, k) ==> variant_bw(ls, k)
                            <= variant_bw(ls, j)) && (forall|k: int|
                        i + 1 <= k < j && #[trigger] variant_at(ls, k) ==> variant_bw(ls, k)
                            < variant_bw(ls, j));
                assert(variant_at(ls, j));
            }
        }
    }
}

/// The variant chosen from a master playlist has the largest bandwidth of
/// all the variants it announces, and comes first among those with that
/// bandwidth; none is chosen exactly when every announced bandwidth is 0.
pub proof fn law_best_variant_is_largest(content: Seq<char>, base: Seq<char>)
    ensures
        (best_variant_spec(content, base) is None) == (forall|k: int|
            0 <= k < lines(content).len() && #[trigger] variant_at(lines(content), k)
                ==> variant_bw(lines(content), k) == 0),
        best_variant_spec(content, base) matches Some(u) ==> exists|j: int|
            #![trigger variant_at(lines(content), j)]
            variant_at(lines(content), j) && u == variant_url(lines(content), base, j)
                && variant_bw(lines(content), j) > 0 && (forall|k: int|
                #[trigger] variant_at(lines(content), k) ==> variant_bw(lines(content), k)
                    <= variant_bw(lines(content), j)) && (forall|k: int|
                k < j && #[trigger] variant_at(lines(content), k) ==> variant_bw(lines(content), k)
                    < variant_bw(lines(content), j)),
{
    let ls = lines(content);
    lemma_variants_from(ls, base, 0, 0, None);
}

} // verus!
