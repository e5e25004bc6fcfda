//! Decisions of the capturing HTTP proxy: reading the request line, turning
//! an absolute request target into the origin form a server expects, reading
//! the response head, recognising video responses, and naming the files the
//! captured segments are saved to. Sockets, threads and files stay with the
//! caller.
use crate::auto_rename::path_join_spec;
use crate::text::{
    all_digits, append_chars, chars_of, contains, contains_in, decimal, decimal_padded,
    decimal_padded_of, digits_value, ends_with, find, find_in, has_prefix, has_suffix, is_ws,
    lemma_find_contains, lines, lines_of, lower_chars_of, parse_u64, parse_u64_of, slice_of,
    split, split_by, starts_with, string_of, strip_prefix_all, strip_suffix_all,
    trim, trim_of, trim_start, trim_start_matches, trim_end_matches, unicode_lowercase,
    unsigned_syntax, unsigned_value, views,
};
use crate::urls::{
    url_host, url_host_spec, url_path, url_path_spec, url_port, url_port_spec, url_query,
    url_query_spec,
};
use vstd::prelude::*;

verus! {

// ------------------------------------------------------------------
// Numbers in headers and targets
// ------------------------------------------------------------------

/// `str::parse::<u16>`.
pub open spec fn parse_u16_spec(s: Seq<char>) -> Option<u16> {
    if unsigned_syntax(s) && unsigned_value(s) <= u16::MAX {
        Some(unsigned_value(s) as u16)
    } else {
        None
    }
}

/// `str::parse::<u16>`.
pub fn parse_u16_of(s: &[char]) -> (r: Option<u16>)
    ensures
        r == parse_u16_spec(s@),
{
    match parse_u64_of(s) {
        Some(v) => if v <= 65535 {
            Some(v as u16)
        } else {
            None
        },
        None => None,
    }
}

/// `str::parse::<i64>`: an optional `+` or `-`, then one or more digits,
/// with a value in range.
pub open spec fn parse_i64_spec(s: Seq<char>) -> Option<i64> {
    if s.len() > 0 && s[0] == '-' {
        let b = s.drop_first();
        if b.len() > 0 && all_digits(b) && digits_value(b) <= 0x8000_0000_0000_0000 {
            Some((0 - digits_value(b)) as i64)
        } else {
            None
        }
    } else if unsigned_syntax(s) && unsigned_value(s) <= i64::MAX {
        Some(unsigned_value(s) as i64)
    } else {
        None
    }
}

/// `str::parse::<i64>`.
pub fn parse_i64_of(s: &[char]) -> (r: Option<i64>)
    ensures
        r == parse_i64_spec(s@),
{
    if s.len() > 0 && s[0] == '-' {
        let b = slice_of(s, 1, s.len());
        assert(b@ =~= s@.drop_first());
        if b.len() == 0 || b[0] == '+' {
            proof {
                if b.len() > 0 {
                    assert(!crate::text::is_digit(b@[0]));
                }
            }
            return None;
        }
        proof {
            assert(crate::text::unsigned_body(b@) == b@);
        }
        match parse_u64_of(&b) {
            Some(v) => {
                if v <= 0x8000_0000_0000_0000 {
                    let m: i128 = 0 - (v as i128);
                    Some(m as i64)
                } else {
                    None
                }
            },
            None => None,
        }
    } else {
        match parse_u64_of(s) {
            Some(v) => {
                proof {
                    if s@.len() > 0 {
                        assert(s@[0] != '-');
                    }
                }
                if v <= 0x7fff_ffff_ffff_ffff {
                    Some(v as i64)
                } else {
                    None
                }
            },
            None => None,
        }
    }
}

// ------------------------------------------------------------------
// The request
// ------------------------------------------------------------------

/// The bytes hold the blank line that ends an HTTP head.
pub open spec fn head_complete_spec(b: Seq<u8>) -> bool {
    exists|i: int|
        0 <= i && i + 4 <= b.len() && #[trigger] b[i] == 13 && b[i + 1] == 10 && b[i + 2] == 13
            && b[i + 3] == 10
}

/// Whether the bytes received so far hold the end of the HTTP head (`\r\n\r\n`).
pub fn head_complete(b: &[u8]) -> (r: bool)
    ensures
        r == head_complete_spec(b@),
{
    if b.len() < 4 {
        return false;
    }
    let mut i: usize = 0;
    while i < b.len() - 3
        invariant
            b.len() >= 4,
            i <= b.len() - 3,
            forall|j: int|
                0 <= j < i && j + 4 <= b@.len() ==> !(#[trigger] b@[j] == 13 && b@[j + 1] == 10
                    && b@[j + 2] == 13 && b@[j + 3] == 10),
        decreases b.len() - i,
    {
        if b[i] == 13 && b[i + 1] == 10 && b[i + 2] == 13 && b[i + 3] == 10 {
            return true;
        }
        i = i + 1;
    }
    false
}

/// The first line of a text, or the empty text.
pub open spec fn first_line(s: Seq<char>) -> Seq<char> {
    if lines(s).len() > 0 {
        lines(s)[0]
    } else {
        seq![]
    }
}

/// Position of the first whitespace character of `s` at or after `i`, or its length.
pub open spec fn next_ws(s: Seq<char>, i: int) -> int
    decreases s.len() - i,
{
    if i < 0 || i >= s.len() {
        s.len() as int
    } else if is_ws(s[i]) {
        i
    } else {
        next_ws(s, i + 1)
    }
}

/// The words of a text: its maximal runs of non-whitespace (`str::split_whitespace`).
pub open spec fn words(s: Seq<char>) -> Seq<Seq<char>>
    decreases s.len(),
{
    let t = trim_start(s);
    if t.len() == 0 {
        seq![]
    } else {
        proof {
            lemma_trim_start_suffix(s);
        }
        let k = next_ws(t, 0);
        if 0 < k <= t.len() {
            seq![t.subrange(0, k)] + words(t.subrange(k, t.len() as int))
        } else {
            seq![t]
        }
    }
}

/// The method and target of a request: the first two words of its first
/// line, when that line has at least three words.
pub open spec fn request_line_spec(request: Seq<char>) -> Option<(Seq<char>, Seq<char>)> {
    let parts = words(first_line(request));
    if parts.len() >= 3 {
        Some((parts[0], parts[1]))
    } else {
        None
    }
}

pub proof fn lemma_trim_start_suffix(s: Seq<char>)
    ensures
        trim_start(s).len() <= s.len(),
        trim_start(s) == s.subrange(s.len() - trim_start(s).len(), s.len() as int),
        trim_start(s).len() > 0 ==> !is_ws(trim_start(s)[0]),
    decreases s.len(),
{
    if s.len() > 0 && is_ws(s[0]) {
        lemma_trim_start_suffix(s.drop_first());
        assert(s.drop_first().subrange(
            s.drop_first().len() - trim_start(s).len(),
            s.drop_first().len() as int,
        ) =~= s.subrange(s.len() - trim_start(s).len(), s.len() as int));
    } else {
        assert(s.subrange(0, s.len() as int) =~= s);
    }
}

proof fn lemma_next_ws(s: Seq<char>, i: int)
    requires
        0 <= i <= s.len(),
    ensures
        i <= next_ws(s, i) <= s.len(),
        forall|j: int| i <= j < next_ws(s, i) ==> !is_ws(#[trigger] s[j]),
        next_ws(s, i) < s.len() ==> is_ws(s[next_ws(s, i)]),
    decreases s.len() - i,
{
    if i < s.len() && !is_ws(s[i]) {
        lemma_next_ws(s, i + 1);
    }
}

/// The words of a text, up to `limit` of them (`split_whitespace` stopped early).
fn words_of(s: &Vec<char>, limit: usize) -> (r: Vec<Vec<char>>)
    ensures
        r@.len() <= limit,
        r@.len() <= words(s@).len(),
        views(r@) == words(s@).take(r@.len() as int),
        r@.len() < limit ==> r@.len() == words(s@).len(),
{
    let mut out: Vec<Vec<char>> = Vec::new();
    let mut rest: Vec<char> = slice_of(s, 0, s.len());
    assert(s@.subrange(0, s@.len() as int) =~= s@);
    assert(views(out@) =~= Seq::<Seq<char>>::empty());
    assert(views(out@) + words(rest@) =~= words(rest@));
    let mut done = false;
    while !done && out.len() < limit
        invariant
            out@.len() <= limit,
            views(out@) + words(rest@) == words(s@),
            done ==> words(rest@).len() == 0,
        decreases rest@.len(), (if done { 0nat } else { 1nat }),
    {
        let t = trim_start_whitespace(&rest);
        proof {
            lemma_trim_start_suffix(rest@);
        }
        if t.len() == 0 {
            assert(words(rest@) =~= Seq::<Seq<char>>::empty());
            done = true;
        } else {
            let mut k: usize = 0;
            while k < t.len() && !crate::text::is_whitespace(t[k])
                invariant
                    k <= t.len(),
                    next_ws(t@, 0) == next_ws(t@, k as int),
                decreases t.len() - k,
            {
                k = k + 1;
            }
            proof {
                lemma_next_ws(t@, 0);
                assert(k > 0);
            }
            let w = slice_of(&t, 0, k);
            let r2 = slice_of(&t, k, t.len());
            let ghost before = views(out@);
            out.push(w);
            assert(views(out@) =~= before.push(w@));
            assert(words(rest@) == seq![w@] + words(r2@));
            assert(before + words(rest@) =~= views(out@) + words(r2@));
            rest = r2;
        }
    }
    proof {
        assert(views(out@).len() == out@.len());
        assert(words(s@).take(out@.len() as int) =~= views(out@));
    }
    out
}

/// `s` without leading whitespace.
fn trim_start_whitespace(s: &Vec<char>) -> (r: Vec<char>)
    ensures
        r@ == trim_start(s@),
{
    let n = s.len();
    let mut i: usize = 0;
    assert(s@.subrange(0, n as int) =~= s@);
    while i < n && crate::text::is_whitespace(s[i])
        invariant
            n == s.len(),
            i <= n,
            trim_start(s@) == trim_start(s@.subrange(i as int, n as int)),
        decreases n - i,
    {
        assert(s@.subrange(i as int, n as int).drop_first() =~= s@.subrange(i + 1, n as int));
        i = i + 1;
    }
    slice_of(s, i, n)
}

/// The method and target of the request line.
pub fn parse_request_line(request: &str) -> (r: Option<(String, String)>)
    ensures
        match r {
            Some((m, t)) => request_line_spec(request@) == Some((m@, t@)),
            None => request_line_spec(request@) is None,
        },
{
    let ls = lines_of(&chars_of(request));
    let first: Vec<char> = if ls.len() > 0 {
        ls[0].clone()
    } else {
        Vec::new()
    };
    assert(first@ == first_line(request@)) by {
        if ls@.len() > 0 {
            assert(views(ls@)[0] == ls@[0]@);
        }
    }
    let parts = words_of(&first, 3);
    if parts.len() < 3 {
        return None;
    }
    proof {
        assert(views(parts@)[0] == parts@[0]@);
        assert(views(parts@)[1] == parts@[1]@);
        assert(words(first@).take(3)[0] == words(first@)[0]);
        assert(words(first@).take(3)[1] == words(first@)[1]);
    }
    Some((string_of(&parts[0]), string_of(&parts[1])))
}

/// What the proxy does with a request.
pub enum ProxyRoute {
    /// Open a tunnel to `host:port` (HTTPS).
    Tunnel(String),
    /// Forward a plain HTTP request for an absolute URL.
    Forward(String),
    /// Drop the connection.
    Drop,
}

/// The route of a request line: `CONNECT` tunnels, an absolute `http://` or
/// `https://` target is forwarded, anything else is dropped.
pub fn route_request(method: &str, target: &str) -> (r: ProxyRoute)
    ensures
        method@ == "CONNECT"@ ==> (r matches ProxyRoute::Tunnel(t) && t@ == target@),
        method@ != "CONNECT"@ && (has_prefix(target@, "http://"@) || has_prefix(
            target@,
            "https://"@,
        )) ==> (r matches ProxyRoute::Forward(t) && t@ == target@),
        method@ != "CONNECT"@ && !has_prefix(target@, "http://"@) && !has_prefix(
            target@,
            "https://"@,
        ) ==> r is Drop,
{
    let m = chars_of(method);
    let c = chars_of("CONNECT");
    if m.len() == c.len() && starts_with(&m, &c) {
        proof {
            assert(m@.subrange(0, c@.len() as int) =~= m@);
        }
        return ProxyRoute::Tunnel(target.to_string());
    }
    proof {
        if m@ == c@ {
            assert(m@.subrange(0, c@.len() as int) =~= m@);
        }
    }
    let t = chars_of(target);
    if starts_with(&t, &chars_of("http://")) || starts_with(&t, &chars_of("https://")) {
        ProxyRoute::Forward(target.to_string())
    } else {
        ProxyRoute::Drop
    }
}

/// Where a forwarded request goes and what it asks the server for.
pub struct Origin {
    pub host: String,
    pub port: u16,
    /// The path and the query, in origin form.
    pub request_target: String,
}

/// The origin form of a parsed URL: host (empty when none), port (80 when
/// none is written), and path followed by `?query` when there is a query.
pub open spec fn origin_spec(url: Seq<char>) -> Option<(Seq<char>, u16, Seq<char>)> {
    match (url_path_spec(url), url_port_spec(url), url_query_spec(url)) {
        (Some(path), Some(port), Some(query)) => Some(
            (
                match url_host_spec(url) {
                    Some(h) => h,
                    None => seq![],
                },
                match port {
                    Some(p) => p,
                    None => 80,
                },
                path + match query {
                    Some(q) => "?"@ + q,
                    None => seq![],
                },
            ),
        ),
        _ => None,
    }
}

/// The host, port and origin-form target of an absolute URL; `None` when it
/// does not parse.
pub fn origin_of(url: &str) -> (r: Option<Origin>)
    ensures
        match r {
            Some(o) => origin_spec(url@) == Some((o.host@, o.port, o.request_target@)),
            None => origin_spec(url@) is None,
        },
{
    let path = url_path(url);
    let port = url_port(url);
    let query = url_query(url);
    match (path, port, query) {
        (Some(p), Some(pt), Some(q)) => {
            let host = match url_host(url) {
                Some(h) => h,
                None => String::new(),
            };
            let port = match pt {
                Some(x) => x,
                None => 80,
            };
            let mut t = chars_of(p.as_str());
            match q {
                Some(qs) => {
                    append_chars(&mut t, &chars_of("?"));
                    append_chars(&mut t, &chars_of(qs.as_str()));
                },
                None => {},
            }
            Some(Origin { host, port, request_target: string_of(&t) })
        },
        _ => None,
    }
}

/// The first occurrence of `from` in `s` replaced by `to` (`str::replacen` with 1).
pub open spec fn replace_first_spec(s: Seq<char>, from: Seq<char>, to: Seq<char>) -> Seq<char> {
    match find(s, from) {
        Some(i) => s.subrange(0, i) + to + s.subrange(i + from.len(), s.len() as int),
        None => s,
    }
}

/// The request with its absolute target replaced by the origin-form target.
pub fn rewrite_request(request: &str, target: &str, request_target: &str) -> (r: String)
    ensures
        r@ == replace_first_spec(request@, target@, request_target@),
{
    let s = chars_of(request);
    let f = chars_of(target);
    proof {
        lemma_find_contains(s@, f@);
    }
    match find_in(&s, &f) {
        Some(i) => {
            assert(crate::text::occurs_at(s@, f@, i as int));
            assert(i + f@.len() <= s@.len());
            assert(s@.len() == s.len() && f@.len() == f.len());
            let mut out = slice_of(&s, 0, i);
            append_chars(&mut out, &chars_of(request_target));
            append_chars(&mut out, &slice_of(&s, i + f.len(), s.len()));
            string_of(&out)
        },
        None => request.to_string(),
    }
}

// ------------------------------------------------------------------
// The response
// ------------------------------------------------------------------

/// Content types of video and streaming manifests.
pub open spec fn video_content_types() -> Seq<Seq<char>> {
    seq![
        "video/mp2t"@, "video/mp4"@, "video/webm"@, "video/x-matroska"@, "video/quicktime"@,
        "video/x-flv"@, "video/3gpp"@, "application/vnd.apple.mpegurl"@, "application/x-mpegurl"@,
        "application/dash+xml"@, "video/mpeg"@,
    ]
}

/// A content type names a video or a streaming manifest.
pub open spec fn is_video_type(ct: Seq<char>) -> bool {
    exists|i: int| 0 <= i < 11 && contains(ct, #[trigger] video_content_types()[i])
}

/// A lowercase request target that looks like a stream segment or manifest.
pub open spec fn video_target_spec(lower: Seq<char>) -> bool {
    has_suffix(lower, ".ts"@) || has_suffix(lower, ".m4s"@) || has_suffix(lower, ".m3u8"@)
        || has_suffix(lower, ".mpd"@) || contains(lower, ".ts?"@) || contains(lower, "seg-"@)
}

/// What the head of a response tells: the length of the body (-1 when not
/// given), the lowercase content type, and whether the body is video.
pub type HeadInfo = (i64, Seq<char>, bool);

/// One header line: `content-length:` sets the length when it parses,
/// `content-type:` sets the type and may mark video, and every line checks
/// the target's extension while the response is not yet video.
pub open spec fn head_step(acc: HeadInfo, line: Seq<char>, target: Seq<char>) -> HeadInfo {
    let lower = unicode_lowercase(line);
    let len = if has_prefix(lower, "content-length:"@) {
        match parse_i64_spec(trim(strip_prefix_all(lower, "content-length:"@))) {
            Some(v) => v,
            None => acc.0,
        }
    } else {
        acc.0
    };
    let (ct, video) = if has_prefix(lower, "content-type:"@) {
        let ct = trim(strip_prefix_all(lower, "content-type:"@));
        (ct, acc.2 || is_video_type(ct))
    } else {
        (acc.1, acc.2)
    };
    (len, ct, video || video_target_spec(unicode_lowercase(target)))
}

/// The head lines read in order.
pub open spec fn head_info(ls: Seq<Seq<char>>, target: Seq<char>) -> HeadInfo
    decreases ls.len(),
{
    if ls.len() == 0 {
        (-1i64, seq![], false)
    } else {
        head_step(head_info(ls.drop_last(), target), ls.last(), target)
    }
}

/// What a response head says about the body that follows.
pub struct ResponseHead {
    pub content_length: i64,
    pub content_type: String,
    pub is_video: bool,
}

/// Whether a content type names a video or manifest type.
fn video_type(ct: &Vec<char>) -> (r: bool)
    ensures
        r == is_video_type(ct@),
{
    let types: [&str; 11] = [
        "video/mp2t", "video/mp4", "video/webm", "video/x-matroska", "video/quicktime",
        "video/x-flv", "video/3gpp", "application/vnd.apple.mpegurl", "application/x-mpegurl",
        "application/dash+xml", "video/mpeg",
    ];
    let ghost tv = types@.map_values(|p: &str| p@);
    assert(tv =~= video_content_types());
    let mut i: usize = 0;
    while i < 11
        invariant
            i <= 11,
            tv == types@.map_values(|p: &str| p@),
            tv == video_content_types(),
            forall|j: int| 0 <= j < i ==> !contains(ct@, #[trigger] video_content_types()[j]),
        decreases 11 - i,
    {
        assert(tv[i as int] == types@[i as int]@);
        if contains_in(ct, &chars_of(types[i])) {
            return true;
        }
        i = i + 1;
    }
    false
}

/// Whether a lowercase target looks like a segment or manifest.
fn video_target(lower: &Vec<char>) -> (r: bool)
    ensures
        r == video_target_spec(lower@),
{
    ends_with(lower, &chars_of(".ts")) || ends_with(lower, &chars_of(".m4s")) || ends_with(
        lower,
        &chars_of(".m3u8"),
    ) || ends_with(lower, &chars_of(".mpd")) || contains_in(lower, &chars_of(".ts?"))
        || contains_in(lower, &chars_of("seg-"))
}

/// Read the head of a response to a request for `target`.
pub fn analyze_response_head(head: &str, target: &str) -> (r: ResponseHead)
    ensures
        head_info(lines(head@), target@) == (r.content_length, r.content_type@, r.is_video),
{
    let ls = lines_of(&chars_of(head));
    let ghost lv = views(ls@);
    let target_video = video_target(&lower_chars_of(target));
    let cl = chars_of("content-length:");
    let ctp = chars_of("content-type:");
    let mut len: i64 = -1;
    let mut ct: Vec<char> = Vec::new();
    let mut video = false;
    let mut i: usize = 0;
    while i < ls.len()
        invariant
            i <= ls.len(),
            lv == views(ls@),
            cl@ == "content-length:"@,
            ctp@ == "content-type:"@,
            target_video == video_target_spec(unicode_lowercase(target@)),
            (len, ct@, video) == head_info(lv.subrange(0, i as int), target@),
        decreases ls.len() - i,
    {
        let ghost sub = lv.subrange(0, i + 1);
        assert(sub.drop_last() =~= lv.subrange(0, i as int));
        assert(sub.last() == ls@[i as int]@);
        let lower = lower_chars_of(string_of(&ls[i]).as_str());
        if starts_with(&lower, &cl) {
            match parse_i64_of(&trim_of(&trim_start_matches(&lower, &cl))) {
                Some(v) => {
                    len = v;
                },
                None => {},
            }
        }
        if starts_with(&lower, &ctp) {
            ct = trim_of(&trim_start_matches(&lower, &ctp));
            if video_type(&ct) {
                video = true;
            }
        }
        if target_video {
            video = true;
        }
        i = i + 1;
    }
    assert(lv.subrange(0, ls.len() as int) =~= lv);
    ResponseHead { content_length: len, content_type: string_of(&ct), is_video: video }
}

/// The extension a captured body is saved with: `m3u8` for an HLS playlist,
/// `mpd` for a DASH manifest, `ts` for a transport stream, `m4s` for a
/// fragmented MP4 segment, `bin` otherwise.
pub open spec fn segment_ext_spec(content_type: Seq<char>, target: Seq<char>) -> Seq<char> {
    if contains(content_type, "mpegurl"@) {
        "m3u8"@
    } else if contains(content_type, "dash+xml"@) {
        "mpd"@
    } else if has_suffix(target, ".ts"@) || contains(content_type, "mp2t"@) {
        "ts"@
    } else if has_suffix(target, ".m4s"@) {
        "m4s"@
    } else {
        "bin"@
    }
}

/// The extension a captured body is saved with.
pub fn segment_extension(content_type: &str, target: &str) -> (r: &'static str)
    ensures
        r@ == segment_ext_spec(content_type@, target@),
{
    let c = chars_of(content_type);
    let t = chars_of(target);
    if contains_in(&c, &chars_of("mpegurl")) {
        "m3u8"
    } else if contains_in(&c, &chars_of("dash+xml")) {
        "mpd"
    } else if ends_with(&t, &chars_of(".ts")) || contains_in(&c, &chars_of("mp2t")) {
        "ts"
    } else if ends_with(&t, &chars_of(".m4s")) {
        "m4s"
    } else {
        "bin"
    }
}

/// `NNNNN.ext`: the capture number with five digits, then the extension.
pub open spec fn capture_name_spec(seq_no: nat, ext: Seq<char>) -> Seq<char> {
    decimal_padded(seq_no, 5) + "."@ + ext
}

/// The file name of the `seq_no`-th captured body.
pub fn capture_name(seq_no: u64, ext: &str) -> (r: String)
    ensures
        r@ == capture_name_spec(seq_no as nat, ext@),
{
    let mut v = decimal_padded_of(seq_no, 5);
    append_chars(&mut v, &chars_of("."));
    append_chars(&mut v, &chars_of(ext));
    string_of(&v)
}

/// Whether a `Content-Type` line of the head contains `needle`.
pub open spec fn content_type_contains_spec(headers: Seq<char>, needle: Seq<char>) -> bool {
    exists|i: int|
        0 <= i < lines(headers).len() && has_prefix(
            unicode_lowercase(#[trigger] lines(headers)[i]),
            "content-type:"@,
        ) && contains(unicode_lowercase(lines(headers)[i]), needle)
}

/// Whether some `Content-Type` line of the head contains `needle`
/// (compared in lowercase).
pub fn content_type_contains(headers: &str, needle: &str) -> (r: bool)
    ensures
        r == content_type_contains_spec(headers@, needle@),
{
    let ls = lines_of(&chars_of(headers));
    let ghost lv = views(ls@);
    let n = chars_of(needle);
    let ctp = chars_of("content-type:");
    let mut i: usize = 0;
    while i < ls.len()
        invariant
            i <= ls.len(),
            lv == views(ls@),
            lv == lines(headers@),
            n@ == needle@,
            ctp@ == "content-type:"@,
            forall|j: int|
                0 <= j < i ==> !(has_prefix(unicode_lowercase(#[trigger] lv[j]), "content-type:"@)
                    && contains(unicode_lowercase(lv[j]), needle@)),
        decreases ls.len() - i,
    {
        assert(lv[i as int] == ls@[i as int]@);
        let lower = lower_chars_of(string_of(&ls[i]).as_str());
        if starts_with(&lower, &ctp) && contains_in(&lower, &n) {
            return true;
        }
        i = i + 1;
    }
    false
}

/// A target that the asynchronous proxy captures: its lowercase form
/// mentions `.ts`, `/seg-`, `/chunk` or `segment`.
pub open spec fn video_request_spec(target: Seq<char>) -> bool {
    let t = unicode_lowercase(target);
    contains(t, ".ts"@) || contains(t, "/seg-"@) || contains(t, "/chunk"@) || contains(t, "segment"@)
}

/// Whether a request target is captured by the asynchronous proxy.
pub fn is_video_request(target: &str) -> (r: bool)
    ensures
        r == video_request_spec(target@),
{
    let t = lower_chars_of(target);
    contains_in(&t, &chars_of(".ts")) || contains_in(&t, &chars_of("/seg-")) || contains_in(
        &t,
        &chars_of("/chunk"),
    ) || contains_in(&t, &chars_of("segment"))
}

// ------------------------------------------------------------------
// Tunnels
// ------------------------------------------------------------------

/// Host and port of a `CONNECT` target: the text before the first `:`, and
/// the port after it when it parses, else 443.
pub open spec fn tunnel_target_spec(target: Seq<char>) -> (Seq<char>, u16) {
    let parts = split(target, seq![':']);
    (
        parts[0],
        if parts.len() > 1 {
            match parse_u16_spec(parts[1]) {
                Some(p) => p,
                None => 443,
            }
        } else {
            443
        },
    )
}

/// Host and port of a `CONNECT` target.
pub fn tunnel_target(target: &str) -> (r: (String, u16))
    ensures
        (r.0@, r.1) == tunnel_target_spec(target@),
{
    let colon: [char; 1] = [':'];
    assert(colon@ =~= seq![':']);
    let parts = split_by(&chars_of(target), &colon);
    let ghost pv = views(parts@);
    proof {
        crate::text::lemma_split_nonempty(target@, seq![':']);
    }
    assert(pv[0] == parts@[0]@);
    let port = if parts.len() > 1 {
        assert(pv[1] == parts@[1]@);
        match parse_u16_of(&parts[1]) {
            Some(p) => p,
            None => 443,
        }
    } else {
        443
    };
    (string_of(&parts[0]), port)
}

/// A port given as text, or the default when absent or not a `u16`.
pub open spec fn port_or_spec(text: Option<Seq<char>>, default: u16) -> u16 {
    match text {
        Some(t) => match parse_u16_spec(t) {
            Some(p) => p,
            None => default,
        },
        None => default,
    }
}

/// A port given as text (an argument or an environment variable), or the default.
pub fn port_or(text: Option<&str>, default: u16) -> (r: u16)
    ensures
        r == port_or_spec(
            match text {
                Some(t) => Some(t@),
                None => None,
            },
            default,
        ),
{
    match text {
        Some(t) => match parse_u16_of(&chars_of(t)) {
            Some(p) => p,
            None => default,
        },
        None => default,
    }
}

/// The target of a `CONNECT` head as the asynchronous proxy reads it: the
/// first line without `CONNECT ` in front and ` HTTP/1.1` at the end,
/// trimmed; split at its first `:` into host and port (443 when the port is
/// missing or not a `u16`).
pub open spec fn connect_head_target_spec(head: Seq<char>) -> (Seq<char>, u16) {
    let t = trim(strip_suffix_all(strip_prefix_all(first_line(head), "CONNECT "@), " HTTP/1.1"@));
    match find(t, seq![':']) {
        Some(i) => (
            t.subrange(0, i),
            match parse_u16_spec(t.subrange(i + 1, t.len() as int)) {
                Some(p) => p,
                None => 443,
            },
        ),
        None => (t, 443),
    }
}

/// Host and port of the `CONNECT` head seen by the asynchronous proxy.
pub fn connect_head_target(head: &str) -> (r: (String, u16))
    ensures
        (r.0@, r.1) == connect_head_target_spec(head@),
{
    let ls = lines_of(&chars_of(head));
    let first: Vec<char> = if ls.len() > 0 {
        ls[0].clone()
    } else {
        Vec::new()
    };
    assert(first@ == first_line(head@)) by {
        if ls@.len() > 0 {
            assert(views(ls@)[0] == ls@[0]@);
        }
    }
    let a = trim_start_matches(&first, &chars_of("CONNECT "));
    let b = trim_end_matches(&a, &chars_of(" HTTP/1.1"));
    let t = trim_of(&b);
    let colon: [char; 1] = [':'];
    assert(colon@ =~= seq![':']);
    proof {
        lemma_find_contains(t@, colon@);
    }
    match find_in(&t, &colon) {
        Some(i) => {
            let host = slice_of(&t, 0, i);
            let port = match parse_u16_of(&slice_of(&t, i + 1, t.len())) {
                Some(p) => p,
                None => 443,
            };
            (string_of(&host), port)
        },
        None => (string_of(&t), 443),
    }
}

/// The absolute URL of a request seen by the asynchronous proxy: an
/// `http://` target as it is; a path joined to the `Host` header (the text
/// after its first `:`, trimmed; `localhost` when there is no such header);
/// `None` for anything else.
pub open spec fn absolute_target_spec(request: Seq<char>, target: Seq<char>) -> Option<Seq<char>> {
    if has_prefix(target, "http://"@) {
        Some(target)
    } else if has_prefix(target, "/"@) {
        let host = match host_line(lines(request), 0) {
            Some(l) => {
                let parts = split(l, seq![':']);
                if parts.len() > 1 {
                    trim(parts[1])
                } else {
                    "localhost"@
                }
            },
            None => "localhost"@,
        };
        Some("http://"@ + host + target)
    } else {
        None
    }
}

/// The first line from `i` on whose lowercase form starts with `host:`.
pub open spec fn host_line(ls: Seq<Seq<char>>, i: int) -> Option<Seq<char>>
    decreases ls.len() - i,
{
    if i < 0 || i >= ls.len() {
        None
    } else if has_prefix(unicode_lowercase(ls[i]), "host:"@) {
        Some(ls[i])
    } else {
        host_line(ls, i + 1)
    }
}

/// The absolute URL of a request seen by the asynchronous proxy.
pub fn absolute_target(request: &str, target: &str) -> (r: Option<String>)
    ensures
        match r {
            Some(u) => absolute_target_spec(request@, target@) == Some(u@),
            None => absolute_target_spec(request@, target@) is None,
        },
{
    let t = chars_of(target);
    if starts_with(&t, &chars_of("http://")) {
        return Some(target.to_string());
    }
    if !starts_with(&t, &chars_of("/")) {
        return None;
    }
    let ls = lines_of(&chars_of(request));
    let ghost lv = views(ls@);
    let hp = chars_of("host:");
    let mut found: Option<usize> = None;
    let mut i: usize = 0;
    while i < ls.len() && found.is_none()
        invariant
            i <= ls.len(),
            lv == views(ls@),
            lv == lines(request@),
            hp@ == "host:"@,
            found is None ==> host_line(lv, 0) == host_line(lv, i as int),
            found matches Some(k) ==> k < ls.len() && host_line(lv, 0) == Some(lv[k as int]),
        decreases ls.len() - i,
    {
        assert(lv[i as int] == ls@[i as int]@);
        let lower = lower_chars_of(string_of(&ls[i]).as_str());
        if starts_with(&lower, &hp) {
            found = Some(i);
        }
        i = i + 1;
    }
    let host: Vec<char> = match found {
        Some(k) => {
            assert(lv[k as int] == ls@[k as int]@);
            let colon: [char; 1] = [':'];
            assert(colon@ =~= seq![':']);
            let parts = split_by(&ls[k], &colon);
            assert(views(parts@).len() == parts@.len());
            if parts.len() > 1 {
                assert(views(parts@)[1] == parts@[1]@);
                trim_of(&parts[1])
            } else {
                chars_of("localhost")
            }
        },
        None => chars_of("localhost"),
    };
    let mut u = chars_of("http://");
    append_chars(&mut u, &host);
    append_chars(&mut u, &t);
    Some(string_of(&u))
}

// ------------------------------------------------------------------
// The proxy's own state
// ------------------------------------------------------------------

/// A capturing proxy for one session: where captures go, how many were made,
/// and whether it is running.
pub struct DarkDMProxy {
    running: bool,
    output_dir: String,
    session: String,
    segment_count: u64,
    pub port: u16,
}

impl DarkDMProxy {
    /// Whether the proxy accepts connections.
    pub closed spec fn running_view(&self) -> bool {
        self.running
    }

    /// How many bodies were captured.
    pub closed spec fn count_view(&self) -> u64 {
        self.segment_count
    }

    /// The download directory.
    pub closed spec fn dir_view(&self) -> Seq<char> {
        self.output_dir@
    }

    /// The session name.
    pub closed spec fn session_view(&self) -> Seq<char> {
        self.session@
    }

    /// The port the proxy listens on.
    pub closed spec fn port_view(&self) -> u16 {
        self.port
    }

    /// A stopped proxy on port 8899 with no captures.
    pub fn new(output_dir: &str, session: &str) -> (r: Self)
        ensures
            !r.running_view(),
            r.count_view() == 0,
            r.dir_view() == output_dir@,
            r.session_view() == session@,
            r.port_view() == 8899,
    {
        DarkDMProxy {
            running: false,
            output_dir: output_dir.to_string(),
            session: session.to_string(),
            segment_count: 0,
            port: 8899,
        }
    }

    /// The address to listen on, `127.0.0.1:PORT`; refused while running.
    pub fn listen_address(&self) -> (r: Result<String, String>)
        ensures
            self.running_view() ==> (r matches Err(e) && e@ == "Proxy already running"@),
            !self.running_view() ==> (r matches Ok(a) && a@ == "127.0.0.1:"@ + decimal(
                self.port_view() as nat,
            )),
    {
        if self.running {
            return Err("Proxy already running".to_string());
        }
        let mut a = chars_of("127.0.0.1:");
        append_chars(&mut a, &crate::text::decimal_of(self.port as u64));
        Ok(string_of(&a))
    }

    /// Record that the listener is bound and accepting.
    pub fn mark_started(&mut self)
        ensures
            final(self).running_view(),
            final(self).count_view() == old(self).count_view(),
            final(self).dir_view() == old(self).dir_view(),
            final(self).session_view() == old(self).session_view(),
            final(self).port_view() == old(self).port_view(),
    {
        self.running = true;
    }

    /// Stop accepting connections.
    pub fn stop(&mut self)
        ensures
            !final(self).running_view(),
            final(self).count_view() == old(self).count_view(),
            final(self).dir_view() == old(self).dir_view(),
            final(self).session_view() == old(self).session_view(),
            final(self).port_view() == old(self).port_view(),
    {
        self.running = false;
    }

    /// Whether the proxy is running.
    pub fn is_running(&self) -> (r: bool)
        ensures
            r == self.running_view(),
    {
        self.running
    }

    /// How many bodies were captured.
    pub fn get_segment_count(&self) -> (r: u64)
        ensures
            r == self.count_view(),
    {
        self.segment_count
    }

    /// Take the next capture number (the count before, which then grows by
    /// one, wrapping as an atomic counter does).
    pub fn next_segment(&mut self) -> (r: u64)
        ensures
            r == old(self).count_view(),
            final(self).count_view() == (if old(self).count_view() == u64::MAX {
                0
            } else {
                (old(self).count_view() + 1) as u64
            }),
            final(self).running_view() == old(self).running_view(),
            final(self).dir_view() == old(self).dir_view(),
            final(self).session_view() == old(self).session_view(),
            final(self).port_view() == old(self).port_view(),
    {
        let n = self.segment_count;
        self.segment_count = if n == u64::MAX {
            0
        } else {
            n + 1
        };
        n
    }

    /// Decide the capture of a response to `target` whose head was read as
    /// `head`: a video or manifest body is captured under the next capture
    /// number, and the count grows by one (wrapping); any other body is only
    /// forwarded and the count stays. Returns the file name of the capture.
    pub fn capture(&mut self, head: &ResponseHead, target: &str) -> (r: Option<String>)
        ensures
            head.is_video ==> (r matches Some(name) && name@ == capture_name_spec(
                old(self).count_view() as nat,
                segment_ext_spec(head.content_type@, target@),
            )),
            head.is_video ==> final(self).count_view() == (if old(self).count_view() == u64::MAX {
                0
            } else {
                (old(self).count_view() + 1) as u64
            }),
            !head.is_video ==> r is None && final(self).count_view() == old(self).count_view(),
            final(self).running_view() == old(self).running_view(),
            final(self).dir_view() == old(self).dir_view(),
            final(self).session_view() == old(self).session_view(),
            final(self).port_view() == old(self).port_view(),
    {
        if head.is_video {
            let seq = self.next_segment();
            let ext = segment_extension(head.content_type.as_str(), target);
            Some(capture_name(seq, ext))
        } else {
            None
        }
    }
}

} // verus!
