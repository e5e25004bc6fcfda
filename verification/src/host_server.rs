//! Decisions of the local HTTP server that the browser extension talks to:
//! which handler answers a request, what a download request asks for, the
//! command lines of `curl` and `ffmpeg`, the segment list of a manifest, and
//! the manifest with its advertising segments removed.
use crate::stream::base_url_spec;
use crate::text::{
    append_chars, chars_of, contains, contains_in, decimal_padded, decimal_padded_of, has_prefix,
    is_ws, lines, lines_of, lower_chars_of, starts_with, string_of, string_views, trim, trim_end,
    trim_of, trim_start, unicode_lowercase, views,
};
use vstd::prelude::*;

verus! {

// ------------------------------------------------------------------
// Routing
// ------------------------------------------------------------------

/// Which handler answers a request.
#[derive(Debug, Clone, Copy, PartialEq, Eq, Structural)]
pub enum Route {
    /// CORS preflight, for any path.
    Options,
    /// `GET /health`.
    Health,
    /// `POST /download`.
    Download,
    /// Anything else: 404.
    NotFound,
}

/// The handler for a method and a path.
pub open spec fn route_spec(method: Seq<char>, url: Seq<char>) -> Route {
    if method == "OPTIONS"@ {
        Route::Options
    } else if method == "GET"@ && url == "/health"@ {
        Route::Health
    } else if method == "POST"@ && url == "/download"@ {
        Route::Download
    } else {
        Route::NotFound
    }
}

/// The handler for a request line.
pub fn route(method: &str, url: &str) -> (r: Route)
    ensures
        r == route_spec(method@, url@),
{
    if crate::text::text_eq(method, "OPTIONS") {
        Route::Options
    } else if crate::text::text_eq(method, "GET") && crate::text::text_eq(url, "/health") {
        Route::Health
    } else if crate::text::text_eq(method, "POST") && crate::text::text_eq(url, "/download") {
        Route::Download
    } else {
        Route::NotFound
    }
}

/// The port the server listens on: `DARKDM_PORT` when it holds a port, else 8765.
pub fn server_port(env_value: Option<&str>) -> (r: u16)
    ensures
        r == crate::proxy::port_or_spec(
            match env_value {
                Some(v) => Some(v@),
                None => None,
            },
            8765,
        ),
{
    crate::proxy::port_or(env_value, 8765)
}

// ------------------------------------------------------------------
// Download requests
// ------------------------------------------------------------------

/// The fields of a download request that the server reads, each present only
/// when the JSON value is a string.
pub struct DownloadRequest {
    pub manifest_url: Option<String>,
    pub title: Option<String>,
    pub page_url: Option<String>,
    /// `headers["user-agent"]`, else `headers["User-Agent"]`.
    pub user_agent: Option<String>,
    /// `headers["referer"]`, else `headers["Referer"]`.
    pub referer: Option<String>,
    pub manifest_body: Option<String>,
}

/// What the server does for an accepted download request.
pub struct HostJob {
    pub manifest_url: String,
    pub user_agent: String,
    pub referer: String,
    /// The name of the output file in the download directory.
    pub file_name: String,
    /// The manifest the browser already fetched, when it sent a non-empty one.
    pub manifest_body: Option<String>,
}

/// The browser identity used when the request names none.
pub open spec fn default_user_agent() -> Seq<char> {
    "Mozilla/5.0 (X11; Linux x86_64) AppleWebKit/537.36 (KHTML, like Gecko) Chrome/125.0.0.0 Safari/537.36"@
}

/// Whether `char::is_alphanumeric` holds of a character.
pub uninterp spec fn is_alphanumeric_spec(c: char) -> bool;

/// `char::is_alphanumeric`.
#[verifier::external_body]
fn char_is_alphanumeric(c: char) -> (r: bool)
    ensures
        r == is_alphanumeric_spec(c),
{
    c.is_alphanumeric()
}

/// A character kept in a file name made from a title.
pub open spec fn title_char(c: char) -> bool {
    is_alphanumeric_spec(c) || c == ' ' || c == '-' || c == '_'
}

/// The characters of a title that are kept in a file name.
pub open spec fn title_chars(s: Seq<char>) -> Seq<char>
    decreases s.len(),
{
    if s.len() == 0 {
        seq![]
    } else if title_char(s.last()) {
        title_chars(s.drop_last()).push(s.last())
    } else {
        title_chars(s.drop_last())
    }
}

/// The file stem made from a title: its letters, digits, spaces, dashes and
/// underscores, trimmed, at most 80 characters; `darkdm_video` when nothing is left.
pub open spec fn safe_title_spec(title: Seq<char>) -> Seq<char> {
    let t = trim(title_chars(title));
    let k = if t.len() < 80 {
        t.len() as int
    } else {
        80
    };
    if k == 0 {
        "darkdm_video"@
    } else {
        t.subrange(0, k)
    }
}

/// The file stem made from a title.
pub fn safe_title(title: &str) -> (r: String)
    ensures
        r@ == safe_title_spec(title@),
{
    let s = chars_of(title);
    let mut kept: Vec<char> = Vec::new();
    let mut i: usize = 0;
    while i < s.len()
        invariant
            i <= s.len(),
            kept@ == title_chars(s@.subrange(0, i as int)),
        decreases s.len() - i,
    {
        let c = s[i];
        let keep = char_is_alphanumeric(c) || c == ' ' || c == '-' || c == '_';
        assert(s@.subrange(0, i + 1).drop_last() =~= s@.subrange(0, i as int));
        if keep {
            kept.push(c);
        }
        i = i + 1;
    }
    assert(s@.subrange(0, s.len() as int) =~= s@);
    let t = trim_of(&kept);
    let k = if t.len() < 80 {
        t.len()
    } else {
        80
    };
    if k == 0 {
        "darkdm_video".to_string()
    } else {
        string_of(&crate::text::slice_of(&t, 0, k))
    }
}

/// The text of an optional string, or the fallback.
pub open spec fn or_text(o: Option<String>, d: Seq<char>) -> Seq<char> {
    match o {
        Some(s) => s@,
        None => d,
    }
}

/// The body of the 400 answer to a request without a manifest URL.
pub open spec fn missing_manifest_body() -> Seq<char> {
    "{\"success\":false,\"error\":\"manifest_url is required\"}"@
}

/// What a download request asks for: refused without a non-empty manifest
/// URL; else the file is named after the title (`video` by default) with
/// `.mp4`, the browser identity defaults to a desktop Chrome, the referer to
/// the page URL (empty by default), and an empty manifest body counts as none.
pub fn plan_host_download(req: &DownloadRequest) -> (r: Result<HostJob, String>)
    ensures
        match req.manifest_url {
            Some(u) if u@.len() > 0 => r matches Ok(job) && {
                &&& job.manifest_url@ == u@
                &&& job.user_agent@ == or_text(req.user_agent, default_user_agent())
                &&& job.referer@ == or_text(req.referer, or_text(req.page_url, seq![]))
                &&& job.file_name@ == safe_title_spec(or_text(req.title, "video"@)) + ".mp4"@
                &&& job.manifest_body == (match req.manifest_body {
                    Some(b) if b@.len() > 0 => Some(b),
                    _ => None,
                })
            },
            _ => r matches Err(body) && body@ == missing_manifest_body(),
        },
{
    let manifest_url = match &req.manifest_url {
        Some(u) if u.as_str().unicode_len() > 0 => u.clone(),
        _ => {
            return Err("{\"success\":false,\"error\":\"manifest_url is required\"}".to_string());
        },
    };
    let title = match &req.title {
        Some(t) => t.clone(),
        None => "video".to_string(),
    };
    let page_url = match &req.page_url {
        Some(p) => p.clone(),
        None => String::new(),
    };
    let user_agent = match &req.user_agent {
        Some(a) => a.clone(),
        None => "Mozilla/5.0 (X11; Linux x86_64) AppleWebKit/537.36 (KHTML, like Gecko) Chrome/125.0.0.0 Safari/537.36".to_string(),
    };
    let referer = match &req.referer {
        Some(x) => x.clone(),
        None => page_url,
    };
    let mut name = chars_of(safe_title(title.as_str()).as_str());
    append_chars(&mut name, &chars_of(".mp4"));
    let manifest_body = match &req.manifest_body {
        Some(b) if b.as_str().unicode_len() > 0 => Some(b.clone()),
        _ => None,
    };
    Ok(HostJob { manifest_url, user_agent, referer, file_name: string_of(&name), manifest_body })
}

// ------------------------------------------------------------------
// Command lines
// ------------------------------------------------------------------

/// `ffmpeg` copying an HLS stream into an MP4 file, with the browser identity
/// and, when not empty, the referer.
pub open spec fn ffmpeg_copy_args_spec(
    user_agent: Seq<char>,
    referer: Seq<char>,
    input: Seq<char>,
    output: Seq<char>,
) -> Seq<Seq<char>> {
    seq!["-y"@, "-hide_banner"@, "-loglevel"@, "error"@, "-user_agent"@, user_agent] + (if referer.len()
        > 0 {
        seq!["-referer"@, referer]
    } else {
        seq![]
    }) + seq!["-i"@, input, "-c"@, "copy"@, "-movflags"@, "+faststart"@, output]
}

/// Push a literal argument.
fn push_arg(v: &mut Vec<String>, a: &str)
    ensures
        string_views(final(v)@) == string_views(old(v)@).push(a@),
{
    let ghost before = v@;
    v.push(a.to_string());
    assert(string_views(v@) =~= string_views(before).push(a@));
}

/// The arguments of `ffmpeg` copying an HLS stream into an MP4 file.
pub fn ffmpeg_copy_args(user_agent: &str, referer: &str, input: &str, output: &str) -> (r: Vec<String>)
    ensures
        string_views(r@) == ffmpeg_copy_args_spec(user_agent@, referer@, input@, output@),
{
    let mut v: Vec<String> = Vec::new();
    push_arg(&mut v, "-y");
    push_arg(&mut v, "-hide_banner");
    push_arg(&mut v, "-loglevel");
    push_arg(&mut v, "error");
    push_arg(&mut v, "-user_agent");
    push_arg(&mut v, user_agent);
    if referer.unicode_len() > 0 {
        push_arg(&mut v, "-referer");
        push_arg(&mut v, referer);
    }
    push_arg(&mut v, "-i");
    push_arg(&mut v, input);
    push_arg(&mut v, "-c");
    push_arg(&mut v, "copy");
    push_arg(&mut v, "-movflags");
    push_arg(&mut v, "+faststart");
    push_arg(&mut v, output);
    assert(string_views(v@) =~= ffmpeg_copy_args_spec(user_agent@, referer@, input@, output@));
    v
}

/// `curl` fetching a URL silently, following redirects, with the browser
/// identity and the referer.
pub open spec fn curl_args_spec(user_agent: Seq<char>, referer: Seq<char>, url: Seq<char>) -> Seq<
    Seq<char>,
> {
    seq!["-s"@, "-L"@, "-A"@, user_agent, "-H"@, "Referer: "@ + referer, url]
}

/// The arguments of `curl` fetching a URL as the browser would.
pub fn curl_args(user_agent: &str, referer: &str, url: &str) -> (r: Vec<String>)
    ensures
        string_views(r@) == curl_args_spec(user_agent@, referer@, url@),
{
    let mut v: Vec<String> = Vec::new();
    push_arg(&mut v, "-s");
    push_arg(&mut v, "-L");
    push_arg(&mut v, "-A");
    push_arg(&mut v, user_agent);
    push_arg(&mut v, "-H");
    let mut h = chars_of("Referer: ");
    append_chars(&mut h, &chars_of(referer));
    let hs = string_of(&h);
    push_arg(&mut v, hs.as_str());
    push_arg(&mut v, url);
    assert(string_views(v@) =~= curl_args_spec(user_agent@, referer@, url@));
    v
}

// ------------------------------------------------------------------
// Segments
// ------------------------------------------------------------------

/// A manifest line that names a segment: not a tag and not blank.
pub open spec fn is_segment_line(l: Seq<char>) -> bool {
    !has_prefix(l, "#"@) && trim(l).len() > 0
}

/// A segment line made absolute: kept when it starts with `http`, else
/// appended to the base.
pub open spec fn absolute_spec(base: Seq<char>, l: Seq<char>) -> Seq<char> {
    if has_prefix(l, "http"@) {
        l
    } else {
        base + l
    }
}

/// The segment URLs of manifest lines, in order.
pub open spec fn segment_urls_of(ls: Seq<Seq<char>>, base: Seq<char>) -> Seq<Seq<char>>
    decreases ls.len(),
{
    if ls.len() == 0 {
        seq![]
    } else if is_segment_line(ls.last()) {
        segment_urls_of(ls.drop_last(), base).push(absolute_spec(base, ls.last()))
    } else {
        segment_urls_of(ls.drop_last(), base)
    }
}

/// Whether a line names a segment.
fn segment_line(l: &Vec<char>) -> (r: bool)
    ensures
        r == is_segment_line(l@),
{
    !starts_with(l, &chars_of("#")) && trim_of(l).len() > 0
}

/// The segment URLs of a manifest fetched from `url`, each made absolute
/// against the manifest's directory.
pub fn manifest_segments(content: &str, url: &str) -> (r: Vec<String>)
    ensures
        string_views(r@) == segment_urls_of(lines(content@), base_url_spec(url@)),
{
    let base = chars_of(crate::stream::get_base_url(url).as_str());
    let ls = lines_of(&chars_of(content));
    let ghost lv = views(ls@);
    let http = chars_of("http");
    let mut out: Vec<String> = Vec::new();
    let mut i: usize = 0;
    while i < ls.len()
        invariant
            i <= ls.len(),
            lv == views(ls@),
            http@ == "http"@,
            string_views(out@) == segment_urls_of(lv.subrange(0, i as int), base@),
        decreases ls.len() - i,
    {
        let ghost sub = lv.subrange(0, i + 1);
        assert(sub.drop_last() =~= lv.subrange(0, i as int));
        assert(sub.last() == ls@[i as int]@);
        if segment_line(&ls[i]) {
            let u = if starts_with(&ls[i], &http) {
                string_of(&ls[i])
            } else {
                let mut x = base.clone();
                append_chars(&mut x, &ls[i]);
                string_of(&x)
            };
            let ghost before = out@;
            out.push(u);
            assert(string_views(out@) =~= string_views(before).push(u@));
        }
        i = i + 1;
    }
    assert(lv.subrange(0, ls.len() as int) =~= lv);
    out
}

/// A content type of an image: the segments are pictures, not video.
pub open spec fn image_type_spec(ct: Seq<char>) -> bool {
    contains(ct, "image/png"@) || contains(ct, "image/jpeg"@) || contains(ct, "image/gif"@)
}

/// Whether the content type reported for a segment is an image.
pub fn is_image_content_type(ct: &str) -> (r: bool)
    ensures
        r == image_type_spec(ct@),
{
    let c = chars_of(ct);
    contains_in(&c, &chars_of("image/png")) || contains_in(&c, &chars_of("image/jpeg"))
        || contains_in(&c, &chars_of("image/gif"))
}

/// The name of segment `i`: five digits, zero-padded, then `.ts`.
pub open spec fn segment_name_spec(i: nat) -> Seq<char> {
    decimal_padded(i, 5) + ".ts"@
}

/// The name a downloaded segment is saved under.
pub fn segment_name(i: u64) -> (r: String)
    ensures
        r@ == segment_name_spec(i as nat),
{
    let mut v = decimal_padded_of(i, 5);
    append_chars(&mut v, &chars_of(".ts"));
    string_of(&v)
}

/// The concat-demuxer list of the segments that downloaded.
pub open spec fn concat_list_spec(ok: Seq<bool>) -> Seq<char>
    decreases ok.len(),
{
    if ok.len() == 0 {
        seq![]
    } else if ok.last() {
        concat_list_spec(ok.drop_last()) + "file '"@ + segment_name_spec((ok.len() - 1) as nat) + "'\n"@
    } else {
        concat_list_spec(ok.drop_last())
    }
}

/// The list `ffmpeg -f concat` reads: one `file 'NNNNN.ts'` line for each
/// segment that downloaded, in order.
pub fn concat_list(ok: &[bool]) -> (r: String)
    requires
        ok@.len() <= u64::MAX,
    ensures
        r@ == concat_list_spec(ok@),
{
    let mut out: Vec<char> = Vec::new();
    let mut i: usize = 0;
    while i < ok.len()
        invariant
            i <= ok.len(),
            ok@.len() <= u64::MAX,
            out@ == concat_list_spec(ok@.subrange(0, i as int)),
        decreases ok.len() - i,
    {
        let ghost sub = ok@.subrange(0, i + 1);
        assert(sub.drop_last() =~= ok@.subrange(0, i as int));
        if ok[i] {
            append_chars(&mut out, &chars_of("file '"));
            append_chars(&mut out, &chars_of(segment_name(i as u64).as_str()));
            append_chars(&mut out, &chars_of("'\n"));
        }
        i = i + 1;
    }
    assert(ok@.subrange(0, ok.len() as int) =~= ok@);
    string_of(&out)
}

// ------------------------------------------------------------------
// Manifest cleaning
// ------------------------------------------------------------------

/// Domains of advertising and tracking segments.
pub open spec fn ad_domains() -> Seq<Seq<char>> {
    seq![
        "tiktokcdn.com"@, "doubleclick.net"@, "googlesyndication.com"@, "googleadservices.com"@,
        "facebook.com"@, "fbcdn.net"@, "adsrvr.org"@, "adnxs.com"@,
    ]
}

/// A segment line of an advertisement: its lowercase form names an ad domain.
pub open spec fn is_ad_spec(line: Seq<char>) -> bool {
    exists|i: int| 0 <= i < 8 && contains(unicode_lowercase(line), #[trigger] ad_domains()[i])
}

/// The cleaning so far: the kept lines, how many ads were removed, and the
/// first three removed URLs.
pub type CleanState = (Seq<Seq<char>>, nat, Seq<Seq<char>>);

/// One line of cleaning: an ad segment is dropped together with an `#EXTINF`
/// line right before it; another segment is made absolute; a tag or a blank
/// line is kept.
pub open spec fn clean_step(acc: CleanState, line: Seq<char>, base: Seq<char>) -> CleanState {
    if is_segment_line(line) {
        if is_ad_spec(line) {
            let kept = if acc.0.len() > 0 && has_prefix(acc.0.last(), "#EXTINF"@) {
                acc.0.drop_last()
            } else {
                acc.0
            };
            (kept, acc.1 + 1, if acc.2.len() < 3 {
                acc.2.push(line)
            } else {
                acc.2
            })
        } else {
            (acc.0.push(absolute_spec(base, line)), acc.1, acc.2)
        }
    } else {
        (acc.0.push(line), acc.1, acc.2)
    }
}

/// Cleaning applied to every line, in order.
pub open spec fn clean_lines(ls: Seq<Seq<char>>, base: Seq<char>) -> CleanState
    decreases ls.len(),
{
    if ls.len() == 0 {
        (seq![], 0, seq![])
    } else {
        clean_step(clean_lines(ls.drop_last(), base), ls.last(), base)
    }
}

/// Lines joined with `\n` between them.
pub open spec fn join_lines(ls: Seq<Seq<char>>) -> Seq<char>
    decreases ls.len(),
{
    if ls.len() == 0 {
        seq![]
    } else if ls.len() == 1 {
        ls[0]
    } else {
        join_lines(ls.drop_last()) + seq!['\n'] + ls.last()
    }
}

/// How many lines name a segment.
pub open spec fn count_segments(ls: Seq<Seq<char>>) -> nat
    decreases ls.len(),
{
    if ls.len() == 0 {
        0
    } else {
        count_segments(ls.drop_last()) + if is_segment_line(ls.last()) {
            1nat
        } else {
            0nat
        }
    }
}

/// A manifest without its advertising segments.
pub struct CleanedManifest {
    /// The kept lines joined with `\n`.
    pub text: String,
    /// How many lines the manifest had.
    pub line_count: usize,
    /// How many ad segments were removed.
    pub filtered: usize,
    /// The first three removed segment URLs.
    pub examples: Vec<String>,
    /// How many segments are left.
    pub real_segments: usize,
}

/// The message when only advertising segments are left.
pub open spec fn ad_playing_message() -> Seq<char> {
    "Ad is still playing — wait for the real video to start, then click Download again."@
}

/// Whether the lowercase form of a line names an ad domain.
fn is_ad_line(line: &Vec<char>) -> (r: bool)
    ensures
        r == is_ad_spec(line@),
{
    let l = lower_chars_of(string_of(line).as_str());
    let doms: [&str; 8] = [
        "tiktokcdn.com", "doubleclick.net", "googlesyndication.com", "googleadservices.com",
        "facebook.com", "fbcdn.net", "adsrvr.org", "adnxs.com",
    ];
    let ghost dv = doms@.map_values(|p: &str| p@);
    assert(dv =~= ad_domains());
    let mut i: usize = 0;
    while i < 8
        invariant
            i <= 8,
            l@ == unicode_lowercase(line@),
            dv == doms@.map_values(|p: &str| p@),
            dv == ad_domains(),
            forall|j: int| 0 <= j < i ==> !contains(l@, #[trigger] ad_domains()[j]),
        decreases 8 - i,
    {
        assert(dv[i as int] == doms@[i as int]@);
        if contains_in(&l, &chars_of(doms[i])) {
            return true;
        }
        i = i + 1;
    }
    false
}

/// Remove advertising segments from a manifest fetched from `url`, with the
/// `#EXTINF` tag that announced each; make the other segments absolute.
/// The second result is the refusal when no segment is left.
pub fn clean_manifest_content(manifest_content: &str, url: &str) -> (r: (CleanedManifest, Option<String>))
    ensures
        ({
            let ls = lines(manifest_content@);
            let st = clean_lines(ls, base_url_spec(url@));
            let m = r.0;
            &&& m.text@ == join_lines(st.0)
            &&& m.line_count == ls.len()
            &&& m.filtered == st.1
            &&& string_views(m.examples@) == st.2
            &&& m.real_segments == count_segments(st.0)
            &&& count_segments(st.0) > 0 ==> r.1 is None
            &&& count_segments(st.0) == 0 ==> (r.1 matches Some(e) && e@ == ad_playing_message())
        }),
{
    let base = chars_of(crate::stream::get_base_url(url).as_str());
    let ls = lines_of(&chars_of(manifest_content));
    let ghost lv = views(ls@);
    let extinf = chars_of("#EXTINF");
    let http = chars_of("http");
    let mut kept: Vec<Vec<char>> = Vec::new();
    let mut filtered: usize = 0;
    let mut examples: Vec<String> = Vec::new();
    let mut i: usize = 0;
    while i < ls.len()
        invariant
            i <= ls.len(),
            lv == views(ls@),
            extinf@ == "#EXTINF"@,
            http@ == "http"@,
            filtered <= i,
            (views(kept@), filtered as nat, string_views(examples@)) == clean_lines(
                lv.subrange(0, i as int),
                base@,
            ),
        decreases ls.len() - i,
    {
        let ghost sub = lv.subrange(0, i + 1);
        assert(sub.drop_last() =~= lv.subrange(0, i as int));
        assert(sub.last() == ls@[i as int]@);
        let line = &ls[i];
        let ghost kv = views(kept@);
        let ghost ev = string_views(examples@);
        if segment_line(line) {
            if is_ad_line(line) {
                if kept.len() > 0 && starts_with(&kept[kept.len() - 1], &extinf) {
                    assert(kv.last() == kept@[kept.len() - 1]@);
                    kept.pop();
                    assert(views(kept@) =~= kv.drop_last());
                }
                filtered = filtered + 1;
                if examples.len() < 3 {
                    examples.push(string_of(line));
                    assert(string_views(examples@) =~= ev.push(line@));
                }
            } else {
                let u = if starts_with(line, &http) {
                    line.clone()
                } else {
                    let mut x = base.clone();
                    append_chars(&mut x, line);
                    x
                };
                kept.push(u);
                assert(views(kept@) =~= kv.push(absolute_spec(base@, line@)));
            }
        } else {
            kept.push(line.clone());
            assert(views(kept@) =~= kv.push(line@));
        }
        i = i + 1;
    }
    assert(lv.subrange(0, ls.len() as int) =~= lv);
    // join and count
    let ghost kv = views(kept@);
    let mut text: Vec<char> = Vec::new();
    let mut segs: usize = 0;
    let mut j: usize = 0;
    while j < kept.len()
        invariant
            j <= kept.len(),
            kv == views(kept@),
            segs <= j,
            text@ == join_lines(kv.subrange(0, j as int)),
            segs as nat == count_segments(kv.subrange(0, j as int)),
        decreases kept.len() - j,
    {
        let ghost sub = kv.subrange(0, j + 1);
        assert(sub.drop_last() =~= kv.subrange(0, j as int));
        assert(sub.last() == kept@[j as int]@);
        if j > 0 {
            text.push('\n');
        }
        append_chars(&mut text, &kept[j]);
        if segment_line(&kept[j]) {
            segs = segs + 1;
        }
        j = j + 1;
        proof {
            if j == 1 {
                assert(sub.drop_last() =~= Seq::<Seq<char>>::empty());
            }
        }
    }
    assert(kv.subrange(0, kept.len() as int) =~= kv);
    let refusal = if segs == 0 {
        Some("Ad is still playing — wait for the real video to start, then click Download again.".to_string())
    } else {
        None
    };
    (
        CleanedManifest {
            text: string_of(&text),
            line_count: ls.len(),
            filtered,
            examples,
            real_segments: segs,
        },
        refusal,
    )
}

// ------------------------------------------------------------------
// Laws of the manifest cleaner
// ------------------------------------------------------------------

/// A manifest line stays a segment after cleaning: it names a segment, not
/// an advertisement, and making it absolute does not turn it into a tag,
/// which happens only to a relative line under a base that starts with `#`.
pub open spec fn kept_as_segment(hash_base: bool, l: Seq<char>) -> bool {
    &&& is_segment_line(l)
    &&& !is_ad_spec(l)
    &&& (!hash_base || has_prefix(l, "http"@))
}

/// How many lines stay segments after cleaning.
pub open spec fn real_segment_count(ls: Seq<Seq<char>>, hash_base: bool) -> nat
    decreases ls.len(),
{
    if ls.len() == 0 {
        0
    } else {
        real_segment_count(ls.drop_last(), hash_base) + if kept_as_segment(hash_base, ls.last()) {
            1nat
        } else {
            0nat
        }
    }
}

/// Some character of `s` is not whitespace.
pub open spec fn has_non_ws(s: Seq<char>) -> bool {
    exists|i: int| 0 <= i < s.len() && !is_ws(#[trigger] s[i])
}

proof fn lemma_trim_start_non_ws(s: Seq<char>)
    ensures
        has_non_ws(trim_start(s)) == has_non_ws(s),
    decreases s.len(),
{
    if s.len() > 0 && is_ws(s[0]) {
        let d = s.drop_first();
        lemma_trim_start_non_ws(d);
        if has_non_ws(s) {
            let i = choose|i: int| 0 <= i < s.len() && !is_ws(#[trigger] s[i]);
            assert(d[i - 1] == s[i]);
        }
        if has_non_ws(d) {
            let i = choose|i: int| 0 <= i < d.len() && !is_ws(#[trigger] d[i]);
            assert(s[i + 1] == d[i]);
        }
    }
}

proof fn lemma_trim_end_len(t: Seq<char>)
    ensures
        (trim_end(t).len() > 0) == has_non_ws(t),
    decreases t.len(),
{
    if t.len() > 0 && is_ws(t.last()) {
        let d = t.drop_last();
        lemma_trim_end_len(d);
        if has_non_ws(t) {
            let i = choose|i: int| 0 <= i < t.len() && !is_ws(#[trigger] t[i]);
            assert(d[i] == t[i]);
        }
        if has_non_ws(d) {
            let i = choose|i: int| 0 <= i < d.len() && !is_ws(#[trigger] d[i]);
            assert(t[i] == d[i]);
        }
    } else if t.len() > 0 {
        assert(!is_ws(t[t.len() - 1]));
    }
}

/// A line has something besides whitespace exactly when its trimmed form is not empty.
proof fn lemma_trim_nonempty(s: Seq<char>)
    ensures
        (trim(s).len() > 0) == has_non_ws(s),
{
    lemma_trim_start_non_ws(s);
    lemma_trim_end_len(trim_start(s));
}

/// A segment line made absolute is a segment line unless it is relative and
/// the base starts with `#`.
proof fn lemma_segment_absolute(base: Seq<char>, l: Seq<char>)
    requires
        is_segment_line(l),
    ensures
        is_segment_line(absolute_spec(base, l)) == (has_prefix(l, "http"@) || !has_prefix(
            base,
            "#"@,
        )),
{
    reveal_strlit("#");
    if !has_prefix(l, "http"@) {
        let s = base + l;
        lemma_trim_nonempty(l);
        let i = choose|i: int| 0 <= i < l.len() && !is_ws(#[trigger] l[i]);
        assert(s[base.len() + i] == l[i]);
        lemma_trim_nonempty(s);
        if base.len() == 0 {
            assert(s =~= l);
        } else if has_prefix(base, "#"@) {
            assert(s.subrange(0, 1) =~= base.subrange(0, 1));
        } else {
            assert(s.subrange(0, 1) != "#"@) by {
                if s.subrange(0, 1) =~= "#"@ {
                    assert(base.subrange(0, 1) =~= s.subrange(0, 1));
                }
            }
        }
    }
}

/// Cleaning keeps exactly the lines that stay segments.
proof fn lemma_clean_counts_real(ls: Seq<Seq<char>>, base: Seq<char>)
    ensures
        count_segments(clean_lines(ls, base).0) == real_segment_count(ls, has_prefix(base, "#"@)),
    decreases ls.len(),
{
    reveal_strlit("#");
    reveal_strlit("#EXTINF");
    if ls.len() > 0 {
        let prev = ls.drop_last();
        lemma_clean_counts_real(prev, base);
        let acc = clean_lines(prev, base);
        let line = ls.last();
        if is_segment_line(line) {
            if is_ad_spec(line) {
                if acc.0.len() > 0 && has_prefix(acc.0.last(), "#EXTINF"@) {
                    let x = acc.0.last();
                    assert(x.subrange(0, 7) == "#EXTINF"@);
                    assert(x[0] == x.subrange(0, 7)[0]);
                    assert(x.subrange(0, 1) =~= "#"@);
                    assert(has_prefix(x, "#"@));
                }
            } else {
                lemma_segment_absolute(base, line);
                assert(acc.0.push(absolute_spec(base, line)).drop_last() =~= acc.0);
            }
        } else {
            assert(acc.0.push(line).drop_last() =~= acc.0);
        }
    }
}

/// No segment is left exactly when no line stays a segment.
proof fn lemma_real_count_zero(ls: Seq<Seq<char>>, h: bool)
    ensures
        (real_segment_count(ls, h) == 0) == (forall|i: int|
            0 <= i < ls.len() ==> !kept_as_segment(h, #[trigger] ls[i])),
    decreases ls.len(),
{
    if ls.len() > 0 {
        let d = ls.drop_last();
        lemma_real_count_zero(d, h);
        if real_segment_count(ls, h) == 0 {
            assert forall|i: int| 0 <= i < ls.len() implies !kept_as_segment(h, #[trigger] ls[i]) by {
                if i < ls.len() - 1 {
                    assert(d[i] == ls[i]);
                }
            }
        } else if real_segment_count(d, h) > 0 {
            let i = choose|i: int| 0 <= i < d.len() && kept_as_segment(h, #[trigger] d[i]);
            assert(ls[i] == d[i]);
        } else {
            assert(kept_as_segment(h, ls[ls.len() - 1]));
        }
    }
}

/// The cleaner refuses a manifest exactly when no segment would be left:
/// every segment line is an advertisement or, for a manifest URL that starts
/// with `#`, a relative line (which the `#` base turns into a tag). For any web
/// URL this is: every segment line is an advertisement.
pub proof fn law_refused_iff_only_ads(content: Seq<char>, url: Seq<char>)
    ensures
        (count_segments(clean_lines(lines(content), base_url_spec(url)).0) == 0) == (forall|i: int|
            0 <= i < lines(content).len() && is_segment_line(#[trigger] lines(content)[i])
                ==> is_ad_spec(lines(content)[i]) || (has_prefix(url, "#"@) && !has_prefix(
                lines(content)[i],
                "http"@,
            ))),
{
    let base = base_url_spec(url);
    let ls = lines(content);
    reveal_strlit("#");
    assert(has_prefix(base, "#"@) == has_prefix(url, "#"@)) by {
        crate::text::lemma_rfind_upto(url, seq!['/'], url.len() - 1);
        if has_prefix(base, "#"@) {
            assert(base[0] == base.subrange(0, 1)[0]);
            assert(url[0] == base[0]);
            assert(url.subrange(0, 1) =~= base.subrange(0, 1));
        }
        if has_prefix(url, "#"@) {
            assert(url[0] == url.subrange(0, 1)[0]);
            assert(base[0] == url[0]);
            assert(url.subrange(0, 1) =~= base.subrange(0, 1));
        }
    }
    let h = has_prefix(base, "#"@);
    lemma_clean_counts_real(ls, base);
    lemma_real_count_zero(ls, h);
    assert forall|i: int| 0 <= i < ls.len() implies (!kept_as_segment(h, #[trigger] ls[i])) == (
    is_segment_line(ls[i]) ==> is_ad_spec(ls[i]) || (has_prefix(url, "#"@) && !has_prefix(
        ls[i],
        "http"@,
    ))) by {}
}

} // verus!
