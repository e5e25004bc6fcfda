//! Site extractors: which URLs each one handles, and how the page or the
//! output of `yt-dlp` becomes download links. Fetching pages and running
//! `yt-dlp` is left to the caller, which hands the results back here.
use crate::html::{element_view, elements_view, html_select, html_select_spec, Element};
use crate::probe::opt_view;
use crate::text::{
    chars_of, contains, contains_in, ends_with, find, has_suffix, lemma_find_contains, lines,
    lines_of, slice_of, string_of, trim, trim_of, find_in,
};
use crate::urls::{
    url_host, url_host_spec, url_last_segment, url_last_segment_spec, url_serialize,
    url_serialize_spec,
};
use vstd::prelude::*;

verus! {

// ------------------------------------------------------------------
// Links and errors
// ------------------------------------------------------------------

/// A download link found for a page.
pub struct DetectedLink {
    pub url: String,
    pub filename: Option<String>,
    pub size: Option<u64>,
}

/// A link as plain values.
pub open spec fn link_view(l: DetectedLink) -> (Seq<char>, Option<Seq<char>>, Option<u64>) {
    (l.url@, opt_view(l.filename), l.size)
}

/// Links as plain values.
pub open spec fn links_view(v: Seq<DetectedLink>) -> Seq<(Seq<char>, Option<Seq<char>>, Option<u64>)> {
    v.map_values(|l: DetectedLink| link_view(l))
}

impl DetectedLink {
    /// A link with nothing known but its URL.
    pub fn direct(url: String) -> (r: Self)
        ensures
            link_view(r) == (url@, None::<Seq<char>>, None::<u64>),
    {
        DetectedLink { url, filename: None, size: None }
    }

    /// A link with a file name and a size, where known.
    pub fn with_metadata(url: String, filename: Option<String>, size: Option<u64>) -> (r: Self)
        ensures
            link_view(r) == (url@, opt_view(filename), size),
    {
        DetectedLink { url, filename, size }
    }
}

/// Why an extractor found no link.
pub enum ExtractError {
    Network(String),
    Parse(String),
    NotFound(String),
}

/// The text an error is shown as.
pub open spec fn error_message_spec(e: ExtractError) -> Seq<char> {
    match e {
        ExtractError::Network(m) => "Network error: "@ + m@,
        ExtractError::Parse(m) => "Parse error: "@ + m@,
        ExtractError::NotFound(m) => "Not found: "@ + m@,
    }
}

/// A network error with the given text.
pub open spec fn is_network(e: ExtractError, m: Seq<char>) -> bool {
    e matches ExtractError::Network(x) && x@ == m
}

/// A parse error with the given text.
pub open spec fn is_parse(e: ExtractError, m: Seq<char>) -> bool {
    e matches ExtractError::Parse(x) && x@ == m
}

/// A not-found error with the given text.
pub open spec fn is_not_found(e: ExtractError, m: Seq<char>) -> bool {
    e matches ExtractError::NotFound(x) && x@ == m
}

impl ExtractError {
    /// A network error.
    pub fn network(e: &str) -> (r: Self)
        ensures
            is_network(r, e@),
    {
        ExtractError::Network(e.to_string())
    }

    /// A parse error.
    pub fn parse(e: &str) -> (r: Self)
        ensures
            is_parse(r, e@),
    {
        ExtractError::Parse(e.to_string())
    }

    /// A not-found error.
    pub fn not_found(msg: &str) -> (r: Self)
        ensures
            is_not_found(r, msg@),
    {
        ExtractError::NotFound(msg.to_string())
    }

    /// `Network error: ..`, `Parse error: ..` or `Not found: ..`.
    pub fn message(&self) -> (r: String)
        ensures
            r@ == error_message_spec(*self),
    {
        let (head, m) = match self {
            ExtractError::Network(m) => ("Network error: ", m),
            ExtractError::Parse(m) => ("Parse error: ", m),
            ExtractError::NotFound(m) => ("Not found: ", m),
        };
        proof {
            reveal_strlit("Network error: ");
            reveal_strlit("Parse error: ");
            reveal_strlit("Not found: ");
        }
        let mut out = chars_of(head);
        crate::text::append_chars(&mut out, &chars_of(m.as_str()));
        string_of(&out)
    }
}

/// What a finished external process handed back.
pub struct ProcessOutput {
    pub success: bool,
    pub stdout: String,
    pub stderr: String,
}

/// The host of a URL, or the empty text when it has none.
pub open spec fn host_or_empty(url: Seq<char>) -> Seq<char> {
    match url_host_spec(url) {
        Some(h) => h,
        None => seq![],
    }
}

/// `Url::host_str` of a URL, or the empty string.
fn host_chars(url: &str) -> (r: Vec<char>)
    ensures
        r@ == host_or_empty(url@),
        r@.len() > 0 ==> url_serialize_spec(url@) is Some,
{
    match url_host(url) {
        Some(h) => chars_of(h.as_str()),
        None => Vec::new(),
    }
}

// ------------------------------------------------------------------
// MediaFire
// ------------------------------------------------------------------

/// Selector of the download button of a MediaFire page.
pub open spec fn button_selector() -> Seq<char> {
    "#downloadButton"@
}

/// Selector of the links whose target mentions a download.
pub open spec fn download_link_selector() -> Seq<char> {
    "a[href*='download']"@
}

/// First target among `links[i..]` that mentions both `download` and `mediafire.com`.
pub open spec fn first_mediafire_href(links: Seq<(Option<Seq<char>>, Seq<char>)>, i: int) -> Option<
    Seq<char>,
>
    decreases links.len() - i,
{
    if i < 0 || i >= links.len() {
        None
    } else if links[i].0 matches Some(h) && contains(h, "download"@) && contains(
        h,
        "mediafire.com"@,
    ) {
        links[i].0
    } else {
        first_mediafire_href(links, i + 1)
    }
}

/// The download target of a MediaFire page: the target of the first download
/// button if it has one, else the first mediafire download link.
pub open spec fn mediafire_href_spec(
    buttons: Seq<(Option<Seq<char>>, Seq<char>)>,
    links: Seq<(Option<Seq<char>>, Seq<char>)>,
) -> Option<Seq<char>> {
    if buttons.len() > 0 && buttons[0].0 is Some {
        buttons[0].0
    } else {
        first_mediafire_href(links, 0)
    }
}

/// The message when a MediaFire page has no download link.
pub open spec fn mediafire_missing() -> Seq<char> {
    "No download button found on MediaFire page"@
}

/// Extractor for MediaFire file pages.
pub struct MediaFireExtractor;

impl MediaFireExtractor {
    pub fn new() -> Self {
        MediaFireExtractor
    }

    /// `mediafire`.
    pub fn id(&self) -> (r: &'static str)
        ensures
            r@ == "mediafire"@,
    {
        "mediafire"
    }

    /// `MediaFire`.
    pub fn name(&self) -> (r: &'static str)
        ensures
            r@ == "MediaFire"@,
    {
        "MediaFire"
    }

    /// Checked before lower priorities.
    pub fn priority(&self) -> (r: u8)
        ensures
            r == 100,
    {
        100
    }

    /// Whether the URL's host contains `mediafire.com`.
    pub fn can_handle(&self, url: &str) -> (r: bool)
        ensures
            r == (url_host_spec(url@) matches Some(h) && contains(h, "mediafire.com"@)),
    {
        match url_host(url) {
            Some(h) => {
                let pat = chars_of("mediafire.com");
                contains_in(&chars_of(h.as_str()), &pat)
            },
            None => false,
        }
    }

    /// The download target among the download buttons and the download links
    /// of a page, as `mediafire_href_spec` picks it.
    pub fn download_href(buttons: &Vec<Element>, links: &Vec<Element>) -> (r: Option<String>)
        ensures
            opt_view(r) == mediafire_href_spec(elements_view(buttons@), elements_view(links@)),
    {
        let ghost bv = elements_view(buttons@);
        let ghost lv = elements_view(links@);
        if buttons.len() > 0 {
            assert(element_view(buttons@[0]) == bv[0]);
            match &buttons[0].attr {
                Some(h) => {
                    assert(bv[0].0 == Some(h@));
                    return Some(h.clone());
                },
                None => {},
            }
        }
        let dl = chars_of("download");
        let mf = chars_of("mediafire.com");
        let mut i: usize = 0;
        while i < links.len()
            invariant
                i <= links.len(),
                lv == elements_view(links@),
                dl@ == "download"@,
                mf@ == "mediafire.com"@,
                first_mediafire_href(lv, 0) == first_mediafire_href(lv, i as int),
                bv == elements_view(buttons@),
                !(bv.len() > 0 && bv[0].0 is Some),
            decreases links.len() - i,
        {
            assert(element_view(links@[i as int]) == lv[i as int]);
            match &links[i].attr {
                Some(h) => {
                    let hc = chars_of(h.as_str());
                    assert(lv[i as int].0 == Some(h@));
                    if contains_in(&hc, &dl) && contains_in(&hc, &mf) {
                        assert(first_mediafire_href(lv, i as int) == Some(h@));
                        return Some(h.clone());
                    }
                    assert(first_mediafire_href(lv, i as int) == first_mediafire_href(lv, i + 1));
                },
                None => {
                    assert(lv[i as int].0 is None);
                    assert(first_mediafire_href(lv, i as int) == first_mediafire_href(lv, i + 1));
                },
            }
            i = i + 1;
        }
        None
    }

    /// The download link of a MediaFire page.
    pub fn link_from_page(&self, html: &str) -> (r: Result<Vec<DetectedLink>, ExtractError>)
        ensures
            match mediafire_href_spec(
                html_select_spec(html@, button_selector(), "href"@),
                html_select_spec(html@, download_link_selector(), "href"@),
            ) {
                Some(h) => r matches Ok(v) && links_view(v@) == seq![(h, None::<Seq<char>>, None::<u64>)],
                None => r matches Err(e) && is_not_found(e, mediafire_missing()),
            },
    {
        let buttons = html_select(html, "#downloadButton", "href");
        let links = html_select(html, "a[href*='download']", "href");
        match Self::download_href(&buttons, &links) {
            Some(h) => {
                let mut v: Vec<DetectedLink> = Vec::new();
                v.push(DetectedLink::direct(h));
                assert(links_view(v@) =~= seq![link_view(v@[0])]);
                Ok(v)
            },
            None => Err(ExtractError::not_found("No download button found on MediaFire page")),
        }
    }
}

// ------------------------------------------------------------------
// YouTube and other sites served by yt-dlp
// ------------------------------------------------------------------

/// Hosts whose pages `yt-dlp` reads.
pub open spec fn ytdlp_hosts() -> Seq<Seq<char>> {
    seq!["youtube.com"@, "youtu.be"@, "vimeo.com"@, "tiktok.com"@, "twitter.com"@, "instagram.com"@]
}

/// The links `yt-dlp --get-url` gives for a page, or the error.
pub open spec fn youtube_result_ok(stdout: Seq<char>, title: Option<Seq<char>>) -> Seq<
    (Seq<char>, Option<Seq<char>>, Option<u64>),
> {
    seq![
        (trim(stdout), match title {
            Some(t) => Some(trim(t)),
            None => None,
        }, None::<u64>),
    ]
}

/// Extractor for video sites through `yt-dlp`.
pub struct YouTubeExtractor;

impl YouTubeExtractor {
    pub fn new() -> Self {
        YouTubeExtractor
    }

    /// `youtube`.
    pub fn id(&self) -> (r: &'static str)
        ensures
            r@ == "youtube"@,
    {
        "youtube"
    }

    /// `YouTube (yt-dlp)`.
    pub fn name(&self) -> (r: &'static str)
        ensures
            r@ == "YouTube (yt-dlp)"@,
    {
        "YouTube (yt-dlp)"
    }

    /// Checked after MediaFire, before Netflix.
    pub fn priority(&self) -> (r: u8)
        ensures
            r == 95,
    {
        95
    }

    /// Whether the URL's host contains one of `ytdlp_hosts`.
    pub fn can_handle(&self, url: &str) -> (r: bool)
        ensures
            r == exists|i: int| 0 <= i < 6 && contains(host_or_empty(url@), #[trigger] ytdlp_hosts()[i]),
    {
        let host = host_chars(url);
        let a = chars_of("youtube.com");
        let b = chars_of("youtu.be");
        let c = chars_of("vimeo.com");
        let d = chars_of("tiktok.com");
        let e = chars_of("twitter.com");
        let f = chars_of("instagram.com");
        let r = contains_in(&host, &a) || contains_in(&host, &b) || contains_in(&host, &c)
            || contains_in(&host, &d) || contains_in(&host, &e) || contains_in(&host, &f);
        proof {
            let hs = ytdlp_hosts();
            assert(hs[0] == a@ && hs[1] == b@ && hs[2] == c@ && hs[3] == d@ && hs[4] == e@ && hs[5]
                == f@);
        }
        r
    }

    /// The links from the runs of `yt-dlp`: `installed` is whether
    /// `yt-dlp --version` could be run, `run` the outcome of `--get-url`
    /// (or why it could not start), `title` the text of `--get-title` when it
    /// was valid UTF-8.
    pub fn links_from_output(installed: bool, run: &Result<ProcessOutput, String>, title: Option<String>) -> (r: Result<Vec<DetectedLink>, ExtractError>)
        ensures
            !installed ==> (r matches Err(e) && is_not_found(e, "yt-dlp not found. Install with: pip install yt-dlp"@)),
            installed ==> match run {
                Err(msg) => r matches Err(e) && is_network(e, "Failed to run yt-dlp: "@ + msg@),
                Ok(o) => if !o.success {
                    r matches Err(e) && is_parse(e, "yt-dlp failed: "@ + o.stderr@)
                } else if trim(o.stdout@).len() == 0 {
                    r matches Err(e) && is_not_found(e, "No video URL found"@)
                } else {
                    r matches Ok(v) && links_view(v@) == youtube_result_ok(o.stdout@, opt_view(title))
                },
            },
    {
        if !installed {
            return Err(ExtractError::not_found("yt-dlp not found. Install with: pip install yt-dlp"));
        }
        match run {
            Err(msg) => {
                let mut m = chars_of("Failed to run yt-dlp: ");
                crate::text::append_chars(&mut m, &chars_of(msg.as_str()));
                Err(ExtractError::Network(string_of(&m)))
            },
            Ok(o) => {
                if !o.success {
                    let mut m = chars_of("yt-dlp failed: ");
                    crate::text::append_chars(&mut m, &chars_of(o.stderr.as_str()));
                    return Err(ExtractError::Parse(string_of(&m)));
                }
                let url = trim_of(&chars_of(o.stdout.as_str()));
                if url.len() == 0 {
                    return Err(ExtractError::not_found("No video URL found"));
                }
                let t = match title {
                    Some(t) => Some(string_of(&trim_of(&chars_of(t.as_str())))),
                    None => None,
                };
                let mut v: Vec<DetectedLink> = Vec::new();
                v.push(DetectedLink::with_metadata(string_of(&url), t, None));
                assert(links_view(v@) =~= seq![link_view(v@[0])]);
                Ok(v)
            },
        }
    }
}

// ------------------------------------------------------------------
// Netflix
// ------------------------------------------------------------------

/// Hosts of the Netflix content delivery network.
pub open spec fn netflix_cdn_hosts() -> Seq<Seq<char>> {
    seq!["nflxso.net"@, "nflxvideo.net"@, "nflxext.com"@]
}

/// Whether a URL points into the Netflix CDN.
pub open spec fn is_cdn_spec(url: Seq<char>) -> bool {
    exists|i: int| 0 <= i < 3 && has_suffix(host_or_empty(url), #[trigger] netflix_cdn_hosts()[i])
}

/// Whether a URL is a Netflix page.
pub open spec fn is_page_spec(url: Seq<char>) -> bool {
    has_suffix(host_or_empty(url), "netflix.com"@)
}

/// `s` up to its first `?`.
pub open spec fn before_query(s: Seq<char>) -> Seq<char> {
    match find(s, seq!['?']) {
        Some(p) => s.subrange(0, p),
        None => s,
    }
}

/// The file name a CDN URL gives: its last path segment up to any `?`.
pub open spec fn cdn_filename_spec(url: Seq<char>) -> Option<Seq<char>> {
    match url_last_segment_spec(url) {
        Some(s) => Some(before_query(s)),
        None => None,
    }
}

/// The arguments of `yt-dlp` for a Netflix page, with the cookies file when set.
pub open spec fn netflix_args_spec(url: Seq<char>, cookies: Option<Seq<char>>) -> Seq<Seq<char>> {
    let base = seq!["--get-url"@, "--format"@, "best"@, url];
    match cookies {
        Some(c) => base + seq!["--cookies"@, c],
        None => base,
    }
}

/// The lines of `yt-dlp`'s output, trimmed, without the empty ones.
pub open spec fn nonempty_trimmed(ls: Seq<Seq<char>>) -> Seq<Seq<char>>
    decreases ls.len(),
{
    if ls.len() == 0 {
        seq![]
    } else {
        let rest = nonempty_trimmed(ls.drop_last());
        if trim(ls.last()).len() > 0 {
            rest.push(trim(ls.last()))
        } else {
            rest
        }
    }
}

/// Links with nothing known but their URLs.
pub open spec fn direct_links(us: Seq<Seq<char>>) -> Seq<(Seq<char>, Option<Seq<char>>, Option<u64>)> {
    us.map_values(|u: Seq<char>| (u, None::<Seq<char>>, None::<u64>))
}

/// What to do next for a Netflix URL.
pub enum NetflixStep {
    /// The links are known, or the URL is not understood.
    Done(Result<Vec<DetectedLink>, ExtractError>),
    /// Run `yt-dlp` with these arguments and hand its output to `ytdlp_result`.
    RunYtDlp(Vec<String>),
}

/// Extractor for Netflix CDN URLs and, through `yt-dlp` and a cookies file,
/// Netflix pages.
pub struct NetflixExtractor {
    cookies_path: Option<String>,
}

impl NetflixExtractor {
    /// The cookies file handed to `yt-dlp`.
    pub closed spec fn cookies_view(&self) -> Option<Seq<char>> {
        opt_view(self.cookies_path)
    }

    pub fn new() -> (r: Self)
        ensures
            r.cookies_view() is None,
    {
        NetflixExtractor { cookies_path: None }
    }

    /// Use a cookies file for Netflix pages.
    pub fn with_cookies(self, path: String) -> (r: Self)
        ensures
            r.cookies_view() == Some(path@),
    {
        NetflixExtractor { cookies_path: Some(path) }
    }

    /// `netflix`.
    pub fn id(&self) -> (r: &'static str)
        ensures
            r@ == "netflix"@,
    {
        "netflix"
    }

    /// `Netflix CDN`.
    pub fn name(&self) -> (r: &'static str)
        ensures
            r@ == "Netflix CDN"@,
    {
        "Netflix CDN"
    }

    /// Checked after YouTube.
    pub fn priority(&self) -> (r: u8)
        ensures
            r == 90,
    {
        90
    }

    /// Whether the URL's host ends with a Netflix CDN host.
    pub fn is_cdn_url(url: &str) -> (r: bool)
        ensures
            r == is_cdn_spec(url@),
    {
        let host = host_chars(url);
        let a = chars_of("nflxso.net");
        let b = chars_of("nflxvideo.net");
        let c = chars_of("nflxext.com");
        let r = ends_with(&host, &a) || ends_with(&host, &b) || ends_with(&host, &c);
        proof {
            let hs = netflix_cdn_hosts();
            assert(hs[0] == a@ && hs[1] == b@ && hs[2] == c@);
        }
        r
    }

    /// Whether the URL's host ends with `netflix.com`.
    pub fn is_page_url(url: &str) -> (r: bool)
        ensures
            r == is_page_spec(url@),
    {
        let host = host_chars(url);
        ends_with(&host, &chars_of("netflix.com"))
    }

    /// A CDN URL or a Netflix page.
    pub fn can_handle(&self, url: &str) -> (r: bool)
        ensures
            r == (is_cdn_spec(url@) || is_page_spec(url@)),
    {
        Self::is_cdn_url(url) || Self::is_page_url(url)
    }

    /// The file name of a CDN URL: its last path segment up to any `?`.
    pub fn cdn_filename(url: &str) -> (r: Option<String>)
        ensures
            opt_view(r) == cdn_filename_spec(url@),
    {
        match url_last_segment(url) {
            Some(s) => {
                let c = chars_of(s.as_str());
                let q: [char; 1] = ['?'];
                assert(q@ =~= seq!['?']);
                proof {
                    lemma_find_contains(c@, q@);
                }
                match find_in(&c, &q) {
                    Some(p) => Some(string_of(&slice_of(&c, 0, p))),
                    None => Some(s),
                }
            },
            None => None,
        }
    }

    /// The arguments of `yt-dlp` for a page URL.
    pub fn ytdlp_args(&self, url: &str) -> (r: Vec<String>)
        ensures
            crate::text::string_views(r@) == netflix_args_spec(url@, self.cookies_view()),
    {
        let mut v: Vec<String> = Vec::new();
        v.push("--get-url".to_string());
        v.push("--format".to_string());
        v.push("best".to_string());
        v.push(url.to_string());
        match &self.cookies_path {
            Some(c) => {
                v.push("--cookies".to_string());
                v.push(c.clone());
            },
            None => {},
        }
        proof {
            reveal_strlit("--get-url");
            reveal_strlit("--format");
            reveal_strlit("best");
            reveal_strlit("--cookies");
        }
        assert(crate::text::string_views(v@) =~= netflix_args_spec(url@, self.cookies_view()));
        v
    }

    /// First step of extraction: a CDN URL is its own link, named after its
    /// last segment; a page needs `yt-dlp`; anything else is not understood.
    pub fn begin_extract(&self, url: &str) -> (r: NetflixStep)
        ensures
            is_cdn_spec(url@) ==> (r matches NetflixStep::Done(Ok(v)) && url_serialize_spec(url@)
                is Some && links_view(v@) == seq![
                (url_serialize_spec(url@)->0, cdn_filename_spec(url@), None::<u64>),
            ]),
            !is_cdn_spec(url@) && is_page_spec(url@) ==> (r matches NetflixStep::RunYtDlp(a)
                && url_serialize_spec(url@) is Some && crate::text::string_views(a@)
                == netflix_args_spec(url_serialize_spec(url@)->0, self.cookies_view())),
            !is_cdn_spec(url@) && !is_page_spec(url@) ==> (r matches NetflixStep::Done(Err(e))
                && is_not_found(e, "Unknown Netflix URL format"@)),
    {
        let ser = url_serialize(url);
        let host = host_chars(url);
        proof {
            reveal_strlit("nflxso.net");
            reveal_strlit("nflxvideo.net");
            reveal_strlit("nflxext.com");
            reveal_strlit("netflix.com");
            if is_cdn_spec(url@) {
                let i = choose|i: int|
                    0 <= i < 3 && has_suffix(host_or_empty(url@), #[trigger] netflix_cdn_hosts()[i]);
                assert(netflix_cdn_hosts()[i].len() > 0);
            }
        }
        if Self::is_cdn_url(url) {
            let s = match ser {
                Some(s) => s,
                None => {
                    assert(false);
                    String::new()
                },
            };
            let mut v: Vec<DetectedLink> = Vec::new();
            v.push(DetectedLink::with_metadata(s, Self::cdn_filename(url), None));
            assert(links_view(v@) =~= seq![link_view(v@[0])]);
            return NetflixStep::Done(Ok(v));
        }
        if Self::is_page_url(url) {
            let s = match ser {
                Some(s) => s,
                None => {
                    assert(false);
                    String::new()
                },
            };
            return NetflixStep::RunYtDlp(self.ytdlp_args(s.as_str()));
        }
        NetflixStep::Done(Err(ExtractError::not_found("Unknown Netflix URL format")))
    }

    /// The links from the run of `yt-dlp` on a page: each non-empty trimmed
    /// line of its output, in order.
    pub fn ytdlp_result(run: &Result<ProcessOutput, String>) -> (r: Result<Vec<DetectedLink>, ExtractError>)
        ensures
            match run {
                Err(msg) => r matches Err(e) && is_network(e, "yt-dlp not found: "@ + msg@ + ". Install with: pip install yt-dlp"@),
                Ok(o) => if !o.success {
                    r matches Err(e) && is_network(e, "yt-dlp extraction failed. Ensure Netflix cookies are valid.\n"@ + o.stderr@)
                } else if nonempty_trimmed(lines(o.stdout@)).len() == 0 {
                    r matches Err(e) && is_not_found(e, "No CDN URLs found from Netflix page. Ensure you have valid Netflix cookies."@)
                } else {
                    r matches Ok(v) && links_view(v@) == direct_links(nonempty_trimmed(lines(o.stdout@)))
                },
            },
    {
        match run {
            Err(msg) => {
                let mut m = chars_of("yt-dlp not found: ");
                crate::text::append_chars(&mut m, &chars_of(msg.as_str()));
                crate::text::append_chars(&mut m, &chars_of(". Install with: pip install yt-dlp"));
                Err(ExtractError::Network(string_of(&m)))
            },
            Ok(o) => {
                if !o.success {
                    let mut m = chars_of("yt-dlp extraction failed. Ensure Netflix cookies are valid.\n");
                    crate::text::append_chars(&mut m, &chars_of(o.stderr.as_str()));
                    return Err(ExtractError::Network(string_of(&m)));
                }
                let ls = lines_of(&chars_of(o.stdout.as_str()));
                let ghost lv = crate::text::views(ls@);
                let ghost mut acc: Seq<Seq<char>> = seq![];
                let mut out: Vec<DetectedLink> = Vec::new();
                let mut i: usize = 0;
                while i < ls.len()
                    invariant
                        i <= ls.len(),
                        lv == crate::text::views(ls@),
                        acc == nonempty_trimmed(lv.subrange(0, i as int)),
                        links_view(out@) == direct_links(acc),
                    decreases ls.len() - i,
                {
                    let t = trim_of(&ls[i]);
                    proof {
                        assert(lv.subrange(0, i + 1).drop_last() =~= lv.subrange(0, i as int));
                        assert(lv[i as int] == ls@[i as int]@);
                    }
                    if t.len() > 0 {
                        let ghost before = out@;
                        out.push(DetectedLink::direct(string_of(&t)));
                        proof {
                            let old_acc = acc;
                            assert(links_view(before).len() == before.len());
                            assert(direct_links(old_acc).len() == old_acc.len());
                            acc = acc.push(t@);
                            assert(links_view(out@).len() == out@.len());
                            assert(direct_links(acc).len() == acc.len());
                            assert forall|j: int| 0 <= j < out@.len() implies links_view(out@)[j]
                                == direct_links(acc)[j] by {
                                if j < before.len() {
                                    assert(out@[j] == before[j]);
                                    assert(links_view(before)[j] == direct_links(old_acc)[j]);
                                }
                            }
                            assert(links_view(out@) =~= direct_links(acc));
                        }
                    }
                    i = i + 1;
                }
                assert(lv.subrange(0, ls.len() as int) =~= lv);
                if out.len() == 0 {
                    return Err(ExtractError::not_found("No CDN URLs found from Netflix page. Ensure you have valid Netflix cookies."));
                }
                Ok(out)
            },
        }
    }
}

// ------------------------------------------------------------------
// Registry
// ------------------------------------------------------------------

/// An extractor as the registry lists it: its id, name and priority.
pub struct ExtractorInfo {
    pub id: String,
    pub name: String,
    pub priority: u8,
}

/// An extractor entry as plain values.
pub open spec fn info_view(e: ExtractorInfo) -> (Seq<char>, Seq<char>, u8) {
    (e.id@, e.name@, e.priority)
}

/// Entries in non-increasing order of priority.
pub open spec fn by_priority(e: Seq<(Seq<char>, Seq<char>, u8)>) -> bool {
    forall|i: int, j: int| 0 <= i < j < e.len() ==> #[trigger] e[i].2 >= #[trigger] e[j].2
}

/// The extractors known to the application, highest priority first; among
/// equal priorities, in the order they were registered.
pub struct ExtractorRegistry {
    extractors: Vec<ExtractorInfo>,
}

impl ExtractorRegistry {
    /// The registered extractors, in the order they are consulted.
    pub closed spec fn entries(&self) -> Seq<(Seq<char>, Seq<char>, u8)> {
        self.extractors@.map_values(|e: ExtractorInfo| info_view(e))
    }

    /// The entries are ordered by priority.
    pub open spec fn wf(&self) -> bool {
        by_priority(self.entries())
    }

    /// An empty registry.
    pub fn new() -> (r: Self)
        ensures
            r.entries() == Seq::<(Seq<char>, Seq<char>, u8)>::empty(),
            r.wf(),
    {
        let r = ExtractorRegistry { extractors: Vec::new() };
        assert(r.entries() =~= Seq::<(Seq<char>, Seq<char>, u8)>::empty());
        r
    }

    /// Register an extractor: it goes after every entry of equal or higher
    /// priority and before every entry of lower priority, which is where a
    /// stable sort by descending priority puts the newest entry. Returns its
    /// position.
    pub fn register(&mut self, id: &str, name: &str, priority: u8) -> (pos: usize)
        requires
            old(self).wf(),
            old(self).entries().len() < usize::MAX,
        ensures
            final(self).wf(),
            pos <= old(self).entries().len(),
            final(self).entries() == old(self).entries().insert(pos as int, (id@, name@, priority)),
            forall|i: int| 0 <= i < pos ==> #[trigger] old(self).entries()[i].2 >= priority,
            forall|i: int|
                pos <= i < old(self).entries().len() ==> #[trigger] old(self).entries()[i].2
                    < priority,
    {
        let ghost e0 = self.entries();
        assert(e0.len() == self.extractors@.len());
        let mut pos: usize = 0;
        while pos < self.extractors.len() && self.extractors[pos].priority >= priority
            invariant
                pos <= self.extractors.len(),
                e0 == self.entries(),
                e0.len() == self.extractors@.len(),
                forall|i: int| 0 <= i < pos ==> #[trigger] e0[i].2 >= priority,
            decreases self.extractors.len() - pos,
        {
            assert(e0[pos as int] == info_view(self.extractors@[pos as int]));
            pos = pos + 1;
        }
        proof {
            if pos < e0.len() {
                assert(e0[pos as int] == info_view(self.extractors@[pos as int]));
                assert forall|i: int| pos <= i < e0.len() implies #[trigger] e0[i].2 < priority by {
                    if i > pos {
                        assert(e0[pos as int].2 >= e0[i].2);
                    }
                }
            }
        }
        let entry = ExtractorInfo { id: id.to_string(), name: name.to_string(), priority };
        self.extractors.insert(pos, entry);
        proof {
            let e1 = self.entries();
            let want = e0.insert(pos as int, (id@, name@, priority));
            assert(e1.len() == want.len());
            assert forall|k: int| 0 <= k < e1.len() implies e1[k] == want[k] by {
                if k < pos {
                } else if k == pos {
                } else {
                }
            }
            assert(e1 =~= want);
            assert forall|i: int, j: int| 0 <= i < j < e1.len() implies #[trigger] e1[i].2
                >= #[trigger] e1[j].2 by {
                assert(e1[i] == want[i] && e1[j] == want[j]);
                if i < pos && j > pos {
                    assert(want[j] == e0[j - 1]);
                } else if i > pos {
                    assert(want[i] == e0[i - 1] && want[j] == e0[j - 1]);
                } else if j < pos {
                } else if i == pos {
                    assert(want[j] == e0[j - 1]);
                } else {
                    assert(j == pos);
                }
            }
        }
        pos
    }

    /// The registered extractors as `(id, name, priority)`, in order.
    pub fn list_extractors(&self) -> (r: Vec<(String, String, u8)>)
        ensures
            r@.map_values(|t: (String, String, u8)| (t.0@, t.1@, t.2)) == self.entries(),
    {
        let mut out: Vec<(String, String, u8)> = Vec::new();
        let mut i: usize = 0;
        while i < self.extractors.len()
            invariant
                i <= self.extractors.len(),
                out@.map_values(|t: (String, String, u8)| (t.0@, t.1@, t.2)) == self.entries().subrange(
                    0,
                    i as int,
                ),
                self.entries().len() == self.extractors@.len(),
            decreases self.extractors.len() - i,
        {
            let e = &self.extractors[i];
            let ghost before = out@;
            out.push((e.id.clone(), e.name.clone(), e.priority));
            proof {
                assert(self.entries()[i as int] == info_view(self.extractors@[i as int]));
                let want = self.entries().subrange(0, i + 1);
                let got = out@.map_values(|t: (String, String, u8)| (t.0@, t.1@, t.2));
                assert(before.map_values(|t: (String, String, u8)| (t.0@, t.1@, t.2)).len()
                    == before.len());
                assert(got.len() == want.len());
                assert forall|k: int| 0 <= k < got.len() implies got[k] == want[k] by {
                    if k < i {
                        assert(out@[k] == before[k]);
                        assert(before.map_values(|t: (String, String, u8)| (t.0@, t.1@, t.2))[k]
                            == self.entries().subrange(0, i as int)[k]);
                    }
                }
                assert(got =~= want);
            }
            i = i + 1;
        }
        assert(self.entries().subrange(0, self.extractors.len() as int) =~= self.entries());
        out
    }

    /// Number of registered extractors.
    pub fn len(&self) -> (r: usize)
        ensures
            r == self.entries().len(),
    {
        self.extractors.len()
    }

    /// The position of the first extractor, in priority order, that can handle
    /// a URL, given each extractor's answer in that order.
    pub fn find_extractor(&self, can_handle: &[bool]) -> (r: Option<usize>)
        requires
            can_handle@.len() == self.entries().len(),
        ensures
            match r {
                Some(k) => k < can_handle@.len() && can_handle@[k as int] && forall|j: int|
                    0 <= j < k ==> !#[trigger] can_handle@[j],
                None => forall|j: int| 0 <= j < can_handle@.len() ==> !#[trigger] can_handle@[j],
            },
    {
        let mut i: usize = 0;
        while i < can_handle.len()
            invariant
                i <= can_handle@.len(),
                forall|j: int| 0 <= j < i ==> !#[trigger] can_handle@[j],
            decreases can_handle.len() - i,
        {
            if can_handle[i] {
                return Some(i);
            }
            i = i + 1;
        }
        None
    }

    /// The extractor to run for a URL, given each extractor's answer in
    /// priority order: the first that can handle it, else the not-found error
    /// `No extractor found for this URL`.
    pub fn extractor_for(&self, can_handle: &[bool]) -> (r: Result<usize, ExtractError>)
        requires
            can_handle@.len() == self.entries().len(),
        ensures
            match r {
                Ok(k) => k < can_handle@.len() && can_handle@[k as int] && forall|j: int|
                    0 <= j < k ==> !#[trigger] can_handle@[j],
                Err(e) => is_not_found(e, "No extractor found for this URL"@) && forall|j: int|
                    0 <= j < can_handle@.len() ==> !#[trigger] can_handle@[j],
            },
    {
        match self.find_extractor(can_handle) {
            Some(k) => Ok(k),
            None => Err(ExtractError::not_found("No extractor found for this URL")),
        }
    }
}

} // verus!
