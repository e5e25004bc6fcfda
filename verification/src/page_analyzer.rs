//! Finding downloadable resources in an HTML page: media tags, links to
//! media, archive or document files, and HLS or DASH manifests named in the
//! page's text. The result lists each URL once, in URL order.
use crate::html::{
    element_view, elements_view, html_select, html_select_spec, html_text, html_text_spec,
    Element,
};
use crate::probe::opt_view;
use crate::text::{
    chars_of, contains, contains_in, find, find_in, lemma_find_contains, lemma_next_delim,
    lemma_rfind_upto, lemma_seq_lt_order, lemma_seq_lt_trans, lex_less, lines, lines_of,
    lower_chars_of, next_delim, next_delim_in, rfind, rfind_in, seq_lt, slice_of, string_of,
    trim, trim_of, unicode_lowercase, views,
};
use crate::urls::{url_join, url_join_spec};
use vstd::prelude::*;

verus! {

/// What kind of file a resource is.
#[derive(Debug, Clone, Copy, PartialEq, Eq, Structural)]
pub enum ResourceType {
    Video,
    Audio,
    Document,
    Archive,
    Unknown,
}

/// A resource found in a page.
pub struct DetectedResource {
    pub url: String,
    pub resource_type: ResourceType,
    pub size: Option<u64>,
    pub title: Option<String>,
}

/// A resource as plain values: URL, type, size, title.
pub open spec fn resource_view(r: DetectedResource) -> (
    Seq<char>,
    ResourceType,
    Option<u64>,
    Option<Seq<char>>,
) {
    (r.url@, r.resource_type, r.size, opt_view(r.title))
}

/// Resources as plain values.
pub open spec fn resources_view(v: Seq<DetectedResource>) -> Seq<
    (Seq<char>, ResourceType, Option<u64>, Option<Seq<char>>),
> {
    v.map_values(|r: DetectedResource| resource_view(r))
}

impl DetectedResource {
    /// A resource of the given type, with no size or title.
    pub fn new(url: String, resource_type: ResourceType) -> (r: Self)
        ensures
            resource_view(r) == (url@, resource_type, None::<u64>, None::<Seq<char>>),
    {
        DetectedResource { url, resource_type, size: None, title: None }
    }
}

/// A copy of a resource.
fn copy_resource(r: &DetectedResource) -> (c: DetectedResource)
    ensures
        resource_view(c) == resource_view(*r),
{
    let title = match &r.title {
        Some(t) => Some(t.clone()),
        None => None,
    };
    DetectedResource { url: r.url.clone(), resource_type: r.resource_type, size: r.size, title }
}

// ------------------------------------------------------------------
// File kinds by name
// ------------------------------------------------------------------

/// Extensions whose presence marks a link as a download: video, audio,
/// archive and document files.
pub open spec fn downloadable_exts() -> Seq<Seq<char>> {
    seq![
        ".mp4"@, ".mkv"@, ".avi"@, ".mov"@, ".wmv"@, ".flv"@, ".webm"@, ".m4v"@, ".mpg"@, ".mpeg"@,
        ".mp3"@, ".m4a"@, ".aac"@, ".flac"@, ".wav"@, ".ogg"@, ".opus"@, ".wma"@,
        ".zip"@, ".rar"@, ".7z"@, ".tar"@, ".gz"@, ".bz2"@, ".xz"@,
        ".pdf"@, ".doc"@, ".docx"@, ".xls"@, ".xlsx"@, ".ppt"@, ".pptx"@,
    ]
}

/// The lowercase URL contains one of `downloadable_exts`.
pub open spec fn downloadable_ext_spec(url: Seq<char>) -> bool {
    exists|i: int|
        0 <= i < downloadable_exts().len() && contains(
            unicode_lowercase(url),
            #[trigger] downloadable_exts()[i],
        )
}

/// The lowercase URL contains one of the patterns.
pub open spec fn contains_any(l: Seq<char>, pats: Seq<Seq<char>>) -> bool {
    exists|i: int| 0 <= i < pats.len() && contains(l, #[trigger] pats[i])
}

/// The kind of file a URL names, by the extensions its lowercase form contains.
pub open spec fn detect_type_spec(url: Seq<char>) -> ResourceType {
    let l = unicode_lowercase(url);
    if contains_any(l, seq![".mp4"@, ".mkv"@, ".avi"@, ".webm"@, ".m3u8"@, ".mpd"@]) {
        ResourceType::Video
    } else if contains_any(l, seq![".mp3"@, ".m4a"@, ".flac"@, ".wav"@]) {
        ResourceType::Audio
    } else if contains_any(l, seq![".zip"@, ".rar"@, ".7z"@, ".tar"@]) {
        ResourceType::Archive
    } else if contains_any(l, seq![".pdf"@, ".doc"@]) {
        ResourceType::Document
    } else {
        ResourceType::Unknown
    }
}

/// Whether `s` contains one of the patterns.
fn contains_one_of(s: &[char], pats: &[&str]) -> (r: bool)
    ensures
        r == contains_any(s@, pats@.map_values(|p: &str| p@)),
{
    let ghost pv = pats@.map_values(|p: &str| p@);
    let mut i: usize = 0;
    while i < pats.len()
        invariant
            i <= pats.len(),
            pv == pats@.map_values(|p: &str| p@),
            forall|j: int| 0 <= j < i ==> !contains(s@, #[trigger] pv[j]),
        decreases pats.len() - i,
    {
        assert(pv[i as int] == pats@[i as int]@);
        if contains_in(s, &chars_of(pats[i])) {
            return true;
        }
        i = i + 1;
    }
    false
}

/// Whether a URL names a downloadable file: its lowercase form contains one
/// of the video, audio, archive or document extensions.
pub fn is_downloadable_extension(url: &str) -> (r: bool)
    ensures
        r == downloadable_ext_spec(url@),
{
    let l = lower_chars_of(url);
    let exts: [&str; 32] = [
        ".mp4", ".mkv", ".avi", ".mov", ".wmv", ".flv", ".webm", ".m4v", ".mpg", ".mpeg",
        ".mp3", ".m4a", ".aac", ".flac", ".wav", ".ogg", ".opus", ".wma",
        ".zip", ".rar", ".7z", ".tar", ".gz", ".bz2", ".xz",
        ".pdf", ".doc", ".docx", ".xls", ".xlsx", ".ppt", ".pptx",
    ];
    let r = contains_one_of(&l, &exts);
    assert(exts@.map_values(|p: &str| p@) =~= downloadable_exts());
    r
}

/// The kind of file a URL names.
pub fn detect_type_from_url(url: &str) -> (r: ResourceType)
    ensures
        r == detect_type_spec(url@),
{
    let l = lower_chars_of(url);
    let video: [&str; 6] = [".mp4", ".mkv", ".avi", ".webm", ".m3u8", ".mpd"];
    let audio: [&str; 4] = [".mp3", ".m4a", ".flac", ".wav"];
    let archive: [&str; 4] = [".zip", ".rar", ".7z", ".tar"];
    let doc: [&str; 2] = [".pdf", ".doc"];
    assert(video@.map_values(|p: &str| p@) =~= seq![".mp4"@, ".mkv"@, ".avi"@, ".webm"@, ".m3u8"@, ".mpd"@]);
    assert(audio@.map_values(|p: &str| p@) =~= seq![".mp3"@, ".m4a"@, ".flac"@, ".wav"@]);
    assert(archive@.map_values(|p: &str| p@) =~= seq![".zip"@, ".rar"@, ".7z"@, ".tar"@]);
    assert(doc@.map_values(|p: &str| p@) =~= seq![".pdf"@, ".doc"@]);
    if contains_one_of(&l, &video) {
        ResourceType::Video
    } else if contains_one_of(&l, &audio) {
        ResourceType::Audio
    } else if contains_one_of(&l, &archive) {
        ResourceType::Archive
    } else if contains_one_of(&l, &doc) {
        ResourceType::Document
    } else {
        ResourceType::Unknown
    }
}

// ------------------------------------------------------------------
// URLs in text
// ------------------------------------------------------------------

/// Characters that end a URL found in text.
pub open spec fn url_stops() -> Seq<char> {
    seq!['"', '\'', ' ', ',', ')']
}

/// Where a URL before position `pos` begins: at the last `http`, else the
/// last `//`, else the last `/`, else at 0.
pub open spec fn url_start(before: Seq<char>) -> int {
    match rfind(before, "http"@) {
        Some(s) => s,
        None => match rfind(before, "//"@) {
            Some(s) => s,
            None => match rfind(before, "/"@) {
                Some(s) => s,
                None => 0,
            },
        },
    }
}

/// The URL around the first occurrence of `ext` in `text`: from `url_start`
/// to the first stop character after the extension (or the end), trimmed;
/// `None` when `ext` does not occur or the URL is empty.
pub open spec fn extract_url_spec(text: Seq<char>, ext: Seq<char>) -> Option<Seq<char>> {
    match find(text, ext) {
        None => None,
        Some(pos) => {
            let start = url_start(text.subrange(0, pos));
            let end = next_delim(text, url_stops(), pos + ext.len());
            let u = trim(text.subrange(start, end));
            if u.len() > 0 {
                Some(u)
            } else {
                None
            }
        },
    }
}

/// Last occurrence of `p` in `s`, with its bounds.
fn rfind_bounded(s: &[char], p: &str) -> (r: Option<usize>)
    ensures
        opt_int_of(r) == rfind(s@, p@),
        r matches Some(k) ==> k + p@.len() <= s.len(),
{
    let pc = chars_of(p);
    proof {
        lemma_rfind_upto(s@, pc@, s@.len() - pc@.len());
    }
    rfind_in(s, &pc)
}

/// An index as a mathematical integer.
pub open spec fn opt_int_of(o: Option<usize>) -> Option<int> {
    match o {
        Some(k) => Some(k as int),
        None => None,
    }
}

/// The URL around the first occurrence of `extension` in `text`.
pub fn extract_url_from_text(text: &str, extension: &str) -> (r: Option<String>)
    ensures
        opt_view(r) == extract_url_spec(text@, extension@),
{
    let t = chars_of(text);
    let e = chars_of(extension);
    proof {
        lemma_find_contains(t@, e@);
    }
    match find_in(&t, &e) {
        None => None,
        Some(pos) => {
            let before = slice_of(&t, 0, pos);
            let start = match rfind_bounded(&before, "http") {
                Some(s) => s,
                None => match rfind_bounded(&before, "//") {
                    Some(s) => s,
                    None => match rfind_bounded(&before, "/") {
                        Some(s) => s,
                        None => 0,
                    },
                },
            };
            let stops: [char; 5] = ['"', '\'', ' ', ',', ')'];
            assert(stops@ =~= url_stops());
            assert(crate::text::occurs_at(t@, e@, pos as int));
            assert(pos + e@.len() <= t@.len());
            assert(t@.len() == t.len() && e@.len() == e.len());
            let after = pos + e.len();
            let end = next_delim_in(&t, &stops, after);
            proof {
                lemma_next_delim(t@, stops@, after as int);
            }
            let u = trim_of(&slice_of(&t, start, end));
            if u.len() > 0 {
                Some(string_of(&u))
            } else {
                None
            }
        },
    }
}

// ------------------------------------------------------------------
// Candidates
// ------------------------------------------------------------------

/// A resource as plain values.
pub type ResourceView = (Seq<char>, ResourceType, Option<u64>, Option<Seq<char>>);

/// The resources of media tags: each matched element with the attribute,
/// joined to the base URL, of type `fixed` or else of the type its URL names.
pub open spec fn tag_candidates(
    els: Seq<(Option<Seq<char>>, Seq<char>)>,
    base: Seq<char>,
    fixed: Option<ResourceType>,
) -> Seq<ResourceView>
    decreases els.len(),
{
    if els.len() == 0 {
        seq![]
    } else {
        let rest = tag_candidates(els.drop_last(), base, fixed);
        match els.last().0 {
            Some(src) => match url_join_spec(base, src) {
                Some(u) => rest.push(
                    (
                        u,
                        match fixed {
                            Some(t) => t,
                            None => detect_type_spec(u),
                        },
                        None::<u64>,
                        None::<Seq<char>>,
                    ),
                ),
                None => rest,
            },
            None => rest,
        }
    }
}

/// The title of a link: its trimmed text when not empty.
pub open spec fn link_title(text: Seq<char>) -> Option<Seq<char>> {
    if trim(text).len() > 0 {
        Some(trim(text))
    } else {
        None
    }
}

/// The resources of links whose target names a downloadable file.
pub open spec fn anchor_candidates(els: Seq<(Option<Seq<char>>, Seq<char>)>, base: Seq<char>) -> Seq<
    ResourceView,
>
    decreases els.len(),
{
    if els.len() == 0 {
        seq![]
    } else {
        let rest = anchor_candidates(els.drop_last(), base);
        match els.last().0 {
            Some(href) => if downloadable_ext_spec(href) {
                match url_join_spec(base, href) {
                    Some(u) => rest.push(
                        (u, detect_type_spec(u), None::<u64>, link_title(els.last().1)),
                    ),
                    None => rest,
                }
            } else {
                rest
            },
            None => rest,
        }
    }
}

/// The video found in one line of text for a manifest extension.
pub open spec fn manifest_in_line(line: Seq<char>, ext: Seq<char>, base: Seq<char>) -> Seq<
    ResourceView,
> {
    if contains(line, ext) {
        match extract_url_spec(line, ext) {
            Some(x) => match url_join_spec(base, x) {
                Some(u) => seq![(u, ResourceType::Video, None::<u64>, None::<Seq<char>>)],
                None => seq![],
            },
            None => seq![],
        }
    } else {
        seq![]
    }
}

/// The HLS and DASH manifests named in lines of text.
pub open spec fn text_candidates(ls: Seq<Seq<char>>, base: Seq<char>) -> Seq<ResourceView>
    decreases ls.len(),
{
    if ls.len() == 0 {
        seq![]
    } else {
        text_candidates(ls.drop_last(), base) + manifest_in_line(ls.last(), ".m3u8"@, base)
            + manifest_in_line(ls.last(), ".mpd"@, base)
    }
}

/// Every resource found, before duplicates are removed: `<video>` sources,
/// `<source>` sources, `<audio>` sources, download links, and manifests in
/// the text, in that order.
pub open spec fn page_candidates(
    videos: Seq<(Option<Seq<char>>, Seq<char>)>,
    sources: Seq<(Option<Seq<char>>, Seq<char>)>,
    audios: Seq<(Option<Seq<char>>, Seq<char>)>,
    anchors: Seq<(Option<Seq<char>>, Seq<char>)>,
    text: Seq<char>,
    base: Seq<char>,
) -> Seq<ResourceView> {
    tag_candidates(videos, base, Some(ResourceType::Video)) + tag_candidates(sources, base, None)
        + tag_candidates(audios, base, Some(ResourceType::Audio)) + anchor_candidates(anchors, base)
        + text_candidates(lines(text), base)
}

// ------------------------------------------------------------------
// One entry per URL
// ------------------------------------------------------------------

/// The first candidate whose URL is `u`.
pub open spec fn first_with_url(c: Seq<ResourceView>, u: Seq<char>) -> Option<ResourceView>
    decreases c.len(),
{
    if c.len() == 0 {
        None
    } else {
        match first_with_url(c.drop_last(), u) {
            Some(v) => Some(v),
            None => if c.last().0 == u {
                Some(c.last())
            } else {
                None
            },
        }
    }
}

/// Some entry of `r` has URL `u`.
#[verifier::opaque]
pub open spec fn listed(r: Seq<ResourceView>, u: Seq<char>) -> bool {
    exists|i: int| 0 <= i < r.len() && (#[trigger] r[i]).0 == u
}

/// `r` holds each URL of `c` once, in increasing URL order, each as the first
/// candidate with that URL.
pub open spec fn dedup_by_url_spec(c: Seq<ResourceView>, r: Seq<ResourceView>) -> bool {
    &&& forall|i: int, j: int| 0 <= i < j < r.len() ==> seq_lt(#[trigger] r[i].0, #[trigger] r[j].0)
    &&& forall|i: int| 0 <= i < r.len() ==> first_with_url(c, (#[trigger] r[i]).0) == Some(r[i])
    &&& forall|k: int| 0 <= k < c.len() ==> listed(r, (#[trigger] c[k]).0)
}

/// A first candidate is a candidate with that URL.
pub proof fn lemma_first_with_url(c: Seq<ResourceView>, u: Seq<char>)
    ensures
        first_with_url(c, u) matches Some(v) ==> v.0 == u && exists|k: int|
            0 <= k < c.len() && #[trigger] c[k] == v,
    decreases c.len(),
{
    if c.len() > 0 {
        lemma_first_with_url(c.drop_last(), u);
        if first_with_url(c.drop_last(), u) is Some {
            let v = first_with_url(c.drop_last(), u)->0;
            let k = choose|k: int| 0 <= k < c.drop_last().len() && #[trigger] c.drop_last()[k] == v;
            assert(c[k] == c.drop_last()[k]);
        } else if c.last().0 == u {
            assert(c[c.len() - 1] == c.last());
        }
    }
}

/// A candidate whose URL is already listed leaves the listing as it is.
proof fn lemma_dedup_skip(pre: Seq<ResourceView>, c: ResourceView, ov: Seq<ResourceView>, p: int)
    requires
        dedup_by_url_spec(pre, ov),
        0 <= p < ov.len(),
        ov[p].0 == c.0,
    ensures
        dedup_by_url_spec(pre.push(c), ov),
{
    let pre1 = pre.push(c);
    assert(pre1.drop_last() =~= pre);
    assert forall|i: int| 0 <= i < ov.len() implies first_with_url(pre1, (#[trigger] ov[i]).0)
        == Some(ov[i]) by {
        assert(first_with_url(pre, ov[i].0) == Some(ov[i]));
    }
    assert forall|k: int| 0 <= k < pre1.len() implies listed(ov, (#[trigger] pre1[k]).0) by {
        if k < pre.len() {
            assert(pre1[k] == pre[k]);
        } else {
            reveal(listed);
            assert(ov[p].0 == pre1[k].0);
        }
    }
}

/// A candidate with a new URL goes in at its place in URL order.
proof fn lemma_dedup_insert(pre: Seq<ResourceView>, c: ResourceView, ov: Seq<ResourceView>, p: int)
    requires
        dedup_by_url_spec(pre, ov),
        0 <= p <= ov.len(),
        forall|q: int| 0 <= q < p ==> seq_lt(#[trigger] ov[q].0, c.0),
        p < ov.len() ==> seq_lt(c.0, ov[p].0),
    ensures
        dedup_by_url_spec(pre.push(c), ov.insert(p, c)),
{
    let pre1 = pre.push(c);
    let nv = ov.insert(p, c);
    assert(pre1.drop_last() =~= pre);
    assert forall|q: int| 0 <= q < ov.len() implies (#[trigger] ov[q]).0 != c.0 by {
        if q < p {
            lemma_seq_lt_order(ov[q].0, c.0);
        } else if q == p {
            lemma_seq_lt_order(c.0, ov[q].0);
        } else {
            lemma_seq_lt_trans(c.0, ov[p].0, ov[q].0);
            lemma_seq_lt_order(c.0, ov[q].0);
        }
    }
    assert(first_with_url(pre, c.0) is None) by {
        lemma_first_with_url(pre, c.0);
        if first_with_url(pre, c.0) is Some {
            let v = first_with_url(pre, c.0)->0;
            let k = choose|k: int| 0 <= k < pre.len() && #[trigger] pre[k] == v;
            assert(listed(ov, pre[k].0));
            reveal(listed);
            let i = choose|i: int| 0 <= i < ov.len() && (#[trigger] ov[i]).0 == pre[k].0;
            assert(ov[i].0 != c.0);
        }
    }
    assert(first_with_url(pre1, c.0) == Some(c));
    assert forall|i: int, j: int| 0 <= i < j < nv.len() implies seq_lt(
        #[trigger] nv[i].0,
        #[trigger] nv[j].0,
    ) by {
        if j < p {
            assert(nv[i] == ov[i] && nv[j] == ov[j]);
        } else if j == p {
            assert(nv[i] == ov[i]);
        } else if i < p {
            assert(nv[i] == ov[i] && nv[j] == ov[j - 1]);
            if j - 1 > p {
                lemma_seq_lt_trans(c.0, ov[p].0, ov[j - 1].0);
            }
            lemma_seq_lt_trans(ov[i].0, c.0, ov[j - 1].0);
        } else if i == p {
            assert(nv[j] == ov[j - 1]);
            if j - 1 > p {
                lemma_seq_lt_trans(c.0, ov[p].0, ov[j - 1].0);
            }
        } else {
            assert(nv[i] == ov[i - 1] && nv[j] == ov[j - 1]);
        }
    }
    assert forall|i: int| 0 <= i < nv.len() implies first_with_url(pre1, (#[trigger] nv[i]).0)
        == Some(nv[i]) by {
        if i != p {
            let oi = if i < p {
                i
            } else {
                i - 1
            };
            assert(nv[i] == ov[oi]);
            assert(first_with_url(pre, ov[oi].0) == Some(ov[oi]));
        }
    }
    assert forall|k: int| 0 <= k < pre1.len() implies listed(nv, (#[trigger] pre1[k]).0) by {
        reveal(listed);
        if k < pre.len() {
            assert(pre1[k] == pre[k]);
            assert(listed(ov, pre[k].0));
            let i = choose|i: int| 0 <= i < ov.len() && (#[trigger] ov[i]).0 == pre[k].0;
            let ni = if i < p {
                i
            } else {
                i + 1
            };
            assert(nv[ni] == ov[i]);
        } else {
            assert(nv[p] == pre1[k]);
        }
    }
}

/// Sort resources by URL and keep the first of each URL.
pub fn sort_dedup_by_url(cands: &Vec<DetectedResource>) -> (r: Vec<DetectedResource>)
    ensures
        dedup_by_url_spec(resources_view(cands@), resources_view(r@)),
{
    let ghost cv = resources_view(cands@);
    let mut out: Vec<DetectedResource> = Vec::new();
    let mut n: usize = 0;
    assert(cv.len() == cands@.len());
    assert(resources_view(out@) =~= Seq::<ResourceView>::empty());
    while n < cands.len()
        invariant
            n <= cands.len(),
            cv == resources_view(cands@),
            cv.len() == cands@.len(),
            dedup_by_url_spec(cv.subrange(0, n as int), resources_view(out@)),
        decreases cands.len() - n,
    {
        let ghost ov = resources_view(out@);
        let ghost c = cv[n as int];
        assert(c == resource_view(cands@[n as int]));
        assert(ov.len() == out@.len());
        assert(cv.subrange(0, n + 1) =~= cv.subrange(0, n as int).push(c));
        let cu = chars_of(cands[n].url.as_str());
        let mut p: usize = 0;
        while p < out.len() && lex_less(&chars_of(out[p].url.as_str()), &cu)
            invariant
                p <= out.len(),
                ov == resources_view(out@),
                ov.len() == out@.len(),
                cu@ == c.0,
                forall|q: int| 0 <= q < p ==> seq_lt(#[trigger] ov[q].0, c.0),
            decreases out.len() - p,
        {
            assert(ov[p as int] == resource_view(out@[p as int]));
            p = p + 1;
        }
        let dup = p < out.len() && !lex_less(&cu, &chars_of(out[p].url.as_str()));
        proof {
            if p < out.len() {
                assert(ov[p as int] == resource_view(out@[p as int]));
                lemma_seq_lt_order(ov[p as int].0, c.0);
            }
        }
        if dup {
            proof {
                lemma_dedup_skip(cv.subrange(0, n as int), c, ov, p as int);
            }
        } else {
            let item = copy_resource(&cands[n]);
            out.insert(p, item);
            proof {
                assert(resources_view(out@) =~= ov.insert(p as int, c));
                lemma_dedup_insert(cv.subrange(0, n as int), c, ov, p as int);
            }
        }
        n = n + 1;
    }
    assert(cv.subrange(0, cands.len() as int) =~= cv);
    out
}

// ------------------------------------------------------------------
// The page
// ------------------------------------------------------------------

/// Pushing a resource pushes its view.
proof fn lemma_push_view(v: Seq<DetectedResource>, x: DetectedResource)
    ensures
        resources_view(v.push(x)) == resources_view(v).push(resource_view(x)),
{
    let a = resources_view(v.push(x));
    let b = resources_view(v).push(resource_view(x));
    assert(a.len() == b.len());
    assert forall|i: int| 0 <= i < a.len() implies a[i] == b[i] by {
        if i < v.len() {
            assert(v.push(x)[i] == v[i]);
        }
    }
    assert(a =~= b);
}

/// Append the resources of media tags.
fn push_tag_candidates(
    out: &mut Vec<DetectedResource>,
    els: &Vec<Element>,
    base: &str,
    fixed: Option<ResourceType>,
)
    ensures
        resources_view(final(out)@) == resources_view(old(out)@) + tag_candidates(
            elements_view(els@),
            base@,
            fixed,
        ),
{
    let ghost start = resources_view(out@);
    let ghost ev = elements_view(els@);
    let mut i: usize = 0;
    assert(start + tag_candidates(ev.subrange(0, 0), base@, fixed) =~= start);
    while i < els.len()
        invariant
            i <= els.len(),
            ev == elements_view(els@),
            resources_view(out@) == start + tag_candidates(ev.subrange(0, i as int), base@, fixed),
        decreases els.len() - i,
    {
        let ghost sub = ev.subrange(0, i + 1);
        assert(sub.drop_last() =~= ev.subrange(0, i as int));
        assert(sub.last() == element_view(els@[i as int]));
        match &els[i].attr {
            Some(src) => match url_join(base, src.as_str()) {
                Some(u) => {
                    let t = match fixed {
                        Some(t) => t,
                        None => detect_type_from_url(u.as_str()),
                    };
                    let ghost before = out@;
                    let res = DetectedResource::new(u, t);
                    out.push(res);
                    proof {
                        lemma_push_view(before, res);
                    }
                },
                None => {},
            },
            None => {},
        }
        i = i + 1;
    }
    assert(ev.subrange(0, els.len() as int) =~= ev);
}

/// Append the resources of links to downloadable files.
fn push_anchor_candidates(out: &mut Vec<DetectedResource>, els: &Vec<Element>, base: &str)
    ensures
        resources_view(final(out)@) == resources_view(old(out)@) + anchor_candidates(
            elements_view(els@),
            base@,
        ),
{
    let ghost start = resources_view(out@);
    let ghost ev = elements_view(els@);
    let mut i: usize = 0;
    assert(start + anchor_candidates(ev.subrange(0, 0), base@) =~= start);
    while i < els.len()
        invariant
            i <= els.len(),
            ev == elements_view(els@),
            resources_view(out@) == start + anchor_candidates(ev.subrange(0, i as int), base@),
        decreases els.len() - i,
    {
        let ghost sub = ev.subrange(0, i + 1);
        assert(sub.drop_last() =~= ev.subrange(0, i as int));
        assert(sub.last() == element_view(els@[i as int]));
        match &els[i].attr {
            Some(href) => {
                if is_downloadable_extension(href.as_str()) {
                    match url_join(base, href.as_str()) {
                        Some(u) => {
                            let t = detect_type_from_url(u.as_str());
                            let title = trim_of(&chars_of(els[i].text.as_str()));
                            let mut res = DetectedResource::new(u, t);
                            if title.len() > 0 {
                                res.title = Some(string_of(&title));
                            }
                            let ghost before = out@;
                            out.push(res);
                            proof {
                                lemma_push_view(before, res);
                            }
                        },
                        None => {},
                    }
                }
            },
            None => {},
        }
        i = i + 1;
    }
    assert(ev.subrange(0, els.len() as int) =~= ev);
}

/// Append the manifest found in a line for one extension.
fn push_manifest_in_line(out: &mut Vec<DetectedResource>, line: &Vec<char>, ext: &str, base: &str)
    ensures
        resources_view(final(out)@) == resources_view(old(out)@) + manifest_in_line(
            line@,
            ext@,
            base@,
        ),
{
    let ghost start = resources_view(out@);
    if contains_in(line, &chars_of(ext)) {
        match extract_url_from_text(string_of(line).as_str(), ext) {
            Some(x) => match url_join(base, x.as_str()) {
                Some(u) => {
                    let ghost before = out@;
                    let res = DetectedResource::new(u, ResourceType::Video);
                    out.push(res);
                    proof {
                        lemma_push_view(before, res);
                        assert(resources_view(out@) =~= start + manifest_in_line(line@, ext@, base@));
                    }
                },
                None => {
                    assert(start + manifest_in_line(line@, ext@, base@) =~= start);
                },
            },
            None => {
                assert(start + manifest_in_line(line@, ext@, base@) =~= start);
            },
        }
    } else {
        assert(start + manifest_in_line(line@, ext@, base@) =~= start);
    }
}

/// Append the manifests named in the lines of a text.
fn push_text_candidates(out: &mut Vec<DetectedResource>, text: &str, base: &str)
    ensures
        resources_view(final(out)@) == resources_view(old(out)@) + text_candidates(
            lines(text@),
            base@,
        ),
{
    let ghost start = resources_view(out@);
    let ls = lines_of(&chars_of(text));
    let ghost lv = views(ls@);
    let mut i: usize = 0;
    assert(start + text_candidates(lv.subrange(0, 0), base@) =~= start);
    while i < ls.len()
        invariant
            i <= ls.len(),
            lv == views(ls@),
            resources_view(out@) == start + text_candidates(lv.subrange(0, i as int), base@),
        decreases ls.len() - i,
    {
        let ghost sub = lv.subrange(0, i + 1);
        assert(sub.drop_last() =~= lv.subrange(0, i as int));
        assert(sub.last() == ls@[i as int]@);
        push_manifest_in_line(out, &ls[i], ".m3u8", base);
        push_manifest_in_line(out, &ls[i], ".mpd", base);
        i = i + 1;
        assert(resources_view(out@) =~= start + text_candidates(lv.subrange(0, i as int), base@));
    }
    assert(lv.subrange(0, ls.len() as int) =~= lv);
}

/// The resources of a page, given what its parsed document holds: the
/// `<video>`, `<source>` and `<audio>` elements with their `src`, the
/// `<a href>` elements with their `href` and text, and the document's text.
pub fn collect_resources(
    videos: &Vec<Element>,
    sources: &Vec<Element>,
    audios: &Vec<Element>,
    anchors: &Vec<Element>,
    text: &str,
    base_url: &str,
) -> (r: Vec<DetectedResource>)
    ensures
        dedup_by_url_spec(
            page_candidates(
                elements_view(videos@),
                elements_view(sources@),
                elements_view(audios@),
                elements_view(anchors@),
                text@,
                base_url@,
            ),
            resources_view(r@),
        ),
{
    let mut cands: Vec<DetectedResource> = Vec::new();
    assert(resources_view(cands@) =~= Seq::<ResourceView>::empty());
    push_tag_candidates(&mut cands, videos, base_url, Some(ResourceType::Video));
    push_tag_candidates(&mut cands, sources, base_url, None);
    push_tag_candidates(&mut cands, audios, base_url, Some(ResourceType::Audio));
    push_anchor_candidates(&mut cands, anchors, base_url);
    push_text_candidates(&mut cands, text, base_url);
    assert(resources_view(cands@) =~= page_candidates(
        elements_view(videos@),
        elements_view(sources@),
        elements_view(audios@),
        elements_view(anchors@),
        text@,
        base_url@,
    ));
    sort_dedup_by_url(&cands)
}

/// The downloadable resources of an HTML page whose URL is `base_url`.
pub fn analyze_page(html: &str, base_url: &str) -> (r: Vec<DetectedResource>)
    ensures
        dedup_by_url_spec(
            page_candidates(
                html_select_spec(html@, "video"@, "src"@),
                html_select_spec(html@, "source"@, "src"@),
                html_select_spec(html@, "audio"@, "src"@),
                html_select_spec(html@, "a[href]"@, "href"@),
                html_text_spec(html@),
                base_url@,
            ),
            resources_view(r@),
        ),
{
    let videos = html_select(html, "video", "src");
    let sources = html_select(html, "source", "src");
    let audios = html_select(html, "audio", "src");
    let anchors = html_select(html, "a[href]", "href");
    let text = html_text(html);
    collect_resources(&videos, &sources, &audios, &anchors, text.as_str(), base_url)
}

/// Nothing is made up: every resource a page analysis returns is one of the
/// page's candidates (a `src`, `href` or manifest URL found in the page and
/// joined with the base URL), the first candidate with its URL.
pub proof fn law_found_resources_are_candidates(c: Seq<ResourceView>, r: Seq<ResourceView>)
    requires
        dedup_by_url_spec(c, r),
    ensures
        forall|i: int|
            0 <= i < r.len() ==> exists|k: int| 0 <= k < c.len() && #[trigger] c[k] == #[trigger] r[i],
{
    assert forall|i: int| 0 <= i < r.len() implies exists|k: int|
        0 <= k < c.len() && #[trigger] c[k] == #[trigger] r[i] by {
        lemma_first_with_url(c, r[i].0);
        assert(first_with_url(c, r[i].0) == Some(r[i]));
    }
}

/// The type of a URL follows the extensions its lowercase form contains, in
/// this order: `.mp4`, `.mkv`, `.avi`, `.webm`, `.m3u8` or `.mpd` make it a
/// video; else `.mp3`, `.m4a`, `.flac` or `.wav` audio; else `.zip`, `.rar`,
/// `.7z` or `.tar` an archive; else `.pdf` or `.doc` a document; else it is
/// unknown.
pub proof fn law_type_by_extension(url: Seq<char>)
    ensures
        ({
            let l = unicode_lowercase(url);
            let video = contains(l, ".mp4"@) || contains(l, ".mkv"@) || contains(l, ".avi"@)
                || contains(l, ".webm"@) || contains(l, ".m3u8"@) || contains(l, ".mpd"@);
            let audio = contains(l, ".mp3"@) || contains(l, ".m4a"@) || contains(l, ".flac"@)
                || contains(l, ".wav"@);
            let archive = contains(l, ".zip"@) || contains(l, ".rar"@) || contains(l, ".7z"@)
                || contains(l, ".tar"@);
            let document = contains(l, ".pdf"@) || contains(l, ".doc"@);
            &&& video ==> detect_type_spec(url) == ResourceType::Video
            &&& !video && audio ==> detect_type_spec(url) == ResourceType::Audio
            &&& !video && !audio && archive ==> detect_type_spec(url) == ResourceType::Archive
            &&& !video && !audio && !archive && document ==> detect_type_spec(url)
                == ResourceType::Document
            &&& !video && !audio && !archive && !document ==> detect_type_spec(url)
                == ResourceType::Unknown
        }),
{
    let l = unicode_lowercase(url);
    let v = seq![".mp4"@, ".mkv"@, ".avi"@, ".webm"@, ".m3u8"@, ".mpd"@];
    let a = seq![".mp3"@, ".m4a"@, ".flac"@, ".wav"@];
    let r = seq![".zip"@, ".rar"@, ".7z"@, ".tar"@];
    let d = seq![".pdf"@, ".doc"@];
    assert(v[0] == ".mp4"@ && v[1] == ".mkv"@ && v[2] == ".avi"@ && v[3] == ".webm"@ && v[4]
        == ".m3u8"@ && v[5] == ".mpd"@);
    assert(a[0] == ".mp3"@ && a[1] == ".m4a"@ && a[2] == ".flac"@ && a[3] == ".wav"@);
    assert(r[0] == ".zip"@ && r[1] == ".rar"@ && r[2] == ".7z"@ && r[3] == ".tar"@);
    assert(d[0] == ".pdf"@ && d[1] == ".doc"@);
    assert(contains_any(l, v) == (contains(l, v[0]) || contains(l, v[1]) || contains(l, v[2])
        || contains(l, v[3]) || contains(l, v[4]) || contains(l, v[5])));
    assert(contains_any(l, a) == (contains(l, a[0]) || contains(l, a[1]) || contains(l, a[2])
        || contains(l, a[3])));
    assert(contains_any(l, r) == (contains(l, r[0]) || contains(l, r[1]) || contains(l, r[2])
        || contains(l, r[3])));
    assert(contains_any(l, d) == (contains(l, d[0]) || contains(l, d[1])));
}

} // verus!
