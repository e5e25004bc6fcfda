//! The decisions of the `darkdm` command: when a URL is a page to extract
//! from, which extractors are tried and in what order, which link or
//! resource is downloaded and under what name, and how a batch file is read
//! and its results joined.
use crate::content_type::{extraction_spec, hls_spec, is_hls, needs_extraction};
use crate::page_analyzer::DetectedResource;
use crate::plugins::{DetectedLink, ExtractorRegistry};
use crate::probe::{opt_view, ProbeResult};
use crate::text::{
    append_chars, chars_of, ends_with, has_prefix, has_suffix, lines, lines_of, starts_with,
    string_of, string_views, trim, trim_of, views,
};
use vstd::prelude::*;

verus! {

/// Whether a probed URL is a page: it has a content type that needs extraction.
pub fn needs_page_extraction(probe: &ProbeResult) -> (r: bool)
    ensures
        r == (probe.content_type matches Some(ct) && extraction_spec(
            crate::text::unicode_lowercase(ct@),
        )),
{
    match &probe.content_type {
        Some(ct) => needs_extraction(ct.as_str()),
        None => false,
    }
}

/// The extractors the command tries, registered as YouTube, MediaFire,
/// Netflix: consulted as MediaFire (100), YouTube (95), Netflix (90).
pub fn default_registry() -> (r: ExtractorRegistry)
    ensures
        r.wf(),
        r.entries() == seq![
            ("mediafire"@, "MediaFire"@, 100u8),
            ("youtube"@, "YouTube (yt-dlp)"@, 95u8),
            ("netflix"@, "Netflix CDN"@, 90u8),
        ],
{
    let mut r = ExtractorRegistry::new();
    let p1 = r.register("youtube", "YouTube (yt-dlp)", 95);
    let ghost e1 = r.entries();
    assert(p1 == 0);
    assert(e1 =~= seq![("youtube"@, "YouTube (yt-dlp)"@, 95u8)]);
    let p2 = r.register("mediafire", "MediaFire", 100);
    let ghost e2 = r.entries();
    assert(p2 == 0) by {
        if p2 > 0 {
            assert(e1[0].2 >= 100);
        }
    }
    assert(e2 =~= seq![("mediafire"@, "MediaFire"@, 100u8), ("youtube"@, "YouTube (yt-dlp)"@, 95u8)]);
    let p3 = r.register("netflix", "Netflix CDN", 90);
    assert(p3 == 2) by {
        assert(e2[0].2 >= 90 && e2[1].2 >= 90);
        if p3 < 2 {
            assert(e2[p3 as int].2 < 90);
        }
    }
    assert(r.entries() =~= seq![
        ("mediafire"@, "MediaFire"@, 100u8),
        ("youtube"@, "YouTube (yt-dlp)"@, 95u8),
        ("netflix"@, "Netflix CDN"@, 90u8),
    ]);
    r
}

/// A character that cannot stand in a file name.
pub open spec fn bad_name_char(c: char) -> bool {
    c == '/' || c == '\\' || c == ':' || c == '*' || c == '?' || c == '"' || c == '<' || c == '>'
        || c == '|'
}

/// The file name of a stream download: the link's title (or `video`) with
/// each character that cannot stand in a file name replaced by `_`,
/// trimmed, and `.mp4` added unless it already ends with `.mp4` or `.mkv`.
pub open spec fn stream_file_name_spec(title: Seq<char>) -> Seq<char> {
    let n = trim(
        title.map_values(
            |c: char|
                if bad_name_char(c) {
                    '_'
                } else {
                    c
                },
        ),
    );
    if has_suffix(n, ".mp4"@) || has_suffix(n, ".mkv"@) {
        n
    } else {
        n + ".mp4"@
    }
}

/// The file name of a stream download.
pub fn stream_file_name(title: Option<String>) -> (r: String)
    ensures
        r@ == stream_file_name_spec(
            match title {
                Some(t) => t@,
                None => "video"@,
            },
        ),
{
    let t = match title {
        Some(t) => chars_of(t.as_str()),
        None => chars_of("video"),
    };
    let ghost tv = t@;
    let mut m: Vec<char> = Vec::new();
    let mut i: usize = 0;
    while i < t.len()
        invariant
            i <= t.len(),
            tv == t@,
            m@ == tv.subrange(0, i as int).map_values(
                |c: char|
                    if bad_name_char(c) {
                        '_'
                    } else {
                        c
                    },
            ),
        decreases t.len() - i,
    {
        let c = t[i];
        let bad = c == '/' || c == '\\' || c == ':' || c == '*' || c == '?' || c == '"' || c == '<'
            || c == '>' || c == '|';
        m.push(if bad {
            '_'
        } else {
            c
        });
        i = i + 1;
        assert(m@ =~= tv.subrange(0, i as int).map_values(
            |c: char|
                if bad_name_char(c) {
                    '_'
                } else {
                    c
                },
        ));
    }
    assert(tv.subrange(0, t.len() as int) =~= tv);
    let mut n = trim_of(&m);
    if !(ends_with(&n, &chars_of(".mp4")) || ends_with(&n, &chars_of(".mkv"))) {
        append_chars(&mut n, &chars_of(".mp4"));
    }
    string_of(&n)
}

/// What the command downloads from an extractor's links.
pub enum ExtractedTarget {
    /// An HLS stream, saved under this file name in the output directory.
    Stream { url: String, file_name: String },
    /// A file, fetched by the engine.
    File { url: String },
}

/// The first link is downloaded: as a stream when its URL is HLS, else as a
/// file; no link is an error.
pub fn choose_extracted(links: &Vec<DetectedLink>) -> (r: Result<ExtractedTarget, String>)
    ensures
        links@.len() == 0 ==> (r matches Err(e) && e@ == "No videos found"@),
        links@.len() > 0 && hls_spec(links@[0].url@) ==> (r matches Ok(
            ExtractedTarget::Stream { url, file_name },
        ) && url@ == links@[0].url@ && file_name@ == stream_file_name_spec(
            match links@[0].filename {
                Some(t) => t@,
                None => "video"@,
            },
        )),
        links@.len() > 0 && !hls_spec(links@[0].url@) ==> (r matches Ok(ExtractedTarget::File { url })
            && url@ == links@[0].url@),
{
    if links.len() == 0 {
        return Err("No videos found".to_string());
    }
    let url = links[0].url.clone();
    if is_hls(url.as_str()) {
        let title = match &links[0].filename {
            Some(t) => Some(t.clone()),
            None => None,
        };
        let file_name = stream_file_name(title);
        Ok(ExtractedTarget::Stream { url, file_name })
    } else {
        Ok(ExtractedTarget::File { url })
    }
}

/// The first resource found in a page is downloaded; none is an error.
pub fn choose_resource(resources: &Vec<DetectedResource>) -> (r: Result<String, String>)
    ensures
        resources@.len() == 0 ==> (r matches Err(e) && e@ == "No videos, audios, or files detected"@),
        resources@.len() > 0 ==> (r matches Ok(u) && u@ == resources@[0].url@),
{
    if resources.len() == 0 {
        return Err("No videos, audios, or files detected".to_string());
    }
    Ok(resources[0].url.clone())
}

// ------------------------------------------------------------------
// Batches
// ------------------------------------------------------------------

/// The URLs of a batch file: its lines trimmed, without blank lines and
/// `#` comments.
pub open spec fn batch_urls_of(ls: Seq<Seq<char>>) -> Seq<Seq<char>>
    decreases ls.len(),
{
    if ls.len() == 0 {
        seq![]
    } else {
        let t = trim(ls.last());
        if t.len() > 0 && !has_prefix(t, "#"@) {
            batch_urls_of(ls.drop_last()).push(t)
        } else {
            batch_urls_of(ls.drop_last())
        }
    }
}

/// The URLs listed in a batch file.
pub fn batch_urls(content: &str) -> (r: Vec<String>)
    ensures
        string_views(r@) == batch_urls_of(lines(content@)),
{
    let ls = lines_of(&chars_of(content));
    let ghost lv = views(ls@);
    let hash = chars_of("#");
    let mut out: Vec<String> = Vec::new();
    let mut i: usize = 0;
    while i < ls.len()
        invariant
            i <= ls.len(),
            lv == views(ls@),
            hash@ == "#"@,
            string_views(out@) == batch_urls_of(lv.subrange(0, i as int)),
        decreases ls.len() - i,
    {
        let ghost sub = lv.subrange(0, i + 1);
        assert(sub.drop_last() =~= lv.subrange(0, i as int));
        assert(sub.last() == ls@[i as int]@);
        let t = trim_of(&ls[i]);
        if t.len() > 0 && !starts_with(&t, &hash) {
            let ghost before = out@;
            out.push(string_of(&t));
            assert(string_views(out@) =~= string_views(before).push(t@));
        }
        i = i + 1;
    }
    assert(lv.subrange(0, ls.len() as int) =~= lv);
    out
}

/// What to do about joining the downloaded files of a batch.
#[derive(Debug, Clone, Copy, PartialEq, Eq, Structural)]
pub enum ConcatPlan {
    /// Join them with `ffmpeg`.
    Join,
    /// Joining was asked for, but fewer than two files arrived.
    TooFew,
    /// Joining was not asked for.
    Skip,
}

/// Whether the downloaded files of a batch are joined.
pub fn concat_plan(concat: bool, downloaded: usize) -> (r: ConcatPlan)
    ensures
        r == (if !concat {
            ConcatPlan::Skip
        } else if downloaded > 1 {
            ConcatPlan::Join
        } else {
            ConcatPlan::TooFew
        }),
{
    if concat && downloaded > 1 {
        ConcatPlan::Join
    } else if concat {
        ConcatPlan::TooFew
    } else {
        ConcatPlan::Skip
    }
}

/// `file 'PATH'` lines, one per downloaded file, in order.
pub open spec fn file_list_spec(paths: Seq<Seq<char>>) -> Seq<char>
    decreases paths.len(),
{
    if paths.len() == 0 {
        seq![]
    } else {
        file_list_spec(paths.drop_last()) + "file '"@ + paths.last() + "'\n"@
    }
}

/// The list `ffmpeg -f concat` reads for the downloaded files.
pub fn concat_file_list(paths: &[String]) -> (r: String)
    ensures
        r@ == file_list_spec(string_views(paths@)),
{
    let ghost pv = string_views(paths@);
    let mut out: Vec<char> = Vec::new();
    let mut i: usize = 0;
    while i < paths.len()
        invariant
            i <= paths.len(),
            pv == string_views(paths@),
            out@ == file_list_spec(pv.subrange(0, i as int)),
        decreases paths.len() - i,
    {
        let ghost sub = pv.subrange(0, i + 1);
        assert(sub.drop_last() =~= pv.subrange(0, i as int));
        assert(sub.last() == paths@[i as int]@);
        append_chars(&mut out, &chars_of("file '"));
        append_chars(&mut out, &chars_of(paths[i].as_str()));
        append_chars(&mut out, &chars_of("'\n"));
        i = i + 1;
    }
    assert(pv.subrange(0, paths.len() as int) =~= pv);
    string_of(&out)
}

/// The name of the joined file: the one given, else `output.mp4`.
pub fn concat_output_name(name: Option<String>) -> (r: String)
    ensures
        r@ == match name {
            Some(n) => n@,
            None => "output.mp4"@,
        },
{
    match name {
        Some(n) => n,
        None => "output.mp4".to_string(),
    }
}

/// The arguments of `ffmpeg` joining the files of a list without re-encoding.
pub open spec fn concat_args_spec(list: Seq<char>, output: Seq<char>) -> Seq<Seq<char>> {
    seq!["-f"@, "concat"@, "-safe"@, "0"@, "-i"@, list, "-c"@, "copy"@, "-y"@, output]
}

/// The arguments of `ffmpeg` joining the files of a list.
pub fn concat_args(list: &str, output: &str) -> (r: Vec<String>)
    ensures
        string_views(r@) == concat_args_spec(list@, output@),
{
    let mut v: Vec<String> = Vec::new();
    v.push("-f".to_string());
    v.push("concat".to_string());
    v.push("-safe".to_string());
    v.push("0".to_string());
    v.push("-i".to_string());
    v.push(list.to_string());
    v.push("-c".to_string());
    v.push("copy".to_string());
    v.push("-y".to_string());
    v.push(output.to_string());
    assert(string_views(v@) =~= concat_args_spec(list@, output@));
    v
}

} // verus!
