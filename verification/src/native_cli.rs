//! The command-line HLS downloader's decisions: its flags, the referer it
//! sends, and how a segment wrapped in a PNG picture is unwrapped.
use crate::text::{
    append_chars, chars_of, decimal, decimal_of, find, find_in, has_prefix, contains, contains_in,
    lemma_find_contains, slice_of, string_of, string_views,
};
use vstd::prelude::*;

verus! {

/// The value after the first occurrence of `flag` among the arguments.
pub open spec fn flag_value(args: Seq<Seq<char>>, flag: Seq<char>, i: int) -> Option<Seq<char>>
    decreases args.len() - i,
{
    if i < 0 || i >= args.len() {
        None
    } else if args[i] == flag && i + 1 < args.len() {
        Some(args[i + 1])
    } else {
        flag_value(args, flag, i + 1)
    }
}

/// The argument after the first `flag` that has one.
pub fn get_flag_opt(args: &[String], flag: &str) -> (r: Option<String>)
    ensures
        match r {
            Some(v) => flag_value(string_views(args@), flag@, 0) == Some(v@),
            None => flag_value(string_views(args@), flag@, 0) is None,
        },
{
    let ghost av = string_views(args@);
    let mut i: usize = 0;
    while i < args.len()
        invariant
            i <= args.len(),
            av == string_views(args@),
            flag_value(av, flag@, 0) == flag_value(av, flag@, i as int),
        decreases args.len() - i,
    {
        assert(av[i as int] == args@[i as int]@);
        let same = crate::text::text_eq(args[i].as_str(), flag);
        if same && i + 1 < args.len() {
            assert(av[i + 1] == args@[i + 1]@);
            return Some(args[i + 1].clone());
        }
        i = i + 1;
    }
    None
}

/// The argument after `flag`, or the empty string.
pub fn get_flag(args: &[String], flag: &str) -> (r: String)
    ensures
        r@ == match flag_value(string_views(args@), flag@, 0) {
            Some(v) => v,
            None => seq![],
        },
{
    match get_flag_opt(args, flag) {
        Some(v) => v,
        None => String::new(),
    }
}

/// The referer sent with requests: the one given, else for a URL with
/// `/hls/` the URL up to its `?v=` (or whole), else the URL itself.
pub open spec fn page_url_spec(url: Seq<char>, referer: Seq<char>) -> Seq<char> {
    if referer.len() > 0 {
        referer
    } else if contains(url, "/hls/"@) {
        match find(url, "?v="@) {
            Some(p) => url.subrange(0, p),
            None => url,
        }
    } else {
        url
    }
}

/// The referer sent with requests.
pub fn page_url_for(url: &str, referer: &str) -> (r: String)
    ensures
        r@ == page_url_spec(url@, referer@),
{
    if referer.unicode_len() > 0 {
        return referer.to_string();
    }
    let u = chars_of(url);
    if contains_in(&u, &chars_of("/hls/")) {
        let q = chars_of("?v=");
        proof {
            lemma_find_contains(u@, q@);
        }
        match find_in(&u, &q) {
            Some(p) => string_of(&slice_of(&u, 0, p)),
            None => url.to_string(),
        }
    } else {
        url.to_string()
    }
}

/// The bytes start with the PNG signature's first four bytes and hold more.
pub open spec fn is_png_spec(d: Seq<u8>) -> bool {
    d.len() > 4 && d[0] == 0x89 && d[1] == 0x50 && d[2] == 0x4e && d[3] == 0x47
}

/// The first position of the `IEND` chunk type.
pub open spec fn iend_at(d: Seq<u8>, i: int) -> bool {
    0 <= i && i + 4 <= d.len() && d[i] == 0x49 && d[i + 1] == 0x45 && d[i + 2] == 0x4e && d[i
        + 3] == 0x44
}

/// How many leading bytes of a segment are a PNG wrapper.
pub fn png_strip_offset(d: &[u8]) -> (r: usize)
    requires
        d@.len() + 12 <= usize::MAX,
    ensures
        is_png_spec(d@) && r == 0 ==> forall|i: int| !iend_at(d@, i),
        is_png_spec(d@) && r > 0 ==> r >= 12 && iend_at(d@, r - 12) && forall|j: int|
            0 <= j < r - 12 ==> !iend_at(d@, j),
        !is_png_spec(d@) ==> r == 0,
{
    if !(d.len() > 4 && d[0] == 0x89 && d[1] == 0x50 && d[2] == 0x4e && d[3] == 0x47) {
        return 0;
    }
    let mut i: usize = 0;
    while i + 4 <= d.len()
        invariant
            d@.len() + 12 <= usize::MAX,
            is_png_spec(d@),
            i <= d.len(),
            forall|j: int| 0 <= j < i ==> !iend_at(d@, j),
        decreases d.len() - i,
    {
        if d[i] == 0x49 && d[i + 1] == 0x45 && d[i + 2] == 0x4e && d[i + 3] == 0x44 {
            return i + 12;
        }
        i = i + 1;
    }
    assert forall|j: int| !iend_at(d@, j) by {
        if 0 <= j && j + 4 <= d@.len() {
            assert(j < i);
        }
    }
    0
}

/// The part of a segment that is video: after the wrapper when the segment
/// is longer than it, else the whole segment.
pub open spec fn payload_start(len: nat, strip: nat) -> nat {
    if strip > 0 && len > strip {
        strip
    } else {
        0
    }
}

/// Where the video of a segment begins.
pub fn payload_offset(len: usize, strip: usize) -> (r: usize)
    ensures
        r == payload_start(len as nat, strip as nat),
{
    if strip > 0 && len > strip {
        strip
    } else {
        0
    }
}

} // verus!
