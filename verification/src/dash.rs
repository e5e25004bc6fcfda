//! DASH (`.mpd`) manifest parsing: segment URLs from `<SegmentURL>` lists or
//! from a `<SegmentTemplate>`.
use crate::stream::{resolve, resolve_spec, xml_attr, xml_attr_spec};
use crate::text::{
    append_chars, chars_of, concat, decimal, decimal_of, decimal_padded, decimal_padded_of,
    find, find_from, find_in, find_in_from, has_prefix, lemma_find_contains, lemma_find_from, occurs_at,
    opt_int, parse_u64, parse_u64_of, replace, replace_all, slice_of, starts_with, string_of,
    string_views, strip_prefix_all, strip_suffix_all, trim, trim_end_matches, trim_of,
    trim_start_matches,
};
use vstd::prelude::*;
use vstd::string::StringSliceAdditionalSpecFns;
use vstd::utf8::is_char_boundary;

verus! {

/// The base URL a manifest sets with `<BaseURL>`: its trimmed text resolved
/// against `base` (kept as is when it starts with `http`), or `base` itself.
pub open spec fn dash_base_spec(content: Seq<char>, base: Seq<char>) -> Seq<char> {
    match find(content, "<BaseURL>"@) {
        Some(start) => {
            let s = start + "<BaseURL>"@.len();
            match find(content.subrange(s, content.len() as int), "</BaseURL>"@) {
                Some(e) => resolve_spec(base, trim(content.subrange(s, s + e))),
                None => base,
            }
        },
        None => base,
    }
}

/// Number of matches of `p` found by scanning from `pos`, resuming `adv`
/// characters after the start of each match.
pub open spec fn scan_count(s: Seq<char>, p: Seq<char>, pos: int, adv: int) -> nat
    decreases s.len() + 1 - pos,
{
    match find_from(s, p, pos) {
        Some(k) => if pos <= k && adv >= 1 && k + adv <= s.len() + 1 {
            1 + scan_count(s, p, k + adv, adv)
        } else {
            0
        },
        None => 0,
    }
}

/// `<S>` (bytes `3c 53 3e`) starts at byte `i`.
pub open spec fn s_tag_at(b: Seq<u8>, i: int) -> bool {
    0 <= i && i + 3 <= b.len() && b[i] == 0x3c && b[i + 1] == 0x53 && b[i + 2] == 0x3e
}

/// `<S>` occurs at some byte at or after `pos`.
pub open spec fn s_tag_after(b: Seq<u8>, pos: int) -> bool {
    exists|i: int| pos <= i && #[trigger] s_tag_at(b, i)
}

/// The count of the `<S>` scan that advances by three bytes after each hit,
/// starting at byte `pos`; `None` when it would slice inside a character.
pub open spec fn plain_s_scan(b: Seq<u8>, pos: int) -> Option<nat>
    decreases b.len() + 1 - pos,
{
    if pos < 0 || pos > b.len() || !is_char_boundary(b, pos) {
        None
    } else if s_tag_after(b, pos) && pos + 3 <= b.len() {
        match plain_s_scan(b, pos + 3) {
            Some(k) => Some(k + 1),
            None => None,
        }
    } else {
        Some(0)
    }
}

/// The segment count a manifest announces: `<S ` elements, else the `<S>` scan
/// over the UTF-8 bytes (`None` when that scan would panic), else `<SegmentURL` tags.
pub open spec fn segment_count_spec(content: Seq<char>, bytes: Seq<u8>) -> Option<nat> {
    let with_attrs = scan_count(content, "<S "@, 0, 2);
    if with_attrs > 0 {
        Some(with_attrs)
    } else {
        match plain_s_scan(bytes, 0) {
            Some(k) => if k > 0 {
                Some(k)
            } else {
                Some(scan_count(content, "<SegmentURL"@, 0, 5))
            },
            None => None,
        }
    }
}

/// The `media="..."` URL of the tag text from `pos` to the first `>` after it.
pub open spec fn media_entry(c: Seq<char>, mbase: Seq<char>, pos: int) -> Seq<Seq<char>> {
    let chunk = c.subrange(pos, c.len() as int);
    let end = match find(chunk, seq!['>']) {
        Some(e) => e,
        None => chunk.len() as int,
    };
    let tag = chunk.subrange(0, end);
    match find(tag, "media=\""@) {
        Some(ms) => {
            let q = ms + "media=\""@.len();
            match find(tag.subrange(q, tag.len() as int), seq!['"']) {
                Some(me) => {
                    let url = tag.subrange(q, q + me);
                    if url.len() > 0 {
                        seq![resolve_spec(mbase, url)]
                    } else {
                        seq![]
                    }
                },
                None => seq![],
            }
        },
        None => seq![],
    }
}

/// URLs of the `<SegmentURL` tags from `pos` on, in document order: the
/// `media` URL of each tag, read from the tag's own text; the scan resumes one
/// character after each match.
pub open spec fn segment_urls_from(c: Seq<char>, mbase: Seq<char>, pos: int) -> Seq<Seq<char>>
    decreases c.len() + 1 - pos,
{
    if pos < 0 || pos > c.len() {
        seq![]
    } else {
        match find_from(c, "<SegmentURL"@, pos) {
            Some(k) => if pos <= k && k < c.len() {
                media_entry(c, mbase, k) + segment_urls_from(c, mbase, k + 1)
            } else {
                seq![]
            },
            None => seq![],
        }
    }
}

/// A media template with the segment number `n` and time `t` filled in.
pub open spec fn fill_template(tmpl: Seq<char>, n: nat, t: nat) -> Seq<char> {
    let a = replace_all(tmpl, "$Number$"@, decimal(n));
    let b = replace_all(a, "$Number%01d$"@, decimal_padded(n, 1));
    let c = replace_all(b, "$Number%02d$"@, decimal_padded(n, 2));
    let d = replace_all(c, "$Number%03d$"@, decimal_padded(n, 3));
    let e = replace_all(d, "$Number%04d$"@, decimal_padded(n, 4));
    let f = replace_all(e, "$Number%05d$"@, decimal_padded(n, 5));
    replace_all(f, "$Time$"@, decimal(t))
}

/// `url` made absolute under `base` with a `/` between them, unless it starts with `http`.
pub open spec fn join_slash(base: Seq<char>, url: Seq<char>) -> Seq<char> {
    if has_prefix(url, "http"@) {
        url
    } else {
        base + seq!['/'] + strip_prefix_all(url, "/"@)
    }
}

/// Template segment URLs for numbers `n..=count`.
pub open spec fn template_urls(
    tmpl: Seq<char>,
    base: Seq<char>,
    dur: nat,
    n: nat,
    count: nat,
) -> Seq<Seq<char>>
    decreases count + 1 - n,
{
    if n < 1 || n > count {
        seq![]
    } else {
        seq![join_slash(base, fill_template(tmpl, n, ((n - 1) * dur) as nat))] + template_urls(
            tmpl,
            base,
            dur,
            n + 1,
            count,
        )
    }
}

/// The segment duration read from `<SegmentTimeline duration="...">`, 2000 by default.
pub open spec fn duration_spec(content: Seq<char>) -> nat {
    match parse_u64(xml_attr_spec(content, "SegmentTimeline"@, "duration"@)) {
        Some(d) => d as nat,
        None => 2000,
    }
}

/// `max(count, 100)`.
pub open spec fn template_count(count: nat) -> nat {
    if count > 100 {
        count
    } else {
        100
    }
}

/// The segments of a DASH manifest, given its announced segment count.
pub open spec fn dash_segments_spec(content: Seq<char>, base: Seq<char>, count: nat) -> Seq<
    Seq<char>,
> {
    let mbase = dash_base_spec(content, base);
    let listed = segment_urls_from(content, mbase, 0);
    let tmpl = xml_attr_spec(content, "SegmentTemplate"@, "media"@);
    if listed.len() == 0 && tmpl.len() > 0 {
        let b = strip_suffix_all(mbase, "/"@);
        let init = xml_attr_spec(content, "SegmentTemplate"@, "initialization"@);
        let head: Seq<Seq<char>> = if init.len() > 0 {
            seq![b + seq!['/'] + strip_prefix_all(init, "/"@)]
        } else {
            seq![]
        };
        head + template_urls(tmpl, b, duration_spec(content), 1, template_count(count))
    } else {
        listed
    }
}

/// The manifest can be parsed without a panic: the `<S>` scan stays on
/// character boundaries, and the `$Time$` products fit in a `u64`.
pub open spec fn dash_parsable(content: Seq<char>, bytes: Seq<u8>, base: Seq<char>) -> bool {
    &&& segment_count_spec(content, bytes) is Some
    &&& (segment_urls_from(content, dash_base_spec(content, base), 0).len() == 0 && xml_attr_spec(
        content,
        "SegmentTemplate"@,
        "media"@,
    ).len() > 0) ==> (template_count(segment_count_spec(content, bytes)->0) - 1) * duration_spec(
        content,
    ) <= u64::MAX
}

/// Number of matches of `p` in `s` scanning from `pos` and resuming `adv` after each start.
fn scan_count_of(s: &[char], p: &[char], adv: usize) -> (r: usize)
    requires
        1 <= adv <= p.len(),
    ensures
        r == scan_count(s@, p@, 0, adv as int),
{
    let mut pos: usize = 0;
    let mut total: usize = 0;
    loop
        invariant
            1 <= adv <= p.len(),
            pos <= s.len() + 1,
            total + scan_count(s@, p@, pos as int, adv as int) == scan_count(
                s@,
                p@,
                0,
                adv as int,
            ),
            total <= pos,
        decreases s.len() + 1 - pos,
    {
        match find_in_from(s, p, pos) {
            Some(k) => {
                proof {
                    lemma_find_from(s@, p@, pos as int);
                }
                total = total + 1;
                pos = k + adv;
            },
            None => {
                return total;
            },
        }
    }
}

/// The `<S>` scan over the bytes of `content`; `None` where it would panic.
fn plain_s_count(content: &str) -> (r: Option<usize>)
    ensures
        opt_nat_usize(r) == plain_s_scan(content.spec_bytes(), 0),
{
    let b = content.as_bytes();
    let n = b.len();
    // Last `<S>` occurrence.
    let mut last: Option<usize> = None;
    let mut i: usize = 0;
    while n >= 3 && i <= n - 3
        invariant
            n == b@.len(),
            b@ == content.spec_bytes(),
            i <= n,
            last matches Some(l) ==> s_tag_at(b@, l as int) && l < i && forall|j: int|
                l < j < i ==> !#[trigger] s_tag_at(b@, j),
            last is None ==> forall|j: int| 0 <= j < i ==> !#[trigger] s_tag_at(b@, j),
        decreases n - i,
    {
        if b[i] == 0x3c && b[i + 1] == 0x53 && b[i + 2] == 0x3e {
            last = Some(i);
        }
        i = i + 1;
    }
    assert forall|j: int| i <= j implies !#[trigger] s_tag_at(b@, j) by {}
    let mut pos: usize = 0;
    let mut count: usize = 0;
    loop
        invariant
            n == b@.len(),
            b@ == content.spec_bytes(),
            pos <= n,
            count <= pos,
            last matches Some(l) ==> s_tag_at(b@, l as int) && forall|j: int|
                l < j ==> !#[trigger] s_tag_at(b@, j),
            last is None ==> forall|j: int| 0 <= j ==> !#[trigger] s_tag_at(b@, j),
            opt_nat_usize(Some(count)) matches Some(c) ==> plain_s_scan(b@, 0) == match plain_s_scan(
                b@,
                pos as int,
            ) {
                Some(k) => Some(k + c),
                None => None,
            },
        decreases n - pos,
    {
        if !content.is_char_boundary(pos) {
            return None;
        }
        let hit = match last {
            Some(l) => pos <= l,
            None => false,
        };
        proof {
            if hit {
                assert(s_tag_at(b@, last->0 as int));
            } else {
                assert(!s_tag_after(b@, pos as int));
            }
        }
        if !hit {
            return Some(count);
        }
        count = count + 1;
        pos = pos + 3;
    }
}

/// An optional `usize` read as an optional natural number.
pub open spec fn opt_nat_usize(o: Option<usize>) -> Option<nat> {
    match o {
        Some(v) => Some(v as nat),
        None => None,
    }
}

/// The base URL set by `<BaseURL>`, resolved against `base`.
fn dash_base(c: &[char], base: &[char]) -> (r: Vec<char>)
    ensures
        r@ == dash_base_spec(c@, base@),
{
    let open_tag = chars_of("<BaseURL>");
    let close = chars_of("</BaseURL>");
    match find_in(c, &open_tag) {
        Some(start) => {
            proof {
                lemma_find_contains(c@, open_tag@);
                assert(crate::text::occurs_at(c@, open_tag@, start as int));
                assert(start + open_tag@.len() <= c@.len());
                assert(c@.len() == c.len());
                assert(open_tag@.len() == open_tag.len());
            }
            let s = start + open_tag.len();
            let rest = slice_of(c, s, c.len());
            match find_in(&rest, &close) {
                Some(e) => {
                    proof {
                        lemma_find_contains(rest@, close@);
                    }
                    let inner = slice_of(c, s, s + e);
                    let url = trim_of(&inner);
                    resolve(base, &url)
                },
                None => slice_of(base, 0, base.len()),
            }
        },
        None => slice_of(base, 0, base.len()),
    }
}

/// The `media="..."` URL of the tag text starting at `pos`.
fn media_entry_of(c: &[char], mbase: &[char], pos: usize) -> (r: Vec<Vec<char>>)
    requires
        pos <= c.len(),
    ensures
        crate::text::views(r@) == media_entry(c@, mbase@, pos as int),
{
    let gt: [char; 1] = ['>'];
    let dq: [char; 1] = ['"'];
    assert(gt@ =~= seq!['>']);
    assert(dq@ =~= seq!['"']);
    let key = chars_of("media=\"");
    let chunk = slice_of(c, pos, c.len());
    let end = match find_in(&chunk, &gt) {
        Some(e) => {
            proof {
                lemma_find_contains(chunk@, gt@);
            }
            e
        },
        None => chunk.len(),
    };
    let tag = slice_of(&chunk, 0, end);
    let mut out: Vec<Vec<char>> = Vec::new();
    match find_in(&tag, &key) {
        Some(ms) => {
            proof {
                lemma_find_contains(tag@, key@);
            }
            let q = ms + key.len();
            let tail = slice_of(&tag, q, tag.len());
            match find_in(&tail, &dq) {
                Some(me) => {
                    proof {
                        lemma_find_contains(tail@, dq@);
                    }
                    let url = slice_of(&tag, q, q + me);
                    if url.len() > 0 {
                        out.push(resolve(mbase, &url));
                    }
                },
                None => {},
            }
        },
        None => {},
    }
    assert(crate::text::views(out@) =~= media_entry(c@, mbase@, pos as int));
    out
}

/// The URLs of the `<SegmentURL` scan.
fn segment_urls(c: &[char], mbase: &[char]) -> (r: Vec<Vec<char>>)
    ensures
        crate::text::views(r@) == segment_urls_from(c@, mbase@, 0),
{
    let key = chars_of("<SegmentURL");
    proof {
        reveal_strlit("<SegmentURL");
    }
    let mut out: Vec<Vec<char>> = Vec::new();
    let mut pos: usize = 0;
    loop
        invariant
            key@ == "<SegmentURL"@,
            key@.len() == 11,
            pos <= c.len(),
            crate::text::views(out@) + segment_urls_from(c@, mbase@, pos as int) == segment_urls_from(
                c@,
                mbase@,
                0,
            ),
        decreases c.len() + 1 - pos,
    {
        match find_in_from(c, &key, pos) {
            Some(k) => {
                proof {
                    lemma_find_from(c@, key@, pos as int);
                }
                let entry = media_entry_of(c, mbase, k);
                let ghost before = crate::text::views(out@);
                let mut j: usize = 0;
                while j < entry.len()
                    invariant
                        j <= entry.len(),
                        crate::text::views(out@) == before + crate::text::views(entry@).subrange(
                            0,
                            j as int,
                        ),
                    decreases entry.len() - j,
                {
                    let e = slice_of(&entry[j], 0, entry[j].len());
                    let ghost prev = crate::text::views(out@);
                    assert(crate::text::views(entry@)[j as int] == entry@[j as int]@);
                    assert(e@ =~= entry@[j as int]@);
                    out.push(e);
                    assert(crate::text::views(out@) =~= prev.push(e@));
                    assert(crate::text::views(entry@).subrange(0, j + 1) =~= crate::text::views(
                        entry@,
                    ).subrange(0, j as int).push(entry@[j as int]@));
                    j = j + 1;
                }
                assert(crate::text::views(entry@).subrange(0, entry.len() as int)
                    =~= crate::text::views(entry@));
                assert(before + segment_urls_from(c@, mbase@, pos as int) =~= crate::text::views(
                    out@,
                ) + segment_urls_from(c@, mbase@, k + 1));
                pos = k + 1;
            },
            None => {
                assert(crate::text::views(out@) + segment_urls_from(c@, mbase@, pos as int)
                    =~= crate::text::views(out@));
                return out;
            },
        }
    }
}

/// A media template with the segment number `n` and time `t` filled in.
fn fill_template_of(tmpl: &[char], n: u64, t: u64) -> (r: Vec<char>)
    ensures
        r@ == fill_template(tmpl@, n as nat, t as nat),
{
    proof {
        reveal_strlit("$Number$");
        reveal_strlit("$Number%01d$");
        reveal_strlit("$Number%02d$");
        reveal_strlit("$Number%03d$");
        reveal_strlit("$Number%04d$");
        reveal_strlit("$Number%05d$");
        reveal_strlit("$Time$");
    }
    let a = replace(tmpl, &chars_of("$Number$"), &decimal_of(n));
    let b = replace(&a, &chars_of("$Number%01d$"), &decimal_padded_of(n, 1));
    let c = replace(&b, &chars_of("$Number%02d$"), &decimal_padded_of(n, 2));
    let d = replace(&c, &chars_of("$Number%03d$"), &decimal_padded_of(n, 3));
    let e = replace(&d, &chars_of("$Number%04d$"), &decimal_padded_of(n, 4));
    let f = replace(&e, &chars_of("$Number%05d$"), &decimal_padded_of(n, 5));
    replace(&f, &chars_of("$Time$"), &decimal_of(t))
}

/// `url` made absolute under `base` with a `/` between them, unless it starts with `http`.
fn join_slash_of(base: &[char], url: &[char]) -> (r: Vec<char>)
    ensures
        r@ == join_slash(base@, url@),
{
    if starts_with(url, &chars_of("http")) {
        slice_of(url, 0, url.len())
    } else {
        let slash: [char; 1] = ['/'];
        assert(slash@ =~= seq!['/']);
        let mut out = concat(base, &slash);
        append_chars(&mut out, &trim_start_matches(url, &chars_of("/")));
        out
    }
}

/// Parse a DASH manifest into segment URLs: the `media` URLs of its
/// `<SegmentURL>` list, or, when there are none and a `<SegmentTemplate media>`
/// is given, the initialization segment followed by the template filled in for
/// the numbers `1..=max(count, 100)`, where `count` is the segment count the
/// manifest announces.
pub fn parse_dash_manifest(content: &str, base_url: &str) -> (r: Vec<String>)
    requires
        dash_parsable(content@, content.spec_bytes(), base_url@),
    ensures
        string_views(r@) == dash_segments_spec(
            content@,
            base_url@,
            segment_count_spec(content@, content.spec_bytes())->0,
        ),
{
    let c = chars_of(content);
    let base = chars_of(base_url);
    let mbase = dash_base(&c, &base);
    let tmpl = xml_attr(&c, &chars_of("SegmentTemplate"), &chars_of("media"));
    let init = xml_attr(&c, &chars_of("SegmentTemplate"), &chars_of("initialization"));
    let dur_text = xml_attr(&c, &chars_of("SegmentTimeline"), &chars_of("duration"));
    let s_attr = chars_of("<S ");
    let s_url = chars_of("<SegmentURL");
    proof {
        reveal_strlit("<S ");
        reveal_strlit("<SegmentURL");
    }
    let mut total = scan_count_of(&c, &s_attr, 2);
    if total == 0 {
        total = match plain_s_count(content) {
            Some(k) => k,
            None => 0,
        };
    }
    if total == 0 {
        total = scan_count_of(&c, &s_url, 5);
    }
    assert(total == segment_count_spec(content@, content.spec_bytes())->0);
    let listed = segment_urls(&c, &mbase);
    let mut out: Vec<String> = Vec::new();
    if listed.len() == 0 && tmpl.len() > 0 {
        let b = trim_end_matches(&mbase, &chars_of("/"));
        let ghost head: Seq<Seq<char>> = if init@.len() > 0 {
            seq![b@ + seq!['/'] + strip_prefix_all(init@, "/"@)]
        } else {
            seq![]
        };
        if init.len() > 0 {
            let slash: [char; 1] = ['/'];
            assert(slash@ =~= seq!['/']);
            let mut u = concat(&b, &slash);
            append_chars(&mut u, &trim_start_matches(&init, &chars_of("/")));
            out.push(string_of(&u));
        }
        assert(string_views(out@) =~= head);
        let dur: u64 = match parse_u64_of(&dur_text) {
            Some(d) => d,
            None => 2000,
        };
        let count: usize = if total > 100 {
            total
        } else {
            100
        };
        let mut k: usize = 0;
        while k < count
            invariant
                k <= count,
                count == template_count(total as nat),
                (count - 1) * dur <= u64::MAX,
                string_views(out@) + template_urls(tmpl@, b@, dur as nat, (k + 1) as nat, count as nat)
                    == head + template_urls(tmpl@, b@, dur as nat, 1, count as nat),
            decreases count - k,
        {
            let n = k as u64 + 1;
            assert(k * dur <= (count - 1) * dur) by (nonlinear_arith)
                requires
                    k <= count - 1,
            ;
            let t = k as u64 * dur;
            let filled = fill_template_of(&tmpl, n, t);
            let url = join_slash_of(&b, &filled);
            let ghost before = string_views(out@);
            out.push(string_of(&url));
            assert(string_views(out@) =~= before.push(url@));
            assert(before + template_urls(tmpl@, b@, dur as nat, (k + 1) as nat, count as nat)
                =~= string_views(out@) + template_urls(
                tmpl@,
                b@,
                dur as nat,
                (k + 2) as nat,
                count as nat,
            ));
            k = k + 1;
        }
        assert(template_urls(tmpl@, b@, dur as nat, (k + 1) as nat, count as nat) =~= Seq::<
            Seq<char>,
        >::empty());
        assert(string_views(out@) + Seq::<Seq<char>>::empty() =~= string_views(out@));
    } else {
        let mut j: usize = 0;
        while j < listed.len()
            invariant
                j <= listed.len(),
                string_views(out@) == crate::text::views(listed@).subrange(0, j as int),
            decreases listed.len() - j,
        {
            let ghost prev = string_views(out@);
            assert(crate::text::views(listed@)[j as int] == listed@[j as int]@);
            let sj = string_of(&listed[j]);
            out.push(sj);
            assert(string_views(out@) =~= prev.push(sj@));
            assert(string_views(out@) =~= crate::text::views(listed@).subrange(0, j + 1));
            j = j + 1;
        }
        assert(crate::text::views(listed@).subrange(0, listed.len() as int) =~= crate::text::views(
            listed@,
        ));
    }
    out
}

/// Parse a DASH manifest, or `None` where parsing would panic (see `dash_parsable`).
pub fn try_parse_dash_manifest(content: &str, base_url: &str) -> (r: Option<Vec<String>>)
    ensures
        r is Some <==> dash_parsable(content@, content.spec_bytes(), base_url@),
        r matches Some(v) ==> string_views(v@) == dash_segments_spec(
            content@,
            base_url@,
            segment_count_spec(content@, content.spec_bytes())->0,
        ),
{
    let c = chars_of(content);
    let s_attr = chars_of("<S ");
    let s_url = chars_of("<SegmentURL");
    proof {
        reveal_strlit("<S ");
        reveal_strlit("<SegmentURL");
    }
    let mut total = scan_count_of(&c, &s_attr, 2);
    if total == 0 {
        match plain_s_count(content) {
            Some(k) => {
                total = k;
            },
            None => {
                return None;
            },
        }
    }
    if total == 0 {
        total = scan_count_of(&c, &s_url, 5);
    }
    let base = chars_of(base_url);
    let mbase = dash_base(&c, &base);
    let tmpl = xml_attr(&c, &chars_of("SegmentTemplate"), &chars_of("media"));
    let listed = segment_urls(&c, &mbase);
    if listed.len() == 0 && tmpl.len() > 0 {
        let dur_text = xml_attr(&c, &chars_of("SegmentTimeline"), &chars_of("duration"));
        let dur: u64 = match parse_u64_of(&dur_text) {
            Some(d) => d,
            None => 2000,
        };
        let count: u64 = if total > 100 {
            total as u64
        } else {
            100
        };
        if dur > 0 && count - 1 > u64::MAX / dur {
            assert((count - 1) * dur > u64::MAX) by (nonlinear_arith)
                requires
                    dur > 0,
                    count - 1 > u64::MAX / dur,
            ;
            return None;
        }
        assert((count - 1) * dur <= u64::MAX) by (nonlinear_arith)
            requires
                dur == 0 || count - 1 <= u64::MAX / dur,
        ;
    }
    Some(parse_dash_manifest(content, base_url))
}

// ------------------------------------------------------------------
// Laws of template filling
// ------------------------------------------------------------------

/// No character of `s` is `$`.
pub open spec fn no_dollar(s: Seq<char>) -> bool {
    forall|i: int| 0 <= i < s.len() ==> s[i] != '$'
}

/// The placeholders of a media template, in the order they are filled.
pub open spec fn placeholders() -> Seq<Seq<char>> {
    seq![
        "$Number$"@, "$Number%01d$"@, "$Number%02d$"@, "$Number%03d$"@, "$Number%04d$"@,
        "$Number%05d$"@, "$Time$"@,
    ]
}

/// What each placeholder stands for: the segment number, the number padded
/// with zeros to 1 to 5 digits, and the time.
pub open spec fn placeholder_values(n: nat, t: nat) -> Seq<Seq<char>> {
    seq![
        decimal(n), decimal_padded(n, 1), decimal_padded(n, 2), decimal_padded(n, 3),
        decimal_padded(n, 4), decimal_padded(n, 5), decimal(t),
    ]
}

/// `$`, then characters other than `$`, then `$`.
pub open spec fn placeholder_shape(p: Seq<char>) -> bool {
    &&& p.len() >= 2
    &&& p[0] == '$'
    &&& p[p.len() - 1] == '$'
    &&& forall|i: int| 0 < i < p.len() - 1 ==> p[i] != '$'
}

proof fn lemma_no_dollar_concat(a: Seq<char>, b: Seq<char>)
    requires
        no_dollar(a),
        no_dollar(b),
    ensures
        no_dollar(a + b),
{
    assert forall|i: int| 0 <= i < (a + b).len() implies (a + b)[i] != '$' by {
        if i < a.len() {
            assert((a + b)[i] == a[i]);
        } else {
            assert((a + b)[i] == b[i - a.len()]);
        }
    }
}

proof fn lemma_decimal_no_dollar(n: nat)
    ensures
        no_dollar(decimal(n)),
    decreases n,
{
    if n < 10 {
        assert(decimal(n) =~= seq![crate::text::digit_char(n)]);
        assert(crate::text::digit_char(n) != '$');
    } else {
        lemma_decimal_no_dollar(n / 10);
        let d = decimal(n / 10);
        assert(crate::text::digit_char(n % 10) != '$');
        assert(decimal(n) == d.push(crate::text::digit_char(n % 10)));
        assert forall|i: int| 0 <= i < decimal(n).len() implies decimal(n)[i] != '$' by {
            if i < d.len() {
                assert(decimal(n)[i] == d[i]);
            }
        }
    }
}

proof fn lemma_padded_no_dollar(n: nat, w: nat)
    ensures
        no_dollar(decimal_padded(n, w)),
{
    lemma_decimal_no_dollar(n);
    let d = decimal(n);
    if d.len() < w {
        let z = crate::text::repeat_char('0', (w - d.len()) as nat);
        crate::text::lemma_repeat_len('0', (w - d.len()) as nat);
        assert forall|i: int| 0 <= i < z.len() implies z[i] != '$' by {
            assert(z[i] == '0');
        }
        lemma_no_dollar_concat(z, d);
    }
}

proof fn lemma_values_no_dollar(n: nat, t: nat)
    ensures
        forall|k: int| 0 <= k < 7 ==> no_dollar(#[trigger] placeholder_values(n, t)[k]),
{
    lemma_decimal_no_dollar(n);
    lemma_decimal_no_dollar(t);
    lemma_padded_no_dollar(n, 1);
    lemma_padded_no_dollar(n, 2);
    lemma_padded_no_dollar(n, 3);
    lemma_padded_no_dollar(n, 4);
    lemma_padded_no_dollar(n, 5);
}

proof fn lemma_placeholder_facts()
    ensures
        placeholders().len() == 7,
        forall|k: int| 0 <= k < 7 ==> placeholder_shape(#[trigger] placeholders()[k]),
        forall|k: int, j: int|
            0 <= k < 7 && 0 <= j < 7 && k != j ==> #[trigger] placeholders()[k]
                != #[trigger] placeholders()[j],
{
    reveal_strlit("$Number$");
    reveal_strlit("$Number%01d$");
    reveal_strlit("$Number%02d$");
    reveal_strlit("$Number%03d$");
    reveal_strlit("$Number%04d$");
    reveal_strlit("$Number%05d$");
    reveal_strlit("$Time$");
    let ph = placeholders();
    assert forall|k: int| 0 <= k < 7 implies placeholder_shape(#[trigger] ph[k]) by {
        let p = ph[k];
        assert forall|i: int| 0 < i < p.len() - 1 implies p[i] != '$' by {}
    }
    assert forall|k: int, j: int| 0 <= k < 7 && 0 <= j < 7 && k != j implies #[trigger] ph[k]
        != #[trigger] ph[j] by {
        if ph[k].len() == ph[j].len() && ph[k].len() == 12 {
            assert(ph[k][9] != ph[j][9]);
        } else {
            assert(ph[k].len() != ph[j].len());
        }
    }
}

/// With no occurrence of `from`, `replace_all` leaves a sequence as it is.
proof fn lemma_replace_absent(s: Seq<char>, from: Seq<char>, to: Seq<char>)
    requires
        from.len() > 0,
        forall|i: int| !occurs_at(s, from, i),
    ensures
        replace_all(s, from, to) == s,
{
    lemma_find_contains(s, from);
    if find(s, from) is Some {
        assert(occurs_at(s, from, find(s, from)->0));
    }
}

/// A sequence without `$` holds no placeholder.
proof fn lemma_replace_no_dollar(s: Seq<char>, from: Seq<char>, to: Seq<char>)
    requires
        no_dollar(s),
        placeholder_shape(from),
    ensures
        replace_all(s, from, to) == s,
{
    assert forall|i: int| !occurs_at(s, from, i) by {
        if occurs_at(s, from, i) {
            assert(s.subrange(i, i + from.len())[0] == s[i]);
        }
    }
    lemma_replace_absent(s, from, to);
}

/// The only `$` of `a + p + b` are the two ends of the placeholder `p`.
proof fn lemma_dollar_positions(a: Seq<char>, p: Seq<char>, b: Seq<char>, k: int)
    requires
        no_dollar(a),
        no_dollar(b),
        placeholder_shape(p),
        0 <= k < (a + p + b).len(),
        (a + p + b)[k] == '$',
    ensures
        k == a.len() || k == a.len() + p.len() - 1,
{
    let s = a + p + b;
    if k < a.len() {
        assert(s[k] == a[k]);
    } else if k < a.len() + p.len() {
        assert(s[k] == p[k - a.len()]);
    } else {
        assert(s[k] == b[k - a.len() - p.len()]);
    }
}

/// A placeholder other than `p` does not occur in `a + p + b`.
proof fn lemma_other_absent(a: Seq<char>, p: Seq<char>, b: Seq<char>, q: Seq<char>)
    requires
        no_dollar(a),
        no_dollar(b),
        placeholder_shape(p),
        placeholder_shape(q),
        p != q,
    ensures
        forall|i: int| !occurs_at(a + p + b, q, i),
{
    let s = a + p + b;
    assert forall|i: int| !occurs_at(s, q, i) by {
        if occurs_at(s, q, i) {
            let w = s.subrange(i, i + q.len());
            assert(w[0] == s[i]);
            assert(w[q.len() - 1] == s[i + q.len() - 1]);
            lemma_dollar_positions(a, p, b, i);
            lemma_dollar_positions(a, p, b, i + q.len() - 1);
            assert(i == a.len() && q.len() == p.len());
            assert(w =~= p) by {
                assert forall|j: int| 0 <= j < p.len() implies w[j] == p[j] by {
                    assert(w[j] == s[i + j]);
                    assert(s[a.len() + j] == p[j]);
                }
            }
        }
    }
}

/// Replacing the placeholder `p` in `a + p + b`.
proof fn lemma_replace_once(a: Seq<char>, p: Seq<char>, b: Seq<char>, to: Seq<char>)
    requires
        no_dollar(a),
        no_dollar(b),
        placeholder_shape(p),
    ensures
        replace_all(a + p + b, p, to) == a + to + b,
{
    let s = a + p + b;
    lemma_find_contains(s, p);
    assert(occurs_at(s, p, a.len() as int)) by {
        assert(s.subrange(a.len() as int, (a.len() + p.len()) as int) =~= p);
    }
    assert forall|j: int| 0 <= j < a.len() implies !occurs_at(s, p, j) by {
        if occurs_at(s, p, j) {
            assert(s.subrange(j, j + p.len())[0] == s[j]);
            assert(s[j] == a[j]);
        }
    }
    let k = find(s, p)->0;
    assert(k == a.len());
    assert(s.subrange(0, a.len() as int) =~= a);
    assert(s.subrange((a.len() + p.len()) as int, s.len() as int) =~= b);
    lemma_replace_no_dollar(b, p, to);
}

/// Filling a template that holds one placeholder between text without `$`
/// puts the placeholder's value in its place and changes nothing else.
proof fn lemma_fill_one(a: Seq<char>, b: Seq<char>, n: nat, t: nat, k: int)
    requires
        no_dollar(a),
        no_dollar(b),
        0 <= k < 7,
    ensures
        fill_template(a + placeholders()[k] + b, n, t) == a + placeholder_values(n, t)[k] + b,
{
    lemma_placeholder_facts();
    lemma_values_no_dollar(n, t);
    let ph = placeholders();
    let vs = placeholder_values(n, t);
    let p = ph[k];
    let v = vs[k];
    let before = a + p + b;
    let after = a + v + b;
    lemma_no_dollar_concat(a, v);
    lemma_no_dollar_concat(a + v, b);
    assert forall|j: int| 0 <= j < 7 implies (j < k ==> replace_all(before, #[trigger] ph[j], vs[j])
        == before) && (j == k ==> replace_all(before, ph[j], vs[j]) == after) && (j > k
        ==> replace_all(after, ph[j], vs[j]) == after) by {
        if j < k {
            lemma_other_absent(a, p, b, ph[j]);
            lemma_replace_absent(before, ph[j], vs[j]);
        } else if j == k {
            lemma_replace_once(a, p, b, v);
        } else {
            lemma_replace_no_dollar(after, ph[j], vs[j]);
        }
    }
    assert(ph[0] == "$Number$"@ && ph[1] == "$Number%01d$"@ && ph[2] == "$Number%02d$"@
        && ph[3] == "$Number%03d$"@ && ph[4] == "$Number%04d$"@ && ph[5] == "$Number%05d$"@
        && ph[6] == "$Time$"@);
    assert(vs[0] == decimal(n) && vs[1] == decimal_padded(n, 1) && vs[2] == decimal_padded(n, 2)
        && vs[3] == decimal_padded(n, 3) && vs[4] == decimal_padded(n, 4) && vs[5]
        == decimal_padded(n, 5) && vs[6] == decimal(t));
}

/// Each placeholder of a media template is replaced by what it stands for:
/// `$Number$` by the segment number, `$Number%0Kd$` by the number padded with
/// zeros to `K` digits, `$Time$` by the time; the text around it (here, any
/// text without `$`) is kept, and a template without placeholders is kept
/// whole.
pub proof fn law_fill_template_placeholders(a: Seq<char>, b: Seq<char>, n: nat, t: nat)
    requires
        no_dollar(a),
        no_dollar(b),
    ensures
        fill_template(a + "$Number$"@ + b, n, t) == a + decimal(n) + b,
        fill_template(a + "$Number%01d$"@ + b, n, t) == a + decimal_padded(n, 1) + b,
        fill_template(a + "$Number%02d$"@ + b, n, t) == a + decimal_padded(n, 2) + b,
        fill_template(a + "$Number%03d$"@ + b, n, t) == a + decimal_padded(n, 3) + b,
        fill_template(a + "$Number%04d$"@ + b, n, t) == a + decimal_padded(n, 4) + b,
        fill_template(a + "$Number%05d$"@ + b, n, t) == a + decimal_padded(n, 5) + b,
        fill_template(a + "$Time$"@ + b, n, t) == a + decimal(t) + b,
        fill_template(a + b, n, t) == a + b,
{
    lemma_fill_one(a, b, n, t, 0);
    lemma_fill_one(a, b, n, t, 1);
    lemma_fill_one(a, b, n, t, 2);
    lemma_fill_one(a, b, n, t, 3);
    lemma_fill_one(a, b, n, t, 4);
    lemma_fill_one(a, b, n, t, 5);
    lemma_fill_one(a, b, n, t, 6);
    lemma_placeholder_facts();
    lemma_no_dollar_concat(a, b);
    let ph = placeholders();
    assert forall|j: int| 0 <= j < 7 implies replace_all(a + b, #[trigger] ph[j], placeholder_values(n, t)[j]) == a + b by {
        lemma_replace_no_dollar(a + b, ph[j], placeholder_values(n, t)[j]);
    }
    assert(ph[0] == "$Number$"@ && ph[1] == "$Number%01d$"@ && ph[2] == "$Number%02d$"@
        && ph[3] == "$Number%03d$"@ && ph[4] == "$Number%04d$"@ && ph[5] == "$Number%05d$"@
        && ph[6] == "$Time$"@);
}

/// A number padded to `w` digits: at least `w` characters, the number's own
/// decimal digits at the end, and only zeros before them.
pub proof fn law_padded_number(n: nat, w: nat)
    ensures
        decimal_padded(n, w).len() >= w,
        decimal_padded(n, w).len() >= decimal(n).len(),
        decimal_padded(n, w).subrange(
            decimal_padded(n, w).len() - decimal(n).len(),
            decimal_padded(n, w).len() as int,
        ) == decimal(n),
        forall|i: int|
            0 <= i < decimal_padded(n, w).len() - decimal(n).len() ==> #[trigger] decimal_padded(
                n,
                w,
            )[i] == '0',
{
    let d = decimal(n);
    let p = decimal_padded(n, w);
    if d.len() < w {
        let z = crate::text::repeat_char('0', (w - d.len()) as nat);
        crate::text::lemma_repeat_len('0', (w - d.len()) as nat);
        assert(p == z + d);
        assert(p.subrange(z.len() as int, p.len() as int) =~= d);
        assert forall|i: int| 0 <= i < p.len() - d.len() implies #[trigger] p[i] == '0' by {
            assert(p[i] == z[i]);
        }
    } else {
        assert(p.subrange(0, p.len() as int) =~= d);
    }
}

} // verus!
