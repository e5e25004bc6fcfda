//! The download list of the desktop window: which files are listed, how
//! their size and age are shown, which are videos, and in what order they
//! appear.
use crate::progress::{f64_value, f64_value_of, one_decimal, one_decimal_of};
use crate::text::{
    append_chars, chars_of, decimal, decimal_of, digit_char, ends_with, has_prefix, has_suffix,
    lower_chars_of, seq_lt, starts_with, string_of, unicode_lowercase, lemma_seq_lt_order,
    lemma_seq_lt_trans, lex_less,
};
use vstd::prelude::*;

verus! {

/// `1024^u` for the units of the list.
pub open spec fn kilo_power(u: nat) -> nat {
    if u == 0 {
        1
    } else if u == 1 {
        1024
    } else if u == 2 {
        1048576
    } else {
        1073741824
    }
}

/// Unit of a size: divide by 1024 while it stays above 1024, at most to GB.
pub open spec fn short_unit(m: nat) -> nat {
    if m > 1073741824 {
        3
    } else if m > 1048576 {
        2
    } else if m > 1024 {
        1
    } else {
        0
    }
}

/// Name of a unit of the list.
pub open spec fn short_unit_name(u: nat) -> Seq<char> {
    if u == 0 {
        "B"@
    } else if u == 1 {
        "KB"@
    } else if u == 2 {
        "MB"@
    } else {
        "GB"@
    }
}

/// A size as the list shows it: the `f64` value of the byte count divided
/// by its unit, with one decimal, then the unit.
pub open spec fn format_size_spec(bytes: nat) -> Seq<char> {
    let m = f64_value(bytes);
    let u = short_unit(m);
    one_decimal(m, kilo_power(u)) + " "@ + short_unit_name(u)
}

/// A size as the list shows it (`512.0 B`, `1.5 KB`, `3.0 GB`).
pub fn format_size(bytes: u64) -> (r: String)
    ensures
        r@ == format_size_spec(bytes as nat),
{
    let m = f64_value_of(bytes);
    let u: u32 = if m > 1073741824 {
        3
    } else if m > 1048576 {
        2
    } else if m > 1024 {
        1
    } else {
        0
    };
    let mut out: Vec<char>;
    if u == 0 {
        let b = bytes;
        out = decimal_of(b);
        out.push('.');
        out.push('0');
        proof {
            let t = crate::progress::div_round_even(10 * (m as nat), 1);
            assert(t == 10 * (m as nat)) by (nonlinear_arith)
                requires
                    t == crate::progress::div_round_even(10 * (m as nat), 1),
            ;
            assert(t / 10 == m as nat);
            assert(t % 10 == 0);
            assert(digit_char(0) == '0');
            assert(m == bytes);
            assert(out@ =~= one_decimal(m as nat, 1));
        }
    } else {
        let d: u128 = if u == 1 {
            1024
        } else if u == 2 {
            1048576
        } else {
            1073741824
        };
        out = one_decimal_of(m, d);
    }
    let ghost head = out@;
    out.push(' ');
    proof {
        reveal_strlit(" ");
    }
    let name = if u == 0 {
        chars_of("B")
    } else if u == 1 {
        chars_of("KB")
    } else if u == 2 {
        chars_of("MB")
    } else {
        chars_of("GB")
    };
    append_chars(&mut out, &name);
    assert(out@ =~= head + " "@ + short_unit_name(u as nat));
    string_of(&out)
}

/// The video extensions of the list.
pub open spec fn video_name_exts() -> Seq<Seq<char>> {
    seq![".mp4"@, ".webm"@, ".mkv"@, ".avi"@, ".mov"@, ".ts"@, ".flv"@, ".m4v"@]
}

/// A file name whose lowercase form ends with a video extension.
pub open spec fn video_ext_spec(name: Seq<char>) -> bool {
    exists|i: int| 0 <= i < 8 && has_suffix(unicode_lowercase(name), #[trigger] video_name_exts()[i])
}

/// Whether a file is a video, by its name.
pub fn is_video_ext(name: &str) -> (r: bool)
    ensures
        r == video_ext_spec(name@),
{
    let l = lower_chars_of(name);
    let exts: [&str; 8] = [".mp4", ".webm", ".mkv", ".avi", ".mov", ".ts", ".flv", ".m4v"];
    let ghost ev = exts@.map_values(|p: &str| p@);
    assert(ev =~= video_name_exts());
    let mut i: usize = 0;
    while i < 8
        invariant
            i <= 8,
            l@ == unicode_lowercase(name@),
            ev == exts@.map_values(|p: &str| p@),
            ev == video_name_exts(),
            forall|j: int| 0 <= j < i ==> !has_suffix(l@, #[trigger] video_name_exts()[j]),
        decreases 8 - i,
    {
        assert(ev[i as int] == exts@[i as int]@);
        if ends_with(&l, &chars_of(exts[i])) {
            return true;
        }
        i = i + 1;
    }
    false
}

/// The age label of a time given in seconds: days and hours, else hours and
/// minutes, else minutes, else `just now`.
pub open spec fn age_label_spec(secs: nat) -> Seq<char> {
    let days = secs / 86400;
    let hours = (secs % 86400) / 3600;
    let mins = (secs % 3600) / 60;
    if days > 0 {
        decimal(days) + "d "@ + decimal(hours) + "h ago"@
    } else if hours > 0 {
        decimal(hours) + "h "@ + decimal(mins) + "m ago"@
    } else if mins > 0 {
        decimal(mins) + "m ago"@
    } else {
        "just now"@
    }
}

/// The age label of a file whose time reads `secs` seconds.
pub fn age_label(secs: u64) -> (r: String)
    ensures
        r@ == age_label_spec(secs as nat),
{
    let days = secs / 86400;
    let hours = (secs % 86400) / 3600;
    let mins = (secs % 3600) / 60;
    let mut v: Vec<char>;
    if days > 0 {
        v = decimal_of(days);
        append_chars(&mut v, &chars_of("d "));
        append_chars(&mut v, &decimal_of(hours));
        append_chars(&mut v, &chars_of("h ago"));
    } else if hours > 0 {
        v = decimal_of(hours);
        append_chars(&mut v, &chars_of("h "));
        append_chars(&mut v, &decimal_of(mins));
        append_chars(&mut v, &chars_of("m ago"));
    } else if mins > 0 {
        v = decimal_of(mins);
        append_chars(&mut v, &chars_of("m ago"));
    } else {
        v = chars_of("just now");
    }
    string_of(&v)
}

/// The download directory of the window: `HOME/Descargas/DarkDM` (`/tmp`
/// when `HOME` is unset).
pub fn downloads_path(home: Option<&str>) -> (r: String)
    ensures
        r@ == crate::engine::downloads_dir_spec(
            match home {
                Some(h) => Some(h@),
                None => None,
            },
        ),
{
    let base = match home {
        Some(h) => h.to_string(),
        None => "/tmp".to_string(),
    };
    crate::auto_rename::path_join(base.as_str(), "Descargas/DarkDM")
}

/// Whether a file is listed: not empty and not hidden.
pub fn is_listed(name: &str, len: u64) -> (r: bool)
    ensures
        r == (len != 0 && !has_prefix(name@, "."@)),
{
    len != 0 && !starts_with(&chars_of(name), &chars_of("."))
}

/// A file of the download list.
pub struct DownloadFile {
    pub name: String,
    pub size: u64,
    pub size_display: String,
    pub modified: String,
    pub is_video: bool,
}

/// The entry of a file with the given name, size and age in seconds.
pub fn download_file(name: String, size: u64, age_secs: u64) -> (r: DownloadFile)
    ensures
        r.name@ == name@,
        r.size == size,
        r.size_display@ == format_size_spec(size as nat),
        r.modified@ == age_label_spec(age_secs as nat),
        r.is_video == video_ext_spec(name@),
{
    let is_video = is_video_ext(name.as_str());
    DownloadFile {
        name,
        size,
        size_display: format_size(size),
        modified: age_label(age_secs),
        is_video,
    }
}

/// A file of the list as plain values: name, size, size label, age label, video.
pub type FileView = (Seq<char>, u64, Seq<char>, Seq<char>, bool);

/// A file as plain values.
pub open spec fn file_view(f: DownloadFile) -> FileView {
    (f.name@, f.size, f.size_display@, f.modified@, f.is_video)
}

/// Files as plain values.
pub open spec fn files_view(v: Seq<DownloadFile>) -> Seq<FileView> {
    v.map_values(|f: DownloadFile| file_view(f))
}

/// Age labels in non-increasing order.
pub open spec fn newest_first(l: Seq<FileView>) -> bool {
    forall|i: int, j: int| 0 <= i < j < l.len() ==> !seq_lt(#[trigger] l[i].3, #[trigger] l[j].3)
}

/// A copy of a file entry.
fn copy_file(f: &DownloadFile) -> (c: DownloadFile)
    ensures
        file_view(c) == file_view(*f),
{
    DownloadFile {
        name: f.name.clone(),
        size: f.size,
        size_display: f.size_display.clone(),
        modified: f.modified.clone(),
        is_video: f.is_video,
    }
}

/// Inserting an entry after every entry whose label is not smaller and
/// before the first smaller one keeps the order.
proof fn lemma_insert_newest_first(l: Seq<FileView>, p: int, x: FileView)
    requires
        newest_first(l),
        0 <= p <= l.len(),
        forall|q: int| 0 <= q < p ==> !seq_lt(#[trigger] l[q].3, x.3),
        p < l.len() ==> seq_lt(l[p].3, x.3),
    ensures
        newest_first(l.insert(p, x)),
{
    let n = l.insert(p, x);
    assert forall|i: int, j: int| 0 <= i < j < n.len() implies !seq_lt(#[trigger] n[i].3, #[trigger] n[j].3) by {
        if j < p {
            assert(n[i] == l[i] && n[j] == l[j]);
        } else if j == p {
            assert(n[i] == l[i]);
        } else if i < p {
            assert(n[i] == l[i] && n[j] == l[j - 1]);
            // l[j-1] <= l[p] < x <= l[i]
            lemma_seq_lt_order(l[p].3, l[j - 1].3);
            lemma_seq_lt_order(l[i].3, x.3);
            lemma_seq_lt_order(x.3, l[j - 1].3);
            if j - 1 > p {
                if seq_lt(l[j - 1].3, l[p].3) {
                    lemma_seq_lt_trans(l[j - 1].3, l[p].3, x.3);
                }
            }
            if seq_lt(l[i].3, l[j - 1].3) {
                if seq_lt(x.3, l[i].3) {
                    lemma_seq_lt_trans(x.3, l[i].3, l[j - 1].3);
                }
            }
        } else if i == p {
            assert(n[j] == l[j - 1]);
            lemma_seq_lt_order(l[p].3, l[j - 1].3);
            lemma_seq_lt_order(x.3, l[j - 1].3);
            if j - 1 > p && seq_lt(l[j - 1].3, l[p].3) {
                lemma_seq_lt_trans(l[j - 1].3, l[p].3, x.3);
            }
        } else {
            assert(n[i] == l[i - 1] && n[j] == l[j - 1]);
        }
    }
}

/// Sort the list by age label, greatest first, keeping the order of equal
/// labels: each file goes after every file whose label is not smaller.
pub fn sort_newest_first(files: &Vec<DownloadFile>) -> (r: Vec<DownloadFile>)
    ensures
        newest_first(files_view(r@)),
        files_view(r@).to_multiset() == files_view(files@).to_multiset(),
{
    let ghost fv = files_view(files@);
    let mut out: Vec<DownloadFile> = Vec::new();
    let mut i: usize = 0;
    assert(files_view(out@) =~= fv.subrange(0, 0));
    assert(fv.len() == files@.len());
    while i < files.len()
        invariant
            i <= files.len(),
            fv == files_view(files@),
            fv.len() == files@.len(),
            newest_first(files_view(out@)),
            files_view(out@).to_multiset() == fv.subrange(0, i as int).to_multiset(),
        decreases files.len() - i,
    {
        let x = copy_file(&files[i]);
        let lx = chars_of(x.modified.as_str());
        let ghost ov = files_view(out@);
        let ghost xv = file_view(x);
        assert(ov.len() == out@.len());
        assert(xv == fv[i as int]);
        let mut p: usize = 0;
        while p < out.len() && !lex_less(&chars_of(out[p].modified.as_str()), &lx)
            invariant
                p <= out.len(),
                ov == files_view(out@),
                ov.len() == out@.len(),
                lx@ == xv.3,
                forall|q: int| 0 <= q < p ==> !seq_lt(#[trigger] ov[q].3, xv.3),
            decreases out.len() - p,
        {
            assert(ov[p as int] == file_view(out@[p as int]));
            p = p + 1;
        }
        proof {
            if p < out.len() {
                assert(ov[p as int] == file_view(out@[p as int]));
            }
            lemma_insert_newest_first(ov, p as int, xv);
            assert(fv.subrange(0, i + 1) =~= fv.subrange(0, i as int).push(xv));
        }
        out.insert(p, x);
        assert(files_view(out@) =~= ov.insert(p as int, xv));
        proof {
            vstd::seq_lib::to_multiset_insert(ov, p as int, xv);
            vstd::seq_lib::to_multiset_build(fv.subrange(0, i as int), xv);
        }
        i = i + 1;
    }
    assert(fv.subrange(0, files.len() as int) =~= fv);
    out
}

} // verus!
