//! Choosing a file name that does not collide with an existing file:
//! `file.mp4` becomes `file (1).mp4`, then `file (2).mp4`, and so on, and a
//! double extension such as `.tar.gz` stays together.
use crate::text::{
    append_chars, chars_of, decimal, decimal_of, ends_with, has_suffix, lemma_rfind_upto, rfind,
    rfind_in, slice_of, string_of,
};
use crate::transacted_io::path_exists;
use vstd::prelude::*;

verus! {

/// The parent directory of a path (`Path::parent`), as a string.
pub uninterp spec fn path_parent_spec(path: Seq<char>) -> Option<Seq<char>>;

/// The final component of a path (`Path::file_name`), as a string.
pub uninterp spec fn path_file_name_spec(path: Seq<char>) -> Option<Seq<char>>;

/// The path `Path::join` makes of a base path and a further component.
pub uninterp spec fn path_join_spec(base: Seq<char>, name: Seq<char>) -> Seq<char>;

/// `Path::new(path).parent()`.
#[verifier::external_body]
fn path_parent(path: &str) -> (r: Option<String>)
    ensures
        match r {
            Some(p) => path_parent_spec(path@) == Some(p@),
            None => path_parent_spec(path@) is None,
        },
{
    std::path::Path::new(path).parent().map(|p| p.to_string_lossy().into_owned())
}

/// `Path::new(path).file_name()`; a path given as `&str` is valid UTF-8, so
/// is its final component.
#[verifier::external_body]
fn path_file_name(path: &str) -> (r: Option<String>)
    ensures
        match r {
            Some(f) => path_file_name_spec(path@) == Some(f@),
            None => path_file_name_spec(path@) is None,
        },
{
    std::path::Path::new(path).file_name().map(|f| f.to_string_lossy().into_owned())
}

/// `Path::new(base).join(name)`.
#[verifier::external_body]
pub(crate) fn path_join(base: &str, name: &str) -> (r: String)
    ensures
        r@ == path_join_spec(base@, name@),
{
    std::path::Path::new(base).join(name).to_string_lossy().into_owned()
}

/// Seconds since the Unix epoch from the system clock; `None` when the clock
/// reads a time before the epoch. Nothing is stated of the value.
#[verifier::external_body]
fn unix_time_secs() -> Option<u64> {
    std::time::SystemTime::now().duration_since(std::time::UNIX_EPOCH).ok().map(|d| d.as_secs())
}

/// The double extensions that are kept together.
pub open spec fn multi_exts() -> Seq<Seq<char>> {
    seq![".tar.gz"@, ".tar.bz2"@, ".tar.xz"@, ".tar.zst"@]
}

/// Split a file name into its stem and its extension: a double extension of
/// `multi_exts` first, in that order, else everything from the last dot, else
/// no extension.
pub open spec fn split_name_ext_spec(f: Seq<char>) -> (Seq<char>, Seq<char>) {
    if has_suffix(f, ".tar.gz"@) {
        (f.subrange(0, f.len() - 7), ".tar.gz"@)
    } else if has_suffix(f, ".tar.bz2"@) {
        (f.subrange(0, f.len() - 8), ".tar.bz2"@)
    } else if has_suffix(f, ".tar.xz"@) {
        (f.subrange(0, f.len() - 7), ".tar.xz"@)
    } else if has_suffix(f, ".tar.zst"@) {
        (f.subrange(0, f.len() - 8), ".tar.zst"@)
    } else {
        match rfind(f, seq!['.']) {
            Some(p) => (f.subrange(0, p), f.subrange(p, f.len() as int)),
            None => (f, seq![]),
        }
    }
}

/// `stem (n)ext`.
pub open spec fn numbered_name_spec(stem: Seq<char>, n: nat, ext: Seq<char>) -> Seq<char> {
    stem + " ("@ + decimal(n) + ")"@ + ext
}

/// The directory a renamed file goes to: the parent of the path, or `.`.
pub open spec fn parent_or_dot(path: Seq<char>) -> Seq<char> {
    match path_parent_spec(path) {
        Some(p) => p,
        None => "."@,
    }
}

/// The path with number `n` put into its file name.
pub open spec fn numbered_path_spec(path: Seq<char>, n: nat) -> Seq<char> {
    let f = path_file_name_spec(path)->0;
    let (stem, ext) = split_name_ext_spec(f);
    path_join_spec(parent_or_dot(path), numbered_name_spec(stem, n, ext))
}

/// Split a file name into stem and extension (`.tar.gz`, `.tar.bz2`,
/// `.tar.xz` and `.tar.zst` count as one extension).
pub fn split_name_ext(filename: &str) -> (r: (String, String))
    ensures
        (r.0@, r.1@) == split_name_ext_spec(filename@),
{
    let f = chars_of(filename);
    let n = f.len();
    let gz = chars_of(".tar.gz");
    let bz = chars_of(".tar.bz2");
    let xz = chars_of(".tar.xz");
    let zst = chars_of(".tar.zst");
    proof {
        reveal_strlit(".tar.gz");
        reveal_strlit(".tar.bz2");
        reveal_strlit(".tar.xz");
        reveal_strlit(".tar.zst");
    }
    if ends_with(&f, &gz) {
        return (string_of(&slice_of(&f, 0, n - 7)), string_of(&gz));
    }
    if ends_with(&f, &bz) {
        return (string_of(&slice_of(&f, 0, n - 8)), string_of(&bz));
    }
    if ends_with(&f, &xz) {
        return (string_of(&slice_of(&f, 0, n - 7)), string_of(&xz));
    }
    if ends_with(&f, &zst) {
        return (string_of(&slice_of(&f, 0, n - 8)), string_of(&zst));
    }
    let dot: [char; 1] = ['.'];
    assert(dot@ =~= seq!['.']);
    proof {
        lemma_rfind_upto(f@, dot@, f@.len() - 1);
    }
    match rfind_in(&f, &dot) {
        Some(p) => (string_of(&slice_of(&f, 0, p)), string_of(&slice_of(&f, p, n))),
        None => {
            let empty: Vec<char> = Vec::new();
            assert(empty@ =~= seq![]);
            (string_of(&f), string_of(&empty))
        },
    }
}

/// `stem (n)ext`, the name tried for the `n`-th renaming.
pub fn numbered_name(stem: &str, n: u64, ext: &str) -> (r: String)
    ensures
        r@ == numbered_name_spec(stem@, n as nat, ext@),
{
    let mut out = chars_of(stem);
    let open_paren: [char; 2] = [' ', '('];
    let close_paren: [char; 1] = [')'];
    proof {
        reveal_strlit(" (");
        reveal_strlit(")");
    }
    assert(open_paren@ =~= " ("@);
    assert(close_paren@ =~= ")"@);
    append_chars(&mut out, &open_paren);
    append_chars(&mut out, &decimal_of(n));
    append_chars(&mut out, &close_paren);
    append_chars(&mut out, &chars_of(ext));
    string_of(&out)
}

/// The path with number `n` put into its file name, in the same directory
/// (`.` when the path has no parent).
pub fn numbered_path(path: &str, n: u64) -> (r: String)
    requires
        path_file_name_spec(path@) is Some,
    ensures
        r@ == numbered_path_spec(path@, n as nat),
{
    let parent = match path_parent(path) {
        Some(p) => p,
        None => {
            proof {
                reveal_strlit(".");
            }
            ".".to_string()
        },
    };
    let filename = match path_file_name(path) {
        Some(f) => f,
        None => {
            assert(false);
            String::new()
        },
    };
    let (stem, ext) = split_name_ext(filename.as_str());
    let name = numbered_name(stem.as_str(), n, ext.as_str());
    path_join(parent.as_str(), name.as_str())
}

/// Number of numbered names tried before the clock is used: `(1)` to `(999)`.
pub const CANDIDATES: usize = 999;

/// The name a renaming settles on, given what the disk answered: the path
/// itself when it is free; else `name (k).ext` for the least `k` in `1..=999`
/// whose candidate is free (`free[k - 1]`); else the name numbered with `stamp`.
pub fn choose_name(path: &str, path_free: bool, free: &[bool], stamp: u64) -> (r: String)
    requires
        path_file_name_spec(path@) is Some,
        free@.len() == CANDIDATES,
    ensures
        path_free ==> r@ == path@,
        !path_free ==> forall|k: int|
            0 <= k < free@.len() && #[trigger] free@[k] && (forall|j: int| 0 <= j < k ==> !free@[j])
                ==> r@ == numbered_path_spec(path@, (k + 1) as nat),
        !path_free && (forall|k: int| 0 <= k < free@.len() ==> !#[trigger] free@[k]) ==> r@
            == numbered_path_spec(path@, stamp as nat),
{
    if path_free {
        return path.to_string();
    }
    let mut k: usize = 0;
    while k < free.len() && !free[k]
        invariant
            k <= free@.len(),
            forall|j: int| 0 <= j < k ==> !free@[j],
        decreases free.len() - k,
    {
        k = k + 1;
    }
    if k < free.len() {
        numbered_path(path, (k + 1) as u64)
    } else {
        numbered_path(path, stamp)
    }
}

/// Ask the disk about the candidates `name (1).ext`, `name (2).ext`, ... (each
/// made by `numbered_path`) in order, and stop at the first free one: entry
/// `k` tells whether candidate `k + 1` is free. Candidates after the first
/// free one are not asked about and count as taken, which leaves the least
/// free candidate unchanged; so at most one entry is true, the last one asked.
/// Which candidate each answer is about cannot be stated: the disk's answer
/// has no name.
fn free_candidates(path: &str) -> (r: Vec<bool>)
    requires
        path_file_name_spec(path@) is Some,
    ensures
        r@.len() == CANDIDATES,
        forall|i: int, j: int| 0 <= i < j < r@.len() && #[trigger] r@[i] ==> !#[trigger] r@[j],
{
    let mut free: Vec<bool> = Vec::new();
    let mut found = false;
    while free.len() < CANDIDATES
        invariant
            free@.len() <= CANDIDATES,
            path_file_name_spec(path@) is Some,
            found == exists|i: int| 0 <= i < free@.len() && #[trigger] free@[i],
            forall|i: int, j: int| 0 <= i < j < free@.len() && #[trigger] free@[i] ==> !#[trigger] free@[j],
        decreases CANDIDATES - free@.len(),
    {
        let ghost before = free@;
        if found {
            let ghost w = choose|i: int| 0 <= i < before.len() && #[trigger] before[i];
            free.push(false);
            assert(free@[w] == before[w]);
        } else {
            let candidate = numbered_path(path, (free.len() + 1) as u64);
            let is_free = !path_exists(candidate.as_str());
            free.push(is_free);
            found = is_free;
            assert(free@[free@.len() - 1] == is_free);
            assert(forall|i: int| 0 <= i < before.len() ==> !before[i]);
        }
        assert(forall|i: int| 0 <= i < before.len() ==> free@[i] == before[i]);
    }
    free
}

/// A path for a new file that does not collide with an existing one: the path
/// itself when nothing exists there, else the first of `name (1).ext` ..
/// `name (999).ext` that is free, else the name numbered with the current
/// Unix time (0 when the clock reads before the epoch). The choice among these
/// is `choose_name` on the answers of the disk.
///
/// Which files exist, and the time, are read from the system: whatever they
/// are, the result is the path or the path with some number put into its name.
pub fn auto_rename(path: &str) -> (r: String)
    requires
        path_file_name_spec(path@) is Some,
    ensures
        r@ == path@ || exists|n: u64| r@ == #[trigger] numbered_path_spec(path@, n as nat),
{
    if !path_exists(path) {
        return path.to_string();
    }
    let free = free_candidates(path);
    let stamp = match unix_time_secs() {
        Some(t) => t,
        None => 0,
    };
    let r = choose_name(path, false, &free, stamp);
    proof {
        if exists|k: int| 0 <= k < free@.len() && #[trigger] free@[k] {
            let k0 = choose|k: int| 0 <= k < free@.len() && #[trigger] free@[k];
            lemma_least_true(free@, k0);
            let k = choose|k: int|
                0 <= k < free@.len() && #[trigger] free@[k] && (forall|j: int| 0 <= j < k ==> !free@[j]);
            assert(r@ == numbered_path_spec(path@, ((k + 1) as u64) as nat));
        } else {
            assert(r@ == numbered_path_spec(path@, stamp as nat));
        }
    }
    r
}

/// When some entry of `s` is true, there is a least such entry.
pub proof fn lemma_least_true(s: Seq<bool>, k: int)
    requires
        0 <= k < s.len(),
        s[k],
    ensures
        exists|m: int| 0 <= m < s.len() && #[trigger] s[m] && (forall|j: int| 0 <= j < m ==> !s[j]),
    decreases k,
{
    if exists|j: int| 0 <= j < k && s[j] {
        let j = choose|j: int| 0 <= j < k && s[j];
        lemma_least_true(s, j);
    } else {
        assert(forall|j: int| 0 <= j < k ==> !s[j]);
    }
}

/// `auto_rename` for any path. A path where nothing exists comes back as it
/// is; `None` when something exists there but the path has no final component
/// (such as `/` or `..`), so that no name can be numbered.
pub fn try_auto_rename(path: &str) -> (r: Option<String>)
    ensures
        path_file_name_spec(path@) is Some ==> r is Some,
        r is None ==> path_file_name_spec(path@) is None,
        r matches Some(p) ==> p@ == path@ || (path_file_name_spec(path@) is Some && exists|n: u64|
            p@ == #[trigger] numbered_path_spec(path@, n as nat)),
{
    match path_file_name(path) {
        Some(_) => Some(auto_rename(path)),
        None => {
            if !path_exists(path) {
                Some(path.to_string())
            } else {
                None
            }
        },
    }
}

// ------------------------------------------------------------------
// Laws
// ------------------------------------------------------------------

/// Splitting a file name loses nothing: the stem followed by the extension
/// is the name.
pub proof fn law_split_recomposes(f: Seq<char>)
    ensures
        split_name_ext_spec(f).0 + split_name_ext_spec(f).1 == f,
{
    reveal_strlit(".tar.gz");
    reveal_strlit(".tar.bz2");
    reveal_strlit(".tar.xz");
    reveal_strlit(".tar.zst");
    let (stem, ext) = split_name_ext_spec(f);
    if has_suffix(f, ".tar.gz"@) {
        assert(f.subrange(f.len() - 7, f.len() as int) == ".tar.gz"@);
        assert(stem + ext =~= f);
    } else if has_suffix(f, ".tar.bz2"@) {
        assert(f.subrange(f.len() - 8, f.len() as int) == ".tar.bz2"@);
        assert(stem + ext =~= f);
    } else if has_suffix(f, ".tar.xz"@) {
        assert(f.subrange(f.len() - 7, f.len() as int) == ".tar.xz"@);
        assert(stem + ext =~= f);
    } else if has_suffix(f, ".tar.zst"@) {
        assert(f.subrange(f.len() - 8, f.len() as int) == ".tar.zst"@);
        assert(stem + ext =~= f);
    } else {
        lemma_rfind_upto(f, seq!['.'], f.len() - 1);
        assert(stem + ext =~= f);
    }
}

/// A name that ends in a double extension (`.tar.gz`, `.tar.bz2`, `.tar.xz`,
/// `.tar.zst`) keeps it whole: the extension is the double extension and the
/// stem is everything before it.
pub proof fn law_double_extension_kept(s: Seq<char>)
    ensures
        split_name_ext_spec(s + ".tar.gz"@) == (s, ".tar.gz"@),
        split_name_ext_spec(s + ".tar.bz2"@) == (s, ".tar.bz2"@),
        split_name_ext_spec(s + ".tar.xz"@) == (s, ".tar.xz"@),
        split_name_ext_spec(s + ".tar.zst"@) == (s, ".tar.zst"@),
{
    reveal_strlit(".tar.gz");
    reveal_strlit(".tar.bz2");
    reveal_strlit(".tar.xz");
    reveal_strlit(".tar.zst");
    let gz = s + ".tar.gz"@;
    let bz = s + ".tar.bz2"@;
    let xz = s + ".tar.xz"@;
    let zst = s + ".tar.zst"@;
    assert(gz.subrange(gz.len() - 7, gz.len() as int) =~= ".tar.gz"@);
    assert(gz.subrange(0, gz.len() - 7) =~= s);
    assert(!has_suffix(bz, ".tar.gz"@)) by {
        assert(bz[bz.len() - 7] == ".tar.bz2"@[1]);
        assert(bz.subrange(bz.len() - 7, bz.len() as int)[0] == bz[bz.len() - 7]);
    }
    assert(bz.subrange(bz.len() - 8, bz.len() as int) =~= ".tar.bz2"@);
    assert(bz.subrange(0, bz.len() - 8) =~= s);
    assert(xz.subrange(xz.len() - 7, xz.len() as int) =~= ".tar.xz"@);
    assert(!has_suffix(xz, ".tar.gz"@)) by {
        assert(xz.subrange(xz.len() - 7, xz.len() as int)[5] != ".tar.gz"@[5]);
    }
    assert(!has_suffix(xz, ".tar.bz2"@)) by {
        if xz.len() >= 8 {
            assert(xz.subrange(xz.len() - 8, xz.len() as int)[6] != ".tar.bz2"@[6]);
        }
    }
    assert(xz.subrange(0, xz.len() - 7) =~= s);
    assert(!has_suffix(zst, ".tar.gz"@)) by {
        assert(zst[zst.len() - 7] == ".tar.zst"@[1]);
        assert(zst.subrange(zst.len() - 7, zst.len() as int)[0] == zst[zst.len() - 7]);
    }
    assert(!has_suffix(zst, ".tar.bz2"@)) by {
        assert(zst.subrange(zst.len() - 8, zst.len() as int)[6] != ".tar.bz2"@[6]);
    }
    assert(!has_suffix(zst, ".tar.xz"@)) by {
        assert(zst[zst.len() - 7] == ".tar.zst"@[1]);
        assert(zst.subrange(zst.len() - 7, zst.len() as int)[0] == zst[zst.len() - 7]);
    }
    assert(zst.subrange(zst.len() - 8, zst.len() as int) =~= ".tar.zst"@);
    assert(zst.subrange(0, zst.len() - 8) =~= s);
}

/// Any other name splits at its last dot: for `stem.ext` with no dot in
/// `ext`, the extension is `.ext` and the stem is everything before it; a
/// name without a dot has no extension.
pub proof fn law_single_extension(stem: Seq<char>, ext: Seq<char>)
    requires
        !ext.contains('.'),
        !has_suffix(stem + seq!['.'] + ext, ".tar.gz"@),
        !has_suffix(stem + seq!['.'] + ext, ".tar.bz2"@),
        !has_suffix(stem + seq!['.'] + ext, ".tar.xz"@),
        !has_suffix(stem + seq!['.'] + ext, ".tar.zst"@),
    ensures
        split_name_ext_spec(stem + seq!['.'] + ext) == (stem, seq!['.'] + ext),
        !stem.contains('.') ==> split_name_ext_spec(stem) == (stem, Seq::<char>::empty()),
{
    let f = stem + seq!['.'] + ext;
    lemma_rfind_upto(f, seq!['.'], f.len() - 1);
    assert(f.subrange(stem.len() as int, stem.len() + 1int) =~= seq!['.']);
    assert(crate::text::occurs_at(f, seq!['.'], stem.len() as int));
    assert forall|j: int| stem.len() < j <= f.len() - 1 implies !crate::text::occurs_at(
        f,
        seq!['.'],
        j,
    ) by {
        if crate::text::occurs_at(f, seq!['.'], j) {
            assert(f.subrange(j, j + 1)[0] == f[j]);
            assert(f[j] == ext[j - stem.len() - 1]);
        }
    }
    assert(rfind(f, seq!['.']) == Some(stem.len() as int));
    assert(f.subrange(0, stem.len() as int) =~= stem);
    assert(f.subrange(stem.len() as int, f.len() as int) =~= seq!['.'] + ext);
    if !stem.contains('.') {
        reveal_strlit(".tar.gz");
        reveal_strlit(".tar.bz2");
        reveal_strlit(".tar.xz");
        reveal_strlit(".tar.zst");
        assert forall|p: Seq<char>| p.len() >= 1 && p[0] == '.' implies !has_suffix(stem, p) by {
            if has_suffix(stem, p) {
                assert(stem.subrange(stem.len() - p.len(), stem.len() as int)[0] == stem[stem.len() - p.len()]);
            }
        }
        assert(".tar.gz"@[0] == '.' && ".tar.bz2"@[0] == '.' && ".tar.xz"@[0] == '.' && ".tar.zst"@[0] == '.');
        lemma_rfind_upto(stem, seq!['.'], stem.len() - 1);
        assert forall|j: int| !crate::text::occurs_at(stem, seq!['.'], j) by {
            if crate::text::occurs_at(stem, seq!['.'], j) {
                assert(stem.subrange(j, j + 1)[0] == stem[j]);
            }
        }
    }
}

/// A numbered name is never the name it was made from.
pub proof fn law_numbered_name_differs(stem: Seq<char>, n: nat, ext: Seq<char>)
    ensures
        numbered_name_spec(stem, n, ext) != stem + ext,
{
    reveal_strlit(" (");
    reveal_strlit(")");
    assert(numbered_name_spec(stem, n, ext).len() > (stem + ext).len());
}

/// Different numbers give different names.
pub proof fn law_numbered_names_distinct(stem: Seq<char>, ext: Seq<char>, a: nat, b: nat)
    requires
        a != b,
    ensures
        numbered_name_spec(stem, a, ext) != numbered_name_spec(stem, b, ext),
{
    reveal_strlit(" (");
    reveal_strlit(")");
    let x = numbered_name_spec(stem, a, ext);
    let y = numbered_name_spec(stem, b, ext);
    if x == y {
        let da = decimal(a);
        let db = decimal(b);
        assert(x.len() == stem.len() + 2 + da.len() + 1 + ext.len());
        assert(y.len() == stem.len() + 2 + db.len() + 1 + ext.len());
        assert(da.len() == db.len());
        let k: int = stem.len() as int + 2;
        assert(x.subrange(k, k + da.len() as int) =~= da);
        assert(y.subrange(k, k + db.len() as int) =~= db);
        lemma_decimal_injective(a, b);
    }
}

/// Decimal representations of different numbers differ.
pub proof fn lemma_decimal_injective(a: nat, b: nat)
    ensures
        decimal(a) == decimal(b) ==> a == b,
    decreases a,
{
    crate::text::lemma_decimal_len(a);
    crate::text::lemma_decimal_len(b);
    if decimal(a) == decimal(b) {
        if a >= 10 && b >= 10 {
            assert(decimal(a).drop_last() == decimal(a / 10));
            assert(decimal(b).drop_last() == decimal(b / 10));
            lemma_decimal_injective(a / 10, b / 10);
            assert(decimal(a).last() == crate::text::digit_char(a % 10));
            assert(decimal(b).last() == crate::text::digit_char(b % 10));
        } else if a < 10 && b < 10 {
            assert(decimal(a)[0] == crate::text::digit_char(a));
            assert(decimal(b)[0] == crate::text::digit_char(b));
        }
    }
}

} // verus!
