//! Windows paths as the recorder builds and inspects them.
//!
//! A path may start with a drive (`C:`) and a root separator; components are separated by `\`
//! or `/`. As `std::path::Path` reads them, empty components and `.` components are dropped,
//! except a `.` that starts a path without a root, which stands for the current directory.
use vstd::prelude::*;

use crate::text::{chars_of, push_char, same_text, string_from_range, texts};

verus! {

/// A path separator.
pub open spec fn is_separator(c: char) -> bool {
    c == '\\' || c == '/'
}

/// An ASCII letter.
pub open spec fn is_ascii_letter(c: char) -> bool {
    ('a' <= c && c <= 'z') || ('A' <= c && c <= 'Z')
}

/// The path starts with a drive such as `C:`.
pub open spec fn has_drive(p: Seq<char>) -> bool {
    p.len() >= 2 && is_ascii_letter(p[0]) && p[1] == ':'
}

/// The length of the drive and root separator at the start of the path.
pub open spec fn root_len(p: Seq<char>) -> int {
    if has_drive(p) {
        if p.len() > 2 && is_separator(p[2]) {
            3
        } else {
            2
        }
    } else if p.len() > 0 && is_separator(p[0]) {
        1
    } else {
        0
    }
}

/// The last separator in `p[lo..e]`, or -1.
pub open spec fn last_separator(p: Seq<char>, lo: int, e: int) -> int
    decreases e - lo,
{
    if e <= lo {
        -1
    } else if is_separator(p[e - 1]) {
        e - 1
    } else {
        last_separator(p, lo, e - 1)
    }
}

/// The path has a root separator (after its drive, if any).
pub open spec fn has_root(p: Seq<char>) -> bool {
    root_len(p) == 1 || root_len(p) == 3
}

/// The last separator in `p[lo..e]` lies there, or there is none.
pub proof fn lemma_last_separator_bounds(p: Seq<char>, lo: int, e: int)
    ensures
        last_separator(p, lo, e) == -1 || (lo <= last_separator(p, lo, e) < e && is_separator(
            p[last_separator(p, lo, e)],
        )),
    decreases e - lo,
{
    if e > lo && !is_separator(p[e - 1]) {
        lemma_last_separator_bounds(p, lo, e - 1);
    }
}

/// Where the segment of `p[lo..e]` that ends at `e` starts.
pub open spec fn segment_start(p: Seq<char>, lo: int, e: int) -> int {
    let j = last_separator(p, lo, e);
    if j < 0 {
        lo
    } else {
        j + 1
    }
}

/// The segment `p[s..e]` is a `.` that the path drops: one that does not start a path without
/// a root.
pub open spec fn dropped_dot(p: Seq<char>, lo: int, s: int, e: int) -> bool {
    e == s + 1 && p[s] == '.' && (s > lo || has_root(p))
}

/// The end of `p[lo..e]` once trailing separators and dropped `.` components are removed.
pub open spec fn trim_back(p: Seq<char>, lo: int, e: int) -> int
    decreases e - lo,
{
    if e <= lo {
        e
    } else if is_separator(p[e - 1]) {
        trim_back(p, lo, e - 1)
    } else {
        let s = segment_start(p, lo, e);
        proof {
            lemma_last_separator_bounds(p, lo, e);
        }
        if dropped_dot(p, lo, s, e) {
            trim_back(p, lo, s)
        } else {
            e
        }
    }
}

/// The end of the path's last component.
pub open spec fn body_end(p: Seq<char>) -> int {
    trim_back(p, root_len(p), p.len() as int)
}

/// Where the path's last component starts.
pub open spec fn last_component_start(p: Seq<char>) -> int {
    segment_start(p, root_len(p), body_end(p))
}

/// The path's last component, unless the path is only a drive and root, or the component is
/// `..` or the leading `.`.
pub open spec fn file_name(p: Seq<char>) -> Option<Seq<char>> {
    if body_end(p) == root_len(p) {
        None
    } else {
        let name = p.subrange(last_component_start(p), body_end(p));
        if name == ".."@ || name == "."@ {
            None
        } else {
            Some(name)
        }
    }
}

/// The path without its last component, and without the separators and dropped `.` components
/// that then end it, unless the path is only a drive and root.
pub open spec fn parent(p: Seq<char>) -> Option<Seq<char>> {
    if body_end(p) == root_len(p) {
        None
    } else {
        let j = last_separator(p, root_len(p), body_end(p));
        if j < 0 {
            Some(p.subrange(0, root_len(p)))
        } else {
            Some(p.subrange(0, trim_back(p, root_len(p), j)))
        }
    }
}

/// `trim_back` stays within `p[lo..e]`.
pub proof fn lemma_trim_back_bounds(p: Seq<char>, lo: int, e: int)
    requires
        lo <= e,
    ensures
        lo <= trim_back(p, lo, e) <= e,
    decreases e - lo,
{
    if e > lo {
        if is_separator(p[e - 1]) {
            lemma_trim_back_bounds(p, lo, e - 1);
        } else {
            lemma_last_separator_bounds(p, lo, e);
            let s = segment_start(p, lo, e);
            if dropped_dot(p, lo, s, e) {
                lemma_trim_back_bounds(p, lo, s);
            }
        }
    }
}

/// The components of `p[lo..e]`, the part after the drive and root, as `Path::components` lists
/// them: without empty components and dropped `.` components, in order.
pub open spec fn body_components(p: Seq<char>, lo: int, e: int) -> Seq<Seq<char>>
    decreases e - lo,
{
    if e <= lo {
        Seq::empty()
    } else {
        let t = trim_back(p, lo, e);
        proof {
            lemma_trim_back_bounds(p, lo, e);
            lemma_last_separator_bounds(p, lo, t);
        }
        if t <= lo {
            Seq::empty()
        } else {
            let s = segment_start(p, lo, t);
            let before = if s > lo {
                s - 1
            } else {
                lo
            };
            body_components(p, lo, before).push(p.subrange(s, t))
        }
    }
}

/// The drive letter of the path, compared without regard to case, if it has one.
pub open spec fn drive_of(p: Seq<char>) -> Option<char> {
    if has_drive(p) {
        Some(ascii_lower(p[0]))
    } else {
        None
    }
}

/// The two paths are equal as `Path`s are: same drive, both rooted or neither, and the same
/// components.
pub open spec fn same_path(a: Seq<char>, b: Seq<char>) -> bool {
    &&& drive_of(a) == drive_of(b)
    &&& has_root(a) == has_root(b)
    &&& body_components(a, root_len(a), a.len() as int) == body_components(
        b,
        root_len(b),
        b.len() as int,
    )
}

fn separator_at(p: &Vec<char>, i: usize) -> (r: bool)
    requires
        i < p.len(),
    ensures
        r == is_separator(p@[i as int]),
{
    p[i] == '\\' || p[i] == '/'
}

fn root_len_of(p: &Vec<char>) -> (r: usize)
    ensures
        r as int == root_len(p@),
        r <= p.len(),
{
    let letter = p.len() >= 2 && (('a' <= p[0] && p[0] <= 'z') || ('A' <= p[0] && p[0] <= 'Z'));
    if letter && p[1] == ':' {
        if p.len() > 2 && separator_at(p, 2) {
            3
        } else {
            2
        }
    } else if p.len() > 0 && separator_at(p, 0) {
        1
    } else {
        0
    }
}

fn last_separator_of(p: &Vec<char>, lo: usize, e: usize) -> (r: Option<usize>)
    requires
        lo <= e <= p.len(),
    ensures
        r matches Some(j) ==> j as int == last_separator(p@, lo as int, e as int) && lo <= j < e,
        r is None ==> last_separator(p@, lo as int, e as int) == -1,
{
    let mut k = e;
    while k > lo && !separator_at(p, k - 1)
        invariant
            lo <= k <= e,
            e <= p.len(),
            last_separator(p@, lo as int, e as int) == last_separator(p@, lo as int, k as int),
        decreases k,
    {
        k = k - 1;
    }
    if k > lo {
        Some(k - 1)
    } else {
        None
    }
}

fn trim_back_of(p: &Vec<char>, lo: usize, e: usize) -> (r: usize)
    requires
        lo <= e <= p.len(),
        lo as int == root_len(p@),
    ensures
        r as int == trim_back(p@, lo as int, e as int),
        lo <= r <= e,
{
    let root = lo == 1 || lo == 3;
    let mut k = e;
    loop
        invariant
            lo <= k <= e <= p.len(),
            root == has_root(p@),
            lo as int == root_len(p@),
            trim_back(p@, lo as int, e as int) == trim_back(p@, lo as int, k as int),
        decreases k,
    {
        if k == lo {
            return k;
        }
        if separator_at(p, k - 1) {
            k = k - 1;
        } else {
            let s = match last_separator_of(p, lo, k) {
                Some(j) => j + 1,
                None => lo,
            };
            proof {
                lemma_last_separator_bounds(p@, lo as int, k as int);
                assert(s as int == segment_start(p@, lo as int, k as int));
            }
            if k == s + 1 && p[s] == '.' && (s > lo || root) {
                assert(dropped_dot(p@, lo as int, s as int, k as int));
                k = s;
            } else {
                assert(!dropped_dot(p@, lo as int, s as int, k as int));
                return k;
            }
        }
    }
}

/// The path's last component and the path without it, as ranges.
fn split_last(p: &Vec<char>) -> (r: Option<(usize, usize, usize)>)
    ensures
        r is None <==> body_end(p@) == root_len(p@),
        r matches Some((parent_end, start, end)) ==> {
            &&& start as int == last_component_start(p@)
            &&& end as int == body_end(p@)
            &&& start <= end <= p.len()
            &&& parent_end <= p.len()
            &&& parent(p@) == Some(p@.subrange(0, parent_end as int))
        },
{
    let lo = root_len_of(p);
    let end = trim_back_of(p, lo, p.len());
    if end == lo {
        return None;
    }
    match last_separator_of(p, lo, end) {
        Some(j) => {
            let parent_end = trim_back_of(p, lo, j);
            Some((parent_end, j + 1, end))
        },
        None => Some((lo, lo, end)),
    }
}

/// The components of `p[lo..e]` (see `body_components`).
fn body_components_of(p: &Vec<char>, lo: usize, e: usize) -> (r: Vec<String>)
    requires
        lo <= e <= p.len(),
        lo as int == root_len(p@),
    ensures
        texts(r@) == body_components(p@, lo as int, e as int),
    decreases e - lo,
{
    if e == lo {
        return Vec::new();
    }
    let t = trim_back_of(p, lo, e);
    if t == lo {
        return Vec::new();
    }
    proof {
        lemma_last_separator_bounds(p@, lo as int, t as int);
    }
    let s = match last_separator_of(p, lo, t) {
        Some(j) => j + 1,
        None => lo,
    };
    assert(s as int == segment_start(p@, lo as int, t as int));
    let before = if s > lo {
        s - 1
    } else {
        lo
    };
    let mut r = body_components_of(p, lo, before);
    let ghost prev = r@;
    r.push(string_from_range(p, s, t));
    assert(texts(r@) =~= texts(prev).push(p@.subrange(s as int, t as int)));
    r
}

/// Whether the two paths are equal as `Path`s are (see `same_path`): `C:/Rec/a.mp4` and
/// `c:\Rec\.\a.mp4\` are.
pub fn same_path_text(a: &str, b: &str) -> (r: bool)
    ensures
        r == same_path(a@, b@),
{
    let x = chars_of(a);
    let y = chars_of(b);
    let lx = root_len_of(&x);
    let ly = root_len_of(&y);
    let dx = x.len() >= 2 && (('a' <= x[0] && x[0] <= 'z') || ('A' <= x[0] && x[0] <= 'Z'))
        && x[1] == ':';
    let dy = y.len() >= 2 && (('a' <= y[0] && y[0] <= 'z') || ('A' <= y[0] && y[0] <= 'Z'))
        && y[1] == ':';
    assert(x@ == a@ && y@ == b@);
    assert(dx == has_drive(a@) && dy == has_drive(b@));
    if dx != dy {
        assert(drive_of(a@) != drive_of(b@));
        return false;
    }
    if dx && ascii_lower_exec(x[0]) != ascii_lower_exec(y[0]) {
        assert(drive_of(a@) != drive_of(b@));
        return false;
    }
    assert(drive_of(a@) == drive_of(b@));
    let rx = lx == 1 || lx == 3;
    let ry = ly == 1 || ly == 3;
    assert(rx == has_root(a@) && ry == has_root(b@));
    if rx != ry {
        return false;
    }
    let cx = body_components_of(&x, lx, x.len());
    let cy = body_components_of(&y, ly, y.len());
    if cx.len() != cy.len() {
        assert(texts(cx@).len() != texts(cy@).len());
        return false;
    }
    let mut i: usize = 0;
    while i < cx.len()
        invariant
            i <= cx.len() == cy.len(),
            forall|k: int| 0 <= k < i ==> texts(cx@)[k] == texts(cy@)[k],
            same_path(a@, b@) <==> texts(cx@) == texts(cy@),
        decreases cx.len() - i,
    {
        if !same_text(cx[i].as_str(), cy[i].as_str()) {
            assert(texts(cx@)[i as int] != texts(cy@)[i as int]);
            assert(texts(cx@) != texts(cy@));
            return false;
        }
        i = i + 1;
    }
    assert(texts(cx@) =~= texts(cy@));
    true
}

/// The directory that holds the bundled helper programs, given the path of the running
/// executable: the executable's directory, or the one above it when that is `deps` (where test
/// builds run).
pub fn bundled_sidecar_directory_from(executable: &str) -> (r: Option<String>)
    ensures
        r is Some <==> match parent(executable@) {
            Some(d) => file_name(d) != Some("deps"@) || parent(d) is Some,
            None => false,
        },
        r matches Some(dir) ==> match parent(executable@) {
            Some(d) => if file_name(d) == Some("deps"@) {
                parent(d) == Some(dir@)
            } else {
                dir@ == d
            },
            None => false,
        },
{
    let p = chars_of(executable);
    let (parent_end, _, _) = match split_last(&p) {
        Some(parts) => parts,
        None => return None,
    };
    let dir = string_from_range(&p, 0, parent_end);
    let d = chars_of(dir.as_str());
    assert(d@ == p@.subrange(0, parent_end as int));
    match split_last(&d) {
        Some((up_end, start, end)) => {
            let name = string_from_range(&d, start, end);
            proof {
                reveal_strlit("deps");
                reveal_strlit("..");
                reveal_strlit(".");
            }
            assert(parent(executable@) == Some(d@));
            if same_text(name.as_str(), "deps") {
                assert("deps"@.len() == 4);
                assert(".."@.len() == 2);
                assert("."@.len() == 1);
                assert(name@ != ".."@);
                assert(name@ != "."@);
                assert(file_name(d@) == Some(name@));
                Some(string_from_range(&d, 0, up_end))
            } else {
                assert(file_name(d@) != Some("deps"@));
                Some(dir)
            }
        },
        None => {
            assert(file_name(d@) is None);
            Some(dir)
        },
    }
}

/// `base` joined with the relative name `child` by `PathBuf::push`: a separator goes between them
/// unless `base` is empty, ends with one, or is a bare drive.
pub open spec fn joined(base: Seq<char>, child: Seq<char>) -> Seq<char> {
    if base.len() > 0 && !is_separator(base.last()) && !(has_drive(base) && base.len() == 2) {
        base + seq!['\\'] + child
    } else {
        base + child
    }
}

/// `base` joined with the relative name `child`, as `Path::join` does it.
pub fn join_path(base: &str, child: &str) -> (r: String)
    ensures
        r@ == joined(base@, child@),
{
    let p = chars_of(base);
    let mut out = base.to_owned();
    let n = p.len();
    let drive_only = n == 2 && (('a' <= p[0] && p[0] <= 'z') || ('A' <= p[0] && p[0] <= 'Z'))
        && p[1] == ':';
    if n > 0 && !separator_at(&p, n - 1) && !drive_only {
        push_char(&mut out, '\\');
    }
    out.append(child);
    proof {
        assert(out@ =~= joined(base@, child@));
    }
    out
}

/// The output template handed to yt-dlp: `%(channel,uploader)s - <timestamp>.%(ext)s` in the
/// download directory.
pub fn recording_output_template(output_directory: &str, local_timestamp: &str) -> (r: String)
    ensures
        r@ == joined(
            output_directory@,
            "%(channel,uploader)s - "@ + local_timestamp@ + ".%(ext)s"@,
        ),
{
    let mut name = "%(channel,uploader)s - ".to_owned();
    name.append(local_timestamp);
    name.append(".%(ext)s");
    join_path(output_directory, name.as_str())
}

/// The `strftime` pattern of recording timestamps in `locale`.
pub open spec fn timestamp_pattern(locale: Seq<char>) -> Seq<char> {
    if locale == "pt-BR"@ {
        "%d-%m-%Y %H-%M-%S"@
    } else {
        "%m-%d-%Y %H-%M-%S"@
    }
}

/// No recording timestamp pattern holds `:`, `/` or `\\`, which Windows file names refuse.
pub proof fn law_timestamp_pattern_is_windows_safe(locale: Seq<char>)
    ensures
        forall|i: int|
            0 <= i < timestamp_pattern(locale).len() ==> #[trigger] timestamp_pattern(locale)[i]
                != ':' && timestamp_pattern(locale)[i] != '/' && timestamp_pattern(locale)[i] != '\\',
{
    reveal_strlit("%d-%m-%Y %H-%M-%S");
    reveal_strlit("%m-%d-%Y %H-%M-%S");
}

/// The `strftime` pattern of recording timestamps: day first for Brazilian Portuguese, month
/// first otherwise; never `:` or `/`, which Windows file names refuse.
pub fn recording_timestamp_format(locale: &str) -> (r: &'static str)
    ensures
        r@ == timestamp_pattern(locale@),
{
    if same_text(locale, "pt-BR") {
        "%d-%m-%Y %H-%M-%S"
    } else {
        "%m-%d-%Y %H-%M-%S"
    }
}

/// The last `.` in `s[..e]`, or -1.
pub open spec fn last_dot(s: Seq<char>, e: int) -> int
    decreases e,
{
    if e <= 0 {
        -1
    } else if s[e - 1] == '.' {
        e - 1
    } else {
        last_dot(s, e - 1)
    }
}

/// The extension of the path's file name: what follows its last `.`, unless the name has no `.`
/// or only a leading one.
pub open spec fn extension(p: Seq<char>) -> Option<Seq<char>> {
    match file_name(p) {
        Some(name) => {
            let d = last_dot(name, name.len() as int);
            if d > 0 {
                Some(name.subrange(d + 1, name.len() as int))
            } else {
                None
            }
        },
        None => None,
    }
}

/// An ASCII upper-case letter in lower case; any other character unchanged.
pub open spec fn ascii_lower(c: char) -> char {
    if 'A' <= c && c <= 'Z' {
        ((c as u32) + 32) as char
    } else {
        c
    }
}

/// The text with its ASCII letters in lower case.
pub open spec fn lower_ascii(s: Seq<char>) -> Seq<char> {
    s.map_values(|c: char| ascii_lower(c))
}

/// An extension of the video containers that yt-dlp writes, in any ASCII case.
pub open spec fn is_video_extension(e: Seq<char>) -> bool {
    let l = lower_ascii(e);
    ||| l == "avi"@
    ||| l == "flv"@
    ||| l == "m4v"@
    ||| l == "mkv"@
    ||| l == "mov"@
    ||| l == "mp4"@
    ||| l == "ts"@
    ||| l == "webm"@
}

/// The last `.` of `s[..e]` is at `d` when `s[d]` is a `.` and none follows it before `e`.
proof fn lemma_last_dot_at(s: Seq<char>, d: int, e: int)
    requires
        0 <= d < e <= s.len(),
        s[d] == '.',
        forall|j: int| d < j < e ==> s[j] != '.',
    ensures
        last_dot(s, e) == d,
    decreases e,
{
    if e - 1 > d {
        lemma_last_dot_at(s, d, e - 1);
    }
}

/// A path whose file name is a non-empty stem, a `.` and one of the extensions avi, flv, m4v,
/// mkv, mov, mp4, ts or webm, in any ASCII case, is a recording file.
pub proof fn law_video_names_are_recordings(
    path: Seq<char>,
    stem: Seq<char>,
    ext: Seq<char>,
    r: bool,
)
    requires
        r == match extension(path) {
            Some(e) => is_video_extension(e),
            None => false,
        },
        file_name(path) == Some(stem + "."@ + ext),
        stem.len() > 0,
        ({
            let l = lower_ascii(ext);
            ||| l == "avi"@
            ||| l == "flv"@
            ||| l == "m4v"@
            ||| l == "mkv"@
            ||| l == "mov"@
            ||| l == "mp4"@
            ||| l == "ts"@
            ||| l == "webm"@
        }),
    ensures
        r,
{
    reveal_strlit(".");
    reveal_strlit("avi");
    reveal_strlit("flv");
    reveal_strlit("m4v");
    reveal_strlit("mkv");
    reveal_strlit("mov");
    reveal_strlit("mp4");
    reveal_strlit("ts");
    reveal_strlit("webm");
    let l = lower_ascii(ext);
    let name = stem + "."@ + ext;
    let d = stem.len() as int;
    assert forall|i: int| 0 <= i < l.len() implies l[i] != '.' by {}
    assert forall|j: int| d < j < name.len() implies name[j] != '.' by {
        assert(name[j] == ext[j - d - 1]);
        assert(l[j - d - 1] == ascii_lower(ext[j - d - 1]));
    }
    assert(name[d] == '.');
    lemma_last_dot_at(name, d, name.len() as int);
    assert(name.subrange(d + 1, name.len() as int) =~= ext);
    assert(extension(path) == Some(ext));
}

fn ascii_lower_exec(c: char) -> (r: char)
    ensures
        r == ascii_lower(c),
{
    if 'A' <= c && c <= 'Z' {
        let b = (c as u8) + 32;
        let r = b as char;
        assert(b as int == (c as u32) + 32);
        r
    } else {
        c
    }
}

/// Whether the path names a video file by its extension: avi, flv, m4v, mkv, mov, mp4, ts or
/// webm, in any ASCII case.
pub fn is_recording_file(path: &str) -> (r: bool)
    ensures
        r == match extension(path@) {
            Some(e) => is_video_extension(e),
            None => false,
        },
{
    let p = chars_of(path);
    let (start, end) = match split_last(&p) {
        Some((_, start, end)) => (start, end),
        None => return false,
    };
    let ghost name = p@.subrange(start as int, end as int);
    proof {
        reveal_strlit("..");
        reveal_strlit(".");
        assert(".."@.len() == 2);
        assert("."@.len() == 1);
    }
    if end - start == 2 && p[start] == '.' && p[start + 1] == '.' {
        assert(name =~= ".."@);
        return false;
    }
    if end - start == 1 && p[start] == '.' {
        assert(name =~= "."@);
        return false;
    }
    assert(name != ".."@ && name != "."@) by {
        if name == ".."@ {
            assert(name[0] == '.' && name[1] == '.');
        }
        if name == "."@ {
            assert(name[0] == '.');
        }
    }
    assert(file_name(p@) == Some(name));
    let mut k = end;
    while k > start && p[k - 1] != '.'
        invariant
            start <= k <= end <= p.len(),
            name == p@.subrange(start as int, end as int),
            last_dot(name, (end - start) as int) == last_dot(name, (k - start) as int),
        decreases k,
    {
        k = k - 1;
    }
    if k - start <= 1 {
        return false;
    }
    let d = k - 1;
    let mut lowered = String::new();
    let mut i = d + 1;
    while i < end
        invariant
            d + 1 <= i <= end <= p.len(),
            lowered@ == lower_ascii(p@.subrange(d + 1, i as int)),
        decreases end - i,
    {
        push_char(&mut lowered, ascii_lower_exec(p[i]));
        assert(lower_ascii(p@.subrange(d + 1, i + 1)) =~= lower_ascii(
            p@.subrange(d + 1, i as int),
        ).push(ascii_lower(p@[i as int])));
        i = i + 1;
    }
    assert(name.subrange((d - start) + 1, name.len() as int) =~= p@.subrange(d + 1, end as int));
    let l = lowered.as_str();
    same_text(l, "avi") || same_text(l, "flv") || same_text(l, "m4v") || same_text(l, "mkv")
        || same_text(l, "mov") || same_text(l, "mp4") || same_text(l, "ts") || same_text(l, "webm")
}

} // verus!
