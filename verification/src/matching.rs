//! Finding the file of a completed recording whose output path was never recorded: names are
//! normalised, a stream's identifiers are taken from its name and URL, and each video file in
//! the download folder is scored against each recording.
use vstd::prelude::*;

use crate::database::{
    has_target, job_key, join_row, joined_history, keys_unique, latest_listing, lemma_joined_member,
    min_count, target_of, Database,
};
use crate::sorting::sorted_by;
use crate::models::{copy_opt, text_opt, JobRecord, RecordingJob, WatchTarget};
use crate::text::{
    binary_codes, binary_codes_of, chars_of, codes_le, codes_le_exec, contains, contains_text,
    push_char, same_text, starts_with, string_from_range, texts,
};
use crate::paths::{ascii_lower, same_path, same_path_text};
use crate::urls::{parse_url, segments_text, url_parts};

verus! {

/// Unicode `Alphabetic` or `Numeric`, as `char::is_alphanumeric` decides it.
pub uninterp spec fn unicode_alphanumeric(c: char) -> bool;

/// The lower-case mapping of `c`, as `char::to_lowercase` yields it.
pub uninterp spec fn unicode_lowercase(c: char) -> Seq<char>;

/// An ASCII letter or digit.
pub open spec fn is_ascii_alphanumeric(c: char) -> bool {
    ('0' <= c && c <= '9') || ('a' <= c && c <= 'z') || ('A' <= c && c <= 'Z')
}

/// `char::is_alphanumeric`. On ASCII it holds of the letters and digits alone.
#[verifier::external_body]
fn is_alphanumeric(c: char) -> (r: bool)
    ensures
        r == unicode_alphanumeric(c),
        (c as u32) < 128 ==> r == is_ascii_alphanumeric(c),
{
    c.is_alphanumeric()
}

/// `char::to_lowercase`, collected. An ASCII character maps to itself, an upper-case letter to
/// its lower-case one.
#[verifier::external_body]
fn to_lowercase(c: char) -> (r: Vec<char>)
    ensures
        r@ == unicode_lowercase(c),
        (c as u32) < 128 ==> r@ == seq![ascii_lower(c)],
{
    c.to_lowercase().collect()
}

/// The letters and digits of `s`, in lower case.
pub open spec fn normalized(s: Seq<char>) -> Seq<char>
    decreases s.len(),
{
    if s.len() == 0 {
        Seq::empty()
    } else {
        let rest = normalized(s.drop_last());
        if unicode_alphanumeric(s.last()) {
            rest + unicode_lowercase(s.last())
        } else {
            rest
        }
    }
}

/// The letters and digits of `value`, in lower case: the form in which names are compared.
pub fn normalize_name(value: &str) -> (r: String)
    ensures
        r@ == normalized(value@),
{
    let chars = chars_of(value);
    let mut out = String::new();
    let mut i: usize = 0;
    while i < chars.len()
        invariant
            chars@ == value@,
            i <= chars.len(),
            out@ == normalized(value@.take(i as int)),
        decreases chars.len() - i,
    {
        assert(value@.take(i + 1).drop_last() =~= value@.take(i as int));
        if is_alphanumeric(chars[i]) {
            let lower = to_lowercase(chars[i]);
            let mut k: usize = 0;
            let ghost start = out@;
            while k < lower.len()
                invariant
                    k <= lower.len(),
                    out@ == start + lower@.take(k as int),
                decreases lower.len() - k,
            {
                push_char(&mut out, lower[k]);
                assert(lower@.take(k + 1) =~= lower@.take(k as int).push(lower@[k as int]));
                k = k + 1;
            }
            assert(lower@.take(k as int) =~= lower@);
        }
        i = i + 1;
    }
    assert(value@.take(i as int) =~= value@);
    out
}

/// The number of bytes that `c` takes in UTF-8.
pub open spec fn utf8_width(c: char) -> int {
    if (c as u32) < 0x80 {
        1
    } else if (c as u32) < 0x800 {
        2
    } else if (c as u32) < 0x10000 {
        3
    } else {
        4
    }
}

/// The byte length of `s` in UTF-8, as `str::len` gives it.
pub open spec fn utf8_len(s: Seq<char>) -> int
    decreases s.len(),
{
    if s.len() == 0 {
        0
    } else {
        utf8_len(s.drop_last()) + utf8_width(s.last())
    }
}

/// The UTF-8 byte length of `s`, or `cap` if that is less.
pub fn utf8_len_capped(s: &str, cap: u64) -> (r: u64)
    requires
        cap <= 0x7FFF_FFFF_FFFF_FFFF,
    ensures
        r == if utf8_len(s@) < cap {
            utf8_len(s@)
        } else {
            cap as int
        },
{
    let chars = chars_of(s);
    let mut acc: u64 = 0;
    let mut i: usize = 0;
    while i < chars.len()
        invariant
            chars@ == s@,
            i <= chars.len(),
            cap <= 0x7FFF_FFFF_FFFF_FFFF,
            acc == if utf8_len(s@.take(i as int)) < cap {
                utf8_len(s@.take(i as int))
            } else {
                cap as int
            },
        decreases chars.len() - i,
    {
        let c = chars[i] as u32;
        let w: u64 = if c < 0x80 {
            1
        } else if c < 0x800 {
            2
        } else if c < 0x10000 {
            3
        } else {
            4
        };
        assert(s@.take(i + 1).drop_last() =~= s@.take(i as int));
        proof {
            lemma_utf8_len_nonneg(s@.take(i as int));
        }
        acc = if acc + w < cap {
            acc + w
        } else {
            cap
        };
        i = i + 1;
    }
    assert(s@.take(i as int) =~= s@);
    acc
}

/// A UTF-8 length is never negative.
pub proof fn lemma_utf8_len_nonneg(s: Seq<char>)
    ensures
        utf8_len(s) >= 0,
    decreases s.len(),
{
    if s.len() > 0 {
        lemma_utf8_len_nonneg(s.drop_last());
    }
}

/// `s` without its leading `@` characters.
pub open spec fn without_leading_at(s: Seq<char>) -> Seq<char>
    decreases s.len(),
{
    if s.len() > 0 && s[0] == '@' {
        without_leading_at(s.drop_first())
    } else {
        s
    }
}

/// A path segment that names the channel: not empty and not `live` or `videos`.
pub open spec fn is_channel_segment(s: Seq<char>) -> bool {
    s.len() > 0 && s != "live"@ && s != "videos"@
}

/// The last segment among `segs[..n]` that names the channel, without leading `@`.
pub open spec fn channel_segment(segs: Seq<Seq<char>>, n: int) -> Option<Seq<char>>
    decreases n,
{
    if n <= 0 {
        None
    } else if is_channel_segment(without_leading_at(segs[n - 1])) {
        Some(without_leading_at(segs[n - 1]))
    } else {
        channel_segment(segs, n - 1)
    }
}

/// The normalised name of a stream, then the normalised channel segment of its URL if any.
pub open spec fn identifier_candidates(name: Seq<char>, url: Seq<char>) -> Seq<Seq<char>> {
    let from_url = match url_parts(url) {
        Some((_, _, Some(segs))) => match channel_segment(segs, segs.len() as int) {
            Some(seg) => seq![normalized(seg)],
            None => Seq::empty(),
        },
        _ => Seq::empty(),
    };
    seq![normalized(name)] + from_url
}

/// The identifiers by which a stream's recordings are recognised: the candidates at least three
/// bytes long, sorted, without repeats.
pub open spec fn identifiers_of(name: Seq<char>, url: Seq<char>) -> Seq<Seq<char>> {
    let kept = identifier_candidates(name, url).filter(|s: Seq<char>| utf8_len(s) >= 3);
    if kept.len() == 2 {
        if kept[0] == kept[1] {
            seq![kept[0]]
        } else if codes_le(binary_codes(kept[0]), binary_codes(kept[1])) {
            kept
        } else {
            seq![kept[1], kept[0]]
        }
    } else {
        kept
    }
}

/// `s` without its leading `@` characters.
fn strip_leading_at(s: &str) -> (r: String)
    ensures
        r@ == without_leading_at(s@),
{
    let chars = chars_of(s);
    let mut i: usize = 0;
    assert(s@.subrange(0, s@.len() as int) =~= s@);
    while i < chars.len() && chars[i] == '@'
        invariant
            chars@ == s@,
            i <= chars.len(),
            without_leading_at(s@) == without_leading_at(s@.subrange(i as int, s@.len() as int)),
        decreases chars.len() - i,
    {
        assert(s@.subrange(i as int, s@.len() as int).drop_first() =~= s@.subrange(
            i + 1,
            s@.len() as int,
        ));
        i = i + 1;
    }
    assert(s@.subrange(0, s@.len() as int) =~= s@);
    string_from_range(&chars, i, chars.len())
}

/// The channel segment of a URL's path, searching from the end.
fn find_channel_segment(segs: &Vec<String>) -> (r: Option<String>)
    ensures
        text_opt(r) == channel_segment(segs@.map_values(|s: String| s@), segs@.len() as int),
{
    let ghost views = segs@.map_values(|s: String| s@);
    let mut n = segs.len();
    while n > 0
        invariant
            n <= segs.len(),
            views == segs@.map_values(|s: String| s@),
            channel_segment(views, segs@.len() as int) == channel_segment(views, n as int),
        decreases n,
    {
        let seg = strip_leading_at(segs[n - 1].as_str());
        proof {
            reveal_strlit("live");
            reveal_strlit("videos");
        }
        if !seg.as_str().is_empty() && !same_text(seg.as_str(), "live") && !same_text(
            seg.as_str(),
            "videos",
        ) {
            return Some(seg);
        }
        n = n - 1;
    }
    None
}

/// The identifiers by which the recordings of `target` are recognised: its normalised name and
/// the normalised channel segment of its URL, each kept only when at least three bytes long,
/// sorted, without repeats.
pub fn target_identifiers(target: &WatchTarget) -> (r: Vec<String>)
    ensures
        r@.map_values(|s: String| s@) == identifiers_of(target.name@, target.url@),
{
    let mut candidates: Vec<String> = Vec::new();
    candidates.push(normalize_name(target.name.as_str()));
    let ghost name_part = seq![normalized(target.name@)];
    match parse_url(target.url.as_str()) {
        Some(parts) => match &parts.path_segments {
            Some(segs) => match find_channel_segment(segs) {
                Some(seg) => {
                    candidates.push(normalize_name(seg.as_str()));
                },
                None => {},
            },
            None => {},
        },
        None => {},
    }
    let ghost cands = identifier_candidates(target.name@, target.url@);
    assert(candidates@.map_values(|s: String| s@) =~= cands);
    let ghost p = |s: Seq<char>| utf8_len(s) >= 3;
    let mut kept: Vec<String> = Vec::new();
    let mut i: usize = 0;
    while i < candidates.len()
        invariant
            i <= candidates.len(),
            p == (|s: Seq<char>| utf8_len(s) >= 3),
            candidates@.map_values(|s: String| s@) == cands,
            kept@.map_values(|s: String| s@) == cands.take(i as int).filter(p),
        decreases candidates.len() - i,
    {
        proof {
            crate::sorting::lemma_filter_take_step(cands, p, i as int);
            assert(cands[i as int] == candidates@[i as int]@);
        }
        if utf8_len_capped(candidates[i].as_str(), 3) >= 3 {
            let ghost before = kept@;
            kept.push(candidates[i].clone());
            assert(kept@.map_values(|s: String| s@) =~= before.map_values(|s: String| s@).push(
                candidates@[i as int]@,
            ));
        }
        i = i + 1;
    }
    assert(cands.take(i as int) =~= cands);
    let ghost kv = cands.filter(p);
    if kept.len() == 2 {
        assert(kept@[0]@ == kv[0] && kept@[1]@ == kv[1]);
        if same_text(kept[0].as_str(), kept[1].as_str()) {
            let first = kept[0].clone();
            let mut out: Vec<String> = Vec::new();
            out.push(first);
            assert(out@.map_values(|s: String| s@) =~= seq![kv[0]]);
            return out;
        }
        let a = binary_codes_of(kept[0].as_str());
        let b = binary_codes_of(kept[1].as_str());
        if codes_le_exec(&a, &b) {
            return kept;
        }
        let second = kept.pop().unwrap();
        let first = kept.pop().unwrap();
        let mut out: Vec<String> = Vec::new();
        out.push(second);
        out.push(first);
        assert(out@.map_values(|s: String| s@) =~= seq![kv[1], kv[0]]);
        return out;
    }
    kept
}

/// How many bytes an identifier may take for its best score, 35 more than its length, to fit in
/// an `i64`.
pub open spec fn max_identifier_len() -> int {
    0x7FFF_FFFF_FFFF_FFDC
}

/// Among `ids[..n]`, where the last of the longest identifiers contained in `name` stands.
pub open spec fn best_match(name: Seq<char>, ids: Seq<Seq<char>>, n: int) -> Option<int>
    decreases n,
{
    if n <= 0 {
        None
    } else {
        let prev = best_match(name, ids, n - 1);
        if contains_text(name, ids[n - 1]) {
            match prev {
                Some(p) => if utf8_len(ids[n - 1]) >= utf8_len(ids[p]) {
                    Some(n - 1)
                } else {
                    Some(p)
                },
                None => Some(n - 1),
            }
        } else {
            prev
        }
    }
}

/// Some token occurs in `name`.
pub open spec fn any_contained(name: Seq<char>, tokens: Seq<Seq<char>>) -> bool {
    exists|i: int| 0 <= i < tokens.len() && contains_text(name, tokens[i])
}

/// The bonus for a file modified close to when the recording ended.
pub open spec fn proximity_bonus(proximity: Option<u64>) -> int {
    match proximity {
        Some(p) => if p <= 300 {
            5
        } else if p <= 3600 {
            3
        } else {
            0
        },
        None => 0,
    }
}

/// How well a file whose normalised name is `name` matches a recording of a stream with
/// identifiers `ids`, given the date and time tokens of the recording and how many seconds apart
/// the file's modification and the recording's end are: nothing unless an identifier occurs in
/// the name and either a date occurs or the times are within an hour.
pub open spec fn candidate_score(
    name: Seq<char>,
    ids: Seq<Seq<char>>,
    dates: Seq<Seq<char>>,
    times: Seq<Seq<char>>,
    proximity: Option<u64>,
) -> Option<int> {
    match best_match(name, ids, ids.len() as int) {
        None => None,
        Some(k) => {
            let m = ids[k];
            let has_date = any_contained(name, dates);
            if !has_date && !(proximity matches Some(p) && p <= 3600) {
                None
            } else {
                Some(
                    10 + utf8_len(m) + (if m.is_prefix_of(name) {
                        5int
                    } else {
                        0int
                    }) + (if has_date {
                        10int
                    } else {
                        0int
                    }) + (if any_contained(name, times) {
                        5int
                    } else {
                        0int
                    }) + proximity_bonus(proximity),
                )
            }
        },
    }
}

fn any_token_in(name: &str, tokens: &Vec<String>) -> (r: bool)
    ensures
        r == any_contained(name@, texts(tokens@)),
{
    let mut i: usize = 0;
    while i < tokens.len()
        invariant
            i <= tokens.len(),
            forall|k: int| 0 <= k < i ==> !contains_text(name@, #[trigger] texts(tokens@)[k]),
        decreases tokens.len() - i,
    {
        if contains(name, tokens[i].as_str()) {
            assert(contains_text(name@, texts(tokens@)[i as int]));
            return true;
        }
        i = i + 1;
    }
    false
}

/// The score of a file whose normalised name is `normalized_name` as the output of a recording
/// of a stream with identifiers `identifiers`: see `candidate_score`.
pub fn score_candidate(
    normalized_name: &str,
    identifiers: &Vec<String>,
    date_tokens: &Vec<String>,
    time_tokens: &Vec<String>,
    proximity_seconds: Option<u64>,
) -> (r: Option<i64>)
    requires
        forall|i: int|
            0 <= i < identifiers.len() ==> utf8_len(#[trigger] identifiers@[i]@)
                <= max_identifier_len(),
    ensures
        match candidate_score(
            normalized_name@,
            texts(identifiers@),
            texts(date_tokens@),
            texts(time_tokens@),
            proximity_seconds,
        ) {
            Some(v) => r == Some(v as i64),
            None => r is None,
        },
{
    let ghost ids = texts(identifiers@);
    let mut best: Option<usize> = None;
    let mut best_len: u64 = 0;
    let mut i: usize = 0;
    while i < identifiers.len()
        invariant
            i <= identifiers.len(),
            ids == texts(identifiers@),
            forall|k: int|
                0 <= k < identifiers.len() ==> utf8_len(#[trigger] identifiers@[k]@)
                    <= max_identifier_len(),
            match best {
                Some(b) => best_match(normalized_name@, ids, i as int) == Some(b as int) && b < i
                    && best_len == utf8_len(ids[b as int]),
                None => best_match(normalized_name@, ids, i as int) is None,
            },
        decreases identifiers.len() - i,
    {
        if contains(normalized_name, identifiers[i].as_str()) {
            let len = utf8_len_capped(identifiers[i].as_str(), 0x7FFF_FFFF_FFFF_FFDC);
            assert(ids[i as int] == identifiers@[i as int]@);
            let replace = match best {
                Some(_) => len >= best_len,
                None => true,
            };
            if replace {
                best = Some(i);
                best_len = len;
            }
        }
        i = i + 1;
    }
    let b = match best {
        Some(b) => b,
        None => return None,
    };
    let m = identifiers[b].as_str();
    let has_date = any_token_in(normalized_name, date_tokens);
    let close = match proximity_seconds {
        Some(p) => p <= 3600,
        None => false,
    };
    if !has_date && !close {
        return None;
    }
    proof {
        lemma_utf8_len_nonneg(ids[b as int]);
    }
    let mut score: i64 = 10 + best_len as i64;
    if starts_with(normalized_name, m) {
        score = score + 5;
    }
    if has_date {
        score = score + 10;
    }
    if any_token_in(normalized_name, time_tokens) {
        score = score + 5;
    }
    score = score + match proximity_seconds {
        Some(p) => if p <= 300 {
            5
        } else if p <= 3600 {
            3
        } else {
            0
        },
        None => 0,
    };
    Some(score)
}

/// An instant: whole seconds since 1970-01-01T00:00:00Z and the nanoseconds past them.
#[derive(Debug, PartialEq, Eq, Clone, Copy)]
pub struct Timestamp {
    pub seconds: i64,
    pub nanos: u32,
}

/// A video file in the download folder that no recording claims yet.
#[derive(Debug, PartialEq, Eq)]
pub struct OutputCandidate {
    pub path: String,
    pub normalized_name: String,
    pub modified_at: Option<Timestamp>,
}

impl Clone for OutputCandidate {
    fn clone(&self) -> (r: Self)
        ensures
            r == *self,
    {
        OutputCandidate {
            path: self.path.clone(),
            normalized_name: self.normalized_name.clone(),
            modified_at: self.modified_at,
        }
    }
}

/// What `chrono::DateTime::parse_from_rfc3339` makes of a text, as seconds and nanoseconds of UTC.
pub uninterp spec fn rfc3339_instant(s: Seq<char>) -> Option<(i64, u32)>;

/// `chrono::DateTime::parse_from_rfc3339`, then `timestamp` and `timestamp_subsec_nanos` of the
/// result. The result is `rfc3339_instant` of the text: RFC 3339's grammar is not restated.
#[verifier::external_body]
fn parse_job_time(value: &str) -> (r: Option<Timestamp>)
    ensures
        match rfc3339_instant(value@) {
            Some((s, n)) => r == Some(Timestamp { seconds: s, nanos: n }),
            None => r is None,
        },
{
    chrono::DateTime::parse_from_rfc3339(value).ok().map(
        |t| Timestamp { seconds: t.timestamp(), nanos: t.timestamp_subsec_nanos() },
    )
}

/// A `strftime` pattern of the date and time tokens looked for in file names.
pub open spec fn is_token_pattern(p: Seq<char>) -> bool {
    p == "%Y%m%d"@ || p == "%d%m%Y"@ || p == "%m%d%Y"@ || p == "%H%M"@
}

/// What `chrono::DateTime::from_timestamp` followed by `format(pattern).to_string()` gives.
pub uninterp spec fn utc_formatted(seconds: i64, nanos: u32, pattern: Seq<char>) -> Option<Seq<char>>;

/// `chrono::DateTime::from_timestamp`, then `format` with `pattern` in UTC. `None` where chrono
/// has no such instant. The result is `utc_formatted` of the arguments.
#[verifier::external_body]
fn format_utc(t: Timestamp, pattern: &str) -> (r: Option<String>)
    requires
        is_token_pattern(pattern@),
    ensures
        text_opt(r) == utc_formatted(t.seconds, t.nanos, pattern@),
{
    chrono::DateTime::from_timestamp(t.seconds, t.nanos).map(|d| d.format(pattern).to_string())
}

/// The patterns of the local date and time tokens, in the order of their texts.
pub open spec fn local_patterns() -> Seq<Seq<char>> {
    seq!["%Y%m%d"@, "%d%m%Y"@, "%m%d%Y"@, "%H%M"@]
}

/// An instant well inside chrono's range (years beyond 200 000 either way) that is not a leap
/// second.
pub open spec fn ordinary_instant(seconds: i64, nanos: u32) -> bool {
    -8_000_000_000_000 <= seconds <= 8_000_000_000_000 && nanos < 1_000_000_000
}

/// `v` holds the UTC renderings, with the local patterns, of the instant `t` shifted by `off`
/// seconds.
pub open spec fn shifted_renderings(t: (i64, u32), off: int, v: Seq<Seq<char>>) -> bool {
    forall|i: int|
        0 <= i < 4 ==> Some(#[trigger] v[i]) == utc_formatted(
            (t.0 + off) as i64,
            t.1,
            local_patterns()[i],
        )
}

/// `v` holds the texts of the instant `t` in the machine's time zone, rendered with the local
/// patterns: none is empty, and for an ordinary instant they are its UTC renderings shifted by
/// one offset of less than a day.
pub open spec fn local_rendering(t: (i64, u32), v: Seq<Seq<char>>) -> bool {
    &&& v.len() == 4
    &&& forall|i: int| 0 <= i < 4 ==> (#[trigger] v[i]).len() > 0
    &&& ordinary_instant(t.0, t.1) ==> exists|off: int|
        -86400 < off < 86400 && #[trigger] shifted_renderings(t, off, v)
}

/// `chrono::DateTime::from_timestamp`, then `with_timezone(&chrono::Local)` and `format` with each
/// of the local patterns. `None` exactly where chrono has no such instant, as for `format_utc`.
/// The machine's time zone decides the offset, which chrono's `FixedOffset` keeps under a day,
/// and the local date and time are the UTC ones shifted by it; which offset is left open.
#[verifier::external_body]
fn format_local(t: Timestamp) -> (r: Option<Vec<String>>)
    ensures
        r is None <==> utc_formatted(t.seconds, t.nanos, "%Y%m%d"@) is None,
        r matches Some(v) ==> local_rendering((t.seconds, t.nanos), texts(v@)),
{
    chrono::DateTime::from_timestamp(t.seconds, t.nanos).map(
        |d| {
            let l = d.with_timezone(&chrono::Local);
            vec![
                l.format("%Y%m%d").to_string(),
                l.format("%d%m%Y").to_string(),
                l.format("%m%d%Y").to_string(),
                l.format("%H%M").to_string(),
            ]
        },
    )
}

/// `dates` and `times` are the local tokens of `instants`: for each instant that chrono can
/// render, its three date texts and its time text in the machine's time zone (see
/// `local_rendering`), in order.
pub open spec fn local_tokens_of(
    instants: Seq<(i64, u32)>,
    dates: Seq<Seq<char>>,
    times: Seq<Seq<char>>,
) -> bool
    decreases instants.len(),
{
    if instants.len() == 0 {
        dates.len() == 0 && times.len() == 0
    } else {
        let t = instants.last();
        if utc_formatted(t.0, t.1, "%Y%m%d"@) is None {
            local_tokens_of(instants.drop_last(), dates, times)
        } else {
            &&& dates.len() >= 3
            &&& times.len() >= 1
            &&& local_rendering(t, dates.skip(dates.len() - 3).push(times.last()))
            &&& local_tokens_of(
                instants.drop_last(),
                dates.take(dates.len() - 3),
                times.drop_last(),
            )
        }
    }
}

/// What `(a - b).num_seconds()` gives for the two instants as `chrono` `DateTime`s.
pub uninterp spec fn seconds_between(a_seconds: i64, a_nanos: u32, b_seconds: i64, b_nanos: u32) -> Option<i64>;

/// The time from instant `b` to instant `a` in whole seconds, truncated toward zero.
pub open spec fn truncated_seconds(a_seconds: i64, a_nanos: u32, b_seconds: i64, b_nanos: u32) -> int {
    let d = (a_seconds - b_seconds) * 1_000_000_000 + (a_nanos - b_nanos);
    if d >= 0 {
        d / 1_000_000_000
    } else {
        -((-d) / 1_000_000_000)
    }
}

/// How many whole seconds lie from `b` to `a`: truncated toward zero for ordinary instants (see
/// `ordinary_instant`), as chrono gives it otherwise.
pub open spec fn seconds_apart(a_seconds: i64, a_nanos: u32, b_seconds: i64, b_nanos: u32) -> Option<i64> {
    if ordinary_instant(a_seconds, a_nanos) && ordinary_instant(b_seconds, b_nanos) {
        Some(truncated_seconds(a_seconds, a_nanos, b_seconds, b_nanos) as i64)
    } else {
        seconds_between(a_seconds, a_nanos, b_seconds, b_nanos)
    }
}

/// `chrono::DateTime::from_timestamp` of both instants, then `(a - b).num_seconds()`. `None` where
/// chrono has no such instant. The result is `seconds_between` of the arguments; for two ordinary
/// instants, whose difference chrono holds exactly, it is that difference in whole seconds,
/// truncated toward zero.
#[verifier::external_body]
fn whole_seconds_between(a: Timestamp, b: Timestamp) -> (r: Option<i64>)
    ensures
        r == seconds_between(a.seconds, a.nanos, b.seconds, b.nanos),
        ordinary_instant(a.seconds, a.nanos) && ordinary_instant(b.seconds, b.nanos) ==> r == Some(
            truncated_seconds(a.seconds, a.nanos, b.seconds, b.nanos) as i64,
        ),
{
    match (
        chrono::DateTime::from_timestamp(a.seconds, a.nanos),
        chrono::DateTime::from_timestamp(b.seconds, b.nanos),
    ) {
        (Some(x), Some(y)) => Some((x - y).num_seconds()),
        _ => None,
    }
}

/// The start and then the end of a recording, those that parse.
pub open spec fn job_instants(job: RecordingJob) -> Seq<(i64, u32)> {
    let started = match rfc3339_instant(job.started_at@) {
        Some(t) => seq![t],
        None => Seq::empty(),
    };
    let finished = match job.finished_at {
        Some(f) => match rfc3339_instant(f@) {
            Some(t) => seq![t],
            None => Seq::empty(),
        },
        None => Seq::empty(),
    };
    started + finished
}

/// The UTC renderings of the instants with `pattern`, those that exist.
pub open spec fn utc_tokens(instants: Seq<(i64, u32)>, pattern: Seq<char>) -> Seq<Seq<char>>
    decreases instants.len(),
{
    if instants.len() == 0 {
        Seq::empty()
    } else {
        let rest = utc_tokens(instants.drop_last(), pattern);
        match utc_formatted(instants.last().0, instants.last().1, pattern) {
            Some(t) => rest.push(t),
            None => rest,
        }
    }
}

/// The UTC date tokens of a recording: year-month-day, day-month-year and month-day-year.
pub open spec fn utc_date_tokens(instants: Seq<(i64, u32)>) -> Seq<Seq<char>>
    decreases instants.len(),
{
    if instants.len() == 0 {
        Seq::empty()
    } else {
        let rest = utc_date_tokens(instants.drop_last());
        let t = instants.last();
        rest + opt_token(utc_formatted(t.0, t.1, "%Y%m%d"@)) + opt_token(
            utc_formatted(t.0, t.1, "%d%m%Y"@),
        ) + opt_token(utc_formatted(t.0, t.1, "%m%d%Y"@))
    }
}

/// A token, if there is one.
pub open spec fn opt_token(t: Option<Seq<char>>) -> Seq<Seq<char>> {
    match t {
        Some(x) => seq![x],
        None => Seq::empty(),
    }
}

/// The instant against which a file's modification time is compared: the recording's end, else
/// its start.
pub open spec fn reference_instant(job: RecordingJob) -> Option<(i64, u32)> {
    let finished = match job.finished_at {
        Some(f) => rfc3339_instant(f@),
        None => None,
    };
    match finished {
        Some(t) => Some(t),
        None => rfc3339_instant(job.started_at@),
    }
}

/// `|n|` as an unsigned number.
pub open spec fn unsigned_abs(n: i64) -> u64 {
    if n < 0 {
        (-(n as int)) as u64
    } else {
        n as u64
    }
}

/// How many whole seconds apart the file's modification and the recording's reference instant are
/// (see `seconds_apart`).
pub open spec fn proximity_of(candidate: OutputCandidate, job: RecordingJob) -> Option<u64> {
    match (candidate.modified_at, reference_instant(job)) {
        (Some(m), Some(r)) => match seconds_apart(m.seconds, m.nanos, r.0, r.1) {
            Some(d) => Some(unsigned_abs(d)),
            None => None,
        },
        _ => None,
    }
}

fn abs_seconds(d: i64) -> (r: u64)
    ensures
        r == unsigned_abs(d),
{
    if d < 0 {
        if d == i64::MIN {
            9223372036854775808u64
        } else {
            (-d) as u64
        }
    } else {
        d as u64
    }
}

fn push_token(tokens: &mut Vec<String>, t: Option<String>)
    ensures
        texts(final(tokens)@) == texts(old(tokens)@) + opt_token(text_opt(t)),
{
    let ghost before = tokens@;
    match t {
        Some(x) => {
            tokens.push(x);
        },
        None => {},
    }
    assert(texts(tokens@) =~= texts(before) + opt_token(text_opt(t)));
}

/// Every identifier of a stream named `name` at `url` is short enough for its scores to fit.
pub open spec fn identifiers_within_bound(name: Seq<char>, url: Seq<char>) -> bool {
    forall|i: int|
        0 <= i < identifiers_of(name, url).len() ==> utf8_len(#[trigger] identifiers_of(name, url)[i])
            <= max_identifier_len()
}

/// `r` is how well `candidate` matches as the output of `job`, a recording of `target` (see
/// `candidate_score`): with the recording's dates and times in UTC, and with its local tokens
/// (see `local_tokens_of`), whose time zone is the machine's.
pub open spec fn scored_as(
    r: Option<i64>,
    candidate: OutputCandidate,
    target: WatchTarget,
    job: RecordingJob,
) -> bool {
    exists|local_dates: Seq<Seq<char>>, local_times: Seq<Seq<char>>|
        local_tokens_of(job_instants(job), local_dates, local_times) && match #[trigger] candidate_score(
            candidate.normalized_name@,
            identifiers_of(target.name@, target.url@),
            utc_date_tokens(job_instants(job)) + local_dates,
            utc_tokens(job_instants(job), "%H%M"@) + local_times,
            proximity_of(candidate, job),
        ) {
            Some(v) => r == Some(v as i64),
            None => r is None,
        }
}

/// An identifier contained in the name gives a longest match among the first `n` identifiers
/// once `n` passes it.
proof fn lemma_best_match_found(name: Seq<char>, ids: Seq<Seq<char>>, i: int, n: int)
    requires
        0 <= i < n <= ids.len(),
        contains_text(name, ids[i]),
    ensures
        best_match(name, ids, n) is Some,
    decreases n,
{
    if n - 1 > i {
        lemma_best_match_found(name, ids, i, n - 1);
    }
}

/// The date token of one of the instants, in one of the three date patterns, is among the
/// recording's UTC date tokens.
proof fn lemma_date_token_listed(
    instants: Seq<(i64, u32)>,
    k: int,
    pattern: Seq<char>,
    token: Seq<char>,
)
    requires
        0 <= k < instants.len(),
        pattern == "%Y%m%d"@ || pattern == "%d%m%Y"@ || pattern == "%m%d%Y"@,
        utc_formatted(instants[k].0, instants[k].1, pattern) == Some(token),
    ensures
        utc_date_tokens(instants).contains(token),
    decreases instants.len(),
{
    let rest = utc_date_tokens(instants.drop_last());
    let t = instants.last();
    let a = opt_token(utc_formatted(t.0, t.1, "%Y%m%d"@));
    let b = opt_token(utc_formatted(t.0, t.1, "%d%m%Y"@));
    let c = opt_token(utc_formatted(t.0, t.1, "%m%d%Y"@));
    assert(utc_date_tokens(instants) == rest + a + b + c);
    if k == instants.len() - 1 {
        if pattern == "%Y%m%d"@ {
            assert((rest + a + b + c)[rest.len() as int] == token);
        } else if pattern == "%d%m%Y"@ {
            assert((rest + a + b + c)[(rest.len() + a.len()) as int] == token);
        } else {
            assert((rest + a + b + c)[(rest.len() + a.len() + b.len()) as int] == token);
        }
    } else {
        assert(instants.drop_last()[k] == instants[k]);
        lemma_date_token_listed(instants.drop_last(), k, pattern, token);
        let j = choose|j: int| 0 <= j < rest.len() && rest[j] == token;
        assert((rest + a + b + c)[j] == token);
    }
}

/// A file is scored whenever one of the stream's identifiers and one of the recording's dates
/// occur in its normalised name: the date of the recording's start or end, in UTC, written as
/// year-month-day, day-month-year or month-day-year.
pub proof fn law_identifier_and_date_give_a_score(
    r: Option<i64>,
    candidate: OutputCandidate,
    target: WatchTarget,
    job: RecordingJob,
    id: Seq<char>,
    instant: (i64, u32),
    pattern: Seq<char>,
    token: Seq<char>,
)
    requires
        scored_as(r, candidate, target, job),
        identifiers_of(target.name@, target.url@).contains(id),
        contains_text(candidate.normalized_name@, id),
        rfc3339_instant(job.started_at@) == Some(instant) || (job.finished_at matches Some(f)
            && rfc3339_instant(f@) == Some(instant)),
        pattern == "%Y%m%d"@ || pattern == "%d%m%Y"@ || pattern == "%m%d%Y"@,
        utc_formatted(instant.0, instant.1, pattern) == Some(token),
        contains_text(candidate.normalized_name@, token),
    ensures
        r is Some,
{
    let name = candidate.normalized_name@;
    let ids = identifiers_of(target.name@, target.url@);
    let inst = job_instants(job);
    let i = choose|i: int| 0 <= i < ids.len() && ids[i] == id;
    lemma_best_match_found(name, ids, i, ids.len() as int);
    let k = if rfc3339_instant(job.started_at@) == Some(instant) {
        0int
    } else {
        inst.len() - 1
    };
    assert(0 <= k < inst.len() && inst[k] == instant);
    lemma_date_token_listed(inst, k, pattern, token);
    let (local_dates, local_times) = choose|ld: Seq<Seq<char>>, lt: Seq<Seq<char>>|
        local_tokens_of(inst, ld, lt) && match #[trigger] candidate_score(
            name,
            ids,
            utc_date_tokens(inst) + ld,
            utc_tokens(inst, "%H%M"@) + lt,
            proximity_of(candidate, job),
        ) {
            Some(v) => r == Some(v as i64),
            None => r is None,
        };
    let dates = utc_date_tokens(inst) + local_dates;
    let j = choose|j: int| 0 <= j < utc_date_tokens(inst).len() && utc_date_tokens(inst)[j] == token;
    assert(dates[j] == token);
    assert(any_contained(name, dates));
}

/// Without an identifier contained in the name, no longest match exists among the first `n`.
proof fn lemma_best_match_absent(name: Seq<char>, ids: Seq<Seq<char>>, n: int)
    requires
        n <= ids.len(),
        forall|i: int| 0 <= i < n ==> !contains_text(name, #[trigger] ids[i]),
    ensures
        best_match(name, ids, n) is None,
    decreases n,
{
    if n > 0 {
        lemma_best_match_absent(name, ids, n - 1);
    }
}

/// A file in whose normalised name none of the stream's identifiers occurs is never scored,
/// whatever its dates and modification time.
pub proof fn law_no_identifier_no_score(
    r: Option<i64>,
    candidate: OutputCandidate,
    target: WatchTarget,
    job: RecordingJob,
)
    requires
        scored_as(r, candidate, target, job),
        forall|i: int|
            0 <= i < identifiers_of(target.name@, target.url@).len() ==> !contains_text(
                candidate.normalized_name@,
                #[trigger] identifiers_of(target.name@, target.url@)[i],
            ),
    ensures
        r is None,
{
    let ids = identifiers_of(target.name@, target.url@);
    lemma_best_match_absent(candidate.normalized_name@, ids, ids.len() as int);
}

/// How well `candidate` matches as the output of `job`, a recording of `target`: `None` unless
/// one of the stream's identifiers occurs in the file's name and either one of the recording's
/// dates occurs in it or the file was modified within an hour of the recording's end (see
/// `scored_as`).
pub fn legacy_candidate_score(
    candidate: &OutputCandidate,
    target: &WatchTarget,
    job: &RecordingJob,
) -> (r: Option<i64>)
    requires
        identifiers_within_bound(target.name@, target.url@),
    ensures
        scored_as(r, *candidate, *target, *job),
{
    let identifiers = target_identifiers(target);
    let ghost ids = identifiers_of(target.name@, target.url@);
    assert(texts(identifiers@) =~= ids);
    assert forall|i: int| 0 <= i < identifiers.len() implies utf8_len(
        #[trigger] identifiers@[i]@,
    ) <= max_identifier_len() by {
        assert(ids[i] == identifiers@[i]@);
    }
    let started = parse_job_time(job.started_at.as_str());
    let finished = match &job.finished_at {
        Some(f) => parse_job_time(f.as_str()),
        None => None,
    };
    let mut instants: Vec<Timestamp> = Vec::new();
    match started {
        Some(t) => instants.push(t),
        None => {},
    }
    match finished {
        Some(t) => instants.push(t),
        None => {},
    }
    let ghost inst = instants@.map_values(|t: Timestamp| (t.seconds, t.nanos));
    assert(inst =~= job_instants(*job));
    let mut dates: Vec<String> = Vec::new();
    let mut times: Vec<String> = Vec::new();
    let mut k: usize = 0;
    while k < instants.len()
        invariant
            k <= instants.len(),
            inst == instants@.map_values(|t: Timestamp| (t.seconds, t.nanos)),
            texts(dates@) == utc_date_tokens(inst.take(k as int)),
            texts(times@) == utc_tokens(inst.take(k as int), "%H%M"@),
        decreases instants.len() - k,
    {
        let t = instants[k];
        assert(inst.take(k + 1).drop_last() =~= inst.take(k as int));
        push_token(&mut dates, format_utc(t, "%Y%m%d"));
        push_token(&mut dates, format_utc(t, "%d%m%Y"));
        push_token(&mut dates, format_utc(t, "%m%d%Y"));
        push_token(&mut times, format_utc(t, "%H%M"));
        k = k + 1;
    }
    assert(inst.take(k as int) =~= inst);
    let ghost utc_dates = texts(dates@);
    let ghost utc_times = texts(times@);
    let ghost mut local_dates: Seq<Seq<char>> = Seq::empty();
    let ghost mut local_times: Seq<Seq<char>> = Seq::empty();
    assert(texts(dates@) =~= utc_dates + local_dates);
    assert(texts(times@) =~= utc_times + local_times);
    let mut k: usize = 0;
    while k < instants.len()
        invariant
            k <= instants.len(),
            inst == instants@.map_values(|t: Timestamp| (t.seconds, t.nanos)),
            texts(dates@) == utc_dates + local_dates,
            texts(times@) == utc_times + local_times,
            local_tokens_of(inst.take(k as int), local_dates, local_times),
        decreases instants.len() - k,
    {
        let t = instants[k];
        assert(inst.take(k + 1).drop_last() =~= inst.take(k as int));
        assert(inst.take(k + 1).last() == (t.seconds, t.nanos));
        match format_local(t) {
            Some(v) => {
                let ghost v_texts = texts(v@);
                let ghost d0 = local_dates;
                let ghost t0 = local_times;
                let ghost dates0 = dates@;
                let ghost times0 = times@;
                assert(v_texts.len() == 4);
                assert(v_texts[0] == v@[0]@ && v_texts[1] == v@[1]@ && v_texts[2] == v@[2]@
                    && v_texts[3] == v@[3]@);
                dates.push(v[0].clone());
                dates.push(v[1].clone());
                dates.push(v[2].clone());
                times.push(v[3].clone());
                proof {
                    local_dates = d0.push(v_texts[0]).push(v_texts[1]).push(v_texts[2]);
                    local_times = t0.push(v_texts[3]);
                    assert(texts(dates@) =~= texts(dates0).push(v_texts[0]).push(v_texts[1]).push(
                        v_texts[2],
                    ));
                    assert(texts(times@) =~= texts(times0).push(v_texts[3]));
                    assert(texts(dates@) =~= utc_dates + local_dates);
                    assert(texts(times@) =~= utc_times + local_times);
                    assert(local_dates.skip(local_dates.len() - 3).push(local_times.last())
                        =~= v_texts);
                    assert(local_dates.take(local_dates.len() - 3) =~= d0);
                    assert(local_times.drop_last() =~= t0);
                }
            },
            None => {},
        }
        k = k + 1;
    }
    assert(inst.take(k as int) =~= inst);
    let reference = match finished {
        Some(t) => Some(t),
        None => started,
    };
    let proximity = match (candidate.modified_at, reference) {
        (Some(m), Some(r)) => match whole_seconds_between(m, r) {
            Some(d) => Some(abs_seconds(d)),
            None => None,
        },
        _ => None,
    };
    let r = score_candidate(
        candidate.normalized_name.as_str(),
        &identifiers,
        &dates,
        &times,
        proximity,
    );
    assert(proximity == proximity_of(*candidate, *job));
    assert(match candidate_score(
        candidate.normalized_name@,
        ids,
        utc_date_tokens(job_instants(*job)) + local_dates,
        utc_tokens(job_instants(*job), "%H%M"@) + local_times,
        proximity_of(*candidate, *job),
    ) {
        Some(v) => r == Some(v as i64),
        None => r is None,
    });
    r
}

/// Whether every identifier of `target` is short enough for its scores to fit.
pub fn identifiers_fit(target: &WatchTarget) -> (r: bool)
    ensures
        r == identifiers_within_bound(target.name@, target.url@),
{
    let identifiers = target_identifiers(target);
    let ghost ids = identifiers_of(target.name@, target.url@);
    assert(texts(identifiers@) =~= ids);
    let mut i: usize = 0;
    while i < identifiers.len()
        invariant
            i <= identifiers.len(),
            ids == identifiers_of(target.name@, target.url@),
            texts(identifiers@) == ids,
            forall|k: int| 0 <= k < i ==> utf8_len(#[trigger] ids[k]) <= max_identifier_len(),
        decreases identifiers.len() - i,
    {
        assert(ids[i as int] == identifiers@[i as int]@);
        if utf8_len_capped(identifiers[i].as_str(), 0x7FFF_FFFF_FFFF_FFDD) > 0x7FFF_FFFF_FFFF_FFDC {
            return false;
        }
        i = i + 1;
    }
    true
}

/// How well `candidate` matches as the output of `job` (see `legacy_candidate_score`), where
/// every identifier of `target` is short enough for its scores to fit; `None` where one is not.
pub fn checked_candidate_score(
    candidate: &OutputCandidate,
    target: &WatchTarget,
    job: &RecordingJob,
) -> (r: Option<Option<i64>>)
    ensures
        r is None <==> !identifiers_within_bound(target.name@, target.url@),
        r matches Some(s) ==> scored_as(s, *candidate, *target, *job),
{
    if identifiers_fit(target) {
        Some(legacy_candidate_score(candidate, target, job))
    } else {
        None
    }
}

/// Among the first `n` remaining candidates, the position of the last one with the highest score.
pub open spec fn best_position(row: Seq<Option<i64>>, remaining: Seq<int>, n: int) -> Option<int>
    decreases n,
{
    if n <= 0 {
        None
    } else {
        let prev = best_position(row, remaining, n - 1);
        match row[remaining[n - 1]] {
            Some(s) => match prev {
                Some(p) => if s >= row[remaining[p]]->0 {
                    Some(n - 1)
                } else {
                    Some(p)
                },
                None => Some(n - 1),
            },
            None => prev,
        }
    }
}

/// `s` without its element at `p`, the last element taking its place (`Vec::swap_remove`).
pub open spec fn swap_removed(s: Seq<int>, p: int) -> Seq<int> {
    s.update(p, s.last()).drop_last()
}

/// The candidate chosen for each recording from the `j`-th on, given each recording's score of
/// each candidate and the candidates still free, in their current order; a chosen candidate is
/// no longer free.
pub open spec fn plan_from(rows: Seq<Seq<Option<i64>>>, remaining: Seq<int>, j: int) -> Seq<Option<int>>
    decreases rows.len() - j,
{
    if j < 0 || j >= rows.len() {
        Seq::empty()
    } else {
        match best_position(rows[j], remaining, remaining.len() as int) {
            Some(p) => seq![Some(remaining[p])] + plan_from(rows, swap_removed(remaining, p), j + 1),
            None => seq![None] + plan_from(rows, remaining, j + 1),
        }
    }
}

/// The scores as sequences.
pub open spec fn score_rows(scores: Seq<Vec<Option<i64>>>) -> Seq<Seq<Option<i64>>> {
    scores.map_values(|v: Vec<Option<i64>>| v@)
}

/// Candidate positions as mathematical integers.
pub open spec fn positions(v: Seq<usize>) -> Seq<int> {
    v.map_values(|x: usize| x as int)
}

/// Chosen positions as mathematical integers.
pub open spec fn choices(v: Seq<Option<usize>>) -> Seq<Option<int>> {
    v.map_values(
        |o: Option<usize>|
            match o {
                Some(x) => Some(x as int),
                None => None,
            },
    )
}

fn best_free_position(row: &Vec<Option<i64>>, remaining: &Vec<usize>) -> (r: Option<usize>)
    requires
        forall|k: int| 0 <= k < remaining.len() ==> #[trigger] remaining@[k] < row.len(),
    ensures
        match best_position(row@, positions(remaining@), remaining.len() as int) {
            Some(p) => r == Some(p as usize) && 0 <= p < remaining.len(),
            None => r is None,
        },
{
    let ghost rem = positions(remaining@);
    let mut best: Option<usize> = None;
    let mut best_score: i64 = 0;
    let mut n: usize = 0;
    while n < remaining.len()
        invariant
            n <= remaining.len(),
            rem == positions(remaining@),
            forall|k: int| 0 <= k < remaining.len() ==> #[trigger] remaining@[k] < row.len(),
            match best {
                Some(b) => best_position(row@, rem, n as int) == Some(b as int) && b < n && row@[rem[b as int]] == Some(best_score),
                None => best_position(row@, rem, n as int) is None,
            },
        decreases remaining.len() - n,
    {
        let c = remaining[n];
        assert(rem[n as int] == c as int);
        match row[c] {
            Some(s) => {
                let take = match best {
                    Some(_) => s >= best_score,
                    None => true,
                };
                if take {
                    best = Some(n);
                    best_score = s;
                }
            },
            None => {},
        }
        n = n + 1;
    }
    best
}

/// For each recording in turn, the candidate it claims: the last of the free candidates with its
/// highest score, which is then no longer free (it is swapped out as `Vec::swap_remove` does); no
/// candidate where it scores none.
pub fn plan_output_assignments(scores: &Vec<Vec<Option<i64>>>, candidate_count: usize) -> (r: Vec<
    Option<usize>,
>)
    requires
        forall|j: int| 0 <= j < scores.len() ==> (#[trigger] scores@[j]).len() == candidate_count,
    ensures
        choices(r@) == plan_from(
            score_rows(scores@),
            Seq::new(candidate_count as nat, |i: int| i),
            0,
        ),
{
    let ghost rows = score_rows(scores@);
    let mut remaining: Vec<usize> = Vec::new();
    let mut i: usize = 0;
    while i < candidate_count
        invariant
            i <= candidate_count,
            positions(remaining@) == Seq::new(i as nat, |k: int| k),
        decreases candidate_count - i,
    {
        let ghost before = remaining@;
        remaining.push(i);
        assert(positions(remaining@) =~= positions(before).push(i as int));
        assert(positions(remaining@) =~= Seq::new((i + 1) as nat, |k: int| k));
        i = i + 1;
    }
    let ghost initial = positions(remaining@);
    assert forall|k: int| 0 <= k < remaining.len() implies #[trigger] remaining@[k] < candidate_count by {
        assert(positions(remaining@)[k] == k);
    }
    let mut out: Vec<Option<usize>> = Vec::new();
    let mut j: usize = 0;
    while j < scores.len()
        invariant
            j <= scores.len(),
            rows == score_rows(scores@),
            forall|q: int| 0 <= q < scores.len() ==> (#[trigger] scores@[q]).len() == candidate_count,
            forall|k: int| 0 <= k < remaining.len() ==> #[trigger] remaining@[k] < candidate_count,
            choices(out@) + plan_from(rows, positions(remaining@), j as int) == plan_from(
                rows,
                initial,
                0,
            ),
        decreases scores.len() - j,
    {
        let row = &scores[j];
        assert(rows[j as int] == row@);
        let ghost rem = positions(remaining@);
        let ghost before = out@;
        match best_free_position(row, &remaining) {
            Some(p) => {
                let c = remaining.swap_remove(p);
                out.push(Some(c));
                assert(positions(remaining@) =~= swap_removed(rem, p as int));
                assert(choices(out@) =~= choices(before).push(Some(c as int)));
                assert(plan_from(rows, rem, j as int) == seq![Some(rem[p as int])] + plan_from(
                    rows,
                    swap_removed(rem, p as int),
                    j + 1,
                ));
                assert(choices(out@) + plan_from(rows, positions(remaining@), j + 1) =~= choices(
                    before,
                ) + plan_from(rows, rem, j as int));
                assert forall|k: int| 0 <= k < remaining.len() implies #[trigger] remaining@[k]
                    < candidate_count by {
                    assert(positions(remaining@)[k] == swap_removed(rem, p as int)[k]);
                }
            },
            None => {
                out.push(None);
                assert(choices(out@) =~= choices(before).push(None));
                assert(choices(out@) + plan_from(rows, positions(remaining@), j + 1) =~= choices(
                    before,
                ) + plan_from(rows, rem, j as int));
            },
        }
        j = j + 1;
    }
    assert(plan_from(rows, positions(remaining@), j as int) =~= Seq::empty());
    assert(choices(out@) =~= choices(out@) + Seq::<Option<int>>::empty());
    out
}

/// A completed recording whose output path is unknown or empty.
pub open spec fn awaits_output(state: Seq<char>, output_path: Option<String>) -> bool {
    &&& state == "Completed"@
    &&& match output_path {
        Some(p) => p@.len() == 0,
        None => true,
    }
}

/// The output path is `path`, compared as paths (see `same_path`).
pub open spec fn claims(output_path: Option<String>, path: Seq<char>) -> bool {
    output_path matches Some(p) && same_path(p@, path)
}

/// Some listed recording claims `path`.
pub open spec fn claimed_by(jobs: Seq<RecordingJob>, path: Seq<char>) -> bool {
    exists|k: int| 0 <= k < jobs.len() && claims(jobs[k].output_path, path)
}

/// Candidates that none of `jobs` claims.
pub open spec fn unclaimed_by(jobs: Seq<RecordingJob>) -> spec_fn(OutputCandidate) -> bool {
    |c: OutputCandidate| !claimed_by(jobs, c.path@)
}

/// The candidates that none of `jobs` claims, in order.
pub open spec fn unclaimed(candidates: Seq<OutputCandidate>, jobs: Seq<RecordingJob>) -> Seq<
    OutputCandidate,
> {
    candidates.filter(unclaimed_by(jobs))
}

/// Recordings that await their output file and whose stream is among `targets`.
pub open spec fn awaiting_in(targets: Seq<WatchTarget>) -> spec_fn(RecordingJob) -> bool {
    |j: RecordingJob| awaits_output(j.state@, j.output_path) && has_target(targets, j.target_id@)
}

/// The listed recordings that await their output file and whose stream exists, in order.
pub open spec fn awaiting(jobs: Seq<RecordingJob>, targets: Seq<WatchTarget>) -> Seq<RecordingJob> {
    jobs.filter(awaiting_in(targets))
}

/// A score that `checked_candidate_score` gives: as `scored_as` says where the stream's
/// identifiers fit, none where they do not.
pub open spec fn allowed_score(
    s: Option<i64>,
    candidate: OutputCandidate,
    target: WatchTarget,
    job: RecordingJob,
) -> bool {
    if identifiers_within_bound(target.name@, target.url@) {
        scored_as(s, candidate, target, job)
    } else {
        s is None
    }
}

/// `rows[q][c]` is the score of `free[c]` against the recording `eligible[q]` of its stream.
pub open spec fn scores_of(
    rows: Seq<Seq<Option<i64>>>,
    eligible: Seq<RecordingJob>,
    free: Seq<OutputCandidate>,
    targets: Seq<WatchTarget>,
) -> bool {
    &&& rows.len() == eligible.len()
    &&& forall|q: int| 0 <= q < rows.len() ==> (#[trigger] rows[q]).len() == free.len()
    &&& forall|q: int, c: int|
        0 <= q < rows.len() && 0 <= c < free.len() ==> allowed_score(
            #[trigger] rows[q][c],
            free[c],
            target_of(targets, eligible[q].target_id@),
            eligible[q],
        )
}

/// The choices that `plan_output_assignments` makes for `rows` over `n` candidates.
pub open spec fn output_plan(rows: Seq<Seq<Option<i64>>>, n: int) -> Seq<Option<int>> {
    plan_from(rows, Seq::new(n as nat, |i: int| i), 0)
}

/// The path that the first `n` choices of `plan` give the recording `id`: that of the candidate
/// chosen last for it.
pub open spec fn planned_path(
    eligible: Seq<RecordingJob>,
    free: Seq<OutputCandidate>,
    plan: Seq<Option<int>>,
    id: Seq<char>,
    n: int,
) -> Option<Seq<char>>
    decreases n,
{
    if n <= 0 {
        None
    } else {
        match plan[n - 1] {
            Some(c) => if 0 <= c < free.len() && eligible[n - 1].id@ == id {
                Some(free[c].path@)
            } else {
                planned_path(eligible, free, plan, id, n - 1)
            },
            None => planned_path(eligible, free, plan, id, n - 1),
        }
    }
}

/// The recording identifiers and paths that the first `n` choices of `plan` record, in order.
pub open spec fn planned_pairs(
    eligible: Seq<RecordingJob>,
    free: Seq<OutputCandidate>,
    plan: Seq<Option<int>>,
    n: int,
) -> Seq<(Seq<char>, Seq<char>)>
    decreases n,
{
    if n <= 0 {
        Seq::empty()
    } else {
        let prev = planned_pairs(eligible, free, plan, n - 1);
        match plan[n - 1] {
            Some(c) => if 0 <= c < free.len() {
                prev.push((eligible[n - 1].id@, free[c].path@))
            } else {
                prev
            },
            None => prev,
        }
    }
}

/// `n` is `o` with the output path `path` where one is given, and `o` itself otherwise.
pub open spec fn row_recovered(o: JobRecord, n: JobRecord, path: Option<Seq<char>>) -> bool {
    match path {
        Some(p) => n == JobRecord { output_path: n.output_path, ..o } && text_opt(n.output_path)
            == Some(p),
        None => n == o,
    }
}

/// `after` is `before` with the paths that the first `n` choices of `plan` give.
pub open spec fn recovered(
    before: Seq<JobRecord>,
    after: Seq<JobRecord>,
    eligible: Seq<RecordingJob>,
    free: Seq<OutputCandidate>,
    plan: Seq<Option<int>>,
    n: int,
) -> bool {
    &&& after.len() == before.len()
    &&& forall|k: int|
        0 <= k < before.len() ==> row_recovered(
            before[k],
            #[trigger] after[k],
            planned_path(eligible, free, plan, before[k].id@, n),
        )
}

/// The texts of identifier and path pairs.
pub open spec fn pair_texts(v: Seq<(String, String)>) -> Seq<(Seq<char>, Seq<char>)> {
    v.map_values(|p: (String, String)| (p.0@, p.1@))
}

fn path_claimed(jobs: &Vec<RecordingJob>, path: &str) -> (r: bool)
    ensures
        r == claimed_by(jobs@, path@),
{
    let mut k: usize = 0;
    while k < jobs.len()
        invariant
            k <= jobs.len(),
            forall|m: int| 0 <= m < k ==> !claims(#[trigger] jobs@[m].output_path, path@),
        decreases jobs.len() - k,
    {
        match &jobs[k].output_path {
            Some(p) => {
                if same_path_text(p.as_str(), path) {
                    assert(claims(jobs@[k as int].output_path, path@));
                    return true;
                }
            },
            None => {},
        }
        k = k + 1;
    }
    false
}

/// The candidates that none of `jobs` claims, in order.
fn unclaimed_candidates(candidates: &Vec<OutputCandidate>, jobs: &Vec<RecordingJob>) -> (r: Vec<
    OutputCandidate,
>)
    ensures
        r@ == unclaimed(candidates@, jobs@),
{
    let ghost p = unclaimed_by(jobs@);
    let mut free: Vec<OutputCandidate> = Vec::new();
    let mut i: usize = 0;
    while i < candidates.len()
        invariant
            i <= candidates.len(),
            p == unclaimed_by(jobs@),
            free@ == candidates@.take(i as int).filter(p),
        decreases candidates.len() - i,
    {
        proof {
            crate::sorting::lemma_filter_take_step(candidates@, p, i as int);
        }
        if !path_claimed(jobs, candidates[i].path.as_str()) {
            free.push(candidates[i].clone());
        }
        i = i + 1;
    }
    assert(candidates@.take(i as int) =~= candidates@);
    free
}

/// The recordings among `jobs` that await their output file and whose stream exists, and the
/// score of each of `free` against each of them.
fn score_awaiting(database: &Database, jobs: &Vec<RecordingJob>, free: &Vec<OutputCandidate>) -> (r: (
    Vec<RecordingJob>,
    Vec<Vec<Option<i64>>>,
))
    requires
        database.wf(),
    ensures
        r.0@ == awaiting(jobs@, database.target_rows()),
        scores_of(score_rows(r.1@), r.0@, free@, database.target_rows()),
{
    let ghost targets = database.target_rows();
    let ghost p = awaiting_in(targets);
    let mut eligible: Vec<RecordingJob> = Vec::new();
    let mut scores: Vec<Vec<Option<i64>>> = Vec::new();
    let mut e: usize = 0;
    while e < jobs.len()
        invariant
            e <= jobs.len(),
            database.wf(),
            targets == database.target_rows(),
            p == awaiting_in(targets),
            eligible@ == jobs@.take(e as int).filter(p),
            scores_of(score_rows(scores@), eligible@, free@, targets),
        decreases jobs.len() - e,
    {
        proof {
            crate::sorting::lemma_filter_take_step(jobs@, p, e as int);
        }
        let job = &jobs[e];
        let empty_path = match &job.output_path {
            Some(p) => p.as_str().is_empty(),
            None => true,
        };
        if same_text(job.state.as_str(), "Completed") && empty_path {
            match database.target(job.target_id.as_str()) {
                Some(target) => {
                    let mut row: Vec<Option<i64>> = Vec::new();
                    let mut c: usize = 0;
                    while c < free.len()
                        invariant
                            c <= free.len(),
                            row.len() == c,
                            forall|m: int|
                                0 <= m < c ==> allowed_score(
                                    #[trigger] row@[m],
                                    free@[m],
                                    target,
                                    *job,
                                ),
                        decreases free.len() - c,
                    {
                        let s = match checked_candidate_score(&free[c], &target, job) {
                            Some(s) => s,
                            None => None,
                        };
                        row.push(s);
                        c = c + 1;
                    }
                    let ghost old_rows = score_rows(scores@);
                    let ghost old_eligible = eligible@;
                    eligible.push(job.clone());
                    scores.push(row);
                    proof {
                        let rows = score_rows(scores@);
                        assert(rows =~= old_rows.push(row@));
                        assert forall|q: int, c: int|
                            0 <= q < rows.len() && 0 <= c < free@.len() implies allowed_score(
                            #[trigger] rows[q][c],
                            free@[c],
                            target_of(targets, eligible@[q].target_id@),
                            eligible@[q],
                        ) by {
                            if q < old_rows.len() {
                                assert(rows[q] == old_rows[q]);
                                assert(eligible@[q] == old_eligible[q]);
                            } else {
                                assert(rows[q] == row@);
                                assert(eligible@[q] == *job);
                            }
                        }
                    }
                },
                None => {},
            }
        }
        e = e + 1;
    }
    assert(jobs@.take(e as int) =~= jobs@);
    (eligible, scores)
}

/// Records for each recording `eligible[q]` the path of the candidate `free[plan[q]]` chosen
/// for it, for the recordings that both `eligible` and `plan` reach. Returns the pairs of
/// recording identifier and path recorded, in order.
pub fn apply_output_plan(
    database: &mut Database,
    eligible: &Vec<RecordingJob>,
    free: &Vec<OutputCandidate>,
    plan: &Vec<Option<usize>>,
) -> (r: Vec<(String, String)>)
    requires
        old(database).wf(),
    ensures
        final(database).wf(),
        recovered(
            old(database).job_rows(),
            final(database).job_rows(),
            eligible@,
            free@,
            choices(plan@),
            min_count(plan.len() as int, eligible.len() as int),
        ),
        pair_texts(r@) == planned_pairs(
            eligible@,
            free@,
            choices(plan@),
            min_count(plan.len() as int, eligible.len() as int),
        ),
        final(database).target_rows() == old(database).target_rows(),
        final(database).saved_settings() == old(database).saved_settings(),
        final(database).default_settings() == old(database).default_settings(),
{
    let ghost before = database.job_rows();
    let ghost cp = choices(plan@);
    let n = if plan.len() < eligible.len() {
        plan.len()
    } else {
        eligible.len()
    };
    let mut out: Vec<(String, String)> = Vec::new();
    let mut j: usize = 0;
    while j < n
        invariant
            j <= n,
            n as int == min_count(plan.len() as int, eligible.len() as int),
            database.wf(),
            cp == choices(plan@),
            before == old(database).job_rows(),
            database.target_rows() == old(database).target_rows(),
            database.saved_settings() == old(database).saved_settings(),
            database.default_settings() == old(database).default_settings(),
            recovered(before, database.job_rows(), eligible@, free@, cp, j as int),
            pair_texts(out@) == planned_pairs(eligible@, free@, cp, j as int),
        decreases n - j,
    {
        let ghost mid = database.job_rows();
        let ghost prev = out@;
        match plan[j] {
            Some(c) => {
                if c < free.len() {
                    let job = &eligible[j];
                    let path = free[c].path.clone();
                    database.set_job_output_path(job.id.as_str(), path.as_str());
                    proof {
                        assert(cp[j as int] == Some(c as int));
                        assert forall|k: int| 0 <= k < before.len() implies row_recovered(
                            before[k],
                            #[trigger] database.job_rows()[k],
                            planned_path(eligible@, free@, cp, before[k].id@, j + 1),
                        ) by {
                            assert(row_recovered(
                                before[k],
                                mid[k],
                                planned_path(eligible@, free@, cp, before[k].id@, j as int),
                            ));
                            assert(mid[k].id == before[k].id);
                        }
                    }
                    out.push((job.id.clone(), path));
                    proof {
                        assert(pair_texts(out@) =~= pair_texts(prev).push(
                            (eligible@[j as int].id@, free@[c as int].path@),
                        ));
                    }
                } else {
                    proof {
                        assert(cp[j as int] == Some(c as int));
                        assert forall|k: int| 0 <= k < before.len() implies row_recovered(
                            before[k],
                            #[trigger] database.job_rows()[k],
                            planned_path(eligible@, free@, cp, before[k].id@, j + 1),
                        ) by {
                            assert(row_recovered(
                                before[k],
                                mid[k],
                                planned_path(eligible@, free@, cp, before[k].id@, j as int),
                            ));
                        }
                    }
                }
            },
            None => {
                proof {
                    assert(cp[j as int] is None);
                    assert forall|k: int| 0 <= k < before.len() implies row_recovered(
                        before[k],
                        #[trigger] database.job_rows()[k],
                        planned_path(eligible@, free@, cp, before[k].id@, j + 1),
                    ) by {
                        assert(row_recovered(
                            before[k],
                            mid[k],
                            planned_path(eligible@, free@, cp, before[k].id@, j as int),
                        ));
                    }
                }
            },
        }
        j = j + 1;
    }
    out
}

/// A plan has one choice for each recording from the `j`-th on.
proof fn lemma_plan_len(rows: Seq<Seq<Option<i64>>>, remaining: Seq<int>, j: int)
    requires
        0 <= j <= rows.len(),
    ensures
        plan_from(rows, remaining, j).len() == rows.len() - j,
    decreases rows.len() - j,
{
    if j < rows.len() {
        match best_position(rows[j], remaining, remaining.len() as int) {
            Some(p) => lemma_plan_len(rows, swap_removed(remaining, p), j + 1),
            None => lemma_plan_len(rows, remaining, j + 1),
        }
    }
}

/// Gives the completed recordings among the latest 200 that lack an output path the video file
/// in `candidates` that matches each best, leaving out files that a listed recording already
/// claims. The history is listed as `list_jobs` lists it; each unclaimed file is scored against
/// each such recording of a stream that exists, as `checked_candidate_score` scores it; the
/// files are assigned as `plan_output_assignments` plans it. Returns the pairs of recording
/// identifier and path that were recorded.
pub fn reconcile_output_paths(database: &mut Database, candidates: &Vec<OutputCandidate>) -> (r: Vec<
    (String, String),
>)
    requires
        old(database).wf(),
    ensures
        final(database).wf(),
        final(database).target_rows() == old(database).target_rows(),
        final(database).saved_settings() == old(database).saved_settings(),
        final(database).default_settings() == old(database).default_settings(),
        exists|jobs: Seq<RecordingJob>, rows: Seq<Seq<Option<i64>>>|
            #![trigger latest_listing(jobs, old(database).target_rows(), old(database).job_rows(), 200), output_plan(rows, unclaimed(candidates@, jobs).len() as int)]
            {
                &&& latest_listing(jobs, old(database).target_rows(), old(database).job_rows(), 200)
                &&& scores_of(
                    rows,
                    awaiting(jobs, old(database).target_rows()),
                    unclaimed(candidates@, jobs),
                    old(database).target_rows(),
                )
                &&& recovered(
                    old(database).job_rows(),
                    final(database).job_rows(),
                    awaiting(jobs, old(database).target_rows()),
                    unclaimed(candidates@, jobs),
                    output_plan(rows, unclaimed(candidates@, jobs).len() as int),
                    awaiting(jobs, old(database).target_rows()).len() as int,
                )
                &&& pair_texts(r@) == planned_pairs(
                    awaiting(jobs, old(database).target_rows()),
                    unclaimed(candidates@, jobs),
                    output_plan(rows, unclaimed(candidates@, jobs).len() as int),
                    awaiting(jobs, old(database).target_rows()).len() as int,
                )
            },
{
    let jobs = database.list_jobs(200);
    let free = unclaimed_candidates(candidates, &jobs);
    let (eligible, scores) = score_awaiting(database, &jobs, &free);
    let ghost rows = score_rows(scores@);
    assert forall|q: int| 0 <= q < scores.len() implies (#[trigger] scores@[q]).len() == free.len() by {
        assert(rows[q] == scores@[q]@);
    }
    let plan = plan_output_assignments(&scores, free.len());
    proof {
        lemma_plan_len(rows, Seq::new(free.len() as nat, |i: int| i), 0);
        assert(choices(plan@) == output_plan(rows, free.len() as int));
        assert(plan@.len() == choices(plan@).len());
    }
    let r = apply_output_plan(database, &eligible, &free, &plan);
    proof {
        assert(min_count(plan.len() as int, eligible.len() as int) == eligible.len());
        assert(latest_listing(jobs@, old(database).target_rows(), old(database).job_rows(), 200));
    }
    r
}

/// A path that the plan gives a recording comes from a choice for a recording with its
/// identifier.
proof fn lemma_planned_path_source(
    eligible: Seq<RecordingJob>,
    free: Seq<OutputCandidate>,
    plan: Seq<Option<int>>,
    id: Seq<char>,
    n: int,
)
    ensures
        planned_path(eligible, free, plan, id, n) matches Some(p) ==> exists|q: int, c: int|
            0 <= q < n && plan[q] == Some(c) && 0 <= c < free.len() && #[trigger] eligible[q].id@
                == id && #[trigger] free[c].path@ == p,
    decreases n,
{
    if n > 0 {
        lemma_planned_path_source(eligible, free, plan, id, n - 1);
        match plan[n - 1] {
            Some(c) => {
                if 0 <= c < free.len() && eligible[n - 1].id@ == id {
                    assert(eligible[n - 1].id@ == id && free[c].path@ == free[c].path@);
                }
            },
            None => {},
        }
    }
}

/// A recording that the listing offers for recovery under the identifier of the stored row `k`
/// is that row, which therefore awaits its output file.
proof fn lemma_offered_row_awaits(
    targets: Seq<WatchTarget>,
    before: Seq<JobRecord>,
    jobs: Seq<RecordingJob>,
    limit: int,
    q: int,
    k: int,
)
    requires
        0 <= limit,
        keys_unique(targets, before),
        latest_listing(jobs, targets, before, limit),
        0 <= q < awaiting(jobs, targets).len(),
        0 <= k < before.len(),
        awaiting(jobs, targets)[q].id@ == before[k].id@,
    ensures
        awaits_output(before[k].state@, before[k].output_path),
{
    broadcast use {vstd::seq_lib::group_to_multiset_ensures, vstd::multiset::group_multiset_axioms};

    let full = choose|full: Seq<RecordingJob>|
        {
            &&& #[trigger] full.to_multiset() == joined_history(targets, before).to_multiset()
            &&& sorted_by(full, |j: RecordingJob| job_key(j), true)
            &&& jobs == full.take(min_count(limit, full.len() as int))
        };
    let x = awaiting(jobs, targets)[q];
    jobs.lemma_filter_pred(awaiting_in(targets), q);
    assert(jobs.filter(awaiting_in(targets)).contains(x));
    jobs.lemma_filter_contains_rev(awaiting_in(targets), x);
    let t = choose|t: int| 0 <= t < jobs.len() && jobs[t] == x;
    assert(jobs.len() == min_count(limit, full.len() as int));
    assert(jobs[t] == full[t]);
    assert(full.contains(x));
    assert(full.to_multiset().count(x) > 0);
    assert(joined_history(targets, before).to_multiset().count(x) > 0);
    assert(joined_history(targets, before).contains(x));
    lemma_joined_member(targets, before, x);
    let m = choose|m: int|
        0 <= m < before.len() && has_target(targets, before[m].target_id@) && x == join_row(
            #[trigger] before[m],
            target_of(targets, before[m].target_id@),
        );
    if m != k {
        if m < k {
            assert(before[m].id@ != before[k].id@);
        } else {
            assert(before[k].id@ != before[m].id@);
        }
    }
}

/// Each pair that the first `n` choices of `plan` record names one of the first `n` recordings.
proof fn lemma_planned_pair_source(
    eligible: Seq<RecordingJob>,
    free: Seq<OutputCandidate>,
    plan: Seq<Option<int>>,
    n: int,
)
    ensures
        forall|i: int|
            0 <= i < planned_pairs(eligible, free, plan, n).len() ==> exists|q: int|
                0 <= q < n && #[trigger] planned_pairs(eligible, free, plan, n)[i].0
                    == eligible[q].id@,
    decreases n,
{
    if n > 0 {
        lemma_planned_pair_source(eligible, free, plan, n - 1);
        let prev = planned_pairs(eligible, free, plan, n - 1);
        let cur = planned_pairs(eligible, free, plan, n);
        assert forall|i: int| 0 <= i < cur.len() implies exists|q: int|
            0 <= q < n && #[trigger] cur[i].0 == eligible[q].id@ by {
            if i < prev.len() {
                assert(cur[i] == prev[i]);
                let q = choose|q: int| 0 <= q < n - 1 && #[trigger] prev[i].0 == eligible[q].id@;
                assert(0 <= q < n && cur[i].0 == eligible[q].id@);
            } else {
                assert(cur[i].0 == eligible[n - 1].id@);
            }
        }
    }
}

/// Recovery only fills in the path of a completed recording that had none, and only with the
/// path of one of the candidate files; nothing else about any recording changes.
pub proof fn law_recovery_fills_only_missing_paths(
    targets: Seq<WatchTarget>,
    before: Seq<JobRecord>,
    after: Seq<JobRecord>,
    candidates: Seq<OutputCandidate>,
    jobs: Seq<RecordingJob>,
    rows: Seq<Seq<Option<i64>>>,
    limit: int,
)
    requires
        0 <= limit,
        keys_unique(targets, before),
        latest_listing(jobs, targets, before, limit),
        recovered(
            before,
            after,
            awaiting(jobs, targets),
            unclaimed(candidates, jobs),
            output_plan(rows, unclaimed(candidates, jobs).len() as int),
            awaiting(jobs, targets).len() as int,
        ),
    ensures
        after.len() == before.len(),
        forall|k: int|
            0 <= k < before.len() ==> #[trigger] after[k] == before[k] || {
                &&& awaits_output(before[k].state@, before[k].output_path)
                &&& after[k] == JobRecord { output_path: after[k].output_path, ..before[k] }
                &&& exists|i: int|
                    0 <= i < candidates.len() && text_opt(after[k].output_path) == Some(
                        #[trigger] candidates[i].path@,
                    )
            },
{
    let eligible = awaiting(jobs, targets);
    let free = unclaimed(candidates, jobs);
    let plan = output_plan(rows, free.len() as int);
    let n = eligible.len() as int;
    assert forall|k: int| 0 <= k < before.len() implies #[trigger] after[k] == before[k] || {
        &&& awaits_output(before[k].state@, before[k].output_path)
        &&& after[k] == JobRecord { output_path: after[k].output_path, ..before[k] }
        &&& exists|i: int|
            0 <= i < candidates.len() && text_opt(after[k].output_path) == Some(
                #[trigger] candidates[i].path@,
            )
    } by {
        let id = before[k].id@;
        assert(row_recovered(before[k], after[k], planned_path(eligible, free, plan, id, n)));
        lemma_planned_path_source(eligible, free, plan, id, n);
        if let Some(p) = planned_path(eligible, free, plan, id, n) {
            let (q, c) = choose|q: int, c: int|
                0 <= q < n && plan[q] == Some(c) && 0 <= c < free.len() && #[trigger] eligible[q].id@
                    == id && #[trigger] free[c].path@ == p;
            lemma_offered_row_awaits(targets, before, jobs, limit, q, k);
            candidates.lemma_filter_pred(unclaimed_by(jobs), c);
            assert(candidates.filter(unclaimed_by(jobs)).contains(free[c]));
            candidates.lemma_filter_contains_rev(unclaimed_by(jobs), free[c]);
            let i = choose|i: int| 0 <= i < candidates.len() && candidates[i] == free[c];
            assert(text_opt(after[k].output_path) == Some(candidates[i].path@));
        }
    }
}

/// Recovery leaves alone every recording that is not `Completed` or whose output path is already
/// a text that is not empty: its stored row is unchanged and no returned pair names it.
pub proof fn law_recovery_keeps_known_paths(
    targets: Seq<WatchTarget>,
    before: Seq<JobRecord>,
    after: Seq<JobRecord>,
    candidates: Seq<OutputCandidate>,
    jobs: Seq<RecordingJob>,
    rows: Seq<Seq<Option<i64>>>,
    limit: int,
    pairs: Seq<(Seq<char>, Seq<char>)>,
)
    requires
        0 <= limit,
        keys_unique(targets, before),
        latest_listing(jobs, targets, before, limit),
        recovered(
            before,
            after,
            awaiting(jobs, targets),
            unclaimed(candidates, jobs),
            output_plan(rows, unclaimed(candidates, jobs).len() as int),
            awaiting(jobs, targets).len() as int,
        ),
        pairs == planned_pairs(
            awaiting(jobs, targets),
            unclaimed(candidates, jobs),
            output_plan(rows, unclaimed(candidates, jobs).len() as int),
            awaiting(jobs, targets).len() as int,
        ),
    ensures
        after.len() == before.len(),
        forall|k: int|
            0 <= k < before.len() && (before[k].state@ != "Completed"@ || (
            before[k].output_path matches Some(p) && p@.len() > 0)) ==> {
                &&& #[trigger] after[k] == before[k]
                &&& forall|i: int| 0 <= i < pairs.len() ==> (#[trigger] pairs[i]).0 != before[k].id@
            },
{
    let eligible = awaiting(jobs, targets);
    let free = unclaimed(candidates, jobs);
    let plan = output_plan(rows, free.len() as int);
    let n = eligible.len() as int;
    lemma_planned_pair_source(eligible, free, plan, n);
    assert forall|k: int|
        0 <= k < before.len() && (before[k].state@ != "Completed"@ || (
        before[k].output_path matches Some(p) && p@.len() > 0)) implies {
        &&& #[trigger] after[k] == before[k]
        &&& forall|i: int| 0 <= i < pairs.len() ==> (#[trigger] pairs[i]).0 != before[k].id@
    } by {
        let id = before[k].id@;
        assert(!awaits_output(before[k].state@, before[k].output_path));
        assert(row_recovered(before[k], after[k], planned_path(eligible, free, plan, id, n)));
        lemma_planned_path_source(eligible, free, plan, id, n);
        if let Some(p) = planned_path(eligible, free, plan, id, n) {
            let (q, c) = choose|q: int, c: int|
                0 <= q < n && plan[q] == Some(c) && 0 <= c < free.len() && #[trigger] eligible[q].id@
                    == id && #[trigger] free[c].path@ == p;
            lemma_offered_row_awaits(targets, before, jobs, limit, q, k);
        }
        assert forall|i: int| 0 <= i < pairs.len() implies (#[trigger] pairs[i]).0 != id by {
            if pairs[i].0 == id {
                let q = choose|q: int| 0 <= q < n && #[trigger] pairs[i].0 == eligible[q].id@;
                lemma_offered_row_awaits(targets, before, jobs, limit, q, k);
            }
        }
    }
}

/// No two elements are equal.
pub open spec fn distinct_positions(s: Seq<int>) -> bool {
    forall|a: int, b: int| 0 <= a < b < s.len() ==> s[a] != s[b]
}

proof fn lemma_best_position_in_range(row: Seq<Option<i64>>, remaining: Seq<int>, n: int)
    ensures
        best_position(row, remaining, n) matches Some(p) ==> 0 <= p < n,
    decreases n,
{
    if n > 0 {
        lemma_best_position_in_range(row, remaining, n - 1);
    }
}

proof fn lemma_swap_removed(s: Seq<int>, p: int)
    requires
        distinct_positions(s),
        0 <= p < s.len(),
    ensures
        distinct_positions(swap_removed(s, p)),
        swap_removed(s, p).len() == s.len() - 1,
        forall|c: int| #[trigger] swap_removed(s, p).contains(c) ==> s.contains(c) && c != s[p],
{
    let t = swap_removed(s, p);
    let last = s.len() - 1;
    assert forall|k: int| 0 <= k < t.len() implies #[trigger] t[k] == if k == p {
        s[last]
    } else {
        s[k]
    } by {}
    assert forall|a: int, b: int| 0 <= a < b < t.len() implies t[a] != t[b] by {
        if a == p {
            assert(t[a] == s[last] && t[b] == s[b]);
        } else if b == p {
            assert(t[a] == s[a] && t[b] == s[last]);
        } else {
            assert(t[a] == s[a] && t[b] == s[b]);
        }
    }
    assert forall|c: int| #[trigger] t.contains(c) implies s.contains(c) && c != s[p] by {
        let k = choose|k: int| 0 <= k < t.len() && t[k] == c;
        if k == p {
            assert(s[last] == c);
            assert(last != p);
        } else {
            assert(s[k] == c);
        }
    }
}

/// No candidate is claimed by two recordings, and each claimed one was free.
pub proof fn law_plan_claims_each_candidate_once(
    rows: Seq<Seq<Option<i64>>>,
    remaining: Seq<int>,
    j: int,
)
    requires
        distinct_positions(remaining),
    ensures
        forall|a: int, b: int|
            0 <= a < b < plan_from(rows, remaining, j).len() && plan_from(rows, remaining, j)[a]
                is Some ==> #[trigger] plan_from(rows, remaining, j)[a] != #[trigger] plan_from(
                rows,
                remaining,
                j,
            )[b],
        forall|a: int|
            0 <= a < plan_from(rows, remaining, j).len() ==> (#[trigger] plan_from(
                rows,
                remaining,
                j,
            )[a] matches Some(c) ==> remaining.contains(c)),
    decreases rows.len() - j,
{
    if j < 0 || j >= rows.len() {
    } else {
        let plan = plan_from(rows, remaining, j);
        lemma_best_position_in_range(rows[j], remaining, remaining.len() as int);
        match best_position(rows[j], remaining, remaining.len() as int) {
            Some(p) => {
                let rest_rem = swap_removed(remaining, p);
                lemma_swap_removed(remaining, p);
                law_plan_claims_each_candidate_once(rows, rest_rem, j + 1);
                let rest = plan_from(rows, rest_rem, j + 1);
                assert(plan == seq![Some(remaining[p])] + rest);
                assert forall|a: int| 0 <= a < plan.len() implies (#[trigger] plan[a] matches Some(c)
                    ==> remaining.contains(c)) by {
                    if a > 0 {
                        assert(plan[a] == rest[a - 1]);
                    }
                }
                assert forall|a: int, b: int|
                    0 <= a < b < plan.len() && plan[a] is Some implies #[trigger] plan[a]
                    != #[trigger] plan[b] by {
                    if a == 0 {
                        assert(plan[b] == rest[b - 1]);
                        if rest[b - 1] is Some {
                            assert(rest_rem.contains(rest[b - 1]->0));
                        }
                    } else {
                        assert(plan[a] == rest[a - 1] && plan[b] == rest[b - 1]);
                    }
                }
            },
            None => {
                law_plan_claims_each_candidate_once(rows, remaining, j + 1);
                let rest = plan_from(rows, remaining, j + 1);
                assert(plan == seq![None] + rest);
                assert forall|a: int| 0 <= a < plan.len() implies (#[trigger] plan[a] matches Some(c)
                    ==> remaining.contains(c)) by {
                    if a > 0 {
                        assert(plan[a] == rest[a - 1]);
                    }
                }
                assert forall|a: int, b: int|
                    0 <= a < b < plan.len() && plan[a] is Some implies #[trigger] plan[a]
                    != #[trigger] plan[b] by {
                    assert(plan[a] == rest[a - 1] && plan[b] == rest[b - 1]);
                }
            },
        }
    }
}

} // verus!
