//! HLS playlist text: line and attribute splitting, tag detection, target
//! duration, variant bandwidths, and the choice of the lowest-bitrate
//! rendition. Fetching playlists is left to the caller.
use vstd::prelude::*;
use crate::text::{chars_of, string_from_chars, trim, trim_chars};

verus! {

// ---------------------------------------------------------------------------
// Text primitives
// ---------------------------------------------------------------------------

/// `p` occurs in `s` at `i`.
pub open spec fn occurs_at(s: Seq<char>, p: Seq<char>, i: int) -> bool {
    0 <= i && i + p.len() <= s.len() && s.subrange(i, i + p.len()) == p
}

/// `s` starts with `p`.
pub open spec fn has_prefix(s: Seq<char>, p: Seq<char>) -> bool {
    occurs_at(s, p, 0)
}

/// `p` occurs somewhere in `s`.
pub open spec fn holds_text(s: Seq<char>, p: Seq<char>) -> bool {
    exists|i: int| #[trigger] occurs_at(s, p, i)
}

/// The first position at or after `i` that holds `c`, or `s.len()`.
pub open spec fn next_char(s: Seq<char>, c: char, i: int) -> int
    decreases s.len() - i,
{
    if i >= s.len() {
        s.len() as int
    } else if s[i] == c {
        i
    } else {
        next_char(s, c, i + 1)
    }
}

pub proof fn lemma_next_char(s: Seq<char>, c: char, i: int)
    requires
        0 <= i <= s.len(),
    ensures
        i <= next_char(s, c, i) <= s.len(),
        next_char(s, c, i) < s.len() ==> s[next_char(s, c, i)] == c,
        forall|j: int| i <= j < next_char(s, c, i) ==> s[j] != c,
    decreases s.len() - i,
{
    if i < s.len() && s[i] != c {
        lemma_next_char(s, c, i + 1);
    }
}

/// The line that starts at `i`: up to the next `\n`, without the `\r` of a
/// `\r\n` ending.
pub open spec fn line_at(s: Seq<char>, i: int) -> Seq<char> {
    let j = next_char(s, '\n', i);
    if j < s.len() && j > i && s[j - 1] == '\r' {
        s.subrange(i, j - 1)
    } else {
        s.subrange(i, j)
    }
}

/// The lines of `s` from position `i` on; a final line ending is optional.
pub open spec fn lines_from(s: Seq<char>, i: int) -> Seq<Seq<char>>
    decreases s.len() + 1 - i,
    via lines_from_decreases
{
    if i < 0 || i >= s.len() {
        seq![]
    } else {
        seq![line_at(s, i)] + lines_from(s, next_char(s, '\n', i) + 1)
    }
}

#[via_fn]
proof fn lines_from_decreases(s: Seq<char>, i: int) {
    if 0 <= i && i < s.len() {
        lemma_next_char(s, '\n', i);
    }
}

/// The lines of a text.
pub open spec fn text_lines(s: Seq<char>) -> Seq<Seq<char>> {
    lines_from(s, 0)
}

/// The value of a run of decimal digits.
pub open spec fn digits_value(s: Seq<char>) -> int
    decreases s.len(),
{
    if s.len() == 0 {
        0
    } else {
        digits_value(s.drop_last()) * 10 + match digit_value(s.last()) {
            Some(v) => v as int,
            None => 0,
        }
    }
}

/// The value of a decimal digit.
pub open spec fn digit_value(c: char) -> Option<u32> {
    match c {
        '0' => Some(0u32),
        '1' => Some(1u32),
        '2' => Some(2u32),
        '3' => Some(3u32),
        '4' => Some(4u32),
        '5' => Some(5u32),
        '6' => Some(6u32),
        '7' => Some(7u32),
        '8' => Some(8u32),
        '9' => Some(9u32),
        _ => None,
    }
}

pub open spec fn is_digit(c: char) -> bool {
    digit_value(c).is_some()
}

fn digit_of(c: char) -> (r: Option<u32>)
    ensures
        r == digit_value(c),
{
    match c {
        '0' => Some(0),
        '1' => Some(1),
        '2' => Some(2),
        '3' => Some(3),
        '4' => Some(4),
        '5' => Some(5),
        '6' => Some(6),
        '7' => Some(7),
        '8' => Some(8),
        '9' => Some(9),
        _ => None,
    }
}

/// `s` without the `+` sign that may lead it.
pub open spec fn unsigned_part(s: Seq<char>) -> Seq<char> {
    if s.len() > 0 && s[0] == '+' {
        s.drop_first()
    } else {
        s
    }
}

/// Every character of `d` is a decimal digit.
pub open spec fn all_digits(d: Seq<char>) -> bool {
    forall|k: int| 0 <= k < d.len() ==> is_digit(#[trigger] d[k])
}

/// `s` as a `u32` in the syntax of `u32::from_str`: an optional `+`, then
/// one or more decimal digits, of a value that fits.
pub open spec fn decimal_u32(s: Seq<char>) -> Option<u32> {
    let d = unsigned_part(s);
    if d.len() > 0 && all_digits(d) && digits_value(d) <= u32::MAX {
        Some(digits_value(d) as u32)
    } else {
        None
    }
}

proof fn lemma_digits_value_grows(s: Seq<char>, n: int)
    requires
        0 <= n <= s.len(),
        all_digits(s),
    ensures
        digits_value(s.subrange(0, n)) <= digits_value(s),
        0 <= digits_value(s.subrange(0, n)),
    decreases s.len(),
{
    if n < s.len() {
        assert(s.drop_last() =~= s.subrange(0, s.len() - 1));
        assert(s.drop_last().subrange(0, n) =~= s.subrange(0, n));
        lemma_digits_value_grows(s.drop_last(), n);
    } else {
        assert(s.subrange(0, n) =~= s);
        if s.len() > 0 {
            lemma_digits_value_grows(s.drop_last(), s.len() - 1);
            assert(s.drop_last().subrange(0, s.len() - 1) =~= s.drop_last());
        }
    }
}

/// Whether `p` occurs in `s` at `i`.
pub fn matches_at(s: &Vec<char>, i: usize, p: &Vec<char>) -> (r: bool)
    ensures
        r == occurs_at(s@, p@, i as int),
{
    if i > s.len() || p.len() > s.len() - i {
        return false;
    }
    let mut k: usize = 0;
    while k < p.len()
        invariant
            k <= p.len(),
            i + p.len() <= s.len(),
            s@.subrange(i as int, i + k) == p@.subrange(0, k as int),
        decreases p.len() - k,
    {
        if s[i + k] != p[k] {
            assert(s@.subrange(i as int, i + p.len())[k as int] != p@[k as int]);
            return false;
        }
        assert(s@.subrange(i as int, i + k + 1) =~= s@.subrange(i as int, i + k).push(s@[i + k]));
        assert(p@.subrange(0, k + 1) =~= p@.subrange(0, k as int).push(p@[k as int]));
        k = k + 1;
    }
    assert(p@.subrange(0, p.len() as int) =~= p@);
    true
}

/// Whether `p` occurs anywhere in `s`.
pub fn contains_text(s: &Vec<char>, p: &Vec<char>) -> (r: bool)
    ensures
        r == holds_text(s@, p@),
{
    if p.len() == 0 {
        assert(s@.subrange(0, 0) =~= p@);
        assert(occurs_at(s@, p@, 0));
        return true;
    }
    let mut i: usize = 0;
    while i < s.len()
        invariant
            p.len() >= 1,
            forall|j: int| 0 <= j < i ==> !occurs_at(s@, p@, j),
        decreases s.len() - i,
    {
        if matches_at(s, i, p) {
            return true;
        }
        i = i + 1;
    }
    assert forall|j: int| !(#[trigger] occurs_at(s@, p@, j)) by {
        if 0 <= j && j < i {
        } else if j >= i {
            assert(j + p@.len() > s@.len());
        }
    }
    false
}

/// The first position at or after `i` that holds `c`, or `s.len()`.
pub fn find_char(s: &Vec<char>, c: char, i: usize) -> (r: usize)
    requires
        i <= s.len(),
    ensures
        r == next_char(s@, c, i as int),
{
    let mut j: usize = i;
    while j < s.len() && s[j] != c
        invariant
            i <= j <= s.len(),
            next_char(s@, c, i as int) == next_char(s@, c, j as int),
        decreases s.len() - j,
    {
        j = j + 1;
    }
    j
}

/// The line that starts at `i`, and the position after its line ending.
fn line_from(s: &Vec<char>, i: usize) -> (r: (Vec<char>, usize))
    requires
        i < s.len(),
    ensures
        r.0@ == line_at(s@, i as int),
        lines_from(s@, r.1 as int) == lines_from(s@, next_char(s@, '\n', i as int) + 1),
        i < r.1 <= s.len(),
{
    proof {
        lemma_next_char(s@, '\n', i as int);
    }
    let j = find_char(s, '\n', i);
    let end: usize = if j < s.len() && j > i && s[j - 1] == '\r' {
        j - 1
    } else {
        j
    };
    let next: usize = if j < s.len() {
        j + 1
    } else {
        j
    };
    (crate::text::copy_range(s, i, end), next)
}

/// The lines of a text.
pub fn split_lines(s: &Vec<char>) -> (r: Vec<Vec<char>>)
    ensures
        r@.map_values(|l: Vec<char>| l@) == text_lines(s@),
{
    let mut lines: Vec<Vec<char>> = Vec::new();
    let mut i: usize = 0;
    while i < s.len()
        invariant
            i <= s.len(),
            text_lines(s@) == lines@.map_values(|l: Vec<char>| l@) + lines_from(s@, i as int),
        decreases s.len() + 1 - i,
    {
        let ghost before = lines@.map_values(|l: Vec<char>| l@);
        let (line, next) = line_from(s, i);
        lines.push(line);
        assert(lines@.map_values(|l: Vec<char>| l@) =~= before.push(line_at(s@, i as int)));
        assert(lines_from(s@, i as int) == seq![line_at(s@, i as int)] + lines_from(
            s@,
            next as int,
        ));
        assert(before.push(line_at(s@, i as int)) + lines_from(s@, next as int) =~= before
            + lines_from(s@, i as int));
        i = next;
    }
    assert(lines@.map_values(|l: Vec<char>| l@) + lines_from(s@, i as int) =~= lines@.map_values(
        |l: Vec<char>| l@,
    ));
    lines
}

/// `s` parsed as a `u32`, in the syntax of `u32::from_str`.
pub fn parse_u32(s: &Vec<char>) -> (r: Option<u32>)
    ensures
        r == decimal_u32(s@),
{
    let start: usize = if s.len() > 0 && s[0] == '+' {
        1
    } else {
        0
    };
    let ghost d = s@.subrange(start as int, s.len() as int);
    assert(d =~= unsigned_part(s@));
    if start == s.len() {
        return None;
    }
    let mut value: u64 = 0;
    let mut i: usize = start;
    while i < s.len()
        invariant
            start <= i <= s.len(),
            d == s@.subrange(start as int, s.len() as int),
            d == unsigned_part(s@),
            forall|k: int| 0 <= k < i - start ==> is_digit(#[trigger] d[k]),
            value == digits_value(d.subrange(0, i - start)),
            value <= u32::MAX,
        decreases s.len() - i,
    {
        let c = s[i];
        assert(d[i - start] == c);
        let digit: u64 = match digit_of(c) {
            Some(v) => v as u64,
            None => {
                assert(!is_digit(d[i - start]));
                assert(!all_digits(d));
                return None;
            },
        };
        assert(d.subrange(0, i - start + 1).drop_last() =~= d.subrange(0, i - start as int));
        assert(d.subrange(0, i - start + 1).last() == c);
        value = value * 10 + digit;
        assert(value == digits_value(d.subrange(0, i - start + 1)));
        if value > 0xFFFF_FFFF {
            proof {
                if all_digits(d) {
                    lemma_digits_value_grows(d, i - start + 1);
                    assert(digits_value(d) > u32::MAX);
                }
            }
            return None;
        }
        i = i + 1;
    }
    assert(d.subrange(0, d.len() as int) =~= d);
    Some(value as u32)
}

// ---------------------------------------------------------------------------
// Playlist tags
// ---------------------------------------------------------------------------

pub const STREAM_INF_TAG: &'static str = "#EXT-X-STREAM-INF:";

pub const TARGET_DURATION_TAG: &'static str = "#EXT-X-TARGETDURATION:";

pub const VOD_TYPE_TAG: &'static str = "#EXT-X-PLAYLIST-TYPE:VOD";

pub const END_LIST_TAG: &'static str = "#EXT-X-ENDLIST";

pub const BANDWIDTH_ATTR: &'static str = "BANDWIDTH=";

/// A master playlist lists variant streams.
pub open spec fn is_master(content: Seq<char>) -> bool {
    holds_text(content, STREAM_INF_TAG@)
}

/// The playlist declares itself complete: of type VOD, or with an end tag.
pub open spec fn is_complete(content: Seq<char>) -> bool {
    holds_text(content, VOD_TYPE_TAG@) || holds_text(content, END_LIST_TAG@)
}

/// The target duration that one line declares: the text after the tag, up
/// to any further `:`, as a `u32`.
pub open spec fn target_of_line(l: Seq<char>) -> Option<u32> {
    let k = TARGET_DURATION_TAG@.len() as int;
    if has_prefix(l, TARGET_DURATION_TAG@) {
        decimal_u32(l.subrange(k, next_char(l, ':', k)))
    } else {
        None
    }
}

/// The first target duration declared by the lines.
pub open spec fn first_target(ls: Seq<Seq<char>>) -> Option<u32>
    decreases ls.len(),
{
    if ls.len() == 0 {
        None
    } else {
        match target_of_line(ls[0]) {
            Some(v) => Some(v),
            None => first_target(ls.drop_first()),
        }
    }
}

/// The bandwidth that one trimmed attribute gives: `BANDWIDTH=n`, also
/// right after the stream-info tag.
pub open spec fn attr_bandwidth(a: Seq<char>) -> Option<u32> {
    let bw = BANDWIDTH_ATTR@;
    let tag = STREAM_INF_TAG@;
    if has_prefix(a, bw) {
        decimal_u32(a.subrange(bw.len() as int, a.len() as int))
    } else if has_prefix(a, tag) {
        let rest = a.subrange(tag.len() as int, a.len() as int);
        if has_prefix(rest, bw) {
            decimal_u32(rest.subrange(bw.len() as int, rest.len() as int))
        } else {
            None
        }
    } else {
        None
    }
}

/// The first bandwidth among the comma-separated attributes of `s` from
/// position `i` on.
pub open spec fn bandwidth_from(s: Seq<char>, i: int) -> Option<u32>
    decreases s.len() + 1 - i,
    via bandwidth_from_decreases
{
    if i < 0 || i > s.len() {
        None
    } else {
        let j = next_char(s, ',', i);
        match attr_bandwidth(trim(s.subrange(i, j))) {
            Some(v) => Some(v),
            None => bandwidth_from(s, j + 1),
        }
    }
}

#[via_fn]
proof fn bandwidth_from_decreases(s: Seq<char>, i: int) {
    if 0 <= i && i <= s.len() {
        lemma_next_char(s, ',', i);
    }
}

/// Reading a master playlist line by line: the variants so far, as
/// (reference, bandwidth), and the bandwidth of a stream-info tag that waits
/// for its URI line.
pub open spec fn master_step(st: (Seq<(Seq<char>, u32)>, Option<u32>), line: Seq<char>) -> (
    Seq<(Seq<char>, u32)>,
    Option<u32>,
) {
    let t = trim(line);
    if has_prefix(t, STREAM_INF_TAG@) {
        (st.0, bandwidth_from(t, 0))
    } else if t.len() > 0 && t[0] != '#' {
        match st.1 {
            Some(bw) => (st.0.push((t, bw)), None),
            None => st,
        }
    } else {
        st
    }
}

pub open spec fn master_scan(ls: Seq<Seq<char>>) -> (Seq<(Seq<char>, u32)>, Option<u32>)
    decreases ls.len(),
{
    if ls.len() == 0 {
        (seq![], None)
    } else {
        master_step(master_scan(ls.drop_last()), ls.last())
    }
}

/// The variant streams of a master playlist, in playlist order.
pub open spec fn master_variants(content: Seq<char>) -> Seq<(Seq<char>, u32)> {
    master_scan(text_lines(content)).0
}

/// The segment references of a media playlist: its trimmed lines that are
/// neither empty nor comments or tags.
pub open spec fn media_refs(ls: Seq<Seq<char>>) -> Seq<Seq<char>>
    decreases ls.len(),
{
    if ls.len() == 0 {
        seq![]
    } else {
        let t = trim(ls.last());
        if t.len() > 0 && t[0] != '#' {
            media_refs(ls.drop_last()).push(t)
        } else {
            media_refs(ls.drop_last())
        }
    }
}

/// An absolute `http` or `https` reference, used as it stands.
pub open spec fn is_absolute(r: Seq<char>) -> bool {
    has_prefix(r, "http://"@) || has_prefix(r, "https://"@)
}

/// The index of the first variant of least bandwidth among the first `n`.
pub open spec fn lowest_upto(vs: Seq<u32>, n: int) -> int
    decreases n,
{
    if n <= 1 {
        0
    } else {
        let b = lowest_upto(vs, n - 1);
        if vs[n - 1] < vs[b] {
            n - 1
        } else {
            b
        }
    }
}

/// The index of the first variant of least bandwidth.
pub open spec fn lowest_index(vs: Seq<u32>) -> int {
    lowest_upto(vs, vs.len() as int)
}

proof fn lemma_lowest_upto(vs: Seq<u32>, n: int)
    requires
        1 <= n <= vs.len(),
    ensures
        0 <= lowest_upto(vs, n) < n,
        forall|j: int| 0 <= j < n ==> vs[lowest_upto(vs, n)] <= #[trigger] vs[j],
        forall|j: int| 0 <= j < lowest_upto(vs, n) ==> #[trigger] vs[j] > vs[lowest_upto(vs, n)],
    decreases n,
{
    if n > 1 {
        lemma_lowest_upto(vs, n - 1);
    }
}

// ---------------------------------------------------------------------------
// Errors and results
// ---------------------------------------------------------------------------

#[derive(Debug, Clone, Copy, PartialEq, Eq, Structural)]
pub enum HlsError {
    /// A reference could not be resolved against the playlist URL.
    InvalidUrl,
    /// A master playlist lists no variant stream.
    NoMediaPlaylists,
    /// The playlist is neither complete, nor live, nor a master playlist
    /// with a variant.
    UnknownPlaylistType,
}

#[derive(Debug, Clone, Copy, PartialEq, Eq, Structural)]
pub enum PlaylistType {
    Live { target_duration: u32 },
    Vod,
}

/// One variant stream of a master playlist.
#[derive(Debug, Clone)]
pub struct MediaPlaylist {
    pub uri: String,
    pub bandwidth: u32,
}

/// What a playlist's text decides about its type: known, or to be read
/// from the lowest-bitrate variant at the given URL.
#[derive(Debug)]
pub enum PlaylistStep {
    Known(PlaylistType),
    Follow(String),
}

/// What a playlist's text gives for segments: their URLs, or the URL of the
/// lowest-bitrate variant to read them from.
#[derive(Debug)]
pub enum SegmentsStep {
    Segments(Vec<String>),
    Follow(String),
}

// ---------------------------------------------------------------------------
// URL resolution, through the url crate
// ---------------------------------------------------------------------------

/// What the url crate makes of `reference` resolved against `base`: the
/// serialization of `Url::parse(base)` joined with `reference`, or `None`
/// where either step fails. It depends on the two strings alone.
pub uninterp spec fn url_join(base: Seq<char>, reference: Seq<char>) -> Option<Seq<char>>;

/// Relies on `url::Url::join`, with `base` parsed by `url::Url::parse` and
/// the result serialized by `From<url::Url> for String`: the URL that
/// `reference` resolves to, or `None` where the url crate reports an error.
#[verifier::external_body]
fn join_reference(base: &str, reference: &str) -> (r: Option<String>)
    ensures
        r is None <==> url_join(base@, reference@) is None,
        r matches Some(s) ==> url_join(base@, reference@) == Some(s@),
{
    match url::Url::parse(base) {
        Ok(b) => match b.join(reference) {
            Ok(u) => Some(String::from(u)),
            Err(_) => None,
        },
        Err(_) => None,
    }
}

/// The absolute URL of a playlist reference: an `http` or `https`
/// reference as it stands, any other resolved against the playlist's URL.
pub open spec fn resolution(base: Seq<char>, reference: Seq<char>) -> Option<Seq<char>> {
    if is_absolute(reference) {
        Some(reference)
    } else {
        url_join(base, reference)
    }
}

/// A reference from a playlist as an absolute URL: an `http` or `https`
/// reference as it stands, any other resolved against the playlist's URL.
pub fn resolve_url(base_url: &str, relative_url: &str) -> (r: Result<String, HlsError>)
    ensures
        r is Ok <==> resolution(base_url@, relative_url@) is Some,
        r matches Ok(s) ==> resolution(base_url@, relative_url@) == Some(s@),
        r matches Err(e) ==> e == HlsError::InvalidUrl,
{
    let chars = chars_of(relative_url);
    if matches_at(&chars, 0, &chars_of("http://")) || matches_at(&chars, 0, &chars_of("https://")) {
        return Ok(relative_url.to_owned());
    }
    match join_reference(base_url, relative_url) {
        Some(u) => Ok(u),
        None => Err(HlsError::InvalidUrl),
    }
}

/// `uri` is what `reference` resolves to against `base`.
pub open spec fn resolved_as(base: Seq<char>, uri: Seq<char>, reference: Seq<char>) -> bool {
    resolution(base, reference) == Some(uri)
}

/// Some reference does not resolve against `base`.
pub open spec fn unresolvable(base: Seq<char>, refs: Seq<Seq<char>>) -> bool {
    exists|k: int| 0 <= k < refs.len() && (#[trigger] resolution(base, refs[k])) is None
}

pub open spec fn variant_refs(vars: Seq<(Seq<char>, u32)>) -> Seq<Seq<char>> {
    vars.map_values(|e: (Seq<char>, u32)| e.0)
}

pub open spec fn variant_bandwidths(vars: Seq<(Seq<char>, u32)>) -> Seq<u32> {
    vars.map_values(|e: (Seq<char>, u32)| e.1)
}

/// The reference of the first variant of least bandwidth.
pub open spec fn lowest_variant_ref(content: Seq<char>) -> Seq<char> {
    let vars = master_variants(content);
    vars[lowest_index(variant_bandwidths(vars))].0
}

/// Whether the text holds the stream-info tag of a master playlist.
pub fn is_master_playlist(content: &str) -> (r: bool)
    ensures
        r == is_master(content@),
{
    contains_text(&chars_of(content), &chars_of(STREAM_INF_TAG))
}

fn target_of(l: &Vec<char>) -> (r: Option<u32>)
    ensures
        r == target_of_line(l@),
{
    let tag = chars_of(TARGET_DURATION_TAG);
    if !matches_at(l, 0, &tag) {
        return None;
    }
    let k = tag.len();
    proof {
        lemma_next_char(l@, ':', k as int);
    }
    let j = find_char(l, ':', k);
    parse_u32(&crate::text::copy_range(l, k, j))
}

/// The first target duration that the playlist declares.
pub fn extract_target_duration(content: &str) -> (r: Option<u32>)
    ensures
        r == first_target(text_lines(content@)),
{
    let lines = split_lines(&chars_of(content));
    let ghost ls = lines@.map_values(|l: Vec<char>| l@);
    let mut k: usize = 0;
    assert(ls.subrange(0, ls.len() as int) =~= ls);
    while k < lines.len()
        invariant
            k <= lines.len(),
            ls == lines@.map_values(|l: Vec<char>| l@),
            ls == text_lines(content@),
            first_target(ls) == first_target(ls.subrange(k as int, ls.len() as int)),
        decreases lines.len() - k,
    {
        let ghost rest = ls.subrange(k as int, ls.len() as int);
        assert(rest[0] == lines[k as int]@);
        assert(rest.drop_first() =~= ls.subrange(k + 1, ls.len() as int));
        if let Some(v) = target_of(&lines[k]) {
            return Some(v);
        }
        k = k + 1;
    }
    None
}

fn attr_bandwidth_of(a: &Vec<char>) -> (r: Option<u32>)
    ensures
        r == attr_bandwidth(a@),
{
    let bw = chars_of(BANDWIDTH_ATTR);
    let tag = chars_of(STREAM_INF_TAG);
    if matches_at(a, 0, &bw) {
        parse_u32(&crate::text::copy_range(a, bw.len(), a.len()))
    } else if matches_at(a, 0, &tag) {
        let rest = crate::text::copy_range(a, tag.len(), a.len());
        if matches_at(&rest, 0, &bw) {
            parse_u32(&crate::text::copy_range(&rest, bw.len(), rest.len()))
        } else {
            None
        }
    } else {
        None
    }
}

fn bandwidth_of(s: &Vec<char>) -> (r: Option<u32>)
    ensures
        r == bandwidth_from(s@, 0),
{
    let mut i: usize = 0;
    loop
        invariant
            i <= s.len(),
            bandwidth_from(s@, 0) == bandwidth_from(s@, i as int),
        decreases s.len() - i,
    {
        proof {
            lemma_next_char(s@, ',', i as int);
        }
        let j = find_char(s, ',', i);
        let field = trim_chars(&crate::text::copy_range(s, i, j));
        if let Some(v) = attr_bandwidth_of(&field) {
            return Some(v);
        }
        if j >= s.len() {
            assert(bandwidth_from(s@, j + 1) == None::<u32>);
            return None;
        }
        i = j + 1;
    }
}

/// The bandwidth that a stream-info line declares.
pub fn extract_bandwidth(line: &str) -> (r: Option<u32>)
    ensures
        r == bandwidth_from(line@, 0),
{
    bandwidth_of(&chars_of(line))
}

/// The variants of a master playlist, as (reference, bandwidth).
fn variant_entries(content: &Vec<char>) -> (r: Vec<(Vec<char>, u32)>)
    ensures
        r@.map_values(|e: (Vec<char>, u32)| (e.0@, e.1)) == master_variants(content@),
{
    let lines = split_lines(content);
    let ghost ls = lines@.map_values(|l: Vec<char>| l@);
    let tag = chars_of(STREAM_INF_TAG);
    let mut vars: Vec<(Vec<char>, u32)> = Vec::new();
    let mut current: Option<u32> = None;
    let mut k: usize = 0;
    assert(vars@.map_values(|e: (Vec<char>, u32)| (e.0@, e.1)) =~= master_scan(
        ls.subrange(0, 0),
    ).0);
    while k < lines.len()
        invariant
            k <= lines.len(),
            ls == lines@.map_values(|l: Vec<char>| l@),
            tag@ == STREAM_INF_TAG@,
            master_scan(ls.subrange(0, k as int)) == (
                vars@.map_values(|e: (Vec<char>, u32)| (e.0@, e.1)),
                current,
            ),
        decreases lines.len() - k,
    {
        let ghost before = vars@.map_values(|e: (Vec<char>, u32)| (e.0@, e.1));
        assert(ls.subrange(0, k + 1).drop_last() =~= ls.subrange(0, k as int));
        assert(ls.subrange(0, k + 1).last() == lines[k as int]@);
        let t = trim_chars(&lines[k]);
        if matches_at(&t, 0, &tag) {
            current = bandwidth_of(&t);
        } else if t.len() > 0 && t[0] != '#' {
            if let Some(bw) = current {
                let ghost tv = t@;
                vars.push((t, bw));
                current = None;
                assert(vars@.map_values(|e: (Vec<char>, u32)| (e.0@, e.1)) =~= before.push(
                    (tv, bw),
                ));
            }
        }
        k = k + 1;
    }
    assert(ls.subrange(0, lines@.len() as int) =~= ls);
    vars
}

/// The segment references of a media playlist.
fn segment_refs(content: &Vec<char>) -> (r: Vec<Vec<char>>)
    ensures
        r@.map_values(|l: Vec<char>| l@) == media_refs(text_lines(content@)),
{
    let lines = split_lines(content);
    let ghost ls = lines@.map_values(|l: Vec<char>| l@);
    let mut refs: Vec<Vec<char>> = Vec::new();
    let mut k: usize = 0;
    assert(refs@.map_values(|l: Vec<char>| l@) =~= media_refs(ls.subrange(0, 0)));
    while k < lines.len()
        invariant
            k <= lines.len(),
            ls == lines@.map_values(|l: Vec<char>| l@),
            media_refs(ls.subrange(0, k as int)) == refs@.map_values(|l: Vec<char>| l@),
        decreases lines.len() - k,
    {
        let ghost before = refs@.map_values(|l: Vec<char>| l@);
        assert(ls.subrange(0, k + 1).drop_last() =~= ls.subrange(0, k as int));
        assert(ls.subrange(0, k + 1).last() == lines[k as int]@);
        let t = trim_chars(&lines[k]);
        if t.len() > 0 && t[0] != '#' {
            let ghost tv = t@;
            refs.push(t);
            assert(refs@.map_values(|l: Vec<char>| l@) =~= before.push(tv));
        }
        k = k + 1;
    }
    assert(ls.subrange(0, lines@.len() as int) =~= ls);
    refs
}

/// The variant streams of a master playlist, in playlist order, with their
/// references resolved against the playlist's URL.
pub fn parse_master_playlist(content: &str, base_url: &str) -> (r: Result<
    Vec<MediaPlaylist>,
    HlsError,
>)
    ensures
        r matches Ok(v) ==> {
            &&& v.len() == master_variants(content@).len()
            &&& forall|k: int|
                0 <= k < v.len() ==> {
                    &&& (#[trigger] v[k]).bandwidth == master_variants(content@)[k].1
                    &&& resolved_as(base_url@, v[k].uri@, master_variants(content@)[k].0)
                }
        },
        r matches Err(e) ==> (e == HlsError::InvalidUrl && unresolvable(
            base_url@,
            variant_refs(master_variants(content@)),
        )),
        !unresolvable(base_url@, variant_refs(master_variants(content@))) ==> r is Ok,
{
    let entries = variant_entries(&chars_of(content));
    let ghost vars = master_variants(content@);
    let mut out: Vec<MediaPlaylist> = Vec::new();
    let mut k: usize = 0;
    while k < entries.len()
        invariant
            k <= entries.len(),
            entries@.map_values(|e: (Vec<char>, u32)| (e.0@, e.1)) == vars,
            vars == master_variants(content@),
            out.len() == k,
            forall|i: int| 0 <= i < k ==> (#[trigger] out[i]).bandwidth == vars[i].1,
            forall|i: int| 0 <= i < k ==> resolved_as(base_url@, (#[trigger] out[i]).uri@, vars[i].0),
        decreases entries.len() - k,
    {
        assert(vars[k as int] == (entries[k as int].0@, entries[k as int].1));
        let reference = string_from_chars(&entries[k].0);
        let rs = reference.as_str();
        assert(rs@ == vars[k as int].0);
        let ghost before = out@;
        match resolve_url(base_url, rs) {
            Ok(uri) => {
                out.push(MediaPlaylist { uri, bandwidth: entries[k].1 });
                assert(out[k as int].bandwidth == vars[k as int].1);
                assert(resolved_as(base_url@, out[k as int].uri@, vars[k as int].0));
            },
            Err(e) => {
                assert(variant_refs(vars)[k as int] == vars[k as int].0);
                assert(resolution(base_url@, variant_refs(vars)[k as int]) is None);
                assert(unresolvable(base_url@, variant_refs(vars)));
                return Err(e);
            },
        }
        assert forall|i: int| 0 <= i < k + 1 implies (#[trigger] out[i]).bandwidth == vars[i].1
            && resolved_as(base_url@, out[i].uri@, vars[i].0) by {
            if i < k {
                assert(out[i] == before[i]);
            }
        }
        k = k + 1;
    }
    Ok(out)
}

/// The segment URLs of a media playlist, in order, resolved against the
/// playlist's URL.
pub fn parse_media_playlist(content: &str, base_url: &str) -> (r: Result<Vec<String>, HlsError>)
    ensures
        r matches Ok(v) ==> {
            &&& v.len() == media_refs(text_lines(content@)).len()
            &&& forall|k: int|
                0 <= k < v.len() ==> resolved_as(base_url@,
                    #[trigger] v[k]@,
                    media_refs(text_lines(content@))[k],
                )
        },
        r matches Err(e) ==> (e == HlsError::InvalidUrl && unresolvable(
            base_url@,
            media_refs(text_lines(content@)),
        )),
        !unresolvable(base_url@, media_refs(text_lines(content@))) ==> r is Ok,
{
    let refs = segment_refs(&chars_of(content));
    let ghost rs = media_refs(text_lines(content@));
    let mut out: Vec<String> = Vec::new();
    let mut k: usize = 0;
    while k < refs.len()
        invariant
            k <= refs.len(),
            refs@.map_values(|l: Vec<char>| l@) == rs,
            rs == media_refs(text_lines(content@)),
            out.len() == k,
            forall|i: int| 0 <= i < k ==> resolved_as(base_url@, #[trigger] out[i]@, rs[i]),
        decreases refs.len() - k,
    {
        assert(rs[k as int] == refs[k as int]@);
        let reference = string_from_chars(&refs[k]);
        let text = reference.as_str();
        assert(text@ == rs[k as int]);
        match resolve_url(base_url, text) {
            Ok(uri) => {
                let ghost before = out@;
                out.push(uri);
                assert forall|i: int| 0 <= i < k + 1 implies resolved_as(base_url@,
                    #[trigger] out[i]@,
                    rs[i],
                ) by {
                    if i < k {
                        assert(out[i] == before[i]);
                    }
                }
            },
            Err(e) => {
                assert(resolution(base_url@, rs[k as int]) is None);
                assert(unresolvable(base_url@, rs));
                return Err(e);
            },
        }
        k = k + 1;
    }
    Ok(out)
}

/// The index of the first playlist of least bandwidth, if any.
pub fn lowest_bitrate(playlists: &Vec<MediaPlaylist>) -> (r: Option<usize>)
    ensures
        playlists.len() == 0 <==> r.is_none(),
        r matches Some(i) ==> i < playlists.len(),
        r matches Some(i) ==> i == lowest_index(
            playlists@.map_values(|p: MediaPlaylist| p.bandwidth),
        ),
{
    if playlists.len() == 0 {
        return None;
    }
    let ghost bws = playlists@.map_values(|p: MediaPlaylist| p.bandwidth);
    let mut best: usize = 0;
    let mut k: usize = 1;
    while k < playlists.len()
        invariant
            1 <= k <= playlists.len(),
            best < k,
            bws == playlists@.map_values(|p: MediaPlaylist| p.bandwidth),
            best == lowest_upto(bws, k as int),
        decreases playlists.len() - k,
    {
        if playlists[k].bandwidth < playlists[best].bandwidth {
            best = k;
        }
        k = k + 1;
    }
    Some(best)
}

proof fn lemma_same_bandwidths(v: Seq<MediaPlaylist>, vars: Seq<(Seq<char>, u32)>)
    requires
        v.len() == vars.len(),
        forall|k: int| 0 <= k < v.len() ==> (#[trigger] v[k]).bandwidth == vars[k].1,
    ensures
        v.map_values(|p: MediaPlaylist| p.bandwidth) == variant_bandwidths(vars),
{
    assert(v.map_values(|p: MediaPlaylist| p.bandwidth) =~= variant_bandwidths(vars));
}

/// The URL of the lowest-bitrate variant of a master playlist.
fn follow_lowest(content: &str, playlist_url: &str) -> (r: Result<Option<String>, HlsError>)
    ensures
        r matches Ok(None) ==> master_variants(content@).len() == 0,
        r matches Ok(Some(u)) ==> (master_variants(content@).len() > 0 && resolved_as(playlist_url@,
            u@,
            lowest_variant_ref(content@),
        )),
        r matches Err(e) ==> (e == HlsError::InvalidUrl && unresolvable(
            playlist_url@,
            variant_refs(master_variants(content@)),
        )),
        master_variants(content@).len() > 0 && !unresolvable(
            playlist_url@,
            variant_refs(master_variants(content@)),
        ) ==> r matches Ok(Some(_)),
{
    let variants = match parse_master_playlist(content, playlist_url) {
        Ok(v) => v,
        Err(e) => {
            return Err(e);
        },
    };
    assert(variants.len() == master_variants(content@).len());
    proof {
        lemma_same_bandwidths(variants@, master_variants(content@));
    }
    match lowest_bitrate(&variants) {
        Some(i) => Ok(Some(variants[i].uri.clone())),
        None => Ok(None),
    }
}

/// What a playlist's text decides about its type: VOD when it is complete,
/// live with its target duration, or else, for a master playlist, to be
/// read from its lowest-bitrate variant.
pub fn playlist_type_step(content: &str, playlist_url: &str) -> (r: Result<
    PlaylistStep,
    HlsError,
>)
    ensures
        is_complete(content@) ==> r == Ok::<PlaylistStep, HlsError>(
            PlaylistStep::Known(PlaylistType::Vod),
        ),
        !is_complete(content@) ==> match first_target(text_lines(content@)) {
            Some(t) => r == Ok::<PlaylistStep, HlsError>(
                PlaylistStep::Known(PlaylistType::Live { target_duration: t }),
            ),
            None => {
                &&& !is_master(content@) ==> r == Err::<PlaylistStep, HlsError>(
                    HlsError::UnknownPlaylistType,
                )
                &&& (is_master(content@) && master_variants(content@).len() == 0) ==> r
                    == Err::<PlaylistStep, HlsError>(HlsError::UnknownPlaylistType)
            },
        },
        r matches Ok(PlaylistStep::Follow(u)) ==> {
            &&& !is_complete(content@)
            &&& first_target(text_lines(content@)) is None
            &&& is_master(content@)
            &&& master_variants(content@).len() > 0
            &&& resolved_as(playlist_url@, u@, lowest_variant_ref(content@))
        },
        r matches Err(HlsError::InvalidUrl) ==> unresolvable(
            playlist_url@,
            variant_refs(master_variants(content@)),
        ),
        !is_complete(content@) && first_target(text_lines(content@)) is None && is_master(
            content@,
        ) && master_variants(content@).len() > 0 && !unresolvable(
            playlist_url@,
            variant_refs(master_variants(content@)),
        ) ==> r matches Ok(PlaylistStep::Follow(_)),
        r matches Err(HlsError::UnknownPlaylistType) ==> {
            &&& !is_complete(content@)
            &&& first_target(text_lines(content@)) is None
            &&& (!is_master(content@) || master_variants(content@).len() == 0)
        },
        r matches Err(e) ==> e != HlsError::NoMediaPlaylists,
{
    let chars = chars_of(content);
    if contains_text(&chars, &chars_of(VOD_TYPE_TAG)) || contains_text(
        &chars,
        &chars_of(END_LIST_TAG),
    ) {
        return Ok(PlaylistStep::Known(PlaylistType::Vod));
    }
    if let Some(t) = extract_target_duration(content) {
        return Ok(PlaylistStep::Known(PlaylistType::Live { target_duration: t }));
    }
    if !is_master_playlist(content) {
        return Err(HlsError::UnknownPlaylistType);
    }
    match follow_lowest(content, playlist_url) {
        Ok(Some(u)) => Ok(PlaylistStep::Follow(u)),
        Ok(None) => Err(HlsError::UnknownPlaylistType),
        Err(e) => Err(e),
    }
}

/// What a playlist's text gives for segments: a master playlist's
/// lowest-bitrate variant to read them from, or a media playlist's segment
/// URLs.
pub fn segments_step(content: &str, playlist_url: &str) -> (r: Result<SegmentsStep, HlsError>)
    ensures
        is_master(content@) && master_variants(content@).len() == 0 ==> r == Err::<
            SegmentsStep,
            HlsError,
        >(HlsError::NoMediaPlaylists),
        r matches Ok(SegmentsStep::Follow(u)) ==> {
            &&& is_master(content@)
            &&& master_variants(content@).len() > 0
            &&& resolved_as(playlist_url@, u@, lowest_variant_ref(content@))
        },
        r matches Ok(SegmentsStep::Segments(v)) ==> {
            &&& !is_master(content@)
            &&& v.len() == media_refs(text_lines(content@)).len()
            &&& forall|k: int|
                0 <= k < v.len() ==> resolved_as(playlist_url@,
                    #[trigger] v[k]@,
                    media_refs(text_lines(content@))[k],
                )
        },
        r matches Err(HlsError::InvalidUrl) ==> if is_master(content@) {
            unresolvable(playlist_url@, variant_refs(master_variants(content@)))
        } else {
            unresolvable(playlist_url@, media_refs(text_lines(content@)))
        },
        r matches Err(HlsError::NoMediaPlaylists) ==> is_master(content@)
            && master_variants(content@).len() == 0,
        r matches Err(e) ==> e != HlsError::UnknownPlaylistType,
        is_master(content@) && master_variants(content@).len() > 0 && !unresolvable(
            playlist_url@,
            variant_refs(master_variants(content@)),
        ) ==> r matches Ok(SegmentsStep::Follow(_)),
        !is_master(content@) && !unresolvable(playlist_url@, media_refs(text_lines(content@)))
            ==> r matches Ok(SegmentsStep::Segments(_)),
{
    if is_master_playlist(content) {
        match follow_lowest(content, playlist_url) {
            Ok(Some(u)) => Ok(SegmentsStep::Follow(u)),
            Ok(None) => Err(HlsError::NoMediaPlaylists),
            Err(e) => Err(e),
        }
    } else {
        match parse_media_playlist(content, playlist_url) {
            Ok(v) => Ok(SegmentsStep::Segments(v)),
            Err(e) => Err(e),
        }
    }
}

} // verus!
