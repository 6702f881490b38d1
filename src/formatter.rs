//! Canonical forms of titles and filenames, the season/episode marker, and
//! the filename that a series episode is renamed to.

use vstd::prelude::*;
use crate::lemmas::{lemma_canonical_chars, lemma_replace_in_order_pair};
use crate::text::{
    chars_of, chars_within, find_last, is_digit, last_index_of, lemma_last_index_of, slice_of,
    string_of,
};

verus! {

/// The separator that canonical keys use between words.
pub const UNIFIED_SEPARATOR: char = '.';

/// The separator of the human-readable title in a renamed filename.
pub const DEFAULT_TITLE_SEPARATOR: char = ' ';

/// A title at most this many characters long never loses a year suffix.
pub const MINIMAL_TITLE_LENGTH_WITH_YEAR_SUFFIX: usize = 7;

/// An external id: `tt` followed by ASCII digits.
pub const IMDB_PATTERN: &'static str = r"tt[0-9]+";

/// A whole text that is a release year from 1930 to 2039.
pub const RELEASE_YEAR_PATTERN: &'static str = r"^(?:19[3-9][0-9]|20[0-3][0-9])$";

/// A season/episode marker such as `S02E10`: `s` or `S`, two ASCII digits,
/// `e` or `E`, two ASCII digits.
pub const SERIES_SEASON_AND_EPISODE_PATTERN: &'static str = r"[sS](?<season>[0-9]{2})[eE](?<episode>[0-9]{2})";

/// Why no series filename could be made.
#[derive(Debug, Clone, Copy, PartialEq, Eq, Structural)]
pub enum FormatError {
    /// The filename carries no season/episode marker.
    PatternNotFound,
}

// ---------------------------------------------------------------------------
// Model

/// Each character of `s` that occurs in `old` is replaced by all of `new`.
pub open spec fn replace_chars(s: Seq<char>, old: Seq<char>, new: Seq<char>) -> Seq<char>
    decreases s.len(),
{
    if s.len() == 0 {
        s
    } else {
        let rest = replace_chars(s.drop_last(), old, new);
        if old.contains(s.last()) {
            rest + new
        } else {
            rest.push(s.last())
        }
    }
}

/// The characters of `old` are replaced one after another, in order: each
/// pass replaces every copy of one character of `old` by `new` in the text
/// that the passes before it left.
pub open spec fn replace_in_order(s: Seq<char>, old: Seq<char>, new: Seq<char>) -> Seq<char>
    decreases old.len(),
{
    if old.len() == 0 {
        s
    } else {
        replace_in_order(replace_chars(s, seq![old[0]], new), old.subrange(1, old.len() as int), new)
    }
}

/// Spaces and underscores become `sep`.
pub open spec fn unify(s: Seq<char>, sep: char) -> Seq<char> {
    replace_chars(s, seq![' ', '_'], seq![sep])
}

/// Colons and semicolons are dropped.
pub open spec fn strip_forbidden(s: Seq<char>) -> Seq<char> {
    replace_chars(s, seq![':', ';'], seq![])
}

/// `s` begins with the article `The` or `the` followed by `sep`.
pub open spec fn starts_with_article(s: Seq<char>, sep: char) -> bool {
    s.len() >= 4 && (s[0] == 'T' || s[0] == 't') && s[1] == 'h' && s[2] == 'e' && s[3] == sep
}

pub open spec fn strip_article(s: Seq<char>, sep: char) -> Seq<char> {
    if starts_with_article(s, sep) {
        s.subrange(4, s.len() as int)
    } else {
        s
    }
}

/// Number of consecutive digits in `s` from index `i` on.
pub open spec fn digit_run(s: Seq<char>, i: int) -> nat
    decreases s.len() - i,
{
    if 0 <= i < s.len() && is_digit(s[i]) {
        1 + digit_run(s, i + 1)
    } else {
        0
    }
}

/// An external id (`tt` and a digit) starts at index `i`.
pub open spec fn id_at(s: Seq<char>, i: int) -> bool {
    0 <= i && i + 2 < s.len() && s[i] == 't' && s[i + 1] == 't' && is_digit(s[i + 2])
}

pub open spec fn has_id(s: Seq<char>) -> bool {
    exists|i: int| id_at(s, i)
}

/// `s` from index `i` on, with every external id removed: scanning from
/// the left, each `tt` followed by digits goes together with all of those
/// digits.
pub open spec fn strip_ids_from(s: Seq<char>, i: int) -> Seq<char>
    decreases s.len() - i,
{
    if i < 0 || i >= s.len() {
        seq![]
    } else if id_at(s, i) {
        let j = i + 2 + digit_run(s, i + 2);
        strip_ids_from(s, if j > s.len() { s.len() as int } else { j })
    } else {
        seq![s[i]] + strip_ids_from(s, i + 1)
    }
}

pub open spec fn strip_ids(s: Seq<char>) -> Seq<char> {
    strip_ids_from(s, 0)
}

/// `s` without the copies of `sep` at its end.
pub open spec fn trim_end(s: Seq<char>, sep: char) -> Seq<char>
    decreases s.len(),
{
    if s.len() > 0 && s.last() == sep {
        trim_end(s.drop_last(), sep)
    } else {
        s
    }
}

/// Four ASCII digits naming a year from 1930 to 2039, and nothing else.
pub open spec fn is_release_year(s: Seq<char>) -> bool {
    &&& s.len() == 4
    &&& is_digit(s[3])
    &&& ((s[0] == '1' && s[1] == '9' && '3' <= s[2] && s[2] <= '9') || (s[0] == '2' && s[1]
        == '0' && '0' <= s[2] && s[2] <= '3'))
}

/// `s` is longer than the minimal length and what follows its last `sep` is
/// a release year. The whole final segment must be the year: a segment that
/// merely holds one, such as `(1982)` or `1982p`, is kept.
pub open spec fn year_suffix_applies(s: Seq<char>, sep: char) -> bool {
    let k = last_index_of(s, sep);
    &&& s.len() > MINIMAL_TITLE_LENGTH_WITH_YEAR_SUFFIX
    &&& k >= 0
    &&& is_release_year(s.subrange(k + 1, s.len() as int))
}

pub open spec fn strip_year(s: Seq<char>, sep: char) -> Seq<char> {
    if year_suffix_applies(s, sep) {
        trim_end(s.subrange(0, last_index_of(s, sep)), sep)
    } else {
        s
    }
}

/// External ids removed, trailing separators trimmed, then a trailing
/// release year removed with the separators before it.
pub open spec fn strip_suffix(s: Seq<char>, sep: char) -> Seq<char> {
    strip_year(trim_end(strip_ids(s), sep), sep)
}

/// The canonical key of an already lowercased title.
pub open spec fn canonical(t: Seq<char>) -> Seq<char> {
    strip_forbidden(
        strip_suffix(strip_article(unify(t, UNIFIED_SEPARATOR), UNIFIED_SEPARATOR), UNIFIED_SEPARATOR),
    )
}

/// What `str::to_lowercase` makes of a string.
pub uninterp spec fn lower_of(s: Seq<char>) -> Seq<char>;

pub open spec fn is_ascii_lower(c: char) -> bool {
    (c as u32) < 128 && !('A' <= c && c <= 'Z')
}

/// No character of `s` is an ASCII capital.
pub open spec fn has_no_ascii_capital(s: Seq<char>) -> bool {
    forall|k: int| 0 <= k < s.len() ==> !('A' <= #[trigger] s[k] && s[k] <= 'Z')
}

pub open spec fn is_ascii_seq(s: Seq<char>) -> bool {
    forall|k: int| 0 <= k < s.len() ==> ((#[trigger] s[k]) as u32) < 128
}

pub open spec fn is_ascii_lower_seq(s: Seq<char>) -> bool {
    forall|k: int| 0 <= k < s.len() ==> is_ascii_lower(#[trigger] s[k])
}

/// The canonical key of any title: lowercased, then made canonical.
pub open spec fn normalized(s: Seq<char>) -> Seq<char> {
    canonical(lower_of(s))
}

/// The title part of a renamed filename.
pub open spec fn rename_title(t: Seq<char>) -> Seq<char> {
    strip_article(strip_suffix(t, DEFAULT_TITLE_SEPARATOR), DEFAULT_TITLE_SEPARATOR)
}

/// A season/episode marker (`s` or `S`, two digits, `e` or `E`, two
/// digits) starts at index `i`.
pub open spec fn is_marker_at(s: Seq<char>, i: int) -> bool {
    &&& 0 <= i && i + 6 <= s.len()
    &&& (s[i] == 's' || s[i] == 'S')
    &&& is_digit(s[i + 1]) && is_digit(s[i + 2])
    &&& (s[i + 3] == 'e' || s[i + 3] == 'E')
    &&& is_digit(s[i + 4]) && is_digit(s[i + 5])
}

/// Start of the leftmost marker at or after `i`.
pub open spec fn first_marker_from(s: Seq<char>, i: int) -> Option<int>
    decreases s.len() - i,
{
    if i < 0 || i + 6 > s.len() {
        None
    } else if is_marker_at(s, i) {
        Some(i)
    } else {
        first_marker_from(s, i + 1)
    }
}

/// The season and episode digits of the leftmost marker, as written.
pub open spec fn season_episode(s: Seq<char>) -> Option<(Seq<char>, Seq<char>)> {
    match first_marker_from(s, 0) {
        Some(i) => Some((s.subrange(i + 1, i + 3), s.subrange(i + 4, i + 6))),
        None => None,
    }
}

/// What follows the last `.` of a filename; all of it when there is none.
pub open spec fn suffix_token(f: Seq<char>) -> Seq<char> {
    f.subrange(last_index_of(f, '.') + 1, f.len() as int)
}

/// `{title} - {season}x{episode}.{suffix}`.
pub open spec fn series_filename(
    title: Seq<char>,
    season: Seq<char>,
    episode: Seq<char>,
    suffix: Seq<char>,
) -> Seq<char> {
    title + seq![' ', '-', ' '] + season + seq!['x'] + episode + seq!['.'] + suffix
}

// ---------------------------------------------------------------------------
// Outside calls

/// Relies on `str::to_lowercase`: the result depends on the characters
/// alone and holds no ASCII capital (each maps to its small letter, and no
/// character lowercases to one); on ASCII text it is ASCII, and ASCII text
/// without capitals comes back unchanged.
#[verifier::external_body]
fn lowercase(s: &str) -> (r: String)
    ensures
        r@ == lower_of(s@),
        has_no_ascii_capital(r@),
        is_ascii_seq(s@) ==> is_ascii_lower_seq(r@),
        is_ascii_lower_seq(s@) ==> r@ == s@,
{
    s.to_lowercase()
}

/// Relies on `regex::Regex::replace_all` with `IMDB_PATTERN`: the
/// non-overlapping leftmost matches of `tt[0-9]+`, each as long as it can
/// be, are removed.
#[verifier::external_body]
fn regex_remove_ids(pattern: &str, s: &str) -> (r: String)
    requires
        pattern == IMDB_PATTERN,
    ensures
        r@ == strip_ids(s@),
{
    regex::Regex::new(pattern).unwrap().replace_all(s, "").into_owned()
}

/// Relies on `regex::Regex::is_match` with `RELEASE_YEAR_PATTERN`: true
/// iff the whole text is a year from 1930 to 2039.
#[verifier::external_body]
fn regex_is_release_year(pattern: &str, s: &str) -> (r: bool)
    requires
        pattern == RELEASE_YEAR_PATTERN,
    ensures
        r == is_release_year(s@),
{
    regex::Regex::new(pattern).unwrap().is_match(s)
}

// ---------------------------------------------------------------------------
// Character-level stages

/// `c` is one of `set`.
fn is_one_of(c: char, set: &[char]) -> (r: bool)
    ensures
        r == set@.contains(c),
{
    let mut i: usize = 0;
    while i < set.len()
        invariant
            i <= set.len(),
            forall|k: int| 0 <= k < i ==> set@[k] != c,
        decreases set.len() - i,
    {
        if set[i] == c {
            return true;
        }
        i += 1;
    }
    false
}

fn replace_chars_vec(s: &Vec<char>, old: &[char], new: &[char]) -> (r: Vec<char>)
    ensures
        r@ == replace_chars(s@, old@, new@),
{
    let mut r: Vec<char> = Vec::new();
    let mut i: usize = 0;
    while i < s.len()
        invariant
            i <= s.len(),
            r@ == replace_chars(s@.subrange(0, i as int), old@, new@),
        decreases s.len() - i,
    {
        let c = s[i];
        let ghost before = s@.subrange(0, i as int);
        assert(s@.subrange(0, i + 1).drop_last() =~= before);
        if is_one_of(c, old) {
            let mut j: usize = 0;
            while j < new.len()
                invariant
                    j <= new.len(),
                    r@ == replace_chars(before, old@, new@) + new@.subrange(0, j as int),
                decreases new.len() - j,
            {
                r.push(new[j]);
                j += 1;
                assert(r@ =~= replace_chars(before, old@, new@) + new@.subrange(0, j as int));
            }
            assert(new@.subrange(0, j as int) =~= new@);
        } else {
            r.push(c);
        }
        i += 1;
    }
    assert(s@.subrange(0, s.len() as int) =~= s@);
    r
}

fn trim_end_vec(v: Vec<char>, sep: char) -> (r: Vec<char>)
    ensures
        r@ == trim_end(v@, sep),
{
    let mut v = v;
    let ghost target = trim_end(v@, sep);
    while v.len() > 0 && v[v.len() - 1] == sep
        invariant
            trim_end(v@, sep) == target,
        decreases v.len(),
    {
        v.pop();
    }
    v
}

fn strip_article_vec(v: Vec<char>, sep: char) -> (r: Vec<char>)
    ensures
        r@ == strip_article(v@, sep),
{
    if v.len() >= 4 && (v[0] == 'T' || v[0] == 't') && v[1] == 'h' && v[2] == 'e' && v[3] == sep {
        slice_of(&v, 4, v.len())
    } else {
        v
    }
}

fn strip_suffix_vec(s: &str, sep: char) -> (r: Vec<char>)
    ensures
        r@ == strip_suffix(s@, sep),
{
    let without_ids = regex_remove_ids(IMDB_PATTERN, s);
    let mut w = trim_end_vec(chars_of(without_ids.as_str()), sep);
    if w.len() > MINIMAL_TITLE_LENGTH_WITH_YEAR_SUFFIX {
        if let Some(k) = find_last(&w, sep) {
            proof {
                lemma_last_index_of(w@, sep);
            }
            let segment = string_of(&slice_of(&w, k + 1, w.len()));
            if regex_is_release_year(RELEASE_YEAR_PATTERN, segment.as_str()) {
                w = trim_end_vec(slice_of(&w, 0, k), sep);
            }
        }
    }
    w
}

// ---------------------------------------------------------------------------
// Normalization

/// Replaces the characters of `old` one after another, in order: each pass
/// replaces every copy of one of them by `new` in what the passes before it
/// left.
pub fn replace_many(title: &str, old: &[char], new: &str) -> (r: String)
    ensures
        r@ == replace_in_order(title@, old@, new@),
{
    let new_chars = chars_of(new);
    let mut formatted = chars_of(title);
    let mut i: usize = 0;
    assert(old@.subrange(0, old@.len() as int) =~= old@);
    while i < old.len()
        invariant
            i <= old.len(),
            replace_in_order(title@, old@, new@) == replace_in_order(
                formatted@,
                old@.subrange(i as int, old@.len() as int),
                new@,
            ),
            new_chars@ == new@,
        decreases old.len() - i,
    {
        let one = [old[i]];
        assert(one@ =~= seq![old@[i as int]]);
        let ghost rest = old@.subrange(i as int, old@.len() as int);
        assert(rest[0] == old@[i as int]);
        assert(rest.subrange(1, rest.len() as int) =~= old@.subrange(i + 1, old@.len() as int));
        formatted = replace_chars_vec(&formatted, &one, new_chars.as_slice());
        i += 1;
    }
    assert(old@.subrange(i as int, old@.len() as int) =~= Seq::<char>::empty());
    string_of(&formatted)
}

/// Spaces and underscores become the unified separator `.`.
pub fn create_unified_separator(title: &str) -> (r: String)
    ensures
        r@ == unify(title@, UNIFIED_SEPARATOR),
{
    let old = [' ', '_'];
    assert(old@ =~= seq![' ', '_']);
    let r = replace_many(title, &old, ".");
    proof {
        reveal_strlit(".");
        assert("."@ =~= seq![UNIFIED_SEPARATOR]);
        lemma_replace_in_order_pair(title@, ' ', '_', seq![UNIFIED_SEPARATOR]);
    }
    r
}

/// Colons and semicolons are removed.
pub fn remove_forbidden_characters(title: &str) -> (r: String)
    ensures
        r@ == strip_forbidden(title@),
{
    let old = [':', ';'];
    assert(old@ =~= seq![':', ';']);
    let r = replace_many(title, &old, "");
    proof {
        reveal_strlit("");
        assert(""@ =~= Seq::<char>::empty());
        lemma_replace_in_order_pair(title@, ':', ';', Seq::<char>::empty());
    }
    r
}

/// Removes a leading `The` or `the` followed by `separator`.
pub fn remove_the_prefix(title: &str, separator: char) -> (r: String)
    ensures
        r@ == strip_article(title@, separator),
{
    string_of(&strip_article_vec(chars_of(title), separator))
}

/// Removes external ids, then trailing separators, then a trailing release
/// year with the separators before it.
pub fn remove_year_and_imdb_suffix(title: &str, separator: char) -> (r: String)
    ensures
        r@ == strip_suffix(title@, separator),
{
    string_of(&strip_suffix_vec(title, separator))
}

/// The canonical key of a title that is already lowercase: separators
/// unified to `.`, a leading article removed, the id and year suffix
/// removed, forbidden characters dropped.
pub fn format_lowercased_title(title: &str) -> (r: String)
    ensures
        r@ == canonical(title@),
{
    let unified = create_unified_separator(title);
    let without_article = remove_the_prefix(unified.as_str(), UNIFIED_SEPARATOR);
    let without_suffix = remove_year_and_imdb_suffix(without_article.as_str(), UNIFIED_SEPARATOR);
    remove_forbidden_characters(without_suffix.as_str())
}

/// The canonical key of a title or filename: lowercased, then as
/// `format_lowercased_title`. The key holds no ASCII capital; the key of
/// ASCII text is ASCII, so lowercasing it again changes nothing.
pub fn format_series_title_and_file_name(title: &str) -> (r: String)
    ensures
        r@ == normalized(title@),
        has_no_ascii_capital(r@),
        is_ascii_seq(title@) ==> is_ascii_lower_seq(r@),
{
    let lowered = lowercase(title);
    let r = format_lowercased_title(lowered.as_str());
    proof {
        lemma_canonical_chars(lowered@);
        assert forall|k: int| 0 <= k < r@.len() implies !('A' <= #[trigger] r@[k] && r@[k]
            <= 'Z') by {
            if r@[k] != UNIFIED_SEPARATOR {
                let j = choose|j: int| 0 <= j < lowered@.len() && lowered@[j] == r@[k];
            }
        }
        if is_ascii_seq(title@) {
            assert forall|k: int| 0 <= k < r@.len() implies is_ascii_lower(#[trigger] r@[k]) by {
                if r@[k] != UNIFIED_SEPARATOR {
                    let j = choose|j: int| 0 <= j < lowered@.len() && lowered@[j] == r@[k];
                }
            }
        }
    }
    r
}

/// The human-readable title of a renamed file: the id and year suffix
/// removed, then a leading article, with a space as the separator. Case is
/// kept.
pub fn normalize_title_for_rename(title: &str) -> (r: String)
    ensures
        r@ == rename_title(title@),
{
    let without_suffix = remove_year_and_imdb_suffix(title, DEFAULT_TITLE_SEPARATOR);
    remove_the_prefix(without_suffix.as_str(), DEFAULT_TITLE_SEPARATOR)
}

/// Relies on `regex::Regex::captures` with
/// `SERIES_SEASON_AND_EPISODE_PATTERN`: the leftmost match, if any, and the
/// text of its two groups.
#[verifier::external_body]
fn regex_find_marker(pattern: &str, s: &str) -> (r: Option<(String, String)>)
    requires
        pattern == SERIES_SEASON_AND_EPISODE_PATTERN,
    ensures
        match r {
            Some((season, episode)) => season_episode(s@) == Some((season@, episode@)),
            None => season_episode(s@) is None,
        },
{
    let caps = regex::Regex::new(pattern).unwrap().captures(s)?;
    Some((caps["season"].to_string(), caps["episode"].to_string()))
}

// ---------------------------------------------------------------------------
// Season, episode and renaming

/// The season and episode of the leftmost marker in `filename`, digits as
/// written; `PatternNotFound` when it holds no marker.
pub fn extract_season_and_episode_from_series_filename(filename: &str) -> (r: Result<
    (String, String),
    FormatError,
>)
    ensures
        match r {
            Ok((season, episode)) => season_episode(filename@) == Some((season@, episode@)),
            Err(e) => season_episode(filename@) is None && e == FormatError::PatternNotFound,
        },
{
    match regex_find_marker(SERIES_SEASON_AND_EPISODE_PATTERN, filename) {
        Some(found) => Ok(found),
        None => Err(FormatError::PatternNotFound),
    }
}

/// The name that a series episode is renamed to:
/// `{title} - {season}x{episode}.{suffix}`, with the title as
/// `normalize_title_for_rename` makes it, the marker's digits from
/// `filename` and the text after its last `.`. `PatternNotFound` when
/// `filename` holds no marker.
pub fn format_series_filename_before_rename(filename: &str, title: &str) -> (r: Result<
    String,
    FormatError,
>)
    ensures
        match r {
            Ok(name) => match season_episode(filename@) {
                Some((season, episode)) => name@ == series_filename(
                    rename_title(title@),
                    season,
                    episode,
                    suffix_token(filename@),
                ),
                None => false,
            },
            Err(e) => season_episode(filename@) is None && e == FormatError::PatternNotFound,
        },
{
    let (season, episode) = match extract_season_and_episode_from_series_filename(filename) {
        Ok(found) => found,
        Err(e) => return Err(e),
    };
    let formatted_title = normalize_title_for_rename(title);
    let name = chars_of(filename);
    proof {
        lemma_last_index_of(name@, '.');
    }
    let start: usize = match find_last(&name, '.') {
        Some(k) => k + 1,
        None => 0,
    };
    let suffix = slice_of(&name, start, name.len());
    let mut out = chars_of(formatted_title.as_str());
    out.push(' ');
    out.push('-');
    out.push(' ');
    let mut season_chars = chars_of(season.as_str());
    out.append(&mut season_chars);
    out.push('x');
    let mut episode_chars = chars_of(episode.as_str());
    out.append(&mut episode_chars);
    out.push('.');
    let mut suffix_chars = suffix;
    out.append(&mut suffix_chars);
    assert(out@ =~= series_filename(formatted_title@, season@, episode@, suffix@));
    Ok(string_of(&out))
}

} // verus!
