//! Classification of directory entries by their names: media files,
//! downloaded media, series episodes and downloaded media directories.

use vstd::prelude::*;
use crate::text::{
    chars_of, contains_chars, contains_seq, find_last, last_index_of, lemma_last_index_of,
    same_chars, slice_of, string_of,
};
use crate::formatter::{extract_season_and_episode_from_series_filename, season_episode};

verus! {

/// One direct child of a directory: its name (the last component of its
/// path) and whether it is a regular file.
pub struct DirectoryEntry {
    pub name: String,
    pub is_file: bool,
}

/// The part of a file name before its extension. A name whose only `.`
/// leads, a name without `.`, and `..` have no extension.
pub open spec fn stem_of(name: Seq<char>) -> Seq<char> {
    let k = last_index_of(name, '.');
    if name == seq!['.', '.'] || k <= 0 {
        name
    } else {
        name.subrange(0, k)
    }
}

/// The text after the last `.` of a file name, when it has an extension.
pub open spec fn extension_of(name: Seq<char>) -> Option<Seq<char>> {
    let k = last_index_of(name, '.');
    if name == seq!['.', '.'] || k <= 0 {
        None
    } else {
        Some(name.subrange(k + 1, name.len() as int))
    }
}

/// `mkv`, `avi`, `mpeg` or `mpg`, case-sensitive.
pub open spec fn is_media_extension(e: Seq<char>) -> bool {
    e == seq!['m', 'k', 'v'] || e == seq!['a', 'v', 'i'] || e == seq!['m', 'p', 'e', 'g'] || e
        == seq!['m', 'p', 'g']
}

pub open spec fn is_media_name(name: Seq<char>) -> bool {
    match extension_of(name) {
        Some(e) => is_media_extension(e),
        None => false,
    }
}

/// `s` contains `720p`, `1080p` or `2160p`.
pub open spec fn has_quality_indicator(s: Seq<char>) -> bool {
    contains_seq(s, seq!['7', '2', '0', 'p']) || contains_seq(s, seq!['1', '0', '8', '0', 'p'])
        || contains_seq(s, seq!['2', '1', '6', '0', 'p'])
}

pub open spec fn is_downloaded_name(name: Seq<char>) -> bool {
    has_quality_indicator(stem_of(name))
}

pub open spec fn is_series_name(name: Seq<char>) -> bool {
    &&& is_downloaded_name(name)
    &&& is_media_name(name)
    &&& season_episode(stem_of(name)) is Some
}

/// Some child is a file with a media extension.
pub open spec fn has_media_child(children: Seq<DirectoryEntry>) -> bool {
    exists|i: int|
        0 <= i < children.len() && (#[trigger] children[i]).is_file && is_media_name(
            children[i].name@,
        )
}

fn stem_and_extension(name: &Vec<char>) -> (r: (Vec<char>, Option<Vec<char>>))
    ensures
        r.0@ == stem_of(name@),
        match r.1 {
            Some(e) => extension_of(name@) == Some(e@),
            None => extension_of(name@) is None,
        },
{
    proof {
        lemma_last_index_of(name@, '.');
    }
    let dots = ['.', '.'];
    assert(dots@ =~= seq!['.', '.']);
    if same_chars(name, &dots) {
        return (slice_of(name, 0, name.len()), None);
    }
    match find_last(name, '.') {
        Some(k) if k > 0 => (slice_of(name, 0, k), Some(slice_of(name, k + 1, name.len()))),
        _ => (slice_of(name, 0, name.len()), None),
    }
}

/// True iff the extension of the file name `name` (the last component of
/// its path) is `mkv`, `avi`, `mpeg` or `mpg`.
pub fn is_media_file(name: &str) -> (r: bool)
    ensures
        r == is_media_name(name@),
{
    let mkv = ['m', 'k', 'v'];
    let avi = ['a', 'v', 'i'];
    let mpeg = ['m', 'p', 'e', 'g'];
    let mpg = ['m', 'p', 'g'];
    assert(mkv@ =~= seq!['m', 'k', 'v']);
    assert(avi@ =~= seq!['a', 'v', 'i']);
    assert(mpeg@ =~= seq!['m', 'p', 'e', 'g']);
    assert(mpg@ =~= seq!['m', 'p', 'g']);
    let (_, extension) = stem_and_extension(&chars_of(name));
    match extension {
        Some(e) => same_chars(&e, &mkv) || same_chars(&e, &avi) || same_chars(&e, &mpeg)
            || same_chars(&e, &mpg),
        None => false,
    }
}

/// True iff the stem of the file or directory name `name` contains `720p`,
/// `1080p` or `2160p`.
pub fn is_downloaded(name: &str) -> (r: bool)
    ensures
        r == is_downloaded_name(name@),
{
    let hd = ['7', '2', '0', 'p'];
    let full_hd = ['1', '0', '8', '0', 'p'];
    let uhd = ['2', '1', '6', '0', 'p'];
    assert(hd@ =~= seq!['7', '2', '0', 'p']);
    assert(full_hd@ =~= seq!['1', '0', '8', '0', 'p']);
    assert(uhd@ =~= seq!['2', '1', '6', '0', 'p']);
    let (stem, _) = stem_and_extension(&chars_of(name));
    contains_chars(&stem, &hd) || contains_chars(&stem, &full_hd) || contains_chars(&stem, &uhd)
}

/// A media file whose name marks it as downloaded.
pub fn is_downloaded_media_file(name: &str) -> (r: bool)
    ensures
        r == (is_downloaded_name(name@) && is_media_name(name@)),
{
    is_downloaded(name) && is_media_file(name)
}

/// A downloaded media file whose stem holds a season/episode marker.
pub fn is_series_file(name: &str) -> (r: bool)
    ensures
        r == is_series_name(name@),
{
    let (stem, _) = stem_and_extension(&chars_of(name));
    let stem_text = string_of(&stem);
    is_downloaded_media_file(name) && extract_season_and_episode_from_series_filename(
        stem_text.as_str(),
    ).is_ok()
}

/// Whether a directory's children must be listed to classify it: only a
/// directory whose name marks it as downloaded can qualify.
pub fn directory_needs_scan(name: &str, is_dir: bool) -> (r: bool)
    ensures
        r == (is_dir && is_downloaded_name(name@)),
{
    is_dir && is_downloaded(name)
}

/// A directory named `name` is a downloaded media directory: it is a
/// directory, its name marks it as downloaded, and one of its direct
/// `children` is a media file.
pub fn is_downloaded_media_directory(
    name: &str,
    is_dir: bool,
    children: &Vec<DirectoryEntry>,
) -> (r: bool)
    ensures
        r == (is_dir && is_downloaded_name(name@) && has_media_child(children@)),
{
    if !directory_needs_scan(name, is_dir) {
        return false;
    }
    let mut i: usize = 0;
    while i < children.len()
        invariant
            i <= children.len(),
            is_dir && is_downloaded_name(name@),
            forall|k: int|
                0 <= k < i ==> !((#[trigger] children@[k]).is_file && is_media_name(
                    children@[k].name@,
                )),
        decreases children.len() - i,
    {
        if children[i].is_file && is_media_file(children[i].name.as_str()) {
            assert(children@[i as int].is_file && is_media_name(children@[i as int].name@));
            return true;
        }
        i += 1;
    }
    false
}

} // verus!
