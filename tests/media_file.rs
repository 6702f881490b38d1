use media_sorter::media_file::{
    directory_needs_scan, is_downloaded, is_downloaded_media_directory,
    is_downloaded_media_file, is_media_file, is_series_file, DirectoryEntry,
};
use std::path::Path;
use tempfile::{Builder, NamedTempFile, TempDir};

const PREFIX_DELIMINATOR: &str = " | ";
const DOWNLOADED_MEDIA_DIRECTORY: &str =
    "The.Mandalorian.S02E02.Chapter.10.1080p.WEB-DL.DDP.5.1.Atmos.H.264-PHOENiX";
const DOWNLOADED_APP_DIRECTORY: &str = "Photoshop CS2";
const PERSONAL_MEDIA_DIRECTORY: &str = "Wedding Videos";

fn name_of(path: &Path) -> String {
    path.file_name().map(|n| n.to_string_lossy().into_owned()).unwrap_or_default()
}

/// Creates a directory named after `directory_name` holding one file per
/// `(prefix, suffix)` pair, and classifies it.
fn classify_created(directory_name: &str, files: &[(&str, &str)]) -> bool {
    let root = TempDir::new().unwrap();
    let directory = Builder::new()
        .prefix(&[directory_name, PREFIX_DELIMINATOR].join(""))
        .tempdir_in(root.path())
        .unwrap();
    let created: Vec<NamedTempFile> = files
        .iter()
        .map(|(prefix, suffix)| {
            Builder::new().prefix(prefix).suffix(suffix).tempfile_in(directory.path()).unwrap()
        })
        .collect();
    let path = directory.path();
    let name = name_of(path);
    let mut children = Vec::new();
    if directory_needs_scan(&name, path.is_dir()) {
        for file in created.iter() {
            children.push(DirectoryEntry { name: name_of(file.path()), is_file: file.path().is_file() });
        }
    }
    is_downloaded_media_directory(&name, path.is_dir(), &children)
}

#[test]
fn series_file_downloaded_file_containing_pattern() {
    assert!(is_series_file(
        "The.Mandalorian.S02E02.Chapter.10.720p.WEB-DL.DDP.5.1.Atmos.H.264-PHOENiX.mkv"
    ));
}

#[test]
fn series_file_download_media_but_not_series() {
    assert!(!is_series_file(
        "The.Ministry.of.Ungentlemanly.Warfare.2024.1080p.AMZN.WEBRip.1400MB-GalaxyRG.avi"
    ));
}

#[test]
fn series_file_jpeg_file() {
    assert!(!is_series_file("1.jpeg"));
}

#[test]
fn series_file_not_a_downloaded_file() {
    assert!(!is_series_file("Our Wedding 2019.mkv"));
}

#[test]
fn series_file_marker_in_extension_does_not_count() {
    assert!(!is_series_file("show.1080p.mkv"));
    assert!(!is_series_file("show.1080p.s01e01"));
}

#[test]
fn downloaded_media_directory_downloaded_file_in_directory() {
    assert!(classify_created(
        DOWNLOADED_MEDIA_DIRECTORY,
        &[(DOWNLOADED_MEDIA_DIRECTORY, ".mkv"), ("readme", ".txt")]
    ));
}

#[test]
fn downloaded_media_directory_personal_media_is_not_recognized() {
    assert!(!classify_created(PERSONAL_MEDIA_DIRECTORY, &[("Wedding video", ".mkv")]));
}

#[test]
fn downloaded_media_directory_downloaded_app_is_not_recognized() {
    assert!(!classify_created(DOWNLOADED_APP_DIRECTORY, &[]));
}

#[test]
fn directory_with_only_a_readme_is_not_media() {
    assert!(!classify_created("Show 1080p", &[("readme", ".txt")]));
    assert!(classify_created("Show 1080p", &[("show", ".mkv")]));
    let children = vec![DirectoryEntry { name: "readme.txt".to_string(), is_file: true }];
    assert!(!is_downloaded_media_directory("Show 1080p", true, &children));
    let children = vec![DirectoryEntry { name: "show.mkv".to_string(), is_file: true }];
    assert!(is_downloaded_media_directory("Show 1080p", true, &children));
}

#[test]
fn directory_checks_need_a_directory_and_a_file_child() {
    let file = vec![DirectoryEntry { name: "show.mkv".to_string(), is_file: true }];
    let dir = vec![DirectoryEntry { name: "show.mkv".to_string(), is_file: false }];
    assert!(!is_downloaded_media_directory("Show 1080p", false, &file));
    assert!(!is_downloaded_media_directory("Show 1080p", true, &dir));
    assert!(!is_downloaded_media_directory("Show", true, &file));
    assert!(!directory_needs_scan("Show 1080p", false));
    assert!(directory_needs_scan("Show 1080p", true));
}

#[test]
fn media_extensions_are_case_sensitive() {
    assert!(is_media_file("a.mkv"));
    assert!(is_media_file("a.avi"));
    assert!(is_media_file("a.mpeg"));
    assert!(is_media_file("a.mpg"));
    assert!(!is_media_file("a.MKV"));
    assert!(!is_media_file("mkv"));
    assert!(!is_media_file(".mkv"));
    assert!(!is_media_file("a.mkv.txt"));
}

#[test]
fn downloaded_looks_at_the_stem_only() {
    assert!(is_downloaded("x.720p.mkv"));
    assert!(is_downloaded("x2160px"));
    assert!(!is_downloaded("x.1080P.mkv"));
    assert!(!is_downloaded("x.1080p"));
    assert!(is_downloaded_media_file("x.1080p.avi"));
    assert!(!is_downloaded_media_file("x.1080p.txt"));
}
