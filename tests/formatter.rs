use media_sorter::formatter::{
    create_unified_separator, extract_season_and_episode_from_series_filename,
    format_lowercased_title, format_series_filename_before_rename,
    format_series_title_and_file_name, normalize_title_for_rename, remove_forbidden_characters,
    remove_the_prefix, remove_year_and_imdb_suffix, replace_many, FormatError,
};

const MANDALORIAN_FILE: &str =
    "The.Mandalorian.S02E02.Chapter.10.1080p.DSNP.WEB-DL.DDP.5.1.Atmos.H.264-PHOENiX.mkv";

fn title_matches_filename(title: &str, filename: &str) -> bool {
    let formatted_title = format_series_title_and_file_name(title);
    let formatted_filename = format_series_title_and_file_name(filename);
    formatted_filename.starts_with(&formatted_title)
}

#[test]
fn e2e_mismatch_title_and_filename() {
    assert!(!title_matches_filename("The Office tt0386676", MANDALORIAN_FILE));
}

#[test]
fn e2e_matching_title_and_filename_after_removing() {
    assert!(title_matches_filename("Mandalorian 2018", MANDALORIAN_FILE));
}

#[test]
fn full_title_format_imdb_suffix_is_removed() {
    assert_eq!(
        "avatar.the.last.airbender",
        format_series_title_and_file_name("Avatar: The Last Airbender tt9018736")
    );
}

#[test]
fn full_title_format_non_year_suffix_is_kept() {
    assert_eq!("catch.22", format_series_title_and_file_name("Catch 22"));
}

#[test]
fn full_title_format_unified_separator_applied_suffix_removed() {
    assert_eq!("catch.22", format_series_title_and_file_name("Catch 22_tt5056196"));
}

#[test]
fn full_title_format_removed_prefix_and_year_suffix() {
    assert_eq!("mandalorian", format_series_title_and_file_name("The Mandalorian 2018"));
}

#[test]
fn full_title_format_series_name_prefix_removed() {
    assert_eq!(
        "mandalorian.s02e02.chapter.10.1080p.dsnp.web-dl.ddp.5.1.atmos.h.264-phoenix.mkv",
        format_series_title_and_file_name(MANDALORIAN_FILE)
    );
}

#[test]
fn full_title_format_series_name_forbidden_characters_removed() {
    assert_eq!(
        "s.w.a.t.2017.s07e10.1080p.hdtv.x265-minx[tgx]",
        format_series_title_and_file_name("S.W.A.T.2017.S07E10.1080p_HDTV_;;x265-MiNX[TGx]")
    );
}

#[test]
fn format_before_rename_normal() {
    assert_eq!(
        Ok("Mandalorian - 02x02.mkv".to_string()),
        format_series_filename_before_rename(MANDALORIAN_FILE, "The Mandalorian 2018")
    );
}

#[test]
fn format_before_rename_avi_file() {
    assert_eq!(
        Ok("S.W.A.T - 07x10.avi".to_string()),
        format_series_filename_before_rename(
            "S.W.A.T.2017.S07E10.1080p_HDTV_;;x265-MiNX[TGx].avi",
            "S.W.A.T 2017"
        )
    );
}

#[test]
fn format_before_rename_without_marker() {
    assert_eq!(
        Err(FormatError::PatternNotFound),
        format_series_filename_before_rename("Our Wedding 2019.mkv", "Our Wedding")
    );
}

#[test]
fn format_before_rename_without_dot_uses_whole_name() {
    assert_eq!(
        Ok("Show - 01x02.show s01e02".to_string()),
        format_series_filename_before_rename("show s01e02", "Show")
    );
}

#[test]
fn normalizing_twice_changes_nothing() {
    for title in [
        "Avatar: The Last Airbender tt9018736",
        "Catch 22",
        "The Mandalorian 2018",
        "S.W.A.T.2017.S07E10.1080p_HDTV_;;x265-MiNX[TGx]",
        MANDALORIAN_FILE,
        "",
    ] {
        let once = format_series_title_and_file_name(title);
        assert_eq!(once, format_series_title_and_file_name(&once));
    }
}

#[test]
fn normalizing_twice_shortens_an_unstable_key() {
    let once = format_series_title_and_file_name("The The Movie");
    assert_eq!("the.movie", once);
    assert_eq!("movie", format_series_title_and_file_name(&once));
}

#[test]
fn normalized_key_has_no_forbidden_content() {
    let key = format_series_title_and_file_name("a b_c:d;e  f__g;;:");
    assert_eq!("a.b.cde..f..g", key);
    assert!(!key.contains([':', ';', ' ', '_']));
}

#[test]
fn normalization_lowercases() {
    assert_eq!("abc.def", format_series_title_and_file_name("ABC Def"));
    assert_eq!("ABC.Def", format_lowercased_title("ABC Def"));
}

#[test]
fn extraction_is_case_insensitive() {
    let expected = Ok(("02".to_string(), "02".to_string()));
    assert_eq!(expected, extract_season_and_episode_from_series_filename("Show.S02E02.mkv"));
    assert_eq!(expected, extract_season_and_episode_from_series_filename("Show.s02e02.mkv"));
    assert_eq!(expected, extract_season_and_episode_from_series_filename("Show.S02e02.mkv"));
}

#[test]
fn extraction_takes_leftmost_marker_and_keeps_zeros() {
    assert_eq!(
        Ok(("07".to_string(), "10".to_string())),
        extract_season_and_episode_from_series_filename("x.S07E10.s01e01")
    );
}

#[test]
fn extraction_without_marker_fails() {
    assert_eq!(
        Err(FormatError::PatternNotFound),
        extract_season_and_episode_from_series_filename("S1E1 S001E001 s0xe01")
    );
}

#[test]
fn unified_separator_replaces_spaces_and_underscores() {
    assert_eq!("a.b.c", create_unified_separator("a b_c"));
}

#[test]
fn forbidden_characters_are_removed() {
    assert_eq!("ab", remove_forbidden_characters(":a;b;"));
}

#[test]
fn replace_many_replaces_each_listed_character() {
    assert_eq!("x--y--z", replace_many("x y_z", &[' ', '_'], "--"));
}

#[test]
fn replace_many_applies_replacements_in_order() {
    assert_eq!("bbbb", replace_many("a", &['a', 'b'], "bb"));
    assert_eq!("bb", replace_many("a", &['b', 'a'], "bb"));
    assert_eq!("ccc", replace_many("abc", &['a', 'b'], "c"));
}

#[test]
fn year_must_be_the_whole_final_segment() {
    assert_eq!("blade.runner.(1982)", remove_year_and_imdb_suffix("blade.runner.(1982)", '.'));
}

#[test]
fn normalized_key_of_non_ascii_title_has_no_capitals() {
    let key = format_series_title_and_file_name("ÉCOLE Über ALLES");
    assert_eq!("école.über.alles", key);
    assert!(!key.chars().any(|c| c.is_ascii_uppercase()));
}

#[test]
fn the_prefix_is_removed_once() {
    assert_eq!("x", remove_the_prefix("The.x", '.'));
    assert_eq!("the.x", remove_the_prefix("the.the.x", '.'));
    assert_eq!("thex", remove_the_prefix("thex", '.'));
    assert_eq!("THE.x", remove_the_prefix("THE.x", '.'));
}

#[test]
fn ids_are_removed_everywhere() {
    assert_eq!("a.b", remove_year_and_imdb_suffix("tt1a.btt22.tt333", '.'));
    assert_eq!("t", remove_year_and_imdb_suffix("ttt12", '.'));
    assert_eq!("tt.x", remove_year_and_imdb_suffix("tt.x", '.'));
}

#[test]
fn year_suffix_needs_length_and_range() {
    assert_eq!("blade.runner", remove_year_and_imdb_suffix("blade.runner.1982", '.'));
    assert_eq!("up.2009", remove_year_and_imdb_suffix("up.2009", '.'));
    assert_eq!("metropolis.1927", remove_year_and_imdb_suffix("metropolis.1927", '.'));
    assert_eq!("future.2040", remove_year_and_imdb_suffix("future.2040", '.'));
    assert_eq!("the.movie.2039", remove_year_and_imdb_suffix("the.movie.2039.2039", '.'));
    assert_eq!("year", remove_year_and_imdb_suffix("year.1930.", '.'));
    assert_eq!("abcdefgh2018", remove_year_and_imdb_suffix("abcdefgh2018", '.'));
}

#[test]
fn rename_title_keeps_case_and_spaces() {
    assert_eq!("Mandalorian", normalize_title_for_rename("The Mandalorian 2018"));
    assert_eq!("Avatar: The Last Airbender", normalize_title_for_rename("Avatar: The Last Airbender tt9018736"));
}
