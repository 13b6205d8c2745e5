use media_inventory::utils::file::{file_directory, file_name, without_ext};
use media_inventory::utils::media::{is_avi_file, is_media, is_non_avi_video_file};
use media_inventory::utils::text::{
    chars_of, ends_with, find_char, find_last_char, range_is, same_text,
};

#[test]
fn chars_of_gives_the_characters() {
    assert_eq!(chars_of("aé|"), vec!['a', 'é', '|']);
    assert_eq!(chars_of(""), Vec::<char>::new());
}

#[test]
fn same_text_compares_all_characters() {
    assert!(same_text("", ""));
    assert!(same_text("h264", "h264"));
    assert!(!same_text("h264", "h265"));
    assert!(!same_text("h264", "h26"));
    assert!(!same_text("h26", "h264"));
    assert!(!same_text("", "a"));
    assert!(same_text("été", "été"));
    assert!(!same_text("été", "ete"));
}

#[test]
fn range_is_compares_a_range_with_a_word() {
    let chars = chars_of("stream|codec");
    assert!(range_is(&chars, 0, 6, "stream"));
    assert!(!range_is(&chars, 0, 5, "stream"));
    assert!(!range_is(&chars, 0, 7, "stream"));
    assert!(range_is(&chars, 7, 12, "codec"));
    assert!(range_is(&chars, 3, 3, ""));
    assert!(!range_is(&chars, 3, 4, ""));
    assert!(!range_is(&chars, 0, 6, "strean"));
}

#[test]
fn find_char_gives_the_first_position_in_the_range() {
    let chars = chars_of("a=b=c|d=e");
    assert_eq!(find_char(&chars, 0, 9, '='), 1);
    assert_eq!(find_char(&chars, 2, 9, '='), 3);
    assert_eq!(find_char(&chars, 4, 5, '='), 5);
    assert_eq!(find_char(&chars, 0, 9, '|'), 5);
    assert_eq!(find_char(&chars, 6, 9, '|'), 9);
    assert_eq!(find_char(&chars, 0, 0, 'a'), 0);
    assert_eq!(find_char(&chars, 0, 9, 'a'), 0);
}

#[test]
fn find_last_char_gives_the_last_position() {
    assert_eq!(find_last_char(&chars_of("a.b.c"), '.'), Some(3));
    assert_eq!(find_last_char(&chars_of(".abc"), '.'), Some(0));
    assert_eq!(find_last_char(&chars_of("abc."), '.'), Some(3));
    assert_eq!(find_last_char(&chars_of("abc"), '.'), None);
    assert_eq!(find_last_char(&chars_of(""), '.'), None);
}

#[test]
fn ends_with_compares_the_end() {
    assert!(ends_with("movie.avi", ".avi"));
    assert!(ends_with(".avi", ".avi"));
    assert!(!ends_with("avi", ".avi"));
    assert!(!ends_with("movie.avi.bak", ".avi"));
    assert!(ends_with("movie", ""));
    assert!(ends_with("", ""));
    assert!(!ends_with("", "a"));
    assert!(ends_with("fête.été", "été"));
}

#[test]
fn media_files_are_told_by_their_extension() {
    assert!(is_media("/lib/clip.avi"));
    assert!(is_media("/lib/clip.mp4"));
    assert!(is_media("/lib/clip.mkv"));
    assert!(!is_media("/lib/clip.txt"));
    assert!(!is_media("/lib/clip.AVI"));
    assert!(!is_media("/lib/clip.mkv.part"));
    assert!(!is_media("/lib/clipmkv"));
    assert!(is_media(".mkv"));
    assert!(!is_media(""));
}

#[test]
fn avi_and_other_video_files_are_told_apart() {
    assert!(is_avi_file("clip.avi"));
    assert!(!is_avi_file("clip.mp4"));
    assert!(!is_avi_file("clip.mkv"));
    assert!(!is_non_avi_video_file("clip.avi"));
    assert!(is_non_avi_video_file("clip.mp4"));
    assert!(is_non_avi_video_file("clip.mkv"));
    assert!(!is_non_avi_video_file("clip.srt"));
    assert!(!is_avi_file("clip.srt"));
}

#[test]
fn file_name_is_what_follows_the_last_slash() {
    assert_eq!(file_name("/archive/movie.mkv"), "movie.mkv");
    assert_eq!(file_name("/lib/x/movie.bak.mkv"), "movie.bak.mkv");
    assert_eq!(file_name("movie.mkv"), "movie.mkv");
    assert_eq!(file_name("lib/été/fête.avi"), "fête.avi");
    assert_eq!(file_name("/movie.mkv"), "movie.mkv");
    assert_eq!(file_name("/lib/"), "");
    assert_eq!(file_name(""), "");
}

#[test]
fn file_directory_is_what_precedes_the_last_slash() {
    assert_eq!(file_directory("/archive/movie.mkv"), "/archive");
    assert_eq!(file_directory("/lib/x/movie.bak.mkv"), "/lib/x");
    assert_eq!(file_directory("movie.mkv"), "");
    assert_eq!(file_directory("lib/été/fête.avi"), "lib/été");
    assert_eq!(file_directory("/movie.mkv"), "");
    assert_eq!(file_directory("/lib/"), "/lib");
    assert_eq!(file_directory(""), "");
}

#[test]
fn without_ext_drops_the_final_extension_only() {
    assert_eq!(without_ext("movie.mkv"), "movie");
    assert_eq!(without_ext("movie.bak.mkv"), "movie.bak");
    assert_eq!(without_ext("movie"), "movie");
    assert_eq!(without_ext("movie."), "movie");
    assert_eq!(without_ext(".mkv"), "");
    assert_eq!(without_ext(""), "");
    assert_eq!(without_ext("fête d'été.avi"), "fête d'été");
}
