use media_inventory::import::matches::PendingMatches;
use media_inventory::import::{
    destination, fail_import, get_medias_map, origin, process_media, Import, ImportAction,
    ImportEvent,
};
use media_inventory::walker::Entry;
use std::collections::HashMap;

fn locations(locations: &[&str]) -> Vec<String> {
    locations.iter().map(|location| location.to_string()).collect()
}

fn pending(pairs: &[(&str, &str)]) -> PendingMatches {
    let mut matches = PendingMatches::new();
    for (media, location) in pairs {
        matches.insert(media.to_string(), location.to_string());
    }
    matches
}

/// Runs an import the way a caller does; gives the replacements as
/// (origin, target, destination), everything else that was asked for, and
/// the report if it failed.
fn import(
    medias_map: PendingMatches,
    root: &str,
    listings: &HashMap<String, Vec<(String, bool)>>,
) -> (Vec<(String, String, String)>, Vec<String>, Option<String>) {
    let mut replaced = Vec::new();
    let mut read = Vec::new();
    let mut import = Import::new(medias_map, root.to_string());
    let mut event = ImportEvent::Continue;
    loop {
        match import.on(event) {
            ImportAction::ReadDirectory(location) => {
                let listing = listings.get(&location).expect("a listed directory");
                let entries = listing.iter().map(|(location, is_dir)| Entry {
                    location: location.clone(),
                    is_dir: *is_dir,
                });
                event = ImportEvent::Listed(entries.collect());
                read.push(location);
            },
            ImportAction::Replace(replacement) => {
                replaced.push((replacement.origin, replacement.target, replacement.destination));
                event = ImportEvent::Continue;
            },
            ImportAction::Finished => {
                return (replaced, read, None);
            },
            ImportAction::Failed(message) => {
                return (replaced, read, Some(message));
            },
        }
    }
}

fn tree(directories: &[(&str, &[(&str, bool)])]) -> HashMap<String, Vec<(String, bool)>> {
    let mut listings = HashMap::new();
    for (location, entries) in directories {
        let entries = entries.iter().map(|(name, is_dir)| (format!("{location}/{name}"), *is_dir));
        listings.insert(location.to_string(), entries.collect());
    }
    listings
}

#[test]
fn pending_matches_behave_like_a_map() {
    let mut matches = PendingMatches::new();
    assert!(matches.is_empty());
    assert_eq!(matches.len(), 0);
    assert!(!matches.contains_key("movie"));
    assert_eq!(matches.get("movie"), None);
    matches.insert("movie".to_string(), "/archive/movie.mkv".to_string());
    matches.insert("clip".to_string(), "/archive/clip.avi".to_string());
    assert!(!matches.is_empty());
    assert_eq!(matches.len(), 2);
    assert!(matches.contains_key("movie"));
    assert!(matches.contains_key("clip"));
    assert!(!matches.contains_key("Movie"));
    assert_eq!(matches.get("movie"), Some(&"/archive/movie.mkv".to_string()));
    assert_eq!(matches.get("clip"), Some(&"/archive/clip.avi".to_string()));
    assert_eq!(matches.values(), locations(&["/archive/movie.mkv", "/archive/clip.avi"]));
    matches.remove("movie");
    assert_eq!(matches.len(), 1);
    assert!(!matches.contains_key("movie"));
    assert_eq!(matches.get("clip"), Some(&"/archive/clip.avi".to_string()));
    matches.remove("movie");
    assert_eq!(matches.len(), 1);
    matches.remove("clip");
    assert!(matches.is_empty());
    assert!(matches.values().is_empty());
}

#[test]
fn later_value_overwrites_earlier_one() {
    let mut matches = pending(&[("movie", "/archive/movie.mkv"), ("clip", "/archive/clip.avi")]);
    matches.insert("movie".to_string(), "/archive/movie.mp4".to_string());
    assert_eq!(matches.len(), 2);
    assert_eq!(matches.get("movie"), Some(&"/archive/movie.mp4".to_string()));
    assert_eq!(matches.values(), locations(&["/archive/movie.mp4", "/archive/clip.avi"]));
}

#[test]
fn medias_map_holds_the_media_files_by_base_name() {
    let medias_map = get_medias_map(&locations(&[
        "/archive/movie.mkv",
        "/archive/notes.txt",
        "/archive/clip.old.avi",
        "/archive/show.mp4",
        "/archive/folder",
    ]));
    assert_eq!(medias_map.len(), 3);
    assert_eq!(medias_map.get("movie"), Some(&"/archive/movie.mkv".to_string()));
    assert_eq!(medias_map.get("clip.old"), Some(&"/archive/clip.old.avi".to_string()));
    assert_eq!(medias_map.get("show"), Some(&"/archive/show.mp4".to_string()));
    assert!(!medias_map.contains_key("notes"));
    assert!(!medias_map.contains_key("folder"));
    assert!(!medias_map.contains_key("clip"));
}

#[test]
fn medias_map_keeps_the_last_of_two_files_with_one_base_name() {
    let medias_map = get_medias_map(&locations(&[
        "/archive/movie.mkv",
        "/archive/clip.avi",
        "/archive/movie.avi",
    ]));
    assert_eq!(medias_map.len(), 2);
    assert_eq!(medias_map.get("movie"), Some(&"/archive/movie.avi".to_string()));
    assert_eq!(medias_map.values(), locations(&["/archive/movie.avi", "/archive/clip.avi"]));
}

#[test]
fn medias_map_of_nothing_is_empty() {
    assert!(get_medias_map(&Vec::new()).is_empty());
    assert!(get_medias_map(&locations(&["/archive/readme.md"])).is_empty());
}

#[test]
fn origin_is_the_location_under_the_base_name() {
    let matches = pending(&[("movie", "/archive/movie.mkv"), ("clip", "/archive/clip.avi")]);
    assert_eq!(origin(&"clip".to_string(), &matches), "/archive/clip.avi");
    assert_eq!(origin(&"movie".to_string(), &matches), "/archive/movie.mkv");
}

#[test]
fn destination_is_the_target_directory_and_the_origin_name() {
    assert_eq!(destination("/archive/movie.mkv", "/lib/x/movie.avi"), "/lib/x/movie.mkv");
    assert_eq!(destination("/archive/movie.mkv", "/lib/x/movie.mkv"), "/lib/x/movie.mkv");
    assert_eq!(destination("movie.mkv", "lib/movie.avi"), "lib/movie.mkv");
    assert_eq!(destination("/archive/movie.mkv", "movie.avi"), "/movie.mkv");
    assert_eq!(destination("/a/fête.mkv", "/été/fête.avi"), "/été/fête.mkv");
}

#[test]
fn process_media_takes_a_match_out() {
    let mut matches = pending(&[("movie", "/archive/movie.mkv"), ("clip", "/archive/clip.avi")]);
    let replacement = process_media("/lib/x/movie.avi", &mut matches).expect("a match");
    assert_eq!(replacement.origin, "/archive/movie.mkv");
    assert_eq!(replacement.target, "/lib/x/movie.avi");
    assert_eq!(replacement.destination, "/lib/x/movie.mkv");
    assert_eq!(matches.len(), 1);
    assert!(!matches.contains_key("movie"));
    assert!(matches.contains_key("clip"));
    assert!(process_media("/lib/y/movie.mkv", &mut matches).is_none());
    assert_eq!(matches.len(), 1);
}

#[test]
fn process_media_leaves_other_files_alone() {
    let mut matches = pending(&[("movie", "/archive/movie.mkv")]);
    assert!(process_media("/lib/x/movie.bak.mkv", &mut matches).is_none());
    assert!(process_media("/lib/x/other.mkv", &mut matches).is_none());
    assert!(process_media("/lib/movie/film.mkv", &mut matches).is_none());
    assert_eq!(matches.len(), 1);
    assert_eq!(matches.get("movie"), Some(&"/archive/movie.mkv".to_string()));
}

#[test]
fn failure_report_lists_every_unmatched_location() {
    let matches = pending(&[
        ("movie", "/archive/movie.mkv"),
        ("clip", "/archive/clip.avi"),
        ("show", "/archive/show.mp4"),
    ]);
    assert_eq!(
        fail_import(&matches),
        "Import failed!\nRemaining medias not imported :\n/archive/movie.mkv\n/archive/clip.avi\n/archive/show.mp4"
    );
    let matches = pending(&[("movie", "/archive/movie.mkv")]);
    assert_eq!(
        fail_import(&matches),
        "Import failed!\nRemaining medias not imported :\n/archive/movie.mkv"
    );
    assert_eq!(
        fail_import(&PendingMatches::new()),
        "Import failed!\nRemaining medias not imported :\n"
    );
}

#[test]
fn import_replaces_the_matching_target_and_empties_the_map() {
    let listings = tree(&[("/lib", &[("x", true)]), ("/lib/x", &[("movie.mkv", false)])]);
    let medias_map = pending(&[("movie", "/archive/movie.mkv")]);
    let (replaced, read, failure) = import(medias_map, "/lib", &listings);
    assert_eq!(
        replaced,
        vec![(
            "/archive/movie.mkv".to_string(),
            "/lib/x/movie.mkv".to_string(),
            "/lib/x/movie.mkv".to_string()
        )]
    );
    assert_eq!(read, locations(&["/lib", "/lib/x"]));
    assert_eq!(failure, None);
}

#[test]
fn import_matches_by_base_name_without_the_final_extension_only() {
    let listings = tree(&[("/lib", &[("x", true)]), ("/lib/x", &[("movie.bak.mkv", false)])]);
    let medias_map = pending(&[("movie", "/archive/movie.mkv")]);
    let (replaced, _, failure) = import(medias_map, "/lib", &listings);
    assert!(replaced.is_empty());
    assert!(failure.expect("a failure").contains("/archive/movie.mkv"));

    let medias_map = get_medias_map(&locations(&["/archive/movie.bak.avi"]));
    let (replaced, _, failure) = import(medias_map, "/lib", &listings);
    assert_eq!(
        replaced,
        vec![(
            "/archive/movie.bak.avi".to_string(),
            "/lib/x/movie.bak.mkv".to_string(),
            "/lib/x/movie.bak.avi".to_string()
        )]
    );
    assert_eq!(failure, None);
}

#[test]
fn import_fails_with_every_unmatched_location() {
    let listings = tree(&[
        ("/lib", &[("clip.mp4", false), ("x", true), ("notes.txt", false)]),
        ("/lib/x", &[("other.mkv", false)]),
    ]);
    let medias_map = get_medias_map(&locations(&[
        "/archive/movie.mkv",
        "/archive/clip.avi",
        "/archive/show.mp4",
    ]));
    let (replaced, read, failure) = import(medias_map, "/lib", &listings);
    assert_eq!(
        replaced,
        vec![(
            "/archive/clip.avi".to_string(),
            "/lib/clip.mp4".to_string(),
            "/lib/clip.avi".to_string()
        )]
    );
    assert_eq!(read, locations(&["/lib", "/lib/x"]));
    let failure = failure.expect("a failure");
    assert!(failure.contains("/archive/movie.mkv"));
    assert!(failure.contains("/archive/show.mp4"));
    assert!(!failure.contains("/archive/clip.avi"));
    assert_eq!(
        failure,
        "Import failed!\nRemaining medias not imported :\n/archive/movie.mkv\n/archive/show.mp4"
    );
}

#[test]
fn import_stops_walking_once_everything_is_matched() {
    let listings = tree(&[
        ("/lib", &[("a", true), ("movie.avi", false), ("b", true), ("clip.avi", false)]),
        ("/lib/a", &[("deep", true)]),
        ("/lib/a/deep", &[]),
        ("/lib/b", &[("movie.mkv", false)]),
    ]);
    let medias_map = pending(&[("movie", "/archive/movie.mkv")]);
    let (replaced, read, failure) = import(medias_map, "/lib", &listings);
    assert_eq!(replaced.len(), 1);
    assert_eq!(replaced[0].1, "/lib/movie.avi");
    assert_eq!(read, locations(&["/lib", "/lib/a", "/lib/a/deep"]));
    assert_eq!(failure, None);
}

#[test]
fn import_of_nothing_reads_the_target_directory_only() {
    let listings = tree(&[("/lib", &[("a", true), ("movie.avi", false)]), ("/lib/a", &[])]);
    let (replaced, read, failure) = import(PendingMatches::new(), "/lib", &listings);
    assert!(replaced.is_empty());
    assert_eq!(read, locations(&["/lib"]));
    assert_eq!(failure, None);
}

#[test]
fn import_matches_one_target_per_archived_file() {
    let listings = tree(&[("/lib", &[("movie.avi", false), ("movie.mkv", false)])]);
    let medias_map = pending(&[("movie", "/archive/movie.mp4"), ("clip", "/archive/clip.avi")]);
    let (replaced, _, failure) = import(medias_map, "/lib", &listings);
    assert_eq!(
        replaced,
        vec![(
            "/archive/movie.mp4".to_string(),
            "/lib/movie.avi".to_string(),
            "/lib/movie.mp4".to_string()
        )]
    );
    assert_eq!(
        failure,
        Some("Import failed!\nRemaining medias not imported :\n/archive/clip.avi".to_string())
    );
}

#[test]
fn import_passes_over_files_that_are_not_media() {
    let listings = tree(&[("/lib", &[("movie.txt", false), ("movie", false)])]);
    let medias_map = pending(&[("movie", "/archive/movie.mkv")]);
    let (replaced, _, failure) = import(medias_map, "/lib", &listings);
    assert!(replaced.is_empty());
    assert!(failure.is_some());
}
