use media_inventory::ffprobe::streams::{Codec, Stream};
use media_inventory::search::{
    is_invalid_media_stream, need_transcoding, probe_verdict, Search, SearchAction, SearchEvent,
    Verdict,
};
use media_inventory::walker::Entry;
use std::collections::HashMap;

fn track(codec: Codec, name: &str, language: Option<&str>) -> Stream {
    let mut stream = Stream::new();
    stream.set_codec(codec);
    stream.set_name(name);
    if let Some(language) = language {
        stream.set_language(language);
    }
    stream
}

fn lines(lines: &[&str]) -> Vec<String> {
    lines.iter().map(|line| line.to_string()).collect()
}

const H264: &str = "stream|index=0|codec_name=h264|codec_type=video";
const HEVC: &str = "stream|index=0|codec_name=hevc|codec_type=video";
const AAC: &str = "stream|index=1|codec_name=aac|codec_type=audio|tag:language=eng";
const MP3: &str = "stream|index=1|codec_name=mp3|codec_type=audio|tag:language=eng";
const SUB_FRA: &str = "stream|index=2|codec_name=srt|codec_type=subtitle|TAG:LANGUAGE=fra";
const SUB_JPN: &str = "stream|index=2|codec_name=srt|codec_type=subtitle|TAG:LANGUAGE=jpn";

/// A tree in memory: the listing of each directory and the probe output of
/// each file.
struct Disk {
    listings: HashMap<String, Vec<(String, bool)>>,
    probes: HashMap<String, Vec<String>>,
}

impl Disk {
    fn new() -> Disk {
        Disk { listings: HashMap::new(), probes: HashMap::new() }
    }

    fn with_dir(mut self, location: &str, entries: &[(&str, bool)]) -> Disk {
        let entries = entries.iter().map(|(name, is_dir)| (format!("{location}/{name}"), *is_dir));
        self.listings.insert(location.to_string(), entries.collect());
        self
    }

    fn with_probe(mut self, location: &str, output: &[&str]) -> Disk {
        self.probes.insert(location.to_string(), lines(output));
        self
    }

    /// Runs a search the way a caller does; gives what was recorded and
    /// everything that was asked for, in order.
    fn search(&self, root: &str) -> (Vec<String>, Vec<String>) {
        let mut recorded = Vec::new();
        let mut asked = Vec::new();
        let mut search = Search::new(root.to_string());
        let mut event = SearchEvent::Continue;
        loop {
            match search.on(event) {
                SearchAction::ReadDirectory(location) => {
                    let listing = self.listings.get(&location).expect("a listed directory");
                    let entries = listing.iter().map(|(location, is_dir)| Entry {
                        location: location.clone(),
                        is_dir: *is_dir,
                    });
                    event = SearchEvent::Listed(entries.collect());
                    asked.push(format!("read {location}"));
                },
                SearchAction::Probe(location) => {
                    let output = self.probes.get(&location).expect("a probed file").clone();
                    asked.push(format!("probe {location}"));
                    event = SearchEvent::Probed(location, output);
                },
                SearchAction::Record(location) => {
                    recorded.push(location);
                    event = SearchEvent::Continue;
                },
                SearchAction::Malformed(segment) => {
                    asked.push(format!("malformed {segment}"));
                    return (recorded, asked);
                },
                SearchAction::Finished => {
                    return (recorded, asked);
                },
            }
        }
    }
}

#[test]
fn classifier_follows_the_codec_policy() {
    assert!(!is_invalid_media_stream(track(Codec::Video, "h264", None)));
    assert!(is_invalid_media_stream(track(Codec::Video, "hevc", None)));
    assert!(!is_invalid_media_stream(track(Codec::Audio, "aac", Some("eng"))));
    assert!(is_invalid_media_stream(track(Codec::Audio, "mp3", Some("eng"))));
    assert!(is_invalid_media_stream(track(Codec::Audio, "h264", Some("eng"))));
    assert!(!is_invalid_media_stream(track(Codec::Subtitle, "srt", Some("fra"))));
    assert!(!is_invalid_media_stream(track(Codec::Subtitle, "ass", Some("und"))));
    assert!(is_invalid_media_stream(track(Codec::Subtitle, "srt", Some("jpn"))));
    assert!(is_invalid_media_stream(track(Codec::Subtitle, "srt", None)));
}

#[test]
fn file_needs_transcoding_when_one_stream_is_invalid() {
    assert!(!need_transcoding(Vec::new()));
    assert!(!need_transcoding(vec![
        track(Codec::Video, "h264", None),
        track(Codec::Audio, "aac", Some("eng")),
        track(Codec::Subtitle, "srt", Some("eng")),
    ]));
    assert!(need_transcoding(vec![
        track(Codec::Video, "h264", None),
        track(Codec::Audio, "aac", Some("eng")),
        track(Codec::Subtitle, "srt", Some("deu")),
    ]));
    assert!(need_transcoding(vec![
        track(Codec::Video, "mpeg4", None),
        track(Codec::Audio, "aac", Some("eng")),
    ]));
    assert!(need_transcoding(vec![track(Codec::Audio, "ac3", Some("eng"))]));
}

#[test]
fn verdict_on_probe_output() {
    assert!(matches!(probe_verdict(&lines(&[])), Verdict::Keep));
    assert!(matches!(probe_verdict(&lines(&[H264, AAC, SUB_FRA])), Verdict::Keep));
    assert!(matches!(probe_verdict(&lines(&[H264, MP3, SUB_FRA])), Verdict::Transcode));
    assert!(matches!(probe_verdict(&lines(&[HEVC])), Verdict::Transcode));
    assert!(matches!(probe_verdict(&lines(&[H264, AAC, SUB_JPN])), Verdict::Transcode));
    assert!(matches!(
        probe_verdict(&lines(&["format|x=y", "", "stream|codec_type=data|codec_name=bin"])),
        Verdict::Keep
    ));
}

#[test]
fn verdict_on_malformed_probe_output() {
    match probe_verdict(&lines(&[H264, "stream|codec_type=audio|codec_name", MP3])) {
        Verdict::Malformed(segment) => assert_eq!(segment, "codec_name"),
        _ => panic!("should be malformed"),
    }
    assert!(matches!(
        probe_verdict(&lines(&[HEVC, "stream|codec_type=audio|codec_name"])),
        Verdict::Transcode
    ));
}

#[test]
fn scan_records_avi_and_keeps_acceptable_mkv() {
    let disk = Disk::new()
        .with_dir("/lib", &[("movie.mkv", false), ("clip.avi", false)])
        .with_probe("/lib/movie.mkv", &[H264, AAC]);
    let (recorded, asked) = disk.search("/lib");
    assert_eq!(recorded, vec!["/lib/clip.avi"]);
    assert_eq!(asked, vec!["read /lib", "probe /lib/movie.mkv"]);
}

#[test]
fn scan_records_in_traversal_order() {
    let disk = Disk::new()
        .with_dir(
            "/lib",
            &[("b.mp4", false), ("notes.txt", false), ("x", true), ("a.avi", false), ("y", true)],
        )
        .with_dir("/lib/x", &[("deep", true), ("c.mkv", false), ("d.mkv", false)])
        .with_dir("/lib/x/deep", &[("e.avi", false), ("cover.jpg", false)])
        .with_dir("/lib/y", &[])
        .with_probe("/lib/b.mp4", &[H264, MP3])
        .with_probe("/lib/x/c.mkv", &[H264, AAC, SUB_FRA])
        .with_probe("/lib/x/d.mkv", &[HEVC, AAC]);
    let (recorded, asked) = disk.search("/lib");
    assert_eq!(recorded, vec!["/lib/b.mp4", "/lib/x/deep/e.avi", "/lib/x/d.mkv", "/lib/a.avi"]);
    assert_eq!(
        asked,
        vec![
            "read /lib",
            "probe /lib/b.mp4",
            "read /lib/x",
            "read /lib/x/deep",
            "probe /lib/x/c.mkv",
            "probe /lib/x/d.mkv",
            "read /lib/y",
        ]
    );
}

#[test]
fn scan_twice_gives_the_same_listing() {
    let disk = Disk::new()
        .with_dir("/lib", &[("b.mp4", false), ("x", true), ("a.avi", false)])
        .with_dir("/lib/x", &[("c.mkv", false), ("d.mkv", false)])
        .with_probe("/lib/b.mp4", &[H264, MP3])
        .with_probe("/lib/x/c.mkv", &[H264, AAC, SUB_FRA])
        .with_probe("/lib/x/d.mkv", &[HEVC, AAC]);
    let first = disk.search("/lib");
    let second = disk.search("/lib");
    assert_eq!(first, second);
    assert_eq!(first.0.join("\n"), "/lib/b.mp4\n/lib/x/d.mkv\n/lib/a.avi");
}

#[test]
fn scan_of_an_empty_tree_records_nothing() {
    let disk = Disk::new().with_dir("/lib", &[]);
    let (recorded, asked) = disk.search("/lib");
    assert!(recorded.is_empty());
    assert_eq!(asked, vec!["read /lib"]);
}

#[test]
fn scan_gives_up_on_malformed_probe_output() {
    let disk = Disk::new()
        .with_dir("/lib", &[("a.avi", false), ("b.mkv", false), ("c.avi", false)])
        .with_probe("/lib/b.mkv", &["stream|codec_type"]);
    let (recorded, asked) = disk.search("/lib");
    assert_eq!(recorded, vec!["/lib/a.avi"]);
    assert_eq!(asked, vec!["read /lib", "probe /lib/b.mkv", "malformed codec_type"]);
}

#[test]
fn directory_named_like_a_media_file_is_read_not_recorded() {
    let disk = Disk::new().with_dir("/lib", &[("season.avi", true)]).with_dir(
        "/lib/season.avi",
        &[("e1.avi", false)],
    );
    let (recorded, asked) = disk.search("/lib");
    assert_eq!(recorded, vec!["/lib/season.avi/e1.avi"]);
    assert_eq!(asked, vec!["read /lib", "read /lib/season.avi"]);
}
