use playlist_audio::dependencies::{
    compare_digest, expected_checksum, find_asset_url, select_archive_entries, to_lower_hex, verify_ytdlp_download,
    AssetFields, ChecksumError,
};
use playlist_audio::downloader::{exit_report, progress_download_status, sequential_args, DownloadStatus};
use playlist_audio::playlist::{
    analyze_args, analyze_failed_message, parse_playlist_output, playlist_from_entries, split_lines, AnalyzeError,
    EntryFields,
};
use playlist_audio::worker::CommandArg;

fn render(args: Vec<CommandArg>) -> String {
    args.into_iter()
        .map(|a| match a {
            CommandArg::Text(t) => t.to_string(),
            CommandArg::FfmpegDir => "<bin>".to_string(),
            CommandArg::OutputTemplate => "<out>".to_string(),
            CommandArg::Url => "<url>".to_string(),
        })
        .collect::<Vec<_>>()
        .join(" ")
}

#[test]
fn lines_follow_str_lines() {
    for s in ["", "a", "a\n", "a\r\nb", "a\n\nb\n", "\n", "x\r", "a\r\r\n", "\r\n\r\n"] {
        let expected: Vec<String> = s.lines().map(String::from).collect();
        assert_eq!(split_lines(s), expected, "{s:?}");
    }
}

#[test]
fn a_playlist_is_read_line_by_line() {
    let out = "{\"id\": \"abc\", \"title\": \"First\", \"duration\": 61.9, \"playlist_title\": \"Mix\", \"playlist_id\": \"PL1\"}\n\
               \n   \n\
               {\"id\": \"def\", \"thumbnail\": \"https://i/t.jpg\", \"playlist_title\": \"Other\"}\r\n";
    let p = parse_playlist_output("https://www.youtube.com/playlist?list=PL1", out).ok().unwrap();
    assert_eq!(p.title, "Mix");
    assert_eq!(p.source_playlist_id, "PL1");
    assert_eq!(p.url, "https://www.youtube.com/playlist?list=PL1");
    assert_eq!(p.items.len(), 2);
    assert_eq!(p.items[0].id, "abc");
    assert_eq!(p.items[0].title, "First");
    assert_eq!(p.items[0].url, "https://www.youtube.com/watch?v=abc");
    assert_eq!(p.items[0].duration, Some(61));
    assert_eq!(p.items[0].thumbnail, None);
    assert_eq!(p.items[0].index, 1);
    assert_eq!(p.items[1].id, "def");
    assert_eq!(p.items[1].title, "Untitled");
    assert_eq!(p.items[1].duration, None);
    assert_eq!(p.items[1].thumbnail.as_deref(), Some("https://i/t.jpg"));
    assert_eq!(p.items[1].index, 2);
}

#[test]
fn playlist_defaults_when_fields_are_missing() {
    let p = parse_playlist_output("URL", "{\"title\": \"t\"}\n[1, 2]\n").ok().unwrap();
    assert_eq!(p.title, "Playlist");
    assert_eq!(p.source_playlist_id, "URL");
    assert_eq!(p.items[0].id, "");
    assert_eq!(p.items[0].url, "https://www.youtube.com/watch?v=");
    assert_eq!(p.items[1].title, "Untitled");
    let p = parse_playlist_output("URL", "{\"id\": \"a\"}\n{\"id\": \"b\", \"playlist_id\": \"P\"}").ok().unwrap();
    assert_eq!(p.source_playlist_id, "P");
}

#[test]
fn analysis_errors() {
    assert_eq!(parse_playlist_output("u", "").err(), Some(AnalyzeError::NoItems));
    assert_eq!(parse_playlist_output("u", " \n\t\n").err(), Some(AnalyzeError::NoItems));
    assert_eq!(parse_playlist_output("u", "{\"id\": \"a\"}\nnot json\n").err(), Some(AnalyzeError::InvalidJson));
    assert_eq!(AnalyzeError::NoItems.message(), "no items found for this URL");
    assert_eq!(AnalyzeError::InvalidJson.message(), "parsing yt-dlp json line");
    assert_eq!(analyze_failed_message("ERROR: 404"), "yt-dlp analyze failed: ERROR: 404");
    assert_eq!(render(analyze_args()), "--flat-playlist --dump-json --no-warnings <url>");
}

#[test]
fn assets_are_found_by_exact_name() {
    let assets = vec![
        AssetFields { name: Some("yt-dlp".into()), browser_download_url: Some("u0".into()) },
        AssetFields { name: None, browser_download_url: Some("u1".into()) },
        AssetFields { name: Some("yt-dlp.exe".into()), browser_download_url: Some("u2".into()) },
        AssetFields { name: Some("yt-dlp.exe".into()), browser_download_url: Some("u3".into()) },
        AssetFields { name: Some("SHA2-256SUMS".into()), browser_download_url: None },
    ];
    assert_eq!(find_asset_url(&assets, "yt-dlp.exe"), Some("u2".to_string()));
    assert_eq!(find_asset_url(&assets, "SHA2-256SUMS"), None);
    assert_eq!(find_asset_url(&assets, "missing"), None);
}

#[test]
fn checksum_is_read_from_the_sums_file() {
    let sums = "111  yt-dlp\n  222 yt-dlp.exe\n333  yt-dlp.exe\n";
    assert_eq!(expected_checksum(sums, "yt-dlp.exe"), Some("222".to_string()));
    assert_eq!(expected_checksum("aaa  yt-dlp_x86.exe.zip\n", "yt-dlp.exe"), None);
    assert_eq!(expected_checksum("", "yt-dlp.exe"), None);
}

#[test]
fn downloads_are_verified_with_sha256() {
    assert_eq!(
        to_lower_hex(&vec![0x00, 0x0f, 0xab, 0xff]).into_iter().collect::<String>(),
        "000fabff"
    );
    let abc_digest = "ba7816bf8f01cfea414140de5dae2223b00361a396177a9cb410ff61f20015ad";
    let good = format!("{abc_digest}  yt-dlp.exe\n");
    assert!(verify_ytdlp_download(b"abc", Some(&good)).is_ok());
    match verify_ytdlp_download(b"abc", None) {
        Err(e @ ChecksumError::NoSums) => {
            assert_eq!(e.message(), "yt-dlp release has no SHA2-256SUMS to verify against")
        }
        _ => panic!("a download without sums is not accepted"),
    }
    match verify_ytdlp_download(b"abd", Some(&good)) {
        Err(e @ ChecksumError::Mismatch { .. }) => {
            let m = e.message();
            assert!(m.starts_with(&format!("yt-dlp.exe checksum mismatch: expected {abc_digest}, got ")));
        }
        _ => panic!("expected a mismatch"),
    }
    match verify_ytdlp_download(b"abc", Some("x  other\n")) {
        Err(e @ ChecksumError::Missing) => {
            assert_eq!(e.message(), "yt-dlp.exe checksum not present in SHA2-256SUMS")
        }
        _ => panic!("expected a missing checksum"),
    }
}

#[test]
fn archive_entries_pick_the_last_match() {
    let names: Vec<String> = vec![
        "ffmpeg-master/bin/ffmpeg.exe".into(),
        "ffmpeg-master/doc/ffmpeg.exe.html".into(),
        "ffmpeg-master/bin/ffprobe.exe".into(),
        "other/bin/ffmpeg.exe".into(),
    ];
    assert_eq!(select_archive_entries(&names), (Some(3), Some(2)));
    assert_eq!(select_archive_entries(&vec!["ffmpeg.exe".to_string()]), (None, None));
}

#[test]
fn sequential_reports() {
    let r = exit_report(true, "noise".to_string());
    assert_eq!(r.status, DownloadStatus::Done);
    assert_eq!(r.percent, Some(100));
    assert_eq!(r.error, None);
    let r = exit_report(false, "ERROR".to_string());
    assert_eq!(r.status, DownloadStatus::Failed);
    assert_eq!(r.error.as_deref(), Some("ERROR"));
    assert_eq!(progress_download_status(true), DownloadStatus::Processing);
    assert_eq!(progress_download_status(false), DownloadStatus::Downloading);
    assert_eq!(
        render(sequential_args()),
        "-x --audio-format mp3 --audio-quality 0 --ffmpeg-location <bin> --newline \
         --progress-template download:%(progress)j --progress-template postprocess:%(progress)j \
         --no-playlist -o <out> <url>"
    );
}

fn entry(id: Option<&str>, pt: Option<&str>, pid: Option<&str>) -> EntryFields {
    EntryFields {
        id: id.map(String::from),
        title: None,
        duration: Some(5),
        thumbnail: None,
        playlist_title: pt.map(String::from),
        playlist_id: pid.map(String::from),
    }
}

#[test]
fn entries_become_numbered_items() {
    let es = vec![
        entry(Some("a"), None, None),
        entry(Some("b"), Some("T2"), None),
        entry(None, Some("T3"), Some("P3")),
    ];
    let p = playlist_from_entries("U", &es).ok().unwrap();
    assert_eq!(p.title, "T2");
    assert_eq!(p.source_playlist_id, "P3");
    assert_eq!(p.url, "U");
    let idx: Vec<usize> = p.items.iter().map(|m| m.index).collect();
    assert_eq!(idx, vec![1, 2, 3]);
    assert_eq!(p.items[1].url, "https://www.youtube.com/watch?v=b");
    assert_eq!(p.items[2].id, "");
    assert_eq!(p.items[0].title, "Untitled");
    assert_eq!(p.items[0].duration, Some(5));
    assert_eq!(playlist_from_entries("U", &vec![]).err(), Some(AnalyzeError::NoItems));
}

#[test]
fn digests_are_compared_in_lower_hex() {
    assert!(compare_digest(&vec![0xde, 0xad], "dead".to_string()).is_ok());
    match compare_digest(&vec![0xde, 0xad], "DEAD".to_string()) {
        Err(ChecksumError::Mismatch { expected, actual }) => {
            assert_eq!(expected, "DEAD");
            assert_eq!(actual, "dead");
        }
        _ => panic!("upper-case hex is not the listed form"),
    }
}
