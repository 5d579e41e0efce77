//! What a flat scan and the download archive say.

use vidl::ytdlp::scan::{
    archived_ids, is_tombstone, parse_scan, read_tab, scan_argv, tab_absence, unplayable_report,
    Captured, ScanEntry, TabScan,
};
use vidl::tools::Tools;
use vidl::Env;

#[test]
fn the_flat_scan_parses_spots_tombstones_and_takes_the_folder_line() {
    let out = "1\tabc123def45\tA fine video\tMy Playlist\n\
               2\tdead0000001\t[Private video]\tMy Playlist\n\
               3\tdead0000002\t[Deleted video]\tMy Playlist\n\
               My Playlist[PLxyz]\n";
    let scan = parse_scan(out).expect("parses");
    assert_eq!(scan.title, "My Playlist");
    assert_eq!(scan.entries.len(), 3);
    assert_eq!(scan.dirname.as_deref(), Some("My Playlist[PLxyz]"));
    let dead: Vec<&ScanEntry> =
        scan.entries.iter().filter(|e| is_tombstone(&e.title)).collect();
    assert_eq!(dead.len(), 2);
    // A folder line carrying NA means the fields weren't there — no folder is better
    // than an `NA[NA]` one.
    let na = parse_scan("1\tid234567890\tT\tP\nNA[NA]\n").expect("parses");
    assert_eq!(na.dirname, None);
    assert!(parse_scan("").is_none(), "an empty scan is a failed scan");
}

#[test]
fn the_unplayable_report_traces_each_entry_by_id() {
    let dead = [ScanEntry {
        index: "2".into(),
        id: "dead0000001".into(),
        title: "[Private video]".into(),
    }];
    let report = unplayable_report("My Playlist", "PLxyz", &dead, "2026-01-01_1200");
    assert!(report.contains("My Playlist [PLxyz]"));
    assert!(report.contains("#2  [Private video]"));
    assert!(report.contains("https://www.youtube.com/watch?v=dead0000001"));
    assert!(report
        .contains("https://web.archive.org/web/*/https://www.youtube.com/watch?v=dead0000001"));
    assert!(report.contains("https://filmot.com/video/dead0000001"));
    assert_eq!(
        report,
        "Unplayable entries of playlist: My Playlist [PLxyz]\n\
         recorded 2026-01-01_1200 — video ids stay valid keys for archive services even after deletion\n\n\
         #2  [Private video]\n  \
         was:      https://www.youtube.com/watch?v=dead0000001\n  \
         wayback:  https://web.archive.org/web/*/https://www.youtube.com/watch?v=dead0000001\n  \
         filmot:   https://filmot.com/video/dead0000001\n\n"
    );
}

#[test]
fn a_missing_tab_is_recognized_by_ytdlps_phrasing() {
    assert!(tab_absence("ERROR: [youtube:tab] @x: This channel does not have a streams tab"));
    assert!(!tab_absence("ERROR: [youtube:tab] @x: Unable to download webpage"));
}

#[test]
fn archived_ids_read_the_second_column() {
    let ids = archived_ids(Some("youtube abc123\nyoutube def456\nmalformed\n"));
    assert!(ids.contains(&"abc123".to_string()) && ids.contains(&"def456".to_string()));
    assert_eq!(ids.len(), 2);
    assert!(archived_ids(None).is_empty());
    assert_eq!(archived_ids(Some("y a\nz a\n y   b  c")), ["a", "b"], "each id once");
}

#[test]
fn short_lines_are_skipped_and_a_title_may_be_missing() {
    let scan = parse_scan("1\tid\n2\tid2\tTitle\n").expect("one good line is enough");
    assert_eq!(scan.entries.len(), 1);
    assert_eq!(scan.entries[0].index, "2");
    assert_eq!(scan.title, "");
    assert_eq!(scan.dirname, None);
}

#[test]
fn a_tab_is_found_missing_or_failed() {
    let run = |ok: bool, stdout: &str, stderr: &str| {
        Some(Captured { ok, stdout: stdout.into(), stderr: stderr.into() })
    };
    assert!(matches!(read_tab(run(true, "1\ti\tt\n", "")), TabScan::Found(scan) if scan.entries.len() == 1));
    assert!(matches!(read_tab(run(true, "", "")), TabScan::Missing), "reachable but empty");
    assert!(matches!(read_tab(run(false, "", "does not have a shorts tab")), TabScan::Missing));
    assert!(matches!(read_tab(run(false, "", "boom")), TabScan::Failed(stderr) if stderr == "boom"));
    assert!(matches!(read_tab(None), TabScan::Failed(stderr) if stderr.is_empty()));
}

#[test]
fn a_scan_prints_the_entries_and_the_folder() {
    let argv = scan_argv("https://l", "%(title)S", Env::default(), &Tools::default());
    assert_eq!(
        argv,
        [
            "--force-ipv4",
            "--flat-playlist",
            "--print",
            "%(playlist_index)s\t%(id)s\t%(title)s\t%(playlist_title)s",
            "--print",
            "playlist:%(title)S",
            "https://l",
        ]
    );
}
