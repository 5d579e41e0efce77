//! What holds of several functions together, on concrete values.

use vidl::link::{classify, Link};
use vidl::media::captions::json_lang_names;
use vidl::media::files::is_media_of;
use vidl::media::groups::group_positions;
use vidl::media::subtitles::{parse_batch, sub_picks_for, Pick, Planned};
use vidl::media::titles::{auto_title_stamps, subtitle_title, subtitle_titles};
use vidl::util::number::{decimal, parse_u32};
use vidl::util::path::{has_extension, with_extension};
use vidl::util::stamp::format_utc;
use vidl::ytdlp::failures::{classify_failure, Failure};
use vidl::ytdlp::ledger::{ledger_block, scrub, Scrub};
use vidl::ytdlp::scan::{archived_ids, parse_scan};

fn texts(items: &[&str]) -> Vec<String> {
    items.iter().map(|item| item.to_string()).collect()
}

#[test]
fn a_channel_root_is_its_own_root() {
    for tail in ["", "/videos", "/shorts?view=0", "#top"] {
        let url = format!("https://www.youtube.com/@someone{tail}");
        let Link::Channel { root } = classify(&url, false) else { panic!("{url} is a channel") };
        assert_eq!(root, "https://www.youtube.com/@someone");
        assert_eq!(classify(&root, true), Link::Channel { root: root.clone() });
    }
}

#[test]
fn a_printed_scan_reads_back() {
    let out = "7\tvidaaaa0001\tA title\tThe list\n";
    let scan = parse_scan(out).unwrap();
    assert_eq!(scan.entries.len(), 1);
    assert_eq!(scan.entries[0].index, "7");
    assert_eq!(scan.entries[0].id, "vidaaaa0001");
    assert_eq!(scan.entries[0].title, "A title");
    assert_eq!(scan.title, "The list");
}

#[test]
fn an_archive_line_reads_back() {
    assert_eq!(archived_ids(Some("youtube vidaaaa0001")), ["vidaaaa0001"]);
}

#[test]
fn a_printed_probe_reads_back() {
    let subs = "{\"en\": [{\"name\": \"English\"}]}";
    let plans = parse_batch(&format!("4\tvidaaaa0001\ten\t{subs}\t{{}}\n"));
    assert_eq!(plans.len(), 1);
    assert_eq!(plans[0].index, "4");
    assert_eq!(plans[0].id, "vidaaaa0001");
    let picks = sub_picks_for(&json_lang_names(subs), &json_lang_names("{}"), Some("en"));
    assert_eq!(plans[0].picks.len(), picks.len());
    assert_eq!(plans[0].picks[0].key, picks[0].key);
    assert_eq!(plans[0].picks[0].name, "English");
}

#[test]
fn what_the_template_names_is_found_again() {
    let id = "abcdefghijk";
    for ext in ["mkv", "opus", "m4a", "mp3", "ogg", "flac", "wav", "webm"] {
        assert!(is_media_of(&format!("20240101__A title__{id}.{ext}"), id), "{ext}");
    }
    assert!(!is_media_of(&format!("20240101__A title__{id}.en.vtt"), id));
}

#[test]
fn a_temporary_file_stands_beside_its_file() {
    for file in ["/into/a.mkv", "/into/a", "/into/.hidden", "/in.to/a.b.mkv"] {
        for ext in ["stamping.mkv", "thumbing.mkv", "subbing.mkv", "cover.jpg", "cover-keep.jpg"] {
            let other = with_extension(file, ext);
            assert_ne!(other, file);
            assert_eq!(other.rfind('/'), file.rfind('/'), "{other}");
        }
    }
    assert!(has_extension(&with_extension("/into/a.mkv", "subbing.mkv"), "mkv"));
}

#[test]
fn stamping_twice_stamps_once() {
    let picks =
        [Pick { key: "en".to_string(), name: "English".to_string(), auto: true }];
    let stamps = auto_title_stamps("English (Original)\n\n", &picks);
    assert_eq!(
        stamps.iter().map(|stamp| stamp.1.as_str()).collect::<Vec<_>>(),
        ["English (auto-generated)", "subtitles (auto-generated)"]
    );
    let listing: Vec<String> = stamps.into_iter().map(|stamp| stamp.1).collect();
    assert!(auto_title_stamps(&listing.join("\n"), &picks).is_empty());
}

#[test]
fn a_written_title_is_the_one_looked_for() {
    let pick = Pick { key: "ko-orig".to_string(), name: "Korean (Original)".to_string(), auto: true };
    let listing = format!("index=2\nTAG:title={}\n", subtitle_title(&pick));
    assert_eq!(subtitle_titles(&listing), [subtitle_title(&pick)]);
}

#[test]
fn scrubbing_again_changes_nothing() {
    let lines = texts(&["[vidAAAAAAAA] geo-blocked", "[vidBBBBBBBB] members-only"]);
    let ledger = ledger_block("1970-01-01_0000", &lines);
    let done = texts(&["vidAAAAAAAA"]);
    let kept = match scrub(&ledger, &done) {
        Scrub::Rewritten { cleared: 1, text } => text,
        _ => panic!("one line is cleared and one stays"),
    };
    assert!(kept.contains("vidBBBBBBBB") && !kept.contains("vidAAAAAAAA"), "{kept}");
    assert!(matches!(scrub(&kept, &done), Scrub::Unchanged));
}

#[test]
fn a_shouted_failure_is_the_same_failure() {
    for stderr in ["ERROR: members-only content", "ERROR: not available in your country", "x"] {
        assert_eq!(
            classify_failure(&stderr.to_ascii_uppercase()),
            classify_failure(&stderr.to_ascii_lowercase()),
            "{stderr}"
        );
    }
}

#[test]
fn a_written_number_reads_back() {
    for n in [0u32, 7, 10, 4_294_967_295] {
        assert_eq!(parse_u32(&decimal(u128::from(n))), Some(n));
    }
}

#[test]
fn timestamps_sort_as_their_instants_do() {
    let instants: [u64; 9] = [
        0, 59, 60, 3_599, 3_600, 86_399, 951_782_400, 1_622_620_581, 253_402_300_799,
    ];
    for pair in instants.windows(2) {
        let (a, b) = (format_utc(pair[0]), format_utc(pair[1]));
        assert_eq!(a.len(), 15, "{a}");
        assert!(a <= b, "{a} {b}");
        assert_eq!(a == b, pair[0] / 60 == pair[1] / 60, "{a} {b}");
    }
    assert_eq!(format_utc(253_402_300_799), "9999-12-31_2359");
}

#[test]
fn more_text_hides_no_earlier_cause() {
    let geo = "ERROR: not available in your country";
    let members = "ERROR: members-only content";
    assert_eq!(classify_failure(&format!("{members}\n{geo}")), Failure::Geo);
    assert_eq!(classify_failure(&format!("{geo}\n{members}")), Failure::Geo);
    assert_eq!(classify_failure(&format!("noise {members} noise")), Failure::Members);
}

#[test]
fn a_scrubbed_ledger_with_carriage_returns_is_left_alone() {
    let ledger = "── a ──\r\n[vidAAAAAAAA] x\r\r\n── b ──\n[vidBBBBBBBB] y\r\n── c ──\n\n[vidCCCCCCCC] z\r";
    let done = texts(&["vidBBBBBBBB"]);
    let kept = match scrub(ledger, &done) {
        Scrub::Rewritten { cleared: 1, text } => text,
        _ => panic!("one entry is cleared and two stay"),
    };
    assert_eq!(
        kept,
        "── a ──\n[vidAAAAAAAA] x\r\n── c ──\n[vidCCCCCCCC] z\r\n",
        "exactly the headers with an entry before the next header stay"
    );
    assert!(matches!(scrub(&kept, &done), Scrub::Unchanged));
}

#[test]
fn english_is_covered_without_a_native_language() {
    let autos = vec![("en".to_string(), "English".to_string())];
    let picks = sub_picks_for(&[], &autos, None);
    assert_eq!(picks.len(), 1);
    assert_eq!(picks[0].key, "en");
}

#[test]
fn groups_stand_in_the_order_of_their_first_members() {
    let plan = |index: &str, keys: &[&str]| Planned {
        index: index.to_string(),
        id: format!("id{index}"),
        picks: keys
            .iter()
            .map(|key| Pick { key: key.to_string(), name: String::new(), auto: false })
            .collect(),
    };
    let planned = [
        plan("1", &["en"]),
        plan("2", &["ko"]),
        plan("3", &["en"]),
        plan("4", &[]),
        plan("5", &["ko"]),
    ];
    assert_eq!(group_positions(&planned), [vec![0, 2], vec![1, 4], vec![3]]);
}

#[test]
fn a_cause_stands_out_beside_text_in_any_script() {
    // A sigma's small form depends on what follows it; a cause beside it does not.
    let title = "\u{39F}\u{394}\u{3A5}\u{3A3}\u{3A3}\u{395}\u{3A5}\u{3A3}";
    for stderr in ["ERROR: Members-Only content", "ERROR: NOT AVAILABLE IN YOUR COUNTRY", "x"] {
        let alone = classify_failure(stderr);
        for whole in [format!("{title} {stderr}"), format!("{stderr}{title}"), format!("{title}{stderr}{title}")] {
            assert_eq!(classify_failure(&whole), alone, "{whole}");
            assert_eq!(classify_failure(&whole.to_ascii_lowercase()), alone, "{whole}");
        }
    }
}
