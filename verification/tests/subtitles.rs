//! Which subtitle tracks a video should have.

use vidl::media::captions::json_lang_names;
use vidl::media::groups::group_by_langs;
use vidl::media::subtitles::{
    base_of, batch_probe_argv, default_picks, parse_batch, parse_video_probe, sub_picks_for,
    video_probe_argv, Pick, Planned,
};
use vidl::tools::Tools;
use vidl::Env;

/// `(key, name)` pairs the way the probe parser hands them over.
fn named(items: &[(&str, &str)]) -> Vec<(String, String)> {
    items.iter().map(|(key, name)| (key.to_string(), name.to_string())).collect()
}

fn keys_of(picks: &[Pick]) -> Vec<&str> {
    picks.iter().map(|pick| pick.key.as_str()).collect()
}

#[test]
fn subtitle_policy_covers_uploader_native_and_english_without_doubles() {
    // The PlayStation case: uploader published en+ko — both taken, no auto anything.
    let real = sub_picks_for(
        &named(&[("en", "English"), ("ko", "Korean")]),
        &named(&[("ko", "Korean"), ("ko-orig", "Korean (Original)"), ("en", "English")]),
        Some("ko"),
    );
    assert_eq!(keys_of(&real), ["en", "ko"]);
    assert!(real.iter().all(|pick| !pick.auto), "uploader subs must never be stamped");

    // No uploader subs on a Korean video: native auto + English made from it, both flagged auto,
    // preferring the pair/orig keys when published.
    let auto = sub_picks_for(
        &[],
        &named(&[
            ("ko", "Korean"),
            ("ko-orig", "Korean (Original)"),
            ("en", "English"),
            ("en-ko", "English from Korean"),
        ]),
        Some("ko"),
    );
    assert_eq!(keys_of(&auto), ["ko-orig", "en-ko"]);
    assert!(auto.iter().all(|pick| pick.auto));
    assert_eq!(auto[0].name, "Korean (Original)", "the name is what the post-pass matches");

    // The Hebrew case, legacy `iw` code and all — no pair key published, plain `en` plan B.
    let hebrew = sub_picks_for(
        &[],
        &named(&[("iw", "Hebrew"), ("iw-orig", "Hebrew (Original)"), ("en", "English")]),
        Some("iw"),
    );
    assert_eq!(keys_of(&hebrew), ["iw-orig", "en"]);
    assert!(hebrew.iter().all(|pick| pick.auto), "plain `en` here is machine-made too");

    // English-native video with no uploader subs: EN once, not twice.
    assert_eq!(
        keys_of(&sub_picks_for(
            &[],
            &named(&[("en", "English"), ("en-orig", "English (Original)")]),
            Some("en")
        )),
        ["en-orig"]
    );
    // Real Korean only: EN still arrives as the auto track, flagged as such.
    let mixed = sub_picks_for(
        &named(&[("ko", "Korean")]),
        &named(&[("en", "English"), ("ko-orig", "Korean (Original)")]),
        Some("ko"),
    );
    assert_eq!(keys_of(&mixed), ["ko", "en"]);
    assert_eq!(mixed.iter().map(|pick| pick.auto).collect::<Vec<_>>(), [false, true]);
    // live_chat is not a subtitle; unknown native language degrades gracefully.
    assert_eq!(
        keys_of(&sub_picks_for(&named(&[("live_chat", ""), ("en", "English")]), &[], None)),
        ["en"]
    );
    assert!(sub_picks_for(&[], &[], None).is_empty(), "nothing available, nothing requested");
}

#[test]
fn json_lang_names_pair_each_key_with_its_display_name() {
    let json = r#"{"en": [{"url": "u", "name": "English"}], "iw-orig": [{"ext": "vtt", "name": "Hebrew (Original)"}], "bare": []}"#;
    assert_eq!(
        json_lang_names(json),
        [
            ("en".to_string(), "English".to_string()),
            ("iw-orig".to_string(), "Hebrew (Original)".to_string()),
            ("bare".to_string(), String::new()),
        ]
    );
    assert!(json_lang_names("NA").is_empty());
}

#[test]
fn the_batch_probe_parses_per_entry_and_groups_by_subtitle_keys() {
    // Entry 1: real en+ko. Entry 2: nothing anywhere. Entry 3: auto-only Korean video.
    let out = "1\tidA00000001\tko\t{\"en\": [{\"name\": \"English\"}], \"ko\": [{\"name\": \"Korean\"}]}\t{}\n\
               2\tidB00000002\tNA\t{}\t{}\n\
               3\tidC00000003\tko\t{}\t{\"ko\": [{\"name\": \"Korean\"}], \"en\": [{\"name\": \"English\"}]}\n";
    let plan = parse_batch(out);
    assert_eq!(plan[0].id, "idA00000001");
    assert_eq!(keys_of(&plan[0].picks), ["en", "ko"]);
    assert!(plan[1].picks.is_empty());
    assert_eq!(keys_of(&plan[2].picks), ["ko", "en"]);
    assert!(plan[2].picks.iter().all(|pick| pick.auto));
    let groups = group_by_langs(&plan);
    assert_eq!(groups.len(), 3, "three distinct key lists here");
    // Same keys → one group, even when the auto flags differ per entry (real en for one,
    // machine-made en for another) — the post-pass reads each entry's own picks.
    let twin = [
        Planned { index: "1".into(), id: "a".into(), picks: plan[0].picks.clone() },
        Planned {
            index: "9".into(),
            id: "b".into(),
            picks: plan[0]
                .picks
                .iter()
                .map(|pick| Pick { auto: !pick.auto, ..pick.clone() })
                .collect(),
        },
    ];
    let merged = group_by_langs(&twin);
    assert_eq!(merged.len(), 1);
    assert_eq!(merged[0].iter().map(|plan| plan.index.as_str()).collect::<Vec<_>>(), ["1", "9"]);
}

#[test]
fn groups_keep_the_order_of_the_list_and_lose_no_entry() {
    let plan = |index: &str, keys: &[&str]| Planned {
        index: index.into(),
        id: format!("id{index}"),
        picks: keys
            .iter()
            .map(|key| Pick { key: key.to_string(), name: String::new(), auto: false })
            .collect(),
    };
    let list =
        [plan("1", &["en"]), plan("2", &[]), plan("3", &["en"]), plan("4", &["en", "ko"]), plan("5", &[])];
    let groups = group_by_langs(&list);
    let rows: Vec<Vec<&str>> =
        groups.iter().map(|g| g.iter().map(|p| p.index.as_str()).collect()).collect();
    assert_eq!(rows, [vec!["1", "3"], vec!["2", "5"], vec!["4"]]);
}

#[test]
fn json_escapes_drop_the_backslash_and_keep_the_character() {
    assert_eq!(
        json_lang_names(r#"{"a\"b": [{"name": "Q\\\"x"}]}"#),
        [("a\"b".to_string(), "Q\\\"x".to_string())]
    );
    // Only the first name of a value counts, and names of deeper values count too.
    assert_eq!(
        json_lang_names(r#"{"en": [{"x": {"name": "A"}}, {"name": "B"}]}"#),
        [("en".to_string(), "A".to_string())]
    );
}

#[test]
fn the_language_of_a_key_ignores_case_beyond_ascii_too() {
    assert_eq!(base_of("EN-us"), "en");
    assert_eq!(base_of("\u{0130}D-x"), "i\u{0307}d");
}

#[test]
fn a_failed_probe_falls_back_to_the_english_family() {
    let (id, picks) = parse_video_probe(None);
    assert_eq!(id, None);
    assert_eq!(keys_of(&picks), ["en", "en-US", "en-GB"]);
    assert!(picks.iter().all(|pick| !pick.auto), "an unprobed track is never flagged auto");
    assert_eq!(keys_of(&default_picks()), ["en", "en-US", "en-GB"]);
}

#[test]
fn a_probe_reads_its_lines_in_order() {
    let (id, picks) =
        parse_video_probe(Some("stubvid0000\nen\n{\"en\": [{\"name\": \"English\"}]}\n{}\n"));
    assert_eq!(id.as_deref(), Some("stubvid0000"));
    assert_eq!(picks, [Pick { key: "en".into(), name: "English".into(), auto: false }]);
    let (id, picks) = parse_video_probe(Some("NA\nNA\nNA\nNA\n"));
    assert_eq!(id, None);
    assert!(picks.is_empty());
}

#[test]
fn probes_ask_for_one_field_to_a_print() {
    let argv = video_probe_argv("https://u", Env::default(), &Tools::default());
    assert_eq!(argv[0], "--force-ipv4");
    assert_eq!(argv.last().unwrap(), "https://u");
    assert_eq!(argv.iter().filter(|arg| *arg == "--print").count(), 4);
    let twenty: Vec<String> = (1..=20).map(|i| i.to_string()).collect();
    let more: Vec<String> = (1..=21).map(|i| i.to_string()).collect();
    let slow = |indexes: &[String]| {
        batch_probe_argv("https://l", indexes, Env::default(), &Tools::default())
            .iter()
            .any(|arg| arg == "--sleep-requests")
    };
    assert!(!slow(&twenty), "at the threshold there is no pause");
    assert!(slow(&more), "past it there is");
}

#[test]
fn the_first_name_of_a_value_counts_even_where_it_is_empty() {
    let names = |json: &str| json_lang_names(json);
    assert_eq!(
        names(r#"{"en": [{"name": ""}, {"name": "English"}], "de": [{"name": "German"}]}"#),
        named(&[("en", ""), ("de", "German")])
    );
    // What is no string is no name, and what stands inside it is not taken for one.
    assert_eq!(names(r#"{"en": [{"name": {"x": 1}}]}"#), named(&[("en", "")]));
    assert_eq!(names(r#"{"en": [{"name": ["x"]}, {"name": "B"}]}"#), named(&[("en", "B")]));
    assert_eq!(names(r#"{"en": [{"name": {"name": "A"}}]}"#), named(&[("en", "A")]));
    assert_eq!(names(r#"{"en": [{"name": null, "y": "z"}]}"#), named(&[("en", "")]));
}
