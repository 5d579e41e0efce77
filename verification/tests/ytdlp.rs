//! The command lines of yt-dlp.

use vidl::link::{classify, Link};
use vidl::tools::{self, Tools};
use vidl::ytdlp::{
    bundle_flags_for, channel_tab_argv, common, generic_argv, launch_advice, playlist_argv,
    seeded, video_argv, ytdlp_invocation, YT_NAME,
};
use vidl::Env;

/// The EN-family keys, as callers pass them to the argv builders.
fn en_keys() -> Vec<String> {
    ["en", "en-US", "en-GB"].map(str::to_string).to_vec()
}

fn bare() -> Tools {
    Tools::default()
}

#[test]
fn the_single_flag_pins_a_video_carrying_a_playlist_to_just_the_video() {
    let url = "https://www.youtube.com/watch?v=7jrKjkrX3Gw&list=PLxyz";
    assert_eq!(classify(url, true), Link::Video);
    let argv = video_argv(url, ".", Env::default(), &en_keys(), &bare());
    assert!(argv.contains(&"--no-playlist".to_string()), "{argv:?}");
}

#[test]
fn a_bundled_tool_is_named_to_ytdlp_because_it_only_searches_path() {
    let flags = |js, ff| bundle_flags_for(js, ff);
    assert_eq!(
        flags(Some("/dn/deno"), Some("/ff/bin")),
        ["--js-runtimes", "deno:/dn/deno", "--ffmpeg-location", "/ff/bin"]
    );
    assert_eq!(flags(None, Some("/ff/bin")), ["--ffmpeg-location", "/ff/bin"]);
    assert_eq!(flags(Some("/dn/deno"), None), ["--js-runtimes", "deno:/dn/deno"]);
    assert!(flags(None, None).is_empty(), "no bundle means yt-dlp's own PATH lookup");
}

#[test]
fn every_yt_run_embeds_metadata_resumes_and_targets_mkv() {
    let text = common(
        "/dl",
        Env { cookies: Some("/c.txt"), ..Default::default() },
        &en_keys(),
        &bare(),
    );
    for expected in [
        "--write-subs", "--write-auto-subs", "--embed-subs",
        "--sub-langs", "en,en-US,en-GB",
        "--sleep-subtitles", "2",
        "--embed-metadata", "--embed-chapters",
        "--merge-output-format", "mkv",
        "--ignore-errors",
        "--download-archive", "/dl/.dl_video_archive.txt",
        "--cookies", "/c.txt",
    ] {
        assert!(text.iter().any(|arg| arg == expected), "missing {expected}: {text:?}");
    }
    // With no cookies, no flag appears — nor the knobs. And a video with no subtitles
    // anywhere requests none.
    let bare = common("/dl", Env::default(), &[], &bare());
    for absent in [
        "--ffmpeg-location", "--cookies", "--cookies-from-browser", "--js-runtimes", "-x", "-S",
        "--write-subs", "--sub-langs", "--sleep-subtitles",
    ] {
        assert!(!bare.iter().any(|arg| arg == absent), "{absent} leaked in");
    }
    // Thumbnails are a late opt-in pass now, never inline in the download argv.
    assert!(!text.iter().any(|a| a == "--embed-thumbnail"), "thumbnail must not be inline");
}

#[test]
fn ipv4_is_forced_by_default_on_probe_and_download_unless_allow_ipv6() {
    // Default: every network invocation forces IPv4 — a broken IPv6 route otherwise stalls
    // each request ~5s on the happy-eyeballs fallback.
    assert!(seeded(Env::default(), &bare()).iter().any(|a| a == "--force-ipv4"), "probe forces v4");
    let dl = common("/dl", Env::default(), &[], &bare());
    assert!(dl.iter().any(|a| a == "--force-ipv4"), "download forces v4");
    // `--allow-ipv6` opts back out, on both paths.
    let v6 = Env { allow_ipv6: true, ..Default::default() };
    assert!(!seeded(v6, &bare()).iter().any(|a| a == "--force-ipv4"), "probe honors --allow-ipv6");
    let dl6 = common("/dl", v6, &[], &bare());
    assert!(!dl6.iter().any(|a| a == "--force-ipv4"), "download honors --allow-ipv6");
}

#[test]
fn the_generic_argv_reuses_the_shared_base_flat_no_subs_no_playlist() {
    let extra = vec!["--yes-playlist".to_string()];
    let text = generic_argv(
        "https://vimeo.com/12345",
        "/dl",
        Env { res: Some(720), extra: &extra, ..Default::default() },
        &bare(),
    );
    // Same shared knobs + log files as the YouTube path (metadata, thumbnail, mkv, archive).
    for expected in ["--embed-metadata", "--merge-output-format", "mkv", "--download-archive", "/dl/.dl_video_archive.txt"] {
        assert!(text.contains(&expected.to_string()), "missing {expected}: {text:?}");
    }
    // But no subtitle probing off YouTube, and a flat output template (no folder tree).
    for absent in ["--write-subs", "--write-auto-subs", "--sub-langs", "--embed-subs"] {
        assert!(!text.contains(&absent.to_string()), "{absent} leaked into the generic path");
    }
    let out = text.iter().position(|a| a == "--output").expect("has --output");
    assert_eq!(text[out + 1], "/dl/%(title)s [%(id)s].%(ext)s", "flat generic name under `into`");
    // Quality knob still applies; the URL lands last; `-- --yes-playlist` follows our
    // --no-playlist so a user can override the single-video default.
    assert!(text.contains(&"res:720".to_string()));
    assert_eq!(text.last().unwrap(), "https://vimeo.com/12345");
    let no = text.iter().position(|a| a == "--no-playlist").expect("defaults to single");
    let yes = text.iter().rposition(|a| a == "--yes-playlist").expect("extra passed through");
    assert!(yes > no, "user's --yes-playlist must come after our --no-playlist to win");
}

#[test]
fn the_metadata_seed_carries_cookies_so_gated_content_is_readable_while_probing() {
    // Probes and scans authenticate too — an age-restricted video's subtitle probe or a
    // members-only tab's scan would otherwise run signed-out.
    let text = seeded(
        Env { cookies_from_browser: Some("firefox:/store"), ..Default::default() },
        &bare(),
    );
    let at = text.iter().position(|a| a == "--cookies-from-browser").expect("cookies in seed");
    assert_eq!(text[at + 1], "firefox:/store");
    // Nothing configured → a bare seed (bundles absent in the test env too).
    assert!(seeded(Env::default(), &bare())
        .iter()
        .all(|a| a != "--cookies" && a != "--cookies-from-browser"));
}

#[test]
fn imported_browser_cookies_are_used_but_an_explicit_file_wins() {
    let pair = |argv: &[String], flag: &str| {
        argv.iter().position(|a| a == flag).map(|i| argv[i + 1].clone())
    };
    // A prior --cookie-import with no explicit file: the browser spec is passed.
    let imported = common(
        "/dl",
        Env { cookies_from_browser: Some("firefox:/store"), ..Default::default() },
        &[],
        &bare(),
    );
    assert_eq!(pair(&imported, "--cookies-from-browser").as_deref(), Some("firefox:/store"));
    assert!(!imported.iter().any(|a| a == "--cookies"));
    // An explicit --cookies file overrides the import — never both.
    let explicit = common(
        "/dl",
        Env {
            cookies: Some("/c.txt"),
            cookies_from_browser: Some("firefox:/store"),
            ..Default::default()
        },
        &[],
        &bare(),
    );
    assert_eq!(pair(&explicit, "--cookies").as_deref(), Some("/c.txt"));
    assert!(!explicit.iter().any(|a| a == "--cookies-from-browser"), "explicit file must win alone");
}

#[test]
fn the_optional_knobs_shape_the_run_and_extras_land_last() {
    let extra = vec!["--merge-output-format".to_string(), "webm/mkv".to_string()];
    let env = Env { audio: true, res: Some(1080), extra: &extra, ..Default::default() };
    let argv = video_argv("https://u", "/dl", env, &en_keys(), &bare());
    assert!(argv.contains(&"-x".to_string()), "audio-only: {argv:?}");
    assert!(
        !argv.contains(&"--embed-subs".to_string()),
        "audio can't hold subs — requesting them would strand sidecars: {argv:?}"
    );
    let sort = argv.iter().position(|arg| arg == "-S").expect("-S");
    assert_eq!(argv[sort + 1], "res:1080");
    // Extras sit after every default (so a repeated flag resolves their way) and only
    // the URL follows them.
    let output = argv.iter().position(|arg| arg == "--output").unwrap();
    let webm = argv.iter().position(|arg| arg == "webm/mkv").unwrap();
    assert!(output < webm, "extras must come after the defaults they override");
    assert_eq!(argv.last().unwrap(), "https://u");
    assert_eq!(argv[argv.len() - 2], "webm/mkv");
}

#[test]
fn each_mode_shapes_its_own_output_tree_and_archive_home() {
    let last = |argv: &[String]| argv.last().unwrap().clone();
    let template = |argv: &[String]| {
        let at = argv.iter().position(|a| a == "--output").expect("--output");
        argv[at + 1].clone()
    };
    let archive = |argv: &[String]| {
        let at = argv.iter().position(|a| a == "--download-archive").expect("archive flag");
        argv[at + 1].clone()
    };
    let langs = en_keys();

    let video = video_argv("https://youtu.be/x", "/dl", Env::default(), &langs, &bare());
    assert_eq!(template(&video), format!("/dl/{YT_NAME}"));
    assert_eq!(last(&video), "https://youtu.be/x", "the url comes last");

    // A playlist entry: files under the playlist folder, the archive inside it, and the
    // specific entry selected.
    let entry = playlist_argv(
        "https://l",
        "/dl",
        "/dl/My List[PL1]",
        Env::default(),
        &langs,
        Some("4"),
        &bare(),
    );
    assert!(template(&entry).starts_with("/dl/%(playlist_title)s[%(playlist_id)s]/"));
    assert!(template(&entry).contains("%(playlist_index)03d__"));
    assert_eq!(archive(&entry), "/dl/My List[PL1]/.dl_video_archive.txt");
    let items = entry.iter().position(|a| a == "--playlist-items").expect("item selection");
    assert_eq!(entry[items + 1], "4");

    let tab = channel_tab_argv(
        "https://c/videos",
        "videos",
        "/dl",
        "/dl/Chan[UC1]",
        Env::default(),
        &langs,
        "7",
        &bare(),
    );
    assert!(template(&tab).starts_with("/dl/%(uploader)s[%(channel_id)s]/videos/"));
    assert_eq!(archive(&tab), "/dl/Chan[UC1]/.dl_video_archive.txt");
    assert_eq!(last(&tab), "https://c/videos", "the tab url comes last");
}

#[test]
fn a_zipapp_runs_through_the_interpreter_that_was_named() {
    let args = vec!["--version".to_string()];
    let (program, rest) = ytdlp_invocation(args.clone(), &bare());
    assert_eq!((program.as_str(), rest), ("yt-dlp", args.clone()));
    let zipapp = Tools {
        ytdlp: Some("/opt/yt-dlp.pyz".into()),
        python: Some("/opt/python3".into()),
        ..Default::default()
    };
    let (program, rest) = ytdlp_invocation(args.clone(), &zipapp);
    assert_eq!(program, "/opt/python3");
    assert_eq!(rest, ["/opt/yt-dlp.pyz", "--version"]);
    // A python alone names no zipapp.
    let lone = Tools { python: Some("/opt/python3".into()), ..Default::default() };
    assert_eq!(ytdlp_invocation(args, &lone).0, "yt-dlp");
}

#[test]
fn the_first_install_wins_and_defaults_search_the_path() {
    let mut slot: Option<Tools> = None;
    let first = Tools { ffmpeg_dir: Some("/ff/bin".into()), ..Default::default() };
    let second = Tools { ffmpeg_dir: Some("/other".into()), ..Default::default() };
    tools::install(&mut slot, first);
    tools::install(&mut slot, second);
    let set = tools::configured(&mut slot);
    assert_eq!(tools::ffmpeg(&set), "/ff/bin/ffmpeg");
    assert_eq!(tools::ffprobe(&set), "/ff/bin/ffprobe");

    // The first use settles the defaults: what is installed later comes too late.
    let mut slot: Option<Tools> = None;
    assert_eq!(tools::ffmpeg(&tools::configured(&mut slot)), "ffmpeg");
    tools::install(&mut slot, Tools { ffmpeg_dir: Some("/late".into()), ..Default::default() });
    assert_eq!(tools::ffmpeg(&tools::configured(&mut slot)), "ffmpeg");
}

#[test]
fn a_failing_run_is_explained_and_a_good_one_is_not() {
    assert_eq!(launch_advice(0), None);
    let advice = launch_advice(-1).expect("a failing code has advice");
    assert!(advice.starts_with("vidl: yt-dlp failed (exit -1). A `403 Forbidden`"), "{advice}");
}
