//! Titles, covers, sidecars and the command lines of ffmpeg, ffprobe and curl.

use vidl::media::files::{
    attach_argv, attached_pic_stream_index, cover_probe, download_sidecar, extract_argv,
    fetch_argv, is_media_of, mux_argv, stamp_argv, subtitle_sidecar, subtitle_tag_name, tag_name,
    thumbnail_argv, titles_probe, tracks_probe, Track,
};
use vidl::media::subtitles::Pick;
use vidl::media::titles::{
    any_auto, auto_title_stamps, only_auto, stamped_title, stream_count, subtitle_title,
    subtitle_titles,
};
use vidl::tools::Tools;
use vidl::Env;

#[test]
fn auto_stamps_survive_ytdlps_per_session_naming_drift() {
    let pick = |name: &str, auto: bool| Pick { key: "x".into(), name: name.into(), auto };
    // The regression that shipped unstamped tracks: the probe said "Japanese", the download
    // embedded "Japanese (Original)" — different invocations, different names. With every
    // pick machine-made, every stream is stamped anyway, keeping its own title.
    let all_auto = [pick("Japanese", true), pick("English", true)];
    assert_eq!(
        auto_title_stamps("Japanese (Original)\nEnglish\n", &all_auto),
        [
            // `stamped_title` drops YouTube's " (Original)" qualifier on purpose — the
            // auto-generated marker makes it redundant noise.
            (0, "Japanese (auto-generated)".to_string()),
            (1, "English (auto-generated)".to_string())
        ]
    );
    // Mixed manual+auto: only a name-matched auto track can be told apart — the manual one
    // must never be mislabelled, even at the cost of missing a renamed auto track.
    let mixed = [pick("English", false), pick("Japanese", true)];
    assert_eq!(
        auto_title_stamps("English\nJapanese\n", &mixed),
        [(1, "Japanese (auto-generated)".to_string())]
    );
    assert_eq!(
        auto_title_stamps("English\nJapanese (Original)\n", &mixed),
        [],
        "an unrecognizable auto name in a mixed set stays untouched — no safe discrimination"
    );
    // Idempotence: a already-stamped title is never double-marked.
    assert_eq!(auto_title_stamps("Japanese (auto-generated)\n", &all_auto[..1]), []);
    // An untitled stream still gets a readable mark.
    assert_eq!(
        auto_title_stamps("\n", &all_auto[..1]),
        [(0, "subtitles (auto-generated)".to_string())]
    );
}

#[test]
fn auto_tracks_get_stamped_titles() {
    assert_eq!(stamped_title("Hebrew (Original)"), "Hebrew (auto-generated)");
    assert_eq!(stamped_title("English"), "English (auto-generated)");
    assert_eq!(stamped_title("English from Korean"), "English from Korean (auto-generated)");
}

#[test]
fn the_attached_pic_index_is_read_from_ffprobes_stream_listing() {
    // `index=N` lines each followed by that stream's dispositions (default=nw=1 layout).
    let with_cover = "index=0\nDISPOSITION:attached_pic=0\nindex=1\nDISPOSITION:attached_pic=0\nindex=2\nDISPOSITION:attached_pic=1";
    assert_eq!(attached_pic_stream_index(with_cover), Some(2), "the cover's absolute index");
    let without = "index=0\nDISPOSITION:attached_pic=0\nindex=1\nDISPOSITION:attached_pic=0";
    assert_eq!(attached_pic_stream_index(without), None, "video+audio, no cover");
    assert_eq!(attached_pic_stream_index(""), None, "no streams");
}

#[test]
fn subtitle_titles_reads_ffprobes_titled_streams_for_the_idempotency_match() {
    let listing = "index=2\nTAG:title=English\nindex=3\nTAG:title=Hebrew (auto-generated)\nindex=4";
    assert_eq!(subtitle_titles(listing), ["English", "Hebrew (auto-generated)"]);
    assert!(subtitle_titles("index=2\nindex=3").is_empty(), "streams with no title tag → none");
    // The title a pick is matched/written by: plain name for a real track, stamped for auto.
    let real = Pick { key: "en".into(), name: "English".into(), auto: false };
    let auto = Pick { key: "iw-orig".into(), name: "Hebrew (Original)".into(), auto: true };
    assert_eq!(subtitle_title(&real), "English");
    assert_eq!(subtitle_title(&auto), "Hebrew (auto-generated)");
    assert_eq!(stream_count(listing), 3);
}

#[test]
fn subtitle_tags_name_the_language_and_the_machine_origin() {
    let pick = |key: &str, auto: bool| Pick { key: key.into(), name: String::new(), auto };
    assert_eq!(subtitle_tag_name(&pick("en", false)), "subtitles_en");
    assert_eq!(subtitle_tag_name(&pick("en-US", false)), "subtitles_en_us");
    assert_eq!(subtitle_tag_name(&pick("iw-orig", true)), "subtitles_iw_autogenerated");
    assert_eq!(subtitle_tag_name(&pick("en-he", true)), "subtitles_en_he_autogenerated");
    // The key of a tag is in small letters whatever its script.
    assert_eq!(subtitle_tag_name(&pick("\u{00C4}-X", false)), "subtitles_\u{00E4}_x");
    assert_eq!(tag_name("en-orig-orig", false), "subtitles_en_orig");
}

#[test]
fn a_cover_without_a_readable_index_is_none() {
    assert_eq!(attached_pic_stream_index("index=x\nDISPOSITION:attached_pic=1"), None);
    assert_eq!(attached_pic_stream_index("DISPOSITION:attached_pic=1"), None);
    assert_eq!(attached_pic_stream_index("index= 7 \n  DISPOSITION:attached_pic=1  "), Some(7));
}

#[test]
fn media_files_are_told_by_their_id_and_extension() {
    assert!(is_media_of("20200101__Title__abcdefghijk.mkv", "abcdefghijk"));
    assert!(is_media_of("song__qrstuvwxyz1.opus", "qrstuvwxyz1"));
    assert!(is_media_of("v__abcdefghijk.f137.webm", "abcdefghijk"));
    assert!(!is_media_of("notes__abcdefghijk.txt", "abcdefghijk"), "not a media extension");
    assert!(!is_media_of("v__abcdefghijk.mkv.part", "abcdefghijk"));
    assert!(!is_media_of("v_abcdefghijk.mkv", "abcdefghijk"), "the marker is two underscores");
}

#[test]
fn sidecars_stand_beside_the_file_or_under_the_fixed_name() {
    assert_eq!(download_sidecar("/dl/a__x.opus", "iw-orig"), "/dl/a__x.iw-orig.vtt");
    assert_eq!(subtitle_sidecar("/dl", "vid", "en"), "/dl/.dlsub-vid.en.vtt");
}

#[test]
fn every_auto_flag_is_seen() {
    let pick = |auto: bool| Pick { key: "x".into(), name: "X".into(), auto };
    assert!(only_auto(&[]) && !any_auto(&[]));
    assert!(only_auto(&[pick(true)]) && any_auto(&[pick(true)]));
    assert!(!only_auto(&[pick(true), pick(false)]) && any_auto(&[pick(true), pick(false)]));
}

#[test]
fn ffprobe_is_asked_for_titles_tracks_and_covers() {
    assert_eq!(
        titles_probe("f.mkv").join(" "),
        "-v error -select_streams s -show_entries stream_tags=title -of csv=p=0 f.mkv"
    );
    assert_eq!(
        tracks_probe("f.mkv").join(" "),
        "-v error -select_streams s -show_entries stream=index:stream_tags=title -of default=nw=1 f.mkv"
    );
    assert_eq!(
        cover_probe("f.mkv").join(" "),
        "-v error -show_entries stream=index:stream_disposition=attached_pic -of default=nw=1 f.mkv"
    );
}

#[test]
fn ffmpeg_stamps_extracts_and_attaches() {
    assert_eq!(
        stamp_argv("f.mkv", "o.mkv", &[(0, "A".into()), (12, "B c".into())]).join("|"),
        "-nostdin|-v|error|-y|-i|f.mkv|-map|0|-c|copy|-metadata:s:s:0|title=A|-metadata:s:s:12|title=B c|o.mkv"
    );
    assert_eq!(
        extract_argv("f.mkv", 2, "c.jpg").join(" "),
        "-nostdin -v error -y -i f.mkv -map 0:2 -frames:v 1 -c copy c.jpg"
    );
    assert_eq!(
        attach_argv("f.mkv", "c.jpg", "o.mkv").join(" "),
        "-nostdin -v error -y -i f.mkv -map 0 -c copy -attach c.jpg -metadata:s:t:0 mimetype=image/jpeg -metadata:s:t:0 filename=cover.jpg o.mkv"
    );
    assert_eq!(
        thumbnail_argv("vid", "hqdefault", "c.jpg").join(" "),
        "-fsSL -o c.jpg https://i.ytimg.com/vi/vid/hqdefault.jpg"
    );
}

#[test]
fn the_mux_places_new_tracks_behind_the_old_and_carries_the_cover() {
    let tracks = [
        Track {
            pick: Pick { key: "en-US".into(), name: "English".into(), auto: false },
            sidecar: "a.vtt".into(),
        },
        Track {
            pick: Pick { key: "ko".into(), name: "Korean (Original)".into(), auto: true },
            sidecar: "b.vtt".into(),
        },
    ];
    assert_eq!(
        mux_argv("f.mkv", &tracks, 3, &None, "o.mkv").join("|"),
        "-nostdin|-v|error|-y|-i|f.mkv|-i|a.vtt|-i|b.vtt|-map|0|-map|1|-map|2|-c|copy|-c:s|srt|\
         -metadata:s:s:3|language=en|-metadata:s:s:3|title=English|\
         -metadata:s:s:4|language=ko|-metadata:s:s:4|title=Korean (auto-generated)|o.mkv"
    );
    assert_eq!(
        mux_argv("f.mkv", &tracks[..1], 0, &Some((2, "c.jpg".into())), "o.mkv").join("|"),
        "-nostdin|-v|error|-y|-i|f.mkv|-i|a.vtt|-attach|c.jpg|-map|0|-map|-0:2|-map|1|-c|copy|-c:s|srt|\
         -metadata:s:t:0|mimetype=image/jpeg|-metadata:s:t:0|filename=cover.jpg|\
         -metadata:s:s:0|language=en|-metadata:s:s:0|title=English|o.mkv"
    );
}

#[test]
fn a_fetch_of_tracks_alone_downloads_no_media() {
    let keys = ["en".to_string(), "ko".to_string()];
    let argv = fetch_argv("https://u", "vid", &keys, "/dl", Env::default(), &Tools::default());
    assert_eq!(
        argv.join(" "),
        "--force-ipv4 --skip-download --write-subs --write-auto-subs --sub-langs en,ko --no-playlist --output /dl/.dlsub-vid.%(ext)s https://u"
    );
}
