//! Timestamps, styles, paths, and the menu of flags.

use vidl::menu::notable_flags;
use vidl::taglist;
use vidl::util::number::{decimal, decimal_signed, parse_u32};
use vidl::util::path::{has_extension, is_name_last, join, with_extension};
use vidl::util::stamp::format_utc;
use vidl::util::style::{approved, argname, header, problematic, RESET};
use vidl::util::text;

#[test]
fn a_known_instant_formats_to_its_utc_calendar_date() {
    // 2021-06-02T07:56:21Z — a fixed instant, so this tests the arithmetic and not the clock.
    assert_eq!(format_utc(1_622_620_581), "2021-06-02_0756");
    assert_eq!(format_utc(0), "1970-01-01_0000", "the epoch itself");
    // A leap day must not slide by one.
    assert_eq!(format_utc(1_709_208_000), "2024-02-29_1200", "a leap day must not slide by one");
}

#[test]
fn dates_around_leap_years_do_not_slide() {
    assert_eq!(format_utc(951_782_400), "2000-02-29_0000");
    assert_eq!(format_utc(951_868_799), "2000-02-29_2359");
    assert_eq!(format_utc(951_868_800), "2000-03-01_0000");
    assert_eq!(format_utc(4_107_542_400), "2100-03-01_0000", "2100 is no leap year");
    assert_eq!(format_utc(253_402_300_800), "10000-01-01_0000", "a fifth digit has its place");
}

#[test]
fn every_style_opens_clean_and_closes_reset() {
    // The leading reset is what stops an enclosing colour from bleeding in; the trailing one
    // is what stops this colour leaking out into whatever prints next.
    for styled in [header("x"), problematic("x"), approved("x"), argname("x")] {
        assert!(styled.starts_with(RESET), "must open with a reset: {styled:?}");
        assert!(styled.ends_with(RESET), "must close with a reset: {styled:?}");
        assert!(styled.contains('x'), "the text survives: {styled:?}");
    }
    assert_ne!(problematic("x"), approved("x"), "the statuses must be distinguishable");
}

#[test]
fn the_notable_flag_menu_is_well_formed() {
    let flags = notable_flags();
    assert!(!flags.is_empty());
    for (flag, blurb) in &flags {
        assert!(flag.starts_with("--"), "{flag}");
        assert!(!blurb.is_empty(), "{flag} needs a blurb");
    }
}

#[test]
fn the_menu_lines_its_blurbs_up_in_one_column() {
    let lines = taglist();
    assert_eq!(lines.len(), notable_flags().len() + 2);
    assert_eq!(lines[0], header("Notable yt-dlp flags — pass them after `--`:"));
    assert_eq!(lines.last().unwrap(), &format!("\n{}", header("Everything yt-dlp accepts:")));
    for (line, (flag, blurb)) in lines[1..].iter().zip(notable_flags()) {
        let plain = line.replace(&argname(&flag), &flag);
        assert_eq!(plain.find(blurb.as_str()), Some(2 + 30 + 2), "{plain}");
    }
}

#[test]
fn paths_join_and_change_their_extension() {
    assert_eq!(join("/dl", "a"), "/dl/a");
    assert_eq!(join("/dl/", "a"), "/dl/a");
    assert_eq!(join("", "a"), "a");
    assert_eq!(join("/dl", "/abs"), "/abs");
    assert_eq!(with_extension("/dl/a.b.mkv", "cover.jpg"), "/dl/a.b.cover.jpg");
    assert_eq!(with_extension("/dl/a.b.mkv", ""), "/dl/a.b");
    assert_eq!(with_extension("/d.l/plain", "x"), "/d.l/plain.x");
    assert_eq!(with_extension("/dl/.hidden", "x"), "/dl/.hidden.x");
    assert_eq!(with_extension("/dl/..", "x"), "/dl/..");
    assert!(has_extension("/dl/a.mkv", "mkv") && !has_extension("/dl/mkv", "mkv"));
    assert!(!has_extension("/dl/.mkv", "mkv"), "a leading dot opens no extension");
    assert!(is_name_last("a") && is_name_last("a/") && !is_name_last("..") && !is_name_last(""));
}

#[test]
fn numbers_read_and_write_in_decimal() {
    assert_eq!(decimal(0), "0");
    assert_eq!(decimal(340_282_366_920_938_463_463_374_607_431_768_211_455), u128::MAX.to_string());
    assert_eq!(decimal_signed(i32::MIN), i32::MIN.to_string());
    assert_eq!(parse_u32("4294967295"), Some(u32::MAX));
    assert_eq!(parse_u32("4294967296"), None);
    assert_eq!(parse_u32("+7"), Some(7));
    for bad in ["", "+", "-1", "1 ", "1x"] {
        assert_eq!(parse_u32(bad), None, "{bad:?}");
    }
}

#[test]
fn texts_split_like_the_standard_library() {
    for s in ["", "\n", "a\r\nb\n", "a\n\nb", "\r", "x\r"] {
        assert_eq!(text::lines(s), s.lines().collect::<Vec<_>>(), "{s:?}");
    }
    for s in ["", " a  b\tc ", "\u{a0}x\u{2003}y", "one"] {
        assert_eq!(text::words(s), s.split_whitespace().collect::<Vec<_>>(), "{s:?}");
        assert_eq!(text::trim(s), s.trim(), "{s:?}");
    }
    for s in ["", "\t", "a\tb\t"] {
        assert_eq!(text::pieces(s, '\t'), s.split('\t').collect::<Vec<_>>(), "{s:?}");
    }
    for (s, pat) in [("aaaa", "aa"), ("x (Original) y (Original)", " (Original)"), ("abc", "z")] {
        assert_eq!(text::remove_all(s, pat), s.replace(pat, ""), "{s:?}");
        assert_eq!(text::contains(s, pat), s.contains(pat));
        assert_eq!(text::split_after(s, pat).as_deref(), s.split_once(pat).map(|(_, rest)| rest));
    }
}

#[test]
fn a_path_has_its_name_behind_separators_and_dots_too() {
    for path in ["x.mkv", "a/x.mkv", "a/x.mkv/", "/a//x.mkv//", "a/x.mkv/.", "./a/x.mkv/././"] {
        let std_path = std::path::Path::new(path);
        assert!(is_name_last(path), "{path}");
        assert!(has_extension(path, "mkv"), "{path}");
        for ext in ["", "jpg", "cover.jpg"] {
            assert_eq!(with_extension(path, ext), std_path.with_extension(ext).to_str().unwrap(), "{path} {ext}");
        }
    }
    for path in ["", "/", ".", "./", "/.", "a/..", "..", "../."] {
        assert!(!is_name_last(path), "{path}");
        assert_eq!(with_extension(path, "jpg"), path);
        assert_eq!(std::path::Path::new(path).file_name(), None, "{path}");
    }
    assert_eq!(vidl::media::files::download_sidecar("x.mkv/", "en"), "x.en.vtt");
}
