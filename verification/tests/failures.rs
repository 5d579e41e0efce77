//! Why a download died, and the ledger of what did.

use vidl::flow::diagnose::{verdict_line, xff_regions};
use vidl::ytdlp::failures::{
    age_restricted_line, bot_wall_line, classify_failure, classify_lowered, drm_line,
    failure_detail, login_required_line, sensitive_content_line, Failure,
};
use vidl::ytdlp::ledger::{ledger_block, ledger_line_refers, scrub, Scrub};

#[test]
fn failures_classify_by_ytdlps_phrasing() {
    // Geo — both real YouTube-extractor phrasings, plus the generic raise_geo_restricted
    // default and the region/case variants the widened matcher must still catch.
    for msg in [
        "ERROR: [youtube] x: The uploader has not made this video available in your country",
        "ERROR: [youtube] x: This video is not available from your location due to geo restriction",
        "ERROR: This playlist is likely not available in your region",
        "ERROR: Video is GEO restricted",
    ] {
        assert_eq!(classify_failure(msg), Failure::Geo, "{msg}");
    }
    // Members — the badge reasons YouTube returns, hyphen and space spellings.
    for msg in [
        "ERROR: Join this channel to get access to members-only content like this video",
        "ERROR: This video is available to this channel's members on level: Tier 1",
    ] {
        assert_eq!(classify_failure(msg), Failure::Members, "{msg}");
    }
    // DRM — report_drm's phrasing gets its own class, so the cookie quirk advice can fire.
    assert_eq!(
        classify_failure("ERROR: [youtube] x: This video is DRM protected"),
        Failure::Drm
    );
    // Age — the sign-in gate and the account age-verification wording.
    assert_eq!(classify_failure("ERROR: Sign in to confirm your age"), Failure::AgeRestricted);
    assert_eq!(
        classify_failure("ERROR: This video is age-restricted and YouTube is requiring account age-verification"),
        Failure::AgeRestricted
    );
    // Bot-wall — the anti-automation walls yt-dlp can't solve: YouTube's bot check, TikTok's
    // JS challenge, Google's unusual-traffic notice.
    for msg in [
        "ERROR: [youtube] x: Sign in to confirm you're not a bot. Use --cookies-from-browser",
        "ERROR: [TikTok] x: Unable to solve JS challenge",
        "ERROR: Our systems have detected unusual traffic from your computer network",
    ] {
        assert_eq!(classify_failure(msg), Failure::BotWall, "{msg}");
    }
    // Sensitive / not-for-all-audiences — flagged group-offensive; "for some audiences" is the
    // tell, and it's checked before the login gate even though it also says "Log in for access"
    // (distinct from YouTube's age gate, which says "for some users").
    assert_eq!(
        classify_failure("ERROR: [TikTok] x: This post may not be comfortable for some audiences. Log in for access"),
        Failure::Sensitive
    );
    // Login / private gates — solvable with cookies from an account with access.
    for msg in [
        "ERROR: [TikTok] x: TikTok is requiring login for access to this content",
        "ERROR: [youtube] x: Private video. Sign in if you've been granted access to this video",
    ] {
        assert_eq!(classify_failure(msg), Failure::LoginRequired, "{msg}");
    }
    // A bare 403 stays Other on purpose — ambiguous (rate-limit vs. bot vs. transient), so we
    // don't mislabel it as a bot-wall.
    assert_eq!(classify_failure("ERROR: HTTP Error 403: Forbidden"), Failure::Other);
    assert_eq!(xff_regions().len(), 12, "a dozen regions");
}

#[test]
fn geo_ledger_lines_name_the_video_and_carry_the_scrub_key() {
    // Two geo outcomes reach the ledger. The generic path may sweep XFF regions, so its line
    // records every region tried; the YouTube path is IP-enforced (spoofing can't help), so
    // its line names the block and the real fix, no regions. Both must name the video, carry
    // the scrub key in a delimited form, and stay on one line (so the scrub can line-filter).
    let swept = format!(
        "https://vid.example/watch?v=dQw4w9WgXcQ — geo-blocked (tried {})",
        xff_regions().join(",")
    );
    assert!(ledger_line_refers(&swept, "dQw4w9WgXcQ"), "sweep line carries the scrub key");
    assert!(swept.contains("geo-blocked") && !swept.contains('\n'), "one geo-blocked line");
    for region in xff_regions() {
        assert!(swept.contains(&region), "sweep line records region {region}");
    }

    let ip_enforced = "#7 Some Title [dQw4w9WgXcQ] — geo-blocked (enforced by IP; retry from a VPN or --proxy with an IP in an allowed region)".to_string();
    assert_eq!(
        verdict_line("#7 Some Title [dQw4w9WgXcQ]", Failure::Geo, false, ""),
        ip_enforced,
        "this is the line that is written"
    );
    assert!(ip_enforced.contains("#7 Some Title"), "names the video");
    assert!(ledger_line_refers(&ip_enforced, "dQw4w9WgXcQ"), "carries the scrub key");
    assert!(ip_enforced.contains("geo-blocked") && !ip_enforced.contains('\n'), "one geo-blocked line");
    assert!(!ip_enforced.contains("tried"), "no region sweep on the IP-enforced path");
}

#[test]
fn the_age_restricted_line_adapts_to_whether_cookies_were_tried() {
    let without = age_restricted_line("[dQw4w9WgXcQ]", false);
    assert!(without.contains("age-restricted"), "names the block");
    assert!(without.contains("--cookie-import"), "nudges toward importing cookies");
    assert!(!without.contains("despite"), "the no-cookies case just asks for cookies");

    let with = age_restricted_line("[dQw4w9WgXcQ]", true);
    assert!(with.contains("despite cookies"), "the cookies-present case names the harder gate");
    assert!(with.contains("18+") && with.contains("verify age"), "points at the real fix");
    assert!(with.contains("PO-token"), "names the lever past cookies (necessary ≠ sufficient)");
    assert!(!without.contains("PO-token"), "the plain case keeps the simple fix simple");
    assert!(ledger_line_refers(&with, "dQw4w9WgXcQ"), "still carries the scrub key");
}

#[test]
fn the_drm_line_reaches_for_cookies_first_and_is_terminal_with_them() {
    // The tv-client quirk: cookie-less requests get DRM'd formats, ANY cookies (even a
    // logged-out session) surface non-DRM ones — so cookies are a genuine first fix.
    let without = drm_line("[dQw4w9WgXcQ]", false);
    assert!(without.contains("DRM-protected"), "names the block");
    assert!(without.contains("--cookie-import"), "cookies are the one real lever");
    let with = drm_line("[dQw4w9WgXcQ]", true);
    assert!(with.contains("even with cookies"), "won't repeat advice already taken");
    assert!(with.contains("doesn't circumvent"), "honest that this is terminal");
    assert!(!with.to_lowercase().contains("retry"), "no futile retry once cookies were tried");
    assert!(ledger_line_refers(&with, "dQw4w9WgXcQ"), "carries the scrub key");
}

#[test]
fn the_login_required_line_points_at_cookies_and_adapts_to_whether_they_were_tried() {
    let without = login_required_line("[dQw4w9WgXcQ]", false);
    assert!(without.contains("--cookie-import"), "nudges toward importing cookies");
    assert!(without.contains("retry"), "with cookies as the real fix, retrying is right advice");

    let with = login_required_line("[dQw4w9WgXcQ]", true);
    assert!(with.contains("lack access") || with.contains("stale"), "names why the cookies didn't help");
    assert!(!with.contains("retry"), "no plain-retry advice once cookies already failed");
    assert!(ledger_line_refers(&with, "dQw4w9WgXcQ"), "carries the scrub key");
}

#[test]
fn the_sensitive_content_line_points_at_an_allowed_account_and_adapts_to_cookies() {
    let without = sensitive_content_line("[dQw4w9WgXcQ]", false);
    assert!(without.contains("sensitive"), "names why it's gated");
    assert!(without.contains("--cookie-import") && without.contains("retry"), "cookies are the fix");

    let with = sensitive_content_line("[dQw4w9WgXcQ]", true);
    assert!(with.contains("sensitive/mature") || with.contains("allowed to view"), "names the account condition");
    assert!(!with.contains("retry"), "no plain-retry once cookies already failed");
    assert!(ledger_line_refers(&with, "dQw4w9WgXcQ"), "carries the scrub key");
}

#[test]
fn the_bot_wall_line_is_honest_that_it_may_be_unsolvable_and_never_says_retry() {
    let line = bot_wall_line("[dQw4w9WgXcQ]");
    assert!(line.contains("anti-bot") || line.contains("CAPTCHA"), "names the difficulty");
    assert!(line.contains("undownloadable"), "is honest it may not be possible");
    assert!(!line.to_lowercase().contains("retry"), "must not tell the user to just download again");
    assert!(line.contains("PO-token"), "names every real lever, including the unintegrated one");
    assert!(ledger_line_refers(&line, "dQw4w9WgXcQ"), "carries the scrub key");
}

#[test]
fn ledger_lines_match_ids_only_in_delimited_forms() {
    assert!(ledger_line_refers("#3 Title [abc123XYZ_-] — members-only", "abc123XYZ_-"));
    assert!(ledger_line_refers("https://www.youtube.com/watch?v=abc123XYZ_- — failed: gone", "abc123XYZ_-"));
    assert!(ledger_line_refers("abc123XYZ_- — geo-blocked (tried US)", "abc123XYZ_-"), "legacy bare-id label");
    // A short id must not clear someone else's entry by matching inside its title.
    assert!(!ledger_line_refers("#4 my abc mixtape [zzzzzzzzzzz] — members-only", "abc"));
}

#[test]
fn the_scrub_clears_now_downloaded_entries_prunes_empty_blocks_and_removes_an_emptied_ledger() {
    let ids = |list: &[&str]| list.iter().map(|id| id.to_string()).collect::<Vec<_>>();
    let ledger = "── 2026-01-01_1200 ──\n\
                  #7 Released Later [vidAAAAAAAA] — members-only (channels often release these publicly later)\n\
                  ── 2026-01-02_1200 ──\n\
                  #2 Still Blocked [vidBBBBBBBB] — geo-blocked (tried US,GB)\n\
                  #9 Also Freed [vidCCCCCCCC] — members-only (channels often release these publicly later)\n";

    // Run 1: A and C have since downloaded (they're in the archive); B still hasn't.
    let text = match scrub(ledger, &ids(&["vidAAAAAAAA", "vidCCCCCCCC"])) {
        Scrub::Rewritten { cleared, text } => {
            assert_eq!(cleared, 2);
            text
        }
        _ => panic!("two entries are cleared and one stays"),
    };
    assert!(!text.contains("vidAAAAAAAA") && !text.contains("vidCCCCCCCC"), "cleared: {text}");
    assert!(text.contains("vidBBBBBBBB"), "unresolved entry stays: {text}");
    assert_eq!(
        text.matches("── ").count(),
        1,
        "the block whose only entry cleared lost its header too: {text}"
    );

    // Run 2: B downloads as well — nothing left, so the ledger file itself goes.
    let all = ids(&["vidAAAAAAAA", "vidBBBBBBBB", "vidCCCCCCCC"]);
    assert!(matches!(scrub(&text, &all), Scrub::Emptied { cleared: 1 }), "an emptied ledger is removed");

    // And scrubbing with no ledger (or no archive) is a quiet no-op.
    assert!(matches!(scrub("", &all), Scrub::Unchanged));
    assert!(matches!(scrub(ledger, &[]), Scrub::Unchanged));
}

#[test]
fn a_block_has_a_header_and_a_line_to_a_failure() {
    let lines = ["[a] — x".to_string(), "[b] — y".to_string()];
    let block = ledger_block("2026-01-01_1200", &lines);
    assert_eq!(block, "── 2026-01-01_1200 ──\n[a] — x\n[b] — y\n");
    // What was written is cleared once both videos have downloaded.
    let ids = ["a".to_string(), "b".to_string()];
    assert!(matches!(scrub(&block, &ids), Scrub::Emptied { cleared: 2 }));
}

#[test]
fn the_case_of_a_failure_does_not_matter() {
    assert_eq!(classify_failure("IN YOUR COUNTRY"), Failure::Geo);
    assert_eq!(classify_lowered("IN YOUR COUNTRY"), Failure::Other, "this one takes small letters");
    // Beyond ASCII too: the Kelvin sign's small letter is k.
    assert_eq!(classify_failure("solve JS challenge \u{212A}"), Failure::BotWall);
}

#[test]
fn other_failures_quote_their_first_error_line() {
    assert_eq!(failure_detail("WARNING: x\n  ERROR: gone  \nERROR: later"), "ERROR: gone");
    assert_eq!(failure_detail("nothing to see"), "unknown error");
    assert_eq!(verdict_line("L", Failure::Other, true, "ERROR: gone"), "L — failed: ERROR: gone");
    assert_eq!(
        verdict_line("L", Failure::Members, false, ""),
        "L — members-only (channels often release these publicly later)"
    );
}

#[test]
fn a_parameter_in_a_ledger_line_is_delimited_too() {
    assert!(!ledger_line_refers("#4 remix a=abcdef [zzzzzzzzzzz] — members-only", "abc"));
    assert!(!ledger_line_refers("https://x.test/v?id=abc-d — failed: gone", "abc"));
    assert!(!ledger_line_refers("https://x.test/v?id=abc_d — failed: gone", "abc"));
    assert!(ledger_line_refers("https://x.test/v?id=abc&t=3 — failed: gone", "abc"));
    assert!(ledger_line_refers("https://x.test/v?id=abc — failed: gone", "abc"));
    assert!(ledger_line_refers("https://x.test/v?id=abc", "abc"), "the line may end there");
    assert!(ledger_line_refers("x=abcd y=abc", "abc"), "every occurrence is looked at");
    // A foreign entry is not scrubbed on its account.
    let ledger = "── 2026-01-01_1200 ──\n#4 remix a=abcdef [zzzzzzzzzzz] — members-only\n";
    assert!(matches!(scrub(ledger, &["abc".to_string()]), Scrub::Unchanged));
}
