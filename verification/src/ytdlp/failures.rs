//! Why a download died: yt-dlp's phrasing classified into a [`Failure`], each with its advice
//! line.

use vstd::prelude::*;
use vstd::string::*;
use crate::util::text;

verus! {

/// What a failed download turned out to be, judged by yt-dlp's stderr.
#[derive(Debug, PartialEq, Eq, Structural, Clone, Copy)]
pub enum Failure {
    Geo,
    BotWall,
    Members,
    AgeRestricted,
    Sensitive,
    LoginRequired,
    Drm,
    Other,
}

/// How a geo-block is treated, chosen by the caller per site.
#[derive(Debug, PartialEq, Eq, Structural, Clone, Copy)]
pub enum GeoRescue {
    /// Walk the regions, retrying with each: for sites that may honor `X-Forwarded-For`.
    XffSweep,
    /// Report the block without retrying: for sites that enforce it by IP (YouTube).
    IpEnforced,
}

/// Phrasings of a geo-block, in small letters.
pub open spec fn says_geo(s: Seq<char>) -> bool {
    ||| text::has(s, "in your country"@)
    ||| text::has(s, "from your location"@)
    ||| text::has(s, "in your region"@)
    ||| text::has(s, "geo restrict"@)
    ||| text::has(s, "geo_restrict"@)
}

/// Phrasings of an anti-bot, CAPTCHA or JavaScript-challenge wall.
pub open spec fn says_bot_wall(s: Seq<char>) -> bool {
    ||| text::has(s, "not a bot"@)
    ||| text::has(s, "captcha"@)
    ||| text::has(s, "unusual traffic"@)
    ||| text::has(s, "solve js challenge"@)
    ||| text::has(s, "challenge data"@)
    ||| text::has(s, "verify you are human"@)
    ||| text::has(s, "verify you're human"@)
}

/// Phrasings of a members-only gate.
pub open spec fn says_members(s: Seq<char>) -> bool {
    ||| text::has(s, "members-only"@)
    ||| text::has(s, "members only"@)
    ||| text::has(s, "channel's members"@)
    ||| text::has(s, "join this channel"@)
}

/// Phrasings of an age gate.
pub open spec fn says_age(s: Seq<char>) -> bool {
    ||| text::has(s, "confirm your age"@)
    ||| text::has(s, "age-restricted"@)
    ||| text::has(s, "age-verification"@)
    ||| text::has(s, "age_check_required"@)
}

/// Phrasings of a post that is not for all audiences.
pub open spec fn says_sensitive(s: Seq<char>) -> bool {
    ||| text::has(s, "for some audiences"@)
    ||| text::has(s, "not be comfortable"@)
}

/// Phrasings of a login or privacy gate.
pub open spec fn says_login(s: Seq<char>) -> bool {
    ||| text::has(s, "requiring login"@)
    ||| text::has(s, "log in for access"@)
    ||| text::has(s, "log into an account"@)
    ||| text::has(s, "permission to view"@)
    ||| text::has(s, "account is private"@)
    ||| text::has(s, "private video"@)
}

/// Phrasings of DRM protection.
pub open spec fn says_drm(s: Seq<char>) -> bool {
    ||| text::has(s, "drm protected"@)
    ||| text::has(s, "drm-protected"@)
    ||| text::has(s, "protected by drm"@)
}

/// What a failure's text in small letters shows it to be: the first class, in this order, one of
/// whose phrasings it holds.
pub open spec fn class_of(s: Seq<char>) -> Failure {
    if says_geo(s) {
        Failure::Geo
    } else if says_bot_wall(s) {
        Failure::BotWall
    } else if says_members(s) {
        Failure::Members
    } else if says_age(s) {
        Failure::AgeRestricted
    } else if says_sensitive(s) {
        Failure::Sensitive
    } else if says_login(s) {
        Failure::LoginRequired
    } else if says_drm(s) {
        Failure::Drm
    } else {
        Failure::Other
    }
}

/// Classify a failure by its text in small letters.
pub fn classify_lowered(s: &str) -> (r: Failure)
    ensures
        r == class_of(s@),
        r == (if text::has(s@, "in your country"@)
            || text::has(s@, "from your location"@)
            || text::has(s@, "in your region"@)
            || text::has(s@, "geo restrict"@)
            || text::has(s@, "geo_restrict"@) {
            Failure::Geo
        } else if text::has(s@, "not a bot"@)
            || text::has(s@, "captcha"@)
            || text::has(s@, "unusual traffic"@)
            || text::has(s@, "solve js challenge"@)
            || text::has(s@, "challenge data"@)
            || text::has(s@, "verify you are human"@)
            || text::has(s@, "verify you're human"@) {
            Failure::BotWall
        } else if text::has(s@, "members-only"@)
            || text::has(s@, "members only"@)
            || text::has(s@, "channel's members"@)
            || text::has(s@, "join this channel"@) {
            Failure::Members
        } else if text::has(s@, "confirm your age"@)
            || text::has(s@, "age-restricted"@)
            || text::has(s@, "age-verification"@)
            || text::has(s@, "age_check_required"@) {
            Failure::AgeRestricted
        } else if text::has(s@, "for some audiences"@)
            || text::has(s@, "not be comfortable"@) {
            Failure::Sensitive
        } else if text::has(s@, "requiring login"@)
            || text::has(s@, "log in for access"@)
            || text::has(s@, "log into an account"@)
            || text::has(s@, "permission to view"@)
            || text::has(s@, "account is private"@)
            || text::has(s@, "private video"@) {
            Failure::LoginRequired
        } else if text::has(s@, "drm protected"@)
            || text::has(s@, "drm-protected"@)
            || text::has(s@, "protected by drm"@) {
            Failure::Drm
        } else {
            Failure::Other
        }),
{
    if text::contains(s, "in your country") || text::contains(s, "from your location")
        || text::contains(s, "in your region") || text::contains(s, "geo restrict")
        || text::contains(s, "geo_restrict") {
        Failure::Geo
    } else if text::contains(s, "not a bot") || text::contains(s, "captcha") || text::contains(
        s,
        "unusual traffic",
    ) || text::contains(s, "solve js challenge") || text::contains(s, "challenge data")
        || text::contains(s, "verify you are human") || text::contains(s, "verify you're human") {
        Failure::BotWall
    } else if text::contains(s, "members-only") || text::contains(s, "members only")
        || text::contains(s, "channel's members") || text::contains(s, "join this channel") {
        Failure::Members
    } else if text::contains(s, "confirm your age") || text::contains(s, "age-restricted")
        || text::contains(s, "age-verification") || text::contains(s, "age_check_required") {
        Failure::AgeRestricted
    } else if text::contains(s, "for some audiences") || text::contains(s, "not be comfortable") {
        Failure::Sensitive
    } else if text::contains(s, "requiring login") || text::contains(s, "log in for access")
        || text::contains(s, "log into an account") || text::contains(s, "permission to view")
        || text::contains(s, "account is private") || text::contains(s, "private video") {
        Failure::LoginRequired
    } else if text::contains(s, "drm protected") || text::contains(s, "drm-protected")
        || text::contains(s, "protected by drm") {
        Failure::Drm
    } else {
        Failure::Other
    }
}

/// Classify a failure by yt-dlp's stderr, whatever its case.
pub fn classify_failure(stderr: &str) -> (r: Failure)
    ensures
        r == class_of(text::lowercase(stderr@)),
{
    let s = text::to_lowercase(stderr);
    classify_lowered(s.as_str())
}

/// The advice on an age gate, after the label.
pub open spec fn age_advice(had_cookies: bool) -> Seq<char> {
    if had_cookies {
        " — age-restricted despite cookies (use a signed-in 18+ account; play it in that browser once to verify age, then re-import; past that, the last lever is a PO-token provider — not integrated yet)"@
    } else {
        " — age-restricted (needs cookies from a signed-in 18+ account: dl --cookie-import youtube, then retry)"@
    }
}

/// The advice on a login or privacy gate, after the label.
pub open spec fn login_advice(had_cookies: bool) -> Seq<char> {
    if had_cookies {
        " — still blocked with cookies (the account may lack access, or the cookies went stale — re-import from a browser where it plays)"@
    } else {
        " — needs an account with access: import cookies (dl --cookie-import <site>), then retry"@
    }
}

/// The advice on a post that is not for all audiences, after the label.
pub open spec fn sensitive_advice(had_cookies: bool) -> Seq<char> {
    if had_cookies {
        " — flagged sensitive and still blocked with cookies (the account must be allowed to view sensitive/mature content — re-import from a browser where it plays)"@
    } else {
        " — flagged sensitive (not for all audiences): needs a signed-in account allowed to view it (dl --cookie-import <site>), then retry"@
    }
}

/// The advice on an anti-bot wall, after the label.
pub open spec fn bot_wall_advice() -> Seq<char> {
    " — blocked by an anti-bot/CAPTCHA challenge yt-dlp can't solve; may be undownloadable (fresh cookies from a browser where it plays, a matching IP, and current yt-dlp sometimes help; the last lever is a PO-token provider — not integrated yet)"@
}

/// The advice on DRM protection, after the label.
pub open spec fn drm_advice(had_cookies: bool) -> Seq<char> {
    if had_cookies {
        " — DRM-protected even with cookies (yt-dlp doesn't circumvent DRM — undownloadable)"@
    } else {
        " — DRM-protected formats only; cookies sometimes unlock non-DRM variants (on YouTube even a logged-out session works): dl --cookie-import <site>, then retry"@
    }
}

/// The ledger line for an age-restricted block, tailored to whether cookies were already tried.
pub fn age_restricted_line(label: &str, had_cookies: bool) -> (r: String)
    ensures
        r@ == label@ + age_advice(had_cookies),
{
    if had_cookies {
        text::cat(
            label,
            " — age-restricted despite cookies (use a signed-in 18+ account; play it in that browser once to verify age, then re-import; past that, the last lever is a PO-token provider — not integrated yet)",
        )
    } else {
        text::cat(
            label,
            " — age-restricted (needs cookies from a signed-in 18+ account: dl --cookie-import youtube, then retry)",
        )
    }
}

/// The ledger line for content behind a login or privacy gate, tailored to whether cookies were
/// already tried.
pub fn login_required_line(label: &str, had_cookies: bool) -> (r: String)
    ensures
        r@ == label@ + login_advice(had_cookies),
{
    if had_cookies {
        text::cat(
            label,
            " — still blocked with cookies (the account may lack access, or the cookies went stale — re-import from a browser where it plays)",
        )
    } else {
        text::cat(
            label,
            " — needs an account with access: import cookies (dl --cookie-import <site>), then retry",
        )
    }
}

/// The ledger line for a post flagged as not for all audiences, tailored to whether cookies were
/// already tried.
pub fn sensitive_content_line(label: &str, had_cookies: bool) -> (r: String)
    ensures
        r@ == label@ + sensitive_advice(had_cookies),
{
    if had_cookies {
        text::cat(
            label,
            " — flagged sensitive and still blocked with cookies (the account must be allowed to view sensitive/mature content — re-import from a browser where it plays)",
        )
    } else {
        text::cat(
            label,
            " — flagged sensitive (not for all audiences): needs a signed-in account allowed to view it (dl --cookie-import <site>), then retry",
        )
    }
}

/// The ledger line for an anti-bot, CAPTCHA or JavaScript-challenge wall: honest that there may be
/// no fix.
pub fn bot_wall_line(label: &str) -> (r: String)
    ensures
        r@ == label@ + bot_wall_advice(),
{
    text::cat(
        label,
        " — blocked by an anti-bot/CAPTCHA challenge yt-dlp can't solve; may be undownloadable (fresh cookies from a browser where it plays, a matching IP, and current yt-dlp sometimes help; the last lever is a PO-token provider — not integrated yet)",
    )
}

/// The ledger line for DRM-protected content, tailored to whether cookies were already tried.
pub fn drm_line(label: &str, had_cookies: bool) -> (r: String)
    ensures
        r@ == label@ + drm_advice(had_cookies),
{
    if had_cookies {
        text::cat(
            label,
            " — DRM-protected even with cookies (yt-dlp doesn't circumvent DRM — undownloadable)",
        )
    } else {
        text::cat(
            label,
            " — DRM-protected formats only; cookies sometimes unlock non-DRM variants (on YouTube even a logged-out session works): dl --cookie-import <site>, then retry",
        )
    }
}

/// The first line from `i` on that speaks of an error.
pub open spec fn error_line(lines: Seq<Seq<char>>, i: int) -> Option<Seq<char>>
    decreases lines.len() - i,
{
    if i < 0 || i >= lines.len() {
        None
    } else if text::has(lines[i], "ERROR"@) {
        Some(lines[i])
    } else {
        error_line(lines, i + 1)
    }
}

/// What there is to say of a failure of no known class: the first line of its stderr that speaks
/// of an error.
pub open spec fn detail(stderr: Seq<char>) -> Seq<char> {
    match error_line(text::lines_of(stderr), 0) {
        Some(line) => text::trimmed(line),
        None => text::trimmed("unknown error"@),
    }
}

/// What there is to say of a failure of no known class.
pub fn failure_detail(stderr: &str) -> (r: String)
    ensures
        r@ == detail(stderr@),
{
    let lines = text::lines(stderr);
    let ghost all = text::lines_of(stderr@);
    let mut i: usize = 0;
    while i < lines.len()
        invariant
            i <= lines@.len(),
            all == text::texts(lines@),
            all == text::lines_of(stderr@),
            error_line(all, 0) == error_line(all, i as int),
        decreases lines@.len() - i,
    {
        assert(all[i as int] == lines@[i as int]@);
        if text::contains(lines[i].as_str(), "ERROR") {
            return text::trim(lines[i].as_str());
        }
        i += 1;
    }
    text::trim("unknown error")
}

/// Whether a text can follow a label on its line: it starts with a space and holds no line feed.
pub open spec fn follows_label(s: Seq<char>) -> bool {
    s.len() > 0 && s[0] == ' ' && !s.contains('\n')
}

/// Every advice can follow a label on its line.
pub proof fn lemma_advice_follows_label(had_cookies: bool)
    ensures
        follows_label(age_advice(had_cookies)),
        follows_label(login_advice(had_cookies)),
        follows_label(sensitive_advice(had_cookies)),
        follows_label(bot_wall_advice()),
        follows_label(drm_advice(had_cookies)),
{
    reveal_strlit(
        " — age-restricted despite cookies (use a signed-in 18+ account; play it in that browser once to verify age, then re-import; past that, the last lever is a PO-token provider — not integrated yet)",
    );
    reveal_strlit(
        " — age-restricted (needs cookies from a signed-in 18+ account: dl --cookie-import youtube, then retry)",
    );
    reveal_strlit(
        " — still blocked with cookies (the account may lack access, or the cookies went stale — re-import from a browser where it plays)",
    );
    reveal_strlit(
        " — needs an account with access: import cookies (dl --cookie-import <site>), then retry",
    );
    reveal_strlit(
        " — flagged sensitive and still blocked with cookies (the account must be allowed to view sensitive/mature content — re-import from a browser where it plays)",
    );
    reveal_strlit(
        " — flagged sensitive (not for all audiences): needs a signed-in account allowed to view it (dl --cookie-import <site>), then retry",
    );
    reveal_strlit(
        " — blocked by an anti-bot/CAPTCHA challenge yt-dlp can't solve; may be undownloadable (fresh cookies from a browser where it plays, a matching IP, and current yt-dlp sometimes help; the last lever is a PO-token provider — not integrated yet)",
    );
    reveal_strlit(
        " — DRM-protected even with cookies (yt-dlp doesn't circumvent DRM — undownloadable)",
    );
    reveal_strlit(
        " — DRM-protected formats only; cookies sometimes unlock non-DRM variants (on YouTube even a logged-out session works): dl --cookie-import <site>, then retry",
    );
}

/// What there is to say of a failure of no known class holds no line feed.
pub proof fn lemma_detail_holds_no_feed(stderr: Seq<char>)
    ensures
        !detail(stderr).contains('\n'),
{
    let lines = text::lines_of(stderr);
    text::lemma_lines_hold_no_feed(stderr);
    lemma_error_line_is_a_line(lines, 0);
    reveal_strlit("unknown error");
    match error_line(lines, 0) {
        Some(line) => text::lemma_trimming_adds_nothing(line, '\n'),
        None => text::lemma_trimming_adds_nothing("unknown error"@, '\n'),
    }
}

proof fn lemma_error_line_is_a_line(lines: Seq<Seq<char>>, i: int)
    requires
        0 <= i,
    ensures
        match error_line(lines, i) {
            Some(line) => exists|j: int| 0 <= j < lines.len() && #[trigger] lines[j] == line,
            None => true,
        },
    decreases lines.len() - i,
{
    if i < lines.len() && !text::has(lines[i], "ERROR"@) {
        lemma_error_line_is_a_line(lines, i + 1);
    }
}

/// The place of a class in the order in which the classes are looked for.
pub open spec fn rank(class: Failure) -> nat {
    match class {
        Failure::Geo => 0,
        Failure::BotWall => 1,
        Failure::Members => 2,
        Failure::AgeRestricted => 3,
        Failure::Sensitive => 4,
        Failure::LoginRequired => 5,
        Failure::Drm => 6,
        Failure::Other => 7,
    }
}

/// Whether a text holds one of these phrasings.
pub open spec fn holds_one(s: Seq<char>, phrasings: Seq<Seq<char>>) -> bool {
    exists|i: int| 0 <= i < phrasings.len() && text::has(s, #[trigger] phrasings[i])
}

/// The phrasings that yt-dlp has for each cause; for an unknown cause there are none.
pub open spec fn phrasings(class: Failure) -> Seq<Seq<char>> {
    match class {
        Failure::Geo => seq![
            "in your country"@,
            "from your location"@,
            "in your region"@,
            "geo restrict"@,
            "geo_restrict"@,
        ],
        Failure::BotWall => seq![
            "not a bot"@,
            "captcha"@,
            "unusual traffic"@,
            "solve js challenge"@,
            "challenge data"@,
            "verify you are human"@,
            "verify you're human"@,
        ],
        Failure::Members => seq![
            "members-only"@,
            "members only"@,
            "channel's members"@,
            "join this channel"@,
        ],
        Failure::AgeRestricted => seq![
            "confirm your age"@,
            "age-restricted"@,
            "age-verification"@,
            "age_check_required"@,
        ],
        Failure::Sensitive => seq![
            "for some audiences"@,
            "not be comfortable"@,
        ],
        Failure::LoginRequired => seq![
            "requiring login"@,
            "log in for access"@,
            "log into an account"@,
            "permission to view"@,
            "account is private"@,
            "private video"@,
        ],
        Failure::Drm => seq![
            "drm protected"@,
            "drm-protected"@,
            "protected by drm"@,
        ],
        Failure::Other => seq![],
    }
}

/// A failure is of a class exactly if its text holds one of the class's phrasings and none of
/// those of the classes before it; it is of no known class exactly if it holds none at all.
pub proof fn law_each_class_has_its_phrasings(s: Seq<char>, class: Failure)
    ensures
        class_of(s) == class <==> (class == Failure::Other || holds_one(s, phrasings(class)))
            && forall|other: Failure|
            rank(other) < rank(class) ==> !holds_one(s, #[trigger] phrasings(other)),
{
    let list = phrasings(Failure::Geo);
    assert(list[0] == "in your country"@);
    assert(list[1] == "from your location"@);
    assert(list[2] == "in your region"@);
    assert(list[3] == "geo restrict"@);
    assert(list[4] == "geo_restrict"@);
    assert(holds_one(s, list) <==> says_geo(s));
    let list = phrasings(Failure::BotWall);
    assert(list[0] == "not a bot"@);
    assert(list[1] == "captcha"@);
    assert(list[2] == "unusual traffic"@);
    assert(list[3] == "solve js challenge"@);
    assert(list[4] == "challenge data"@);
    assert(list[5] == "verify you are human"@);
    assert(list[6] == "verify you're human"@);
    assert(holds_one(s, list) <==> says_bot_wall(s));
    let list = phrasings(Failure::Members);
    assert(list[0] == "members-only"@);
    assert(list[1] == "members only"@);
    assert(list[2] == "channel's members"@);
    assert(list[3] == "join this channel"@);
    assert(holds_one(s, list) <==> says_members(s));
    let list = phrasings(Failure::AgeRestricted);
    assert(list[0] == "confirm your age"@);
    assert(list[1] == "age-restricted"@);
    assert(list[2] == "age-verification"@);
    assert(list[3] == "age_check_required"@);
    assert(holds_one(s, list) <==> says_age(s));
    let list = phrasings(Failure::Sensitive);
    assert(list[0] == "for some audiences"@);
    assert(list[1] == "not be comfortable"@);
    assert(holds_one(s, list) <==> says_sensitive(s));
    let list = phrasings(Failure::LoginRequired);
    assert(list[0] == "requiring login"@);
    assert(list[1] == "log in for access"@);
    assert(list[2] == "log into an account"@);
    assert(list[3] == "permission to view"@);
    assert(list[4] == "account is private"@);
    assert(list[5] == "private video"@);
    assert(holds_one(s, list) <==> says_login(s));
    let list = phrasings(Failure::Drm);
    assert(list[0] == "drm protected"@);
    assert(list[1] == "drm-protected"@);
    assert(list[2] == "protected by drm"@);
    assert(holds_one(s, list) <==> says_drm(s));
    assert(!holds_one(s, phrasings(Failure::Other)));
}

/// An error of which none of the phrasings is known is of no known class, in whatever case it is
/// printed, and so is one without any text.
pub proof fn law_unknown_errors_are_of_no_class(stderr: Seq<char>)
    requires
        forall|class: Failure|
            !holds_one(text::lowercase(stderr), #[trigger] phrasings(class)),
    ensures
        class_of(text::lowercase(stderr)) == Failure::Other,
{
    law_each_class_has_its_phrasings(text::lowercase(stderr), Failure::Other);
}

/// More text never hides a cause that comes earlier in the order: what either part of a text in
/// small letters shows, the whole shows too, or something before it.
pub proof fn law_more_text_hides_nothing(a: Seq<char>, b: Seq<char>)
    ensures
        rank(class_of(a + b)) <= rank(class_of(a)),
        rank(class_of(a + b)) <= rank(class_of(b)),
{
    lemma_phrasings_extend(a, b);
}

proof fn lemma_phrasings_extend(a: Seq<char>, b: Seq<char>)
    ensures
        says_geo(a) || says_geo(b) ==> says_geo(a + b),
        says_bot_wall(a) || says_bot_wall(b) ==> says_bot_wall(a + b),
        says_members(a) || says_members(b) ==> says_members(a + b),
        says_age(a) || says_age(b) ==> says_age(a + b),
        says_sensitive(a) || says_sensitive(b) ==> says_sensitive(a + b),
        says_login(a) || says_login(b) ==> says_login(a + b),
        says_drm(a) || says_drm(b) ==> says_drm(a + b),
{
    assert forall|pat: Seq<char>| text::has(a, pat) || text::has(b, pat) implies #[trigger] text::has(
        a + b,
        pat,
    ) by {
        text::lemma_has_extends(a, b, pat);
    }
}

/// More stderr never hides a cause that comes earlier in the order, whatever the case and script
/// of either part.
pub proof fn law_more_stderr_hides_nothing(a: Seq<char>, b: Seq<char>)
    ensures
        rank(class_of(text::lowercase(a + b))) <= rank(class_of(text::lowercase(a))),
        rank(class_of(text::lowercase(a + b))) <= rank(class_of(text::lowercase(b))),
{
    text::lemma_lowercase_of_parts(a, b);
    lemma_alike_are_of_one_class(text::lowercase(a + b), text::lowercase(a) + text::lowercase(b));
    law_more_text_hides_nothing(text::lowercase(a), text::lowercase(b));
}

/// Case does not matter: two texts that differ only in the case of ASCII letters are of one class.
pub proof fn law_case_does_not_matter(a: Seq<char>, b: Seq<char>)
    requires
        text::ascii_lower(a) == text::ascii_lower(b),
    ensures
        class_of(text::lowercase(a)) == class_of(text::lowercase(b)),
{
    text::lemma_lowercase_whatever_the_case(a, b);
    lemma_alike_are_of_one_class(text::lowercase(a), text::lowercase(b));
}

/// The class of a text is that of the same text with its ASCII capitals made small.
pub proof fn law_small_letters_are_of_the_same_class(s: Seq<char>)
    ensures
        class_of(text::lowercase(text::ascii_lower(s))) == class_of(text::lowercase(s)),
{
    text::lemma_ascii_lower_twice(s);
    law_case_does_not_matter(text::ascii_lower(s), s);
}

proof fn lemma_alike_are_of_one_class(a: Seq<char>, b: Seq<char>)
    requires
        text::alike(a, b),
    ensures
        class_of(a) == class_of(b),
{
    lemma_phrasings_are_ascii();
    assert forall|pat: Seq<char>| vstd::utf8::is_ascii_chars(pat) implies #[trigger] text::has(a, pat)
        == text::has(b, pat) by {
        text::lemma_alike_hold_the_same(a, b, pat);
    }
}

proof fn lemma_phrasings_are_ascii()
    ensures
        vstd::utf8::is_ascii_chars("in your country"@),
        vstd::utf8::is_ascii_chars("from your location"@),
        vstd::utf8::is_ascii_chars("in your region"@),
        vstd::utf8::is_ascii_chars("geo restrict"@),
        vstd::utf8::is_ascii_chars("geo_restrict"@),
        vstd::utf8::is_ascii_chars("not a bot"@),
        vstd::utf8::is_ascii_chars("captcha"@),
        vstd::utf8::is_ascii_chars("unusual traffic"@),
        vstd::utf8::is_ascii_chars("solve js challenge"@),
        vstd::utf8::is_ascii_chars("challenge data"@),
        vstd::utf8::is_ascii_chars("verify you are human"@),
        vstd::utf8::is_ascii_chars("verify you're human"@),
        vstd::utf8::is_ascii_chars("members-only"@),
        vstd::utf8::is_ascii_chars("members only"@),
        vstd::utf8::is_ascii_chars("channel's members"@),
        vstd::utf8::is_ascii_chars("join this channel"@),
        vstd::utf8::is_ascii_chars("confirm your age"@),
        vstd::utf8::is_ascii_chars("age-restricted"@),
        vstd::utf8::is_ascii_chars("age-verification"@),
        vstd::utf8::is_ascii_chars("age_check_required"@),
        vstd::utf8::is_ascii_chars("for some audiences"@),
        vstd::utf8::is_ascii_chars("not be comfortable"@),
        vstd::utf8::is_ascii_chars("requiring login"@),
        vstd::utf8::is_ascii_chars("log in for access"@),
        vstd::utf8::is_ascii_chars("log into an account"@),
        vstd::utf8::is_ascii_chars("permission to view"@),
        vstd::utf8::is_ascii_chars("account is private"@),
        vstd::utf8::is_ascii_chars("private video"@),
        vstd::utf8::is_ascii_chars("drm protected"@),
        vstd::utf8::is_ascii_chars("drm-protected"@),
        vstd::utf8::is_ascii_chars("protected by drm"@),
{
    reveal_strlit("in your country");
    reveal_strlit("from your location");
    reveal_strlit("in your region");
    reveal_strlit("geo restrict");
    reveal_strlit("geo_restrict");
    reveal_strlit("not a bot");
    reveal_strlit("captcha");
    reveal_strlit("unusual traffic");
    reveal_strlit("solve js challenge");
    reveal_strlit("challenge data");
    reveal_strlit("verify you are human");
    reveal_strlit("verify you're human");
    reveal_strlit("members-only");
    reveal_strlit("members only");
    reveal_strlit("channel's members");
    reveal_strlit("join this channel");
    reveal_strlit("confirm your age");
    reveal_strlit("age-restricted");
    reveal_strlit("age-verification");
    reveal_strlit("age_check_required");
    reveal_strlit("for some audiences");
    reveal_strlit("not be comfortable");
    reveal_strlit("requiring login");
    reveal_strlit("log in for access");
    reveal_strlit("log into an account");
    reveal_strlit("permission to view");
    reveal_strlit("account is private");
    reveal_strlit("private video");
    reveal_strlit("drm protected");
    reveal_strlit("drm-protected");
    reveal_strlit("protected by drm");
}

/// What is repeated of a failure of no known class is its first line that speaks of an error,
/// without the white space around it; where no line does, the error is unknown.
pub proof fn law_the_first_error_is_repeated(stderr: Seq<char>, i: int)
    ensures
        ({
            let lines = text::lines_of(stderr);
            &&& 0 <= i < lines.len() && text::has(lines[i], "ERROR"@) && (forall|j: int|
                0 <= j < i ==> !text::has(#[trigger] lines[j], "ERROR"@)) ==> detail(stderr)
                == text::trimmed(lines[i])
            &&& (forall|j: int| 0 <= j < lines.len() ==> !text::has(#[trigger] lines[j], "ERROR"@))
                ==> detail(stderr) == "unknown error"@
        }),
{
    let lines = text::lines_of(stderr);
    if 0 <= i < lines.len() && text::has(lines[i], "ERROR"@) && (forall|j: int|
        0 <= j < i ==> !text::has(#[trigger] lines[j], "ERROR"@)) {
        lemma_error_line_at(lines, i, 0);
    }
    if forall|j: int| 0 <= j < lines.len() ==> !text::has(#[trigger] lines[j], "ERROR"@) {
        lemma_no_error_line(lines, 0);
        reveal_strlit("unknown error");
        assert(text::trimmed("unknown error"@) == "unknown error"@);
    }
}

proof fn lemma_error_line_at(lines: Seq<Seq<char>>, i: int, from: int)
    requires
        0 <= from <= i < lines.len(),
        text::has(lines[i], "ERROR"@),
        forall|j: int| 0 <= j < i ==> !text::has(#[trigger] lines[j], "ERROR"@),
    ensures
        error_line(lines, from) == Some(lines[i]),
    decreases i - from,
{
    if from < i {
        lemma_error_line_at(lines, i, from + 1);
    }
}

proof fn lemma_no_error_line(lines: Seq<Seq<char>>, from: int)
    requires
        0 <= from,
        forall|j: int| 0 <= j < lines.len() ==> !text::has(#[trigger] lines[j], "ERROR"@),
    ensures
        error_line(lines, from) is None,
    decreases lines.len() - from,
{
    if from < lines.len() {
        lemma_no_error_line(lines, from + 1);
    }
}

/// A phrasing is recognized wherever it stands and in whatever case it is printed: the failure is
/// then of the phrasing's class or of one before it.
pub proof fn law_phrasings_are_recognized(
    before: Seq<char>,
    printed: Seq<char>,
    behind: Seq<char>,
    class: Failure,
    i: int,
)
    requires
        0 <= i < phrasings(class).len(),
        text::ascii_lower(printed) == phrasings(class)[i],
    ensures
        rank(class_of(text::lowercase(before + printed + behind))) <= rank(class),
{
    lemma_phrasings_are_ascii();
    let phrase = phrasings(class)[i];
    assert(vstd::utf8::is_ascii_chars(phrase));
    assert forall|k: int| 0 <= k < printed.len() implies '\0' <= #[trigger] printed[k]
        <= '\u{7f}' by {
        assert(phrase[k] == text::lower(printed[k]));
        assert('\0' <= phrase[k] <= '\u{7f}');
    }
    text::lemma_lowercase_of_ascii(printed);
    assert(text::lowercase(printed) == phrase);
    assert(text::occurs_at(phrase, phrase, 0)) by {
        assert(phrase.subrange(0, phrase.len() as int) =~= phrase);
    }
    assert(text::has(phrase, phrase));
    assert(holds_one(phrase, phrasings(class)));
    lemma_class_is_the_first_held(phrase, class);
    law_more_stderr_hides_nothing(before, printed);
    law_more_stderr_hides_nothing(before + printed, behind);
}

proof fn lemma_class_is_the_first_held(s: Seq<char>, class: Failure)
    requires
        holds_one(s, phrasings(class)),
    ensures
        rank(class_of(s)) <= rank(class),
{
    let shown = class_of(s);
    law_each_class_has_its_phrasings(s, shown);
    if rank(class) < rank(shown) {
        assert(!holds_one(s, phrasings(class)));
    }
}

} // verus!
