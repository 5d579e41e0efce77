//! The diagnosis of a failed download: a captured re-run to learn why, the region rescue for a
//! geo-block, and the ledger line for whatever stays dead.

use vstd::prelude::*;
use vstd::string::*;
use crate::flow;
use crate::flow::{Action, ActionView, Event, EventView, Note, NoteView, Reply, ReplyView};
use crate::util::text;
use crate::ytdlp;
use crate::ytdlp::failures;
use crate::ytdlp::failures::{Failure, GeoRescue};
use crate::ytdlp::ledger;
use crate::ytdlp::scan::{Captured, CapturedView};

verus! {

/// The regions tried in order when a download proves geo-blocked.
pub open spec fn regions() -> Seq<Seq<char>> {
    seq![
        "US"@,
        "GB"@,
        "DE"@,
        "FR"@,
        "NL"@,
        "SE"@,
        "CA"@,
        "AU"@,
        "JP"@,
        "KR"@,
        "BR"@,
        "IN"@,
    ]
}

/// The regions tried in order when a download proves geo-blocked.
pub fn xff_regions() -> (r: Vec<String>)
    ensures
        text::texts(r@) == regions(),
{
    let mut list: Vec<String> = Vec::new();
    text::put(&mut list, "US");
    text::put(&mut list, "GB");
    text::put(&mut list, "DE");
    text::put(&mut list, "FR");
    text::put(&mut list, "NL");
    text::put(&mut list, "SE");
    text::put(&mut list, "CA");
    text::put(&mut list, "AU");
    text::put(&mut list, "JP");
    text::put(&mut list, "KR");
    text::put(&mut list, "BR");
    text::put(&mut list, "IN");
    assert(text::texts(list@) =~= regions());
    list
}

/// Where a diagnosis stands.
#[derive(Debug, PartialEq, Eq, Structural, Clone, Copy)]
pub enum Stage {
    Start,
    /// The captured re-run is under way.
    Rerun,
    /// A re-run with a spoofed region is under way.
    Sweep,
}

/// The diagnosis of the failed run `base`. `region` is the region under trial; `left` holds those
/// that follow.
pub struct Diagnose {
    pub base: Vec<String>,
    pub label: String,
    pub rescue: GeoRescue,
    pub stage: Stage,
    pub region: String,
    pub left: Vec<String>,
}

/// A [`Diagnose`] with its texts as sequences of characters.
#[verifier::ext_equal]
pub struct DiagnoseView {
    pub base: ytdlp::Argv,
    pub label: Seq<char>,
    pub rescue: GeoRescue,
    pub stage: Stage,
    pub region: Seq<char>,
    pub left: Seq<Seq<char>>,
}

impl View for Diagnose {
    type V = DiagnoseView;

    open spec fn view(&self) -> DiagnoseView {
        DiagnoseView {
            base: text::texts(self.base@),
            label: self.label@,
            rescue: self.rescue,
            stage: self.stage,
            region: self.region@,
            left: text::texts(self.left@),
        }
    }
}

/// Whether a run carried cookies.
pub open spec fn had_cookies(base: ytdlp::Argv) -> bool {
    base.contains("--cookies"@) || base.contains("--cookies-from-browser"@)
}

/// The ledger line for a failure of this class that no region is tried for.
pub open spec fn verdict(
    label: Seq<char>,
    class: Failure,
    had_cookies: bool,
    stderr: Seq<char>,
) -> Seq<char> {
    match class {
        Failure::Geo => label
            + " — geo-blocked (enforced by IP; retry from a VPN or --proxy with an IP in an allowed region)"@,
        Failure::BotWall => label + failures::bot_wall_advice(),
        Failure::Members => label
            + " — members-only (channels often release these publicly later)"@,
        Failure::AgeRestricted => label + failures::age_advice(had_cookies),
        Failure::Sensitive => label + failures::sensitive_advice(had_cookies),
        Failure::LoginRequired => label + failures::login_advice(had_cookies),
        Failure::Drm => label + failures::drm_advice(had_cookies),
        Failure::Other => label + " — failed: "@ + failures::detail(stderr),
    }
}

/// The ledger line for a failure of this class that no region is tried for.
pub fn verdict_line(label: &str, class: Failure, had_cookies: bool, stderr: &str) -> (r: String)
    ensures
        r@ == verdict(label@, class, had_cookies, stderr@),
{
    match class {
        Failure::Geo => text::cat(
            label,
            " — geo-blocked (enforced by IP; retry from a VPN or --proxy with an IP in an allowed region)",
        ),
        Failure::BotWall => failures::bot_wall_line(label),
        Failure::Members => text::cat(
            label,
            " — members-only (channels often release these publicly later)",
        ),
        Failure::AgeRestricted => failures::age_restricted_line(label, had_cookies),
        Failure::Sensitive => failures::sensitive_content_line(label, had_cookies),
        Failure::LoginRequired => failures::login_required_line(label, had_cookies),
        Failure::Drm => failures::drm_line(label, had_cookies),
        Failure::Other => {
            let detail = failures::failure_detail(stderr);
            text::cat3(label, " — failed: ", detail.as_str())
        },
    }
}

/// The diagnosis ends: the line is announced, and it is the answer.
pub open spec fn dead(line: Seq<char>) -> ReplyView {
    flow::saying(
        NoteView::Warn("vidl: "@ + line),
        ActionView::Return(EventView::Text(Some(line))),
    )
}

/// The diagnosis ends: the download has come through after all.
pub open spec fn revived(note: Seq<char>) -> ReplyView {
    flow::saying(NoteView::Out(note), ActionView::Return(EventView::Text(None)))
}

fn announce_dead(line: String) -> (r: Reply)
    ensures
        r@ == dead(line@),
{
    let shown = text::cat("vidl: ", line.as_str());
    flow::with_note(Note::Warn(shown), Action::Return(Event::Text(Some(line))))
}

fn announce_revived(note: String) -> (r: Reply)
    ensures
        r@ == revived(note@),
{
    flow::with_note(Note::Out(note), Action::Return(Event::Text(None)))
}

/// The next region is tried; where none is left, the block stands.
pub open spec fn sweep(s: DiagnoseView) -> (DiagnoseView, ReplyView) {
    if s.left.len() == 0 {
        (s, dead(s.label + " — geo-blocked (tried "@ + text::joined(regions(), ","@) + ")"@))
    } else {
        (
            DiagnoseView {
                stage: Stage::Sweep,
                region: s.left[0],
                left: s.left.drop_first(),
                ..s
            },
            flow::saying(
                NoteView::Out(s.label + ": geo-blocked — trying region "@ + s.left[0] + "…"@),
                ActionView::Capture(s.base + seq!["--xff"@, s.left[0]]),
            ),
        )
    }
}

/// The diagnosis's next step. A re-run that succeeds needs no line; a geo-block is swept where
/// the caller said so; every other failure gets its line.
pub open spec fn next(s: DiagnoseView, event: EventView) -> (DiagnoseView, ReplyView) {
    match s.stage {
        Stage::Start => (
            DiagnoseView { stage: Stage::Rerun, ..s },
            flow::quiet(ActionView::Capture(s.base)),
        ),
        Stage::Rerun => match flow::captured_of(event) {
            None => (s, dead(s.label + " — failed (could not even re-run yt-dlp)"@)),
            Some(run) => {
                let class = failures::class_of(text::lowercase(run.stderr));
                if run.ok {
                    (s, revived(s.label + ": succeeded on retry"@))
                } else if class == Failure::Geo && s.rescue == GeoRescue::XffSweep {
                    sweep(DiagnoseView { left: regions(), ..s })
                } else {
                    (s, dead(verdict(s.label, class, had_cookies(s.base), run.stderr)))
                }
            },
        },
        Stage::Sweep => match flow::captured_of(event) {
            Some(run) => if run.ok {
                (s, revived(s.label + ": region "@ + s.region + " worked"@))
            } else {
                sweep(s)
            },
            None => sweep(s),
        },
    }
}

impl Diagnose {
    /// The diagnosis of the failed run `base`.
    pub fn new(base: Vec<String>, label: String, rescue: GeoRescue) -> (r: Self)
        ensures
            r@ == (DiagnoseView {
                base: text::texts(base@),
                label: label@,
                rescue,
                stage: Stage::Start,
                region: seq![],
                left: seq![],
            }),
    {
        let left: Vec<String> = Vec::new();
        let region = String::new();
        assert(text::texts(left@) =~= seq![]);
        assert(region@ =~= seq![]);
        Diagnose { base, label, rescue, stage: Stage::Start, region, left }
    }

    fn try_region(&mut self) -> (r: Reply)
        ensures
            (final(self)@, r@) == sweep(old(self)@),
    {
        if self.left.len() == 0 {
            let all = xff_regions();
            let list = text::join(all.as_slice(), ",");
            let line = text::cat4(
                self.label.as_str(),
                " — geo-blocked (tried ",
                list.as_str(),
                ")",
            );
            return announce_dead(line);
        }
        let ghost before = text::texts(self.left@);
        let region = self.left.remove(0);
        assert(text::texts(self.left@) =~= before.drop_first());
        let mut spoofed = text::copy_list(self.base.as_slice());
        text::put(&mut spoofed, "--xff");
        text::put(&mut spoofed, region.as_str());
        assert(text::texts(spoofed@) =~= text::texts(self.base@) + seq!["--xff"@, region@]);
        let note = text::cat4(
            self.label.as_str(),
            ": geo-blocked — trying region ",
            region.as_str(),
            "…",
        );
        self.stage = Stage::Sweep;
        self.region = region;
        flow::with_note(Note::Out(note), Action::Capture(spoofed))
    }

    fn judge(&mut self, run: Captured) -> (r: Reply)
        requires
            old(self).stage == Stage::Rerun,
        ensures
            (final(self)@, r@) == next(old(self)@, EventView::Captured(Some(run@))),
    {
        if run.ok {
            let note = text::cat(self.label.as_str(), ": succeeded on retry");
            return announce_revived(note);
        }
        let class = failures::classify_failure(run.stderr.as_str());
        if class == Failure::Geo && self.rescue == GeoRescue::XffSweep {
            self.left = xff_regions();
            return self.try_region();
        }
        let had = text::listed(self.base.as_slice(), "--cookies") || text::listed(
            self.base.as_slice(),
            "--cookies-from-browser",
        );
        announce_dead(verdict_line(self.label.as_str(), class, had, run.stderr.as_str()))
    }

    /// Take in the outcome of the last action and say what comes next.
    pub fn step(&mut self, event: Event) -> (r: Reply)
        ensures
            (final(self)@, r@) == next(old(self)@, event@),
    {
        match self.stage {
            Stage::Start => {
                self.stage = Stage::Rerun;
                flow::silently(Action::Capture(text::copy_list(self.base.as_slice())))
            },
            Stage::Rerun => match event.into_captured() {
                None => announce_dead(
                    text::cat(self.label.as_str(), " — failed (could not even re-run yt-dlp)"),
                ),
                Some(run) => self.judge(run),
            },
            Stage::Sweep => match event.into_captured() {
                Some(run) => {
                    if run.ok {
                        let note = text::cat4(
                            self.label.as_str(),
                            ": region ",
                            self.region.as_str(),
                            " worked",
                        );
                        announce_revived(note)
                    } else {
                        self.try_region()
                    }
                },
                None => self.try_region(),
            },
        }
    }
}

/// A block that a site enforces by IP is never swept: no step of such a diagnosis tries a region.
pub proof fn law_ip_enforced_is_never_swept(s: DiagnoseView, event: EventView)
    requires
        s.rescue == GeoRescue::IpEnforced,
        s.stage != Stage::Sweep,
    ensures
        next(s, event).0.rescue == GeoRescue::IpEnforced,
        next(s, event).0.stage != Stage::Sweep,
        next(s, event).1.action is Capture ==> next(s, event).1.action == ActionView::Capture(
            s.base,
        ),
{
}

/// Every line that a diagnosis answers with starts with the label, so that the ledger entry still
/// names the video by what the label names it by.
pub proof fn law_ledger_lines_keep_the_label(
    s: DiagnoseView,
    event: EventView,
    line: Seq<char>,
    id: Seq<char>,
)
    requires
        next(s, event).1.action == ActionView::Return(EventView::Text(Some(line))),
    ensures
        s.label.is_prefix_of(line),
        ledger::refers(s.label, id) ==> ledger::refers(line, id),
{
    let advice = lemma_line_is_label_and_advice(s, event, line);
    assert(line.take(s.label.len() as int) =~= s.label);
    if ledger::refers(s.label, id) {
        ledger::law_advice_keeps_the_reference(s.label, advice, id);
    }
}

/// Every line that a diagnosis answers with stands on one line, as long as its label does, so
/// that the ledger stays a list of lines.
pub proof fn law_ledger_lines_stand_on_one_line(
    s: DiagnoseView,
    event: EventView,
    line: Seq<char>,
)
    requires
        next(s, event).1.action == ActionView::Return(EventView::Text(Some(line))),
        !s.label.contains('\n'),
    ensures
        !line.contains('\n'),
{
    let advice = lemma_line_is_label_and_advice(s, event, line);
    assert forall|j: int| 0 <= j < line.len() implies line[j] != '\n' by {
        if j < s.label.len() {
            assert(s.label.contains(s.label[j]));
        } else {
            assert(line[j] == advice[j - s.label.len()]);
            assert(advice.contains(advice[j - s.label.len()]));
        }
    }
}

/// What follows the label in the line that a diagnosis answers with.
proof fn lemma_line_is_label_and_advice(
    s: DiagnoseView,
    event: EventView,
    line: Seq<char>,
) -> (advice: Seq<char>)
    requires
        next(s, event).1.action == ActionView::Return(EventView::Text(Some(line))),
    ensures
        line == s.label + advice,
        failures::follows_label(advice),
{
    let advice = line.skip(s.label.len() as int);
    if s.stage == Stage::Rerun && flow::captured_of(event) is None {
        lemma_verdicts_follow_label();
        assert(line =~= s.label + " — failed (could not even re-run yt-dlp)"@);
        assert(advice =~= " — failed (could not even re-run yt-dlp)"@);
    } else if s.stage == Stage::Rerun {
        let run = flow::captured_of(event).unwrap();
        let class = failures::class_of(text::lowercase(run.stderr));
        if class == Failure::Geo && s.rescue == GeoRescue::XffSweep {
            assert(false);
        }
        lemma_verdict(s.label, class, had_cookies(s.base), run.stderr);
        assert(advice =~= verdict_advice(class, had_cookies(s.base), run.stderr));
    } else {
        lemma_verdicts_follow_label();
        lemma_regions_follow_label();
        let tried = " — geo-blocked (tried "@ + text::joined(regions(), ","@) + ")"@;
        assert(line =~= s.label + tried);
        assert(advice =~= tried);
    }
    advice
}

/// What follows the label in a verdict.
spec fn verdict_advice(class: Failure, had_cookies: bool, stderr: Seq<char>) -> Seq<char> {
    verdict(seq![], class, had_cookies, stderr)
}

proof fn lemma_verdict(label: Seq<char>, class: Failure, had_cookies: bool, stderr: Seq<char>)
    ensures
        verdict(label, class, had_cookies, stderr) == label + verdict_advice(
            class,
            had_cookies,
            stderr,
        ),
        failures::follows_label(verdict_advice(class, had_cookies, stderr)),
{
    let advice = verdict_advice(class, had_cookies, stderr);
    assert(verdict(label, class, had_cookies, stderr) =~= label + advice);
    lemma_verdicts_follow_label();
    match class {
        Failure::Other => {
            let detail = failures::detail(stderr);
            failures::lemma_detail_holds_no_feed(stderr);
            assert(advice =~= " — failed: "@ + detail);
            assert forall|j: int| 0 <= j < advice.len() implies advice[j] != '\n' by {
                if j < " — failed: "@.len() {
                    assert(" — failed: "@.contains(" — failed: "@[j]));
                } else {
                    assert(advice[j] == detail[j - " — failed: "@.len()]);
                    assert(detail.contains(detail[j - " — failed: "@.len()]));
                }
            }
        },
        Failure::Geo => {
            assert(advice
                =~= " — geo-blocked (enforced by IP; retry from a VPN or --proxy with an IP in an allowed region)"@);
        },
        Failure::BotWall => {
            assert(advice =~= failures::bot_wall_advice());
            failures::lemma_advice_follows_label(had_cookies);
        },
        Failure::Members => {
            assert(advice
                =~= " — members-only (channels often release these publicly later)"@);
        },
        Failure::AgeRestricted => {
            assert(advice =~= failures::age_advice(had_cookies));
            failures::lemma_advice_follows_label(had_cookies);
        },
        Failure::Sensitive => {
            assert(advice =~= failures::sensitive_advice(had_cookies));
            failures::lemma_advice_follows_label(had_cookies);
        },
        Failure::LoginRequired => {
            assert(advice =~= failures::login_advice(had_cookies));
            failures::lemma_advice_follows_label(had_cookies);
        },
        Failure::Drm => {
            assert(advice =~= failures::drm_advice(had_cookies));
            failures::lemma_advice_follows_label(had_cookies);
        },
    }
}

proof fn lemma_verdicts_follow_label()
    ensures
        failures::follows_label(" — failed (could not even re-run yt-dlp)"@),
        failures::follows_label(" — failed: "@),
        failures::follows_label(
            " — geo-blocked (enforced by IP; retry from a VPN or --proxy with an IP in an allowed region)"@,
        ),
        failures::follows_label(" — members-only (channels often release these publicly later)"@),
{
    reveal_strlit(" — failed (could not even re-run yt-dlp)");
    reveal_strlit(" — failed: ");
    reveal_strlit(
        " — geo-blocked (enforced by IP; retry from a VPN or --proxy with an IP in an allowed region)",
    );
    reveal_strlit(" — members-only (channels often release these publicly later)");
}

proof fn lemma_regions_follow_label()
    ensures
        failures::follows_label(
            " — geo-blocked (tried "@ + text::joined(regions(), ","@) + ")"@,
        ),
{
    reveal_strlit(" — geo-blocked (tried ");
    reveal_strlit(")");
    reveal_strlit(",");
    reveal_strlit("US");
    reveal_strlit("GB");
    reveal_strlit("DE");
    reveal_strlit("FR");
    reveal_strlit("NL");
    reveal_strlit("SE");
    reveal_strlit("CA");
    reveal_strlit("AU");
    reveal_strlit("JP");
    reveal_strlit("KR");
    reveal_strlit("BR");
    reveal_strlit("IN");
    let list = text::joined(regions(), ","@);
    assert forall|i: int| 0 <= i < regions().len() implies !(#[trigger] regions()[i]).contains(
        '\n',
    ) by {}
    text::lemma_joining_adds_only_separators(regions(), ","@, '\n');
    let whole = " — geo-blocked (tried "@ + list + ")"@;
    assert forall|j: int| 0 <= j < whole.len() implies whole[j] != '\n' by {
        let a = " — geo-blocked (tried "@.len();
        if a <= j < a + list.len() {
            assert(whole[j] == list[j - a]);
            assert(list.contains(list[j - a]));
        }
    }
}

/// A sweep tries the regions one by one, in order, and ends: with each one tried, fewer are left.
pub proof fn law_a_sweep_ends(s: DiagnoseView, event: EventView)
    requires
        s.stage == Stage::Sweep,
    ensures
        ({
            let (t, reply) = next(s, event);
            ||| reply.action is Return
            ||| {
                &&& s.left.len() > 0
                &&& reply.action == ActionView::Capture(s.base + seq!["--xff"@, s.left[0]])
                &&& t.left == s.left.drop_first()
                &&& t.stage == Stage::Sweep
            }
        }),
{
}

/// The actions with which a diagnosis answers events, one after the other.
pub open spec fn run(s: DiagnoseView, events: Seq<EventView>) -> Seq<ActionView>
    decreases events.len(),
{
    if events.len() == 0 {
        seq![]
    } else {
        let (t, reply) = next(s, events[0]);
        seq![reply.action] + run(t, events.drop_first())
    }
}

/// The twelve regions that a sweep goes through, in order.
pub open spec fn twelve_regions() -> Seq<Seq<char>> {
    seq![
        "US"@,
        "GB"@,
        "DE"@,
        "FR"@,
        "NL"@,
        "SE"@,
        "CA"@,
        "AU"@,
        "JP"@,
        "KR"@,
        "BR"@,
        "IN"@,
    ]
}

/// Whether an event reports a run that failed.
pub open spec fn reports_failure(event: EventView) -> bool {
    event matches EventView::Captured(Some(out)) && !out.ok
}

proof fn lemma_sweep_runs_down(s: DiagnoseView, events: Seq<EventView>)
    requires
        s.stage == Stage::Sweep,
        events.len() == s.left.len() + 1,
        forall|k: int| 0 <= k < events.len() ==> reports_failure(#[trigger] events[k]),
    ensures
        ({
            let tried = run(s, events);
            &&& tried.len() == events.len()
            &&& forall|k: int|
                0 <= k < s.left.len() ==> #[trigger] tried[k] == ActionView::Capture(
                    s.base + seq!["--xff"@, s.left[k]],
                )
            &&& tried.last() == ActionView::Return(
                EventView::Text(
                    Some(
                        s.label + " — geo-blocked (tried "@ + text::joined(
                            twelve_regions(),
                            ","@,
                        ) + ")"@,
                    ),
                ),
            )
        }),
    decreases s.left.len(),
{
    assert(regions() =~= twelve_regions());
    let (t, reply) = next(s, events[0]);
    let rest = events.drop_first();
    let later = run(t, rest);
    assert(run(s, events) =~= seq![reply.action] + later);
    assert(reports_failure(events[0]));
    if s.left.len() > 0 {
        assert forall|k: int| 0 <= k < rest.len() implies reports_failure(#[trigger] rest[k]) by {
            assert(rest[k] == events[k + 1]);
        }
        lemma_sweep_runs_down(t, rest);
        assert forall|k: int| 0 <= k < s.left.len() implies #[trigger] run(s, events)[k]
            == ActionView::Capture(s.base + seq!["--xff"@, s.left[k]]) by {
            if k > 0 {
                assert(run(s, events)[k] == later[k - 1]);
                assert(t.left[k - 1] == s.left[k]);
            }
        }
        assert(run(s, events).last() == later.last());
    } else {
        assert(later.len() == 0);
    }
}

/// A geo-block of a site that may honor a spoofed region is met with every one of the twelve
/// regions in turn, each by the same run with that region added; where none of them works, the
/// line says that all were tried.
pub proof fn law_a_geo_block_is_swept(
    s: DiagnoseView,
    out: CapturedView,
    events: Seq<EventView>,
)
    requires
        s.stage == Stage::Rerun,
        s.rescue == GeoRescue::XffSweep,
        !out.ok,
        failures::class_of(text::lowercase(out.stderr)) == Failure::Geo,
        events.len() == 13,
        events[0] == EventView::Captured(Some(out)),
        forall|k: int| 0 <= k < events.len() ==> reports_failure(#[trigger] events[k]),
    ensures
        ({
            let tried = run(s, events);
            &&& tried.len() == 13
            &&& forall|k: int|
                0 <= k < 12 ==> #[trigger] tried[k] == ActionView::Capture(
                    s.base + seq!["--xff"@, twelve_regions()[k]],
                )
            &&& tried[12] == ActionView::Return(
                EventView::Text(
                    Some(
                        s.label + " — geo-blocked (tried "@ + text::joined(
                            twelve_regions(),
                            ","@,
                        ) + ")"@,
                    ),
                ),
            )
        }),
{
    assert(regions() =~= twelve_regions());
    let sweeping = DiagnoseView { stage: Stage::Sweep, left: twelve_regions(), ..s };
    assert(next(s, events[0]) == next(sweeping, events[0]));
    assert(run(s, events) =~= run(sweeping, events));
    lemma_sweep_runs_down(sweeping, events);
}

/// A region that works ends the sweep, and the download has come through; so does a re-run that
/// ends well at once. The first step re-runs what failed, unchanged.
pub proof fn law_what_works_ends_the_diagnosis(
    s: DiagnoseView,
    out: CapturedView,
    event: EventView,
)
    ensures
        s.stage == Stage::Start ==> next(s, event).1.action == ActionView::Capture(s.base)
            && next(s, event).0 == (DiagnoseView { stage: Stage::Rerun, ..s }),
        s.stage != Stage::Start && out.ok ==> next(s, EventView::Captured(Some(out))).1.action
            == ActionView::Return(EventView::Text(None)),
        s.stage == Stage::Rerun ==> next(s, EventView::Captured(None)).1.action
            == ActionView::Return(
            EventView::Text(Some(s.label + " — failed (could not even re-run yt-dlp)"@)),
        ),
{
}

/// Whether a run carried cookies, from a file or from a browser.
pub open spec fn carries_cookies(base: ytdlp::Argv) -> bool {
    exists|i: int|
        0 <= i < base.len() && (#[trigger] base[i] == "--cookies"@ || base[i]
            == "--cookies-from-browser"@)
}

/// What stays dead gets the line of its class behind its label: for the gates that an account may
/// open, what to do is said differently to one that already gave cookies and to one that did not;
/// for a failure of no known class, the line repeats yt-dlp's own error.
pub proof fn law_each_class_has_its_line(s: DiagnoseView, out: CapturedView)
    requires
        s.stage == Stage::Rerun,
        !out.ok,
        s.rescue == GeoRescue::IpEnforced || failures::class_of(text::lowercase(out.stderr))
            != Failure::Geo,
    ensures
        ({
            let class = failures::class_of(text::lowercase(out.stderr));
            let jar = carries_cookies(s.base);
            let line = match (class, jar) {
                (Failure::Geo, _) => " — geo-blocked (enforced by IP; retry from a VPN or --proxy with an IP in an allowed region)"@,
                (Failure::BotWall, _) => " — blocked by an anti-bot/CAPTCHA challenge yt-dlp can't solve; may be undownloadable (fresh cookies from a browser where it plays, a matching IP, and current yt-dlp sometimes help; the last lever is a PO-token provider — not integrated yet)"@,
                (Failure::Members, _) => " — members-only (channels often release these publicly later)"@,
                (Failure::AgeRestricted, true) => " — age-restricted despite cookies (use a signed-in 18+ account; play it in that browser once to verify age, then re-import; past that, the last lever is a PO-token provider — not integrated yet)"@,
                (Failure::AgeRestricted, false) => " — age-restricted (needs cookies from a signed-in 18+ account: dl --cookie-import youtube, then retry)"@,
                (Failure::Sensitive, true) => " — flagged sensitive and still blocked with cookies (the account must be allowed to view sensitive/mature content — re-import from a browser where it plays)"@,
                (Failure::Sensitive, false) => " — flagged sensitive (not for all audiences): needs a signed-in account allowed to view it (dl --cookie-import <site>), then retry"@,
                (Failure::LoginRequired, true) => " — still blocked with cookies (the account may lack access, or the cookies went stale — re-import from a browser where it plays)"@,
                (Failure::LoginRequired, false) => " — needs an account with access: import cookies (dl --cookie-import <site>), then retry"@,
                (Failure::Drm, true) => " — DRM-protected even with cookies (yt-dlp doesn't circumvent DRM — undownloadable)"@,
                (Failure::Drm, false) => " — DRM-protected formats only; cookies sometimes unlock non-DRM variants (on YouTube even a logged-out session works): dl --cookie-import <site>, then retry"@,
                (Failure::Other, _) => " — failed: "@ + failures::detail(out.stderr),
            };
            let reply = next(s, EventView::Captured(Some(out))).1;
            &&& reply.action == ActionView::Return(EventView::Text(Some(s.label + line)))
            &&& reply.notes == seq![NoteView::Warn("vidl: "@ + (s.label + line))]
        }),
{
    let class = failures::class_of(text::lowercase(out.stderr));
    assert(carries_cookies(s.base) <==> had_cookies(s.base)) by {
        if carries_cookies(s.base) {
            let i = choose|i: int|
                0 <= i < s.base.len() && (#[trigger] s.base[i] == "--cookies"@ || s.base[i]
                    == "--cookies-from-browser"@);
            assert(s.base.contains(s.base[i]));
        }
        if s.base.contains("--cookies"@) {
            let i = choose|i: int| 0 <= i < s.base.len() && s.base[i] == "--cookies"@;
            assert(s.base[i] == "--cookies"@);
        }
        if s.base.contains("--cookies-from-browser"@) {
            let i = choose|i: int|
                0 <= i < s.base.len() && s.base[i] == "--cookies-from-browser"@;
            assert(s.base[i] == "--cookies-from-browser"@);
        }
    }
    if class == Failure::Other {
        assert(s.label + " — failed: "@ + failures::detail(out.stderr) =~= s.label + (
        " — failed: "@ + failures::detail(out.stderr)));
    }
}

} // verus!
