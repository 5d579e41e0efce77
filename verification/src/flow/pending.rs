//! The shared tail of playlist and channel-tab downloads: one probe covers the subtitles of every
//! pending entry, entries with the same subtitle keys download in one yt-dlp run, and what is
//! still missing from the archive afterwards is diagnosed entry by entry.

use vstd::prelude::*;
use vstd::string::*;
use crate::env::{Env, EnvView};
use crate::flow;
use crate::flow::ledgers;
use crate::flow::{
    Action,
    ActionView,
    Event,
    EventView,
    Job,
    JobView,
    Note,
    NoteView,
    Reply,
    ReplyView,
};
use crate::media::groups;
use crate::media::subtitles;
use crate::media::subtitles::{PickView, Planned, PlannedView};
use crate::tools::{Tools, ToolsView};
use crate::util::number;
use crate::util::text;
use crate::ytdlp;
use crate::ytdlp::failures::GeoRescue;
use crate::ytdlp::scan;
use crate::ytdlp::scan::{ScanEntry, ScanEntryView};

verus! {

/// Where the download of pending entries stands.
#[derive(Debug, PartialEq, Eq, Structural, Clone, Copy)]
pub enum Stage {
    Start,
    /// The subtitles of every entry are being asked for.
    Probing,
    /// A group of entries is being downloaded.
    Downloading,
    /// An entry of the group is being finished.
    Finishing,
    /// The archive is being read.
    Archive,
    /// The first entry of the queue is being diagnosed.
    Diagnosing,
    /// An entry that came through on its retry is being finished.
    Reviving,
    /// The ledger is being scrubbed.
    Scrubbing,
    /// The failures are being added to the ledger.
    Recording,
}

/// The download of `entries` of the collection `url`: a channel's `tab`, or a playlist.
pub struct Pending<'a> {
    pub url: String,
    pub entries: Vec<ScanEntry>,
    pub into: String,
    pub home: String,
    pub tab: Option<String>,
    pub env: Env<'a>,
    pub tools: &'a Tools,
    pub stage: Stage,
    /// Every entry with its subtitle plan.
    pub planned: Vec<Planned>,
    /// The groups that are still to be downloaded.
    pub groups: Vec<Vec<Planned>>,
    /// The entries that are still to be finished, or diagnosed.
    pub queue: Vec<Planned>,
    /// The first failing exit code of a group, or 0.
    pub worst: i32,
    /// The ledger lines of the entries that stayed dead.
    pub ledger: Vec<String>,
}

/// A [`Pending`] with its texts as sequences of characters.
#[verifier::ext_equal]
pub struct PendingView {
    pub url: Seq<char>,
    pub entries: Seq<ScanEntryView>,
    pub into: Seq<char>,
    pub home: Seq<char>,
    pub tab: Option<Seq<char>>,
    pub env: EnvView,
    pub tools: ToolsView,
    pub stage: Stage,
    pub planned: Seq<PlannedView>,
    pub groups: Seq<Seq<PlannedView>>,
    pub queue: Seq<PlannedView>,
    pub worst: i32,
    pub ledger: Seq<Seq<char>>,
}

/// The views of groups of planned entries.
pub open spec fn group_views(v: Seq<Vec<Planned>>) -> Seq<Seq<PlannedView>> {
    v.map_values(|g: Vec<Planned>| subtitles::planned_views(g@))
}

impl<'a> View for Pending<'a> {
    type V = PendingView;

    open spec fn view(&self) -> PendingView {
        PendingView {
            url: self.url@,
            entries: scan::entry_views(self.entries@),
            into: self.into@,
            home: self.home@,
            tab: text::opt_text(self.tab),
            env: self.env@,
            tools: self.tools@,
            stage: self.stage,
            planned: subtitles::planned_views(self.planned@),
            groups: group_views(self.groups@),
            queue: subtitles::planned_views(self.queue@),
            worst: self.worst,
            ledger: text::texts(self.ledger@),
        }
    }
}

/// The positions of entries in their collection.
pub open spec fn indexes_of(entries: Seq<ScanEntryView>) -> Seq<Seq<char>> {
    entries.map_values(|e: ScanEntryView| e.index)
}

/// The positions of planned entries in their collection.
pub open spec fn plan_indexes(plans: Seq<PlannedView>) -> Seq<Seq<char>> {
    plans.map_values(|p: PlannedView| p.index)
}

/// The first plan, from the `i`-th on, for the entry at `index`.
pub open spec fn plan_at(probed: Seq<PlannedView>, index: Seq<char>, i: int) -> Option<PlannedView>
    decreases probed.len() - i,
{
    if i < 0 || i >= probed.len() {
        None
    } else if probed[i].index == index {
        Some(probed[i])
    } else {
        plan_at(probed, index, i + 1)
    }
}

/// The plan for an entry: the probe's, else the English family.
pub open spec fn plan_for(entry: ScanEntryView, probed: Seq<PlannedView>) -> PlannedView {
    match plan_at(probed, entry.index, 0) {
        Some(plan) => plan,
        None => PlannedView { index: entry.index, id: entry.id, picks: subtitles::fallback() },
    }
}

/// The plans for entries: an entry that the probe does not name is not dropped.
pub open spec fn plans_for(entries: Seq<ScanEntryView>, probed: Seq<PlannedView>) -> Seq<
    PlannedView,
> {
    entries.map_values(|e: ScanEntryView| plan_for(e, probed))
}

/// The planned entries at these positions.
pub open spec fn picked(planned: Seq<PlannedView>, at: Seq<int>) -> Seq<PlannedView> {
    at.map_values(|i: int| planned[i])
}

/// The planned entries, grouped by their subtitle keys.
pub open spec fn grouped(planned: Seq<PlannedView>) -> Seq<Seq<PlannedView>> {
    groups::groups_of(planned).map_values(|at: Seq<int>| picked(planned, at))
}

/// The subtitle keys of a group: those of its first entry.
pub open spec fn group_keys(group: Seq<PlannedView>) -> Seq<Seq<char>> {
    if group.len() == 0 {
        seq![]
    } else {
        groups::keys(group[0])
    }
}

/// The arguments that download entries of the collection.
pub open spec fn entry_args(s: PendingView, keys: Seq<Seq<char>>, items: Seq<char>) -> ytdlp::Argv {
    match s.tab {
        Some(tab) => ytdlp::channel_tab_args(
            s.url,
            tab,
            s.into,
            s.home,
            s.env,
            keys,
            items,
            s.tools,
        ),
        None => ytdlp::playlist_args(s.url, s.into, s.home, s.env, keys, Some(items), s.tools),
    }
}

/// What the user learns of a group before its download.
pub open spec fn group_note(group: Seq<PlannedView>) -> Seq<char> {
    "=== downloading "@ + number::digits(group.len()) + " entr"@ + (if group.len() > 1 {
        "ies"@
    } else {
        "y"@
    }) + " (subs: "@ + (if group_keys(group).len() == 0 {
        "none"@
    } else {
        text::joined(group_keys(group), ","@)
    }) + ") ==="@
}

/// The title of the first entry, from the `i`-th on, at `index`.
pub open spec fn title_at(entries: Seq<ScanEntryView>, index: Seq<char>, i: int) -> Option<
    Seq<char>,
>
    decreases entries.len() - i,
{
    if i < 0 || i >= entries.len() {
        None
    } else if entries[i].index == index {
        Some(entries[i].title)
    } else {
        title_at(entries, index, i + 1)
    }
}

/// The label of a planned entry: its position and title, and its bracketed id, the ledger's
/// stable key.
pub open spec fn label_for(plan: PlannedView, entries: Seq<ScanEntryView>) -> Seq<char> {
    "#"@ + plan.index + " "@ + (match title_at(entries, plan.index, 0) {
        Some(title) => title,
        None => plan.id,
    }) + " ["@ + plan.id + "]"@
}

/// The planned entries that the archive does not name.
pub open spec fn stragglers(planned: Seq<PlannedView>, survivors: Seq<Seq<char>>) -> Seq<
    PlannedView,
> {
    planned.filter(|p: PlannedView| !survivors.contains(p.id))
}

/// The next group is downloaded; after the last one the archive is read.
pub open spec fn download(s: PendingView) -> (PendingView, ReplyView) {
    if s.groups.len() == 0 {
        (
            PendingView { stage: Stage::Archive, ..s },
            flow::quiet(ActionView::Read(ledgers::archive_in(s.home))),
        )
    } else {
        let group = s.groups[0];
        (
            PendingView {
                stage: Stage::Downloading,
                groups: s.groups.drop_first(),
                queue: group,
                ..s
            },
            flow::saying(
                NoteView::Out(group_note(group)),
                ActionView::Launch(
                    entry_args(
                        s,
                        group_keys(group),
                        text::joined(plan_indexes(group), ","@),
                    ),
                ),
            ),
        )
    }
}

/// The next entry of the group is finished; after the last one the next group is downloaded.
pub open spec fn finish(s: PendingView) -> (PendingView, ReplyView) {
    if s.queue.len() == 0 {
        download(s)
    } else {
        (
            PendingView { stage: Stage::Finishing, queue: s.queue.drop_first(), ..s },
            flow::quiet(
                ActionView::Run(
                    JobView::Finish {
                        root: s.home,
                        id: s.queue[0].id,
                        picks: s.queue[0].picks,
                    },
                ),
            ),
        )
    }
}

/// The next entry of the queue is diagnosed; after the last one the ledger is scrubbed.
pub open spec fn diagnose(s: PendingView) -> (PendingView, ReplyView) {
    if s.queue.len() == 0 {
        (
            PendingView { stage: Stage::Scrubbing, ..s },
            flow::quiet(ActionView::Run(JobView::ScrubLedger { dir: s.home })),
        )
    } else {
        let plan = s.queue[0];
        let label = label_for(plan, s.entries);
        (
            PendingView { stage: Stage::Diagnosing, ..s },
            flow::saying(
                NoteView::Out("--- diagnosing "@ + label + " ---"@),
                ActionView::Run(
                    JobView::Diagnose {
                        base: entry_args(s, groups::keys(plan), plan.index),
                        label,
                        rescue: GeoRescue::IpEnforced,
                    },
                ),
            ),
        )
    }
}

/// The next step of the download of pending entries.
pub open spec fn next(s: PendingView, event: EventView) -> (PendingView, ReplyView) {
    match s.stage {
        Stage::Start => (
            PendingView { stage: Stage::Probing, ..s },
            flow::saying(
                NoteView::Out(
                    "probing subtitles of "@ + number::digits(s.entries.len()) + " entries…"@,
                ),
                ActionView::Ask(
                    subtitles::batch_probe_args(s.url, indexes_of(s.entries), s.env, s.tools),
                ),
            ),
        ),
        Stage::Probing => {
            let planned = plans_for(
                s.entries,
                subtitles::batch_answer(flow::text_of(event)),
            );
            download(PendingView { planned, groups: grouped(planned), ..s })
        },
        Stage::Downloading => {
            let code = flow::code_of(event);
            let worst = if s.worst == 0 {
                code
            } else {
                s.worst
            };
            finish(PendingView { worst, ..s })
        },
        Stage::Finishing => finish(s),
        Stage::Archive => diagnose(
            PendingView {
                queue: stragglers(s.planned, scan::archived(flow::text_of(event))),
                ..s
            },
        ),
        Stage::Diagnosing => match flow::text_of(event) {
            Some(line) => diagnose(
                PendingView { queue: flow::rest(s.queue), ledger: s.ledger.push(line), ..s },
            ),
            None => if s.queue.len() == 0 {
                diagnose(s)
            } else {
                (
                    PendingView { stage: Stage::Reviving, queue: s.queue.drop_first(), ..s },
                    flow::quiet(
                        ActionView::Run(
                            JobView::Finish {
                                root: s.home,
                                id: s.queue[0].id,
                                picks: s.queue[0].picks,
                            },
                        ),
                    ),
                )
            },
        },
        Stage::Reviving => diagnose(s),
        Stage::Scrubbing => (
            PendingView { stage: Stage::Recording, ..s },
            flow::quiet(
                ActionView::Run(JobView::WriteLedger { dir: s.home, lines: s.ledger }),
            ),
        ),
        Stage::Recording => (s, flow::quiet(ActionView::Return(EventView::Code(s.worst)))),
    }
}

/// The positions of entries in their collection.
pub fn entry_indexes(entries: &[ScanEntry]) -> (r: Vec<String>)
    ensures
        text::texts(r@) == indexes_of(scan::entry_views(entries@)),
{
    let mut out: Vec<String> = Vec::new();
    let mut i: usize = 0;
    while i < entries.len()
        invariant
            i <= entries@.len(),
            out@.len() == i,
            forall|j: int| 0 <= j < i ==> (#[trigger] out@[j])@ == entries@[j].index@,
        decreases entries@.len() - i,
    {
        out.push(entries[i].index.clone());
        i += 1;
    }
    assert(text::texts(out@) =~= indexes_of(scan::entry_views(entries@)));
    out
}

fn indexes_in(plans: &[Planned]) -> (r: Vec<String>)
    ensures
        text::texts(r@) == plan_indexes(subtitles::planned_views(plans@)),
{
    let mut out: Vec<String> = Vec::new();
    let mut i: usize = 0;
    while i < plans.len()
        invariant
            i <= plans@.len(),
            out@.len() == i,
            forall|j: int| 0 <= j < i ==> (#[trigger] out@[j])@ == plans@[j].index@,
        decreases plans@.len() - i,
    {
        out.push(plans[i].index.clone());
        i += 1;
    }
    assert(text::texts(out@) =~= plan_indexes(subtitles::planned_views(plans@)));
    out
}

fn copy_plan(plan: &Planned) -> (r: Planned)
    ensures
        r@ == plan@,
{
    Planned {
        index: plan.index.clone(),
        id: plan.id.clone(),
        picks: subtitles::copy_picks(plan.picks.as_slice()),
    }
}

fn plan_entry(entry: &ScanEntry, probed: &[Planned]) -> (r: Planned)
    ensures
        r@ == plan_for(entry@, subtitles::planned_views(probed@)),
{
    let ghost all = subtitles::planned_views(probed@);
    let mut i: usize = 0;
    while i < probed.len()
        invariant
            i <= probed@.len(),
            all == subtitles::planned_views(probed@),
            plan_at(all, entry.index@, 0) == plan_at(all, entry.index@, i as int),
        decreases probed@.len() - i,
    {
        assert(all[i as int] == probed@[i as int]@);
        if text::same(probed[i].index.as_str(), entry.index.as_str()) {
            return copy_plan(&probed[i]);
        }
        i += 1;
    }
    Planned {
        index: entry.index.clone(),
        id: entry.id.clone(),
        picks: subtitles::default_picks(),
    }
}

/// The plans for entries: the probe's, else the English family.
pub fn plan_entries(entries: &[ScanEntry], probed: &[Planned]) -> (r: Vec<Planned>)
    ensures
        subtitles::planned_views(r@) == plans_for(
            scan::entry_views(entries@),
            subtitles::planned_views(probed@),
        ),
{
    let ghost all = plans_for(scan::entry_views(entries@), subtitles::planned_views(probed@));
    let mut out: Vec<Planned> = Vec::new();
    let mut i: usize = 0;
    assert(subtitles::planned_views(out@) =~= all.take(0));
    while i < entries.len()
        invariant
            i <= entries@.len(),
            all == plans_for(scan::entry_views(entries@), subtitles::planned_views(probed@)),
            subtitles::planned_views(out@) == all.take(i as int),
        decreases entries@.len() - i,
    {
        let ghost before = subtitles::planned_views(out@);
        let plan = plan_entry(&entries[i], probed);
        let ghost seen = plan@;
        out.push(plan);
        assert(subtitles::planned_views(out@) =~= before.push(seen));
        assert(scan::entry_views(entries@)[i as int] == entries@[i as int]@);
        assert(all.take(i + 1) =~= all.take(i as int).push(all[i as int]));
        i += 1;
    }
    assert(all.take(i as int) =~= all);
    out
}

/// The planned entries, grouped by their subtitle keys.
pub fn group_plans(planned: &[Planned]) -> (r: Vec<Vec<Planned>>)
    ensures
        group_views(r@) == grouped(subtitles::planned_views(planned@)),
{
    let ghost views = subtitles::planned_views(planned@);
    let ghost spec_groups = groups::groups_of(views);
    let rows = groups::group_by_langs(planned);
    proof {
        groups::law_grouping_partitions(views);
    }
    let mut out: Vec<Vec<Planned>> = Vec::new();
    let mut g: usize = 0;
    assert(group_views(out@) =~= grouped(views).take(0));
    while g < rows.len()
        invariant
            g <= rows@.len(),
            views == subtitles::planned_views(planned@),
            spec_groups == groups::groups_of(views),
            groups::sound(spec_groups, views),
            rows@.len() == spec_groups.len(),
            forall|h: int|
                0 <= h < rows@.len() ==> (#[trigger] rows@[h])@.unref() == groups::members(
                    planned@,
                    spec_groups[h],
                ),
            group_views(out@) == grouped(views).take(g as int),
        decreases rows@.len() - g,
    {
        let ghost before = group_views(out@);
        let ghost want = picked(views, spec_groups[g as int]);
        let ghost at = spec_groups[g as int];
        let mut row: Vec<Planned> = Vec::new();
        let mut a: usize = 0;
        assert(rows@[g as int]@.unref() == groups::members(planned@, at));
        assert(rows@[g as int]@.len() == rows@[g as int]@.unref().len());
        assert(subtitles::planned_views(row@) =~= want.take(0));
        while a < rows[g].len()
            invariant
                g < rows@.len(),
                a <= rows@[g as int]@.len(),
                views == subtitles::planned_views(planned@),
                groups::sound(spec_groups, views),
                g < spec_groups.len(),
                at == spec_groups[g as int],
                want == picked(views, at),
                rows@[g as int]@.unref() == groups::members(planned@, at),
                rows@[g as int]@.len() == at.len(),
                subtitles::planned_views(row@) == want.take(a as int),
            decreases rows@[g as int]@.len() - a,
        {
            let ghost prior = subtitles::planned_views(row@);
            let plan = copy_plan(rows[g][a]);
            let ghost seen = plan@;
            assert(rows@[g as int]@.unref()[a as int] == *rows@[g as int]@[a as int]);
            assert(groups::members(planned@, at)[a as int] == planned@[at[a as int]]);
            assert(spec_groups[g as int].len() > 0);
            assert(0 <= spec_groups[g as int][a as int] < views.len());
            assert(views[at[a as int]] == planned@[at[a as int]]@);
            row.push(plan);
            assert(subtitles::planned_views(row@) =~= prior.push(seen));
            assert(want.take(a + 1) =~= want.take(a as int).push(want[a as int]));
            a += 1;
        }
        assert(want.take(a as int) =~= want);
        out.push(row);
        assert(group_views(out@) =~= before.push(want));
        assert(grouped(views).take(g + 1) =~= grouped(views).take(g as int).push(want));
        g += 1;
    }
    assert(grouped(views).take(g as int) =~= grouped(views));
    out
}

fn straggling(planned: &[Planned], survivors: &[String]) -> (r: Vec<Planned>)
    ensures
        subtitles::planned_views(r@) == stragglers(
            subtitles::planned_views(planned@),
            text::texts(survivors@),
        ),
{
    let ghost all = subtitles::planned_views(planned@);
    let ghost ids = text::texts(survivors@);
    let ghost p = |p: PlannedView| !ids.contains(p.id);
    let mut out: Vec<Planned> = Vec::new();
    let mut i: usize = 0;
    proof {
        reveal(Seq::filter);
        assert(all.take(0) =~= seq![]);
        assert(subtitles::planned_views(out@) =~= all.take(0).filter(p));
    }
    while i < planned.len()
        invariant
            i <= planned@.len(),
            all == subtitles::planned_views(planned@),
            ids == text::texts(survivors@),
            p == |p: PlannedView| !ids.contains(p.id),
            subtitles::planned_views(out@) == all.take(i as int).filter(p),
        decreases planned@.len() - i,
    {
        let ghost before = subtitles::planned_views(out@);
        proof {
            reveal(Seq::filter);
            assert(all.take(i + 1).drop_last() =~= all.take(i as int));
            assert(all.take(i + 1).last() == planned@[i as int]@);
        }
        if !text::listed(survivors, planned[i].id.as_str()) {
            let plan = copy_plan(&planned[i]);
            let ghost seen = plan@;
            out.push(plan);
            assert(subtitles::planned_views(out@) =~= before.push(seen));
        }
        i += 1;
    }
    assert(all.take(i as int) =~= all);
    out
}

fn keys_for(group: &[Planned]) -> (r: Vec<String>)
    ensures
        text::texts(r@) == group_keys(subtitles::planned_views(group@)),
{
    if group.len() == 0 {
        let none: Vec<String> = Vec::new();
        assert(text::texts(none@) =~= seq![]);
        none
    } else {
        assert(subtitles::planned_views(group@)[0] == group@[0]@);
        subtitles::pick_keys(group[0].picks.as_slice())
    }
}

fn note_for(group: &[Planned]) -> (r: String)
    ensures
        r@ == group_note(subtitles::planned_views(group@)),
{
    let count = number::decimal(group.len() as u128);
    let keys = keys_for(group);
    let subs = if keys.len() == 0 {
        "none".to_owned()
    } else {
        text::join(keys.as_slice(), ",")
    };
    let plural = if group.len() > 1 {
        "ies"
    } else {
        "y"
    };
    text::cat5("=== downloading ", count.as_str(), " entr", plural, " (subs: ").concat(
        subs.as_str(),
    ).concat(") ===")
}

fn label_of(plan: &Planned, entries: &[ScanEntry]) -> (r: String)
    ensures
        r@ == label_for(plan@, scan::entry_views(entries@)),
{
    let ghost all = scan::entry_views(entries@);
    let mut title: Option<String> = None;
    let mut i: usize = 0;
    while i < entries.len()
        invariant_except_break
            i <= entries@.len(),
            all == scan::entry_views(entries@),
            title is None,
            title_at(all, plan.index@, 0) == title_at(all, plan.index@, i as int),
        ensures
            text::opt_text(title) == title_at(all, plan.index@, 0),
        decreases entries@.len() - i,
    {
        assert(all[i as int] == entries@[i as int]@);
        if text::same(entries[i].index.as_str(), plan.index.as_str()) {
            title = Some(entries[i].title.clone());
            break ;
        }
        i += 1;
    }
    let shown = match title {
        Some(title) => title,
        None => plan.id.clone(),
    };
    text::cat5("#", plan.index.as_str(), " ", shown.as_str(), " [").concat(
        plan.id.as_str(),
    ).concat("]")
}

impl<'a> Pending<'a> {
    /// The download of `entries` of the collection `url`.
    pub fn new(
        url: String,
        entries: Vec<ScanEntry>,
        into: String,
        home: String,
        tab: Option<String>,
        env: Env<'a>,
        tools: &'a Tools,
    ) -> (r: Self)
        ensures
            r@ == (PendingView {
                url: url@,
                entries: scan::entry_views(entries@),
                into: into@,
                home: home@,
                tab: text::opt_text(tab),
                env: env@,
                tools: tools@,
                stage: Stage::Start,
                planned: seq![],
                groups: seq![],
                queue: seq![],
                worst: 0,
                ledger: seq![],
            }),
    {
        let planned: Vec<Planned> = Vec::new();
        let groups: Vec<Vec<Planned>> = Vec::new();
        let queue: Vec<Planned> = Vec::new();
        let ledger: Vec<String> = Vec::new();
        assert(subtitles::planned_views(planned@) =~= seq![]);
        assert(group_views(groups@) =~= seq![]);
        assert(subtitles::planned_views(queue@) =~= seq![]);
        assert(text::texts(ledger@) =~= seq![]);
        Pending {
            url,
            entries,
            into,
            home,
            tab,
            env,
            tools,
            stage: Stage::Start,
            planned,
            groups,
            queue,
            worst: 0,
            ledger,
        }
    }

    fn entry_argv(&self, keys: &[String], items: &str) -> (r: Vec<String>)
        ensures
            text::texts(r@) == entry_args(self@, text::texts(keys@), items@),
    {
        match &self.tab {
            Some(tab) => ytdlp::channel_tab_argv(
                self.url.as_str(),
                tab.as_str(),
                self.into.as_str(),
                self.home.as_str(),
                self.env,
                keys,
                items,
                self.tools,
            ),
            None => ytdlp::playlist_argv(
                self.url.as_str(),
                self.into.as_str(),
                self.home.as_str(),
                self.env,
                keys,
                Some(items),
                self.tools,
            ),
        }
    }

    fn go_download(&mut self) -> (r: Reply)
        ensures
            (final(self)@, r@) == download(old(self)@),
    {
        if self.groups.len() == 0 {
            self.stage = Stage::Archive;
            return flow::silently(Action::Read(ledgers::archive_path(self.home.as_str())));
        }
        let ghost before = group_views(self.groups@);
        let group = self.groups.remove(0);
        assert(before[0] == subtitles::planned_views(group@));
        assert(group_views(self.groups@) =~= before.drop_first());
        let note = note_for(group.as_slice());
        let keys = keys_for(group.as_slice());
        let indexes = indexes_in(group.as_slice());
        let items = text::join(indexes.as_slice(), ",");
        let argv = self.entry_argv(keys.as_slice(), items.as_str());
        self.stage = Stage::Downloading;
        self.queue = group;
        flow::with_note(Note::Out(note), Action::Launch(argv))
    }

    fn finish_first(&mut self) -> (r: Reply)
        requires
            old(self).queue@.len() > 0,
        ensures
            final(self)@ == (PendingView { queue: old(self)@.queue.drop_first(), ..old(self)@ }),
            r@ == flow::quiet(
                ActionView::Run(
                    JobView::Finish {
                        root: old(self)@.home,
                        id: old(self)@.queue[0].id,
                        picks: old(self)@.queue[0].picks,
                    },
                ),
            ),
    {
        let ghost before = subtitles::planned_views(self.queue@);
        let plan = self.queue.remove(0);
        assert(before[0] == plan@);
        assert(subtitles::planned_views(self.queue@) =~= before.drop_first());
        flow::silently(
            Action::Run(
                Job::Finish { root: self.home.clone(), id: plan.id, picks: plan.picks },
            ),
        )
    }

    fn go_finish(&mut self) -> (r: Reply)
        ensures
            (final(self)@, r@) == finish(old(self)@),
    {
        if self.queue.len() == 0 {
            self.go_download()
        } else {
            self.stage = Stage::Finishing;
            self.finish_first()
        }
    }

    fn go_diagnose(&mut self) -> (r: Reply)
        ensures
            (final(self)@, r@) == diagnose(old(self)@),
    {
        if self.queue.len() == 0 {
            self.stage = Stage::Scrubbing;
            return flow::silently(Action::Run(Job::ScrubLedger { dir: self.home.clone() }));
        }
        assert(subtitles::planned_views(self.queue@)[0] == self.queue@[0]@);
        let label = label_of(&self.queue[0], self.entries.as_slice());
        let note = text::cat3("--- diagnosing ", label.as_str(), " ---");
        let keys = subtitles::pick_keys(self.queue[0].picks.as_slice());
        let base = self.entry_argv(keys.as_slice(), self.queue[0].index.as_str());
        self.stage = Stage::Diagnosing;
        flow::with_note(
            Note::Out(note),
            Action::Run(Job::Diagnose { base, label, rescue: GeoRescue::IpEnforced }),
        )
    }

    fn diagnosed(&mut self, event: Event) -> (r: Reply)
        requires
            old(self).stage == Stage::Diagnosing,
        ensures
            (final(self)@, r@) == next(old(self)@, event@),
    {
        match event.into_text() {
            Some(line) => {
                if self.queue.len() > 0 {
                    let ghost before = subtitles::planned_views(self.queue@);
                    let _ = self.queue.remove(0);
                    assert(subtitles::planned_views(self.queue@) =~= before.drop_first());
                }
                text::put(&mut self.ledger, line.as_str());
                self.go_diagnose()
            },
            None => {
                if self.queue.len() == 0 {
                    self.go_diagnose()
                } else {
                    self.stage = Stage::Reviving;
                    self.finish_first()
                }
            },
        }
    }

    /// Take in the outcome of the last action and say what comes next.
    pub fn step(&mut self, event: Event) -> (r: Reply)
        ensures
            (final(self)@, r@) == next(old(self)@, event@),
    {
        match self.stage {
            Stage::Start => {
                let count = number::decimal(self.entries.len() as u128);
                let note = text::cat3("probing subtitles of ", count.as_str(), " entries…");
                let indexes = entry_indexes(self.entries.as_slice());
                let argv = subtitles::batch_probe_argv(
                    self.url.as_str(),
                    indexes.as_slice(),
                    self.env,
                    self.tools,
                );
                self.stage = Stage::Probing;
                flow::with_note(Note::Out(note), Action::Ask(argv))
            },
            Stage::Probing => {
                let answer = event.into_text();
                let probed = subtitles::parse_batch_answer(text::borrow(&answer));
                self.planned = plan_entries(self.entries.as_slice(), probed.as_slice());
                self.groups = group_plans(self.planned.as_slice());
                self.go_download()
            },
            Stage::Downloading => {
                let code: i32 = event.code();
                if self.worst == 0 {
                    self.worst = code;
                }
                self.go_finish()
            },
            Stage::Finishing => self.go_finish(),
            Stage::Archive => {
                let archive = event.into_text();
                let survivors = scan::archived_ids(text::borrow(&archive));
                self.queue = straggling(self.planned.as_slice(), survivors.as_slice());
                self.go_diagnose()
            },
            Stage::Diagnosing => self.diagnosed(event),
            Stage::Reviving => self.go_diagnose(),
            Stage::Scrubbing => {
                self.stage = Stage::Recording;
                let lines = text::copy_list(self.ledger.as_slice());
                flow::silently(Action::Run(Job::WriteLedger { dir: self.home.clone(), lines }))
            },
            Stage::Recording => flow::silently(Action::Return(Event::Code(self.worst))),
        }
    }
}

/// No pending entry is dropped: each has a plan, for its own position, whether or not the probe
/// named it.
pub proof fn law_no_entry_is_dropped(entries: Seq<ScanEntryView>, probed: Seq<PlannedView>)
    ensures
        plans_for(entries, probed).len() == entries.len(),
        plan_indexes(plans_for(entries, probed)) == indexes_of(entries),
{
    assert forall|i: int| 0 <= i < entries.len() implies plan_for(
        #[trigger] entries[i],
        probed,
    ).index == entries[i].index by {
        lemma_plan_at(probed, entries[i].index, 0);
    }
    assert(plan_indexes(plans_for(entries, probed)) =~= indexes_of(entries));
}

proof fn lemma_plan_at(probed: Seq<PlannedView>, index: Seq<char>, i: int)
    requires
        0 <= i,
    ensures
        match plan_at(probed, index, i) {
            Some(plan) => plan.index == index,
            None => true,
        },
    decreases probed.len() - i,
{
    if i < probed.len() && probed[i].index != index {
        lemma_plan_at(probed, index, i + 1);
    }
}

/// Every entry of a group downloads with the subtitle keys that it planned for itself.
pub proof fn law_groups_share_their_keys(planned: Seq<PlannedView>, g: int, a: int)
    requires
        0 <= g < grouped(planned).len(),
        0 <= a < grouped(planned)[g].len(),
    ensures
        groups::keys(grouped(planned)[g][a]) == group_keys(grouped(planned)[g]),
{
    groups::law_grouping_partitions(planned);
    let at = groups::groups_of(planned)[g];
    assert(grouped(planned)[g] == picked(planned, at));
    assert(at.len() > 0);
    assert(0 <= at[a] < planned.len());
    assert(grouped(planned)[g][a] == planned[at[a]]);
    assert(grouped(planned)[g][0] == planned[at[0]]);
}

/// The exit code is that of the first group that failed: once set, nothing changes it.
pub proof fn law_the_first_failure_counts(s: PendingView, event: EventView)
    ensures
        s.worst != 0 ==> next(s, event).0.worst == s.worst,
        s.worst == 0 ==> next(s, event).0.worst == (if s.stage == Stage::Downloading {
            flow::code_of(event)
        } else {
            0
        }),
        next(s, event).1.action is Return ==> next(s, event).1.action == ActionView::Return(
            EventView::Code(s.worst),
        ),
{
}

/// What is diagnosed is what is missing from the archive, and all of that.
pub proof fn law_stragglers_are_what_the_archive_lacks(
    planned: Seq<PlannedView>,
    survivors: Seq<Seq<char>>,
    plan: PlannedView,
)
    ensures
        stragglers(planned, survivors).contains(plan) <==> planned.contains(plan)
            && !survivors.contains(plan.id),
{
    let p = |p: PlannedView| !survivors.contains(p.id);
    broadcast use vstd::seq_lib::group_filter_ensures;

    if stragglers(planned, survivors).contains(plan) {
        planned.lemma_filter_contains_rev(p, plan);
    }
    if planned.contains(plan) && !survivors.contains(plan.id) {
        let i = choose|i: int| 0 <= i < planned.len() && planned[i] == plan;
        planned.lemma_filter_contains(p, i);
    }
}

/// The actions with which the download of pending entries answers events, one after the other,
/// and the state that it comes to.
pub open spec fn run(s: PendingView, events: Seq<EventView>) -> (PendingView, Seq<ActionView>)
    decreases events.len(),
{
    if events.len() == 0 {
        (s, seq![])
    } else {
        let (t, reply) = next(s, events[0]);
        let (end, later) = run(t, events.drop_first());
        (end, seq![reply.action] + later)
    }
}

/// The languages that the tracks of an entry's plan are asked for by.
pub open spec fn langs_of(plan: PlannedView) -> Seq<Seq<char>> {
    plan.picks.map_values(|p: PickView| p.key)
}

/// The English picks for an entry that the probe did not name.
pub open spec fn english_family() -> Seq<PickView> {
    seq![
        PickView { key: "en"@, name: seq![], auto: false },
        PickView { key: "en-US"@, name: seq![], auto: false },
        PickView { key: "en-GB"@, name: seq![], auto: false },
    ]
}

/// One probe covers every entry: it asks for all of their positions at once.
pub proof fn law_one_probe_covers_every_entry(s: PendingView, event: EventView)
    requires
        s.stage == Stage::Start,
    ensures
        next(s, event).1.action == ActionView::Ask(
            subtitles::batch_probe_args(
                s.url,
                s.entries.map_values(|e: ScanEntryView| e.index),
                s.env,
                s.tools,
            ),
        ),
        next(s, event).0 == (PendingView { stage: Stage::Probing, ..s }),
{
}

/// Whether a plan is the one for an entry: the first that the probe gave for its position, or the
/// English family where the probe gave none.
pub open spec fn is_plan_for(
    plan: PlannedView,
    entry: ScanEntryView,
    probed: Seq<PlannedView>,
) -> bool {
    ||| exists|j: int|
        0 <= j < probed.len() && #[trigger] probed[j] == plan && plan.index == entry.index
            && forall|k: int| 0 <= k < j ==> (#[trigger] probed[k]).index != entry.index
    ||| plan == (PlannedView { index: entry.index, id: entry.id, picks: english_family() })
        && forall|k: int| 0 <= k < probed.len() ==> (#[trigger] probed[k]).index != entry.index
}

proof fn lemma_plan_for(entry: ScanEntryView, probed: Seq<PlannedView>, i: int)
    requires
        0 <= i <= probed.len(),
        forall|k: int| 0 <= k < i ==> (#[trigger] probed[k]).index != entry.index,
    ensures
        match plan_at(probed, entry.index, i) {
            Some(plan) => exists|j: int|
                0 <= j < probed.len() && #[trigger] probed[j] == plan && plan.index == entry.index
                    && forall|k: int| 0 <= k < j ==> (#[trigger] probed[k]).index != entry.index,
            None => forall|k: int|
                0 <= k < probed.len() ==> (#[trigger] probed[k]).index != entry.index,
        },
    decreases probed.len() - i,
{
    if i < probed.len() && probed[i].index != entry.index {
        lemma_plan_for(entry, probed, i + 1);
    } else if i < probed.len() {
        assert(probed[i] == probed[i]);
    }
}

/// The planned entries with these languages, in order.
pub open spec fn with_langs(planned: Seq<PlannedView>, langs: Seq<Seq<char>>) -> Seq<PlannedView> {
    planned.filter(|p: PlannedView| langs_of(p) == langs)
}

/// Whether a planned entry stands in one of the groups.
pub open spec fn in_a_group(groups: Seq<Seq<PlannedView>>, plan: PlannedView) -> bool {
    exists|g: int| 0 <= g < groups.len() && (#[trigger] groups[g]).contains(plan)
}

/// Whether planned entries are grouped by their languages: each entry stands in a group, each
/// group holds all the entries that have the languages of its first, in order and once each, and
/// no two groups have the same languages.
pub open spec fn is_grouping(groups: Seq<Seq<PlannedView>>, planned: Seq<PlannedView>) -> bool {
    &&& forall|i: int|
        0 <= i < planned.len() ==> in_a_group(groups, #[trigger] planned[i])
    &&& forall|g: int|
        0 <= g < groups.len() ==> (#[trigger] groups[g]).len() > 0 && groups[g] == with_langs(
            planned,
            langs_of(groups[g][0]),
        )
    &&& forall|g: int, h: int|
        0 <= g < h < groups.len() ==> langs_of(#[trigger] groups[g][0]) != langs_of(
            #[trigger] groups[h][0],
        )
}

proof fn lemma_picked_is_filter(
    planned: Seq<PlannedView>,
    at: Seq<int>,
    p: spec_fn(PlannedView) -> bool,
)
    requires
        forall|a: int| 0 <= a < at.len() ==> 0 <= #[trigger] at[a] < planned.len(),
        forall|a: int, b: int| 0 <= a < b < at.len() ==> at[a] < at[b],
        forall|i: int| 0 <= i < planned.len() ==> (p(#[trigger] planned[i]) <==> at.contains(i)),
    ensures
        picked(planned, at) == planned.filter(p),
    decreases planned.len(),
{
    reveal(Seq::filter);
    if planned.len() == 0 {
        if at.len() > 0 {
            assert(0 <= at[0] < planned.len());
        }
        assert(picked(planned, at) =~= planned.filter(p));
    } else {
        let n = planned.len() - 1;
        let prior = planned.drop_last();
        if p(planned[n]) {
            assert(at.contains(n));
            let k = choose|k: int| 0 <= k < at.len() && at[k] == n;
            if k < at.len() - 1 {
                assert(at[k] < at[at.len() - 1]);
            }
            let rest = at.drop_last();
            assert forall|a: int| 0 <= a < rest.len() implies 0 <= #[trigger] rest[a]
                < prior.len() by {
                assert(at[a] < at[at.len() - 1]);
            }
            assert forall|i: int| 0 <= i < prior.len() implies (p(#[trigger] prior[i])
                <==> rest.contains(i)) by {
                assert(prior[i] == planned[i]);
                if at.contains(i) {
                    let j = choose|j: int| 0 <= j < at.len() && at[j] == i;
                    assert(rest[j] == i);
                }
                if rest.contains(i) {
                    let j = choose|j: int| 0 <= j < rest.len() && rest[j] == i;
                    assert(at[j] == i);
                }
            }
            lemma_picked_is_filter(prior, rest, p);
            assert(picked(planned, at) =~= picked(prior, rest).push(planned[n]));
        } else {
            assert forall|a: int| 0 <= a < at.len() implies 0 <= #[trigger] at[a]
                < prior.len() by {
                if at[a] == n {
                    assert(at.contains(n));
                }
            }
            assert forall|i: int| 0 <= i < prior.len() implies (p(#[trigger] prior[i])
                <==> at.contains(i)) by {
                assert(prior[i] == planned[i]);
            }
            lemma_picked_is_filter(prior, at, p);
            assert(picked(planned, at) =~= picked(prior, at));
        }
    }
}

proof fn lemma_grouped_is_a_grouping(planned: Seq<PlannedView>)
    ensures
        is_grouping(grouped(planned), planned),
{
    groups::law_grouping_partitions(planned);
    let at = groups::groups_of(planned);
    let all = grouped(planned);
    assert forall|i: int| 0 <= i < planned.len() implies in_a_group(
        all,
        #[trigger] planned[i],
    ) by {
        assert(groups::grouped(at, i));
        let g = choose|g: int| 0 <= g < at.len() && (#[trigger] at[g]).contains(i);
        let a = choose|a: int| 0 <= a < at[g].len() && at[g][a] == i;
        assert(all[g][a] == planned[i]);
        assert(all[g].contains(planned[i]));
    }
    assert forall|g: int| 0 <= g < all.len() implies (#[trigger] all[g]).len() > 0 && all[g]
        == with_langs(planned, langs_of(all[g][0])) by {
        assert(at[g].len() > 0);
        assert(0 <= at[g][0] < planned.len());
        assert(all[g][0] == planned[at[g][0]]);
        let langs = langs_of(all[g][0]);
        let wanted = |p: PlannedView| langs_of(p) == langs;
        assert forall|a: int| 0 <= a < at[g].len() implies 0 <= #[trigger] at[g][a]
            < planned.len() by {}
        assert forall|i: int| 0 <= i < planned.len() implies (wanted(#[trigger] planned[i])
            <==> at[g].contains(i)) by {
            if at[g].contains(i) {
                let a = choose|a: int| 0 <= a < at[g].len() && at[g][a] == i;
                assert(groups::keys(planned[at[g][a]]) == groups::keys(planned[at[g][0]]));
            }
            if wanted(planned[i]) {
                assert(groups::grouped(at, i));
                let h = choose|h: int| 0 <= h < at.len() && (#[trigger] at[h]).contains(i);
                let b = choose|b: int| 0 <= b < at[h].len() && at[h][b] == i;
                assert(at[h].len() > 0);
                assert(groups::keys(planned[at[h][b]]) == groups::keys(planned[at[h][0]]));
                if g < h {
                    assert(groups::keys(planned[at[g][0]]) != groups::keys(planned[at[h][0]]));
                } else if h < g {
                    assert(groups::keys(planned[at[h][0]]) != groups::keys(planned[at[g][0]]));
                }
            }
        }
        lemma_picked_is_filter(planned, at[g], wanted);
    }
    assert forall|g: int, h: int| 0 <= g < h < all.len() implies langs_of(
        #[trigger] all[g][0],
    ) != langs_of(#[trigger] all[h][0]) by {
        assert(at[g].len() > 0 && at[h].len() > 0);
        assert(all[g][0] == planned[at[g][0]]);
        assert(all[h][0] == planned[at[h][0]]);
        assert(groups::keys(planned[at[g][0]]) != groups::keys(planned[at[h][0]]));
    }
}

/// Once the probe has answered, every entry has its plan, in the order of the entries; the plans
/// are grouped by their languages without leaving one out; and the first group downloads at once.
pub proof fn law_every_entry_is_planned_and_grouped(s: PendingView, answer: Option<Seq<char>>)
    requires
        s.stage == Stage::Probing,
    ensures
        ({
            let (t, reply) = next(s, EventView::Text(answer));
            let probed = subtitles::batch_answer(answer);
            &&& t.planned.len() == s.entries.len()
            &&& forall|i: int|
                0 <= i < s.entries.len() ==> is_plan_for(
                    #[trigger] t.planned[i],
                    s.entries[i],
                    probed,
                )
            &&& s.entries.len() > 0 ==> is_grouping(seq![t.queue] + t.groups, t.planned)
                && reply.action is Launch
            &&& (t.worst, t.ledger) == (s.worst, s.ledger)
        }),
{
    let probed = subtitles::batch_answer(answer);
    let planned = plans_for(s.entries, probed);
    let (t, reply) = next(s, EventView::Text(answer));
    assert(subtitles::fallback() =~= english_family());
    assert forall|i: int| 0 <= i < s.entries.len() implies is_plan_for(
        #[trigger] planned[i],
        s.entries[i],
        probed,
    ) by {
        lemma_plan_for(s.entries[i], probed, 0);
    }
    let all = grouped(planned);
    lemma_grouped_is_a_grouping(planned);
    if s.entries.len() > 0 {
        assert(in_a_group(all, planned[0]));
        assert(seq![all[0]] + all.drop_first() =~= all);
        assert(t.queue == all[0]);
        assert(t.groups == all.drop_first());
    }
}

/// The run that downloads entries of the collection at these positions with these languages: from
/// the tab of a channel into the tab's folder, or from a playlist.
pub open spec fn entries_run(
    s: PendingView,
    langs: Seq<Seq<char>>,
    items: Seq<char>,
) -> ytdlp::Argv {
    if let Some(tab) = s.tab {
        ytdlp::channel_tab_args(s.url, tab, s.into, s.home, s.env, langs, items, s.tools)
    } else {
        ytdlp::playlist_args(s.url, s.into, s.home, s.env, langs, Some(items), s.tools)
    }
}

/// Every group downloads, the first one that is left next: with the languages of its entries, and
/// with the positions of all of them. After the last group the archive is read.
pub proof fn law_every_group_is_downloaded(s: PendingView, code: i32, event: EventView)
    requires
        s.queue.len() == 0,
    ensures
        s.stage == Stage::Downloading ==> {
            let (t, reply) = next(s, EventView::Code(code));
            is_next_group(s, t, reply.action)
        },
        s.stage == Stage::Finishing ==> {
            let (t, reply) = next(s, event);
            is_next_group(s, t, reply.action) && t.worst == s.worst
        },
{
}

/// Whether a step goes on to the next group, or past the last one.
pub open spec fn is_next_group(s: PendingView, t: PendingView, action: ActionView) -> bool {
    if s.groups.len() > 0 {
        let group = s.groups[0];
        &&& group.len() > 0 ==> action == ActionView::Launch(
            entries_run(
                s,
                langs_of(group[0]),
                text::joined(group.map_values(|p: PlannedView| p.index), ","@),
            ),
        )
        &&& t.groups == s.groups.drop_first()
        &&& t.queue == group
        &&& t.stage == Stage::Downloading
    } else {
        &&& action == ActionView::Read(
            crate::util::path::joined(s.home, ".dl_video_archive.txt"@),
        )
        &&& t.stage == Stage::Archive
    }
}

/// The finishing of one entry.
pub open spec fn entry_finish(home: Seq<char>, plan: PlannedView) -> ActionView {
    ActionView::Run(JobView::Finish { root: home, id: plan.id, picks: plan.picks })
}

/// Every entry of a group that was downloaded is finished, one after the other, whatever the
/// run's exit code, before the next group downloads.
pub proof fn law_every_entry_is_finished(s: PendingView, events: Seq<EventView>)
    requires
        s.stage == Stage::Downloading || s.stage == Stage::Finishing,
        events.len() == s.queue.len(),
    ensures
        run(s, events).1.len() == s.queue.len(),
        forall|k: int|
            0 <= k < s.queue.len() ==> #[trigger] run(s, events).1[k] == entry_finish(
                s.home,
                s.queue[k],
            ),
        run(s, events).0.queue.len() == 0,
        run(s, events).0.groups == s.groups,
    decreases events.len(),
{
    if events.len() > 0 {
        let (t, reply) = next(s, events[0]);
        let later = run(t, events.drop_first()).1;
        law_every_entry_is_finished(t, events.drop_first());
        assert(run(s, events).1 =~= seq![reply.action] + later);
        assert forall|k: int| 0 <= k < s.queue.len() implies #[trigger] run(s, events).1[k]
            == entry_finish(s.home, s.queue[k]) by {
            if k > 0 {
                assert(run(s, events).1[k] == later[k - 1]);
                assert(t.queue[k - 1] == s.queue[k]);
            }
        }
    }
}

/// Whether a step goes on to the diagnosis of the first entry that is left: by a run for that
/// entry alone, with its own languages, and never by trying regions. With none left, the ledger
/// is scrubbed.
pub open spec fn is_next_diagnosis(s: PendingView, t: PendingView, action: ActionView) -> bool {
    if t.queue.len() > 0 {
        &&& action is Run && action->Run_0 is Diagnose
        &&& action->Run_0->base == entries_run(s, langs_of(t.queue[0]), t.queue[0].index)
        &&& action->Run_0->rescue == GeoRescue::IpEnforced
        &&& ("#"@ + t.queue[0].index + " "@).is_prefix_of(action->Run_0->label)
        &&& (" ["@ + t.queue[0].id + "]"@).is_suffix_of(action->Run_0->label)
        &&& t.stage == Stage::Diagnosing
    } else {
        &&& action == ActionView::Run(JobView::ScrubLedger { dir: s.home })
        &&& t.stage == Stage::Scrubbing
    }
}

proof fn lemma_label_frame(plan: PlannedView, entries: Seq<ScanEntryView>)
    ensures
        ("#"@ + plan.index + " "@).is_prefix_of(label_for(plan, entries)),
        (" ["@ + plan.id + "]"@).is_suffix_of(label_for(plan, entries)),
{
    let label = label_for(plan, entries);
    let head = "#"@ + plan.index + " "@;
    let tail = " ["@ + plan.id + "]"@;
    assert(label.subrange(0, head.len() as int) =~= head);
    assert(label.subrange(label.len() - tail.len(), label.len() as int) =~= tail);
}

/// What the archive still lacks after the downloads is diagnosed, entry by entry and in order. An
/// entry that stays dead leaves its line for the ledger; one that came through on its retry is
/// finished like the others and leaves none.
pub proof fn law_what_stays_missing_is_diagnosed(
    s: PendingView,
    archive: Option<Seq<char>>,
    line: Seq<char>,
    event: EventView,
)
    ensures
        s.stage == Stage::Archive ==> {
            let (t, reply) = next(s, EventView::Text(archive));
            &&& t.queue == s.planned.filter(
                |p: PlannedView| !scan::archived(archive).contains(p.id),
            )
            &&& t.ledger == s.ledger
            &&& is_next_diagnosis(s, t, reply.action)
        },
        s.stage == Stage::Diagnosing && s.queue.len() > 0 ==> {
            let (t, reply) = next(s, EventView::Text(Some(line)));
            &&& t.ledger == s.ledger.push(line)
            &&& t.queue == s.queue.drop_first()
            &&& is_next_diagnosis(s, t, reply.action)
        },
        s.stage == Stage::Diagnosing && s.queue.len() > 0 ==> {
            let (t, reply) = next(s, EventView::Text(None));
            &&& t.ledger == s.ledger
            &&& t.queue == s.queue.drop_first()
            &&& reply.action == entry_finish(s.home, s.queue[0])
            &&& t.stage == Stage::Reviving
        },
        s.stage == Stage::Reviving ==> {
            let (t, reply) = next(s, event);
            &&& (t.queue, t.ledger) == (s.queue, s.ledger)
            &&& is_next_diagnosis(s, t, reply.action)
        },
{
    if s.stage == Stage::Archive {
        let t = next(s, EventView::Text(archive)).0;
        if t.queue.len() > 0 {
            lemma_label_frame(t.queue[0], s.entries);
        }
    } else if s.stage == Stage::Diagnosing && s.queue.len() > 0 {
        let t = next(s, EventView::Text(Some(line))).0;
        if t.queue.len() > 0 {
            lemma_label_frame(t.queue[0], s.entries);
        }
    } else if s.stage == Stage::Reviving && s.queue.len() > 0 {
        lemma_label_frame(s.queue[0], s.entries);
    }
}

/// Every line of an entry that stays dead reaches the ledger, in order and beside the videos: once
/// the diagnoses have given these lines, the ledger is scrubbed and then exactly they are added.
pub proof fn law_every_dead_entry_is_recorded(
    s: PendingView,
    lines: Seq<Seq<char>>,
    scrubbed: EventView,
    recorded: EventView,
)
    requires
        s.stage == Stage::Diagnosing,
        s.queue.len() == lines.len(),
        lines.len() > 0,
    ensures
        ({
            let answers = lines.map_values(|line: Seq<char>| EventView::Text(Some(line)));
            let events = answers.push(scrubbed).push(recorded);
            let actions = run(s, events).1;
            let n = lines.len() as int;
            &&& actions.len() == n + 2
            &&& actions[n - 1] == ActionView::Run(JobView::ScrubLedger { dir: s.home })
            &&& actions[n] == ActionView::Run(
                JobView::WriteLedger { dir: s.home, lines: s.ledger + lines },
            )
            &&& actions[n + 1] == ActionView::Return(EventView::Code(s.worst))
        }),
    decreases lines.len(),
{
    let f = |line: Seq<char>| EventView::Text(Some(line));
    let answers = lines.map_values(f);
    let events = answers.push(scrubbed).push(recorded);
    let (t, reply) = next(s, events[0]);
    let rest = events.drop_first();
    let later = run(t, rest).1;
    assert(run(s, events).1 =~= seq![reply.action] + later);
    assert(events[0] == EventView::Text(Some(lines[0])));
    if lines.len() == 1 {
        assert(t.stage == Stage::Scrubbing);
        assert(t.ledger =~= s.ledger + lines);
        assert(rest =~= seq![scrubbed, recorded]);
        let (u, second) = next(t, scrubbed);
        let left = rest.drop_first();
        assert(left =~= seq![recorded]);
        assert(run(t, rest).1 =~= seq![second.action] + run(u, left).1);
        let (v, third) = next(u, recorded);
        assert(left.drop_first() =~= seq![]);
        assert(run(v, left.drop_first()).1 =~= seq![]);
        assert(run(u, left).1 =~= seq![third.action] + run(v, left.drop_first()).1);
    } else {
        let others = lines.drop_first();
        law_every_dead_entry_is_recorded(t, others, scrubbed, recorded);
        assert(others.map_values(f).push(scrubbed).push(recorded) =~= rest);
        assert(t.ledger + others =~= s.ledger + lines);
        let n = lines.len() as int;
        assert(run(s, events).1[n - 1] == later[n - 2]);
        assert(run(s, events).1[n] == later[n - 1]);
        assert(run(s, events).1[n + 1] == later[n]);
    }
}

/// The label of an entry gives its title: that of the first entry at its position.
pub proof fn law_labels_name_the_entry(plan: PlannedView, entries: Seq<ScanEntryView>, i: int)
    requires
        0 <= i < entries.len(),
        entries[i].index == plan.index,
        forall|k: int| 0 <= k < i ==> (#[trigger] entries[k]).index != plan.index,
    ensures
        label_for(plan, entries) == "#"@ + plan.index + " "@ + entries[i].title + " ["@ + plan.id
            + "]"@,
{
    lemma_title_at(entries, plan.index, i, 0);
}

proof fn lemma_title_at(entries: Seq<ScanEntryView>, index: Seq<char>, i: int, from: int)
    requires
        0 <= from <= i < entries.len(),
        entries[i].index == index,
        forall|k: int| 0 <= k < i ==> (#[trigger] entries[k]).index != index,
    ensures
        title_at(entries, index, from) == Some(entries[i].title),
    decreases i - from,
{
    if from < i {
        lemma_title_at(entries, index, i, from + 1);
    }
}

} // verus!
