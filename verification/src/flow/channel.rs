//! The download of a channel: every tab in turn, the archive in the channel's own folder, and the
//! playlists tab as one playlist after the other.

use vstd::prelude::*;
use vstd::string::*;
use crate::env::{Env, EnvView};
use crate::flow;
use crate::flow::ledgers;
use crate::flow::pending;
use crate::flow::playlist;
use crate::flow::{
    Action,
    ActionView,
    Event,
    EventView,
    Job,
    JobView,
    Note,
    NoteView,
    Reply,
    ReplyView,
};
use crate::tools::{Tools, ToolsView};
use crate::util::number;
use crate::util::path;
use crate::util::text;
use crate::ytdlp::scan;
use crate::ytdlp::scan::{PlaylistScan, PlaylistScanView, ScanEntry, ScanEntryView, TabScan, TabScanView};

verus! {

/// The template of a channel's folder name, spelled by yt-dlp.
pub const FOLDER: &'static str = "%(uploader)S[%(channel_id)S]";

/// The tab that lists playlists rather than videos.
pub const PLAYLISTS: &'static str = "playlists";

/// A channel's tabs, in the order in which they are downloaded.
pub open spec fn tabs() -> Seq<Seq<char>> {
    seq!["videos"@, "shorts"@, "streams"@, PLAYLISTS@]
}

/// A channel's tabs, in the order in which they are downloaded.
pub fn channel_tabs() -> (r: Vec<String>)
    ensures
        text::texts(r@) == tabs(),
{
    let mut list: Vec<String> = Vec::new();
    text::put(&mut list, "videos");
    text::put(&mut list, "shorts");
    text::put(&mut list, "streams");
    text::put(&mut list, PLAYLISTS);
    assert(text::texts(list@) =~= tabs());
    list
}

/// Where the download of a channel stands.
#[derive(Debug, PartialEq, Eq, Structural, Clone, Copy)]
pub enum Stage {
    Start,
    /// A tab is being scanned.
    Scanning,
    /// The channel's folder is being made.
    Making,
    /// A playlist of the playlists tab is being downloaded.
    Nested,
    /// The archive is being read.
    Archive,
    /// The tab's pending entries are being downloaded.
    Downloading,
    /// Cover art is being patched.
    Thumbnails,
    /// Subtitles are being patched.
    Subtitles,
}

/// The download of the channel `root` into `into`.
pub struct Channel<'a> {
    pub root: String,
    pub into: String,
    pub env: Env<'a>,
    pub tools: &'a Tools,
    pub stage: Stage,
    /// The tabs that are still to come.
    pub left: Vec<String>,
    /// The tab that is being downloaded.
    pub tab: String,
    /// The channel's folder, settled by the first tab that can be read.
    pub home: Option<String>,
    /// The tab's entries; of the playlists tab, those that are still to come.
    pub entries: Vec<ScanEntry>,
    /// The exit code of the tab.
    pub code: i32,
    /// Whether anything has come through.
    pub any: bool,
}

/// A [`Channel`] with its texts as sequences of characters.
#[verifier::ext_equal]
pub struct ChannelView {
    pub root: Seq<char>,
    pub into: Seq<char>,
    pub env: EnvView,
    pub tools: ToolsView,
    pub stage: Stage,
    pub left: Seq<Seq<char>>,
    pub tab: Seq<char>,
    pub home: Option<Seq<char>>,
    pub entries: Seq<ScanEntryView>,
    pub code: i32,
    pub any: bool,
}

impl<'a> View for Channel<'a> {
    type V = ChannelView;

    open spec fn view(&self) -> ChannelView {
        ChannelView {
            root: self.root@,
            into: self.into@,
            env: self.env@,
            tools: self.tools@,
            stage: self.stage,
            left: text::texts(self.left@),
            tab: self.tab@,
            home: text::opt_text(self.home),
            entries: scan::entry_views(self.entries@),
            code: self.code,
            any: self.any,
        }
    }
}

/// The URL of a channel's tab.
pub open spec fn tab_url(s: ChannelView) -> Seq<char> {
    s.root + "/"@ + s.tab
}

/// The channel's folder; the destination itself where none is settled.
pub open spec fn home_of(s: ChannelView) -> Seq<char> {
    match s.home {
        Some(home) => home,
        None => s.into,
    }
}

/// The next tab is scanned; after the last one the run is over, and counts as a success if
/// anything came through.
pub open spec fn next_tab(s: ChannelView) -> (ChannelView, ReplyView) {
    if s.left.len() == 0 {
        (
            s,
            flow::quiet(
                ActionView::Return(
                    EventView::Code(
                        if s.any {
                            0
                        } else {
                            1
                        },
                    ),
                ),
            ),
        )
    } else {
        let t = ChannelView {
            stage: Stage::Scanning,
            tab: s.left[0],
            left: s.left.drop_first(),
            ..s
        };
        (
            t,
            flow::saying(
                NoteView::Out("=== "@ + tab_url(t) + " ==="@),
                ActionView::Capture(scan::scan_args(tab_url(t), FOLDER@, s.env, s.tools)),
            ),
        )
    }
}

/// The tab's scan is in: the first one settles the channel's folder.
pub open spec fn found(s: ChannelView, dirname: Option<Seq<char>>) -> (ChannelView, ReplyView) {
    match s.home {
        Some(_) => enter(s),
        None => {
            let home = match dirname {
                Some(dir) => path::joined(s.into, dir),
                None => s.into,
            };
            (
                ChannelView { stage: Stage::Making, home: Some(home), ..s },
                flow::quiet(ActionView::MakeDir(home)),
            )
        },
    }
}

/// The tab's entries are downloaded: playlists one after the other, videos by what the archive
/// does not name.
pub open spec fn enter(s: ChannelView) -> (ChannelView, ReplyView) {
    if s.tab == PLAYLISTS@ {
        nested(s)
    } else {
        (
            ChannelView { stage: Stage::Archive, ..s },
            flow::quiet(ActionView::Read(ledgers::archive_in(home_of(s)))),
        )
    }
}

/// The next playlist is downloaded, nested under the channel; after the last one comes the next
/// tab.
pub open spec fn nested(s: ChannelView) -> (ChannelView, ReplyView) {
    if s.entries.len() == 0 {
        next_tab(s)
    } else {
        (
            ChannelView { stage: Stage::Nested, entries: s.entries.drop_first(), ..s },
            flow::saying(
                NoteView::Out("--- playlist: "@ + s.entries[0].title + " ---"@),
                ActionView::Run(
                    JobView::Playlist {
                        url: "https://www.youtube.com/playlist?list="@ + s.entries[0].id,
                        id: s.entries[0].id,
                        into: path::joined(home_of(s), PLAYLISTS@),
                    },
                ),
            ),
        )
    }
}

/// The archive has been read: what is not in it is downloaded.
pub open spec fn sifted(s: ChannelView, archived: Seq<Seq<char>>) -> (ChannelView, ReplyView) {
    let todo = playlist::unarchived(s.entries, archived);
    let skipped = s.entries.len() - todo.len();
    let notes = if skipped > 0 {
        seq![
            NoteView::Out(
                number::digits(skipped as nat) + " entries already archived — skipped"@,
            ),
        ]
    } else {
        seq![]
    };
    let (t, reply) = if todo.len() == 0 {
        patch_covers(ChannelView { code: 0, ..s })
    } else {
        (
            ChannelView { stage: Stage::Downloading, ..s },
            flow::quiet(
                ActionView::Run(
                    JobView::Pending {
                        url: tab_url(s),
                        entries: todo,
                        into: s.into,
                        home: home_of(s),
                        tab: Some(s.tab),
                    },
                ),
            ),
        )
    };
    (t, flow::after(notes, reply))
}

/// Cover art is patched into the whole tab, where that was asked for.
pub open spec fn patch_covers(s: ChannelView) -> (ChannelView, ReplyView) {
    if s.env.thumbnail {
        (
            ChannelView { stage: Stage::Thumbnails, ..s },
            flow::quiet(
                ActionView::Run(
                    JobView::Thumbnails { dir: home_of(s), ids: playlist::ids_of(s.entries) },
                ),
            ),
        )
    } else {
        patch_subtitles(s)
    }
}

/// Subtitles are patched into the whole tab, where that was asked for.
pub open spec fn patch_subtitles(s: ChannelView) -> (ChannelView, ReplyView) {
    if s.env.subtitles {
        (
            ChannelView { stage: Stage::Subtitles, ..s },
            flow::quiet(
                ActionView::Run(
                    JobView::Patch {
                        url: tab_url(s),
                        indexes: pending::indexes_of(s.entries),
                        home: home_of(s),
                    },
                ),
            ),
        )
    } else {
        close(s)
    }
}

/// The tab is done.
pub open spec fn close(s: ChannelView) -> (ChannelView, ReplyView) {
    next_tab(ChannelView { any: s.any || s.code == 0, ..s })
}

/// The next step of a channel's download. A tab that is missing or cannot be read does not stop
/// the rest.
pub open spec fn next(s: ChannelView, event: EventView) -> (ChannelView, ReplyView) {
    match s.stage {
        Stage::Start => next_tab(s),
        Stage::Scanning => match scan::tab_outcome(flow::captured_of(event)) {
            TabScanView::Missing => {
                let (t, reply) = next_tab(s);
                (
                    t,
                    flow::after(
                        seq![NoteView::Out("the channel has no `"@ + s.tab + "` tab"@)],
                        reply,
                    ),
                )
            },
            TabScanView::Failed(stderr) => {
                let (t, reply) = next_tab(s);
                (
                    t,
                    flow::after(
                        seq![NoteView::Raw(stderr)],
                        flow::after(
                            seq![
                                NoteView::Warn(
                                    "vidl: could not read the `"@ + s.tab
                                        + "` tab — moving on"@,
                                ),
                            ],
                            reply,
                        ),
                    ),
                )
            },
            TabScanView::Found(scan) => found(
                ChannelView { entries: scan.entries, ..s },
                scan.dirname,
            ),
        },
        Stage::Making => enter(s),
        Stage::Nested => nested(ChannelView { any: s.any || flow::code_of(event) == 0, ..s }),
        Stage::Archive => sifted(s, scan::archived(flow::text_of(event))),
        Stage::Downloading => patch_covers(ChannelView { code: flow::code_of(event), ..s }),
        Stage::Thumbnails => patch_subtitles(s),
        Stage::Subtitles => close(s),
    }
}

/// The download of a channel at its start.
pub open spec fn channel_start(
    root: Seq<char>,
    into: Seq<char>,
    env: EnvView,
    tools: ToolsView,
) -> ChannelView {
    ChannelView {
        root,
        into,
        env,
        tools,
        stage: Stage::Start,
        left: tabs(),
        tab: seq![],
        home: None,
        entries: seq![],
        code: 0,
        any: false,
    }
}

/// The download of the channel `root` into `into`.
pub fn download_channel<'a>(
    root: &str,
    into: &str,
    env: Env<'a>,
    tools: &'a Tools,
) -> (r: Channel<'a>)
    ensures
        r@ == channel_start(root@, into@, env@, tools@),
{
    let tab = String::new();
    let entries: Vec<ScanEntry> = Vec::new();
    assert(tab@ =~= seq![]);
    assert(scan::entry_views(entries@) =~= seq![]);
    Channel {
        root: root.to_owned(),
        into: into.to_owned(),
        env,
        tools,
        stage: Stage::Start,
        left: channel_tabs(),
        tab,
        home: None,
        entries,
        code: 0,
        any: false,
    }
}

impl<'a> Channel<'a> {
    fn url(&self) -> (r: String)
        ensures
            r@ == tab_url(self@),
    {
        text::cat3(self.root.as_str(), "/", self.tab.as_str())
    }

    fn folder(&self) -> (r: String)
        ensures
            r@ == home_of(self@),
    {
        match &self.home {
            Some(home) => home.clone(),
            None => self.into.clone(),
        }
    }

    fn go_next_tab(&mut self) -> (r: Reply)
        ensures
            (final(self)@, r@) == next_tab(old(self)@),
    {
        if self.left.len() == 0 {
            let code: i32 = if self.any {
                0
            } else {
                1
            };
            return flow::silently(Action::Return(Event::Code(code)));
        }
        let ghost before = text::texts(self.left@);
        let tab = self.left.remove(0);
        assert(text::texts(self.left@) =~= before.drop_first());
        self.stage = Stage::Scanning;
        self.tab = tab;
        let url = self.url();
        let note = text::cat3("=== ", url.as_str(), " ===");
        let argv = scan::scan_argv(url.as_str(), FOLDER, self.env, self.tools);
        flow::with_note(Note::Out(note), Action::Capture(argv))
    }

    fn has_found(&mut self, dirname: Option<String>) -> (r: Reply)
        ensures
            (final(self)@, r@) == found(old(self)@, text::opt_text(dirname)),
    {
        if self.home.is_some() {
            return self.go_enter();
        }
        let home = match dirname {
            Some(dir) => path::join(self.into.as_str(), dir.as_str()),
            None => self.into.clone(),
        };
        self.stage = Stage::Making;
        self.home = Some(home.clone());
        flow::silently(Action::MakeDir(home))
    }

    fn go_enter(&mut self) -> (r: Reply)
        ensures
            (final(self)@, r@) == enter(old(self)@),
    {
        if text::same(self.tab.as_str(), PLAYLISTS) {
            self.go_nested()
        } else {
            let home = self.folder();
            self.stage = Stage::Archive;
            flow::silently(Action::Read(ledgers::archive_path(home.as_str())))
        }
    }

    fn go_nested(&mut self) -> (r: Reply)
        ensures
            (final(self)@, r@) == nested(old(self)@),
    {
        if self.entries.len() == 0 {
            return self.go_next_tab();
        }
        let home = self.folder();
        let ghost before = scan::entry_views(self.entries@);
        let entry = self.entries.remove(0);
        assert(before[0] == entry@);
        assert(scan::entry_views(self.entries@) =~= before.drop_first());
        self.stage = Stage::Nested;
        let note = text::cat3("--- playlist: ", entry.title.as_str(), " ---");
        let url = text::cat("https://www.youtube.com/playlist?list=", entry.id.as_str());
        let into = path::join(home.as_str(), PLAYLISTS);
        flow::with_note(Note::Out(note), Action::Run(Job::Playlist { url, id: entry.id, into }))
    }

    fn sift(&mut self, event: Event) -> (r: Reply)
        ensures
            (final(self)@, r@) == sifted(old(self)@, scan::archived(flow::text_of(event@))),
    {
        let archive = event.into_text();
        let archived = scan::archived_ids(text::borrow(&archive));
        let todo = playlist::outside_archive(self.entries.as_slice(), archived.as_slice());
        assert(todo@.len() == scan::entry_views(todo@).len());
        let skipped: usize = self.entries.len() - todo.len();
        let reply = if todo.len() == 0 {
            self.code = 0;
            self.go_patch_covers()
        } else {
            self.stage = Stage::Downloading;
            let job = Job::Pending {
                url: self.url(),
                entries: todo,
                into: self.into.clone(),
                home: self.folder(),
                tab: Some(self.tab.clone()),
            };
            flow::silently(Action::Run(job))
        };
        if skipped > 0 {
            let count = number::decimal(skipped as u128);
            let note = text::cat(count.as_str(), " entries already archived — skipped");
            flow::note_first(Note::Out(note), reply)
        } else {
            assert(flow::after(seq![], reply@) =~= reply@);
            reply
        }
    }

    fn go_patch_covers(&mut self) -> (r: Reply)
        ensures
            (final(self)@, r@) == patch_covers(old(self)@),
    {
        if self.env.thumbnail {
            self.stage = Stage::Thumbnails;
            let job = Job::Thumbnails {
                dir: self.folder(),
                ids: playlist::entry_ids(self.entries.as_slice()),
            };
            flow::silently(Action::Run(job))
        } else {
            self.go_patch_subtitles()
        }
    }

    fn go_patch_subtitles(&mut self) -> (r: Reply)
        ensures
            (final(self)@, r@) == patch_subtitles(old(self)@),
    {
        if self.env.subtitles {
            self.stage = Stage::Subtitles;
            let job = Job::Patch {
                url: self.url(),
                indexes: pending::entry_indexes(self.entries.as_slice()),
                home: self.folder(),
            };
            flow::silently(Action::Run(job))
        } else {
            self.go_close()
        }
    }

    fn go_close(&mut self) -> (r: Reply)
        ensures
            (final(self)@, r@) == close(old(self)@),
    {
        self.any = self.any || self.code == 0;
        self.go_next_tab()
    }

    fn scanned(&mut self, event: Event) -> (r: Reply)
        requires
            old(self).stage == Stage::Scanning,
        ensures
            (final(self)@, r@) == next(old(self)@, event@),
    {
        match scan::read_tab(event.into_captured()) {
            TabScan::Missing => {
                let note = text::cat3("the channel has no `", self.tab.as_str(), "` tab");
                let reply = self.go_next_tab();
                flow::note_first(Note::Out(note), reply)
            },
            TabScan::Failed(stderr) => {
                let note = text::cat3(
                    "vidl: could not read the `",
                    self.tab.as_str(),
                    "` tab — moving on",
                );
                let reply = self.go_next_tab();
                flow::note_first(Note::Raw(stderr), flow::note_first(Note::Warn(note), reply))
            },
            TabScan::Found(found) => {
                let PlaylistScan { title: _, dirname, entries } = found;
                self.entries = entries;
                self.has_found(dirname)
            },
        }
    }

    /// Take in the outcome of the last action and say what comes next.
    pub fn step(&mut self, event: Event) -> (r: Reply)
        ensures
            (final(self)@, r@) == next(old(self)@, event@),
    {
        match self.stage {
            Stage::Start => self.go_next_tab(),
            Stage::Scanning => self.scanned(event),
            Stage::Making => self.go_enter(),
            Stage::Nested => {
                self.any = self.any || event.code() == 0;
                self.go_nested()
            },
            Stage::Archive => self.sift(event),
            Stage::Downloading => {
                self.code = event.code();
                self.go_patch_covers()
            },
            Stage::Thumbnails => self.go_patch_subtitles(),
            Stage::Subtitles => self.go_close(),
        }
    }
}

/// The run counts as a success exactly if anything came through: what came through once is not
/// forgotten, and only that makes the exit code 0.
pub proof fn law_anything_that_came_through_counts(s: ChannelView, event: EventView)
    ensures
        s.any ==> next(s, event).0.any,
        next(s, event).1.action is Return ==> next(s, event).1.action == ActionView::Return(
            EventView::Code(
                if next(s, event).0.any {
                    0
                } else {
                    1
                },
            ),
        ),
{
}

/// A tab that is missing or cannot be read does not stop the rest: the next one is scanned.
pub proof fn law_a_bad_tab_does_not_stop_the_rest(s: ChannelView, event: EventView)
    requires
        s.stage == Stage::Scanning,
        !(scan::tab_outcome(flow::captured_of(event)) is Found),
        s.left.len() > 0,
    ensures
        next(s, event).1.action == ActionView::Capture(
            scan::scan_args(s.root + "/"@ + s.left[0], FOLDER@, s.env, s.tools),
        ),
        next(s, event).0.left == s.left.drop_first(),
        next(s, event).0.any == s.any,
{
}

/// The channel's folder is settled once: no later tab moves it.
pub proof fn law_the_folder_is_settled_once(s: ChannelView, event: EventView)
    ensures
        s.home is Some ==> next(s, event).0.home == s.home,
{
}

/// The actions with which a channel's download answers events, one after the other.
pub open spec fn run(s: ChannelView, events: Seq<EventView>) -> Seq<ActionView>
    decreases events.len(),
{
    if events.len() == 0 {
        seq![]
    } else {
        let (t, reply) = next(s, events[0]);
        seq![reply.action] + run(t, events.drop_first())
    }
}

/// The scan of one of a channel's tabs.
pub open spec fn tab_scan(s: ChannelView, tab: Seq<char>) -> ActionView {
    ActionView::Capture(
        scan::scan_args(s.root + "/"@ + tab, "%(uploader)S[%(channel_id)S]"@, s.env, s.tools),
    )
}

/// What a tab holds that the archive does not name is downloaded, and nothing else: from the
/// tab's own page, and into the folder that carries the tab's own name. Where the archive names
/// everything, nothing is.
pub proof fn law_a_tab_downloads_into_its_own_folder(
    s: ChannelView,
    archive: Option<Seq<char>>,
)
    requires
        s.stage == Stage::Archive,
        s.home is Some,
    ensures
        ({
            let action = next(s, EventView::Text(archive)).1.action;
            let own = Some(s.tab);
            let new = s.entries.filter(
                |e: ScanEntryView| !scan::archived(archive).contains(e.id),
            );
            &&& new.len() > 0 ==> action == ActionView::Run(
                JobView::Pending {
                    url: s.root + "/"@ + s.tab,
                    entries: new,
                    into: s.into,
                    home: s.home.unwrap(),
                    tab: own,
                },
            )
            &&& new.len() == 0 ==> !(action is Run && action->Run_0 is Pending)
        }),
{
}

/// A channel's four tabs are taken in order: videos, shorts, streams, playlists. The first step
/// scans the first of them.
pub proof fn law_every_tab_has_its_turn(
    root: Seq<char>,
    into: Seq<char>,
    env: EnvView,
    tools: ToolsView,
    event: EventView,
)
    ensures
        ({
            let s = channel_start(root, into, env, tools);
            let (t, reply) = next(s, event);
            &&& reply.action == tab_scan(s, "videos"@)
            &&& t.tab == "videos"@
            &&& t.left == seq!["shorts"@, "streams"@, "playlists"@]
            &&& t.stage == Stage::Scanning
            &&& (t.root, t.into, t.env, t.tools) == (root, into, env, tools)
            &&& t.home is None && !t.any
        }),
{
    let s = channel_start(root, into, env, tools);
    assert(s.left.drop_first() =~= seq!["shorts"@, "streams"@, "playlists"@]);
}

/// No tab is passed over: a step either stays with its tab or goes on to the first of those that
/// are left, which it scans; it returns only when none is left.
pub proof fn law_no_tab_is_passed_over(s: ChannelView, event: EventView)
    requires
        s.stage != Stage::Start,
    ensures
        ({
            let (t, reply) = next(s, event);
            &&& reply.action is Return ==> s.left.len() == 0
            &&& (t.tab, t.left) == (s.tab, s.left) || s.left.len() > 0 && t.tab == s.left[0]
                && t.left == s.left.drop_first() && t.stage == Stage::Scanning && reply.action
                == tab_scan(s, s.left[0])
            &&& (t.root, t.into, t.env, t.tools) == (s.root, s.into, s.env, s.tools)
        }),
{
}

/// The first tab that can be read settles the channel's folder, by the name that the scan printed
/// for it, and the folder is made; a later tab finds it settled.
pub proof fn law_the_first_tab_settles_the_folder(
    s: ChannelView,
    out: scan::CapturedView,
    found: PlaylistScanView,
)
    requires
        s.stage == Stage::Scanning,
        s.home is None,
        out.ok,
        scan::scanned(out.stdout) == Some(found),
    ensures
        ({
            let (t, reply) = next(s, EventView::Captured(Some(out)));
            let home = match found.dirname {
                Some(dir) => path::joined(s.into, dir),
                None => s.into,
            };
            &&& reply.action == ActionView::MakeDir(home)
            &&& t.home == Some(home)
            &&& t.entries == found.entries
            &&& t.stage == Stage::Making
            &&& t.tab == s.tab
        }),
{
}

/// Whether a tab is entered with these entries: a tab of videos reads the archive in the
/// channel's folder, and the playlists tab downloads its first playlist and keeps the others for
/// later.
pub open spec fn is_entered(
    s: ChannelView,
    entries: Seq<ScanEntryView>,
    t: ChannelView,
    action: ActionView,
) -> bool {
    if s.tab != "playlists"@ {
        &&& action == ActionView::Read(path::joined(s.home.unwrap(), ".dl_video_archive.txt"@))
        &&& t.entries == entries
        &&& t.stage == Stage::Archive
    } else {
        entries.len() > 0 ==> {
            &&& action == nested_download(s.home.unwrap(), entries[0])
            &&& t.entries == entries.drop_first()
            &&& t.stage == Stage::Nested
        }
    }
}

/// A tab that was read is entered, once its folder has been made or where it was there before.
pub proof fn law_a_tab_that_was_read_is_entered(
    s: ChannelView,
    made: EventView,
    out: scan::CapturedView,
    found: PlaylistScanView,
)
    requires
        s.home is Some,
        out.ok,
        scan::scanned(out.stdout) == Some(found),
    ensures
        s.stage == Stage::Making ==> is_entered(
            s,
            s.entries,
            next(s, made).0,
            next(s, made).1.action,
        ),
        s.stage == Stage::Scanning ==> is_entered(
            s,
            found.entries,
            next(s, EventView::Captured(Some(out))).0,
            next(s, EventView::Captured(Some(out))).1.action,
        ),
{
}

/// The download of a playlist of the playlists tab, nested under the channel's folder.
pub open spec fn nested_download(home: Seq<char>, entry: ScanEntryView) -> ActionView {
    ActionView::Run(
        JobView::Playlist {
            url: "https://www.youtube.com/playlist?list="@ + entry.id,
            id: entry.id,
            into: path::joined(home, "playlists"@),
        },
    )
}

/// Every playlist of the playlists tab is downloaded, one after the other and in order, nested
/// under the channel's folder, whatever became of those before it.
pub proof fn law_every_playlist_is_nested(s: ChannelView, events: Seq<EventView>)
    requires
        s.stage == Stage::Nested,
        s.home is Some,
        events.len() == s.entries.len(),
    ensures
        run(s, events).len() == s.entries.len(),
        forall|k: int|
            0 <= k < s.entries.len() ==> #[trigger] run(s, events)[k] == nested_download(
                s.home.unwrap(),
                s.entries[k],
            ),
    decreases events.len(),
{
    if events.len() > 0 {
        let (t, reply) = next(s, events[0]);
        let later = run(t, events.drop_first());
        law_every_playlist_is_nested(t, events.drop_first());
        assert(run(s, events) =~= seq![reply.action] + later);
        assert forall|k: int| 0 <= k < s.entries.len() implies #[trigger] run(s, events)[k]
            == nested_download(s.home.unwrap(), s.entries[k]) by {
            if k > 0 {
                assert(run(s, events)[k] == later[k - 1]);
                assert(t.entries[k - 1] == s.entries[k]);
            }
        }
    }
}

/// The patches cover the whole tab, and run only where they were asked for: covers first, over
/// every entry's id, then subtitles, over every entry's position. The tab counts as a success if
/// its download ended well.
pub proof fn law_the_whole_tab_is_patched(s: ChannelView, code: i32, event: EventView)
    requires
        s.home is Some,
    ensures
        s.stage == Stage::Downloading ==> {
            let (t, reply) = next(s, EventView::Code(code));
            &&& s.env.thumbnail ==> reply.action == ActionView::Run(
                JobView::Thumbnails {
                    dir: s.home.unwrap(),
                    ids: s.entries.map_values(|e: ScanEntryView| e.id),
                },
            ) && t.code == code && t.stage == Stage::Thumbnails
            &&& !s.env.thumbnail && s.env.subtitles ==> reply.action == tab_patch(s) && t.code
                == code && t.stage == Stage::Subtitles
            &&& !s.env.thumbnail && !s.env.subtitles ==> t.any == (s.any || code == 0)
        },
        s.stage == Stage::Thumbnails ==> {
            let (t, reply) = next(s, event);
            &&& s.env.subtitles ==> reply.action == tab_patch(s) && t.code == s.code && t.stage
                == Stage::Subtitles
            &&& !s.env.subtitles ==> t.any == (s.any || s.code == 0)
        },
        s.stage == Stage::Subtitles ==> next(s, event).0.any == (s.any || s.code == 0),
        s.stage == Stage::Nested ==> next(s, EventView::Code(code)).0.any == (s.any || code == 0),
{
}

/// The subtitle patch of a whole tab.
pub open spec fn tab_patch(s: ChannelView) -> ActionView {
    ActionView::Run(
        JobView::Patch {
            url: s.root + "/"@ + s.tab,
            indexes: s.entries.map_values(|e: ScanEntryView| e.index),
            home: s.home.unwrap(),
        },
    )
}

/// What the archive already names is counted for the user, and a tab that is missing or cannot be
/// read is spoken of by its name.
pub proof fn law_the_user_learns_of_the_tab(
    s: ChannelView,
    archive: Option<Seq<char>>,
    out: scan::CapturedView,
)
    ensures
        s.stage == Stage::Archive ==> {
            let new = s.entries.filter(
                |e: ScanEntryView| !scan::archived(archive).contains(e.id),
            );
            let skipped = s.entries.len() - new.len();
            new.len() > 0 ==> next(s, EventView::Text(archive)).1.notes == (if skipped > 0 {
                seq![
                    NoteView::Out(
                        number::digits(skipped as nat) + " entries already archived — skipped"@,
                    ),
                ]
            } else {
                Seq::<NoteView>::empty()
            })
        },
        s.stage == Stage::Scanning && !out.ok && text::has(out.stderr, "does not have a"@)
            && s.left.len() > 0 ==> {
            let notes = next(s, EventView::Captured(Some(out))).1.notes;
            &&& notes.len() == 2
            &&& notes[0] == NoteView::Out("the channel has no `"@ + s.tab + "` tab"@)
            &&& notes[1] == NoteView::Out("=== "@ + s.root + "/"@ + s.left[0] + " ==="@)
        },
        s.stage == Stage::Scanning && !out.ok && !text::has(out.stderr, "does not have a"@) ==> {
            let notes = next(s, EventView::Captured(Some(out))).1.notes;
            &&& notes.len() >= 2
            &&& notes[0] == NoteView::Raw(out.stderr)
            &&& notes[1] == NoteView::Warn(
                "vidl: could not read the `"@ + s.tab + "` tab — moving on"@,
            )
        },
{
    if s.left.len() > 0 {
        assert("=== "@ + (s.root + "/"@ + s.left[0]) + " ==="@ =~= "=== "@ + s.root + "/"@
            + s.left[0] + " ==="@);
    }
}

} // verus!
