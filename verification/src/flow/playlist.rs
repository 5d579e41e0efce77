//! The download of a playlist: the flat scan comes first, entries that nobody can play anymore
//! are reported, and whatever is playable and not yet archived is downloaded.

use vstd::prelude::*;
use vstd::string::*;
use crate::env::{Env, EnvView};
use crate::flow;
use crate::flow::ledgers;
use crate::flow::pending;
use crate::flow::{
    Action,
    ActionView,
    Event,
    EventView,
    Job,
    JobView,
    Note,
    NoteView,
    Reply,
    ReplyView,
};
use crate::media::subtitles;
use crate::tools::{Tools, ToolsView};
use crate::util::number;
use crate::util::path;
use crate::util::stamp;
use crate::util::text;
use crate::ytdlp;
use crate::ytdlp::scan;
use crate::ytdlp::scan::{PlaylistScan, PlaylistScanView, ScanEntry, ScanEntryView};

verus! {

/// The template of a playlist's folder name, spelled by yt-dlp.
pub const FOLDER: &'static str = "%(title)S[%(id)S]";

/// Where the download of a playlist stands.
#[derive(Debug, PartialEq, Eq, Structural, Clone, Copy)]
pub enum Stage {
    Start,
    /// The playlist is being scanned.
    Scanning,
    /// A playlist that could not be scanned is being downloaded in one pass.
    Whole,
    /// Its folder is being made.
    Making,
    /// The clock is being read, for the report.
    Clock,
    /// The report of unplayable entries is being written.
    Reporting,
    /// The archive is being read.
    Archive,
    /// The pending entries are being downloaded.
    Downloading,
    /// Cover art is being patched.
    Thumbnails,
    /// Subtitles are being patched.
    Subtitles,
}

/// The download of the playlist `id` into `into`. `title` and `entries` are what the scan showed,
/// `home` is the playlist's folder, and `code` the exit code so far.
pub struct Playlist<'a> {
    pub url: String,
    pub id: String,
    pub into: String,
    pub env: Env<'a>,
    pub tools: &'a Tools,
    pub stage: Stage,
    pub title: String,
    pub entries: Vec<ScanEntry>,
    pub home: String,
    pub code: i32,
}

/// A [`Playlist`] with its texts as sequences of characters.
#[verifier::ext_equal]
pub struct PlaylistView {
    pub url: Seq<char>,
    pub id: Seq<char>,
    pub into: Seq<char>,
    pub env: EnvView,
    pub tools: ToolsView,
    pub stage: Stage,
    pub title: Seq<char>,
    pub entries: Seq<ScanEntryView>,
    pub home: Seq<char>,
    pub code: i32,
}

impl<'a> View for Playlist<'a> {
    type V = PlaylistView;

    open spec fn view(&self) -> PlaylistView {
        PlaylistView {
            url: self.url@,
            id: self.id@,
            into: self.into@,
            env: self.env@,
            tools: self.tools@,
            stage: self.stage,
            title: self.title@,
            entries: scan::entry_views(self.entries@),
            home: self.home@,
            code: self.code,
        }
    }
}

/// The entries that nobody can play anymore.
pub open spec fn dead_of(entries: Seq<ScanEntryView>) -> Seq<ScanEntryView> {
    entries.filter(|e: ScanEntryView| scan::tombstone(e.title))
}

/// The entries that can still be played.
pub open spec fn playable(entries: Seq<ScanEntryView>) -> Seq<ScanEntryView> {
    entries.filter(|e: ScanEntryView| !scan::tombstone(e.title))
}

/// The entries that the archive does not name.
pub open spec fn unarchived(entries: Seq<ScanEntryView>, archived: Seq<Seq<char>>) -> Seq<
    ScanEntryView,
> {
    entries.filter(|e: ScanEntryView| !archived.contains(e.id))
}

/// The ids of entries.
pub open spec fn ids_of(entries: Seq<ScanEntryView>) -> Seq<Seq<char>> {
    entries.map_values(|e: ScanEntryView| e.id)
}

/// The path of the report of unplayable entries.
pub open spec fn report_in(s: PlaylistView) -> Seq<char> {
    path::joined(s.home, "unplayable__"@ + s.id + ".txt"@)
}

/// What a scan's answer shows.
pub open spec fn scan_of(event: EventView) -> Option<PlaylistScanView> {
    match flow::text_of(event) {
        Some(out) => scan::scanned(out),
        None => None,
    }
}

/// The archive is read.
pub open spec fn read_archive(s: PlaylistView) -> (PlaylistView, ActionView) {
    (
        PlaylistView { stage: Stage::Archive, ..s },
        ActionView::Read(ledgers::archive_in(s.home)),
    )
}

/// Cover art is patched into every playable entry, where that was asked for.
pub open spec fn patch_covers(s: PlaylistView) -> (PlaylistView, ReplyView) {
    if s.env.thumbnail {
        (
            PlaylistView { stage: Stage::Thumbnails, ..s },
            flow::quiet(
                ActionView::Run(
                    JobView::Thumbnails { dir: s.home, ids: ids_of(playable(s.entries)) },
                ),
            ),
        )
    } else {
        patch_subtitles(s)
    }
}

/// Subtitles are patched into every playable entry, where that was asked for.
pub open spec fn patch_subtitles(s: PlaylistView) -> (PlaylistView, ReplyView) {
    if s.env.subtitles {
        (
            PlaylistView { stage: Stage::Subtitles, ..s },
            flow::quiet(
                ActionView::Run(
                    JobView::Patch {
                        url: s.url,
                        indexes: pending::indexes_of(playable(s.entries)),
                        home: s.home,
                    },
                ),
            ),
        )
    } else {
        over(s)
    }
}

/// The download is over.
pub open spec fn over(s: PlaylistView) -> (PlaylistView, ReplyView) {
    (s, flow::quiet(ActionView::Return(EventView::Code(s.code))))
}

/// The archive has been read: what is playable and not in it is downloaded.
pub open spec fn sifted(s: PlaylistView, archived: Seq<Seq<char>>) -> (PlaylistView, ReplyView) {
    let todo = unarchived(playable(s.entries), archived);
    let skipped = s.entries.len() - todo.len();
    let notes = if skipped > 0 {
        seq![
            NoteView::Out(
                number::digits(skipped as nat)
                    + " entries already archived (or unplayable) — skipped"@,
            ),
        ]
    } else {
        seq![]
    };
    let (t, reply) = if todo.len() == 0 {
        patch_covers(PlaylistView { code: 0, ..s })
    } else {
        (
            PlaylistView { stage: Stage::Downloading, ..s },
            flow::quiet(
                ActionView::Run(
                    JobView::Pending {
                        url: s.url,
                        entries: todo,
                        into: s.into,
                        home: s.home,
                        tab: None,
                    },
                ),
            ),
        )
    };
    (t, flow::after(notes, reply))
}

/// The folder is there: unplayable entries are reported before the archive is read.
pub open spec fn housed(s: PlaylistView) -> (PlaylistView, ReplyView) {
    if dead_of(s.entries).len() == 0 {
        let (t, action) = read_archive(s);
        (
            t,
            flow::saying(
                NoteView::Out(
                    "all "@ + number::digits(s.entries.len())
                        + " playlist entries are playable"@,
                ),
                action,
            ),
        )
    } else {
        (PlaylistView { stage: Stage::Clock, ..s }, flow::quiet(ActionView::Clock))
    }
}

/// The next step of a playlist's download.
pub open spec fn next(s: PlaylistView, event: EventView) -> (PlaylistView, ReplyView) {
    match s.stage {
        Stage::Start => (
            PlaylistView { stage: Stage::Scanning, ..s },
            flow::quiet(ActionView::Ask(scan::scan_args(s.url, FOLDER@, s.env, s.tools))),
        ),
        Stage::Scanning => match scan_of(event) {
            None => (
                PlaylistView { stage: Stage::Whole, ..s },
                flow::saying(
                    NoteView::Warn(
                        "vidl: could not scan the playlist — downloading in one pass, EN-only subtitles, no unplayable report"@,
                    ),
                    ActionView::Launch(
                        ytdlp::playlist_args(
                            s.url,
                            s.into,
                            s.into,
                            s.env,
                            subtitles::keys_of(subtitles::fallback()),
                            None,
                            s.tools,
                        ),
                    ),
                ),
            ),
            Some(found) => {
                let dir = match found.dirname {
                    Some(dir) => dir,
                    None => "["@ + s.id + "]"@,
                };
                let home = path::joined(s.into, dir);
                (
                    PlaylistView {
                        stage: Stage::Making,
                        title: found.title,
                        entries: found.entries,
                        home,
                        ..s
                    },
                    flow::quiet(ActionView::MakeDir(home)),
                )
            },
        },
        Stage::Whole => over(PlaylistView { code: flow::code_of(event), ..s }),
        Stage::Making => match flow::error_of(event) {
            Some(error) => {
                let (t, reply) = over(PlaylistView { code: 1, ..s });
                (
                    t,
                    flow::after(
                        seq![
                            NoteView::Warn("vidl: cannot create "@ + s.home + ": "@ + error),
                        ],
                        reply,
                    ),
                )
            },
            None => housed(s),
        },
        Stage::Clock => (
            PlaylistView { stage: Stage::Reporting, ..s },
            flow::quiet(
                ActionView::Write {
                    path: report_in(s),
                    text: scan::report(
                        s.title,
                        s.id,
                        dead_of(s.entries),
                        stamp::stamped(flow::time_of(event) as nat),
                    ),
                },
            ),
        ),
        Stage::Reporting => {
            let (t, action) = read_archive(s);
            (
                t,
                flow::saying(
                    match flow::error_of(event) {
                        None => NoteView::Out(
                            number::digits(dead_of(s.entries).len()) + " of "@ + number::digits(
                                s.entries.len(),
                            ) + " entries are unplayable — traces written to "@ + report_in(s),
                        ),
                        Some(error) => NoteView::Warn(
                            "vidl: could not write "@ + report_in(s) + ": "@ + error,
                        ),
                    },
                    action,
                ),
            )
        },
        Stage::Archive => sifted(s, scan::archived(flow::text_of(event))),
        Stage::Downloading => patch_covers(PlaylistView { code: flow::code_of(event), ..s }),
        Stage::Thumbnails => patch_subtitles(s),
        Stage::Subtitles => over(s),
    }
}

fn entries_with(entries: &[ScanEntry], dead: bool) -> (r: Vec<ScanEntry>)
    ensures
        scan::entry_views(r@) == (if dead {
            dead_of(scan::entry_views(entries@))
        } else {
            playable(scan::entry_views(entries@))
        }),
{
    let ghost all = scan::entry_views(entries@);
    let ghost p = if dead {
        |e: ScanEntryView| scan::tombstone(e.title)
    } else {
        |e: ScanEntryView| !scan::tombstone(e.title)
    };
    let mut out: Vec<ScanEntry> = Vec::new();
    let mut i: usize = 0;
    proof {
        reveal(Seq::filter);
        assert(all.take(0) =~= seq![]);
        assert(scan::entry_views(out@) =~= all.take(0).filter(p));
    }
    while i < entries.len()
        invariant
            i <= entries@.len(),
            all == scan::entry_views(entries@),
            forall|e: ScanEntryView| #[trigger] p(e) == (scan::tombstone(e.title) == dead),
            scan::entry_views(out@) == all.take(i as int).filter(p),
        decreases entries@.len() - i,
    {
        let ghost before = scan::entry_views(out@);
        proof {
            reveal(Seq::filter);
            assert(all.take(i + 1).drop_last() =~= all.take(i as int));
            assert(all.take(i + 1).last() == entries@[i as int]@);
        }
        if scan::is_tombstone(entries[i].title.as_str()) == dead {
            out.push(entries[i].clone());
            assert(scan::entry_views(out@) =~= before.push(entries@[i as int]@));
        }
        i += 1;
    }
    assert(all.take(i as int) =~= all);
    out
}

/// The entries that the archive does not name.
pub fn outside_archive(entries: &[ScanEntry], archived: &[String]) -> (r: Vec<ScanEntry>)
    ensures
        scan::entry_views(r@) == unarchived(
            scan::entry_views(entries@),
            text::texts(archived@),
        ),
        r@.len() <= entries@.len(),
{
    let ghost all = scan::entry_views(entries@);
    let ghost ids = text::texts(archived@);
    let ghost p = |e: ScanEntryView| !ids.contains(e.id);
    let mut out: Vec<ScanEntry> = Vec::new();
    let mut i: usize = 0;
    proof {
        reveal(Seq::filter);
        assert(all.take(0) =~= seq![]);
        assert(scan::entry_views(out@) =~= all.take(0).filter(p));
    }
    while i < entries.len()
        invariant
            i <= entries@.len(),
            out@.len() <= i,
            all == scan::entry_views(entries@),
            ids == text::texts(archived@),
            p == |e: ScanEntryView| !ids.contains(e.id),
            scan::entry_views(out@) == all.take(i as int).filter(p),
        decreases entries@.len() - i,
    {
        let ghost before = scan::entry_views(out@);
        proof {
            reveal(Seq::filter);
            assert(all.take(i + 1).drop_last() =~= all.take(i as int));
            assert(all.take(i + 1).last() == entries@[i as int]@);
        }
        if !text::listed(archived, entries[i].id.as_str()) {
            out.push(entries[i].clone());
            assert(scan::entry_views(out@) =~= before.push(entries@[i as int]@));
        }
        i += 1;
    }
    assert(all.take(i as int) =~= all);
    out
}

/// The ids of entries.
pub fn entry_ids(entries: &[ScanEntry]) -> (r: Vec<String>)
    ensures
        text::texts(r@) == ids_of(scan::entry_views(entries@)),
{
    let mut out: Vec<String> = Vec::new();
    let mut i: usize = 0;
    while i < entries.len()
        invariant
            i <= entries@.len(),
            out@.len() == i,
            forall|j: int| 0 <= j < i ==> (#[trigger] out@[j])@ == entries@[j].id@,
        decreases entries@.len() - i,
    {
        out.push(entries[i].id.clone());
        i += 1;
    }
    assert(text::texts(out@) =~= ids_of(scan::entry_views(entries@)));
    out
}

/// The download of a playlist at its start.
pub open spec fn playlist_start(
    url: Seq<char>,
    id: Seq<char>,
    into: Seq<char>,
    env: EnvView,
    tools: ToolsView,
) -> PlaylistView {
    PlaylistView {
        url,
        id,
        into,
        env,
        tools,
        stage: Stage::Start,
        title: seq![],
        entries: seq![],
        home: seq![],
        code: 0,
    }
}

/// The download of the playlist `id` into `into`.
pub fn download_playlist<'a>(
    url: &str,
    id: &str,
    into: &str,
    env: Env<'a>,
    tools: &'a Tools,
) -> (r: Playlist<'a>)
    ensures
        r@ == playlist_start(url@, id@, into@, env@, tools@),
{
    let title = String::new();
    let home = String::new();
    let entries: Vec<ScanEntry> = Vec::new();
    assert(title@ =~= seq![]);
    assert(home@ =~= seq![]);
    assert(scan::entry_views(entries@) =~= seq![]);
    Playlist {
        url: url.to_owned(),
        id: id.to_owned(),
        into: into.to_owned(),
        env,
        tools,
        stage: Stage::Start,
        title,
        entries,
        home,
        code: 0,
    }
}

impl<'a> Playlist<'a> {
    fn report_path(&self) -> (r: String)
        ensures
            r@ == report_in(self@),
    {
        let name = text::cat3("unplayable__", self.id.as_str(), ".txt");
        path::join(self.home.as_str(), name.as_str())
    }

    fn go_read_archive(&mut self) -> (r: Action)
        ensures
            (final(self)@, r@) == read_archive(old(self)@),
    {
        self.stage = Stage::Archive;
        Action::Read(ledgers::archive_path(self.home.as_str()))
    }

    fn go_patch_covers(&mut self) -> (r: Reply)
        ensures
            (final(self)@, r@) == patch_covers(old(self)@),
    {
        if self.env.thumbnail {
            self.stage = Stage::Thumbnails;
            let alive = entries_with(self.entries.as_slice(), false);
            let job = Job::Thumbnails {
                dir: self.home.clone(),
                ids: entry_ids(alive.as_slice()),
            };
            flow::silently(Action::Run(job))
        } else {
            self.go_patch_subtitles()
        }
    }

    fn go_patch_subtitles(&mut self) -> (r: Reply)
        ensures
            (final(self)@, r@) == patch_subtitles(old(self)@),
    {
        if self.env.subtitles {
            self.stage = Stage::Subtitles;
            let alive = entries_with(self.entries.as_slice(), false);
            let job = Job::Patch {
                url: self.url.clone(),
                indexes: pending::entry_indexes(alive.as_slice()),
                home: self.home.clone(),
            };
            flow::silently(Action::Run(job))
        } else {
            self.go_over()
        }
    }

    fn go_over(&self) -> (r: Reply)
        ensures
            (self@, r@) == over(self@),
    {
        flow::silently(Action::Return(Event::Code(self.code)))
    }

    fn sift(&mut self, event: Event) -> (r: Reply)
        ensures
            (final(self)@, r@) == sifted(old(self)@, scan::archived(flow::text_of(event@))),
    {
        let archive = event.into_text();
        let archived = scan::archived_ids(text::borrow(&archive));
        let alive = entries_with(self.entries.as_slice(), false);
        let todo = outside_archive(alive.as_slice(), archived.as_slice());
        proof {
            lemma_filter_shrinks(
                scan::entry_views(self.entries@),
                |e: ScanEntryView| !scan::tombstone(e.title),
            );
        }
        assert(scan::entry_views(alive@).len() <= self.entries@.len());
        let skipped: usize = self.entries.len() - todo.len();
        let reply = if todo.len() == 0 {
            self.code = 0;
            self.go_patch_covers()
        } else {
            self.stage = Stage::Downloading;
            let job = Job::Pending {
                url: self.url.clone(),
                entries: todo,
                into: self.into.clone(),
                home: self.home.clone(),
                tab: None,
            };
            flow::silently(Action::Run(job))
        };
        if skipped > 0 {
            let count = number::decimal(skipped as u128);
            let note = text::cat(
                count.as_str(),
                " entries already archived (or unplayable) — skipped",
            );
            flow::note_first(Note::Out(note), reply)
        } else {
            assert(flow::after(seq![], reply@) =~= reply@);
            reply
        }
    }

    fn go_housed(&mut self) -> (r: Reply)
        ensures
            (final(self)@, r@) == housed(old(self)@),
    {
        let dead = entries_with(self.entries.as_slice(), true);
        assert(dead@.len() == scan::entry_views(dead@).len());
        if dead.len() == 0 {
            let count = number::decimal(self.entries.len() as u128);
            let note = text::cat3("all ", count.as_str(), " playlist entries are playable");
            let action = self.go_read_archive();
            flow::with_note(Note::Out(note), action)
        } else {
            self.stage = Stage::Clock;
            flow::silently(Action::Clock)
        }
    }

    fn scanned(&mut self, event: Event) -> (r: Reply)
        requires
            old(self).stage == Stage::Scanning,
        ensures
            (final(self)@, r@) == next(old(self)@, event@),
    {
        let found = match event.into_text() {
            Some(out) => scan::parse_scan(out.as_str()),
            None => None,
        };
        match found {
            None => {
                let picks = subtitles::default_picks();
                let keys = subtitles::pick_keys(picks.as_slice());
                let argv = ytdlp::playlist_argv(
                    self.url.as_str(),
                    self.into.as_str(),
                    self.into.as_str(),
                    self.env,
                    keys.as_slice(),
                    None,
                    self.tools,
                );
                self.stage = Stage::Whole;
                let note =
                    "vidl: could not scan the playlist — downloading in one pass, EN-only subtitles, no unplayable report".to_owned();
                flow::with_note(Note::Warn(note), Action::Launch(argv))
            },
            Some(found) => {
                let PlaylistScan { title, dirname, entries } = found;
                let dir = match dirname {
                    Some(dir) => dir,
                    None => text::cat3("[", self.id.as_str(), "]"),
                };
                let home = path::join(self.into.as_str(), dir.as_str());
                self.stage = Stage::Making;
                self.title = title;
                self.entries = entries;
                self.home = home.clone();
                flow::silently(Action::MakeDir(home))
            },
        }
    }

    fn reported(&mut self, event: Event) -> (r: Reply)
        requires
            old(self).stage == Stage::Reporting,
        ensures
            (final(self)@, r@) == next(old(self)@, event@),
    {
        let path = self.report_path();
        let note = match event.into_error() {
            None => {
                let dead = entries_with(self.entries.as_slice(), true);
                assert(dead@.len() == scan::entry_views(dead@).len());
                let gone = number::decimal(dead.len() as u128);
                let count = number::decimal(self.entries.len() as u128);
                Note::Out(
                    text::cat5(
                        gone.as_str(),
                        " of ",
                        count.as_str(),
                        " entries are unplayable — traces written to ",
                        path.as_str(),
                    ),
                )
            },
            Some(error) => Note::Warn(
                text::cat4("vidl: could not write ", path.as_str(), ": ", error.as_str()),
            ),
        };
        let action = self.go_read_archive();
        flow::with_note(note, action)
    }

    /// Take in the outcome of the last action and say what comes next.
    pub fn step(&mut self, event: Event) -> (r: Reply)
        ensures
            (final(self)@, r@) == next(old(self)@, event@),
    {
        match self.stage {
            Stage::Start => {
                let argv = scan::scan_argv(self.url.as_str(), FOLDER, self.env, self.tools);
                self.stage = Stage::Scanning;
                flow::silently(Action::Ask(argv))
            },
            Stage::Scanning => self.scanned(event),
            Stage::Whole => {
                self.code = event.code();
                self.go_over()
            },
            Stage::Making => match event.into_error() {
                Some(error) => {
                    let note = text::cat4(
                        "vidl: cannot create ",
                        self.home.as_str(),
                        ": ",
                        error.as_str(),
                    );
                    self.code = 1;
                    let reply = self.go_over();
                    flow::note_first(Note::Warn(note), reply)
                },
                None => self.go_housed(),
            },
            Stage::Clock => {
                let when = stamp::format_utc(event.time());
                let dead = entries_with(self.entries.as_slice(), true);
                let text = scan::unplayable_report(
                    self.title.as_str(),
                    self.id.as_str(),
                    dead.as_slice(),
                    when.as_str(),
                );
                self.stage = Stage::Reporting;
                flow::silently(Action::Write { path: self.report_path(), text })
            },
            Stage::Reporting => self.reported(event),
            Stage::Archive => self.sift(event),
            Stage::Downloading => {
                self.code = event.code();
                self.go_patch_covers()
            },
            Stage::Thumbnails => self.go_patch_subtitles(),
            Stage::Subtitles => self.go_over(),
        }
    }
}

proof fn lemma_filter_shrinks(v: Seq<ScanEntryView>, p: spec_fn(ScanEntryView) -> bool)
    ensures
        v.filter(p).len() <= v.len(),
    decreases v.len(),
{
    reveal(Seq::filter);
    if v.len() > 0 {
        lemma_filter_shrinks(v.drop_last(), p);
    }
}

/// What is downloaded is what can still be played and is not in the archive, and all of that.
pub proof fn law_what_is_playable_and_new_is_downloaded(
    entries: Seq<ScanEntryView>,
    archived: Seq<Seq<char>>,
    entry: ScanEntryView,
)
    ensures
        unarchived(playable(entries), archived).contains(entry) <==> entries.contains(entry)
            && !scan::tombstone(entry.title) && !archived.contains(entry.id),
        dead_of(entries).contains(entry) <==> entries.contains(entry) && scan::tombstone(
            entry.title,
        ),
{
    let alive = |e: ScanEntryView| !scan::tombstone(e.title);
    let gone = |e: ScanEntryView| scan::tombstone(e.title);
    let new = |e: ScanEntryView| !archived.contains(e.id);
    lemma_filter_is_a_choice(entries, alive, entry);
    lemma_filter_is_a_choice(entries, gone, entry);
    lemma_filter_is_a_choice(playable(entries), new, entry);
}

proof fn lemma_filter_is_a_choice(
    v: Seq<ScanEntryView>,
    p: spec_fn(ScanEntryView) -> bool,
    x: ScanEntryView,
)
    ensures
        v.filter(p).contains(x) <==> v.contains(x) && p(x),
{
    if v.filter(p).contains(x) {
        v.lemma_filter_contains_rev(p, x);
        let i = choose|i: int| 0 <= i < v.filter(p).len() && v.filter(p)[i] == x;
        v.lemma_filter_pred(p, i);
    }
    if v.contains(x) && p(x) {
        let i = choose|i: int| 0 <= i < v.len() && v[i] == x;
        v.lemma_filter_contains(p, i);
    }
}

/// Whether a title is one that YouTube puts in the place of a video that nobody can play anymore.
pub open spec fn is_placeholder(title: Seq<char>) -> bool {
    title == "[Private video]"@ || title == "[Deleted video]"@ || title
        == "[Unavailable video]"@
}

/// A playlist is scanned first; its folder under the destination is named as the scan printed it,
/// or by the playlist's id in brackets. A playlist that cannot be scanned is downloaded whole, in
/// one run, with English subtitles, and its exit code is the answer.
pub proof fn law_a_playlist_is_scanned_first(
    s: PlaylistView,
    event: EventView,
    out: Seq<char>,
    code: i32,
)
    ensures
        s.stage == Stage::Start ==> next(s, event).1.action == ActionView::Ask(
            scan::scan_args(s.url, "%(title)S[%(id)S]"@, s.env, s.tools),
        ) && next(s, event).0 == (PlaylistView { stage: Stage::Scanning, ..s }),
        s.stage == Stage::Scanning ==> {
            let (t, reply) = next(s, EventView::Text(Some(out)));
            match scan::scanned(out) {
                Some(found) => {
                    let folder = match found.dirname {
                        Some(dir) => dir,
                        None => "["@ + s.id + "]"@,
                    };
                    &&& t.entries == found.entries
                    &&& t.title == found.title
                    &&& t.home == path::joined(s.into, folder)
                    &&& reply.action == ActionView::MakeDir(t.home)
                    &&& t.stage == Stage::Making
                },
                None => (t, reply) == next(s, EventView::Text(None)),
            }
        },
        s.stage == Stage::Scanning ==> {
            let (t, reply) = next(s, EventView::Text(None));
            &&& reply.action == ActionView::Launch(
                ytdlp::playlist_args(
                    s.url,
                    s.into,
                    s.into,
                    s.env,
                    seq!["en"@, "en-US"@, "en-GB"@],
                    None,
                    s.tools,
                ),
            )
            &&& t.stage == Stage::Whole
        },
        s.stage == Stage::Whole ==> next(s, EventView::Code(code)).1.action
            == ActionView::Return(EventView::Code(code)),
{
    assert(subtitles::keys_of(subtitles::fallback()) =~= seq!["en"@, "en-US"@, "en-GB"@]);
}

/// What nobody can play anymore is reported: where an entry carries a placeholder's title, the
/// report on exactly those entries is written beside the videos before anything is downloaded;
/// where none does, the archive is read at once. A folder that cannot be made ends the download
/// with a failure.
pub proof fn law_unplayable_entries_are_reported(
    s: PlaylistView,
    error: Seq<char>,
    seconds: u64,
    event: EventView,
)
    ensures
        s.stage == Stage::Making ==> next(s, EventView::Done(Some(error))).1.action
            == ActionView::Return(EventView::Code(1)),
        s.stage == Stage::Making ==> {
            let action = next(s, EventView::Done(None)).1.action;
            &&& action == ActionView::Clock <==> exists|i: int|
                0 <= i < s.entries.len() && is_placeholder(#[trigger] s.entries[i].title)
            &&& action == ActionView::Clock || action == ActionView::Read(
                path::joined(s.home, ".dl_video_archive.txt"@),
            )
        },
        s.stage == Stage::Clock ==> next(s, EventView::Time(seconds)).1.action
            == (ActionView::Write {
            path: path::joined(s.home, "unplayable__"@ + s.id + ".txt"@),
            text: scan::report(
                s.title,
                s.id,
                s.entries.filter(|e: ScanEntryView| is_placeholder(e.title)),
                stamp::stamped(seconds as nat),
            ),
        }),
        s.stage == Stage::Reporting ==> next(s, event).1.action == ActionView::Read(
            path::joined(s.home, ".dl_video_archive.txt"@),
        ),
{
    let gone = |e: ScanEntryView| is_placeholder(e.title);
    let dead = |e: ScanEntryView| scan::tombstone(e.title);
    assert(gone =~= dead);
    let list = s.entries.filter(dead);
    if list.len() > 0 {
        s.entries.lemma_filter_pred(dead, 0);
        assert(list.contains(list[0]));
        s.entries.lemma_filter_contains_rev(dead, list[0]);
        let i = choose|i: int| 0 <= i < s.entries.len() && s.entries[i] == list[0];
        assert(is_placeholder(s.entries[i].title));
    }
    if exists|i: int| 0 <= i < s.entries.len() && is_placeholder(#[trigger] s.entries[i].title) {
        let i = choose|i: int|
            0 <= i < s.entries.len() && is_placeholder(#[trigger] s.entries[i].title);
        assert(dead(s.entries[i]));
        s.entries.lemma_filter_contains(dead, i);
        assert(list.len() > 0);
    }
}

/// What a playlist holds that can be played and that the archive does not name is downloaded, and
/// nothing else, from the playlist's own page and as a playlist; where there is nothing of that
/// kind, the download counts as a success and only the patches are left.
pub proof fn law_a_playlist_downloads_what_is_new(
    s: PlaylistView,
    archive: Option<Seq<char>>,
)
    requires
        s.stage == Stage::Archive,
    ensures
        ({
            let (t, reply) = next(s, EventView::Text(archive));
            let new = s.entries.filter(
                |e: ScanEntryView|
                    !is_placeholder(e.title) && !scan::archived(archive).contains(e.id),
            );
            &&& new.len() > 0 ==> reply.action == ActionView::Run(
                JobView::Pending {
                    url: s.url,
                    entries: new,
                    into: s.into,
                    home: s.home,
                    tab: None,
                },
            )
            &&& new.len() == 0 ==> t.code == 0 && !(reply.action is Run
                && reply.action->Run_0 is Pending)
        }),
{
    let alive = |e: ScanEntryView| !scan::tombstone(e.title);
    let missing = |e: ScanEntryView| !scan::archived(archive).contains(e.id);
    let both = |e: ScanEntryView|
        !is_placeholder(e.title) && !scan::archived(archive).contains(e.id);
    lemma_filter_twice(s.entries, alive, missing, both);
}

proof fn lemma_filter_twice(
    v: Seq<ScanEntryView>,
    p: spec_fn(ScanEntryView) -> bool,
    q: spec_fn(ScanEntryView) -> bool,
    both: spec_fn(ScanEntryView) -> bool,
)
    requires
        forall|e: ScanEntryView| #[trigger] both(e) == (p(e) && q(e)),
    ensures
        v.filter(p).filter(q) == v.filter(both),
    decreases v.len(),
{
    reveal(Seq::filter);
    if v.len() > 0 {
        lemma_filter_twice(v.drop_last(), p, q, both);
        let x = v.last();
        assert(both(x) == (p(x) && q(x)));
        let before = v.drop_last().filter(p);
        if p(x) {
            assert(before.push(x).drop_last() =~= before);
            assert(before.push(x).last() == x);
        }
    }
}

/// The patches cover every entry that can be played, whether it was downloaded now or before, and
/// run only where they were asked for; then the download's own exit code is the answer.
pub proof fn law_the_whole_playlist_is_patched(s: PlaylistView, code: i32, event: EventView)
    ensures
        ({
            let alive = s.entries.filter(|e: ScanEntryView| !is_placeholder(e.title));
            let covers = ActionView::Run(
                JobView::Thumbnails {
                    dir: s.home,
                    ids: alive.map_values(|e: ScanEntryView| e.id),
                },
            );
            let subs = ActionView::Run(
                JobView::Patch {
                    url: s.url,
                    indexes: alive.map_values(|e: ScanEntryView| e.index),
                    home: s.home,
                },
            );
            &&& s.stage == Stage::Downloading ==> {
                let (t, reply) = next(s, EventView::Code(code));
                &&& t.code == code
                &&& reply.action == (if s.env.thumbnail {
                    covers
                } else if s.env.subtitles {
                    subs
                } else {
                    ActionView::Return(EventView::Code(code))
                })
            }
            &&& s.stage == Stage::Thumbnails ==> next(s, event).1.action == (if s.env.subtitles {
                subs
            } else {
                ActionView::Return(EventView::Code(s.code))
            }) && next(s, event).0.code == s.code
            &&& s.stage == Stage::Subtitles ==> next(s, event).1.action == ActionView::Return(
                EventView::Code(s.code),
            )
        }),
{
    let alive = |e: ScanEntryView| !is_placeholder(e.title);
    let living = |e: ScanEntryView| !scan::tombstone(e.title);
    assert(alive =~= living);
}

/// What is already archived or cannot be played is counted for the user, and so is what can be
/// played, or where the traces of what cannot were written.
pub proof fn law_the_user_learns_of_the_playlist(
    s: PlaylistView,
    archive: Option<Seq<char>>,
    error: Seq<char>,
)
    ensures
        s.stage == Stage::Archive ==> {
            let new = s.entries.filter(
                |e: ScanEntryView|
                    !is_placeholder(e.title) && !scan::archived(archive).contains(e.id),
            );
            let skipped = s.entries.len() - new.len();
            new.len() > 0 ==> next(s, EventView::Text(archive)).1.notes == (if skipped > 0 {
                seq![
                    NoteView::Out(
                        number::digits(skipped as nat)
                            + " entries already archived (or unplayable) — skipped"@,
                    ),
                ]
            } else {
                Seq::<NoteView>::empty()
            })
        },
        s.stage == Stage::Reporting ==> {
            let gone = s.entries.filter(|e: ScanEntryView| is_placeholder(e.title));
            let report = path::joined(s.home, "unplayable__"@ + s.id + ".txt"@);
            &&& next(s, EventView::Done(None)).1.notes == seq![
                NoteView::Out(
                    number::digits(gone.len()) + " of "@ + number::digits(s.entries.len())
                        + " entries are unplayable — traces written to "@ + report,
                ),
            ]
            &&& next(s, EventView::Done(Some(error))).1.notes == seq![
                NoteView::Warn("vidl: could not write "@ + report + ": "@ + error),
            ]
        },
{
    let alive = |e: ScanEntryView| !scan::tombstone(e.title);
    let missing = |e: ScanEntryView| !scan::archived(archive).contains(e.id);
    let both = |e: ScanEntryView|
        !is_placeholder(e.title) && !scan::archived(archive).contains(e.id);
    lemma_filter_twice(s.entries, alive, missing, both);
    let gone = |e: ScanEntryView| is_placeholder(e.title);
    let dead = |e: ScanEntryView| scan::tombstone(e.title);
    assert(gone =~= dead);
}

} // verus!
