//! The failed-downloads ledger on disk: a run's failures are added to it, and what has since
//! downloaded is cleared from it.

use vstd::prelude::*;
use vstd::string::*;
use crate::flow;
use crate::flow::{Action, ActionView, Event, EventView, Note, NoteView, Reply, ReplyView};
use crate::util::number;
use crate::util::path;
use crate::util::stamp;
use crate::util::text;
use crate::ytdlp;
use crate::ytdlp::ledger;
use crate::ytdlp::ledger::{Scrub, ScrubView};
use crate::ytdlp::scan;

verus! {

/// Where the writing of a ledger stands.
#[derive(Debug, PartialEq, Eq, Structural, Clone, Copy)]
pub enum WriteStage {
    Start,
    /// The clock is being read.
    Clock,
    /// The block is being added.
    Appending,
}

/// The addition of a run's failures to the ledger in `dir`.
pub struct WriteLedger {
    pub dir: String,
    pub lines: Vec<String>,
    pub stage: WriteStage,
}

/// A [`WriteLedger`] with its texts as sequences of characters.
#[verifier::ext_equal]
pub struct WriteLedgerView {
    pub dir: Seq<char>,
    pub lines: Seq<Seq<char>>,
    pub stage: WriteStage,
}

impl View for WriteLedger {
    type V = WriteLedgerView;

    open spec fn view(&self) -> WriteLedgerView {
        WriteLedgerView { dir: self.dir@, lines: text::texts(self.lines@), stage: self.stage }
    }
}

/// The path of the ledger in `dir`.
pub open spec fn ledger_in(dir: Seq<char>) -> Seq<char> {
    path::joined(dir, ledger::FAILED_LEDGER@)
}

/// The path of the download archive in `dir`.
pub open spec fn archive_in(dir: Seq<char>) -> Seq<char> {
    path::joined(dir, ytdlp::ARCHIVE_NAME@)
}

/// The path of the ledger in `dir`.
pub fn ledger_path(dir: &str) -> (r: String)
    ensures
        r@ == ledger_in(dir@),
{
    path::join(dir, ledger::FAILED_LEDGER)
}

/// The path of the download archive in `dir`.
pub fn archive_path(dir: &str) -> (r: String)
    ensures
        r@ == archive_in(dir@),
{
    path::join(dir, ytdlp::ARCHIVE_NAME)
}

/// The next step of a ledger's writing: without failures there is none; else the block is stamped
/// and added, and the user learns where.
pub open spec fn write_next(s: WriteLedgerView, event: EventView) -> (WriteLedgerView, ReplyView) {
    match s.stage {
        WriteStage::Start => if s.lines.len() == 0 {
            (s, flow::quiet(flow::done()))
        } else {
            (
                WriteLedgerView { stage: WriteStage::Clock, ..s },
                flow::quiet(ActionView::Clock),
            )
        },
        WriteStage::Clock => (
            WriteLedgerView { stage: WriteStage::Appending, ..s },
            flow::quiet(
                ActionView::Append {
                    path: ledger_in(s.dir),
                    text: ledger::block(stamp::stamped(flow::time_of(event) as nat), s.lines),
                },
            ),
        ),
        WriteStage::Appending => (
            s,
            flow::saying(
                match flow::error_of(event) {
                    None => NoteView::Out(
                        number::digits(s.lines.len()) + " download(s) failed — details in "@
                            + ledger_in(s.dir),
                    ),
                    Some(error) => NoteView::Warn(
                        "vidl: could not write "@ + ledger_in(s.dir) + ": "@ + error,
                    ),
                },
                flow::done(),
            ),
        ),
    }
}

impl WriteLedger {
    /// The addition of `lines` to the ledger in `dir`.
    pub fn new(dir: String, lines: Vec<String>) -> (r: Self)
        ensures
            r@ == (WriteLedgerView {
                dir: dir@,
                lines: text::texts(lines@),
                stage: WriteStage::Start,
            }),
    {
        WriteLedger { dir, lines, stage: WriteStage::Start }
    }

    /// Take in the outcome of the last action and say what comes next.
    pub fn step(&mut self, event: Event) -> (r: Reply)
        ensures
            (final(self)@, r@) == write_next(old(self)@, event@),
    {
        match self.stage {
            WriteStage::Start => {
                if self.lines.len() == 0 {
                    flow::silently(flow::finished())
                } else {
                    self.stage = WriteStage::Clock;
                    flow::silently(Action::Clock)
                }
            },
            WriteStage::Clock => {
                self.stage = WriteStage::Appending;
                let when = stamp::format_utc(event.time());
                let path = ledger_path(self.dir.as_str());
                let text = ledger::ledger_block(when.as_str(), self.lines.as_slice());
                flow::silently(Action::Append { path, text })
            },
            WriteStage::Appending => {
                let path = ledger_path(self.dir.as_str());
                let note = match event.into_error() {
                    None => {
                        let count = number::decimal(self.lines.len() as u128);
                        Note::Out(
                            text::cat3(
                                count.as_str(),
                                " download(s) failed — details in ",
                                path.as_str(),
                            ),
                        )
                    },
                    Some(error) => Note::Warn(
                        text::cat4("vidl: could not write ", path.as_str(), ": ", error.as_str()),
                    ),
                };
                flow::with_note(note, flow::finished())
            },
        }
    }
}

/// Where the scrubbing of a ledger stands.
#[derive(Debug, PartialEq, Eq, Structural, Clone, Copy)]
pub enum ScrubStage {
    Start,
    /// The ledger is being read.
    Ledger,
    /// The archive is being read.
    Archive,
    /// The ledger is being rewritten, or removed.
    Rewriting,
}

/// The scrubbing of the ledger in `dir`. `content` is the ledger's text; `cleared` counts the
/// entries that go, and `emptied` says that no line stays.
pub struct ScrubLedger {
    pub dir: String,
    pub stage: ScrubStage,
    pub content: String,
    pub cleared: usize,
    pub emptied: bool,
}

/// A [`ScrubLedger`] with its texts as sequences of characters.
#[verifier::ext_equal]
pub struct ScrubLedgerView {
    pub dir: Seq<char>,
    pub stage: ScrubStage,
    pub content: Seq<char>,
    pub cleared: nat,
    pub emptied: bool,
}

impl View for ScrubLedger {
    type V = ScrubLedgerView;

    open spec fn view(&self) -> ScrubLedgerView {
        ScrubLedgerView {
            dir: self.dir@,
            stage: self.stage,
            content: self.content@,
            cleared: self.cleared as nat,
            emptied: self.emptied,
        }
    }
}

/// The next step of a ledger's scrubbing. A missing ledger, an empty archive and a ledger without
/// a cleared entry all end it with the file untouched.
pub open spec fn scrub_next(s: ScrubLedgerView, event: EventView) -> (ScrubLedgerView, ReplyView) {
    match s.stage {
        ScrubStage::Start => (
            ScrubLedgerView { stage: ScrubStage::Ledger, ..s },
            flow::quiet(ActionView::Read(ledger_in(s.dir))),
        ),
        ScrubStage::Ledger => match flow::text_of(event) {
            None => (s, flow::quiet(flow::done())),
            Some(content) => (
                ScrubLedgerView { stage: ScrubStage::Archive, content, ..s },
                flow::quiet(ActionView::Read(archive_in(s.dir))),
            ),
        },
        ScrubStage::Archive => {
            let ids = scan::archived(flow::text_of(event));
            if ids.len() == 0 {
                (s, flow::quiet(flow::done()))
            } else {
                match ledger::scrubbed(s.content, ids) {
                    ScrubView::Unchanged => (s, flow::quiet(flow::done())),
                    ScrubView::Emptied { cleared } => (
                        ScrubLedgerView {
                            stage: ScrubStage::Rewriting,
                            cleared,
                            emptied: true,
                            ..s
                        },
                        flow::quiet(ActionView::Remove(ledger_in(s.dir))),
                    ),
                    ScrubView::Rewritten { cleared, text } => (
                        ScrubLedgerView {
                            stage: ScrubStage::Rewriting,
                            cleared,
                            emptied: false,
                            ..s
                        },
                        flow::quiet(ActionView::Write { path: ledger_in(s.dir), text }),
                    ),
                }
            }
        },
        ScrubStage::Rewriting => (
            s,
            flow::saying(
                match flow::error_of(event) {
                    None => NoteView::Out(
                        number::digits(s.cleared)
                            + " previously-failed download(s) have since succeeded — cleared from "@
                            + ledger_in(s.dir) + (if s.emptied {
                            " (nothing left; file removed)"@
                        } else {
                            ""@
                        }),
                    ),
                    Some(error) => NoteView::Warn(
                        "vidl: could not rewrite "@ + ledger_in(s.dir) + ": "@ + error,
                    ),
                },
                flow::done(),
            ),
        ),
    }
}

impl ScrubLedger {
    /// The scrubbing of the ledger in `dir`.
    pub fn new(dir: String) -> (r: Self)
        ensures
            r@ == (ScrubLedgerView {
                dir: dir@,
                stage: ScrubStage::Start,
                content: seq![],
                cleared: 0,
                emptied: false,
            }),
    {
        let content = String::new();
        assert(content@ =~= seq![]);
        ScrubLedger { dir, stage: ScrubStage::Start, content, cleared: 0, emptied: false }
    }

    fn clear(&mut self, event: Event) -> (r: Reply)
        requires
            old(self).stage == ScrubStage::Archive,
        ensures
            (final(self)@, r@) == scrub_next(old(self)@, event@),
    {
        let archive = event.into_text();
        let ids = scan::archived_ids(text::borrow(&archive));
        if ids.len() == 0 {
            return flow::silently(flow::finished());
        }
        let path = ledger_path(self.dir.as_str());
        match ledger::scrub(self.content.as_str(), ids.as_slice()) {
            Scrub::Unchanged => flow::silently(flow::finished()),
            Scrub::Emptied { cleared } => {
                self.stage = ScrubStage::Rewriting;
                self.cleared = cleared;
                self.emptied = true;
                flow::silently(Action::Remove(path))
            },
            Scrub::Rewritten { cleared, text } => {
                self.stage = ScrubStage::Rewriting;
                self.cleared = cleared;
                self.emptied = false;
                flow::silently(Action::Write { path, text })
            },
        }
    }

    fn report(&self, event: Event) -> (r: Reply)
        requires
            self.stage == ScrubStage::Rewriting,
        ensures
            (self@, r@) == scrub_next(self@, event@),
    {
        let path = ledger_path(self.dir.as_str());
        let note = match event.into_error() {
            None => {
                let count = number::decimal(self.cleared as u128);
                let tail = if self.emptied {
                    " (nothing left; file removed)"
                } else {
                    ""
                };
                Note::Out(
                    text::cat4(
                        count.as_str(),
                        " previously-failed download(s) have since succeeded — cleared from ",
                        path.as_str(),
                        tail,
                    ),
                )
            },
            Some(error) => Note::Warn(
                text::cat4("vidl: could not rewrite ", path.as_str(), ": ", error.as_str()),
            ),
        };
        flow::with_note(note, flow::finished())
    }

    /// Take in the outcome of the last action and say what comes next.
    pub fn step(&mut self, event: Event) -> (r: Reply)
        ensures
            (final(self)@, r@) == scrub_next(old(self)@, event@),
    {
        match self.stage {
            ScrubStage::Start => {
                self.stage = ScrubStage::Ledger;
                flow::silently(Action::Read(ledger_path(self.dir.as_str())))
            },
            ScrubStage::Ledger => match event.into_text() {
                None => flow::silently(flow::finished()),
                Some(content) => {
                    self.stage = ScrubStage::Archive;
                    self.content = content;
                    flow::silently(Action::Read(archive_path(self.dir.as_str())))
                },
            },
            ScrubStage::Archive => self.clear(event),
            ScrubStage::Rewriting => self.report(event),
        }
    }
}

/// A run's failures are added to the ledger beside the videos, as one block under the time of the
/// clock; without failures nothing is touched. The user learns how many there are and where, or
/// why they could not be written.
pub proof fn law_failures_are_added_under_their_time(
    s: WriteLedgerView,
    event: EventView,
    seconds: u64,
    error: Seq<char>,
)
    ensures
        ({
            let ledger = path::joined(s.dir, ".dl_video_failed_download.txt"@);
            let done = ActionView::Return(EventView::Done(None));
            &&& s.stage == WriteStage::Start ==> write_next(s, event).1.action == (
            if s.lines.len() > 0 {
                ActionView::Clock
            } else {
                done
            }) && (s.lines.len() > 0 ==> write_next(s, event).0.stage == WriteStage::Clock)
            &&& s.stage == WriteStage::Clock ==> write_next(s, EventView::Time(seconds)).1.action
                == (ActionView::Append {
                path: ledger,
                text: ledger::block(stamp::stamped(seconds as nat), s.lines),
            }) && write_next(s, EventView::Time(seconds)).0.stage == WriteStage::Appending
            &&& s.stage == WriteStage::Appending ==> write_next(s, EventView::Done(None)).1
                == (ReplyView {
                notes: seq![
                    NoteView::Out(
                        number::digits(s.lines.len()) + " download(s) failed — details in "@
                            + ledger,
                    ),
                ],
                action: done,
            })
            &&& s.stage == WriteStage::Appending ==> write_next(
                s,
                EventView::Done(Some(error)),
            ).1 == (ReplyView {
                notes: seq![NoteView::Warn("vidl: could not write "@ + ledger + ": "@ + error)],
                action: done,
            })
        }),
{
}

/// A scrub reads the ledger and then the archive of the same folder; a ledger or an archive that
/// is not there, or an archive without an id, leaves everything as it is. What the scrubbing of
/// that ledger by those ids comes to is then done to the ledger, and to nothing else.
pub proof fn law_the_ledger_is_scrubbed_by_its_archive(
    s: ScrubLedgerView,
    event: EventView,
    ledger: Seq<char>,
    archive: Option<Seq<char>>,
)
    ensures
        ({
            let file = path::joined(s.dir, ".dl_video_failed_download.txt"@);
            let done = ActionView::Return(EventView::Done(None));
            &&& s.stage == ScrubStage::Start ==> scrub_next(s, event).1.action
                == ActionView::Read(file) && scrub_next(s, event).0.stage == ScrubStage::Ledger
            &&& s.stage == ScrubStage::Ledger ==> scrub_next(s, EventView::Text(None)).1.action
                == done
            &&& s.stage == ScrubStage::Ledger ==> {
                let (t, reply) = scrub_next(s, EventView::Text(Some(ledger)));
                &&& reply.action == ActionView::Read(
                    path::joined(s.dir, ".dl_video_archive.txt"@),
                )
                &&& t.content == ledger
                &&& t.stage == ScrubStage::Archive
            }
            &&& s.stage == ScrubStage::Archive ==> {
                let (t, reply) = scrub_next(s, EventView::Text(archive));
                let ids = scan::archived(archive);
                if ids.len() == 0 {
                    reply.action == done
                } else {
                    match ledger::scrubbed(s.content, ids) {
                        ScrubView::Unchanged => reply.action == done,
                        ScrubView::Emptied { cleared } => reply.action == ActionView::Remove(file)
                            && t.cleared == cleared && t.emptied,
                        ScrubView::Rewritten { cleared, text } => reply.action
                            == (ActionView::Write { path: file, text }) && t.cleared == cleared
                            && !t.emptied,
                    }
                }
            }
            &&& s.stage == ScrubStage::Rewriting ==> scrub_next(s, event).1.action == done
        }),
{
}

} // verus!
