//! The downloads as step machines. A machine decides; its host performs. The host hands a machine
//! the outcome of the last action, prints the notes of the reply, performs the reply's action, and
//! goes on until the action is to return.

pub mod channel;
pub mod diagnose;
pub mod download;
pub mod find;
pub mod finish;
pub mod ledgers;
pub mod patch;
pub mod pending;
pub mod playlist;
pub mod single;
pub mod thumbnails;

use vstd::prelude::*;
use vstd::string::*;
use crate::media::subtitles;
use crate::media::subtitles::{Pick, PickView};
use crate::util::path;
use crate::util::text;
use crate::ytdlp;
use crate::ytdlp::failures::GeoRescue;
use crate::ytdlp::scan;
use crate::ytdlp::scan::{Captured, CapturedView, ScanEntry, ScanEntryView};

verus! {

/// Something to tell the user.
pub enum Note {
    /// A line for stdout.
    Out(String),
    /// A line for stderr.
    Warn(String),
    /// Text for stderr as it is, with no line feed added.
    Raw(String),
}

/// A [`Note`] with its text as a sequence of characters.
#[verifier::ext_equal]
pub enum NoteView {
    Out(Seq<char>),
    Warn(Seq<char>),
    Raw(Seq<char>),
}

impl View for Note {
    type V = NoteView;

    open spec fn view(&self) -> NoteView {
        match self {
            Note::Out(line) => NoteView::Out(line@),
            Note::Warn(line) => NoteView::Warn(line@),
            Note::Raw(line) => NoteView::Raw(line@),
        }
    }
}

/// The views of notes.
pub open spec fn note_views(v: Seq<Note>) -> Seq<NoteView> {
    v.map_values(|n: Note| n@)
}

/// One item of a directory: its name, and whether it is a directory itself.
pub struct Node {
    pub name: String,
    pub dir: bool,
}

/// A [`Node`] with its name as a sequence of characters.
#[verifier::ext_equal]
pub struct NodeView {
    pub name: Seq<char>,
    pub dir: bool,
}

impl View for Node {
    type V = NodeView;

    open spec fn view(&self) -> NodeView {
        NodeView { name: self.name@, dir: self.dir }
    }
}

/// The views of a directory's items.
pub open spec fn node_views(v: Seq<Node>) -> Seq<NodeView> {
    v.map_values(|n: Node| n@)
}

/// The outcome of an action.
pub enum Event {
    /// Nothing was done yet.
    Start,
    /// A program's exit code.
    Code(i32),
    /// Whether it worked out, or holds.
    Flag(bool),
    /// The text asked for, where it could be had.
    Text(Option<String>),
    /// What a program's run left behind; nothing where it could not be run.
    Captured(Option<Captured>),
    /// The items of a directory; nothing where it could not be read.
    Listing(Option<Vec<Node>>),
    /// The error, where there was one.
    Done(Option<String>),
    /// A file's text, or the error.
    Contents(Result<String, String>),
    /// Seconds since the start of 1970.
    Time(u64),
}

/// An [`Event`] with its texts as sequences of characters.
#[verifier::ext_equal]
pub enum EventView {
    Start,
    Code(i32),
    Flag(bool),
    Text(Option<Seq<char>>),
    Captured(Option<CapturedView>),
    Listing(Option<Seq<NodeView>>),
    Done(Option<Seq<char>>),
    Contents(Result<Seq<char>, Seq<char>>),
    Time(u64),
}

/// A result of texts with its texts as sequences of characters.
pub open spec fn result_view(r: Result<String, String>) -> Result<Seq<char>, Seq<char>> {
    match r {
        Ok(s) => Ok(s@),
        Err(s) => Err(s@),
    }
}

impl View for Event {
    type V = EventView;

    open spec fn view(&self) -> EventView {
        match self {
            Event::Start => EventView::Start,
            Event::Code(code) => EventView::Code(*code),
            Event::Flag(flag) => EventView::Flag(*flag),
            Event::Text(t) => EventView::Text(text::opt_text(*t)),
            Event::Captured(run) => EventView::Captured(scan::captured_view(*run)),
            Event::Listing(items) => EventView::Listing(
                match items {
                    Some(items) => Some(node_views(items@)),
                    None => None,
                },
            ),
            Event::Done(error) => EventView::Done(text::opt_text(*error)),
            Event::Contents(r) => EventView::Contents(result_view(*r)),
            Event::Time(seconds) => EventView::Time(*seconds),
        }
    }
}

/// A piece of work that is a machine of its own.
pub enum Job {
    /// Find the media file of video `id` under `root`; answered by its path.
    Find { root: String, id: String },
    /// Learn why the run `base` failed; answered by a ledger line, or by nothing where a retry
    /// came through.
    Diagnose { base: Vec<String>, label: String, rescue: GeoRescue },
    /// Add failures to the ledger in `dir`.
    WriteLedger { dir: String, lines: Vec<String> },
    /// Clear the ledger in `dir` of what has since downloaded.
    ScrubLedger { dir: String },
    /// Finish the fresh download of video `id`.
    Finish { root: String, id: String, picks: Vec<Pick> },
    /// Patch cover art into the videos `ids`.
    Thumbnails { dir: String, ids: Vec<String> },
    /// Patch subtitle tracks into the video `id`.
    Subtitles { into: String, id: String, url: String, expected: Vec<Pick> },
    /// Patch subtitle tracks into the entries at `indexes` of the collection `url`.
    Patch { url: String, indexes: Vec<String>, home: String },
    /// Download entries of the collection `url`, a channel's `tab` or a playlist; answered by a
    /// code.
    Pending {
        url: String,
        entries: Vec<ScanEntry>,
        into: String,
        home: String,
        tab: Option<String>,
    },
    /// Download a playlist; answered by a code.
    Playlist { url: String, id: String, into: String },
}

/// A [`Job`] with its texts as sequences of characters.
#[verifier::ext_equal]
pub enum JobView {
    Find { root: Seq<char>, id: Seq<char> },
    Diagnose { base: ytdlp::Argv, label: Seq<char>, rescue: GeoRescue },
    WriteLedger { dir: Seq<char>, lines: Seq<Seq<char>> },
    ScrubLedger { dir: Seq<char> },
    Finish { root: Seq<char>, id: Seq<char>, picks: Seq<PickView> },
    Thumbnails { dir: Seq<char>, ids: Seq<Seq<char>> },
    Subtitles { into: Seq<char>, id: Seq<char>, url: Seq<char>, expected: Seq<PickView> },
    Patch { url: Seq<char>, indexes: Seq<Seq<char>>, home: Seq<char> },
    Pending {
        url: Seq<char>,
        entries: Seq<ScanEntryView>,
        into: Seq<char>,
        home: Seq<char>,
        tab: Option<Seq<char>>,
    },
    Playlist { url: Seq<char>, id: Seq<char>, into: Seq<char> },
}

impl View for Job {
    type V = JobView;

    open spec fn view(&self) -> JobView {
        match self {
            Job::Find { root, id } => JobView::Find { root: root@, id: id@ },
            Job::Diagnose { base, label, rescue } => JobView::Diagnose {
                base: text::texts(base@),
                label: label@,
                rescue: *rescue,
            },
            Job::WriteLedger { dir, lines } => JobView::WriteLedger {
                dir: dir@,
                lines: text::texts(lines@),
            },
            Job::ScrubLedger { dir } => JobView::ScrubLedger { dir: dir@ },
            Job::Finish { root, id, picks } => JobView::Finish {
                root: root@,
                id: id@,
                picks: subtitles::pick_views(picks@),
            },
            Job::Thumbnails { dir, ids } => JobView::Thumbnails {
                dir: dir@,
                ids: text::texts(ids@),
            },
            Job::Subtitles { into, id, url, expected } => JobView::Subtitles {
                into: into@,
                id: id@,
                url: url@,
                expected: subtitles::pick_views(expected@),
            },
            Job::Patch { url, indexes, home } => JobView::Patch {
                url: url@,
                indexes: text::texts(indexes@),
                home: home@,
            },
            Job::Pending { url, entries, into, home, tab } => JobView::Pending {
                url: url@,
                entries: scan::entry_views(entries@),
                into: into@,
                home: home@,
                tab: text::opt_text(*tab),
            },
            Job::Playlist { url, id, into } => JobView::Playlist {
                url: url@,
                id: id@,
                into: into@,
            },
        }
    }
}

/// What a machine's host is to do next.
pub enum Action {
    /// Run yt-dlp, its output let through, and report a failing code to the user; answered by
    /// the code.
    Launch(Vec<String>),
    /// Run yt-dlp and keep both of its streams; answered by what it left behind.
    Capture(Vec<String>),
    /// Run yt-dlp for its stdout; answered by the text, or nothing where it failed.
    Ask(Vec<String>),
    /// Run ffprobe for its stdout; answered by the text, or nothing where it failed.
    Inspect(Vec<String>),
    /// Run ffmpeg; answered by whether it worked out.
    Remux(Vec<String>),
    /// Run curl, its output kept back; answered by whether it worked out.
    Fetch(Vec<String>),
    /// List a directory; answered by its items.
    List(String),
    /// Ask whether a file is there; answered by a flag.
    IsFile(String),
    /// Read a file; answered by its text, or nothing where it could not be read.
    Read(String),
    /// Read a file; answered by its contents or the error.
    Load(String),
    /// Write a file anew; answered by the error, if any.
    Write { path: String, text: String },
    /// Add to a file, made where there is none; answered by the error, if any.
    Append { path: String, text: String },
    /// Remove a file; answered by the error, if any.
    Remove(String),
    /// Make a directory and those above it; answered by the error, if any.
    MakeDir(String),
    /// Rename a file; answered by the error, if any.
    Rename { from: String, to: String },
    /// Read the clock; answered by the time.
    Clock,
    /// Add tags, each a name and its text, to an audio file; answered by the error, if any.
    Tag { file: String, tags: Vec<(String, String)> },
    /// Run another machine; answered by what it returns.
    Run(Job),
    /// The machine is done, and this is its answer.
    Return(Event),
}

/// An [`Action`] with its texts as sequences of characters.
#[verifier::ext_equal]
pub enum ActionView {
    Launch(ytdlp::Argv),
    Capture(ytdlp::Argv),
    Ask(ytdlp::Argv),
    Inspect(ytdlp::Argv),
    Remux(ytdlp::Argv),
    Fetch(ytdlp::Argv),
    List(Seq<char>),
    IsFile(Seq<char>),
    Read(Seq<char>),
    Load(Seq<char>),
    Write { path: Seq<char>, text: Seq<char> },
    Append { path: Seq<char>, text: Seq<char> },
    Remove(Seq<char>),
    MakeDir(Seq<char>),
    Rename { from: Seq<char>, to: Seq<char> },
    Clock,
    Tag { file: Seq<char>, tags: Seq<(Seq<char>, Seq<char>)> },
    Run(JobView),
    Return(EventView),
}

impl View for Action {
    type V = ActionView;

    open spec fn view(&self) -> ActionView {
        match self {
            Action::Launch(argv) => ActionView::Launch(text::texts(argv@)),
            Action::Capture(argv) => ActionView::Capture(text::texts(argv@)),
            Action::Ask(argv) => ActionView::Ask(text::texts(argv@)),
            Action::Inspect(argv) => ActionView::Inspect(text::texts(argv@)),
            Action::Remux(argv) => ActionView::Remux(text::texts(argv@)),
            Action::Fetch(argv) => ActionView::Fetch(text::texts(argv@)),
            Action::List(dir) => ActionView::List(dir@),
            Action::IsFile(file) => ActionView::IsFile(file@),
            Action::Read(file) => ActionView::Read(file@),
            Action::Load(file) => ActionView::Load(file@),
            Action::Write { path, text } => ActionView::Write { path: path@, text: text@ },
            Action::Append { path, text } => ActionView::Append { path: path@, text: text@ },
            Action::Remove(file) => ActionView::Remove(file@),
            Action::MakeDir(dir) => ActionView::MakeDir(dir@),
            Action::Rename { from, to } => ActionView::Rename { from: from@, to: to@ },
            Action::Clock => ActionView::Clock,
            Action::Tag { file, tags } => ActionView::Tag { file: file@, tags: pair_views(tags@) },
            Action::Run(job) => ActionView::Run(job@),
            Action::Return(event) => ActionView::Return(event@),
        }
    }
}

/// The views of pairs of texts.
pub open spec fn pair_views(v: Seq<(String, String)>) -> Seq<(Seq<char>, Seq<char>)> {
    v.map_values(|p: (String, String)| (p.0@, p.1@))
}

/// The first texts of pairs.
pub open spec fn firsts(v: Seq<(Seq<char>, Seq<char>)>) -> Seq<Seq<char>> {
    v.map_values(|p: (Seq<char>, Seq<char>)| p.0)
}

/// What follows the first item of a list; nothing where there is none.
pub open spec fn rest<A>(v: Seq<A>) -> Seq<A> {
    if v.len() == 0 {
        v
    } else {
        v.drop_first()
    }
}

/// The first text of a list; empty where there is none.
pub open spec fn head(v: Seq<Seq<char>>) -> Seq<char> {
    if v.len() == 0 {
        seq![]
    } else {
        v[0]
    }
}

/// The first pair of a list; two empty texts where there is none.
pub open spec fn head_pair(v: Seq<(Seq<char>, Seq<char>)>) -> (Seq<char>, Seq<char>) {
    if v.len() == 0 {
        (seq![], seq![])
    } else {
        v[0]
    }
}

/// The first text of a list; empty where there is none.
pub fn first_of(v: &[String]) -> (r: String)
    ensures
        r@ == head(text::texts(v@)),
{
    if v.len() == 0 {
        let none = String::new();
        assert(none@ =~= seq![]);
        none
    } else {
        v[0].clone()
    }
}

/// The first pair of a list; two empty texts where there is none.
pub fn first_pair(v: &[(String, String)]) -> (r: (String, String))
    ensures
        (r.0@, r.1@) == head_pair(pair_views(v@)),
{
    if v.len() == 0 {
        let a = String::new();
        let b = String::new();
        assert(a@ =~= seq![]);
        assert(b@ =~= seq![]);
        (a, b)
    } else {
        assert(pair_views(v@)[0] == (v@[0].0@, v@[0].1@));
        (v[0].0.clone(), v[0].1.clone())
    }
}

/// Take the first text off a list.
pub fn drop_first(v: &mut Vec<String>)
    ensures
        text::texts(final(v)@) == rest(text::texts(old(v)@)),
{
    let ghost before = text::texts(v@);
    if v.len() > 0 {
        let _ = v.remove(0);
        assert(text::texts(v@) =~= before.drop_first());
    }
}

/// Take the first pair off a list.
pub fn drop_first_pair(v: &mut Vec<(String, String)>)
    ensures
        pair_views(final(v)@) == rest(pair_views(old(v)@)),
{
    let ghost before = pair_views(v@);
    if v.len() > 0 {
        let _ = v.remove(0);
        assert(pair_views(v@) =~= before.drop_first());
    }
}

/// A line on the video `id`.
pub open spec fn about(id: Seq<char>, body: Seq<char>) -> Seq<char> {
    "  ["@ + id + "]: "@ + body
}

/// A line on the video `id`.
pub fn about_video(id: &str, body: &str) -> (r: String)
    ensures
        r@ == about(id@, body@),
{
    text::cat4("  [", id, "]: ", body)
}

/// Pairs of texts once more.
pub fn copy_pairs(v: &[(String, String)]) -> (r: Vec<(String, String)>)
    ensures
        pair_views(r@) == pair_views(v@),
{
    let mut out: Vec<(String, String)> = Vec::new();
    let mut i: usize = 0;
    while i < v.len()
        invariant
            i <= v@.len(),
            out@.len() == i,
            forall|j: int| 0 <= j < i ==> (#[trigger] out@[j]).0@ == v@[j].0@ && out@[j].1@
                == v@[j].1@,
        decreases v@.len() - i,
    {
        out.push((v[i].0.clone(), v[i].1.clone()));
        i += 1;
    }
    assert(pair_views(out@) =~= pair_views(v@));
    out
}

/// The first texts of pairs.
pub fn first_texts(v: &[(String, String)]) -> (r: Vec<String>)
    ensures
        text::texts(r@) == firsts(pair_views(v@)),
{
    let mut out: Vec<String> = Vec::new();
    let mut i: usize = 0;
    while i < v.len()
        invariant
            i <= v@.len(),
            out@.len() == i,
            forall|j: int| 0 <= j < i ==> (#[trigger] out@[j])@ == v@[j].0@,
        decreases v@.len() - i,
    {
        out.push(v[i].0.clone());
        i += 1;
    }
    assert(text::texts(out@) =~= firsts(pair_views(v@)));
    out
}

/// A machine's reply to an outcome: what to tell the user, then what to do.
pub struct Reply {
    pub notes: Vec<Note>,
    pub action: Action,
}

/// A [`Reply`] with its texts as sequences of characters.
#[verifier::ext_equal]
pub struct ReplyView {
    pub notes: Seq<NoteView>,
    pub action: ActionView,
}

impl View for Reply {
    type V = ReplyView;

    open spec fn view(&self) -> ReplyView {
        ReplyView { notes: note_views(self.notes@), action: self.action@ }
    }
}

/// A reply that tells the user nothing.
pub open spec fn quiet(action: ActionView) -> ReplyView {
    ReplyView { notes: seq![], action }
}

/// A reply that tells the user one thing.
pub open spec fn saying(note: NoteView, action: ActionView) -> ReplyView {
    ReplyView { notes: seq![note], action }
}

/// A reply with these notes put before its own.
pub open spec fn after(notes: Seq<NoteView>, reply: ReplyView) -> ReplyView {
    ReplyView { notes: notes + reply.notes, action: reply.action }
}

/// The answer of a machine that has nothing to report.
pub open spec fn done() -> ActionView {
    ActionView::Return(EventView::Done(None))
}

/// A reply that tells the user nothing.
pub fn silently(action: Action) -> (r: Reply)
    ensures
        r@ == quiet(action@),
{
    let notes: Vec<Note> = Vec::new();
    assert(note_views(notes@) =~= seq![]);
    Reply { notes, action }
}

/// A reply that tells the user one thing.
pub fn with_note(note: Note, action: Action) -> (r: Reply)
    ensures
        r@ == saying(note@, action@),
{
    let mut notes: Vec<Note> = Vec::new();
    notes.push(note);
    assert(note_views(notes@) =~= seq![note@]);
    Reply { notes, action }
}

/// A reply with one note put before its own.
pub fn note_first(note: Note, reply: Reply) -> (r: Reply)
    ensures
        r@ == after(seq![note@], reply@),
{
    let mut reply = reply;
    let ghost before = note_views(reply.notes@);
    reply.notes.insert(0, note);
    assert(note_views(reply.notes@) =~= seq![note@] + before);
    reply
}

/// The answer of a machine that has nothing to report.
pub fn finished() -> (r: Action)
    ensures
        r@ == done(),
{
    Action::Return(Event::Done(None))
}

/// The exit code that an event reports; 1 where it reports none.
pub open spec fn code_of(event: EventView) -> i32 {
    match event {
        EventView::Code(code) => code,
        _ => 1,
    }
}

/// Whether an event reports that it worked out, or holds.
pub open spec fn flag_of(event: EventView) -> bool {
    event == EventView::Flag(true)
}

/// The text that an event reports.
pub open spec fn text_of(event: EventView) -> Option<Seq<char>> {
    match event {
        EventView::Text(t) => t,
        _ => None,
    }
}

/// What a program's run left behind, where an event reports it.
pub open spec fn captured_of(event: EventView) -> Option<CapturedView> {
    match event {
        EventView::Captured(run) => run,
        _ => None,
    }
}

/// The items that an event reports.
pub open spec fn listing_of(event: EventView) -> Option<Seq<NodeView>> {
    match event {
        EventView::Listing(items) => items,
        _ => None,
    }
}

/// The error that an event reports; an empty one where it does not report how things went.
pub open spec fn error_of(event: EventView) -> Option<Seq<char>> {
    match event {
        EventView::Done(error) => error,
        _ => Some(seq![]),
    }
}

/// The contents or error that an event reports; an empty error where it reports neither.
pub open spec fn contents_of(event: EventView) -> Result<Seq<char>, Seq<char>> {
    match event {
        EventView::Contents(r) => r,
        _ => Err(seq![]),
    }
}

/// The time that an event reports; the start of 1970 where it reports none.
pub open spec fn time_of(event: EventView) -> u64 {
    match event {
        EventView::Time(seconds) => seconds,
        _ => 0,
    }
}

/// The file that a search's answer names. A path that does not end in a name is no file.
pub open spec fn file_of(event: EventView) -> Option<Seq<char>> {
    match text_of(event) {
        Some(file) => if path::ends_in_name(file) {
            Some(file)
        } else {
            None
        },
        None => None,
    }
}

impl Event {
    /// The exit code that the event reports; 1 where it reports none.
    pub fn code(&self) -> (r: i32)
        ensures
            r == code_of(self@),
    {
        match self {
            Event::Code(code) => *code,
            _ => 1,
        }
    }

    /// Whether the event reports that it worked out, or holds.
    pub fn flag(&self) -> (r: bool)
        ensures
            r == flag_of(self@),
    {
        match self {
            Event::Flag(flag) => *flag,
            _ => false,
        }
    }

    /// The text that the event reports.
    pub fn into_text(self) -> (r: Option<String>)
        ensures
            text::opt_text(r) == text_of(self@),
    {
        match self {
            Event::Text(t) => t,
            _ => None,
        }
    }

    /// What a program's run left behind, where the event reports it.
    pub fn into_captured(self) -> (r: Option<Captured>)
        ensures
            scan::captured_view(r) == captured_of(self@),
    {
        match self {
            Event::Captured(run) => run,
            _ => None,
        }
    }

    /// The error that the event reports; an empty one where it does not report how things went.
    pub fn into_error(self) -> (r: Option<String>)
        ensures
            text::opt_text(r) == error_of(self@),
    {
        match self {
            Event::Done(error) => error,
            _ => {
                let none = String::new();
                assert(none@ =~= seq![]);
                Some(none)
            },
        }
    }

    /// The contents or error that the event reports; an empty error where it reports neither.
    pub fn into_contents(self) -> (r: Result<String, String>)
        ensures
            result_view(r) == contents_of(self@),
    {
        match self {
            Event::Contents(r) => r,
            _ => {
                let none = String::new();
                assert(none@ =~= seq![]);
                Err(none)
            },
        }
    }

    /// The time that the event reports; the start of 1970 where it reports none.
    pub fn time(&self) -> (r: u64)
        ensures
            r == time_of(self@),
    {
        match self {
            Event::Time(seconds) => *seconds,
            _ => 0,
        }
    }

    /// The file that the event, a search's answer, names.
    pub fn into_file(self) -> (r: Option<String>)
        ensures
            text::opt_text(r) == file_of(self@),
    {
        match self.into_text() {
            Some(file) => if path::is_name_last(file.as_str()) {
                Some(file)
            } else {
                None
            },
            None => None,
        }
    }
}

} // verus!
