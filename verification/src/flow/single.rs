//! One download at a time: a lone YouTube video, and a page of any other site.

use vstd::prelude::*;
use vstd::string::*;
use crate::env::{Env, EnvView};
use crate::flow;
use crate::flow::{
    Action,
    ActionView,
    Event,
    EventView,
    Job,
    JobView,
    Note,
    NoteView,
    Reply,
    ReplyView,
};
use crate::link;
use crate::media::subtitles;
use crate::media::subtitles::{Pick, PickView};
use crate::tools::{Tools, ToolsView};
use crate::util::style;
use crate::util::text;
use crate::ytdlp;
use crate::ytdlp::failures::GeoRescue;

verus! {

/// Where the download of a video stands.
#[derive(Debug, PartialEq, Eq, Structural, Clone, Copy)]
pub enum Stage {
    Start,
    /// A file that is already there is being searched for.
    Finding,
    /// The video is being probed, for its download.
    Probing,
    /// The video is being downloaded.
    Launching,
    /// A failed download is being diagnosed.
    Diagnosing,
    /// The failure is being added to the ledger.
    Recording,
    /// The fresh download is being finished.
    Finishing,
    /// A video that is already there is being probed, for its subtitles.
    Rescanning,
    /// The cover art is being patched.
    Thumbnails,
    /// The subtitles are being patched.
    Subtitles,
    /// The ledger is being scrubbed.
    Scrubbing,
}

/// The download of the lone video `url` into `into`. `url_id` is the id that the URL itself
/// gives, `probe_id` the one that the probe gave, `picks` the video's subtitle plan, and `code`
/// the exit code so far.
pub struct Video<'a> {
    pub url: &'a str,
    pub into: &'a str,
    pub env: Env<'a>,
    pub tools: &'a Tools,
    pub stage: Stage,
    pub url_id: Option<String>,
    pub probe_id: Option<String>,
    pub picks: Vec<Pick>,
    pub code: i32,
}

/// A [`Video`] with its texts as sequences of characters.
#[verifier::ext_equal]
pub struct VideoView {
    pub url: Seq<char>,
    pub into: Seq<char>,
    pub env: EnvView,
    pub tools: ToolsView,
    pub stage: Stage,
    pub url_id: Option<Seq<char>>,
    pub probe_id: Option<Seq<char>>,
    pub picks: Seq<PickView>,
    pub code: i32,
}

impl<'a> View for Video<'a> {
    type V = VideoView;

    open spec fn view(&self) -> VideoView {
        VideoView {
            url: self.url@,
            into: self.into@,
            env: self.env@,
            tools: self.tools@,
            stage: self.stage,
            url_id: text::opt_text(self.url_id),
            probe_id: text::opt_text(self.probe_id),
            picks: subtitles::pick_views(self.picks@),
            code: self.code,
        }
    }
}

/// The video's id: the probe's, else the URL's.
pub open spec fn id_of(s: VideoView) -> Option<Seq<char>> {
    match s.probe_id {
        Some(id) => Some(id),
        None => s.url_id,
    }
}

/// What the video is called before the user: by its id, else by its URL.
pub open spec fn name_of(s: VideoView) -> Seq<char> {
    match id_of(s) {
        Some(id) => id,
        None => s.url,
    }
}

/// The label of the video's ledger entry: its bracketed id, else its URL.
pub open spec fn label_of(s: VideoView) -> Seq<char> {
    match s.probe_id {
        Some(id) => "["@ + id + "]"@,
        None => s.url,
    }
}

/// The arguments of the video's download.
pub open spec fn args_of(s: VideoView) -> ytdlp::Argv {
    ytdlp::video_args(s.url, s.into, s.env, subtitles::keys_of(s.picks), s.tools)
}

/// A video that is not there yet is probed.
pub open spec fn probe(s: VideoView) -> (VideoView, ReplyView) {
    (
        VideoView { stage: Stage::Probing, ..s },
        flow::saying(
            NoteView::Out("probing subtitles…"@),
            ActionView::Ask(subtitles::video_probe_args(s.url, s.env, s.tools)),
        ),
    )
}

/// A video that is already there is probed only where its subtitles are to be patched.
pub open spec fn already(s: VideoView) -> (VideoView, ReplyView) {
    if s.env.subtitles {
        (
            VideoView { stage: Stage::Rescanning, ..s },
            flow::saying(
                NoteView::Out(name_of(s) + ": already downloaded — scanning subtitles"@),
                ActionView::Ask(subtitles::video_probe_args(s.url, s.env, s.tools)),
            ),
        )
    } else {
        let (t, reply) = patch_cover(s);
        (
            t,
            flow::after(
                seq![NoteView::Out(name_of(s) + ": already downloaded — skipping"@)],
                reply,
            ),
        )
    }
}

/// The download came through: where the probe gave an id, the file is finished.
pub open spec fn came_through(s: VideoView) -> (VideoView, ReplyView) {
    match s.probe_id {
        Some(id) => (
            VideoView { stage: Stage::Finishing, ..s },
            flow::quiet(ActionView::Run(JobView::Finish { root: s.into, id, picks: s.picks })),
        ),
        None => announce(s),
    }
}

/// The user learns that the video is there; then come the patches.
pub open spec fn announce(s: VideoView) -> (VideoView, ReplyView) {
    let (t, reply) = patch_cover(s);
    (
        t,
        flow::after(
            seq![NoteView::Out(style::span("1;32"@, name_of(s) + ": downloaded"@))],
            reply,
        ),
    )
}

/// The cover art is patched, where that was asked for and the video is there.
pub open spec fn patch_cover(s: VideoView) -> (VideoView, ReplyView) {
    match id_of(s) {
        Some(id) => if s.code == 0 && s.env.thumbnail {
            (
                VideoView { stage: Stage::Thumbnails, ..s },
                flow::quiet(
                    ActionView::Run(JobView::Thumbnails { dir: s.into, ids: seq![id] }),
                ),
            )
        } else {
            patch_subtitles(s)
        },
        None => patch_subtitles(s),
    }
}

/// The subtitles are patched, where that was asked for and the video is there.
pub open spec fn patch_subtitles(s: VideoView) -> (VideoView, ReplyView) {
    match id_of(s) {
        Some(id) => if s.code == 0 && s.env.subtitles {
            (
                VideoView { stage: Stage::Subtitles, ..s },
                flow::saying(
                    NoteView::Out("subtitles: scanning 1 video…"@),
                    ActionView::Run(
                        JobView::Subtitles { into: s.into, id, url: s.url, expected: s.picks },
                    ),
                ),
            )
        } else {
            scrub(s)
        },
        None => scrub(s),
    }
}

/// The ledger is scrubbed, whatever became of the download.
pub open spec fn scrub(s: VideoView) -> (VideoView, ReplyView) {
    (
        VideoView { stage: Stage::Scrubbing, ..s },
        flow::quiet(ActionView::Run(JobView::ScrubLedger { dir: s.into })),
    )
}

/// The next step of a video's download. The probe and the download are for a video that is not
/// there yet; the patches run on one that is.
pub open spec fn next(s: VideoView, event: EventView) -> (VideoView, ReplyView) {
    match s.stage {
        Stage::Start => match s.url_id {
            Some(id) => (
                VideoView { stage: Stage::Finding, ..s },
                flow::quiet(ActionView::Run(JobView::Find { root: s.into, id })),
            ),
            None => probe(s),
        },
        Stage::Finding => if flow::file_of(event) is Some {
            already(s)
        } else {
            probe(s)
        },
        Stage::Probing => {
            let (probe_id, picks) = subtitles::probed(flow::text_of(event));
            let t = VideoView { stage: Stage::Launching, probe_id, picks, ..s };
            (t, flow::quiet(ActionView::Launch(args_of(t))))
        },
        Stage::Launching => {
            let code = flow::code_of(event);
            if code == 0 {
                came_through(VideoView { code, ..s })
            } else {
                (
                    VideoView { stage: Stage::Diagnosing, code, ..s },
                    flow::quiet(
                        ActionView::Run(
                            JobView::Diagnose {
                                base: args_of(s),
                                label: label_of(s),
                                rescue: GeoRescue::IpEnforced,
                            },
                        ),
                    ),
                )
            }
        },
        Stage::Diagnosing => match flow::text_of(event) {
            None => came_through(VideoView { code: 0, ..s }),
            Some(line) => (
                VideoView { stage: Stage::Recording, ..s },
                flow::quiet(
                    ActionView::Run(JobView::WriteLedger { dir: s.into, lines: seq![line] }),
                ),
            ),
        },
        Stage::Recording => scrub(s),
        Stage::Finishing => announce(s),
        Stage::Rescanning => {
            let (probe_id, picks) = subtitles::probed(flow::text_of(event));
            patch_cover(VideoView { probe_id, picks, ..s })
        },
        Stage::Thumbnails => patch_subtitles(s),
        Stage::Subtitles => scrub(s),
        Stage::Scrubbing => (s, flow::quiet(ActionView::Return(EventView::Code(s.code)))),
    }
}

fn one_text(s: String) -> (r: Vec<String>)
    ensures
        text::texts(r@) == seq![s@],
{
    let mut list: Vec<String> = Vec::new();
    list.push(s);
    assert(text::texts(list@) =~= seq![s@]);
    list
}

/// The download of a lone video at its start.
pub open spec fn video_start(
    url: Seq<char>,
    into: Seq<char>,
    env: EnvView,
    tools: ToolsView,
) -> VideoView {
    VideoView {
        url,
        into,
        env,
        tools,
        stage: Stage::Start,
        url_id: link::video_id(url),
        probe_id: None,
        picks: seq![],
        code: 0,
    }
}

/// The download of the lone video `url` into `into`.
pub fn download_video<'a>(
    url: &'a str,
    into: &'a str,
    env: Env<'a>,
    tools: &'a Tools,
) -> (r: Video<'a>)
    ensures
        r@ == video_start(url@, into@, env@, tools@),
{
    let picks: Vec<Pick> = Vec::new();
    assert(subtitles::pick_views(picks@) =~= seq![]);
    Video {
        url,
        into,
        env,
        tools,
        stage: Stage::Start,
        url_id: link::id_from_url(url),
        probe_id: None,
        picks,
        code: 0,
    }
}

impl<'a> Video<'a> {
    fn id(&self) -> (r: Option<String>)
        ensures
            text::opt_text(r) == id_of(self@),
    {
        match &self.probe_id {
            Some(id) => Some(id.clone()),
            None => text::copy_opt(&self.url_id),
        }
    }

    fn name(&self) -> (r: String)
        ensures
            r@ == name_of(self@),
    {
        match self.id() {
            Some(id) => id,
            None => self.url.to_owned(),
        }
    }

    fn label(&self) -> (r: String)
        ensures
            r@ == label_of(self@),
    {
        match &self.probe_id {
            Some(id) => text::cat3("[", id.as_str(), "]"),
            None => self.url.to_owned(),
        }
    }

    fn argv(&self) -> (r: Vec<String>)
        ensures
            text::texts(r@) == args_of(self@),
    {
        let keys = subtitles::pick_keys(self.picks.as_slice());
        ytdlp::video_argv(self.url, self.into, self.env, keys.as_slice(), self.tools)
    }

    fn go_probe(&mut self) -> (r: Reply)
        ensures
            (final(self)@, r@) == probe(old(self)@),
    {
        self.stage = Stage::Probing;
        let argv = subtitles::video_probe_argv(self.url, self.env, self.tools);
        flow::with_note(Note::Out("probing subtitles…".to_owned()), Action::Ask(argv))
    }

    fn go_already(&mut self) -> (r: Reply)
        ensures
            (final(self)@, r@) == already(old(self)@),
    {
        let name = self.name();
        if self.env.subtitles {
            let note = text::cat(name.as_str(), ": already downloaded — scanning subtitles");
            let argv = subtitles::video_probe_argv(self.url, self.env, self.tools);
            self.stage = Stage::Rescanning;
            flow::with_note(Note::Out(note), Action::Ask(argv))
        } else {
            let note = text::cat(name.as_str(), ": already downloaded — skipping");
            let reply = self.go_patch_cover();
            flow::note_first(Note::Out(note), reply)
        }
    }

    fn go_came_through(&mut self) -> (r: Reply)
        ensures
            (final(self)@, r@) == came_through(old(self)@),
    {
        match text::copy_opt(&self.probe_id) {
            Some(id) => {
                self.stage = Stage::Finishing;
                let picks = subtitles::copy_picks(self.picks.as_slice());
                flow::silently(Action::Run(Job::Finish { root: self.into.to_owned(), id, picks }))
            },
            None => self.go_announce(),
        }
    }

    fn go_announce(&mut self) -> (r: Reply)
        ensures
            (final(self)@, r@) == announce(old(self)@),
    {
        let name = self.name();
        let line = text::cat(name.as_str(), ": downloaded");
        let note = style::approved(line.as_str());
        let reply = self.go_patch_cover();
        flow::note_first(Note::Out(note), reply)
    }

    fn go_patch_cover(&mut self) -> (r: Reply)
        ensures
            (final(self)@, r@) == patch_cover(old(self)@),
    {
        match self.id() {
            Some(id) => {
                if self.code == 0 && self.env.thumbnail {
                    self.stage = Stage::Thumbnails;
                    let job = Job::Thumbnails { dir: self.into.to_owned(), ids: one_text(id) };
                    flow::silently(Action::Run(job))
                } else {
                    self.go_patch_subtitles()
                }
            },
            None => self.go_patch_subtitles(),
        }
    }

    fn go_patch_subtitles(&mut self) -> (r: Reply)
        ensures
            (final(self)@, r@) == patch_subtitles(old(self)@),
    {
        match self.id() {
            Some(id) => {
                if self.code == 0 && self.env.subtitles {
                    self.stage = Stage::Subtitles;
                    let job = Job::Subtitles {
                        into: self.into.to_owned(),
                        id,
                        url: self.url.to_owned(),
                        expected: subtitles::copy_picks(self.picks.as_slice()),
                    };
                    flow::with_note(
                        Note::Out("subtitles: scanning 1 video…".to_owned()),
                        Action::Run(job),
                    )
                } else {
                    self.go_scrub()
                }
            },
            None => self.go_scrub(),
        }
    }

    fn go_scrub(&mut self) -> (r: Reply)
        ensures
            (final(self)@, r@) == scrub(old(self)@),
    {
        self.stage = Stage::Scrubbing;
        flow::silently(Action::Run(Job::ScrubLedger { dir: self.into.to_owned() }))
    }

    fn read_probe(&mut self, event: Event)
        ensures
            final(self)@ == (VideoView {
                probe_id: subtitles::probed(flow::text_of(event@)).0,
                picks: subtitles::probed(flow::text_of(event@)).1,
                ..old(self)@
            }),
    {
        let answer = event.into_text();
        let (probe_id, picks) = subtitles::parse_video_probe(text::borrow(&answer));
        self.probe_id = probe_id;
        self.picks = picks;
    }

    fn launched(&mut self, code: i32) -> (r: Reply)
        requires
            old(self).stage == Stage::Launching,
        ensures
            (final(self)@, r@) == next(old(self)@, EventView::Code(code)),
    {
        self.code = code;
        if code == 0 {
            return self.go_came_through();
        }
        self.stage = Stage::Diagnosing;
        let job = Job::Diagnose {
            base: self.argv(),
            label: self.label(),
            rescue: GeoRescue::IpEnforced,
        };
        flow::silently(Action::Run(job))
    }

    /// Take in the outcome of the last action and say what comes next.
    pub fn step(&mut self, event: Event) -> (r: Reply)
        ensures
            (final(self)@, r@) == next(old(self)@, event@),
    {
        match self.stage {
            Stage::Start => match text::copy_opt(&self.url_id) {
                Some(id) => {
                    self.stage = Stage::Finding;
                    flow::silently(Action::Run(Job::Find { root: self.into.to_owned(), id }))
                },
                None => self.go_probe(),
            },
            Stage::Finding => {
                if event.into_file().is_some() {
                    self.go_already()
                } else {
                    self.go_probe()
                }
            },
            Stage::Probing => {
                self.read_probe(event);
                self.stage = Stage::Launching;
                flow::silently(Action::Launch(self.argv()))
            },
            Stage::Launching => self.launched(event.code()),
            Stage::Diagnosing => match event.into_text() {
                None => {
                    self.code = 0;
                    self.go_came_through()
                },
                Some(line) => {
                    self.stage = Stage::Recording;
                    let job = Job::WriteLedger {
                        dir: self.into.to_owned(),
                        lines: one_text(line),
                    };
                    flow::silently(Action::Run(job))
                },
            },
            Stage::Recording => self.go_scrub(),
            Stage::Finishing => self.go_announce(),
            Stage::Rescanning => {
                self.read_probe(event);
                self.go_patch_cover()
            },
            Stage::Thumbnails => self.go_patch_subtitles(),
            Stage::Subtitles => self.go_scrub(),
            Stage::Scrubbing => flow::silently(Action::Return(Event::Code(self.code))),
        }
    }
}

/// Where the download of a page stands.
#[derive(Debug, PartialEq, Eq, Structural, Clone, Copy)]
pub enum PageStage {
    Start,
    /// The page's media is being downloaded.
    Launching,
    /// A failed download is being diagnosed.
    Diagnosing,
    /// The failure is being added to the ledger.
    Recording,
    /// The ledger is being scrubbed.
    Scrubbing,
}

/// The download of the page `url`, of any site but YouTube, into `into`.
pub struct Page<'a> {
    pub url: &'a str,
    pub into: &'a str,
    pub env: Env<'a>,
    pub tools: &'a Tools,
    pub stage: PageStage,
    pub code: i32,
}

/// A [`Page`] with its texts as sequences of characters.
#[verifier::ext_equal]
pub struct PageView {
    pub url: Seq<char>,
    pub into: Seq<char>,
    pub env: EnvView,
    pub tools: ToolsView,
    pub stage: PageStage,
    pub code: i32,
}

impl<'a> View for Page<'a> {
    type V = PageView;

    open spec fn view(&self) -> PageView {
        PageView {
            url: self.url@,
            into: self.into@,
            env: self.env@,
            tools: self.tools@,
            stage: self.stage,
            code: self.code,
        }
    }
}

/// The patch flags that the user gave, which only YouTube supports.
pub open spec fn patch_flags(env: EnvView) -> Seq<char> {
    if env.thumbnail && env.subtitles {
        "--thumbnail/--subtitles"@
    } else if env.thumbnail {
        "--thumbnail"@
    } else {
        "--subtitles"@
    }
}

/// What the user learns of patch flags: the platforms that support them.
pub open spec fn notice(env: EnvView) -> Seq<NoteView> {
    if env.thumbnail || env.subtitles {
        seq![
            NoteView::Warn(
                "vidl: "@ + patch_flags(env) + " supported platforms: "@ + "youtube"@
                    + " — skipped for this site"@,
            ),
        ]
    } else {
        seq![]
    }
}

/// The arguments of the page's download.
pub open spec fn page_args(s: PageView) -> ytdlp::Argv {
    ytdlp::generic_args(s.url, s.into, s.env, s.tools)
}

/// The ledger is scrubbed, whatever became of the download.
pub open spec fn page_scrub(s: PageView) -> (PageView, ReplyView) {
    (
        PageView { stage: PageStage::Scrubbing, ..s },
        flow::quiet(ActionView::Run(JobView::ScrubLedger { dir: s.into })),
    )
}

/// The next step of a page's download.
pub open spec fn page_next(s: PageView, event: EventView) -> (PageView, ReplyView) {
    match s.stage {
        PageStage::Start => (
            PageView { stage: PageStage::Launching, ..s },
            ReplyView { notes: notice(s.env), action: ActionView::Launch(page_args(s)) },
        ),
        PageStage::Launching => {
            let code = flow::code_of(event);
            if code == 0 {
                page_scrub(PageView { code, ..s })
            } else {
                (
                    PageView { stage: PageStage::Diagnosing, code, ..s },
                    flow::quiet(
                        ActionView::Run(
                            JobView::Diagnose {
                                base: page_args(s),
                                label: s.url,
                                rescue: GeoRescue::XffSweep,
                            },
                        ),
                    ),
                )
            }
        },
        PageStage::Diagnosing => match flow::text_of(event) {
            None => page_scrub(PageView { code: 0, ..s }),
            Some(line) => (
                PageView { stage: PageStage::Recording, ..s },
                flow::quiet(
                    ActionView::Run(JobView::WriteLedger { dir: s.into, lines: seq![line] }),
                ),
            ),
        },
        PageStage::Recording => page_scrub(s),
        PageStage::Scrubbing => (s, flow::quiet(ActionView::Return(EventView::Code(s.code)))),
    }
}

/// The download of a page at its start.
pub open spec fn page_start(
    url: Seq<char>,
    into: Seq<char>,
    env: EnvView,
    tools: ToolsView,
) -> PageView {
    PageView {
        url,
        into,
        env,
        tools,
        stage: PageStage::Start,
        code: 0,
    }
}

/// The download of the page `url` into `into`.
pub fn download_generic<'a>(
    url: &'a str,
    into: &'a str,
    env: Env<'a>,
    tools: &'a Tools,
) -> (r: Page<'a>)
    ensures
        r@ == page_start(url@, into@, env@, tools@),
{
    Page { url, into, env, tools, stage: PageStage::Start, code: 0 }
}

impl<'a> Page<'a> {
    fn notices(&self) -> (r: Vec<Note>)
        ensures
            flow::note_views(r@) == notice(self@.env),
    {
        let mut notes: Vec<Note> = Vec::new();
        if self.env.thumbnail || self.env.subtitles {
            let flags = if self.env.thumbnail && self.env.subtitles {
                "--thumbnail/--subtitles"
            } else if self.env.thumbnail {
                "--thumbnail"
            } else {
                "--subtitles"
            };
            let line = text::cat5(
                "vidl: ",
                flags,
                " supported platforms: ",
                "youtube",
                " — skipped for this site",
            );
            notes.push(Note::Warn(line));
        }
        assert(flow::note_views(notes@) =~= notice(self@.env));
        notes
    }

    fn go_scrub(&mut self) -> (r: Reply)
        ensures
            (final(self)@, r@) == page_scrub(old(self)@),
    {
        self.stage = PageStage::Scrubbing;
        flow::silently(Action::Run(Job::ScrubLedger { dir: self.into.to_owned() }))
    }

    fn argv(&self) -> (r: Vec<String>)
        ensures
            text::texts(r@) == page_args(self@),
    {
        ytdlp::generic_argv(self.url, self.into, self.env, self.tools)
    }

    /// Take in the outcome of the last action and say what comes next.
    pub fn step(&mut self, event: Event) -> (r: Reply)
        ensures
            (final(self)@, r@) == page_next(old(self)@, event@),
    {
        match self.stage {
            PageStage::Start => {
                let notes = self.notices();
                let argv = self.argv();
                self.stage = PageStage::Launching;
                Reply { notes, action: Action::Launch(argv) }
            },
            PageStage::Launching => {
                self.code = event.code();
                if self.code == 0 {
                    return self.go_scrub();
                }
                self.stage = PageStage::Diagnosing;
                let job = Job::Diagnose {
                    base: self.argv(),
                    label: self.url.to_owned(),
                    rescue: GeoRescue::XffSweep,
                };
                flow::silently(Action::Run(job))
            },
            PageStage::Diagnosing => match event.into_text() {
                None => {
                    self.code = 0;
                    self.go_scrub()
                },
                Some(line) => {
                    self.stage = PageStage::Recording;
                    let job = Job::WriteLedger {
                        dir: self.into.to_owned(),
                        lines: one_text(line),
                    };
                    flow::silently(Action::Run(job))
                },
            },
            PageStage::Recording => self.go_scrub(),
            PageStage::Scrubbing => flow::silently(Action::Return(Event::Code(self.code))),
        }
    }
}

/// Whether the download is past the yt-dlp runs of its own: only patches and the ledger remain.
pub open spec fn winding_down(stage: Stage) -> bool {
    stage == Stage::Thumbnails || stage == Stage::Subtitles || stage == Stage::Scrubbing
}

/// A video that is already there, of which no subtitle patch was asked, is neither probed nor
/// downloaded: once its file is found, what follows is at most the cover pass and the ledger's
/// scrub.
pub proof fn law_a_video_on_disk_is_left_alone(s: VideoView, event: EventView)
    requires
        !s.env.subtitles,
        winding_down(s.stage) || (s.stage == Stage::Finding && flow::file_of(event) is Some),
    ensures
        ({
            let (t, reply) = next(s, event);
            &&& t.env == s.env
            &&& winding_down(t.stage)
            &&& (reply.action matches ActionView::Run(job) && (job is Thumbnails || job
                is ScrubLedger)) || reply.action is Return
        }),
{
}

/// Every download of a video ends with a scrub of the ledger, whatever became of it: it returns
/// only once the scrub is done, and what it returns is its exit code.
pub proof fn law_every_video_ends_with_a_scrub(s: VideoView, event: EventView)
    ensures
        next(s, event).1.action is Return ==> s.stage == Stage::Scrubbing && next(s, event).1.action
            == ActionView::Return(EventView::Code(s.code)),
        s.stage != Stage::Scrubbing && next(s, event).0.stage == Stage::Scrubbing ==> next(
            s,
            event,
        ).1.action == ActionView::Run(JobView::ScrubLedger { dir: s.into }),
{
}

/// Only what stays dead is recorded: a line enters the ledger exactly when a diagnosis answered
/// with it, and a download that came through, at once or on its retry, counts as a success.
pub proof fn law_only_dead_videos_are_recorded(s: VideoView, event: EventView)
    ensures
        next(s, event).1.action is Run && next(s, event).1.action->Run_0 is WriteLedger <==> (
        s.stage == Stage::Diagnosing && flow::text_of(event) is Some),
        s.stage == Stage::Diagnosing ==> match flow::text_of(event) {
            Some(line) => next(s, event).1.action == ActionView::Run(
                JobView::WriteLedger { dir: s.into, lines: seq![line] },
            ) && next(s, event).0.code == s.code,
            None => next(s, event).0.code == 0,
        },
        s.stage == Stage::Launching ==> next(s, event).0.code == flow::code_of(event),
{
}

/// The patches run only on a video that is there, and only where they were asked for.
pub proof fn law_patches_are_asked_for(s: VideoView, event: EventView)
    ensures
        next(s, event).1.action matches ActionView::Run(job) ==> {
            &&& job is Thumbnails ==> s.env.thumbnail && next(s, event).0.code == 0
            &&& job is Subtitles ==> s.env.subtitles && next(s, event).0.code == 0
        },
{
}

/// Every download of a page ends with a scrub of the ledger, and never patches anything.
pub proof fn law_every_page_ends_with_a_scrub(s: PageView, event: EventView)
    ensures
        page_next(s, event).1.action is Return ==> s.stage == PageStage::Scrubbing && page_next(
            s,
            event,
        ).1.action == ActionView::Return(EventView::Code(s.code)),
        s.stage != PageStage::Scrubbing && page_next(s, event).0.stage == PageStage::Scrubbing
            ==> page_next(s, event).1.action == ActionView::Run(
            JobView::ScrubLedger { dir: s.into },
        ),
        page_next(s, event).1.action matches ActionView::Run(job) ==> job is Diagnose || job
            is WriteLedger || job is ScrubLedger,
{
}

/// A video whose URL gives its id is looked for on disk first; one that is not there, or whose URL
/// gives none, is probed.
pub proof fn law_a_video_is_looked_for_first(s: VideoView, event: EventView)
    ensures
        s.stage == Stage::Start && s.url_id is Some ==> next(s, event).1.action
            == ActionView::Run(JobView::Find { root: s.into, id: s.url_id.unwrap() }) && next(
            s,
            event,
        ).0.stage == Stage::Finding,
        s.stage == Stage::Start && s.url_id is None ==> next(s, event).1.action
            == ActionView::Ask(subtitles::video_probe_args(s.url, s.env, s.tools)) && next(
            s,
            event,
        ).0.stage == Stage::Probing,
        s.stage == Stage::Finding ==> next(s, EventView::Text(None)).1.action == ActionView::Ask(
            subtitles::video_probe_args(s.url, s.env, s.tools),
        ) && next(s, EventView::Text(None)).0.stage == Stage::Probing,
{
}

/// A video that is already there is not downloaded again: its subtitles are probed where they are
/// to be patched, else its cover is patched where that was asked for, else only the ledger is
/// left.
pub proof fn law_a_video_that_is_there_is_only_patched(
    s: VideoView,
    file: Seq<char>,
    id: Seq<char>,
)
    requires
        s.stage == Stage::Finding,
        s.url_id == Some(id),
        s.probe_id is None,
        s.code == 0,
        crate::util::path::ends_in_name(file),
    ensures
        next(s, EventView::Text(Some(file))).1.action == (if s.env.subtitles {
            ActionView::Ask(subtitles::video_probe_args(s.url, s.env, s.tools))
        } else if s.env.thumbnail {
            ActionView::Run(JobView::Thumbnails { dir: s.into, ids: seq![id] })
        } else {
            ActionView::Run(JobView::ScrubLedger { dir: s.into })
        }),
        next(s, EventView::Text(Some(file))).0.stage == (if s.env.subtitles {
            Stage::Rescanning
        } else if s.env.thumbnail {
            Stage::Thumbnails
        } else {
            Stage::Scrubbing
        }),
{
}

/// What the probe answered decides the download: the video downloads with the languages of the
/// plan that the answer makes, alone and into the destination.
pub proof fn law_the_probe_decides_the_languages(s: VideoView, answer: Option<Seq<char>>)
    requires
        s.stage == Stage::Probing,
    ensures
        ({
            let (t, reply) = next(s, EventView::Text(answer));
            let (id, picks) = subtitles::probed(answer);
            &&& reply.action == ActionView::Launch(
                ytdlp::video_args(
                    s.url,
                    s.into,
                    s.env,
                    picks.map_values(|p: PickView| p.key),
                    s.tools,
                ),
            )
            &&& (t.probe_id, t.picks) == (id, picks)
            &&& t.stage == Stage::Launching
        }),
{
}

/// A failed download is diagnosed by the same run, without trying regions, under the bracketed id
/// that the probe gave or else under the URL.
pub proof fn law_a_failed_video_is_diagnosed(s: VideoView, code: i32)
    requires
        s.stage == Stage::Launching,
        code != 0,
    ensures
        next(s, EventView::Code(code)).1.action == ActionView::Run(
            JobView::Diagnose {
                base: ytdlp::video_args(
                    s.url,
                    s.into,
                    s.env,
                    s.picks.map_values(|p: PickView| p.key),
                    s.tools,
                ),
                label: match s.probe_id {
                    Some(id) => "["@ + id + "]"@,
                    None => s.url,
                },
                rescue: GeoRescue::IpEnforced,
            },
        ),
        next(s, EventView::Code(code)).0.code == code,
        next(s, EventView::Code(code)).0.stage == Stage::Diagnosing,
{
}

/// What is left to do for a video that is there: its cover, its subtitles and then the ledger,
/// each patch only where it was asked for.
pub open spec fn patches_left(s: VideoView, id: Seq<char>) -> ActionView {
    if s.env.thumbnail {
        ActionView::Run(JobView::Thumbnails { dir: s.into, ids: seq![id] })
    } else {
        subtitles_left(s, id)
    }
}

/// What is left to do once the cover has been seen to.
pub open spec fn subtitles_left(s: VideoView, id: Seq<char>) -> ActionView {
    if s.env.subtitles {
        ActionView::Run(
            JobView::Subtitles { into: s.into, id, url: s.url, expected: s.picks },
        )
    } else {
        ActionView::Run(JobView::ScrubLedger { dir: s.into })
    }
}

/// A fresh download is finished, with the tracks that its plan named; then come the patches, the
/// cover before the subtitles, and then the ledger. So it goes for one that came through on its
/// retry. Without an id from the probe there is nothing to finish.
pub proof fn law_a_fresh_video_is_finished_and_patched(
    s: VideoView,
    id: Seq<char>,
    event: EventView,
)
    requires
        s.probe_id == Some(id) || s.probe_id is None && s.url_id == Some(id),
    ensures
        s.stage == Stage::Launching ==> next(s, EventView::Code(0)).1.action
            == fresh(s, id) && next(s, EventView::Code(0)).0.code == 0,
        s.stage == Stage::Diagnosing ==> next(s, EventView::Text(None)).1.action == fresh(
            s,
            id,
        ) && next(s, EventView::Text(None)).0.code == 0,
        s.stage == Stage::Finishing && s.code == 0 ==> next(s, event).1.action == patches_left(
            s,
            id,
        ),
        s.stage == Stage::Thumbnails && s.code == 0 ==> next(s, event).1.action
            == subtitles_left(s, id),
        s.stage == Stage::Subtitles ==> next(s, event).1.action == ActionView::Run(
            JobView::ScrubLedger { dir: s.into },
        ) && next(s, event).0.stage == Stage::Scrubbing,
        s.stage == Stage::Recording ==> next(s, event).1.action == ActionView::Run(
            JobView::ScrubLedger { dir: s.into },
        ) && next(s, event).0.stage == Stage::Scrubbing,
        s.stage == Stage::Scrubbing ==> next(s, event).1.action == ActionView::Return(
            EventView::Code(s.code),
        ),
{
}

/// What follows a download that came through: the finish where the probe gave an id, else the
/// patches.
pub open spec fn fresh(s: VideoView, id: Seq<char>) -> ActionView {
    if s.probe_id is Some {
        ActionView::Run(JobView::Finish { root: s.into, id, picks: s.picks })
    } else {
        patches_left(s, id)
    }
}

/// A video that was already there and is probed for its subtitles is patched by what that probe
/// gave.
pub proof fn law_a_rescan_gives_the_expected_tracks(
    s: VideoView,
    answer: Option<Seq<char>>,
    id: Seq<char>,
)
    requires
        s.stage == Stage::Rescanning,
        s.code == 0,
        subtitles::probed(answer).0 == Some(id),
    ensures
        ({
            let (t, reply) = next(s, EventView::Text(answer));
            &&& (t.probe_id, t.picks) == subtitles::probed(answer)
            &&& reply.action == patches_left(t, id)
        }),
{
}

/// A page of another site downloads in one flat run, is diagnosed by the same run where that
/// fails, with regions tried, and leaves its line in the ledger where it stays dead; the ledger is
/// scrubbed and the exit code is the answer.
pub proof fn law_a_page_is_downloaded_flat(
    s: PageView,
    code: i32,
    line: Seq<char>,
    event: EventView,
)
    ensures
        ({
            let flat = ytdlp::generic_args(s.url, s.into, s.env, s.tools);
            let scrub = ActionView::Run(JobView::ScrubLedger { dir: s.into });
            &&& s.stage == PageStage::Start ==> page_next(s, event).1.action
                == ActionView::Launch(flat) && page_next(s, event).0.stage
                == PageStage::Launching
            &&& s.stage == PageStage::Launching ==> page_next(s, EventView::Code(0)).1.action
                == scrub && page_next(s, EventView::Code(0)).0.code == 0
            &&& s.stage == PageStage::Launching && code != 0 ==> page_next(
                s,
                EventView::Code(code),
            ).1.action == ActionView::Run(
                JobView::Diagnose { base: flat, label: s.url, rescue: GeoRescue::XffSweep },
            ) && page_next(s, EventView::Code(code)).0.code == code && page_next(
                s,
                EventView::Code(code),
            ).0.stage == PageStage::Diagnosing
            &&& s.stage == PageStage::Diagnosing ==> page_next(s, EventView::Text(None)).1.action
                == scrub && page_next(s, EventView::Text(None)).0.code == 0
            &&& s.stage == PageStage::Diagnosing ==> page_next(
                s,
                EventView::Text(Some(line)),
            ).1.action == ActionView::Run(
                JobView::WriteLedger { dir: s.into, lines: seq![line] },
            ) && page_next(s, EventView::Text(Some(line))).0.code == s.code && page_next(
                s,
                EventView::Text(Some(line)),
            ).0.stage == PageStage::Recording
            &&& s.stage == PageStage::Recording ==> page_next(s, event).1.action == scrub
                && page_next(s, event).0.stage == PageStage::Scrubbing
            &&& s.stage == PageStage::Scrubbing ==> page_next(s, event).1.action
                == ActionView::Return(EventView::Code(s.code))
        }),
{
}

/// Patch flags on a page are answered by a notice that names them and the one platform that has
/// them; without such flags there is no notice.
pub proof fn law_patch_flags_on_a_page_are_noticed(s: PageView, event: EventView)
    requires
        s.stage == PageStage::Start,
    ensures
        page_next(s, event).1.notes == (match (s.env.thumbnail, s.env.subtitles) {
            (false, false) => Seq::<NoteView>::empty(),
            (true, false) => seq![
                NoteView::Warn(
                    "vidl: "@ + "--thumbnail"@ + " supported platforms: "@ + "youtube"@
                        + " — skipped for this site"@,
                ),
            ],
            (false, true) => seq![
                NoteView::Warn(
                    "vidl: "@ + "--subtitles"@ + " supported platforms: "@ + "youtube"@
                        + " — skipped for this site"@,
                ),
            ],
            (true, true) => seq![
                NoteView::Warn(
                    "vidl: "@ + "--thumbnail/--subtitles"@ + " supported platforms: "@
                        + "youtube"@ + " — skipped for this site"@,
                ),
            ],
        }),
{
}

} // verus!
