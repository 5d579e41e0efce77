//! The finishing pass over a fresh download: video files get the titles of their auto-generated
//! subtitle tracks stamped, audio files get the kept subtitle sidecars folded into tags.

use vstd::prelude::*;
use vstd::string::*;
use crate::flow;
use crate::flow::{
    Action,
    ActionView,
    Event,
    EventView,
    Job,
    JobView,
    Note,
    NoteView,
    Reply,
    ReplyView,
};
use crate::media::files;
use crate::media::subtitles;
use crate::media::subtitles::{Pick, PickView};
use crate::media::titles;
use crate::util::path;
use crate::util::text;

verus! {

/// Where the stamping of titles stands.
#[derive(Debug, PartialEq, Eq, Structural, Clone, Copy)]
pub enum StampStage {
    Start,
    /// The file is being searched for.
    Finding,
    /// The titles of its tracks are being read.
    Listing,
    /// The copy with the new titles is being made.
    Copying,
    /// The copy is taking the file's place.
    Renaming,
    /// A copy that did not work out is being removed.
    Cleaning,
}

/// The stamping of the auto-generated subtitle tracks of the video `id` under `root`. `file` is
/// the video's file, `out` the copy made of it, and `retitle` the new titles by track.
pub struct Stamping {
    pub root: String,
    pub id: String,
    pub picks: Vec<Pick>,
    pub stage: StampStage,
    pub file: String,
    pub out: String,
    pub retitle: Vec<(usize, String)>,
}

/// A [`Stamping`] with its texts as sequences of characters.
#[verifier::ext_equal]
pub struct StampingView {
    pub root: Seq<char>,
    pub id: Seq<char>,
    pub picks: Seq<PickView>,
    pub stage: StampStage,
    pub file: Seq<char>,
    pub out: Seq<char>,
    pub retitle: Seq<(int, Seq<char>)>,
}

impl View for Stamping {
    type V = StampingView;

    open spec fn view(&self) -> StampingView {
        StampingView {
            root: self.root@,
            id: self.id@,
            picks: subtitles::pick_views(self.picks@),
            stage: self.stage,
            file: self.file@,
            out: self.out@,
            retitle: titles::numbered(self.retitle@),
        }
    }
}

/// What the user learns of the new titles, one line to a track.
pub open spec fn stamp_notes(retitle: Seq<(int, Seq<char>)>) -> Seq<NoteView> {
    retitle.map_values(
        |t: (int, Seq<char>)| NoteView::Out("stamped subtitle track: "@ + t.1),
    )
}

/// The next step of a stamping. Without an auto-generated pick, a file, or a track that needs a
/// new title, the file is left alone; so it is when a step fails.
pub open spec fn stamp_next(s: StampingView, event: EventView) -> (StampingView, ReplyView) {
    match s.stage {
        StampStage::Start => if !titles::some_auto(s.picks) {
            (s, flow::quiet(flow::done()))
        } else {
            (
                StampingView { stage: StampStage::Finding, ..s },
                flow::quiet(ActionView::Run(JobView::Find { root: s.root, id: s.id })),
            )
        },
        StampStage::Finding => match flow::file_of(event) {
            None => (s, flow::quiet(flow::done())),
            Some(file) => (
                StampingView {
                    stage: StampStage::Listing,
                    file,
                    out: path::with_ext(file, "stamping.mkv"@),
                    ..s
                },
                flow::quiet(ActionView::Inspect(files::titles_query(file))),
            ),
        },
        StampStage::Listing => match flow::text_of(event) {
            None => (
                s,
                flow::saying(
                    NoteView::Warn(
                        "vidl: could not read "@ + s.file
                            + "'s subtitle titles (ffprobe) — auto-generated stamps skipped"@,
                    ),
                    flow::done(),
                ),
            ),
            Some(listing) => {
                let retitle = titles::stamps(text::lines_of(listing), s.picks);
                if retitle.len() == 0 {
                    (s, flow::quiet(flow::done()))
                } else {
                    (
                        StampingView { stage: StampStage::Copying, retitle, ..s },
                        flow::quiet(
                            ActionView::Remux(files::stamp_args(s.file, s.out, retitle)),
                        ),
                    )
                }
            },
        },
        StampStage::Copying => if flow::flag_of(event) {
            (
                StampingView { stage: StampStage::Renaming, ..s },
                flow::quiet(ActionView::Rename { from: s.out, to: s.file }),
            )
        } else {
            (
                StampingView { stage: StampStage::Cleaning, ..s },
                flow::quiet(ActionView::Remove(s.out)),
            )
        },
        StampStage::Renaming => match flow::error_of(event) {
            None => (s, ReplyView { notes: stamp_notes(s.retitle), action: flow::done() }),
            Some(_) => (
                StampingView { stage: StampStage::Cleaning, ..s },
                flow::quiet(ActionView::Remove(s.out)),
            ),
        },
        StampStage::Cleaning => (
            s,
            flow::saying(
                NoteView::Warn("vidl: could not stamp auto-subtitle titles in "@ + s.file),
                flow::done(),
            ),
        ),
    }
}

impl Stamping {
    /// The stamping of the auto-generated subtitle tracks of the video `id` under `root`.
    pub fn new(root: String, id: String, picks: Vec<Pick>) -> (r: Self)
        ensures
            r@ == (StampingView {
                root: root@,
                id: id@,
                picks: subtitles::pick_views(picks@),
                stage: StampStage::Start,
                file: seq![],
                out: seq![],
                retitle: seq![],
            }),
    {
        let file = String::new();
        let out = String::new();
        let retitle: Vec<(usize, String)> = Vec::new();
        assert(file@ =~= seq![]);
        assert(out@ =~= seq![]);
        assert(titles::numbered(retitle@) =~= seq![]);
        Stamping { root, id, picks, stage: StampStage::Start, file, out, retitle }
    }

    fn listed(&mut self, listing: Option<String>) -> (r: Reply)
        requires
            old(self).stage == StampStage::Listing,
        ensures
            (final(self)@, r@) == stamp_next(
                old(self)@,
                EventView::Text(text::opt_text(listing)),
            ),
    {
        match listing {
            None => {
                let note = text::cat3(
                    "vidl: could not read ",
                    self.file.as_str(),
                    "'s subtitle titles (ffprobe) — auto-generated stamps skipped",
                );
                flow::with_note(Note::Warn(note), flow::finished())
            },
            Some(listing) => {
                let retitle = titles::auto_title_stamps(listing.as_str(), self.picks.as_slice());
                if retitle.len() == 0 {
                    return flow::silently(flow::finished());
                }
                let argv = files::stamp_argv(
                    self.file.as_str(),
                    self.out.as_str(),
                    retitle.as_slice(),
                );
                self.stage = StampStage::Copying;
                self.retitle = retitle;
                flow::silently(Action::Remux(argv))
            },
        }
    }

    fn announce(&self) -> (r: Reply)
        ensures
            r@ == (ReplyView { notes: stamp_notes(self@.retitle), action: flow::done() }),
    {
        let mut notes: Vec<Note> = Vec::new();
        let mut i: usize = 0;
        let ghost all = stamp_notes(self@.retitle);
        assert(flow::note_views(notes@) =~= all.take(0));
        while i < self.retitle.len()
            invariant
                i <= self.retitle@.len(),
                all == stamp_notes(titles::numbered(self.retitle@)),
                flow::note_views(notes@) == all.take(i as int),
            decreases self.retitle@.len() - i,
        {
            let ghost before = notes@;
            let line = text::cat("stamped subtitle track: ", self.retitle[i].1.as_str());
            notes.push(Note::Out(line));
            assert(titles::numbered(self.retitle@)[i as int].1 == self.retitle@[i as int].1@);
            assert(flow::note_views(notes@) =~= flow::note_views(before).push(notes@.last()@));
            assert(all.take(i + 1) =~= all.take(i as int).push(all[i as int]));
            i += 1;
        }
        assert(all.take(i as int) =~= all);
        Reply { notes, action: flow::finished() }
    }

    /// Take in the outcome of the last action and say what comes next.
    pub fn step(&mut self, event: Event) -> (r: Reply)
        ensures
            (final(self)@, r@) == stamp_next(old(self)@, event@),
    {
        match self.stage {
            StampStage::Start => {
                if !titles::any_auto(self.picks.as_slice()) {
                    return flow::silently(flow::finished());
                }
                self.stage = StampStage::Finding;
                let job = Job::Find { root: self.root.clone(), id: self.id.clone() };
                flow::silently(Action::Run(job))
            },
            StampStage::Finding => match event.into_file() {
                None => flow::silently(flow::finished()),
                Some(file) => {
                    let argv = files::titles_probe(file.as_str());
                    self.stage = StampStage::Listing;
                    self.out = path::with_extension(file.as_str(), "stamping.mkv");
                    self.file = file;
                    flow::silently(Action::Inspect(argv))
                },
            },
            StampStage::Listing => self.listed(event.into_text()),
            StampStage::Copying => {
                if event.flag() {
                    self.stage = StampStage::Renaming;
                    flow::silently(
                        Action::Rename { from: self.out.clone(), to: self.file.clone() },
                    )
                } else {
                    self.stage = StampStage::Cleaning;
                    flow::silently(Action::Remove(self.out.clone()))
                }
            },
            StampStage::Renaming => match event.into_error() {
                None => self.announce(),
                Some(_) => {
                    self.stage = StampStage::Cleaning;
                    flow::silently(Action::Remove(self.out.clone()))
                },
            },
            StampStage::Cleaning => {
                let note = text::cat(
                    "vidl: could not stamp auto-subtitle titles in ",
                    self.file.as_str(),
                );
                flow::with_note(Note::Warn(note), flow::finished())
            },
        }
    }
}

/// Where the tagging of an audio file stands.
#[derive(Debug, PartialEq, Eq, Structural, Clone, Copy)]
pub enum TagStage {
    Start,
    /// The file is being searched for.
    Finding,
    /// Whether the first sidecar of the queue arrived is being asked.
    Checking,
    /// The first sidecar of the queue is being read.
    Loading,
    /// The tags are being written.
    Tagging,
    /// The first sidecar of the queue is being removed.
    Removing,
}

/// The folding of the subtitle sidecars of the audio file of video `id` under `root` into tags.
/// The sidecars still to be seen to stand in `queue`, those that arrived in `arrived`, each with
/// the name of its tag; `tags` holds the names and texts that were read.
pub struct Tagging {
    pub root: String,
    pub id: String,
    pub picks: Vec<Pick>,
    pub stage: TagStage,
    pub file: String,
    pub queue: Vec<(String, String)>,
    pub arrived: Vec<(String, String)>,
    pub tags: Vec<(String, String)>,
}

/// A [`Tagging`] with its texts as sequences of characters.
#[verifier::ext_equal]
pub struct TaggingView {
    pub root: Seq<char>,
    pub id: Seq<char>,
    pub picks: Seq<PickView>,
    pub stage: TagStage,
    pub file: Seq<char>,
    pub queue: Seq<(Seq<char>, Seq<char>)>,
    pub arrived: Seq<(Seq<char>, Seq<char>)>,
    pub tags: Seq<(Seq<char>, Seq<char>)>,
}

impl View for Tagging {
    type V = TaggingView;

    open spec fn view(&self) -> TaggingView {
        TaggingView {
            root: self.root@,
            id: self.id@,
            picks: subtitles::pick_views(self.picks@),
            stage: self.stage,
            file: self.file@,
            queue: flow::pair_views(self.queue@),
            arrived: flow::pair_views(self.arrived@),
            tags: flow::pair_views(self.tags@),
        }
    }
}

/// The tags and sidecars that the picks of an audio file may have, whether or not they arrived.
pub open spec fn sidecars(file: Seq<char>, picks: Seq<PickView>) -> Seq<(Seq<char>, Seq<char>)> {
    picks.map_values(|p: PickView| (files::tag_of(p), files::sidecar_of(file, p.key)))
}

/// The next sidecar of the queue is asked for; with the last one seen to, those that arrived are
/// read.
pub open spec fn check(s: TaggingView) -> (TaggingView, ReplyView) {
    if s.queue.len() > 0 {
        (
            TaggingView { stage: TagStage::Checking, ..s },
            flow::quiet(ActionView::IsFile(s.queue[0].1)),
        )
    } else if s.arrived.len() == 0 {
        (s, flow::quiet(flow::done()))
    } else {
        load(TaggingView { queue: s.arrived, ..s })
    }
}

/// The next sidecar of the queue is read; after the last one the tags are written.
pub open spec fn load(s: TaggingView) -> (TaggingView, ReplyView) {
    if s.queue.len() > 0 {
        (
            TaggingView { stage: TagStage::Loading, ..s },
            flow::quiet(ActionView::Load(s.queue[0].1)),
        )
    } else {
        (
            TaggingView { stage: TagStage::Tagging, ..s },
            flow::quiet(ActionView::Tag { file: s.file, tags: s.tags }),
        )
    }
}

/// The next sidecar of the queue is removed; after the last one the user learns of the tags.
pub open spec fn discard(s: TaggingView) -> (TaggingView, ReplyView) {
    if s.queue.len() > 0 {
        (
            TaggingView { stage: TagStage::Removing, ..s },
            flow::quiet(ActionView::Remove(s.queue[0].1)),
        )
    } else {
        (
            s,
            flow::saying(
                NoteView::Out(
                    "embedded subtitle tags: "@ + text::joined(flow::firsts(s.arrived), ", "@),
                ),
                flow::done(),
            ),
        )
    }
}

/// The tagging fails: the sidecars are kept.
pub open spec fn kept_back(s: TaggingView, why: Seq<char>) -> ReplyView {
    flow::saying(
        NoteView::Warn(
            "vidl: could not embed subtitle tags into "@ + s.file + " ("@ + why
                + ") — sidecar .vtt files kept"@,
        ),
        flow::done(),
    )
}

/// The next step of a tagging. Sidecars are removed only after their texts are in the file.
pub open spec fn tag_next(s: TaggingView, event: EventView) -> (TaggingView, ReplyView) {
    match s.stage {
        TagStage::Start => if s.picks.len() == 0 {
            (s, flow::quiet(flow::done()))
        } else {
            (
                TaggingView { stage: TagStage::Finding, ..s },
                flow::quiet(ActionView::Run(JobView::Find { root: s.root, id: s.id })),
            )
        },
        TagStage::Finding => match flow::file_of(event) {
            None => (s, flow::quiet(flow::done())),
            Some(file) => check(TaggingView { file, queue: sidecars(file, s.picks), ..s }),
        },
        TagStage::Checking => if s.queue.len() > 0 && flow::flag_of(event) {
            check(
                TaggingView {
                    arrived: s.arrived.push(s.queue[0]),
                    queue: s.queue.drop_first(),
                    ..s
                },
            )
        } else {
            check(TaggingView { queue: flow::rest(s.queue), ..s })
        },
        TagStage::Loading => match flow::contents_of(event) {
            Err(why) => (s, kept_back(s, why)),
            Ok(content) => if s.queue.len() > 0 {
                load(
                    TaggingView {
                        tags: s.tags.push((s.queue[0].0, content)),
                        queue: s.queue.drop_first(),
                        ..s
                    },
                )
            } else {
                load(s)
            },
        },
        TagStage::Tagging => match flow::error_of(event) {
            Some(why) => (s, kept_back(s, why)),
            None => discard(TaggingView { queue: s.arrived, ..s }),
        },
        TagStage::Removing => discard(TaggingView { queue: flow::rest(s.queue), ..s }),
    }
}

fn sidecars_of(file: &str, picks: &[Pick]) -> (r: Vec<(String, String)>)
    ensures
        flow::pair_views(r@) == sidecars(file@, subtitles::pick_views(picks@)),
{
    let ghost all = sidecars(file@, subtitles::pick_views(picks@));
    let mut out: Vec<(String, String)> = Vec::new();
    let mut i: usize = 0;
    assert(flow::pair_views(out@) =~= all.take(0));
    while i < picks.len()
        invariant
            i <= picks@.len(),
            all == sidecars(file@, subtitles::pick_views(picks@)),
            flow::pair_views(out@) == all.take(i as int),
        decreases picks@.len() - i,
    {
        let ghost before = out@;
        let tag = files::subtitle_tag_name(&picks[i]);
        let sidecar = files::download_sidecar(file, picks[i].key.as_str());
        out.push((tag, sidecar));
        assert(subtitles::pick_views(picks@)[i as int] == picks@[i as int]@);
        assert(flow::pair_views(out@) =~= flow::pair_views(before).push((tag@, sidecar@)));
        assert(all.take(i + 1) =~= all.take(i as int).push(all[i as int]));
        i += 1;
    }
    assert(all.take(i as int) =~= all);
    out
}

impl Tagging {
    /// The folding of the subtitle sidecars of the audio file of video `id` under `root` into
    /// tags.
    pub fn new(root: String, id: String, picks: Vec<Pick>) -> (r: Self)
        ensures
            r@ == (TaggingView {
                root: root@,
                id: id@,
                picks: subtitles::pick_views(picks@),
                stage: TagStage::Start,
                file: seq![],
                queue: seq![],
                arrived: seq![],
                tags: seq![],
            }),
    {
        let file = String::new();
        let queue: Vec<(String, String)> = Vec::new();
        let arrived: Vec<(String, String)> = Vec::new();
        let tags: Vec<(String, String)> = Vec::new();
        assert(file@ =~= seq![]);
        assert(flow::pair_views(queue@) =~= seq![]);
        assert(flow::pair_views(arrived@) =~= seq![]);
        assert(flow::pair_views(tags@) =~= seq![]);
        Tagging { root, id, picks, stage: TagStage::Start, file, queue, arrived, tags }
    }

    fn go_check(&mut self) -> (r: Reply)
        ensures
            (final(self)@, r@) == check(old(self)@),
    {
        if self.queue.len() > 0 {
            self.stage = TagStage::Checking;
            assert(flow::pair_views(self.queue@)[0] == (self.queue@[0].0@, self.queue@[0].1@));
            flow::silently(Action::IsFile(self.queue[0].1.clone()))
        } else if self.arrived.len() == 0 {
            flow::silently(flow::finished())
        } else {
            self.queue = flow::copy_pairs(self.arrived.as_slice());
            self.go_load()
        }
    }

    fn go_load(&mut self) -> (r: Reply)
        ensures
            (final(self)@, r@) == load(old(self)@),
    {
        if self.queue.len() > 0 {
            self.stage = TagStage::Loading;
            assert(flow::pair_views(self.queue@)[0] == (self.queue@[0].0@, self.queue@[0].1@));
            flow::silently(Action::Load(self.queue[0].1.clone()))
        } else {
            self.stage = TagStage::Tagging;
            let tags = flow::copy_pairs(self.tags.as_slice());
            flow::silently(Action::Tag { file: self.file.clone(), tags })
        }
    }

    fn go_discard(&mut self) -> (r: Reply)
        ensures
            (final(self)@, r@) == discard(old(self)@),
    {
        if self.queue.len() > 0 {
            self.stage = TagStage::Removing;
            assert(flow::pair_views(self.queue@)[0] == (self.queue@[0].0@, self.queue@[0].1@));
            flow::silently(Action::Remove(self.queue[0].1.clone()))
        } else {
            let names = flow::first_texts(self.arrived.as_slice());
            let list = text::join(names.as_slice(), ", ");
            let note = text::cat("embedded subtitle tags: ", list.as_str());
            flow::with_note(Note::Out(note), flow::finished())
        }
    }

    fn keep_back(&self, why: String) -> (r: Reply)
        ensures
            r@ == kept_back(self@, why@),
    {
        let note = text::cat5(
            "vidl: could not embed subtitle tags into ",
            self.file.as_str(),
            " (",
            why.as_str(),
            ") — sidecar .vtt files kept",
        );
        flow::with_note(Note::Warn(note), flow::finished())
    }

    fn loaded(&mut self, contents: Result<String, String>) -> (r: Reply)
        requires
            old(self).stage == TagStage::Loading,
        ensures
            (final(self)@, r@) == tag_next(
                old(self)@,
                EventView::Contents(flow::result_view(contents)),
            ),
    {
        match contents {
            Err(why) => self.keep_back(why),
            Ok(content) => {
                if self.queue.len() > 0 {
                    let ghost queue = flow::pair_views(self.queue@);
                    let ghost tags = flow::pair_views(self.tags@);
                    let first = self.queue.remove(0);
                    assert(queue[0] == (first.0@, first.1@));
                    assert(flow::pair_views(self.queue@) =~= queue.drop_first());
                    self.tags.push((first.0, content));
                    assert(flow::pair_views(self.tags@) =~= tags.push((queue[0].0, content@)));
                }
                self.go_load()
            },
        }
    }

    /// Take in the outcome of the last action and say what comes next.
    pub fn step(&mut self, event: Event) -> (r: Reply)
        ensures
            (final(self)@, r@) == tag_next(old(self)@, event@),
    {
        match self.stage {
            TagStage::Start => {
                if self.picks.len() == 0 {
                    return flow::silently(flow::finished());
                }
                self.stage = TagStage::Finding;
                let job = Job::Find { root: self.root.clone(), id: self.id.clone() };
                flow::silently(Action::Run(job))
            },
            TagStage::Finding => match event.into_file() {
                None => flow::silently(flow::finished()),
                Some(file) => {
                    self.queue = sidecars_of(file.as_str(), self.picks.as_slice());
                    self.file = file;
                    self.go_check()
                },
            },
            TagStage::Checking => {
                if self.queue.len() > 0 {
                    let ghost queue = flow::pair_views(self.queue@);
                    let ghost arrived = flow::pair_views(self.arrived@);
                    let first = self.queue.remove(0);
                    assert(queue[0] == (first.0@, first.1@));
                    assert(flow::pair_views(self.queue@) =~= queue.drop_first());
                    if event.flag() {
                        self.arrived.push(first);
                        assert(flow::pair_views(self.arrived@) =~= arrived.push(queue[0]));
                    }
                }
                self.go_check()
            },
            TagStage::Loading => self.loaded(event.into_contents()),
            TagStage::Tagging => match event.into_error() {
                Some(why) => self.keep_back(why),
                None => {
                    self.queue = flow::copy_pairs(self.arrived.as_slice());
                    self.go_discard()
                },
            },
            TagStage::Removing => {
                if self.queue.len() > 0 {
                    let ghost queue = flow::pair_views(self.queue@);
                    let _ = self.queue.remove(0);
                    assert(flow::pair_views(self.queue@) =~= queue.drop_first());
                }
                self.go_discard()
            },
        }
    }
}

/// The finishing pass of a fresh download, by mode.
pub enum Finish {
    Video(Stamping),
    Audio(Tagging),
}

/// A [`Finish`] with its texts as sequences of characters.
#[verifier::ext_equal]
pub enum FinishView {
    Video(StampingView),
    Audio(TaggingView),
}

impl View for Finish {
    type V = FinishView;

    open spec fn view(&self) -> FinishView {
        match self {
            Finish::Video(s) => FinishView::Video(s@),
            Finish::Audio(s) => FinishView::Audio(s@),
        }
    }
}

/// The finishing pass at its start: tags for audio, stamps for video.
pub open spec fn begun(
    root: Seq<char>,
    id: Seq<char>,
    picks: Seq<PickView>,
    audio: bool,
) -> FinishView {
    if audio {
        FinishView::Audio(
            TaggingView {
                root,
                id,
                picks,
                stage: TagStage::Start,
                file: seq![],
                queue: seq![],
                arrived: seq![],
                tags: seq![],
            },
        )
    } else {
        FinishView::Video(
            StampingView {
                root,
                id,
                picks,
                stage: StampStage::Start,
                file: seq![],
                out: seq![],
                retitle: seq![],
            },
        )
    }
}

/// The next step of a finishing pass.
pub open spec fn next(s: FinishView, event: EventView) -> (FinishView, ReplyView) {
    match s {
        FinishView::Video(s) => {
            let (t, reply) = stamp_next(s, event);
            (FinishView::Video(t), reply)
        },
        FinishView::Audio(s) => {
            let (t, reply) = tag_next(s, event);
            (FinishView::Audio(t), reply)
        },
    }
}

impl Finish {
    /// The finishing pass of the fresh download of video `id` under `root`.
    pub fn new(root: String, id: String, picks: Vec<Pick>, audio: bool) -> (r: Self)
        ensures
            r@ == begun(root@, id@, subtitles::pick_views(picks@), audio),
    {
        if audio {
            Finish::Audio(Tagging::new(root, id, picks))
        } else {
            Finish::Video(Stamping::new(root, id, picks))
        }
    }

    /// Take in the outcome of the last action and say what comes next.
    pub fn step(&mut self, event: Event) -> (r: Reply)
        ensures
            (final(self)@, r@) == next(old(self)@, event@),
    {
        match self {
            Finish::Video(s) => s.step(event),
            Finish::Audio(s) => s.step(event),
        }
    }
}

/// A sidecar goes only once its text is in the file: nothing is removed before the tags were
/// written without an error.
pub proof fn law_sidecars_are_kept_until_tagged(s: TaggingView, event: EventView)
    ensures
        tag_next(s, event).1.action is Remove ==> s.stage == TagStage::Removing || (s.stage
            == TagStage::Tagging && flow::error_of(event) is None),
        tag_next(s, event).0.stage == TagStage::Removing ==> s.stage == TagStage::Removing || (
        s.stage == TagStage::Tagging && flow::error_of(event) is None),
{
}

/// A stamping changes the file in one move, after the copy with the new titles has worked out; a
/// step that fails leaves the file as it is.
pub proof fn law_a_stamping_changes_the_file_in_one_move(s: StampingView, event: EventView)
    ensures
        stamp_next(s, event).1.action matches ActionView::Rename { from, to } ==> s.stage
            == StampStage::Copying && flow::flag_of(event) && from == s.out && to == s.file,
        stamp_next(s, event).1.action matches ActionView::Remove(gone) ==> gone == s.out,
{
}

/// A fresh video file is searched for where one of its planned tracks is auto-generated; its
/// titles are read, the tracks that need it get their honest titles in a copy, and the copy takes
/// the file's place. Without an auto-generated track, a file or a track that needs it, nothing is
/// touched; a copy that does not work out goes.
pub proof fn law_auto_generated_tracks_are_stamped(
    s: StampingView,
    event: EventView,
    file: Seq<char>,
    listing: Seq<char>,
    error: Seq<char>,
)
    ensures
        s.stage == StampStage::Start ==> stamp_next(s, event).1.action == (if exists|i: int|
            0 <= i < s.picks.len() && (#[trigger] s.picks[i]).auto {
            ActionView::Run(JobView::Find { root: s.root, id: s.id })
        } else {
            ActionView::Return(EventView::Done(None))
        }),
        s.stage == StampStage::Finding && path::ends_in_name(file) ==> {
            let (t, reply) = stamp_next(s, EventView::Text(Some(file)));
            &&& reply.action == ActionView::Inspect(files::titles_query(file))
            &&& (t.file, t.out) == (file, path::with_ext(file, "stamping.mkv"@))
            &&& t.stage == StampStage::Listing
        },
        s.stage == StampStage::Finding || s.stage == StampStage::Listing ==> stamp_next(
            s,
            EventView::Text(None),
        ).1.action == ActionView::Return(EventView::Done(None)),
        s.stage == StampStage::Listing ==> {
            let (t, reply) = stamp_next(s, EventView::Text(Some(listing)));
            let retitle = titles::stamps(text::lines_of(listing), s.picks);
            &&& retitle.len() > 0 ==> reply.action == ActionView::Remux(
                files::stamp_args(s.file, s.out, retitle),
            ) && t.stage == StampStage::Copying && t.retitle == retitle
            &&& retitle.len() == 0 ==> reply.action == ActionView::Return(EventView::Done(None))
        },
        s.stage == StampStage::Copying ==> stamp_next(s, EventView::Flag(true)).1.action
            == (ActionView::Rename { from: s.out, to: s.file }) && stamp_next(
            s,
            EventView::Flag(false),
        ).1.action == ActionView::Remove(s.out),
        s.stage == StampStage::Renaming ==> stamp_next(s, EventView::Done(None)).1.action
            == ActionView::Return(EventView::Done(None)) && stamp_next(
            s,
            EventView::Done(Some(error)),
        ).1.action == ActionView::Remove(s.out),
        s.stage == StampStage::Cleaning ==> stamp_next(s, event).1.action == ActionView::Return(
            EventView::Done(None),
        ),
{
}

/// The actions with which a tagging answers events, one after the other, and the state that it
/// comes to.
pub open spec fn tag_run(s: TaggingView, events: Seq<EventView>) -> (TaggingView, Seq<ActionView>)
    decreases events.len(),
{
    if events.len() == 0 {
        (s, seq![])
    } else {
        let (t, reply) = tag_next(s, events[0]);
        let (end, later) = tag_run(t, events.drop_first());
        (end, seq![reply.action] + later)
    }
}

/// A fresh audio file's sidecars are asked for, one to each planned track: beside the file and
/// under the track's key, to be kept under the track's tag. Without a plan or a file there is
/// nothing to do.
pub proof fn law_every_planned_sidecar_is_asked_for(
    s: TaggingView,
    event: EventView,
    file: Seq<char>,
)
    ensures
        s.stage == TagStage::Start ==> tag_next(s, event).1.action == (if s.picks.len() > 0 {
            ActionView::Run(JobView::Find { root: s.root, id: s.id })
        } else {
            ActionView::Return(EventView::Done(None))
        }),
        s.stage == TagStage::Finding ==> tag_next(s, EventView::Text(None)).1.action
            == ActionView::Return(EventView::Done(None)),
        s.stage == TagStage::Finding && path::ends_in_name(file) && s.picks.len() > 0 ==> {
            let (t, reply) = tag_next(s, EventView::Text(Some(file)));
            &&& t.file == file
            &&& t.queue.len() == s.picks.len()
            &&& forall|i: int|
                0 <= i < s.picks.len() ==> #[trigger] t.queue[i] == (
                    files::tag_of(s.picks[i]),
                    files::sidecar_of(file, s.picks[i].key),
                )
            &&& reply.action == ActionView::IsFile(t.queue[0].1)
            &&& t.stage == TagStage::Checking
        },
{
}

/// The sidecars that are there, of those that were asked for.
pub open spec fn there(
    queue: Seq<(Seq<char>, Seq<char>)>,
    answers: Seq<bool>,
) -> Seq<(Seq<char>, Seq<char>)>
    decreases queue.len(),
{
    if queue.len() == 0 || answers.len() == 0 {
        seq![]
    } else if answers[0] {
        seq![queue[0]] + there(queue.drop_first(), answers.drop_first())
    } else {
        there(queue.drop_first(), answers.drop_first())
    }
}

/// Every sidecar is asked for, and those that are there are kept, all of them and in order; with
/// the last one seen to, the first of them is read, or where there is none, nothing is done.
pub proof fn law_every_sidecar_that_is_there_is_kept(s: TaggingView, answers: Seq<bool>)
    requires
        s.stage == TagStage::Checking,
        s.queue.len() > 0,
        answers.len() == s.queue.len(),
    ensures
        ({
            let events = answers.map_values(|there: bool| EventView::Flag(there));
            let (t, actions) = tag_run(s, events);
            let kept = s.arrived + there(s.queue, answers);
            &&& actions.len() == answers.len()
            &&& forall|k: int|
                0 <= k < answers.len() - 1 ==> #[trigger] actions[k] == ActionView::IsFile(
                    s.queue[k + 1].1,
                )
            &&& t.arrived == kept
            &&& kept.len() > 0 ==> actions.last() == ActionView::Load(kept[0].1) && t.queue
                == kept && t.stage == TagStage::Loading
            &&& kept.len() == 0 ==> actions.last() == ActionView::Return(EventView::Done(None))
        }),
    decreases answers.len(),
{
    let f = |there: bool| EventView::Flag(there);
    let events = answers.map_values(f);
    let (t, reply) = tag_next(s, events[0]);
    let rest = events.drop_first();
    let (end, later) = tag_run(t, rest);
    let kept = s.arrived + there(s.queue, answers);
    assert(tag_run(s, events).1 =~= seq![reply.action] + later);
    assert(events[0] == EventView::Flag(answers[0]));
    assert(rest =~= answers.drop_first().map_values(f));
    let others = there(s.queue.drop_first(), answers.drop_first());
    if answers[0] {
        assert(s.arrived.push(s.queue[0]) + others =~= kept);
    }
    if answers.len() > 1 {
        law_every_sidecar_that_is_there_is_kept(t, answers.drop_first());
        assert forall|k: int| 0 <= k < answers.len() - 1 implies #[trigger] tag_run(
            s,
            events,
        ).1[k] == ActionView::IsFile(s.queue[k + 1].1) by {
            if k > 0 {
                assert(tag_run(s, events).1[k] == later[k - 1]);
                assert(t.queue[k] == s.queue[k + 1]);
            }
        }
        assert(tag_run(s, events).1.last() == later.last());
    } else {
        assert(others =~= seq![]);
        assert(kept =~= if answers[0] {
            s.arrived.push(s.queue[0])
        } else {
            s.arrived
        });
        assert(rest.len() == 0);
        assert(later.len() == 0);
    }
}

/// Every sidecar that is there is read, and its text goes into the file under its tag: after the
/// last one has been read, the file gets all the tags at once, each with its own text. A sidecar
/// that cannot be read, or tags that cannot be written, end it with every sidecar kept.
pub proof fn law_every_text_reaches_its_tag(
    s: TaggingView,
    contents: Seq<Seq<char>>,
    error: Seq<char>,
)
    requires
        s.stage == TagStage::Loading,
        s.queue.len() > 0,
        contents.len() == s.queue.len(),
    ensures
        ({
            let events = contents.map_values(|c: Seq<char>| EventView::Contents(Ok(c)));
            let (t, actions) = tag_run(s, events);
            let tags = s.tags + Seq::new(contents.len(), |k: int| (s.queue[k].0, contents[k]));
            &&& actions.len() == contents.len()
            &&& forall|k: int|
                0 <= k < contents.len() - 1 ==> #[trigger] actions[k] == ActionView::Load(
                    s.queue[k + 1].1,
                )
            &&& actions.last() == (ActionView::Tag { file: s.file, tags })
            &&& t.stage == TagStage::Tagging
            &&& (t.arrived, t.file) == (s.arrived, s.file)
        }),
        tag_next(s, EventView::Contents(Err(error))).1.action == ActionView::Return(
            EventView::Done(None),
        ),
    decreases contents.len(),
{
    let f = |c: Seq<char>| EventView::Contents(Ok(c));
    let events = contents.map_values(f);
    let (t, reply) = tag_next(s, events[0]);
    let rest = events.drop_first();
    let (end, later) = tag_run(t, rest);
    let tags = s.tags + Seq::new(contents.len(), |k: int| (s.queue[k].0, contents[k]));
    assert(tag_run(s, events).1 =~= seq![reply.action] + later);
    assert(rest =~= contents.drop_first().map_values(f));
    if contents.len() > 1 {
        let others = contents.drop_first();
        law_every_text_reaches_its_tag(t, others, error);
        assert(t.tags + Seq::new(others.len(), |k: int| (t.queue[k].0, others[k])) =~= tags);
        assert forall|k: int| 0 <= k < contents.len() - 1 implies #[trigger] tag_run(
            s,
            events,
        ).1[k] == ActionView::Load(s.queue[k + 1].1) by {
            if k > 0 {
                assert(tag_run(s, events).1[k] == later[k - 1]);
                assert(t.queue[k] == s.queue[k + 1]);
            }
        }
        assert(tag_run(s, events).1.last() == later.last());
    } else {
        assert(t.queue.len() == 0);
        assert(t.tags =~= tags);
        assert(rest.len() == 0);
        assert(later.len() == 0);
    }
}

/// Once the tags are in the file, every sidecar that was read is removed, one after the other,
/// and then the tagging is done; where they could not be written, none is.
pub proof fn law_tagged_sidecars_are_removed(
    s: TaggingView,
    events: Seq<EventView>,
    error: Seq<char>,
)
    ensures
        s.stage == TagStage::Tagging && s.arrived.len() > 0 ==> tag_next(
            s,
            EventView::Done(None),
        ).1.action == ActionView::Remove(s.arrived[0].1) && tag_next(
            s,
            EventView::Done(None),
        ).0.queue == s.arrived && tag_next(s, EventView::Done(None)).0.stage
            == TagStage::Removing,
        s.stage == TagStage::Tagging ==> tag_next(s, EventView::Done(Some(error))).1.action
            == ActionView::Return(EventView::Done(None)),
        s.stage == TagStage::Removing && s.queue.len() > 0 && events.len() == s.queue.len() ==> {
            let actions = tag_run(s, events).1;
            &&& actions.len() == s.queue.len()
            &&& forall|k: int|
                0 <= k < s.queue.len() - 1 ==> #[trigger] actions[k] == ActionView::Remove(
                    s.queue[k + 1].1,
                )
            &&& actions.last() == ActionView::Return(EventView::Done(None))
        },
    decreases events.len(),
{
    if s.stage == TagStage::Removing && s.queue.len() > 0 && events.len() == s.queue.len() {
        let (t, reply) = tag_next(s, events[0]);
        let rest = events.drop_first();
        let (end, later) = tag_run(t, rest);
        let actions = tag_run(s, events).1;
        assert(actions =~= seq![reply.action] + later);
        if events.len() > 1 {
            law_tagged_sidecars_are_removed(t, rest, error);
            assert forall|k: int| 0 <= k < s.queue.len() - 1 implies #[trigger] actions[k]
                == ActionView::Remove(s.queue[k + 1].1) by {
                if k > 0 {
                    assert(actions[k] == later[k - 1]);
                    assert(t.queue[k] == s.queue[k + 1]);
                }
            }
            assert(actions.last() == later.last());
        } else {
            assert(rest.len() == 0);
            assert(later.len() == 0);
        }
    }
}

/// Audio is tagged and video is stamped: the finishing pass of each starts with its own picks, and
/// steps as that one does.
pub proof fn law_audio_is_tagged_and_video_is_stamped(
    root: Seq<char>,
    id: Seq<char>,
    picks: Seq<PickView>,
    event: EventView,
)
    ensures
        begun(root, id, picks, true) matches FinishView::Audio(s) && (s.root, s.id, s.picks)
            == (root, id, picks) && s.stage == TagStage::Start && s.arrived.len() == 0
            && s.tags.len() == 0 && next(FinishView::Audio(s), event) == (
            FinishView::Audio(tag_next(s, event).0),
            tag_next(s, event).1,
        ),
        begun(root, id, picks, false) matches FinishView::Video(s) && (s.root, s.id, s.picks)
            == (root, id, picks) && s.stage == StampStage::Start && next(
            FinishView::Video(s),
            event,
        ) == (FinishView::Video(stamp_next(s, event).0), stamp_next(s, event).1),
{
}

} // verus!
