//! The subtitle patch: which of a video's expected tracks are missing from its file is reported
//! first, then only those are fetched and added.

use vstd::prelude::*;
use vstd::string::*;
use crate::env::{Env, EnvView};
use crate::flow;
use crate::flow::{
    Action,
    ActionView,
    Event,
    EventView,
    Job,
    JobView,
    Note,
    NoteView,
    Reply,
    ReplyView,
};
use crate::media::files;
use crate::media::files::{Track, TrackView};
use crate::media::subtitles;
use crate::media::subtitles::{Pick, PickView, Planned, PlannedView};
use crate::media::titles;
use crate::tools::{Tools, ToolsView};
use crate::util::number;
use crate::util::path;
use crate::util::style;
use crate::util::text;

verus! {

/// Where a subtitle patch stands.
#[derive(Debug, PartialEq, Eq, Structural, Clone, Copy)]
pub enum Stage {
    Start,
    /// The video's file is being searched for.
    Finding,
    /// Its subtitle tracks are being read.
    Listing,
    /// The missing tracks are being fetched.
    Fetching,
    /// Whether the first track of the queue arrived is being asked.
    Checking,
    /// Whether the file has a cover is being read.
    Cover,
    /// The cover is being copied out.
    Extracting,
    /// Whether the copied cover is there is being asked.
    Extracted,
    /// A copied cover that did not work out is being removed.
    Uncovered,
    /// A copy of the file with the tracks added is being made.
    Muxing,
    /// The copy is taking the file's place.
    Renaming,
    /// The copied cover is being removed.
    CoverDone,
    /// A copy that did not work out is being removed.
    Dropping,
    /// The first sidecar that is left is being removed.
    Discarding,
}

/// The patching of the subtitle tracks that `expected` names into the file of video `id` under
/// `into`.
pub struct Patch<'a> {
    pub into: String,
    pub id: String,
    pub url: String,
    pub expected: Vec<Pick>,
    pub env: Env<'a>,
    pub tools: &'a Tools,
    pub stage: Stage,
    /// The video's file.
    pub file: String,
    /// The number of subtitle tracks that it has.
    pub count: usize,
    /// The tracks that are still to be asked for.
    pub queue: Vec<Pick>,
    /// The tracks that arrived.
    pub arrived: Vec<Track>,
    /// The stream that carries the cover.
    pub index: u32,
    /// The cover to attach anew: its stream and its image.
    pub cover: Option<(u32, String)>,
    /// Whether the tracks are in.
    pub ok: bool,
    /// The sidecars that are still to be removed.
    pub left: Vec<String>,
}

/// A [`Patch`] with its texts as sequences of characters.
#[verifier::ext_equal]
pub struct PatchView {
    pub into: Seq<char>,
    pub id: Seq<char>,
    pub url: Seq<char>,
    pub expected: Seq<PickView>,
    pub env: EnvView,
    pub tools: ToolsView,
    pub stage: Stage,
    pub file: Seq<char>,
    pub count: nat,
    pub queue: Seq<PickView>,
    pub arrived: Seq<TrackView>,
    pub index: u32,
    pub cover: Option<(u32, Seq<char>)>,
    pub ok: bool,
    pub left: Seq<Seq<char>>,
}

impl<'a> View for Patch<'a> {
    type V = PatchView;

    open spec fn view(&self) -> PatchView {
        PatchView {
            into: self.into@,
            id: self.id@,
            url: self.url@,
            expected: subtitles::pick_views(self.expected@),
            env: self.env@,
            tools: self.tools@,
            stage: self.stage,
            file: self.file@,
            count: self.count as nat,
            queue: subtitles::pick_views(self.queue@),
            arrived: files::track_views(self.arrived@),
            index: self.index,
            cover: files::cover_view(self.cover),
            ok: self.ok,
            left: text::texts(self.left@),
        }
    }
}

/// Whether a pick's track is missing among the titles of the embedded tracks. A track without a
/// title cannot be recognized, and is not missed.
pub open spec fn lacking(pick: PickView, embedded: Seq<Seq<char>>) -> bool {
    titles::title_of(pick).len() > 0 && !embedded.contains(titles::title_of(pick))
}

/// The picks whose tracks are missing.
pub open spec fn missing_of(expected: Seq<PickView>, embedded: Seq<Seq<char>>) -> Seq<PickView> {
    expected.filter(|p: PickView| lacking(p, embedded))
}

/// The keys of fetched tracks.
pub open spec fn track_keys(tracks: Seq<TrackView>) -> Seq<Seq<char>> {
    tracks.map_values(|t: TrackView| t.pick.key)
}

/// The sidecar files of fetched tracks.
pub open spec fn track_files(tracks: Seq<TrackView>) -> Seq<Seq<char>> {
    tracks.map_values(|t: TrackView| t.sidecar)
}

/// Where the cover is copied out to.
pub open spec fn image_for(file: Seq<char>) -> Seq<char> {
    path::with_ext(file, "cover-keep.jpg"@)
}

/// The copy of a video that gets the tracks.
pub open spec fn copy_for(file: Seq<char>) -> Seq<char> {
    path::with_ext(file, "subbing.mkv"@)
}

/// The patch ends with this to say, approving.
pub open spec fn content(s: PatchView, body: Seq<char>) -> (PatchView, ReplyView) {
    (
        s,
        flow::saying(
            NoteView::Out(flow::about(s.id, style::span("1;32"@, body))),
            flow::done(),
        ),
    )
}

/// The patch ends with this to say, on stdout.
pub open spec fn skipped(s: PatchView, body: Seq<char>) -> (PatchView, ReplyView) {
    (
        s,
        flow::saying(
            NoteView::Out(flow::about(s.id, style::span("1;31"@, body))),
            flow::done(),
        ),
    )
}

/// The patch ends with this to say, on stderr.
pub open spec fn failed(s: PatchView, body: Seq<char>) -> (PatchView, ReplyView) {
    (
        s,
        flow::saying(
            NoteView::Warn(flow::about(s.id, style::span("1;31"@, body))),
            flow::done(),
        ),
    )
}

/// What there is to say when no expected track is missing.
pub open spec fn complete(expected: Seq<PickView>) -> Seq<char> {
    if expected.len() == 0 {
        "no subtitles exist for this video — nothing to embed"@
    } else {
        "all "@ + number::digits(expected.len()) + " expected subtitle(s) already embedded"@
    }
}

/// The next track of the queue is asked for; with the last one seen to, the cover is looked for.
pub open spec fn check(s: PatchView) -> (PatchView, ReplyView) {
    if s.queue.len() > 0 {
        (
            PatchView { stage: Stage::Checking, ..s },
            flow::quiet(
                ActionView::IsFile(files::patch_sidecar(s.into, s.id, s.queue[0].key)),
            ),
        )
    } else if s.arrived.len() == 0 {
        failed(s, "no subtitles arrived (rate-limited?)"@)
    } else {
        (
            PatchView { stage: Stage::Cover, ..s },
            flow::quiet(ActionView::Inspect(files::cover_query(s.file))),
        )
    }
}

/// The copy with the tracks is made; a cover in hand is attached anew.
pub open spec fn mux(s: PatchView, cover: Option<(u32, Seq<char>)>) -> (PatchView, ReplyView) {
    (
        PatchView { stage: Stage::Muxing, cover, ..s },
        flow::quiet(
            ActionView::Remux(
                files::mux_args(s.file, s.arrived, s.count, cover, copy_for(s.file)),
            ),
        ),
    )
}

/// A copied cover that did not work out goes.
pub open spec fn give_up_cover(s: PatchView) -> (PatchView, ReplyView) {
    (
        PatchView { stage: Stage::Uncovered, ..s },
        flow::quiet(ActionView::Remove(image_for(s.file))),
    )
}

/// The tracks are in or not: the copied cover goes first.
pub open spec fn settle(s: PatchView, ok: bool) -> (PatchView, ReplyView) {
    match s.cover {
        Some((_, image)) => (
            PatchView { stage: Stage::CoverDone, ok, ..s },
            flow::quiet(ActionView::Remove(image)),
        ),
        None => drop_copy(PatchView { ok, ..s }),
    }
}

/// A copy that did not work out goes, then the sidecars.
pub open spec fn drop_copy(s: PatchView) -> (PatchView, ReplyView) {
    if s.ok {
        discard(PatchView { left: track_files(s.arrived), ..s })
    } else {
        (
            PatchView { stage: Stage::Dropping, ..s },
            flow::quiet(ActionView::Remove(copy_for(s.file))),
        )
    }
}

/// The next sidecar that is left goes; after the last one the user learns the outcome.
pub open spec fn discard(s: PatchView) -> (PatchView, ReplyView) {
    if s.left.len() > 0 {
        (
            PatchView { stage: Stage::Discarding, left: s.left.drop_first(), ..s },
            flow::quiet(ActionView::Remove(s.left[0])),
        )
    } else if s.ok {
        content(s, "embedded "@ + text::joined(track_keys(s.arrived), ", "@))
    } else {
        failed(s, "could not embed subtitles"@)
    }
}

/// The file's tracks have been read: what is missing is reported and fetched.
pub open spec fn listed(s: PatchView, listing: Seq<char>) -> (PatchView, ReplyView) {
    let missing = missing_of(s.expected, titles::titles_in(listing));
    let keys = subtitles::keys_of(missing);
    if missing.len() == 0 {
        content(s, complete(s.expected))
    } else {
        (
            PatchView {
                stage: Stage::Fetching,
                count: titles::streams_in(text::lines_of(listing)),
                queue: missing,
                ..s
            },
            flow::saying(
                NoteView::Out(
                    flow::about(
                        s.id,
                        style::span("1;31"@, "missing subtitle(s): "@ + text::joined(keys, ", "@)),
                    ),
                ),
                ActionView::Ask(files::fetch_args(s.url, s.id, keys, s.into, s.env, s.tools)),
            ),
        )
    }
}

/// The next step of a subtitle patch.
pub open spec fn next(s: PatchView, event: EventView) -> (PatchView, ReplyView) {
    match s.stage {
        Stage::Start => (
            PatchView { stage: Stage::Finding, ..s },
            flow::quiet(ActionView::Run(JobView::Find { root: s.into, id: s.id })),
        ),
        Stage::Finding => match flow::file_of(event) {
            None => skipped(s, "no file found — skipping"@),
            Some(file) => if !path::has_ext(file, "mkv"@) {
                content(s, "audio — subtitles kept as tags; nothing to patch"@)
            } else {
                (
                    PatchView { stage: Stage::Listing, file, ..s },
                    flow::quiet(ActionView::Inspect(files::tracks_query(file))),
                )
            },
        },
        Stage::Listing => match flow::text_of(event) {
            None => skipped(s, "could not read (ffprobe) — skipping"@),
            Some(listing) => listed(s, listing),
        },
        Stage::Fetching => if flow::text_of(event) is None {
            failed(s, "could not fetch subtitles"@)
        } else {
            check(s)
        },
        Stage::Checking => if s.queue.len() > 0 && flow::flag_of(event) {
            check(
                PatchView {
                    arrived: s.arrived.push(
                        TrackView {
                            pick: s.queue[0],
                            sidecar: files::patch_sidecar(s.into, s.id, s.queue[0].key),
                        },
                    ),
                    queue: s.queue.drop_first(),
                    ..s
                },
            )
        } else {
            check(PatchView { queue: flow::rest(s.queue), ..s })
        },
        Stage::Cover => match flow::text_of(event) {
            Some(listing) => match files::cover_in(listing) {
                Some(index) => (
                    PatchView { stage: Stage::Extracting, index, ..s },
                    flow::quiet(
                        ActionView::Remux(files::extract_args(s.file, index, image_for(s.file))),
                    ),
                ),
                None => mux(s, None),
            },
            None => mux(s, None),
        },
        Stage::Extracting => if flow::flag_of(event) {
            (
                PatchView { stage: Stage::Extracted, ..s },
                flow::quiet(ActionView::IsFile(image_for(s.file))),
            )
        } else {
            give_up_cover(s)
        },
        Stage::Extracted => if flow::flag_of(event) {
            mux(s, Some((s.index, image_for(s.file))))
        } else {
            give_up_cover(s)
        },
        Stage::Uncovered => mux(s, None),
        Stage::Muxing => if flow::flag_of(event) {
            (
                PatchView { stage: Stage::Renaming, ..s },
                flow::quiet(ActionView::Rename { from: copy_for(s.file), to: s.file }),
            )
        } else {
            settle(s, false)
        },
        Stage::Renaming => settle(s, flow::error_of(event) is None),
        Stage::CoverDone => drop_copy(s),
        Stage::Dropping => discard(PatchView { left: track_files(s.arrived), ..s }),
        Stage::Discarding => discard(s),
    }
}

fn missing_picks(expected: &[Pick], embedded: &[String]) -> (r: Vec<Pick>)
    ensures
        subtitles::pick_views(r@) == missing_of(
            subtitles::pick_views(expected@),
            text::texts(embedded@),
        ),
{
    let ghost all = subtitles::pick_views(expected@);
    let ghost have = text::texts(embedded@);
    let ghost p = |p: PickView| lacking(p, have);
    let mut out: Vec<Pick> = Vec::new();
    let mut i: usize = 0;
    proof {
        reveal(Seq::filter);
        assert(all.take(0) =~= seq![]);
        assert(subtitles::pick_views(out@) =~= all.take(0).filter(p));
    }
    while i < expected.len()
        invariant
            i <= expected@.len(),
            all == subtitles::pick_views(expected@),
            have == text::texts(embedded@),
            p == |p: PickView| lacking(p, have),
            subtitles::pick_views(out@) == all.take(i as int).filter(p),
        decreases expected@.len() - i,
    {
        let ghost before = subtitles::pick_views(out@);
        proof {
            reveal(Seq::filter);
            assert(all.take(i + 1).drop_last() =~= all.take(i as int));
            assert(all.take(i + 1).last() == expected@[i as int]@);
        }
        let title = titles::subtitle_title(&expected[i]);
        if !title.as_str().is_empty() && !text::listed(embedded, title.as_str()) {
            out.push(expected[i].clone());
            assert(subtitles::pick_views(out@) =~= before.push(expected@[i as int]@));
        }
        i += 1;
    }
    assert(all.take(i as int) =~= all);
    out
}

fn keys_in(tracks: &[Track]) -> (r: Vec<String>)
    ensures
        text::texts(r@) == track_keys(files::track_views(tracks@)),
{
    let mut out: Vec<String> = Vec::new();
    let mut i: usize = 0;
    while i < tracks.len()
        invariant
            i <= tracks@.len(),
            out@.len() == i,
            forall|j: int| 0 <= j < i ==> (#[trigger] out@[j])@ == tracks@[j].pick.key@,
        decreases tracks@.len() - i,
    {
        out.push(tracks[i].pick.key.clone());
        i += 1;
    }
    assert(text::texts(out@) =~= track_keys(files::track_views(tracks@)));
    out
}

fn files_in(tracks: &[Track]) -> (r: Vec<String>)
    ensures
        text::texts(r@) == track_files(files::track_views(tracks@)),
{
    let mut out: Vec<String> = Vec::new();
    let mut i: usize = 0;
    while i < tracks.len()
        invariant
            i <= tracks@.len(),
            out@.len() == i,
            forall|j: int| 0 <= j < i ==> (#[trigger] out@[j])@ == tracks@[j].sidecar@,
        decreases tracks@.len() - i,
    {
        out.push(tracks[i].sidecar.clone());
        i += 1;
    }
    assert(text::texts(out@) =~= track_files(files::track_views(tracks@)));
    out
}

impl<'a> Patch<'a> {
    /// The patching of the tracks `expected` into the file of video `id` under `into`.
    pub fn new(
        into: String,
        id: String,
        url: String,
        expected: Vec<Pick>,
        env: Env<'a>,
        tools: &'a Tools,
    ) -> (r: Self)
        ensures
            r@ == (PatchView {
                into: into@,
                id: id@,
                url: url@,
                expected: subtitles::pick_views(expected@),
                env: env@,
                tools: tools@,
                stage: Stage::Start,
                file: seq![],
                count: 0,
                queue: seq![],
                arrived: seq![],
                index: 0,
                cover: None,
                ok: false,
                left: seq![],
            }),
    {
        let file = String::new();
        let queue: Vec<Pick> = Vec::new();
        let arrived: Vec<Track> = Vec::new();
        let left: Vec<String> = Vec::new();
        assert(file@ =~= seq![]);
        assert(subtitles::pick_views(queue@) =~= seq![]);
        assert(files::track_views(arrived@) =~= seq![]);
        assert(text::texts(left@) =~= seq![]);
        Patch {
            into,
            id,
            url,
            expected,
            env,
            tools,
            stage: Stage::Start,
            file,
            count: 0,
            queue,
            arrived,
            index: 0,
            cover: None,
            ok: false,
            left,
        }
    }

    fn image_path(&self) -> (r: String)
        ensures
            r@ == image_for(self@.file),
    {
        path::with_extension(self.file.as_str(), "cover-keep.jpg")
    }

    fn copy_path(&self) -> (r: String)
        ensures
            r@ == copy_for(self@.file),
    {
        path::with_extension(self.file.as_str(), "subbing.mkv")
    }

    fn end_content(&self, body: &str) -> (r: Reply)
        ensures
            (self@, r@) == content(self@, body@),
    {
        let shown = style::approved(body);
        flow::with_note(
            Note::Out(flow::about_video(self.id.as_str(), shown.as_str())),
            flow::finished(),
        )
    }

    fn end_skipped(&self, body: &str) -> (r: Reply)
        ensures
            (self@, r@) == skipped(self@, body@),
    {
        let shown = style::problematic(body);
        flow::with_note(
            Note::Out(flow::about_video(self.id.as_str(), shown.as_str())),
            flow::finished(),
        )
    }

    fn end_failed(&self, body: &str) -> (r: Reply)
        ensures
            (self@, r@) == failed(self@, body@),
    {
        let shown = style::problematic(body);
        flow::with_note(
            Note::Warn(flow::about_video(self.id.as_str(), shown.as_str())),
            flow::finished(),
        )
    }

    fn go_check(&mut self) -> (r: Reply)
        ensures
            (final(self)@, r@) == check(old(self)@),
    {
        if self.queue.len() > 0 {
            assert(subtitles::pick_views(self.queue@)[0] == self.queue@[0]@);
            self.stage = Stage::Checking;
            flow::silently(
                Action::IsFile(
                    files::subtitle_sidecar(
                        self.into.as_str(),
                        self.id.as_str(),
                        self.queue[0].key.as_str(),
                    ),
                ),
            )
        } else if self.arrived.len() == 0 {
            self.end_failed("no subtitles arrived (rate-limited?)")
        } else {
            self.stage = Stage::Cover;
            flow::silently(Action::Inspect(files::cover_probe(self.file.as_str())))
        }
    }

    fn go_mux(&mut self, cover: Option<(u32, String)>) -> (r: Reply)
        ensures
            (final(self)@, r@) == mux(old(self)@, files::cover_view(cover)),
    {
        let out = self.copy_path();
        let argv = files::mux_argv(
            self.file.as_str(),
            self.arrived.as_slice(),
            self.count,
            &cover,
            out.as_str(),
        );
        self.stage = Stage::Muxing;
        self.cover = cover;
        flow::silently(Action::Remux(argv))
    }

    fn go_give_up_cover(&mut self) -> (r: Reply)
        ensures
            (final(self)@, r@) == give_up_cover(old(self)@),
    {
        let image = self.image_path();
        self.stage = Stage::Uncovered;
        flow::silently(Action::Remove(image))
    }

    fn go_settle(&mut self, ok: bool) -> (r: Reply)
        ensures
            (final(self)@, r@) == settle(old(self)@, ok),
    {
        self.ok = ok;
        let image = match &self.cover {
            Some((_, image)) => Some(image.clone()),
            None => None,
        };
        match image {
            Some(image) => {
                self.stage = Stage::CoverDone;
                flow::silently(Action::Remove(image))
            },
            None => self.go_drop_copy(),
        }
    }

    fn go_drop_copy(&mut self) -> (r: Reply)
        ensures
            (final(self)@, r@) == drop_copy(old(self)@),
    {
        if self.ok {
            self.left = files_in(self.arrived.as_slice());
            self.go_discard()
        } else {
            let copy = self.copy_path();
            self.stage = Stage::Dropping;
            flow::silently(Action::Remove(copy))
        }
    }

    fn go_discard(&mut self) -> (r: Reply)
        ensures
            (final(self)@, r@) == discard(old(self)@),
    {
        if self.left.len() > 0 {
            let ghost before = text::texts(self.left@);
            let first = self.left.remove(0);
            assert(text::texts(self.left@) =~= before.drop_first());
            self.stage = Stage::Discarding;
            flow::silently(Action::Remove(first))
        } else if self.ok {
            let keys = keys_in(self.arrived.as_slice());
            let list = text::join(keys.as_slice(), ", ");
            let body = text::cat("embedded ", list.as_str());
            self.end_content(body.as_str())
        } else {
            self.end_failed("could not embed subtitles")
        }
    }

    fn has_listed(&mut self, listing: String) -> (r: Reply)
        ensures
            (final(self)@, r@) == listed(old(self)@, listing@),
    {
        let embedded = titles::subtitle_titles(listing.as_str());
        let missing = missing_picks(self.expected.as_slice(), embedded.as_slice());
        if missing.len() == 0 {
            if self.expected.len() == 0 {
                return self.end_content("no subtitles exist for this video — nothing to embed");
            }
            let count = number::decimal(self.expected.len() as u128);
            let body = text::cat3("all ", count.as_str(), " expected subtitle(s) already embedded");
            return self.end_content(body.as_str());
        }
        let keys = subtitles::pick_keys(missing.as_slice());
        let list = text::join(keys.as_slice(), ", ");
        let body = text::cat("missing subtitle(s): ", list.as_str());
        let shown = style::problematic(body.as_str());
        let note = flow::about_video(self.id.as_str(), shown.as_str());
        let argv = files::fetch_argv(
            self.url.as_str(),
            self.id.as_str(),
            keys.as_slice(),
            self.into.as_str(),
            self.env,
            self.tools,
        );
        self.stage = Stage::Fetching;
        self.count = titles::stream_count(listing.as_str());
        self.queue = missing;
        flow::with_note(Note::Out(note), Action::Ask(argv))
    }

    fn found(&mut self, event: Event) -> (r: Reply)
        requires
            old(self).stage == Stage::Finding,
        ensures
            (final(self)@, r@) == next(old(self)@, event@),
    {
        match event.into_file() {
            None => self.end_skipped("no file found — skipping"),
            Some(file) => {
                if !path::has_extension(file.as_str(), "mkv") {
                    return self.end_content("audio — subtitles kept as tags; nothing to patch");
                }
                let argv = files::tracks_probe(file.as_str());
                self.stage = Stage::Listing;
                self.file = file;
                flow::silently(Action::Inspect(argv))
            },
        }
    }

    fn checked(&mut self, event: Event) -> (r: Reply)
        requires
            old(self).stage == Stage::Checking,
        ensures
            (final(self)@, r@) == next(old(self)@, event@),
    {
        if self.queue.len() > 0 {
            let ghost queue = subtitles::pick_views(self.queue@);
            let ghost arrived = files::track_views(self.arrived@);
            let pick = self.queue.remove(0);
            assert(queue[0] == pick@);
            assert(subtitles::pick_views(self.queue@) =~= queue.drop_first());
            if event.flag() {
                let sidecar = files::subtitle_sidecar(
                    self.into.as_str(),
                    self.id.as_str(),
                    pick.key.as_str(),
                );
                let track = Track { pick, sidecar };
                let ghost seen = track@;
                self.arrived.push(track);
                assert(files::track_views(self.arrived@) =~= arrived.push(seen));
            }
        }
        self.go_check()
    }

    fn covered(&mut self, event: Event) -> (r: Reply)
        requires
            old(self).stage == Stage::Cover,
        ensures
            (final(self)@, r@) == next(old(self)@, event@),
    {
        match event.into_text() {
            Some(listing) => match files::attached_pic_stream_index(listing.as_str()) {
                Some(index) => {
                    let image = self.image_path();
                    let argv = files::extract_argv(self.file.as_str(), index, image.as_str());
                    self.stage = Stage::Extracting;
                    self.index = index;
                    flow::silently(Action::Remux(argv))
                },
                None => self.go_mux(None),
            },
            None => self.go_mux(None),
        }
    }

    /// Take in the outcome of the last action and say what comes next.
    pub fn step(&mut self, event: Event) -> (r: Reply)
        ensures
            (final(self)@, r@) == next(old(self)@, event@),
    {
        match self.stage {
            Stage::Start => {
                self.stage = Stage::Finding;
                let job = Job::Find { root: self.into.clone(), id: self.id.clone() };
                flow::silently(Action::Run(job))
            },
            Stage::Finding => self.found(event),
            Stage::Listing => match event.into_text() {
                None => self.end_skipped("could not read (ffprobe) — skipping"),
                Some(listing) => self.has_listed(listing),
            },
            Stage::Fetching => {
                if event.into_text().is_none() {
                    self.end_failed("could not fetch subtitles")
                } else {
                    self.go_check()
                }
            },
            Stage::Checking => self.checked(event),
            Stage::Cover => self.covered(event),
            Stage::Extracting => {
                if event.flag() {
                    let image = self.image_path();
                    self.stage = Stage::Extracted;
                    flow::silently(Action::IsFile(image))
                } else {
                    self.go_give_up_cover()
                }
            },
            Stage::Extracted => {
                if event.flag() {
                    let image = self.image_path();
                    let index: u32 = self.index;
                    self.go_mux(Some((index, image)))
                } else {
                    self.go_give_up_cover()
                }
            },
            Stage::Uncovered => self.go_mux(None),
            Stage::Muxing => {
                if event.flag() {
                    let copy = self.copy_path();
                    self.stage = Stage::Renaming;
                    flow::silently(Action::Rename { from: copy, to: self.file.clone() })
                } else {
                    self.go_settle(false)
                }
            },
            Stage::Renaming => {
                let ok = event.into_error().is_none();
                self.go_settle(ok)
            },
            Stage::CoverDone => self.go_drop_copy(),
            Stage::Dropping => {
                self.left = files_in(self.arrived.as_slice());
                self.go_discard()
            },
            Stage::Discarding => self.go_discard(),
        }
    }
}

/// Where the subtitle patch of a collection stands.
#[derive(Debug, PartialEq, Eq, Structural, Clone, Copy)]
pub enum CollectionStage {
    Start,
    /// The expected tracks of every entry are being asked for.
    Probing,
    /// An entry is being patched.
    Patching,
}

/// The subtitle patch of the entries at `indexes` of the collection `url`, whose files stand
/// under `home`; `plans` holds those that are still to be patched.
pub struct Collection<'a> {
    pub url: String,
    pub indexes: Vec<String>,
    pub home: String,
    pub env: Env<'a>,
    pub tools: &'a Tools,
    pub stage: CollectionStage,
    pub plans: Vec<Planned>,
}

/// A [`Collection`] with its texts as sequences of characters.
#[verifier::ext_equal]
pub struct CollectionView {
    pub url: Seq<char>,
    pub indexes: Seq<Seq<char>>,
    pub home: Seq<char>,
    pub env: EnvView,
    pub tools: ToolsView,
    pub stage: CollectionStage,
    pub plans: Seq<PlannedView>,
}

impl<'a> View for Collection<'a> {
    type V = CollectionView;

    open spec fn view(&self) -> CollectionView {
        CollectionView {
            url: self.url@,
            indexes: text::texts(self.indexes@),
            home: self.home@,
            env: self.env@,
            tools: self.tools@,
            stage: self.stage,
            plans: subtitles::planned_views(self.plans@),
        }
    }
}

/// The next plan's video is patched; after the last one the pass is over.
pub open spec fn patch_next(s: CollectionView) -> (CollectionView, ReplyView) {
    if s.plans.len() == 0 {
        (s, flow::quiet(flow::done()))
    } else {
        (
            CollectionView {
                stage: CollectionStage::Patching,
                plans: s.plans.drop_first(),
                ..s
            },
            flow::quiet(
                ActionView::Run(
                    JobView::Subtitles {
                        into: s.home,
                        id: s.plans[0].id,
                        url: "https://www.youtube.com/watch?v="@ + s.plans[0].id,
                        expected: s.plans[0].picks,
                    },
                ),
            ),
        )
    }
}

/// The next step of a collection's subtitle patch: one probe for every entry, then one patch to
/// each entry that it names.
pub open spec fn collection_next(s: CollectionView, event: EventView) -> (
    CollectionView,
    ReplyView,
) {
    match s.stage {
        CollectionStage::Start => if s.indexes.len() == 0 {
            (s, flow::quiet(flow::done()))
        } else {
            (
                CollectionView { stage: CollectionStage::Probing, ..s },
                flow::saying(
                    NoteView::Out(
                        "subtitles: scanning "@ + number::digits(s.indexes.len())
                            + " video(s)…"@,
                    ),
                    ActionView::Ask(
                        subtitles::batch_probe_args(s.url, s.indexes, s.env, s.tools),
                    ),
                ),
            )
        },
        CollectionStage::Probing => patch_next(
            CollectionView { plans: subtitles::batch_answer(flow::text_of(event)), ..s },
        ),
        CollectionStage::Patching => patch_next(s),
    }
}

impl<'a> Collection<'a> {
    /// The subtitle patch of the entries at `indexes` of the collection `url`.
    pub fn new(
        url: String,
        indexes: Vec<String>,
        home: String,
        env: Env<'a>,
        tools: &'a Tools,
    ) -> (r: Self)
        ensures
            r@ == (CollectionView {
                url: url@,
                indexes: text::texts(indexes@),
                home: home@,
                env: env@,
                tools: tools@,
                stage: CollectionStage::Start,
                plans: seq![],
            }),
    {
        let plans: Vec<Planned> = Vec::new();
        assert(subtitles::planned_views(plans@) =~= seq![]);
        Collection { url, indexes, home, env, tools, stage: CollectionStage::Start, plans }
    }

    fn go_patch(&mut self) -> (r: Reply)
        ensures
            (final(self)@, r@) == patch_next(old(self)@),
    {
        if self.plans.len() == 0 {
            return flow::silently(flow::finished());
        }
        let ghost before = subtitles::planned_views(self.plans@);
        let plan = self.plans.remove(0);
        assert(before[0] == plan@);
        assert(subtitles::planned_views(self.plans@) =~= before.drop_first());
        self.stage = CollectionStage::Patching;
        let url = text::cat("https://www.youtube.com/watch?v=", plan.id.as_str());
        flow::silently(
            Action::Run(
                Job::Subtitles { into: self.home.clone(), id: plan.id, url, expected: plan.picks },
            ),
        )
    }

    /// Take in the outcome of the last action and say what comes next.
    pub fn step(&mut self, event: Event) -> (r: Reply)
        ensures
            (final(self)@, r@) == collection_next(old(self)@, event@),
    {
        match self.stage {
            CollectionStage::Start => {
                if self.indexes.len() == 0 {
                    return flow::silently(flow::finished());
                }
                let count = number::decimal(self.indexes.len() as u128);
                let note = text::cat3("subtitles: scanning ", count.as_str(), " video(s)…");
                let argv = subtitles::batch_probe_argv(
                    self.url.as_str(),
                    self.indexes.as_slice(),
                    self.env,
                    self.tools,
                );
                self.stage = CollectionStage::Probing;
                flow::with_note(Note::Out(note), Action::Ask(argv))
            },
            CollectionStage::Probing => {
                let answer = event.into_text();
                self.plans = subtitles::parse_batch_answer(text::borrow(&answer));
                self.go_patch()
            },
            CollectionStage::Patching => self.go_patch(),
        }
    }
}

/// The actions with which a collection's patch answers events, one after the other.
pub open spec fn collection_run(s: CollectionView, events: Seq<EventView>) -> Seq<ActionView>
    decreases events.len(),
{
    if events.len() == 0 {
        seq![]
    } else {
        let (t, reply) = collection_next(s, events[0]);
        seq![reply.action] + collection_run(t, events.drop_first())
    }
}

/// The patch of one entry of a collection.
pub open spec fn entry_patch(home: Seq<char>, plan: PlannedView) -> ActionView {
    ActionView::Run(
        JobView::Subtitles {
            into: home,
            id: plan.id,
            url: "https://www.youtube.com/watch?v="@ + plan.id,
            expected: plan.picks,
        },
    )
}

proof fn lemma_plans_run_down(s: CollectionView, events: Seq<EventView>)
    requires
        s.stage == CollectionStage::Patching,
        events.len() == s.plans.len() + 1,
    ensures
        ({
            let run = collection_run(s, events);
            &&& run.len() == events.len()
            &&& forall|k: int|
                0 <= k < s.plans.len() ==> #[trigger] run[k] == entry_patch(s.home, s.plans[k])
            &&& run.last() == ActionView::Return(EventView::Done(None))
        }),
    decreases s.plans.len(),
{
    let (t, reply) = collection_next(s, events[0]);
    let run = collection_run(s, events);
    let later = collection_run(t, events.drop_first());
    assert(run =~= seq![reply.action] + later);
    if s.plans.len() > 0 {
        lemma_plans_run_down(t, events.drop_first());
        assert forall|k: int| 0 <= k < s.plans.len() implies #[trigger] run[k] == entry_patch(
            s.home,
            s.plans[k],
        ) by {
            if k > 0 {
                assert(run[k] == later[k - 1]);
                assert(t.plans[k - 1] == s.plans[k]);
            }
        }
        assert(run.last() == later.last());
    } else {
        assert(events.drop_first().len() == 0);
        assert(later.len() == 0);
    }
}

/// The patch of a collection leaves no entry out: after one probe of every position, each plan of
/// the answer is patched in turn, in its order, with its own id and tracks and in the collection's
/// folder, whatever became of those before it; only then does the pass return.
pub proof fn law_every_entry_of_a_collection_is_patched(
    s: CollectionView,
    answer: Option<Seq<char>>,
    events: Seq<EventView>,
)
    requires
        s.stage == CollectionStage::Start,
        s.indexes.len() > 0,
        events.len() == subtitles::batch_answer(answer).len() + 2,
        events[1] == EventView::Text(answer),
    ensures
        ({
            let plans = subtitles::batch_answer(answer);
            let run = collection_run(s, events);
            &&& run.len() == events.len()
            &&& run[0] == ActionView::Ask(
                subtitles::batch_probe_args(s.url, s.indexes, s.env, s.tools),
            )
            &&& forall|k: int|
                0 <= k < plans.len() ==> #[trigger] run[k + 1] == entry_patch(s.home, plans[k])
            &&& run.last() == ActionView::Return(EventView::Done(None))
        }),
{
    let plans = subtitles::batch_answer(answer);
    let (probing, asked) = collection_next(s, events[0]);
    let rest = events.drop_first();
    let run = collection_run(s, events);
    let later = collection_run(probing, rest);
    assert(rest[0] == events[1]);
    assert(run =~= seq![asked.action] + later);
    let patching = CollectionView { stage: CollectionStage::Patching, plans, ..s };
    assert(collection_next(probing, rest[0]).1 == collection_next(patching, rest[0]).1);
    if plans.len() > 0 {
        assert(collection_next(probing, rest[0]).0 == collection_next(patching, rest[0]).0);
    } else {
        assert(rest.drop_first().len() == 0);
        assert(collection_run(collection_next(probing, rest[0]).0, rest.drop_first()).len() == 0);
        assert(collection_run(collection_next(patching, rest[0]).0, rest.drop_first()).len() == 0);
    }
    assert(later =~= collection_run(patching, rest));
    lemma_plans_run_down(patching, rest);
    assert forall|k: int| 0 <= k < plans.len() implies #[trigger] run[k + 1] == entry_patch(
        s.home,
        plans[k],
    ) by {
        assert(run[k + 1] == later[k]);
    }
    assert(run.last() == later.last());
}

/// The pass over a collection returns only when no plan is left, and a step takes at most the
/// first plan off the list.
pub proof fn law_no_plan_is_left_out(s: CollectionView, event: EventView)
    requires
        s.stage == CollectionStage::Patching,
    ensures
        collection_next(s, event).1.action is Return <==> s.plans.len() == 0,
        s.plans.len() > 0 ==> collection_next(s, event).0 == (CollectionView {
            plans: s.plans.drop_first(),
            ..s
        }),
{
}

/// The patch can be repeated: a file whose tracks already carry the title of every expected track
/// that has one is left alone, and nothing is fetched for it.
pub proof fn law_complete_files_are_left_alone(s: PatchView, listing: Seq<char>)
    requires
        s.stage == Stage::Listing,
        forall|i: int|
            0 <= i < s.expected.len() ==> titles::title_of(#[trigger] s.expected[i]).len() == 0
                || titles::titles_in(listing).contains(titles::title_of(s.expected[i])),
    ensures
        next(s, EventView::Text(Some(listing))) == content(s, complete(s.expected)),
{
    let have = titles::titles_in(listing);
    let p = |p: PickView| lacking(p, have);
    assert forall|i: int| 0 <= i < s.expected.len() implies !p(#[trigger] s.expected[i]) by {}
    s.expected.lemma_all_neg_filter_empty(p);
}

/// Only what is missing is fetched, and all of it: an expected track is asked for exactly when it
/// has a title that no embedded track carries.
pub proof fn law_only_missing_tracks_are_fetched(
    expected: Seq<PickView>,
    embedded: Seq<Seq<char>>,
    pick: PickView,
)
    ensures
        missing_of(expected, embedded).contains(pick) <==> expected.contains(pick) && lacking(
            pick,
            embedded,
        ),
{
    let p = |p: PickView| lacking(p, embedded);
    let out = missing_of(expected, embedded);
    if out.contains(pick) {
        expected.lemma_filter_contains_rev(p, pick);
        let i = choose|i: int| 0 <= i < out.len() && out[i] == pick;
        expected.lemma_filter_pred(p, i);
    }
    if expected.contains(pick) && lacking(pick, embedded) {
        let i = choose|i: int| 0 <= i < expected.len() && expected[i] == pick;
        expected.lemma_filter_contains(p, i);
    }
}

/// Whether a patch that has come to its file has come to an mkv.
pub open spec fn on_mkv(s: PatchView) -> bool {
    s.stage == Stage::Start || s.stage == Stage::Finding || path::has_ext(s.file, "mkv"@)
}

/// Only mkv files are touched: the patch goes on past the search only with one, and what it puts
/// in a file's place, it puts in its place.
pub proof fn law_only_mkv_files_are_touched(s: PatchView, event: EventView)
    requires
        on_mkv(s),
    ensures
        on_mkv(next(s, event).0),
        next(s, event).1.action matches ActionView::Rename { from, to } ==> to == s.file
            && path::has_ext(to, "mkv"@),
{
}

/// A track that was added is recognized: once ffprobe lists it under the title that was written
/// for it, it is no longer missing.
pub proof fn law_added_tracks_are_recognized(pick: PickView, listing: Seq<char>)
    requires
        text::lines_of(listing).contains("TAG:title="@ + titles::title_of(pick)),
    ensures
        !lacking(pick, titles::titles_in(listing)),
{
    let lines = text::lines_of(listing);
    let title = titles::title_of(pick);
    let line = "TAG:title="@ + title;
    let f = |line: Seq<char>| titles::tag_title(line);
    assert(line.take("TAG:title="@.len() as int) =~= "TAG:title="@);
    assert(line.skip("TAG:title="@.len() as int) =~= title);
    assert(f(line) == Some(title));
    let i = choose|i: int| 0 <= i < lines.len() && lines[i] == line;
    lemma_found_by_filter_map(lines, f, i);
}

proof fn lemma_found_by_filter_map(
    v: Seq<Seq<char>>,
    f: spec_fn(Seq<char>) -> Option<Seq<char>>,
    i: int,
)
    requires
        0 <= i < v.len(),
        f(v[i]) is Some,
    ensures
        v.filter_map(f).contains(f(v[i]).unwrap()),
    decreases v.len(),
{
    reveal(Seq::filter_map);
    let prior = v.drop_last();
    let out = v.filter_map(f);
    let before = prior.filter_map(f);
    if i < prior.len() {
        assert(prior[i] == v[i]);
        lemma_found_by_filter_map(prior, f, i);
        let k = choose|k: int| 0 <= k < before.len() && before[k] == f(v[i]).unwrap();
        assert(out[k] == before[k]);
    } else {
        assert(out[out.len() - 1] == f(v[i]).unwrap());
    }
}

/// The actions with which the patch of a video answers events, one after the other, and the state
/// that it comes to.
pub open spec fn run(s: PatchView, events: Seq<EventView>) -> (PatchView, Seq<ActionView>)
    decreases events.len(),
{
    if events.len() == 0 {
        (s, seq![])
    } else {
        let (t, reply) = next(s, events[0]);
        let (end, later) = run(t, events.drop_first());
        (end, seq![reply.action] + later)
    }
}

/// Whether a track that is expected is missing: it has a title, and no embedded track carries it.
pub open spec fn is_missing(pick: PickView, listing: Seq<char>) -> bool {
    titles::title_of(pick).len() > 0 && !text::lines_of(listing).contains(
        "TAG:title="@ + titles::title_of(pick),
    )
}

/// The patch searches for the video's file, reads the tracks of an mkv, and fetches every expected
/// track that is missing, by its own key and into the patch's folder; it fetches nothing where
/// none is missing, and touches no other kind of file.
pub proof fn law_every_missing_track_is_fetched(
    s: PatchView,
    event: EventView,
    file: Seq<char>,
    listing: Seq<char>,
)
    ensures
        ({
            let done = ActionView::Return(EventView::Done(None));
            &&& s.stage == Stage::Start ==> next(s, event).1.action == ActionView::Run(
                JobView::Find { root: s.into, id: s.id },
            ) && next(s, event).0.stage == Stage::Finding
            &&& s.stage == Stage::Finding && path::has_ext(file, "mkv"@) ==> {
                let (t, reply) = next(s, EventView::Text(Some(file)));
                &&& reply.action == ActionView::Inspect(files::tracks_query(file))
                &&& t.file == file
                &&& t.stage == Stage::Listing
            }
            &&& s.stage == Stage::Finding && !path::has_ext(file, "mkv"@) ==> next(
                s,
                EventView::Text(Some(file)),
            ).1.action == done
            &&& s.stage == Stage::Finding || s.stage == Stage::Listing || s.stage
                == Stage::Fetching ==> next(s, EventView::Text(None)).1.action == done
            &&& s.stage == Stage::Listing ==> {
                let (t, reply) = next(s, EventView::Text(Some(listing)));
                let missing = s.expected.filter(|p: PickView| is_missing(p, listing));
                &&& missing.len() == 0 ==> reply.action == done
                &&& missing.len() > 0 ==> reply.action == ActionView::Ask(
                    files::fetch_args(
                        s.url,
                        s.id,
                        missing.map_values(|p: PickView| p.key),
                        s.into,
                        s.env,
                        s.tools,
                    ),
                ) && t.queue == missing && t.arrived == s.arrived && t.stage == Stage::Fetching
                    && t.count == text::lines_of(listing).filter(
                    |line: Seq<char>| "index="@.is_prefix_of(line),
                ).len()
            }
        }),
{
    let p = |p: PickView| is_missing(p, listing);
    let have = titles::titles_in(listing);
    let q = |p: PickView| lacking(p, have);
    assert(p =~= q) by {
        assert forall|pick: PickView| #[trigger] p(pick) == q(pick) by {
            titles::law_listed_titles_are_read(listing, titles::title_of(pick));
        }
    }
    titles::law_listed_titles_are_read(listing, seq![]);
}

/// The sidecar that a track of the patch is fetched into.
pub open spec fn fetched(s: PatchView, pick: PickView) -> Seq<char> {
    path::joined(s.into, ".dlsub-"@ + s.id + "."@ + pick.key + ".vtt"@)
}

/// The tracks that arrived, of those that were asked for.
pub open spec fn came(
    s: PatchView,
    queue: Seq<PickView>,
    answers: Seq<bool>,
) -> Seq<TrackView>
    decreases queue.len(),
{
    if queue.len() == 0 || answers.len() == 0 {
        seq![]
    } else if answers[0] {
        seq![TrackView { pick: queue[0], sidecar: fetched(s, queue[0]) }] + came(
            s,
            queue.drop_first(),
            answers.drop_first(),
        )
    } else {
        came(s, queue.drop_first(), answers.drop_first())
    }
}

proof fn lemma_came(s: PatchView, t: PatchView, queue: Seq<PickView>, answers: Seq<bool>)
    requires
        (s.into, s.id) == (t.into, t.id),
    ensures
        came(s, queue, answers) == came(t, queue, answers),
    decreases queue.len(),
{
    if queue.len() > 0 && answers.len() > 0 {
        lemma_came(s, t, queue.drop_first(), answers.drop_first());
    }
}

/// Every fetched track is looked for, and those that arrived are kept, all of them and in order;
/// with the last one seen to, the file is asked for its cover, or where none arrived, the patch
/// ends.
pub proof fn law_every_arrived_track_is_kept(s: PatchView, answers: Seq<bool>)
    requires
        s.stage == Stage::Checking,
        s.queue.len() > 0,
        answers.len() == s.queue.len(),
    ensures
        ({
            let events = answers.map_values(|arrived: bool| EventView::Flag(arrived));
            let (t, actions) = run(s, events);
            let kept = s.arrived + came(s, s.queue, answers);
            &&& actions.len() == answers.len()
            &&& forall|k: int|
                0 <= k < answers.len() - 1 ==> #[trigger] actions[k] == ActionView::IsFile(
                    fetched(s, s.queue[k + 1]),
                )
            &&& t.arrived == kept
            &&& (t.file, t.count) == (s.file, s.count)
            &&& kept.len() > 0 ==> actions.last() == ActionView::Inspect(
                files::cover_query(s.file),
            ) && t.stage == Stage::Cover
            &&& kept.len() == 0 ==> actions.last() == ActionView::Return(EventView::Done(None))
        }),
    decreases answers.len(),
{
    let f = |arrived: bool| EventView::Flag(arrived);
    let events = answers.map_values(f);
    let (t, reply) = next(s, events[0]);
    let rest = events.drop_first();
    let (end, later) = run(t, rest);
    let kept = s.arrived + came(s, s.queue, answers);
    assert(run(s, events).1 =~= seq![reply.action] + later);
    assert(events[0] == EventView::Flag(answers[0]));
    assert(rest =~= answers.drop_first().map_values(f));
    let others = came(s, s.queue.drop_first(), answers.drop_first());
    if answers[0] {
        assert(s.arrived.push(
            TrackView { pick: s.queue[0], sidecar: fetched(s, s.queue[0]) },
        ) + others =~= kept);
    }
    if answers.len() > 1 {
        law_every_arrived_track_is_kept(t, answers.drop_first());
        lemma_came(s, t, t.queue, answers.drop_first());
        assert forall|k: int| 0 <= k < answers.len() - 1 implies #[trigger] run(s, events).1[k]
            == ActionView::IsFile(fetched(s, s.queue[k + 1])) by {
            if k > 0 {
                assert(run(s, events).1[k] == later[k - 1]);
                assert(t.queue[k] == s.queue[k + 1]);
            }
        }
        assert(run(s, events).1.last() == later.last());
    } else {
        assert(others =~= seq![]);
        assert(kept =~= if answers[0] {
            s.arrived.push(TrackView { pick: s.queue[0], sidecar: fetched(s, s.queue[0]) })
        } else {
            s.arrived
        });
        assert(rest.len() == 0);
        assert(later.len() == 0);
    }
}

/// The fetch is followed by the first track's check. The tracks that arrived go into a copy of the
/// file, behind the tracks that were there; a cover that the file has is copied out first and
/// attached anew, or left as it is where it cannot be copied out. The copy takes the file's place.
pub proof fn law_arrived_tracks_go_into_a_copy(
    s: PatchView,
    event: EventView,
    answer: Seq<char>,
    listing: Seq<char>,
)
    ensures
        ({
            let image = path::with_ext(s.file, "cover-keep.jpg"@);
            let copy = path::with_ext(s.file, "subbing.mkv"@);
            let plain = ActionView::Remux(
                files::mux_args(s.file, s.arrived, s.count, None, copy),
            );
            let yes = EventView::Flag(true);
            let no = EventView::Flag(false);
            &&& s.stage == Stage::Fetching && s.queue.len() > 0 ==> next(
                s,
                EventView::Text(Some(answer)),
            ).1.action == ActionView::IsFile(fetched(s, s.queue[0])) && next(
                s,
                EventView::Text(Some(answer)),
            ).0 == (PatchView { stage: Stage::Checking, ..s })
            &&& s.stage == Stage::Cover ==> match files::cover_in(listing) {
                Some(index) => {
                    let (t, reply) = next(s, EventView::Text(Some(listing)));
                    &&& reply.action == ActionView::Remux(
                        files::extract_args(s.file, index, image),
                    )
                    &&& t.index == index
                    &&& t.stage == Stage::Extracting
                },
                None => next(s, EventView::Text(Some(listing))).1.action == plain && next(
                    s,
                    EventView::Text(Some(listing)),
                ).0.cover is None,
            }
            &&& s.stage == Stage::Cover ==> next(s, EventView::Text(None)).1.action == plain
            &&& s.stage == Stage::Extracting ==> next(s, yes).1.action == ActionView::IsFile(
                image,
            ) && next(s, no).1.action == ActionView::Remove(image) && next(s, yes).0.stage
                == Stage::Extracted && next(s, no).0.stage == Stage::Uncovered
            &&& s.stage == Stage::Extracted ==> next(s, yes).1.action == ActionView::Remux(
                files::mux_args(s.file, s.arrived, s.count, Some((s.index, image)), copy),
            ) && next(s, yes).0.cover == Some((s.index, image)) && next(s, no).1.action
                == ActionView::Remove(image) && next(s, no).0.stage == Stage::Uncovered
            &&& s.stage == Stage::Uncovered ==> next(s, event).1.action == plain && next(
                s,
                event,
            ).0.cover is None
            &&& s.stage == Stage::Muxing ==> next(s, yes).1.action == (ActionView::Rename {
                from: copy,
                to: s.file,
            }) && next(s, yes).0.stage == Stage::Renaming
        }),
{
}

/// What the patch put beside the file goes again: the cover that was copied out, then a copy that
/// did not work out, then every sidecar that arrived, one after the other.
pub proof fn law_the_patch_cleans_up(
    s: PatchView,
    event: EventView,
    error: Seq<char>,
    events: Seq<EventView>,
)
    ensures
        ({
            let copy = path::with_ext(s.file, "subbing.mkv"@);
            let no = EventView::Flag(false);
            &&& s.stage == Stage::Muxing || s.stage == Stage::Renaming ==> match s.cover {
                Some((_, image)) => {
                    &&& s.stage == Stage::Muxing ==> next(s, no).1.action == ActionView::Remove(
                        image,
                    ) && !next(s, no).0.ok
                    &&& s.stage == Stage::Renaming ==> next(s, EventView::Done(None)).1.action
                        == ActionView::Remove(image) && next(s, EventView::Done(None)).0.ok
                        && next(s, EventView::Done(Some(error))).1.action == ActionView::Remove(
                        image,
                    ) && !next(s, EventView::Done(Some(error))).0.ok
                },
                None => {
                    &&& s.stage == Stage::Muxing ==> next(s, no).1.action == ActionView::Remove(
                        copy,
                    )
                    &&& s.stage == Stage::Renaming ==> next(
                        s,
                        EventView::Done(Some(error)),
                    ).1.action == ActionView::Remove(copy)
                    &&& s.stage == Stage::Renaming && s.arrived.len() > 0 ==> next(
                        s,
                        EventView::Done(None),
                    ).1.action == ActionView::Remove(s.arrived[0].sidecar)
                },
            }
            &&& s.stage == Stage::CoverDone && !s.ok ==> next(s, event).1.action
                == ActionView::Remove(copy) && next(s, event).0.stage == Stage::Dropping
            &&& (s.stage == Stage::CoverDone && s.ok || s.stage == Stage::Dropping)
                && s.arrived.len() > 0 ==> {
                let (t, reply) = next(s, event);
                &&& reply.action == ActionView::Remove(s.arrived[0].sidecar)
                &&& t.left == s.arrived.drop_first().map_values(|k: TrackView| k.sidecar)
                &&& t.stage == Stage::Discarding
            }
            &&& s.stage == Stage::Discarding && events.len() == s.left.len() + 1 ==> {
                let actions = run(s, events).1;
                &&& actions.len() == events.len()
                &&& forall|k: int|
                    0 <= k < s.left.len() ==> #[trigger] actions[k] == ActionView::Remove(
                        s.left[k],
                    )
                &&& actions.last() == ActionView::Return(EventView::Done(None))
            }
        }),
    decreases events.len(),
{
    if s.arrived.len() > 0 {
        assert(track_files(s.arrived).drop_first() =~= s.arrived.drop_first().map_values(
            |k: TrackView| k.sidecar,
        ));
    }
    if s.stage == Stage::Discarding && events.len() == s.left.len() + 1 {
        let (t, reply) = next(s, events[0]);
        let rest = events.drop_first();
        let (end, later) = run(t, rest);
        let actions = run(s, events).1;
        assert(actions =~= seq![reply.action] + later);
        if s.left.len() > 0 {
            law_the_patch_cleans_up(t, event, error, rest);
            assert forall|k: int| 0 <= k < s.left.len() implies #[trigger] actions[k]
                == ActionView::Remove(s.left[k]) by {
                if k > 0 {
                    assert(actions[k] == later[k - 1]);
                    assert(t.left[k - 1] == s.left[k]);
                }
            }
            assert(actions.last() == later.last());
        } else {
            assert(rest.len() == 0);
            assert(later.len() == 0);
        }
    }
}

/// A collection without entries is not probed.
pub proof fn law_nothing_is_not_probed(s: CollectionView, event: EventView)
    requires
        s.stage == CollectionStage::Start,
    ensures
        collection_next(s, event).1.action == ActionView::Return(EventView::Done(None))
            <==> s.indexes.len() == 0,
{
}

/// The user learns which tracks are missing before they are fetched, and which were embedded; and
/// where nothing was to be done, that it was not.
pub proof fn law_the_user_learns_of_the_tracks(s: PatchView, listing: Seq<char>, event: EventView)
    ensures
        s.stage == Stage::Listing ==> {
            let missing = s.expected.filter(|p: PickView| is_missing(p, listing));
            let notes = next(s, EventView::Text(Some(listing))).1.notes;
            &&& missing.len() > 0 ==> notes == seq![
                NoteView::Out(
                    "  ["@ + s.id + "]: "@ + style::span(
                        "1;31"@,
                        "missing subtitle(s): "@ + text::joined(
                            missing.map_values(|p: PickView| p.key),
                            ", "@,
                        ),
                    ),
                ),
            ]
            &&& missing.len() == 0 && s.expected.len() > 0 ==> notes == seq![
                NoteView::Out(
                    "  ["@ + s.id + "]: "@ + style::span(
                        "1;32"@,
                        "all "@ + number::digits(s.expected.len())
                            + " expected subtitle(s) already embedded"@,
                    ),
                ),
            ]
        },
        s.stage == Stage::Discarding && s.left.len() == 0 ==> next(s, event).1.notes == seq![
            if s.ok {
                NoteView::Out(
                    "  ["@ + s.id + "]: "@ + style::span(
                        "1;32"@,
                        "embedded "@ + text::joined(
                            s.arrived.map_values(|t: TrackView| t.pick.key),
                            ", "@,
                        ),
                    ),
                )
            } else {
                NoteView::Warn(
                    "  ["@ + s.id + "]: "@ + style::span(
                        "1;31"@,
                        "could not embed subtitles"@,
                    ),
                )
            },
        ],
{
    let p = |p: PickView| is_missing(p, listing);
    let have = titles::titles_in(listing);
    let q = |p: PickView| lacking(p, have);
    assert(p =~= q) by {
        assert forall|pick: PickView| #[trigger] p(pick) == q(pick) by {
            titles::law_listed_titles_are_read(listing, titles::title_of(pick));
        }
    }
}

} // verus!
