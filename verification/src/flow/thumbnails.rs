//! The cover-art pass: which videos lack a thumbnail is reported first, then only those get one.

use vstd::prelude::*;
use vstd::string::*;
use crate::flow;
use crate::flow::{
    Action,
    ActionView,
    Event,
    EventView,
    Job,
    JobView,
    Note,
    NoteView,
    Reply,
    ReplyView,
};
use crate::media::files;
use crate::util::number;
use crate::util::path;
use crate::util::style;
use crate::util::text;

verus! {

/// Where a cover-art pass stands.
#[derive(Debug, PartialEq, Eq, Structural, Clone, Copy)]
pub enum Stage {
    Start,
    /// The first video's file is being searched for.
    Finding,
    /// Whether it has a cover is being read.
    Inspecting,
    /// The first missing thumbnail is being fetched, in the better quality.
    FetchingBest,
    /// It is being fetched in the quality that is always there.
    FetchingPlain,
    /// A copy with the cover attached is being made.
    Attaching,
    /// The copy is taking the file's place.
    Renaming,
    /// A copy that did not work out is being removed.
    Dropping,
    /// The fetched image is being removed.
    Cleaning,
}

/// The cover-art pass over videos under `dir`. `ids` holds those that are still to be looked at,
/// `missing` those that lack a cover, each with its file; `file` is the one being looked at, and
/// `ok` says whether the last cover is in.
pub struct Thumbnails {
    pub dir: String,
    pub ids: Vec<String>,
    pub missing: Vec<(String, String)>,
    pub stage: Stage,
    pub file: String,
    pub ok: bool,
}

/// A [`Thumbnails`] with its texts as sequences of characters.
#[verifier::ext_equal]
pub struct ThumbnailsView {
    pub dir: Seq<char>,
    pub ids: Seq<Seq<char>>,
    pub missing: Seq<(Seq<char>, Seq<char>)>,
    pub stage: Stage,
    pub file: Seq<char>,
    pub ok: bool,
}

impl View for Thumbnails {
    type V = ThumbnailsView;

    open spec fn view(&self) -> ThumbnailsView {
        ThumbnailsView {
            dir: self.dir@,
            ids: text::texts(self.ids@),
            missing: flow::pair_views(self.missing@),
            stage: self.stage,
            file: self.file@,
            ok: self.ok,
        }
    }
}

/// Where the image for a video's cover is fetched to.
pub open spec fn image_for(file: Seq<char>) -> Seq<char> {
    path::with_ext(file, "cover.jpg"@)
}

/// The copy of a video that gets the cover.
pub open spec fn copy_for(file: Seq<char>) -> Seq<char> {
    path::with_ext(file, "thumbing.mkv"@)
}

fn image_path(file: &str) -> (r: String)
    ensures
        r@ == image_for(file@),
{
    path::with_extension(file, "cover.jpg")
}

fn copy_path(file: &str) -> (r: String)
    ensures
        r@ == copy_for(file@),
{
    path::with_extension(file, "thumbing.mkv")
}

/// The next video is looked for; after the last one the missing covers are fetched.
pub open spec fn look(s: ThumbnailsView) -> (ThumbnailsView, ReplyView) {
    if s.ids.len() > 0 {
        (
            ThumbnailsView { stage: Stage::Finding, ..s },
            flow::quiet(ActionView::Run(JobView::Find { root: s.dir, id: s.ids[0] })),
        )
    } else if s.missing.len() == 0 {
        (
            s,
            flow::saying(
                NoteView::Out("thumbnails: all present — nothing to embed"@),
                flow::done(),
            ),
        )
    } else {
        let (t, reply) = embed(s);
        (
            t,
            flow::after(
                seq![
                    NoteView::Out(
                        "thumbnails: fetching + embedding "@ + number::digits(s.missing.len())
                            + " …"@,
                    ),
                ],
                reply,
            ),
        )
    }
}

/// The next missing cover is fetched; after the last one the pass is over.
pub open spec fn embed(s: ThumbnailsView) -> (ThumbnailsView, ReplyView) {
    if s.missing.len() > 0 {
        (
            ThumbnailsView { stage: Stage::FetchingBest, ..s },
            flow::quiet(
                ActionView::Fetch(
                    files::thumbnail_args(
                        s.missing[0].0,
                        "maxresdefault"@,
                        image_for(s.missing[0].1),
                    ),
                ),
            ),
        )
    } else {
        (s, flow::quiet(flow::done()))
    }
}

/// The first video has been looked at, and this is what there is to say of it.
pub open spec fn looked(s: ThumbnailsView, body: Seq<char>) -> (ThumbnailsView, ReplyView) {
    let (t, reply) = look(ThumbnailsView { ids: flow::rest(s.ids), ..s });
    (t, flow::after(seq![NoteView::Out(flow::about(flow::head(s.ids), body))], reply))
}

/// The fetched image goes, whatever became of the cover.
pub open spec fn clean(s: ThumbnailsView, ok: bool) -> (ThumbnailsView, ReplyView) {
    (
        ThumbnailsView { stage: Stage::Cleaning, ok, ..s },
        flow::quiet(ActionView::Remove(image_for(flow::head_pair(s.missing).1))),
    )
}

/// The copy that did not work out goes.
pub open spec fn drop_copy(s: ThumbnailsView) -> (ThumbnailsView, ReplyView) {
    (
        ThumbnailsView { stage: Stage::Dropping, ..s },
        flow::quiet(ActionView::Remove(copy_for(flow::head_pair(s.missing).1))),
    )
}

/// A copy with the fetched image attached is made.
pub open spec fn attach(s: ThumbnailsView) -> (ThumbnailsView, ReplyView) {
    let file = flow::head_pair(s.missing).1;
    (
        ThumbnailsView { stage: Stage::Attaching, ..s },
        flow::quiet(ActionView::Remux(files::attach_args(file, image_for(file), copy_for(file)))),
    )
}

/// The next step of a cover-art pass.
pub open spec fn next(s: ThumbnailsView, event: EventView) -> (ThumbnailsView, ReplyView) {
    let file = flow::head_pair(s.missing).1;
    match s.stage {
        Stage::Start => if s.ids.len() == 0 {
            (s, flow::quiet(flow::done()))
        } else {
            let (t, reply) = look(s);
            (
                t,
                flow::after(
                    seq![
                        NoteView::Out(
                            "thumbnails: scanning "@ + number::digits(s.ids.len())
                                + " video(s)…"@,
                        ),
                    ],
                    reply,
                ),
            )
        },
        Stage::Finding => match flow::file_of(event) {
            None => looked(s, style::span("1;31"@, "no file found — skipping"@)),
            Some(file) => if !path::has_ext(file, "mkv"@) {
                looked(
                    s,
                    style::span(
                        "1;31"@,
                        "not an mkv — cover art embeds into video (mkv) only; skipping"@,
                    ),
                )
            } else {
                (
                    ThumbnailsView { stage: Stage::Inspecting, file, ..s },
                    flow::quiet(ActionView::Inspect(files::cover_query(file))),
                )
            },
        },
        Stage::Inspecting => match flow::text_of(event) {
            None => looked(s, style::span("1;31"@, "could not read (ffprobe) — skipping"@)),
            Some(listing) => if files::cover_in(listing) is Some {
                looked(s, style::span("1;32"@, "already has a thumbnail"@))
            } else {
                looked(
                    ThumbnailsView {
                        missing: s.missing.push((flow::head(s.ids), s.file)),
                        ..s
                    },
                    style::span("1;31"@, "missing a thumbnail"@),
                )
            },
        },
        Stage::FetchingBest => if flow::flag_of(event) {
            attach(s)
        } else {
            (
                ThumbnailsView { stage: Stage::FetchingPlain, ..s },
                flow::quiet(
                    ActionView::Fetch(
                        files::thumbnail_args(
                            flow::head_pair(s.missing).0,
                            "hqdefault"@,
                            image_for(file),
                        ),
                    ),
                ),
            )
        },
        Stage::FetchingPlain => if flow::flag_of(event) {
            attach(s)
        } else {
            clean(s, false)
        },
        Stage::Attaching => if flow::flag_of(event) {
            (
                ThumbnailsView { stage: Stage::Renaming, ..s },
                flow::quiet(ActionView::Rename { from: copy_for(file), to: file }),
            )
        } else {
            drop_copy(s)
        },
        Stage::Renaming => if flow::error_of(event) is None {
            clean(s, true)
        } else {
            drop_copy(s)
        },
        Stage::Dropping => clean(s, false),
        Stage::Cleaning => {
            let id = flow::head_pair(s.missing).0;
            let note = if s.ok {
                NoteView::Out(flow::about(id, style::span("1;32"@, "embedded"@)))
            } else {
                NoteView::Warn(
                    flow::about(id, style::span("1;31"@, "could not embed a thumbnail"@)),
                )
            };
            let (t, reply) = embed(ThumbnailsView { missing: flow::rest(s.missing), ..s });
            (t, flow::after(seq![note], reply))
        },
    }
}

impl Thumbnails {
    /// The cover-art pass over the videos `ids` under `dir`.
    pub fn new(dir: String, ids: Vec<String>) -> (r: Self)
        ensures
            r@ == (ThumbnailsView {
                dir: dir@,
                ids: text::texts(ids@),
                missing: seq![],
                stage: Stage::Start,
                file: seq![],
                ok: false,
            }),
    {
        let missing: Vec<(String, String)> = Vec::new();
        let file = String::new();
        assert(flow::pair_views(missing@) =~= seq![]);
        assert(file@ =~= seq![]);
        Thumbnails { dir, ids, missing, stage: Stage::Start, file, ok: false }
    }

    fn go_look(&mut self) -> (r: Reply)
        ensures
            (final(self)@, r@) == look(old(self)@),
    {
        if self.ids.len() > 0 {
            self.stage = Stage::Finding;
            assert(text::texts(self.ids@)[0] == self.ids@[0]@);
            let job = Job::Find { root: self.dir.clone(), id: self.ids[0].clone() };
            flow::silently(Action::Run(job))
        } else if self.missing.len() == 0 {
            let note = "thumbnails: all present — nothing to embed".to_owned();
            flow::with_note(Note::Out(note), flow::finished())
        } else {
            let count = number::decimal(self.missing.len() as u128);
            let note = text::cat3("thumbnails: fetching + embedding ", count.as_str(), " …");
            let reply = self.go_embed();
            flow::note_first(Note::Out(note), reply)
        }
    }

    fn go_embed(&mut self) -> (r: Reply)
        ensures
            (final(self)@, r@) == embed(old(self)@),
    {
        if self.missing.len() > 0 {
            self.stage = Stage::FetchingBest;
            assert(flow::pair_views(self.missing@)[0] == (
                self.missing@[0].0@,
                self.missing@[0].1@,
            ));
            let image = image_path(self.missing[0].1.as_str());
            flow::silently(
                Action::Fetch(
                    files::thumbnail_argv(
                        self.missing[0].0.as_str(),
                        "maxresdefault",
                        image.as_str(),
                    ),
                ),
            )
        } else {
            flow::silently(flow::finished())
        }
    }

    fn has_looked(&mut self, body: String) -> (r: Reply)
        ensures
            (final(self)@, r@) == looked(old(self)@, body@),
    {
        let id = flow::first_of(self.ids.as_slice());
        let note = flow::about_video(id.as_str(), body.as_str());
        flow::drop_first(&mut self.ids);
        let reply = self.go_look();
        flow::note_first(Note::Out(note), reply)
    }

    fn go_clean(&mut self, ok: bool) -> (r: Reply)
        ensures
            (final(self)@, r@) == clean(old(self)@, ok),
    {
        let (_, file) = flow::first_pair(self.missing.as_slice());
        self.stage = Stage::Cleaning;
        self.ok = ok;
        flow::silently(Action::Remove(image_path(file.as_str())))
    }

    fn go_drop(&mut self) -> (r: Reply)
        ensures
            (final(self)@, r@) == drop_copy(old(self)@),
    {
        let (_, file) = flow::first_pair(self.missing.as_slice());
        self.stage = Stage::Dropping;
        flow::silently(Action::Remove(copy_path(file.as_str())))
    }

    fn go_attach(&mut self) -> (r: Reply)
        ensures
            (final(self)@, r@) == attach(old(self)@),
    {
        let (_, file) = flow::first_pair(self.missing.as_slice());
        let image = image_path(file.as_str());
        let copy = copy_path(file.as_str());
        self.stage = Stage::Attaching;
        flow::silently(
            Action::Remux(files::attach_argv(file.as_str(), image.as_str(), copy.as_str())),
        )
    }

    fn found(&mut self, event: Event) -> (r: Reply)
        requires
            old(self).stage == Stage::Finding,
        ensures
            (final(self)@, r@) == next(old(self)@, event@),
    {
        match event.into_file() {
            None => self.has_looked(style::problematic("no file found — skipping")),
            Some(file) => {
                if !path::has_extension(file.as_str(), "mkv") {
                    return self.has_looked(
                        style::problematic(
                            "not an mkv — cover art embeds into video (mkv) only; skipping",
                        ),
                    );
                }
                let argv = files::cover_probe(file.as_str());
                self.stage = Stage::Inspecting;
                self.file = file;
                flow::silently(Action::Inspect(argv))
            },
        }
    }

    fn inspected(&mut self, event: Event) -> (r: Reply)
        requires
            old(self).stage == Stage::Inspecting,
        ensures
            (final(self)@, r@) == next(old(self)@, event@),
    {
        match event.into_text() {
            None => self.has_looked(style::problematic("could not read (ffprobe) — skipping")),
            Some(listing) => {
                if files::attached_pic_stream_index(listing.as_str()).is_some() {
                    self.has_looked(style::approved("already has a thumbnail"))
                } else {
                    let ghost before = flow::pair_views(self.missing@);
                    let id = flow::first_of(self.ids.as_slice());
                    self.missing.push((id, self.file.clone()));
                    assert(flow::pair_views(self.missing@) =~= before.push((id@, self.file@)));
                    self.has_looked(style::problematic("missing a thumbnail"))
                }
            },
        }
    }

    fn cleaned(&mut self) -> (r: Reply)
        requires
            old(self).stage == Stage::Cleaning,
        ensures
            forall|event: EventView| (final(self)@, r@) == #[trigger] next(old(self)@, event),
    {
        let (id, _) = flow::first_pair(self.missing.as_slice());
        let note = if self.ok {
            let body = style::approved("embedded");
            Note::Out(flow::about_video(id.as_str(), body.as_str()))
        } else {
            let body = style::problematic("could not embed a thumbnail");
            Note::Warn(flow::about_video(id.as_str(), body.as_str()))
        };
        flow::drop_first_pair(&mut self.missing);
        let reply = self.go_embed();
        flow::note_first(note, reply)
    }

    /// Take in the outcome of the last action and say what comes next.
    pub fn step(&mut self, event: Event) -> (r: Reply)
        ensures
            (final(self)@, r@) == next(old(self)@, event@),
    {
        match self.stage {
            Stage::Start => {
                if self.ids.len() == 0 {
                    return flow::silently(flow::finished());
                }
                let count = number::decimal(self.ids.len() as u128);
                let note = text::cat3("thumbnails: scanning ", count.as_str(), " video(s)…");
                let reply = self.go_look();
                flow::note_first(Note::Out(note), reply)
            },
            Stage::Finding => self.found(event),
            Stage::Inspecting => self.inspected(event),
            Stage::FetchingBest => {
                if event.flag() {
                    return self.go_attach();
                }
                let (id, file) = flow::first_pair(self.missing.as_slice());
                let image = image_path(file.as_str());
                self.stage = Stage::FetchingPlain;
                flow::silently(
                    Action::Fetch(
                        files::thumbnail_argv(id.as_str(), "hqdefault", image.as_str()),
                    ),
                )
            },
            Stage::FetchingPlain => {
                if event.flag() {
                    self.go_attach()
                } else {
                    self.go_clean(false)
                }
            },
            Stage::Attaching => {
                if event.flag() {
                    let (_, file) = flow::first_pair(self.missing.as_slice());
                    self.stage = Stage::Renaming;
                    flow::silently(
                        Action::Rename { from: copy_path(file.as_str()), to: file },
                    )
                } else {
                    self.go_drop()
                }
            },
            Stage::Renaming => {
                if event.into_error().is_none() {
                    self.go_clean(true)
                } else {
                    self.go_drop()
                }
            },
            Stage::Dropping => self.go_clean(false),
            Stage::Cleaning => self.cleaned(),
        }
    }
}

/// Whether the pass holds only mkv files: those that lack a cover, and the one being looked at.
pub open spec fn only_mkv(s: ThumbnailsView) -> bool {
    &&& forall|i: int|
        0 <= i < s.missing.len() ==> path::has_ext((#[trigger] s.missing[i]).1, "mkv"@)
    &&& s.stage == Stage::Inspecting ==> path::has_ext(s.file, "mkv"@)
    &&& s.stage == Stage::FetchingBest || s.stage == Stage::FetchingPlain || s.stage
        == Stage::Attaching || s.stage == Stage::Renaming ==> s.missing.len() > 0
}

/// Only mkv files are touched: the pass never comes to hold another file, and what it puts in a
/// file's place, it puts in the place of an mkv that lacks a cover.
pub proof fn law_only_mkv_files_are_touched(s: ThumbnailsView, event: EventView)
    requires
        only_mkv(s),
    ensures
        only_mkv(next(s, event).0),
        next(s, event).1.action matches ActionView::Rename { from, to } ==> s.missing.len() > 0
            && to == s.missing[0].1 && path::has_ext(to, "mkv"@),
{
    let t = next(s, event).0;
    assert forall|i: int| 0 <= i < t.missing.len() implies path::has_ext(
        (#[trigger] t.missing[i]).1,
        "mkv"@,
    ) by {
        if s.stage == Stage::Cleaning && s.missing.len() > 0 {
            assert(t.missing[i] == s.missing[i + 1]);
        } else if i < s.missing.len() {
            assert(t.missing[i] == s.missing[i]);
        }
    }
    if s.missing.len() > 0 {
        assert(path::has_ext(s.missing[0].1, "mkv"@));
    }
}

/// The pass can be repeated: a file that has a cover is left alone.
pub proof fn law_covered_files_are_left_alone(s: ThumbnailsView, listing: Seq<char>)
    requires
        s.stage == Stage::Inspecting,
        files::cover_in(listing) is Some,
    ensures
        next(s, EventView::Text(Some(listing))).0.missing == s.missing,
{
}

/// The search for a video's file.
pub open spec fn search(s: ThumbnailsView, id: Seq<char>) -> ActionView {
    ActionView::Run(JobView::Find { root: s.dir, id })
}

/// The fetch of a missing cover: the best quality first.
pub open spec fn best_fetch(missing: (Seq<char>, Seq<char>)) -> ActionView {
    ActionView::Fetch(
        files::thumbnail_args(
            missing.0,
            "maxresdefault"@,
            path::with_ext(missing.1, "cover.jpg"@),
        ),
    )
}

/// Whether a step goes on to the next video, or with the last one looked at to the first cover
/// that is missing, or to the end where none is.
pub open spec fn is_next_look(
    ids: Seq<Seq<char>>,
    missing: Seq<(Seq<char>, Seq<char>)>,
    s: ThumbnailsView,
    t: ThumbnailsView,
    action: ActionView,
) -> bool {
    &&& (t.ids, t.missing) == (ids, missing)
    &&& action == (if ids.len() > 0 {
        search(s, ids[0])
    } else if missing.len() > 0 {
        best_fetch(missing[0])
    } else {
        ActionView::Return(EventView::Done(None))
    })
    &&& ids.len() > 0 ==> t.stage == Stage::Finding
    &&& ids.len() == 0 && missing.len() > 0 ==> t.stage == Stage::FetchingBest
}

/// Every video of the pass is looked at, in order: its file is searched for, an mkv is asked for
/// its cover, and what has none is noted with its file. A video without a file, one that is no
/// mkv and one that cannot be read are passed over, and those behind them are still looked at.
pub proof fn law_every_video_is_looked_at(
    s: ThumbnailsView,
    event: EventView,
    file: Seq<char>,
    listing: Seq<char>,
)
    requires
        s.ids.len() > 0,
    ensures
        s.stage == Stage::Start && s.missing.len() == 0 ==> is_next_look(
            s.ids,
            s.missing,
            s,
            next(s, event).0,
            next(s, event).1.action,
        ),
        s.stage == Stage::Finding && path::has_ext(file, "mkv"@) ==> {
            let (t, reply) = next(s, EventView::Text(Some(file)));
            &&& reply.action == ActionView::Inspect(files::cover_query(file))
            &&& t == (ThumbnailsView { stage: Stage::Inspecting, file, ..s })
        },
        s.stage == Stage::Finding && !path::has_ext(file, "mkv"@) ==> is_next_look(
            s.ids.drop_first(),
            s.missing,
            s,
            next(s, EventView::Text(Some(file))).0,
            next(s, EventView::Text(Some(file))).1.action,
        ),
        s.stage == Stage::Finding || s.stage == Stage::Inspecting ==> is_next_look(
            s.ids.drop_first(),
            s.missing,
            s,
            next(s, EventView::Text(None)).0,
            next(s, EventView::Text(None)).1.action,
        ),
        s.stage == Stage::Inspecting ==> is_next_look(
            s.ids.drop_first(),
            if files::cover_in(listing) is Some {
                s.missing
            } else {
                s.missing.push((s.ids[0], s.file))
            },
            s,
            next(s, EventView::Text(Some(listing))).0,
            next(s, EventView::Text(Some(listing))).1.action,
        ),
{
}

/// A pass over no video does nothing.
pub proof fn law_a_pass_over_nothing_returns(s: ThumbnailsView, event: EventView)
    requires
        s.stage == Stage::Start,
        s.ids.len() == 0,
    ensures
        next(s, event).1.action == ActionView::Return(EventView::Done(None)),
        next(s, event).1.notes.len() == 0,
{
}

/// A missing cover is fetched in the best quality, or else in the one that is always there, and
/// attached to a copy, which takes the file's place; whatever fails on the way, the copy and the
/// image go, and the file stays as it was.
pub proof fn law_a_missing_cover_is_attached(s: ThumbnailsView, event: EventView, error: Seq<char>)
    requires
        s.missing.len() > 0,
    ensures
        ({
            let (id, file) = s.missing[0];
            let image = path::with_ext(file, "cover.jpg"@);
            let copy = path::with_ext(file, "thumbing.mkv"@);
            let attach = ActionView::Remux(files::attach_args(file, image, copy));
            let yes = EventView::Flag(true);
            let no = EventView::Flag(false);
            &&& s.stage == Stage::FetchingBest ==> next(s, yes).1.action == attach && next(
                s,
                no,
            ).1.action == ActionView::Fetch(files::thumbnail_args(id, "hqdefault"@, image))
                && next(s, yes).0.stage == Stage::Attaching && next(s, no).0.stage
                == Stage::FetchingPlain
            &&& s.stage == Stage::FetchingPlain ==> next(s, yes).1.action == attach && next(
                s,
                no,
            ).1.action == ActionView::Remove(image) && next(s, yes).0.stage == Stage::Attaching
                && next(s, no).0.stage == Stage::Cleaning && !next(s, no).0.ok
            &&& s.stage == Stage::Attaching ==> next(s, yes).1.action == (ActionView::Rename {
                from: copy,
                to: file,
            }) && next(s, no).1.action == ActionView::Remove(copy) && next(s, yes).0.stage
                == Stage::Renaming && next(s, no).0.stage == Stage::Dropping
            &&& s.stage == Stage::Renaming ==> next(s, EventView::Done(None)).1.action
                == ActionView::Remove(image) && next(s, EventView::Done(None)).0.ok && next(
                s,
                EventView::Done(Some(error)),
            ).1.action == ActionView::Remove(copy) && next(
                s,
                EventView::Done(Some(error)),
            ).0.stage == Stage::Dropping
            &&& s.stage == Stage::Dropping ==> next(s, event).1.action == ActionView::Remove(
                image,
            ) && !next(s, event).0.ok && next(s, event).0.stage == Stage::Cleaning
        }),
{
}

/// No missing cover is left out: once the image of one is gone, the next one is fetched, and the
/// pass returns only after the last.
pub proof fn law_no_missing_cover_is_left_out(s: ThumbnailsView, event: EventView)
    requires
        s.stage == Stage::Cleaning,
        s.missing.len() > 0,
    ensures
        next(s, event).0.missing == s.missing.drop_first(),
        s.missing.len() > 1 ==> next(s, event).1.action == best_fetch(s.missing[1]) && next(
            s,
            event,
        ).0.stage == Stage::FetchingBest,
        s.missing.len() == 1 ==> next(s, event).1.action == ActionView::Return(
            EventView::Done(None),
        ),
{
}

} // verus!
