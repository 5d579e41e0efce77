//! The subtitle tracks each video should have, chosen from what exists: the uploader's own
//! languages, the native one and English.

use vstd::prelude::*;
use vstd::string::*;
use crate::env::{Env, EnvView};
use crate::media::captions;
use crate::tools::{Tools, ToolsView};
use crate::util::text;
use crate::ytdlp;

verus! {

/// One subtitle track the plan requests: its yt-dlp language key, YouTube's display name for it,
/// and whether it is auto-generated rather than the uploader's.
#[derive(Debug, PartialEq)]
pub struct Pick {
    pub key: String,
    pub name: String,
    pub auto: bool,
}

/// A [`Pick`] with its texts as sequences of characters.
pub struct PickView {
    pub key: Seq<char>,
    pub name: Seq<char>,
    pub auto: bool,
}

impl View for Pick {
    type V = PickView;

    open spec fn view(&self) -> PickView {
        PickView { key: self.key@, name: self.name@, auto: self.auto }
    }
}

impl Clone for Pick {
    fn clone(&self) -> (r: Self)
        ensures
            r == *self,
    {
        Pick { key: self.key.clone(), name: self.name.clone(), auto: self.auto }
    }
}

/// The views of picks.
pub open spec fn pick_views(v: Seq<Pick>) -> Seq<PickView> {
    v.map_values(|p: Pick| p@)
}

/// The language keys of picks.
pub open spec fn keys_of(picks: Seq<PickView>) -> Seq<Seq<char>> {
    picks.map_values(|p: PickView| p.key)
}

/// The language keys of picks.
pub fn pick_keys(picks: &[Pick]) -> (r: Vec<String>)
    ensures
        text::texts(r@) == keys_of(pick_views(picks@)),
{
    let mut out: Vec<String> = Vec::new();
    let mut i: usize = 0;
    while i < picks.len()
        invariant
            i <= picks@.len(),
            text::texts(out@) =~= keys_of(pick_views(picks@)).take(i as int),
        decreases picks@.len() - i,
    {
        text::put(&mut out, picks[i].key.as_str());
        i += 1;
    }
    assert(keys_of(pick_views(picks@)).take(i as int) =~= keys_of(pick_views(picks@)));
    out
}

/// A list of picks, once more.
pub fn copy_picks(picks: &[Pick]) -> (r: Vec<Pick>)
    ensures
        r@ == picks@,
{
    let mut out: Vec<Pick> = Vec::new();
    let mut i: usize = 0;
    while i < picks.len()
        invariant
            i <= picks@.len(),
            out@ =~= picks@.take(i as int),
        decreases picks@.len() - i,
    {
        out.push(picks[i].clone());
        i += 1;
    }
    out
}

/// The language that a key belongs to: its part before the first hyphen, in small letters.
pub open spec fn base_lang(key: Seq<char>) -> Seq<char> {
    text::lowercase(text::before_any(key, "-"@))
}

/// The language that a key belongs to.
pub fn base_of(key: &str) -> (r: String)
    ensures
        r@ == base_lang(key@),
{
    let part = text::up_to(key, "-");
    text::to_lowercase(part.as_str())
}

/// The name that the first entry from `i` on with this key carries.
pub open spec fn name_from(list: captions::Named, key: Seq<char>, i: int) -> Option<Seq<char>>
    decreases list.len() - i,
{
    if i < 0 || i >= list.len() {
        None
    } else if list[i].0 == key {
        Some(list[i].1)
    } else {
        name_from(list, key, i + 1)
    }
}

/// The auto-generated track with this key, where one exists; without a name it is called by its
/// key.
pub open spec fn auto_track(autos: captions::Named, key: Seq<char>) -> Option<PickView> {
    match name_from(autos, key, 0) {
        Some(name) => Some(
            PickView {
                key,
                name: if name.len() == 0 {
                    key
                } else {
                    name
                },
                auto: true,
            },
        ),
        None => None,
    }
}

/// A track the uploader published; the chat replay is none.
pub open spec fn real_track(p: (Seq<char>, Seq<char>)) -> Option<PickView> {
    if p.0 == "live_chat"@ {
        None
    } else {
        Some(PickView { key: p.0, name: p.1, auto: false })
    }
}

/// Every track the uploader published.
pub open spec fn uploader(reals: captions::Named) -> Seq<PickView> {
    reals.filter_map(|p: (Seq<char>, Seq<char>)| real_track(p))
}

/// Whether one of the picks is in language `lang`.
pub open spec fn covers(picks: Seq<PickView>, lang: Seq<char>) -> bool {
    exists|i: int| 0 <= i < picks.len() && base_lang(#[trigger] picks[i].key) == lang
}

/// The video's native language, where it is known.
pub open spec fn native_of(orig: Option<Seq<char>>) -> Option<Seq<char>> {
    match orig {
        Some(lang) => if lang.len() > 0 {
            Some(base_lang(lang))
        } else {
            None
        },
        None => None,
    }
}

/// The auto-captions in language `lang`: the raw track, else the plain one.
pub open spec fn native_track(autos: captions::Named, lang: Seq<char>) -> Option<PickView> {
    match auto_track(autos, lang + "-orig"@) {
        Some(pick) => Some(pick),
        None => auto_track(autos, lang),
    }
}

/// The English auto-captions: the track made from the native language, else the plain one.
pub open spec fn english_track(autos: captions::Named, native: Option<Seq<char>>) -> Option<
    PickView,
> {
    match native {
        Some(lang) => match auto_track(autos, "en-"@ + lang) {
            Some(pick) => Some(pick),
            None => auto_track(autos, "en"@),
        },
        None => auto_track(autos, "en"@),
    }
}

/// `picks` and one more, where there is one.
pub open spec fn and_maybe(picks: Seq<PickView>, more: Option<PickView>) -> Seq<PickView> {
    match more {
        Some(pick) => picks.push(pick),
        None => picks,
    }
}

/// The picks with the native language added, unless they cover it.
pub open spec fn with_native(
    picks: Seq<PickView>,
    autos: captions::Named,
    native: Option<Seq<char>>,
) -> Seq<PickView> {
    match native {
        Some(lang) => if covers(picks, lang) {
            picks
        } else {
            and_maybe(picks, native_track(autos, lang))
        },
        None => picks,
    }
}

/// The picks with English added, unless they cover it.
pub open spec fn with_english(
    picks: Seq<PickView>,
    autos: captions::Named,
    native: Option<Seq<char>>,
) -> Seq<PickView> {
    if covers(picks, "en"@) {
        picks
    } else {
        and_maybe(picks, english_track(autos, native))
    }
}

/// The subtitle tracks to embed for one video: every language the uploader published; the native
/// language as auto-captions when the uploader published none in it; and English, unless one of
/// these covers it.
pub open spec fn plan(
    reals: captions::Named,
    autos: captions::Named,
    orig: Option<Seq<char>>,
) -> Seq<PickView> {
    let native = native_of(orig);
    with_english(with_native(uploader(reals), autos, native), autos, native)
}

/// The auto-generated track with this key, where one exists.
pub fn auto_pick(autos: &[(String, String)], key: &str) -> (r: Option<Pick>)
    ensures
        match r {
            Some(p) => auto_track(captions::pairs(autos@), key@) == Some(p@),
            None => auto_track(captions::pairs(autos@), key@) is None,
        },
{
    let mut i: usize = 0;
    while i < autos.len()
        invariant
            i <= autos@.len(),
            name_from(captions::pairs(autos@), key@, 0) == name_from(
                captions::pairs(autos@),
                key@,
                i as int,
            ),
        decreases autos@.len() - i,
    {
        assert(captions::pairs(autos@)[i as int] == (autos@[i as int].0@, autos@[i as int].1@));
        if text::same(autos[i].0.as_str(), key) {
            let name = if autos[i].1.as_str().is_empty() {
                key.to_owned()
            } else {
                autos[i].1.clone()
            };
            return Some(Pick { key: key.to_owned(), name, auto: true });
        }
        i += 1;
    }
    None
}

/// Every track the uploader published.
pub fn uploader_picks(reals: &[(String, String)]) -> (r: Vec<Pick>)
    ensures
        pick_views(r@) == uploader(captions::pairs(reals@)),
{
    let ghost all = captions::pairs(reals@);
    let mut picks: Vec<Pick> = Vec::new();
    let mut i: usize = 0;
    assert(all.take(0) =~= seq![]);
    assert(pick_views(picks@) =~= uploader(all.take(0)));
    while i < reals.len()
        invariant
            i <= reals@.len(),
            all == captions::pairs(reals@),
            pick_views(picks@) == uploader(all.take(i as int)),
        decreases reals@.len() - i,
    {
        let ghost before = picks@;
        proof {
            all.lemma_filter_map_take_succ(
                |p: (Seq<char>, Seq<char>)| real_track(p),
                i as int,
            );
            assert(all[i as int] == (reals@[i as int].0@, reals@[i as int].1@));
        }
        if !text::same(reals[i].0.as_str(), "live_chat") {
            picks.push(
                Pick { key: reals[i].0.clone(), name: reals[i].1.clone(), auto: false },
            );
            assert(pick_views(picks@) =~= pick_views(before).push(picks@.last()@));
        }
        i += 1;
        assert(pick_views(picks@) =~= uploader(all.take(i as int)));
    }
    assert(all.take(i as int) =~= all);
    picks
}

/// Whether one of the picks is in language `lang`.
pub fn covered(picks: &[Pick], lang: &str) -> (r: bool)
    ensures
        r == covers(pick_views(picks@), lang@),
{
    let ghost views = pick_views(picks@);
    let mut i: usize = 0;
    while i < picks.len()
        invariant
            i <= picks@.len(),
            views == pick_views(picks@),
            forall|j: int| 0 <= j < i ==> base_lang(#[trigger] views[j].key) != lang@,
        decreases picks@.len() - i,
    {
        assert(views[i as int].key == picks@[i as int].key@);
        let base = base_of(picks[i].key.as_str());
        if text::same(base.as_str(), lang) {
            return true;
        }
        i += 1;
    }
    false
}

/// The auto-captions in language `lang`: the raw track, else the plain one.
pub fn native_pick(autos: &[(String, String)], lang: &str) -> (r: Option<Pick>)
    ensures
        match r {
            Some(p) => native_track(captions::pairs(autos@), lang@) == Some(p@),
            None => native_track(captions::pairs(autos@), lang@) is None,
        },
{
    let raw = text::cat(lang, "-orig");
    if let Some(pick) = auto_pick(autos, raw.as_str()) {
        return Some(pick);
    }
    auto_pick(autos, lang)
}

/// The English auto-captions: the track made from the native language, else the plain track.
pub fn english_pick(autos: &[(String, String)], native: Option<&str>) -> (r: Option<Pick>)
    ensures
        match r {
            Some(p) => english_track(captions::pairs(autos@), text::opt_str(native)) == Some(p@),
            None => english_track(captions::pairs(autos@), text::opt_str(native)) is None,
        },
{
    if let Some(lang) = native {
        let pair = text::cat("en-", lang);
        if let Some(pick) = auto_pick(autos, pair.as_str()) {
            return Some(pick);
        }
    }
    auto_pick(autos, "en")
}

fn push_pick(picks: &mut Vec<Pick>, pick: Pick)
    ensures
        pick_views(final(picks)@) == pick_views(old(picks)@).push(pick@),
{
    let ghost before = picks@;
    picks.push(pick);
    assert(pick_views(picks@) =~= pick_views(before).push(pick@));
}

/// The subtitle tracks to embed for one video, given what exists.
pub fn sub_picks_for(
    reals: &[(String, String)],
    autos: &[(String, String)],
    orig: Option<&str>,
) -> (r: Vec<Pick>)
    ensures
        pick_views(r@) == plan(
            captions::pairs(reals@),
            captions::pairs(autos@),
            text::opt_str(orig),
        ),
{
    let mut picks = uploader_picks(reals);
    let native: Option<String> = match orig {
        Some(lang) => if lang.is_empty() {
            None
        } else {
            Some(base_of(lang))
        },
        None => None,
    };
    assert(text::opt_text(native) == native_of(text::opt_str(orig)));
    if let Some(lang) = &native {
        if !covered(picks.as_slice(), lang.as_str()) {
            if let Some(pick) = native_pick(autos, lang.as_str()) {
                push_pick(&mut picks, pick);
            }
        }
    }
    if !covered(picks.as_slice(), "en") {
        if let Some(pick) = english_pick(autos, text::borrow(&native)) {
            push_pick(&mut picks, pick);
        }
    }
    picks
}

/// A pick that nothing was probed for: only its key is known.
pub open spec fn unprobed(key: Seq<char>) -> PickView {
    PickView { key, name: seq![], auto: false }
}

/// The picks for a video that could not be probed: the English family, none of them flagged
/// auto-generated.
pub open spec fn fallback() -> Seq<PickView> {
    seq![unprobed("en"@), unprobed("en-US"@), unprobed("en-GB"@)]
}

fn plain_pick(key: &str) -> (r: Pick)
    ensures
        r@ == unprobed(key@),
{
    let name = String::new();
    assert(name@ =~= seq![]);
    Pick { key: key.to_owned(), name, auto: false }
}

/// The picks for a video that could not be probed.
pub fn default_picks() -> (r: Vec<Pick>)
    ensures
        pick_views(r@) == fallback(),
{
    let mut picks: Vec<Pick> = Vec::new();
    picks.push(plain_pick("en"));
    picks.push(plain_pick("en-US"));
    picks.push(plain_pick("en-GB"));
    assert(pick_views(picks@) =~= fallback());
    picks
}

/// One entry with its subtitle plan.
pub struct Planned {
    pub index: String,
    pub id: String,
    pub picks: Vec<Pick>,
}

/// A [`Planned`] with its texts as sequences of characters.
pub struct PlannedView {
    pub index: Seq<char>,
    pub id: Seq<char>,
    pub picks: Seq<PickView>,
}

impl View for Planned {
    type V = PlannedView;

    open spec fn view(&self) -> PlannedView {
        PlannedView { index: self.index@, id: self.id@, picks: pick_views(self.picks@) }
    }
}

/// The views of planned entries.
pub open spec fn planned_views(v: Seq<Planned>) -> Seq<PlannedView> {
    v.map_values(|p: Planned| p@)
}

/// A language as a probe prints it: `NA` and nothing both stand for an unknown one.
pub open spec fn known(lang: Seq<char>) -> Option<Seq<char>> {
    if lang.len() > 0 && lang != "NA"@ {
        Some(lang)
    } else {
        None
    }
}

/// A probe's answer for one video: its id, where one was printed, and its subtitle plan. The id,
/// the language, the uploader's tracks and the auto-generated ones stand on a line each.
pub open spec fn probed(out: Option<Seq<char>>) -> (Option<Seq<char>>, Seq<PickView>) {
    match out {
        None => (None, fallback()),
        Some(out) => {
            let lines = text::lines_of(out);
            let id = if lines.len() > 0 {
                known(text::trimmed(lines[0]))
            } else {
                None
            };
            if lines.len() < 4 {
                (id, fallback())
            } else {
                (
                    id,
                    plan(
                        captions::lang_names(lines[2]),
                        captions::lang_names(lines[3]),
                        known(text::trimmed(lines[1])),
                    ),
                )
            }
        },
    }
}

fn known_text(lang: String) -> (r: Option<String>)
    ensures
        text::opt_text(r) == known(lang@),
{
    if lang.as_str().is_empty() || text::same(lang.as_str(), "NA") {
        None
    } else {
        Some(lang)
    }
}

/// Read a probe's answer for one video; `None` stands for a probe that failed.
pub fn parse_video_probe(out: Option<&str>) -> (r: (Option<String>, Vec<Pick>))
    ensures
        (text::opt_text(r.0), pick_views(r.1@)) == probed(text::opt_str(out)),
{
    let out = match out {
        Some(out) => out,
        None => return (None, default_picks()),
    };
    let lines = text::lines(out);
    let ghost all = text::lines_of(out@);
    assert(all == text::texts(lines@));
    let id = if lines.len() > 0 {
        assert(all[0] == lines@[0]@);
        known_text(text::trim(lines[0].as_str()))
    } else {
        None
    };
    if lines.len() < 4 {
        return (id, default_picks());
    }
    assert(all[1] == lines@[1]@);
    assert(all[2] == lines@[2]@);
    assert(all[3] == lines@[3]@);
    let orig = known_text(text::trim(lines[1].as_str()));
    let reals = captions::json_lang_names(lines[2].as_str());
    let autos = captions::json_lang_names(lines[3].as_str());
    let picks = sub_picks_for(reals.as_slice(), autos.as_slice(), text::borrow(&orig));
    (id, picks)
}

/// The plan that one line of a batch probe holds: index, id, language, the uploader's tracks and
/// the auto-generated ones, with tabs between them.
pub open spec fn line_plan(line: Seq<char>) -> Option<PlannedView> {
    if let Some((index, a)) = text::cut_at(line, '\t') {
        if let Some((id, b)) = text::cut_at(a, '\t') {
            if let Some((language, c)) = text::cut_at(b, '\t') {
                if let Some((subs, autos)) = text::cut_at(c, '\t') {
                    Some(
                        PlannedView {
                            index,
                            id,
                            picks: plan(
                                captions::lang_names(subs),
                                captions::lang_names(autos),
                                known(language),
                            ),
                        },
                    )
                } else {
                    None
                }
            } else {
                None
            }
        } else {
            None
        }
    } else {
        None
    }
}

/// The plans that a batch probe printed, one to a line; lines of another shape are skipped.
pub open spec fn batch(out: Seq<char>) -> Seq<PlannedView> {
    text::lines_of(out).filter_map(|line: Seq<char>| line_plan(line))
}

fn parse_line(line: &str) -> (r: Option<Planned>)
    ensures
        match r {
            Some(p) => line_plan(line@) == Some(p@),
            None => line_plan(line@) is None,
        },
{
    let (index, a) = match text::cut(line, '\t') {
        Some(parts) => parts,
        None => return None,
    };
    let (id, b) = match text::cut(a.as_str(), '\t') {
        Some(parts) => parts,
        None => return None,
    };
    let (language, c) = match text::cut(b.as_str(), '\t') {
        Some(parts) => parts,
        None => return None,
    };
    let (subs, auto_subs) = match text::cut(c.as_str(), '\t') {
        Some(parts) => parts,
        None => return None,
    };
    let orig = known_text(language);
    let reals = captions::json_lang_names(subs.as_str());
    let autos = captions::json_lang_names(auto_subs.as_str());
    let picks = sub_picks_for(reals.as_slice(), autos.as_slice(), text::borrow(&orig));
    Some(Planned { index, id, picks })
}

/// Read a batch probe's lines into plans.
pub fn parse_batch(out: &str) -> (r: Vec<Planned>)
    ensures
        planned_views(r@) == batch(out@),
{
    let lines = text::lines(out);
    let ghost all = text::lines_of(out@);
    let ghost f = |line: Seq<char>| line_plan(line);
    let mut plans: Vec<Planned> = Vec::new();
    let mut i: usize = 0;
    assert(all.take(0) =~= seq![]);
    assert(planned_views(plans@) =~= all.take(0).filter_map(f));
    while i < lines.len()
        invariant
            i <= lines@.len(),
            all == text::texts(lines@),
            f == |line: Seq<char>| line_plan(line),
            planned_views(plans@) == all.take(i as int).filter_map(f),
        decreases lines@.len() - i,
    {
        let ghost before = plans@;
        proof {
            all.lemma_filter_map_take_succ(f, i as int);
            assert(all[i as int] == lines@[i as int]@);
        }
        if let Some(plan) = parse_line(lines[i].as_str()) {
            plans.push(plan);
            assert(planned_views(plans@) =~= planned_views(before).push(plan@));
        }
        i += 1;
        assert(planned_views(plans@) =~= all.take(i as int).filter_map(f));
    }
    assert(all.take(i as int) =~= all);
    plans
}

/// The arguments that probe one video's subtitle situation.
pub open spec fn video_probe_args(url: Seq<char>, env: EnvView, tools: ToolsView) -> ytdlp::Argv {
    ytdlp::seed(env, tools) + seq![
        "--print"@,
        "%(id)s"@,
        "--print"@,
        "%(language)s"@,
        "--print"@,
        "%(subtitles)j"@,
        "--print"@,
        "%(automatic_captions)j"@,
        url,
    ]
}

/// The arguments that probe one video's subtitle situation.
pub fn video_probe_argv(url: &str, env: Env, tools: &Tools) -> (r: Vec<String>)
    ensures
        text::texts(r@) == video_probe_args(url@, env@, tools@),
{
    let mut argv = ytdlp::seeded(env, tools);
    text::put(&mut argv, "--print");
    text::put(&mut argv, "%(id)s");
    text::put(&mut argv, "--print");
    text::put(&mut argv, "%(language)s");
    text::put(&mut argv, "--print");
    text::put(&mut argv, "%(subtitles)j");
    text::put(&mut argv, "--print");
    text::put(&mut argv, "%(automatic_captions)j");
    text::put(&mut argv, url);
    argv
}

/// The print format of a batch probe, one line to an entry.
pub const PROBE_FORMAT: &'static str = "%(playlist_index)s\t%(id)s\t%(language)s\t%(subtitles)j\t%(automatic_captions)j";

/// Probes of more entries than this pause between their requests.
pub const PROBE_PACING_THRESHOLD: usize = 20;

/// The arguments that probe many entries in one invocation.
pub open spec fn batch_probe_args(
    url: Seq<char>,
    indexes: Seq<Seq<char>>,
    env: EnvView,
    tools: ToolsView,
) -> ytdlp::Argv {
    ytdlp::seed(env, tools) + seq!["--ignore-errors"@] + (if indexes.len()
        > PROBE_PACING_THRESHOLD {
        seq!["--sleep-requests"@, "1"@]
    } else {
        seq![]
    }) + seq![
        "--playlist-items"@,
        text::joined(indexes, ","@),
        "--print"@,
        PROBE_FORMAT@,
        url,
    ]
}

/// The arguments that probe many entries in one invocation.
pub fn batch_probe_argv(url: &str, indexes: &[String], env: Env, tools: &Tools) -> (r: Vec<String>)
    ensures
        text::texts(r@) == batch_probe_args(url@, text::texts(indexes@), env@, tools@),
{
    let mut argv = ytdlp::seeded(env, tools);
    text::put(&mut argv, "--ignore-errors");
    if indexes.len() > PROBE_PACING_THRESHOLD {
        text::put(&mut argv, "--sleep-requests");
        text::put(&mut argv, "1");
    }
    let items = text::join(indexes, ",");
    text::put(&mut argv, "--playlist-items");
    text::put(&mut argv, items.as_str());
    text::put(&mut argv, "--print");
    text::put(&mut argv, PROBE_FORMAT);
    text::put(&mut argv, url);
    argv
}

/// A batch probe's answer: nothing where the probe failed.
pub open spec fn batch_answer(out: Option<Seq<char>>) -> Seq<PlannedView> {
    match out {
        Some(out) => batch(out),
        None => seq![],
    }
}

/// Read a batch probe's answer; `None` stands for a probe that failed.
pub fn parse_batch_answer(out: Option<&str>) -> (r: Vec<Planned>)
    ensures
        planned_views(r@) == batch_answer(text::opt_str(out)),
{
    match out {
        Some(out) => parse_batch(out),
        None => {
            let none: Vec<Planned> = Vec::new();
            assert(planned_views(none@) =~= seq![]);
            none
        },
    }
}

/// The uploader's tracks come first and are never flagged auto-generated; at most two tracks
/// follow, for the native language and for English, and both are flagged.
pub proof fn law_the_uploaders_tracks_come_first(
    reals: captions::Named,
    autos: captions::Named,
    orig: Option<Seq<char>>,
)
    ensures
        ({
            let own = uploader(reals);
            let all = plan(reals, autos, orig);
            &&& own.len() <= all.len() <= own.len() + 2
            &&& all.take(own.len() as int) == own
            &&& forall|i: int| 0 <= i < own.len() ==> !(#[trigger] own[i]).auto
            &&& forall|i: int| own.len() <= i < all.len() ==> (#[trigger] all[i]).auto
        }),
{
    let f = |p: (Seq<char>, Seq<char>)| real_track(p);
    let own = uploader(reals);
    let all = plan(reals, autos, orig);
    assert forall|i: int| 0 <= i < own.len() implies !(#[trigger] own[i]).auto by {
        assert(own.contains(own[i]));
        reals.lemma_filter_map_contains(f, own[i]);
    }
    assert(all.take(own.len() as int) =~= own);
}

proof fn lemma_lower_twice(s: Seq<char>)
    requires
        vstd::utf8::is_ascii_chars(s),
    ensures
        vstd::utf8::is_ascii_chars(text::ascii_lower(s)),
        text::ascii_lower(text::ascii_lower(s)) == text::ascii_lower(s),
        !s.contains('-') ==> !text::ascii_lower(s).contains('-'),
{
    let t = text::ascii_lower(s);
    assert forall|i: int| 0 <= i < t.len() implies text::lower(#[trigger] t[i]) == t[i] by {
        assert(t[i] == text::lower(s[i]));
    }
    assert(text::ascii_lower(t) =~= t);
    if !s.contains('-') {
        assert forall|i: int| 0 <= i < t.len() implies t[i] != '-' by {
            assert(t[i] == text::lower(s[i]));
            assert(s.contains(s[i]));
        }
    }
}

/// A key that starts with a language in small letters is in that language.
proof fn lemma_base_of_key(lang: Seq<char>, tail: Seq<char>)
    requires
        vstd::utf8::is_ascii_chars(lang),
        text::ascii_lower(lang) == lang,
        !lang.contains('-'),
        tail.len() == 0 || tail[0] == '-',
    ensures
        base_lang(lang + tail) == lang,
{
    reveal_strlit("-");
    let key = lang + tail;
    text::lemma_stop_at(lang, "-"@, 0);
    let k = text::stop_at(lang, "-"@, 0);
    if k < lang.len() {
        assert("-"@.contains(lang[k]));
        assert(lang[k] == '-');
        assert(lang.contains(lang[k]));
    }
    if tail.len() > 0 {
        assert("-"@[0] == '-');
        assert("-"@.contains(tail[0]));
    }
    text::lemma_stop_extends(lang, tail, "-"@, 0);
    assert(key.take(lang.len() as int) =~= lang);
    text::lemma_lowercase_of_ascii(lang);
}

proof fn lemma_native_language(orig: Seq<char>)
    requires
        vstd::utf8::is_ascii_chars(orig),
    ensures
        vstd::utf8::is_ascii_chars(base_lang(orig)),
        text::ascii_lower(base_lang(orig)) == base_lang(orig),
        !base_lang(orig).contains('-'),
{
    reveal_strlit("-");
    let part = text::before_any(orig, "-"@);
    text::lemma_stop_at(orig, "-"@, 0);
    assert forall|i: int| 0 <= i < part.len() implies part[i] != '-' by {
        assert(part[i] == orig[i]);
        assert(!"-"@.contains(orig[i]));
        assert("-"@[0] == '-');
    }
    assert forall|i: int| 0 <= i < part.len() implies '\0' <= #[trigger] part[i] <= '\u{7f}' by {
        assert(part[i] == orig[i]);
    }
    text::lemma_lowercase_of_ascii(part);
    lemma_lower_twice(part);
}

/// Nothing is doubled: an auto-generated track is added only for a language that no track before
/// it covers. (The native language is given in ASCII, as language codes are.)
pub proof fn law_no_language_is_doubled(
    reals: captions::Named,
    autos: captions::Named,
    orig: Option<Seq<char>>,
)
    requires
        match orig {
            Some(lang) => vstd::utf8::is_ascii_chars(lang),
            None => true,
        },
    ensures
        forall|i: int|
            uploader(reals).len() <= i < plan(reals, autos, orig).len() ==> !covers(
                plan(reals, autos, orig).take(i),
                base_lang((#[trigger] plan(reals, autos, orig)[i]).key),
            ),
{
    let own = uploader(reals);
    let native = native_of(orig);
    let mid = with_native(own, autos, native);
    let all = plan(reals, autos, orig);
    reveal_strlit("-orig");
    reveal_strlit("en-");
    reveal_strlit("en");
    assert("en-"@ =~= "en"@ + seq!['-']);
    assert(text::ascii_lower("en"@) =~= "en"@);
    assert(vstd::utf8::is_ascii_chars("en"@));
    assert(!"en"@.contains('-'));
    assert("en"@ + seq![] =~= "en"@);
    lemma_base_of_key("en"@, seq![]);
    if let Some(lang) = native {
        lemma_native_language(orig.unwrap());
        lemma_base_of_key(lang, "-orig"@);
        assert(lang + seq![] =~= lang);
        lemma_base_of_key(lang, seq![]);
        assert("en-"@ + lang =~= "en"@ + (seq!['-'] + lang));
        lemma_base_of_key("en"@, seq!['-'] + lang);
    }
    assert forall|i: int| own.len() <= i < all.len() implies !covers(
        all.take(i),
        base_lang((#[trigger] all[i]).key),
    ) by {
        if i < mid.len() {
            assert(all[i] == mid[i]);
            assert(all.take(i) =~= own);
        } else {
            assert(all.take(i) =~= mid);
        }
    }
}

/// No track is asked for twice: where the uploader's keys are distinct, so are all keys of the
/// plan.
pub proof fn law_no_key_is_doubled(
    reals: captions::Named,
    autos: captions::Named,
    orig: Option<Seq<char>>,
)
    requires
        match orig {
            Some(lang) => vstd::utf8::is_ascii_chars(lang),
            None => true,
        },
        keys_of(uploader(reals)).no_duplicates(),
    ensures
        keys_of(plan(reals, autos, orig)).no_duplicates(),
{
    let own = uploader(reals);
    let all = plan(reals, autos, orig);
    law_no_language_is_doubled(reals, autos, orig);
    law_the_uploaders_tracks_come_first(reals, autos, orig);
    let keys = keys_of(all);
    assert forall|i: int, j: int| 0 <= i < j < keys.len() implies keys[i] != keys[j] by {
        if j < own.len() {
            assert(all.take(own.len() as int)[i] == own[i]);
            assert(all.take(own.len() as int)[j] == own[j]);
            assert(keys_of(own)[i] == keys[i]);
            assert(keys_of(own)[j] == keys[j]);
        } else if keys[i] == keys[j] {
            assert(!covers(all.take(j), base_lang(all[j].key)));
            assert(all.take(j)[i] == all[i]);
            assert(base_lang(all.take(j)[i].key) == base_lang(all[j].key));
        }
    }
}

/// Whatever can be covered is: with the native language known and auto-captions published for it
/// (raw or plain), the plan covers it; with English auto-captions published (plain, or from the
/// native language where that is known), the plan covers English. (The native language is given
/// in ASCII, as language codes are.)
pub proof fn law_native_and_english_are_covered(
    reals: captions::Named,
    autos: captions::Named,
    orig: Option<Seq<char>>,
)
    requires
        match orig {
            Some(lang) => vstd::utf8::is_ascii_chars(lang),
            None => true,
        },
    ensures
        match native_of(orig) {
            Some(lang) => native_track(autos, lang) is Some ==> covers(
                plan(reals, autos, orig),
                lang,
            ),
            None => true,
        },
        english_track(autos, native_of(orig)) is Some ==> covers(plan(reals, autos, orig), "en"@),
{
    let own = uploader(reals);
    let native = native_of(orig);
    let mid = with_native(own, autos, native);
    let all = plan(reals, autos, orig);
    reveal_strlit("-orig");
    reveal_strlit("en-");
    reveal_strlit("en");
    assert("en-"@ =~= "en"@ + seq!['-']);
    assert(text::ascii_lower("en"@) =~= "en"@);
    assert("en"@ + seq![] =~= "en"@);
    lemma_base_of_key("en"@, seq![]);
    if let Some(lang) = native {
        lemma_native_language(orig.unwrap());
        lemma_base_of_key(lang, "-orig"@);
        assert(lang + seq![] =~= lang);
        lemma_base_of_key(lang, seq![]);
        assert("en-"@ + lang =~= "en"@ + (seq!['-'] + lang));
        lemma_base_of_key("en"@, seq!['-'] + lang);
        if native_track(autos, lang) is Some {
            if !covers(own, lang) {
                assert(base_lang(mid[mid.len() - 1].key) == lang);
            }
            let i = choose|i: int| 0 <= i < mid.len() && base_lang(#[trigger] mid[i].key) == lang;
            assert(all[i] == mid[i]);
        }
    }
    if english_track(autos, native) is Some && !covers(mid, "en"@) {
        assert(base_lang(all[all.len() - 1].key) == "en"@);
    }
}

/// Whether a list of captions holds a track with this key.
pub open spec fn offers(list: captions::Named, key: Seq<char>) -> bool {
    exists|j: int| 0 <= j < list.len() && #[trigger] list[j].0 == key
}

/// Whether the uploader published a track in language `lang`; the chat replay is none.
pub open spec fn publishes(reals: captions::Named, lang: Seq<char>) -> bool {
    exists|j: int|
        0 <= j < reals.len() && #[trigger] reals[j].0 != "live_chat"@ && base_lang(reals[j].0)
            == lang
}

/// Whether a plan holds an auto-generated track with this key.
pub open spec fn adds(picks: Seq<PickView>, key: Seq<char>) -> bool {
    exists|i: int| 0 <= i < picks.len() && #[trigger] picks[i].auto && picks[i].key == key
}

/// Every track that the uploader published is planned, with its own key and name and not flagged
/// auto-generated, once for each time it is listed and in the uploader's order; only the chat
/// replay is left out. Whatever else is planned is auto-generated and follows.
pub proof fn law_every_uploaded_track_is_planned(
    reals: captions::Named,
    autos: captions::Named,
    orig: Option<Seq<char>>,
)
    ensures
        ({
            let published = reals.filter(|p: (Seq<char>, Seq<char>)| p.0 != "live_chat"@);
            let all = plan(reals, autos, orig);
            &&& published.len() <= all.len()
            &&& forall|i: int|
                0 <= i < published.len() ==> #[trigger] all[i] == (PickView {
                    key: published[i].0,
                    name: published[i].1,
                    auto: false,
                })
            &&& forall|i: int| published.len() <= i < all.len() ==> (#[trigger] all[i]).auto
            &&& all.filter(|p: PickView| !p.auto).len() == published.len()
            &&& forall|i: int|
                0 <= i < reals.len() && #[trigger] reals[i].0 != "live_chat"@ ==> all.contains(
                    PickView { key: reals[i].0, name: reals[i].1, auto: false },
                )
        }),
{
    let keep = |p: (Seq<char>, Seq<char>)| p.0 != "live_chat"@;
    let published = reals.filter(keep);
    let own = uploader(reals);
    let all = plan(reals, autos, orig);
    lemma_uploader_is_published(reals);
    law_the_uploaders_tracks_come_first(reals, autos, orig);
    assert forall|i: int| 0 <= i < published.len() implies #[trigger] all[i] == (PickView {
        key: published[i].0,
        name: published[i].1,
        auto: false,
    }) by {
        assert(all.take(own.len() as int)[i] == own[i]);
    }
    let own_track = |p: PickView| !p.auto;
    let rest = all.skip(own.len() as int);
    assert(all =~= own + rest);
    Seq::filter_distributes_over_add(own, rest, own_track);
    assert forall|i: int| 0 <= i < own.len() implies own_track(#[trigger] own[i]) by {}
    lemma_all_are_kept(own, own_track);
    assert forall|i: int| 0 <= i < rest.len() implies !own_track(#[trigger] rest[i]) by {
        assert(rest[i] == all[own.len() + i]);
    }
    rest.lemma_all_neg_filter_empty(own_track);
    assert(all.filter(own_track) =~= own);
    assert forall|i: int|
        0 <= i < reals.len() && #[trigger] reals[i].0 != "live_chat"@ implies all.contains(
        PickView { key: reals[i].0, name: reals[i].1, auto: false },
    ) by {
        assert(keep(reals[i]));
        reals.lemma_filter_contains(keep, i);
        let k = choose|k: int| 0 <= k < published.len() && published[k] == reals[i];
        assert(all[k] == (PickView { key: reals[i].0, name: reals[i].1, auto: false }));
    }
}

proof fn lemma_all_are_kept(picks: Seq<PickView>, p: spec_fn(PickView) -> bool)
    requires
        forall|i: int| 0 <= i < picks.len() ==> p(#[trigger] picks[i]),
    ensures
        picks.filter(p) == picks,
    decreases picks.len(),
{
    reveal(Seq::filter);
    if picks.len() > 0 {
        let before = picks.drop_last();
        assert forall|i: int| 0 <= i < before.len() implies p(#[trigger] before[i]) by {
            assert(before[i] == picks[i]);
        }
        lemma_all_are_kept(before, p);
        assert(p(picks[picks.len() - 1]));
        assert(before.push(picks.last()) =~= picks);
    }
}

/// Only the chat replay is no track of the uploader's; every other one is, under its key and name.
proof fn lemma_real_track(track: (Seq<char>, Seq<char>))
    ensures
        track.0 == "live_chat"@ ==> real_track(track) is None,
        track.0 != "live_chat"@ ==> real_track(track) == Some(
            PickView { key: track.0, name: track.1, auto: false },
        ),
{
}

proof fn lemma_filter_map_is_filter<A, B>(
    v: Seq<A>,
    f: spec_fn(A) -> Option<B>,
    keep: spec_fn(A) -> bool,
    shown: spec_fn(A) -> B,
)
    requires
        forall|x: A| #[trigger]
            f(x) == if keep(x) {
                Some(shown(x))
            } else {
                None
            },
    ensures
        v.filter_map(f) == v.filter(keep).map_values(shown),
    decreases v.len(),
{
    reveal(Seq::filter);
    reveal(Seq::filter_map);
    if v.len() > 0 {
        lemma_filter_map_is_filter(v.drop_last(), f, keep, shown);
    }
    assert(v.filter_map(f) =~= v.filter(keep).map_values(shown));
}

proof fn lemma_uploader_is_published(reals: captions::Named)
    ensures
        uploader(reals) == reals.filter(
            |p: (Seq<char>, Seq<char>)| p.0 != "live_chat"@,
        ).map_values(
            |p: (Seq<char>, Seq<char>)| PickView { key: p.0, name: p.1, auto: false },
        ),
{
    let f = |p: (Seq<char>, Seq<char>)| real_track(p);
    let keep = |p: (Seq<char>, Seq<char>)| p.0 != "live_chat"@;
    let as_pick = |p: (Seq<char>, Seq<char>)| PickView { key: p.0, name: p.1, auto: false };
    assert forall|p: (Seq<char>, Seq<char>)| #[trigger]
        f(p) == if keep(p) {
            Some(as_pick(p))
        } else {
            None
        } by {
        lemma_real_track(p);
    }
    lemma_filter_map_is_filter(reals, f, keep, as_pick);
}

/// Whether a track in a language exists among the uploader's exactly says whether the uploader's
/// picks cover it.
proof fn lemma_published_is_covered(reals: captions::Named, lang: Seq<char>)
    ensures
        covers(uploader(reals), lang) <==> publishes(reals, lang),
{
    let keep = |p: (Seq<char>, Seq<char>)| p.0 != "live_chat"@;
    let published = reals.filter(keep);
    let own = uploader(reals);
    lemma_uploader_is_published(reals);
    if covers(own, lang) {
        let i = choose|i: int| 0 <= i < own.len() && base_lang(#[trigger] own[i].key) == lang;
        assert(own[i].key == published[i].0);
        reals.lemma_filter_pred(keep, i);
        assert(published.contains(published[i]));
        reals.lemma_filter_contains_rev(keep, published[i]);
        let j = choose|j: int| 0 <= j < reals.len() && reals[j] == published[i];
        assert(reals[j].0 != "live_chat"@);
    }
    if publishes(reals, lang) {
        let j = choose|j: int|
            0 <= j < reals.len() && #[trigger] reals[j].0 != "live_chat"@ && base_lang(reals[j].0)
                == lang;
        assert(keep(reals[j]));
        reals.lemma_filter_contains(keep, j);
        let k = choose|k: int| 0 <= k < published.len() && published[k] == reals[j];
        assert(base_lang(own[k].key) == lang);
    }
}

proof fn lemma_name_from(list: captions::Named, key: Seq<char>, i: int)
    requires
        0 <= i,
    ensures
        match name_from(list, key, i) {
            Some(name) => exists|j: int|
                i <= j < list.len() && #[trigger] list[j] == (key, name) && forall|k: int|
                    i <= k < j ==> (#[trigger] list[k]).0 != key,
            None => forall|j: int| i <= j < list.len() ==> (#[trigger] list[j]).0 != key,
        },
    decreases list.len() - i,
{
    if i < list.len() {
        if list[i].0 == key {
            assert(list[i] == (key, list[i].1));
        } else {
            lemma_name_from(list, key, i + 1);
            if let Some(name) = name_from(list, key, i + 1) {
                let j = choose|j: int|
                    i + 1 <= j < list.len() && #[trigger] list[j] == (key, name) && forall|k: int|
                        i + 1 <= k < j ==> (#[trigger] list[k]).0 != key;
                assert(list[j] == (key, name));
            }
        }
    }
}

proof fn lemma_auto_track(autos: captions::Named, key: Seq<char>)
    ensures
        auto_track(autos, key) is Some <==> offers(autos, key),
        auto_track(autos, key) is Some ==> auto_track(autos, key).unwrap().key == key
            && auto_track(autos, key).unwrap().auto,
{
    lemma_name_from(autos, key, 0);
    if let Some(name) = name_from(autos, key, 0) {
        let j = choose|j: int|
            0 <= j < autos.len() && #[trigger] autos[j] == (key, name) && forall|k: int|
                0 <= k < j ==> (#[trigger] autos[k]).0 != key;
        assert(autos[j].0 == key);
    }
}

/// Every auto-generated track of a plan stands in the list of those that exist, and is called as
/// the first one of its key is called there, or by its key where that one has no name.
pub proof fn law_auto_tracks_exist(
    reals: captions::Named,
    autos: captions::Named,
    orig: Option<Seq<char>>,
    i: int,
)
    requires
        0 <= i < plan(reals, autos, orig).len(),
        plan(reals, autos, orig)[i].auto,
    ensures
        exists|j: int|
            0 <= j < autos.len() && (#[trigger] autos[j]).0 == plan(reals, autos, orig)[i].key
                && plan(reals, autos, orig)[i].name == (if autos[j].1.len() == 0 {
                autos[j].0
            } else {
                autos[j].1
            }) && forall|k: int| 0 <= k < j ==> (#[trigger] autos[k]).0 != autos[j].0,
{
    let all = plan(reals, autos, orig);
    let own = uploader(reals);
    let key = all[i].key;
    law_the_uploaders_tracks_come_first(reals, autos, orig);
    assert(all.take(own.len() as int) == own);
    if i < own.len() {
        assert(all.take(own.len() as int)[i] == own[i]);
    }
    lemma_name_from(autos, key, 0);
    assert(auto_track(autos, key) == Some(all[i]));
    let name = name_from(autos, key, 0).unwrap();
    let j = choose|j: int|
        0 <= j < autos.len() && #[trigger] autos[j] == (key, name) && forall|k: int|
            0 <= k < j ==> (#[trigger] autos[k]).0 != key;
    assert(autos[j].0 == key);
}

/// The language of a key is its part before the first hyphen, in small letters.
pub proof fn law_the_language_stands_before_the_hyphen(part: Seq<char>, tail: Seq<char>)
    requires
        vstd::utf8::is_ascii_chars(part),
        !part.contains('-'),
        tail.len() == 0 || tail[0] == '-',
    ensures
        base_lang(part + tail) == text::ascii_lower(part),
{
    reveal_strlit("-");
    let key = part + tail;
    assert forall|j: int| 0 <= j < part.len() implies !"-"@.contains(#[trigger] key[j]) by {
        assert(key[j] == part[j]);
        assert(part.contains(part[j]));
    }
    if tail.len() > 0 {
        assert("-"@[0] == '-');
        assert(key[part.len() as int] == tail[0]);
    }
    text::lemma_stops_at(key, "-"@, part.len() as int);
    assert(key.take(part.len() as int) =~= part);
    text::lemma_lowercase_of_ascii(part);
}

/// Whether `lang` is a language as it is compared: ASCII in small letters, without a hyphen.
pub open spec fn is_language(lang: Seq<char>) -> bool {
    &&& lang.len() > 0
    &&& vstd::utf8::is_ascii_chars(lang)
    &&& text::ascii_lower(lang) == lang
    &&& !lang.contains('-')
}

/// The native language is planned. Where the uploader published no track in it, its raw
/// auto-captions (`-orig`) are planned, or its plain ones where there are no raw ones; where the
/// uploader did, no auto-captions in it are. `tail` is a region or a script behind the language.
pub proof fn law_the_native_language_is_planned(
    reals: captions::Named,
    autos: captions::Named,
    lang: Seq<char>,
    tail: Seq<char>,
)
    requires
        is_language(lang),
        lang != "en"@,
        tail.len() == 0 || tail[0] == '-',
    ensures
        ({
            let all = plan(reals, autos, Some(lang + tail));
            &&& !publishes(reals, lang) && offers(autos, lang + "-orig"@) ==> adds(
                all,
                lang + "-orig"@,
            ) && !adds(all, lang)
            &&& !publishes(reals, lang) && !offers(autos, lang + "-orig"@) && offers(
                autos,
                lang,
            ) ==> adds(all, lang)
            &&& publishes(reals, lang) ==> !adds(all, lang + "-orig"@) && !adds(all, lang)
        }),
{
    let orig = Some(lang + tail);
    let all = plan(reals, autos, orig);
    let own = uploader(reals);
    let mid = with_native(own, autos, Some(lang));
    law_the_language_stands_before_the_hyphen(lang, tail);
    lemma_published_is_covered(reals, lang);
    lemma_auto_track(autos, lang + "-orig"@);
    lemma_auto_track(autos, lang);
    lemma_auto_track(autos, "en-"@ + lang);
    lemma_auto_track(autos, "en"@);
    lemma_language_keys(lang);
    law_the_uploaders_tracks_come_first(reals, autos, orig);
    assert forall|i: int| 0 <= i < own.len() implies !(#[trigger] all[i]).auto by {
        assert(all.take(own.len() as int)[i] == own[i]);
    }
    if !covers(own, lang) && native_track(autos, lang) is Some {
        assert(mid == own.push(native_track(autos, lang).unwrap()));
        assert(all[own.len() as int] == mid[own.len() as int]);
    }
}

/// The keys of a language's auto-captions are in that language, those of English in English.
proof fn lemma_language_keys(lang: Seq<char>)
    requires
        is_language(lang),
    ensures
        base_lang(lang) == lang,
        base_lang(lang + "-orig"@) == lang,
        base_lang("en-"@ + lang) == "en"@,
        base_lang("en"@) == "en"@,
        lang + "-orig"@ != lang,
{
    reveal_strlit("-orig");
    reveal_strlit("en-");
    reveal_strlit("en");
    assert(lang + seq![] =~= lang);
    assert("en"@ + seq![] =~= "en"@);
    assert("en-"@ + lang =~= "en"@ + (seq!['-'] + lang));
    assert(text::ascii_lower("en"@) =~= "en"@);
    law_the_language_stands_before_the_hyphen(lang, seq![]);
    law_the_language_stands_before_the_hyphen(lang, "-orig"@);
    law_the_language_stands_before_the_hyphen("en"@, seq!['-'] + lang);
    law_the_language_stands_before_the_hyphen("en"@, seq![]);
    assert((lang + "-orig"@).len() != lang.len());
}

/// English is planned. Where the uploader published no English track and the native language is
/// another one, the English auto-captions made from the native language are planned, or the plain
/// ones where there are none of those; where the uploader published English, none are.
pub proof fn law_english_is_planned(
    reals: captions::Named,
    autos: captions::Named,
    lang: Seq<char>,
    tail: Seq<char>,
)
    requires
        is_language(lang),
        lang != "en"@,
        tail.len() == 0 || tail[0] == '-',
    ensures
        ({
            let all = plan(reals, autos, Some(lang + tail));
            &&& !publishes(reals, "en"@) && offers(autos, "en-"@ + lang) ==> adds(
                all,
                "en-"@ + lang,
            ) && !adds(all, "en"@)
            &&& !publishes(reals, "en"@) && !offers(autos, "en-"@ + lang) && offers(
                autos,
                "en"@,
            ) ==> adds(all, "en"@)
            &&& publishes(reals, "en"@) ==> !adds(all, "en-"@ + lang) && !adds(all, "en"@)
        }),
{
    let orig = Some(lang + tail);
    let all = plan(reals, autos, orig);
    let own = uploader(reals);
    let mid = with_native(own, autos, Some(lang));
    law_the_language_stands_before_the_hyphen(lang, tail);
    lemma_published_is_covered(reals, "en"@);
    lemma_auto_track(autos, lang + "-orig"@);
    lemma_auto_track(autos, lang);
    lemma_auto_track(autos, "en-"@ + lang);
    lemma_auto_track(autos, "en"@);
    lemma_language_keys(lang);
    law_the_uploaders_tracks_come_first(reals, autos, orig);
    assert forall|i: int| 0 <= i < own.len() implies !(#[trigger] all[i]).auto by {
        assert(all.take(own.len() as int)[i] == own[i]);
    }
    assert(covers(mid, "en"@) <==> covers(own, "en"@)) by {
        if covers(own, "en"@) {
            let i = choose|i: int|
                0 <= i < own.len() && base_lang(#[trigger] own[i].key) == "en"@;
            assert(mid[i] == own[i]);
        }
        if covers(mid, "en"@) {
            let i = choose|i: int|
                0 <= i < mid.len() && base_lang(#[trigger] mid[i].key) == "en"@;
            assert(i < own.len());
            assert(mid[i] == own[i]);
        }
    }
    reveal_strlit("en-");
    reveal_strlit("en");
    assert(("en-"@ + lang).len() != "en"@.len());
    if !covers(mid, "en"@) && english_track(autos, Some(lang)) is Some {
        assert(all == mid.push(english_track(autos, Some(lang)).unwrap()));
        assert(all[mid.len() as int].auto);
    }
}

/// Where the native language is not known, or is English, only English is added, and only where
/// the uploader published none: of an unknown native language the plain auto-captions, of an
/// English video the raw ones before the plain ones.
pub proof fn law_english_alone_is_planned(reals: captions::Named, autos: captions::Named)
    ensures
        ({
            let all = plan(reals, autos, None);
            &&& adds(all, "en"@) <==> !publishes(reals, "en"@) && offers(autos, "en"@)
            &&& forall|i: int|
                0 <= i < all.len() && (#[trigger] all[i]).auto ==> all[i].key == "en"@
        }),
        plan(reals, autos, Some(seq![])) == plan(reals, autos, None),
        ({
            let all = plan(reals, autos, Some("en"@));
            &&& publishes(reals, "en"@) ==> !adds(all, "en-orig"@) && !adds(all, "en"@)
            &&& !publishes(reals, "en"@) && offers(autos, "en-orig"@) ==> adds(all, "en-orig"@)
            &&& !publishes(reals, "en"@) && !offers(autos, "en-orig"@) && offers(autos, "en"@)
                ==> adds(all, "en"@)
        }),
{
    reveal_strlit("en-orig");
    reveal_strlit("-orig");
    reveal_strlit("en");
    assert("en"@ + "-orig"@ =~= "en-orig"@);
    assert(text::ascii_lower("en"@) =~= "en"@);
    assert(!"en"@.contains('-'));
    assert(is_language("en"@));
    lemma_language_keys("en"@);
    lemma_published_is_covered(reals, "en"@);
    lemma_auto_track(autos, "en"@);
    lemma_auto_track(autos, "en-orig"@);
    lemma_auto_track(autos, "en-"@ + "en"@);
    let own = uploader(reals);
    let all = plan(reals, autos, None);
    law_the_uploaders_tracks_come_first(reals, autos, None);
    assert forall|i: int| 0 <= i < own.len() implies !(#[trigger] all[i]).auto by {
        assert(all.take(own.len() as int)[i] == own[i]);
    }
    if all.len() > own.len() {
        assert(all[own.len() as int].auto);
    }
    let other = plan(reals, autos, Some("en"@));
    law_the_uploaders_tracks_come_first(reals, autos, Some("en"@));
    assert forall|i: int| 0 <= i < own.len() implies !(#[trigger] other[i]).auto by {
        assert(other.take(own.len() as int)[i] == own[i]);
    }
    let mid = with_native(own, autos, Some("en"@));
    if !covers(own, "en"@) && native_track(autos, "en"@) is Some {
        assert(base_lang(mid[own.len() as int].key) == "en"@);
        assert(covers(mid, "en"@));
        assert(other[own.len() as int].auto);
    }
}

/// An entry as the batch probe's print format prints it.
pub open spec fn printed_plan(
    index: Seq<char>,
    id: Seq<char>,
    language: Seq<char>,
    subs: Seq<char>,
    autos: Seq<char>,
) -> Seq<char> {
    index + seq!['\t'] + (id + seq!['\t'] + (language + seq!['\t'] + (subs + seq!['\t'] + autos)))
}

/// An entry that the batch probe's print format printed is read back: its position, its id, and
/// the plan that its language and caption lists make. Only the last field may hold a tab.
pub proof fn law_probe_lines_read_back(
    index: Seq<char>,
    id: Seq<char>,
    language: Seq<char>,
    subs: Seq<char>,
    autos: Seq<char>,
)
    requires
        !index.contains('\t'),
        !id.contains('\t'),
        !language.contains('\t'),
        !subs.contains('\t'),
    ensures
        line_plan(printed_plan(index, id, language, subs, autos)) == Some(
            PlannedView {
                index,
                id,
                picks: plan(
                    captions::lang_names(subs),
                    captions::lang_names(autos),
                    known(language),
                ),
            },
        ),
{
    let last = subs + seq!['\t'] + autos;
    let spoken = language + seq!['\t'] + last;
    let named = id + seq!['\t'] + spoken;
    text::lemma_first_piece(subs, '\t', autos);
    text::lemma_first_piece(language, '\t', last);
    text::lemma_first_piece(id, '\t', spoken);
    text::lemma_first_piece(index, '\t', named);
}

/// A video's probe is read back: the id of its first line, the language of its second, and the
/// plan that these make with the caption lists of the third and fourth; `NA` and nothing both
/// stand for what is not known. An answer that is too short, or none, plans the English family.
pub proof fn law_a_probe_reads_back(out: Seq<char>)
    ensures
        ({
            let lines = text::lines_of(out);
            let family = seq![
                PickView { key: "en"@, name: seq![], auto: false },
                PickView { key: "en-US"@, name: seq![], auto: false },
                PickView { key: "en-GB"@, name: seq![], auto: false },
            ];
            let name = if lines.len() == 0 || text::trimmed(lines[0]).len() == 0 || text::trimmed(
                lines[0],
            ) == "NA"@ {
                None
            } else {
                Some(text::trimmed(lines[0]))
            };
            &&& probed(None) == (None::<Seq<char>>, family)
            &&& lines.len() < 4 ==> probed(Some(out)) == (name, family)
            &&& lines.len() >= 4 ==> probed(Some(out)) == (
                name,
                plan(
                    captions::lang_names(lines[2]),
                    captions::lang_names(lines[3]),
                    if text::trimmed(lines[1]).len() == 0 || text::trimmed(lines[1]) == "NA"@ {
                        None
                    } else {
                        Some(text::trimmed(lines[1]))
                    },
                ),
            )
        }),
{
    assert(fallback() =~= seq![
        PickView { key: "en"@, name: seq![], auto: false },
        PickView { key: "en-US"@, name: seq![], auto: false },
        PickView { key: "en-GB"@, name: seq![], auto: false },
    ]);
}

/// One entry of a batch probe: its position, id and language, and its two caption lists.
pub struct Probe {
    pub index: Seq<char>,
    pub id: Seq<char>,
    pub language: Seq<char>,
    pub subs: Seq<char>,
    pub autos: Seq<char>,
}

/// The plan of one entry of a batch probe.
pub open spec fn planned_of(p: Probe) -> PlannedView {
    PlannedView {
        index: p.index,
        id: p.id,
        picks: plan(
            captions::lang_names(p.subs),
            captions::lang_names(p.autos),
            if p.language.len() == 0 || p.language == "NA"@ {
                None
            } else {
                Some(p.language)
            },
        ),
    }
}

/// The line of one entry of a batch probe.
pub open spec fn line_of(p: Probe) -> Seq<char> {
    printed_plan(p.index, p.id, p.language, p.subs, p.autos)
}

/// A batch probe is read back whole: every entry that it printed has its plan, in order; a probe
/// that failed gives none.
pub proof fn law_a_batch_reads_back(out: Seq<char>, probes: Seq<Probe>)
    requires
        text::lines_of(out) == probes.map_values(|p: Probe| line_of(p)),
        forall|i: int|
            0 <= i < probes.len() ==> !(#[trigger] probes[i]).index.contains('\t')
                && !probes[i].id.contains('\t') && !probes[i].language.contains('\t')
                && !probes[i].subs.contains('\t'),
    ensures
        batch_answer(Some(out)) == probes.map_values(|p: Probe| planned_of(p)),
        batch_answer(None) == Seq::<PlannedView>::empty(),
{
    lemma_batch_lines(probes);
}

proof fn lemma_batch_lines(probes: Seq<Probe>)
    requires
        forall|i: int|
            0 <= i < probes.len() ==> !(#[trigger] probes[i]).index.contains('\t')
                && !probes[i].id.contains('\t') && !probes[i].language.contains('\t')
                && !probes[i].subs.contains('\t'),
    ensures
        probes.map_values(|p: Probe| line_of(p)).filter_map(|line: Seq<char>| line_plan(line))
            == probes.map_values(|p: Probe| planned_of(p)),
    decreases probes.len(),
{
    let f = |line: Seq<char>| line_plan(line);
    let lines = probes.map_values(|p: Probe| line_of(p));
    let plans = probes.map_values(|p: Probe| planned_of(p));
    reveal(Seq::filter_map);
    if probes.len() > 0 {
        let prior = probes.drop_last();
        let last = probes[probes.len() - 1];
        assert forall|i: int| 0 <= i < prior.len() implies !(#[trigger] prior[i]).index.contains(
            '\t',
        ) && !prior[i].id.contains('\t') && !prior[i].language.contains('\t')
            && !prior[i].subs.contains('\t') by {
            assert(prior[i] == probes[i]);
        }
        lemma_batch_lines(prior);
        law_probe_lines_read_back(last.index, last.id, last.language, last.subs, last.autos);
        assert(lines.drop_last() =~= prior.map_values(|p: Probe| line_of(p)));
        assert(lines.last() == line_of(last));
        assert(plans =~= prior.map_values(|p: Probe| planned_of(p)).push(planned_of(last)));
    } else {
        assert(lines.filter_map(f) =~= plans);
    }
}

/// Of the native language only the part before a hyphen counts, and not its case.
pub proof fn law_only_the_language_counts(
    reals: captions::Named,
    autos: captions::Named,
    part: Seq<char>,
    tail: Seq<char>,
)
    requires
        vstd::utf8::is_ascii_chars(part),
        part.len() > 0,
        !part.contains('-'),
        tail.len() == 0 || tail[0] == '-',
    ensures
        plan(reals, autos, Some(part + tail)) == plan(
            reals,
            autos,
            Some(text::ascii_lower(part)),
        ),
{
    let lang = text::ascii_lower(part);
    lemma_lower_twice(part);
    law_the_language_stands_before_the_hyphen(part, tail);
    law_the_language_stands_before_the_hyphen(lang, seq![]);
    assert(lang + seq![] =~= lang);
}

} // verus!
