//! Subtitle track titles: what an honest one reads, and which of a file's tracks need one.

use vstd::prelude::*;
use vstd::string::*;
use crate::media::subtitles;
use crate::media::subtitles::{Pick, PickView};
use crate::util::text;

verus! {

/// What an auto-generated track's title ends with.
pub const AUTO_MARK: &'static str = "(auto-generated)";

/// An auto-generated track's honest title: the name without the misleading ` (Original)`, and the
/// machine origin stated.
pub open spec fn honest(name: Seq<char>) -> Seq<char> {
    text::without(name, " (Original)"@) + " "@ + AUTO_MARK@
}

/// An auto-generated track's honest title.
pub fn stamped_title(name: &str) -> (r: String)
    ensures
        r@ == honest(name@),
{
    proof {
        reveal_strlit(" (Original)");
    }
    let plain = text::remove_all(name, " (Original)");
    text::cat3(plain.as_str(), " ", AUTO_MARK)
}

/// The title an embedded track carries for a pick: the honest one for an auto-generated track,
/// the plain name otherwise.
pub open spec fn title_of(pick: PickView) -> Seq<char> {
    if pick.auto {
        honest(pick.name)
    } else {
        pick.name
    }
}

/// The title an embedded track carries for a pick.
pub fn subtitle_title(pick: &Pick) -> (r: String)
    ensures
        r@ == title_of(pick@),
{
    if pick.auto {
        stamped_title(pick.name.as_str())
    } else {
        pick.name.clone()
    }
}

/// Whether an auto-generated pick has this name.
pub open spec fn names_auto(picks: Seq<PickView>, title: Seq<char>) -> bool {
    exists|i: int| 0 <= i < picks.len() && (#[trigger] picks[i]).auto && picks[i].name == title
}

/// Whether no pick is the uploader's.
pub open spec fn all_auto(picks: Seq<PickView>) -> bool {
    forall|i: int| 0 <= i < picks.len() ==> (#[trigger] picks[i]).auto
}

/// The new title for a track titled `title`, where it needs one: it is not marked yet, and it is
/// known to be auto-generated, by its name or because every pick is.
pub open spec fn restamped(title: Seq<char>, picks: Seq<PickView>) -> Option<Seq<char>> {
    if AUTO_MARK@.is_suffix_of(title) {
        None
    } else if names_auto(picks, title) || all_auto(picks) {
        Some(
            honest(
                if title.len() == 0 {
                    "subtitles"@
                } else {
                    title
                },
            ),
        )
    } else {
        None
    }
}

/// The new titles for the tracks whose titles are `lines`, each with its track's position.
pub open spec fn stamps(lines: Seq<Seq<char>>, picks: Seq<PickView>) -> Seq<(int, Seq<char>)>
    decreases lines.len(),
{
    if lines.len() == 0 {
        seq![]
    } else {
        let before = stamps(lines.drop_last(), picks);
        match restamped(text::trimmed(lines.last()), picks) {
            Some(title) => before.push((lines.len() - 1, title)),
            None => before,
        }
    }
}

/// Numbered texts, as numbers and characters.
pub open spec fn numbered(v: Seq<(usize, String)>) -> Seq<(int, Seq<char>)> {
    v.map_values(|p: (usize, String)| (p.0 as int, p.1@))
}

fn is_auto_name(picks: &[Pick], title: &str) -> (r: bool)
    ensures
        r == names_auto(subtitles::pick_views(picks@), title@),
{
    let ghost views = subtitles::pick_views(picks@);
    let mut i: usize = 0;
    while i < picks.len()
        invariant
            i <= picks@.len(),
            views == subtitles::pick_views(picks@),
            forall|j: int| 0 <= j < i ==> !((#[trigger] views[j]).auto && views[j].name == title@),
        decreases picks@.len() - i,
    {
        assert(views[i as int] == picks@[i as int]@);
        if picks[i].auto && text::same(picks[i].name.as_str(), title) {
            return true;
        }
        i += 1;
    }
    false
}

/// Whether no pick is the uploader's.
pub fn only_auto(picks: &[Pick]) -> (r: bool)
    ensures
        r == all_auto(subtitles::pick_views(picks@)),
{
    let ghost views = subtitles::pick_views(picks@);
    let mut i: usize = 0;
    while i < picks.len()
        invariant
            i <= picks@.len(),
            views == subtitles::pick_views(picks@),
            forall|j: int| 0 <= j < i ==> (#[trigger] views[j]).auto,
        decreases picks@.len() - i,
    {
        assert(views[i as int] == picks@[i as int]@);
        if !picks[i].auto {
            return false;
        }
        i += 1;
    }
    true
}

/// Whether one of the picks is auto-generated.
pub open spec fn some_auto(picks: Seq<PickView>) -> bool {
    exists|i: int| 0 <= i < picks.len() && (#[trigger] picks[i]).auto
}

/// Whether one of the picks is auto-generated.
pub fn any_auto(picks: &[Pick]) -> (r: bool)
    ensures
        r == some_auto(subtitles::pick_views(picks@)),
{
    let ghost views = subtitles::pick_views(picks@);
    let mut i: usize = 0;
    while i < picks.len()
        invariant
            i <= picks@.len(),
            views == subtitles::pick_views(picks@),
            forall|j: int| 0 <= j < i ==> !(#[trigger] views[j]).auto,
        decreases picks@.len() - i,
    {
        assert(views[i as int] == picks@[i as int]@);
        if picks[i].auto {
            return true;
        }
        i += 1;
    }
    false
}

/// The rewrites (track position, new title) for `listing`, which holds one title to a line, in
/// stream order.
pub fn auto_title_stamps(listing: &str, picks: &[Pick]) -> (r: Vec<(usize, String)>)
    ensures
        numbered(r@) == stamps(text::lines_of(listing@), subtitles::pick_views(picks@)),
{
    let lines = text::lines(listing);
    let ghost all = text::lines_of(listing@);
    let ghost views = subtitles::pick_views(picks@);
    let every = only_auto(picks);
    let mut out: Vec<(usize, String)> = Vec::new();
    let mut order: usize = 0;
    assert(all.take(0) =~= seq![]);
    assert(numbered(out@) =~= stamps(all.take(0), views));
    while order < lines.len()
        invariant
            order <= lines@.len(),
            all == text::texts(lines@),
            views == subtitles::pick_views(picks@),
            every == all_auto(views),
            numbered(out@) == stamps(all.take(order as int), views),
        decreases lines@.len() - order,
    {
        let ghost before = out@;
        proof {
            assert(all.take(order + 1).drop_last() =~= all.take(order as int));
            assert(all.take(order + 1).last() == lines@[order as int]@);
        }
        let title = text::trim(lines[order].as_str());
        if !text::ends_with(title.as_str(), AUTO_MARK) {
            if is_auto_name(picks, title.as_str()) || every {
                let stamped = if title.as_str().is_empty() {
                    stamped_title("subtitles")
                } else {
                    stamped_title(title.as_str())
                };
                out.push((order, stamped));
                assert(numbered(out@) =~= numbered(before).push((order as int, stamped@)));
            }
        }
        order += 1;
    }
    assert(all.take(order as int) =~= all);
    out
}

/// Titles with changes put in, each a position and the new title.
pub open spec fn retitled(lines: Seq<Seq<char>>, changes: Seq<(int, Seq<char>)>) -> Seq<Seq<char>>
    decreases changes.len(),
{
    if changes.len() == 0 {
        lines
    } else {
        retitled(lines, changes.drop_last()).update(changes.last().0, changes.last().1)
    }
}

/// Stamping is idempotent: once the new titles for a listing are put in, a second stamping finds
/// nothing to change.
pub proof fn law_stamping_is_idempotent(lines: Seq<Seq<char>>, picks: Seq<PickView>)
    ensures
        stamps(retitled(lines, stamps(lines, picks)), picks) == Seq::<(int, Seq<char>)>::empty(),
    decreases lines.len(),
{
    if lines.len() == 0 {
        assert(retitled(lines, stamps(lines, picks)) == lines);
    } else {
        let prior = lines.drop_last();
        let changes = stamps(prior, picks);
        let kept = retitled(prior, changes);
        let new = retitled(lines, stamps(lines, picks));
        law_stamping_is_idempotent(prior, picks);
        lemma_changes_lie_within(prior, picks);
        lemma_retitled_pushes(prior, lines.last(), changes);
        assert(prior.push(lines.last()) =~= lines);
        match restamped(text::trimmed(lines.last()), picks) {
            Some(title) => {
                let all = changes.push((lines.len() - 1, title));
                assert(all.drop_last() =~= changes);
                assert(new =~= kept.push(title));
                lemma_marked_stays_marked(text::trimmed(lines.last()), picks);
            },
            None => {
                assert(new =~= kept.push(lines.last()));
            },
        }
        assert(new.drop_last() =~= kept);
    }
}

proof fn lemma_changes_lie_within(lines: Seq<Seq<char>>, picks: Seq<PickView>)
    ensures
        forall|i: int|
            0 <= i < stamps(lines, picks).len() ==> 0 <= (#[trigger] stamps(lines, picks)[i]).0
                < lines.len(),
    decreases lines.len(),
{
    if lines.len() > 0 {
        let before = stamps(lines.drop_last(), picks);
        let all = stamps(lines, picks);
        lemma_changes_lie_within(lines.drop_last(), picks);
        assert forall|i: int| 0 <= i < all.len() implies 0 <= (#[trigger] all[i]).0
            < lines.len() by {
            if i < before.len() {
                assert(all[i] == before[i]);
            }
        }
    }
}

proof fn lemma_retitled_pushes(
    lines: Seq<Seq<char>>,
    last: Seq<char>,
    changes: Seq<(int, Seq<char>)>,
)
    requires
        forall|i: int| 0 <= i < changes.len() ==> 0 <= (#[trigger] changes[i]).0 < lines.len(),
    ensures
        retitled(lines.push(last), changes) == retitled(lines, changes).push(last),
        retitled(lines, changes).len() == lines.len(),
    decreases changes.len(),
{
    if changes.len() > 0 {
        let fewer = changes.drop_last();
        assert forall|i: int| 0 <= i < fewer.len() implies 0 <= (#[trigger] fewer[i]).0
            < lines.len() by {
            assert(fewer[i] == changes[i]);
        }
        lemma_retitled_pushes(lines, last, fewer);
        let c = changes[changes.len() - 1];
        assert(0 <= c.0 < lines.len());
        assert(retitled(lines.push(last), changes) =~= retitled(lines, changes).push(last));
    }
}

/// A new title is marked, also once it was trimmed.
proof fn lemma_marked_stays_marked(title: Seq<char>, picks: Seq<PickView>)
    ensures
        match restamped(title, picks) {
            Some(new) => restamped(text::trimmed(new), picks) is None,
            None => true,
        },
{
    if let Some(new) = restamped(title, picks) {
        let body = if title.len() == 0 {
            "subtitles"@
        } else {
            title
        };
        let s = text::without(body, " (Original)"@) + " "@;
        assert(new == s + AUTO_MARK@);
        assert(new.subrange(s.len() as int, new.len() as int) =~= AUTO_MARK@);
        assert(AUTO_MARK@.is_suffix_of(new));
        reveal_strlit("(auto-generated)");
        assert(!text::is_white('('));
        assert(!text::is_white(')'));
        text::lemma_trimming_keeps_suffix(new, AUTO_MARK@);
    }
}

/// The uploader's own track is never renamed while an auto-generated pick of another name stands
/// beside it: among mixed picks only a track named like an auto-generated one gets a new title.
pub proof fn law_mixed_picks_match_by_name(title: Seq<char>, picks: Seq<PickView>)
    requires
        !all_auto(picks),
        restamped(title, picks) is Some,
    ensures
        names_auto(picks, title),
{
}

/// The title that a line of an ffprobe listing holds.
pub open spec fn tag_title(line: Seq<char>) -> Option<Seq<char>> {
    if "TAG:title="@.is_prefix_of(line) {
        Some(line.skip("TAG:title="@.len() as int))
    } else {
        None
    }
}

/// The titles of the streams in an ffprobe listing.
pub open spec fn titles_in(listing: Seq<char>) -> Seq<Seq<char>> {
    text::lines_of(listing).filter_map(|line: Seq<char>| tag_title(line))
}

/// The titles of the subtitle streams in an ffprobe listing, one `TAG:title=` line to a titled
/// stream.
pub fn subtitle_titles(listing: &str) -> (r: Vec<String>)
    ensures
        text::texts(r@) == titles_in(listing@),
{
    let lines = text::lines(listing);
    let ghost all = text::lines_of(listing@);
    let ghost f = |line: Seq<char>| tag_title(line);
    let mut out: Vec<String> = Vec::new();
    let mut i: usize = 0;
    assert(all.take(0) =~= seq![]);
    assert(text::texts(out@) =~= all.take(0).filter_map(f));
    while i < lines.len()
        invariant
            i <= lines@.len(),
            all == text::texts(lines@),
            f == |line: Seq<char>| tag_title(line),
            text::texts(out@) == all.take(i as int).filter_map(f),
        decreases lines@.len() - i,
    {
        proof {
            all.lemma_filter_map_take_succ(f, i as int);
            assert(all[i as int] == lines@[i as int]@);
        }
        if let Some(title) = text::strip_prefix(lines[i].as_str(), "TAG:title=") {
            text::put(&mut out, title.as_str());
        }
        i += 1;
        assert(text::texts(out@) =~= all.take(i as int).filter_map(f));
    }
    assert(all.take(i as int) =~= all);
    out
}

/// The number of streams among the lines of an ffprobe listing.
pub open spec fn streams_in(lines: Seq<Seq<char>>) -> nat
    decreases lines.len(),
{
    if lines.len() == 0 {
        0
    } else {
        streams_in(lines.drop_last()) + if "index="@.is_prefix_of(lines.last()) {
            1nat
        } else {
            0
        }
    }
}

/// The number of streams in an ffprobe listing, one `index=` line to a stream.
pub fn stream_count(listing: &str) -> (r: usize)
    ensures
        r == streams_in(text::lines_of(listing@)),
{
    let lines = text::lines(listing);
    let ghost all = text::lines_of(listing@);
    let mut count: usize = 0;
    let mut i: usize = 0;
    assert(all.take(0) =~= seq![]);
    while i < lines.len()
        invariant
            i <= lines@.len(),
            all == text::texts(lines@),
            count == streams_in(all.take(i as int)),
            count <= i,
        decreases lines@.len() - i,
    {
        proof {
            assert(all.take(i + 1).drop_last() =~= all.take(i as int));
            assert(all.take(i + 1).last() == lines@[i as int]@);
        }
        if text::starts_with(lines[i].as_str(), "index=") {
            count += 1;
        }
        i += 1;
    }
    assert(all.take(i as int) =~= all);
    count
}

/// An uploaded track keeps its name as its title. An auto-generated one carries its name and says
/// that it is auto-generated; an ` (Original)` at the end of its name goes.
pub proof fn law_titles_are_honest(name: Seq<char>, key: Seq<char>)
    requires
        !text::has(name, " (Original)"@),
    ensures
        title_of(PickView { key, name, auto: false }) == name,
        title_of(PickView { key, name: name + " (Original)"@, auto: false }) == name
            + " (Original)"@,
        title_of(PickView { key, name, auto: true }) == name + " (auto-generated)"@,
        title_of(PickView { key, name: name + " (Original)"@, auto: true }) == name
            + " (auto-generated)"@,
{
    reveal_strlit(" ");
    reveal_strlit("(auto-generated)");
    reveal_strlit(" (auto-generated)");
    reveal_strlit(" (Original)");
    assert(" (auto-generated)"@ =~= " "@ + "(auto-generated)"@);
    let pat = " (Original)"@;
    text::lemma_find_is_first(name, pat);
    assert(honest(name) =~= name + " (auto-generated)"@);
    let whole = name + pat;
    let n = name.len() as int;
    assert(whole.subrange(n, n + pat.len()) =~= pat);
    assert forall|j: int| 0 <= j < n implies #[trigger] whole.subrange(j, j + pat.len())
        != pat by {
        if whole.subrange(j, j + pat.len()) == pat {
            if j + pat.len() <= n {
                assert(name.subrange(j, j + pat.len()) =~= pat);
                assert(text::occurs_at(name, pat, j));
            } else {
                assert(whole.subrange(j, j + pat.len())[n - j] == ' ');
                assert(pat[n - j] != ' ');
            }
        }
    }
    assert(text::first_at(whole, pat, n));
    text::lemma_find_is_first(whole, pat);
    assert(whole.skip(n + pat.len()) =~= seq![]);
    assert(whole.take(n) =~= name);
    let none = Seq::<char>::empty();
    text::lemma_find_is_first(none, pat);
    assert(!text::has(none, pat));
    assert(text::without(none, pat) == none);
    assert(text::without(whole, pat) =~= name);
    assert(honest(whole) =~= name + " (auto-generated)"@);
}

/// Whether a track with this title needs a new one: the title is not marked yet, and either it is
/// the name of an auto-generated pick or every pick is auto-generated.
pub open spec fn needs_stamp(title: Seq<char>, picks: Seq<PickView>) -> bool {
    &&& !"(auto-generated)"@.is_suffix_of(title)
    &&& (exists|i: int| 0 <= i < picks.len() && (#[trigger] picks[i]).auto && picks[i].name
        == title) || (forall|i: int| 0 <= i < picks.len() ==> (#[trigger] picks[i]).auto)
}

/// A track gets a new title exactly if it needs one: at its own position, and with the honest
/// title for what it is called, or for `subtitles` where it is called nothing.
pub proof fn law_every_track_that_needs_it_is_stamped(
    lines: Seq<Seq<char>>,
    picks: Seq<PickView>,
    k: int,
    title: Seq<char>,
)
    ensures
        stamps(lines, picks).contains((k, title)) <==> 0 <= k < lines.len() && needs_stamp(
            text::trimmed(lines[k]),
            picks,
        ) && title == title_of(
            PickView {
                key: seq![],
                name: if text::trimmed(lines[k]).len() == 0 {
                    "subtitles"@
                } else {
                    text::trimmed(lines[k])
                },
                auto: true,
            },
        ),
    decreases lines.len(),
{
    if lines.len() > 0 {
        let prior = lines.drop_last();
        let before = stamps(prior, picks);
        let after = stamps(lines, picks);
        let n = lines.len() - 1;
        law_every_track_that_needs_it_is_stamped(prior, picks, k, title);
        lemma_changes_lie_within(prior, picks);
        assert(restamped(text::trimmed(lines[n]), picks) is Some <==> needs_stamp(
            text::trimmed(lines[n]),
            picks,
        ));
        if before.contains((k, title)) {
            let a = choose|a: int| 0 <= a < before.len() && before[a] == (k, title);
            assert(after[a] == (k, title));
            assert(prior[k] == lines[k]);
        }
        if after.contains((k, title)) {
            let a = choose|a: int| 0 <= a < after.len() && after[a] == (k, title);
            if a < before.len() {
                assert(before[a] == (k, title));
            }
        }
        if 0 <= k < n {
            assert(prior[k] == lines[k]);
        }
        if k == n && needs_stamp(text::trimmed(lines[n]), picks) {
            assert(after[before.len() as int].0 == n);
        }
    }
}

/// The titles that ffprobe lists are read, each behind its `TAG:title=`, and the streams are
/// counted by their `index=` lines.
pub proof fn law_listed_titles_are_read(listing: Seq<char>, title: Seq<char>)
    ensures
        titles_in(listing).contains(title) <==> text::lines_of(listing).contains(
            "TAG:title="@ + title,
        ),
        streams_in(text::lines_of(listing)) == text::lines_of(listing).filter(
            |line: Seq<char>| "index="@.is_prefix_of(line),
        ).len(),
{
    let lines = text::lines_of(listing);
    let f = |line: Seq<char>| tag_title(line);
    let line = "TAG:title="@ + title;
    assert(line.take("TAG:title="@.len() as int) =~= "TAG:title="@);
    assert(line.skip("TAG:title="@.len() as int) =~= title);
    if titles_in(listing).contains(title) {
        lines.lemma_filter_map_contains(f, title);
        let i = choose|i: int| 0 <= i < lines.len() && f(#[trigger] lines[i]) == Some(title);
        let found = lines[i];
        assert("TAG:title="@.is_prefix_of(found));
        assert(found =~= line);
        assert(lines.contains(lines[i]));
    }
    if lines.contains(line) {
        let i = choose|i: int| 0 <= i < lines.len() && lines[i] == line;
        assert(f(lines[i]) == Some(title));
        text::lemma_read_from_each(lines, f, i);
    }
    lemma_streams_are_counted(lines);
}

proof fn lemma_streams_are_counted(lines: Seq<Seq<char>>)
    ensures
        streams_in(lines) == lines.filter(|line: Seq<char>| "index="@.is_prefix_of(line)).len(),
    decreases lines.len(),
{
    reveal(Seq::filter);
    if lines.len() > 0 {
        lemma_streams_are_counted(lines.drop_last());
    }
}

} // verus!
