//! The failed-downloads ledger: its lines, written, matched and scrubbed.

use vstd::prelude::*;
use vstd::string::*;
use crate::link;
use crate::util::text;

verus! {

/// The failure ledger's file name, beside the collection's archive.
pub const FAILED_LEDGER: &'static str = ".dl_video_failed_download.txt";

/// What a ledger block's header starts with.
pub const HEADER_MARK: &'static str = "── ";

/// Whether `=id` stands at position `i` of a line, with nothing behind it that could go on the id.
pub open spec fn parameter_at(line: Seq<char>, id: Seq<char>, i: int) -> bool {
    &&& text::occurs_at(line, "="@ + id, i)
    &&& i + 1 + id.len() == line.len() || !link::is_id_char(line[i + 1 + id.len()])
}

/// Whether a ledger line refers to the video `id`: by `[id]`, by `=id` (as in a URL) where the id
/// ends there, or by the id and a space at its start. Each form is delimited, so that a short id
/// does not match in the middle of a word of another entry's title.
pub open spec fn refers(line: Seq<char>, id: Seq<char>) -> bool {
    ||| text::has(line, "["@ + id + "]"@)
    ||| exists|i: int| parameter_at(line, id, i)
    ||| (id + " "@).is_prefix_of(line)
}

fn has_parameter(line: &str, id: &str) -> (r: bool)
    ensures
        r == (exists|i: int| parameter_at(line@, id@, i)),
{
    let parameter = text::cat("=", id);
    let v = text::chars_of(line);
    let p = text::chars_of(parameter.as_str());
    proof {
        reveal_strlit("=");
    }
    let n: usize = v.len();
    let m: usize = p.len();
    if n < m {
        return false;
    }
    let last: usize = n - m;
    let mut i: usize = 0;
    while i <= last
        invariant
            i <= last + 1,
            last + m == n,
            n == v@.len(),
            m == p@.len(),
            m == id@.len() + 1,
            v@ == line@,
            p@ == "="@ + id@,
            forall|j: int| 0 <= j < i ==> !parameter_at(line@, id@, j),
        decreases last + 1 - i,
    {
        if text::matches_at(v.as_slice(), p.as_slice(), i) {
            if i == last || !link::id_char(v[i + m]) {
                assert(parameter_at(line@, id@, i as int));
                return true;
            }
        }
        assert(!parameter_at(line@, id@, i as int));
        if i == last {
            return false;
        }
        i += 1;
    }
    false
}

/// Whether a ledger line refers to the video `id`.
pub fn ledger_line_refers(line: &str, id: &str) -> (r: bool)
    ensures
        r == refers(line@, id@),
{
    let bracketed = text::cat3("[", id, "]");
    let label = text::cat(id, " ");
    text::contains(line, bracketed.as_str()) || has_parameter(line, id) || text::starts_with(
        line,
        label.as_str(),
    )
}

/// Whether a ledger line is a block's header.
pub open spec fn is_header(line: Seq<char>) -> bool {
    HEADER_MARK@.is_prefix_of(line)
}

/// Whether a ledger line refers to one of the videos `ids`.
pub open spec fn resolved(line: Seq<char>, ids: Seq<Seq<char>>) -> bool {
    exists|i: int| 0 <= i < ids.len() && refers(line, #[trigger] ids[i])
}

/// Whether a ledger line is an entry that stays when the videos `ids` have downloaded.
pub open spec fn live(line: Seq<char>, ids: Seq<Seq<char>>) -> bool {
    !is_header(line) && !resolved(line, ids) && text::trimmed(line).len() > 0
}

/// The ledger lines that stay when the videos `ids` have downloaded: the entries that do not
/// refer to one of them, and each header that one of these directly follows.
pub open spec fn kept(lines: Seq<Seq<char>>, ids: Seq<Seq<char>>) -> Seq<Seq<char>>
    decreases lines.len(),
{
    if lines.len() == 0 {
        seq![]
    } else {
        let rest = kept(lines.drop_first(), ids);
        if live(lines[0], ids) {
            seq![lines[0]] + rest
        } else if is_header(lines[0]) && rest.len() > 0 && !is_header(rest[0]) {
            seq![lines[0]] + rest
        } else {
            rest
        }
    }
}

/// The number of ledger entries that refer to one of the videos `ids`.
pub open spec fn cleared(lines: Seq<Seq<char>>, ids: Seq<Seq<char>>) -> nat
    decreases lines.len(),
{
    if lines.len() == 0 {
        0
    } else {
        cleared(lines.drop_last(), ids) + if !is_header(lines.last()) && resolved(
            lines.last(),
            ids,
        ) {
            1nat
        } else {
            0
        }
    }
}

/// What a ledger's scrubbing comes to.
pub enum Scrub {
    /// No entry was cleared: the file stays as it is.
    Unchanged,
    /// This many entries were cleared, and none is left: the file goes.
    Emptied { cleared: usize },
    /// This many entries were cleared; the file's new text.
    Rewritten { cleared: usize, text: String },
}

/// A [`Scrub`] with its text as a sequence of characters.
pub enum ScrubView {
    Unchanged,
    Emptied { cleared: nat },
    Rewritten { cleared: nat, text: Seq<char> },
}

impl View for Scrub {
    type V = ScrubView;

    open spec fn view(&self) -> ScrubView {
        match self {
            Scrub::Unchanged => ScrubView::Unchanged,
            Scrub::Emptied { cleared } => ScrubView::Emptied { cleared: *cleared as nat },
            Scrub::Rewritten { cleared, text } => ScrubView::Rewritten {
                cleared: *cleared as nat,
                text: text@,
            },
        }
    }
}

/// What the scrubbing of a ledger comes to when the videos `ids` have downloaded.
pub open spec fn scrubbed(ledger: Seq<char>, ids: Seq<Seq<char>>) -> ScrubView {
    let lines = text::lines_of(ledger);
    let left = kept(lines, ids);
    if cleared(lines, ids) == 0 {
        ScrubView::Unchanged
    } else if left.len() == 0 {
        ScrubView::Emptied { cleared: cleared(lines, ids) }
    } else {
        ScrubView::Rewritten {
            cleared: cleared(lines, ids),
            text: text::joined(left, "\n"@) + "\n"@,
        }
    }
}

fn is_resolved(line: &str, ids: &[String]) -> (r: bool)
    ensures
        r == resolved(line@, text::texts(ids@)),
{
    let ghost all = text::texts(ids@);
    let mut i: usize = 0;
    while i < ids.len()
        invariant
            i <= ids@.len(),
            all == text::texts(ids@),
            forall|j: int| 0 <= j < i ==> !refers(line@, #[trigger] all[j]),
        decreases ids@.len() - i,
    {
        assert(all[i as int] == ids@[i as int]@);
        if ledger_line_refers(line, ids[i].as_str()) {
            return true;
        }
        i += 1;
    }
    false
}

/// What comes of the lines kept so far and those kept of the rest: a header at the end of the
/// first goes, unless an entry opens the second.
spec fn merged(stack: Seq<Seq<char>>, rest: Seq<Seq<char>>) -> Seq<Seq<char>> {
    if stack.len() > 0 && is_header(stack.last()) && (rest.len() == 0 || is_header(rest[0])) {
        stack.drop_last() + rest
    } else {
        stack + rest
    }
}

fn drop_header(stack: &mut Vec<String>)
    ensures
        text::texts(final(stack)@) == merged(text::texts(old(stack)@), seq![]),
{
    let ghost before = text::texts(stack@);
    let n: usize = stack.len();
    if n > 0 {
        assert(before.last() == stack@[n - 1]@);
        if text::starts_with(stack[n - 1].as_str(), HEADER_MARK) {
            let _ = stack.pop();
            assert(text::texts(stack@) =~= before.drop_last());
        }
    }
    assert(text::texts(stack@) =~= merged(before, seq![]));
}

/// Scrub a ledger: clear the entries whose videos `archived` holds, drop the headers that this
/// leaves without an entry, and drop blank lines.
pub fn scrub(ledger: &str, archived: &[String]) -> (r: Scrub)
    ensures
        r@ == scrubbed(ledger@, text::texts(archived@)),
{
    let lines = text::lines(ledger);
    let ghost all = text::lines_of(ledger@);
    let ghost ids = text::texts(archived@);
    let mut stack: Vec<String> = Vec::new();
    let mut count: usize = 0;
    let mut i: usize = 0;
    assert(text::texts(stack@) =~= seq![]);
    assert(all.skip(0) =~= all);
    assert(all.take(0) =~= seq![]);
    while i < lines.len()
        invariant
            i <= lines@.len(),
            all == text::texts(lines@),
            ids == text::texts(archived@),
            kept(all, ids) =~= merged(text::texts(stack@), kept(all.skip(i as int), ids)),
            count == cleared(all.take(i as int), ids),
            count <= i,
        decreases lines@.len() - i,
    {
        let ghost before = text::texts(stack@);
        let ghost now = all.skip(i as int);
        let ghost rest = kept(all.skip(i + 1), ids);
        proof {
            assert(now.drop_first() =~= all.skip(i + 1));
            assert(now[0] == lines@[i as int]@);
            assert(all.take(i + 1).drop_last() =~= all.take(i as int));
            assert(all.take(i + 1).last() == lines@[i as int]@);
        }
        if text::starts_with(lines[i].as_str(), HEADER_MARK) {
            drop_header(&mut stack);
            text::put(&mut stack, lines[i].as_str());
            assert(text::texts(stack@).drop_last() =~= merged(before, seq![]));
        } else if is_resolved(lines[i].as_str(), archived) {
            count += 1;
        } else {
            let shown = text::trim(lines[i].as_str());
            if !shown.as_str().is_empty() {
                text::put(&mut stack, lines[i].as_str());
            }
        }
        i += 1;
        assert(merged(text::texts(stack@), rest) =~= merged(before, kept(now, ids)));
    }
    assert(all.take(i as int) =~= all);
    assert(all.skip(i as int) =~= seq![]);
    drop_header(&mut stack);
    assert(text::texts(stack@) =~= kept(all, ids));
    if count == 0 {
        Scrub::Unchanged
    } else if stack.len() == 0 {
        Scrub::Emptied { cleared: count }
    } else {
        let body = text::join(stack.as_slice(), "\n");
        Scrub::Rewritten { cleared: count, text: text::cat(body.as_str(), "\n") }
    }
}

/// Lines, each with a line feed behind it.
pub open spec fn ended(lines: Seq<Seq<char>>) -> Seq<char>
    decreases lines.len(),
{
    if lines.len() == 0 {
        seq![]
    } else {
        ended(lines.drop_last()) + lines.last() + "\n"@
    }
}

/// The block that a run's failures add to the ledger: a header with the instant that `stamp`
/// names, and one line to a failure.
pub open spec fn block(stamp: Seq<char>, lines: Seq<Seq<char>>) -> Seq<char> {
    HEADER_MARK@ + stamp + " ──\n"@ + ended(lines)
}

/// The block that a run's failures add to the ledger.
pub fn ledger_block(stamp: &str, lines: &[String]) -> (r: String)
    ensures
        r@ == block(stamp@, text::texts(lines@)),
{
    let mut out = text::cat3(HEADER_MARK, stamp, " ──\n");
    let ghost start = out@;
    let ghost all = text::texts(lines@);
    let mut i: usize = 0;
    assert(all.take(0) =~= seq![]);
    assert(out@ =~= start + ended(all.take(0)));
    while i < lines.len()
        invariant
            i <= lines@.len(),
            all == text::texts(lines@),
            out@ == start + ended(all.take(i as int)),
        decreases lines@.len() - i,
    {
        proof {
            assert(all.take(i + 1).drop_last() =~= all.take(i as int));
            assert(all.take(i + 1).last() == lines@[i as int]@);
        }
        out.append(lines[i].as_str());
        out.append("\n");
        i += 1;
        assert(out@ =~= start + ended(all.take(i as int)));
    }
    assert(all.take(i as int) =~= all);
    out
}

/// A scrub clears exactly what is resolved: the entries that stay are those of the ledger that no
/// archived video resolves, in their order, and beside them only headers.
pub proof fn law_scrub_keeps_what_is_unresolved(lines: Seq<Seq<char>>, ids: Seq<Seq<char>>)
    ensures
        kept(lines, ids).filter(|line: Seq<char>| !is_header(line)) == lines.filter(
            |line: Seq<char>| live(line, ids),
        ),
        forall|i: int|
            0 <= i < kept(lines, ids).len() ==> is_header(#[trigger] kept(lines, ids)[i]) || live(
                kept(lines, ids)[i],
                ids,
            ),
    decreases lines.len(),
{
    let entry = |line: Seq<char>| !is_header(line);
    let stays = |line: Seq<char>| live(line, ids);
    reveal(Seq::filter);
    if lines.len() > 0 {
        let first = seq![lines[0]];
        let others = lines.drop_first();
        let rest = kept(others, ids);
        law_scrub_keeps_what_is_unresolved(others, ids);
        assert(lines =~= first + others);
        Seq::filter_distributes_over_add(first, others, stays);
        Seq::filter_distributes_over_add(first, rest, entry);
        assert(first.drop_last() =~= seq![]);
        assert(first.drop_last().filter(stays) =~= seq![]);
        assert(first.drop_last().filter(entry) =~= seq![]);
        assert(first.filter(stays) =~= if live(lines[0], ids) {
            first
        } else {
            seq![]
        });
        assert(first.filter(entry) =~= if !is_header(lines[0]) {
            first
        } else {
            seq![]
        });
        let all = kept(lines, ids);
        assert(all.filter(entry) =~= lines.filter(stays));
        assert forall|i: int| 0 <= i < all.len() implies is_header(#[trigger] all[i]) || live(
            all[i],
            ids,
        ) by {
            if all.len() == rest.len() {
                assert(all == rest);
                assert(is_header(rest[i]) || live(rest[i], ids));
            } else if i > 0 {
                assert(all[i] == rest[i - 1]);
                assert(is_header(rest[i - 1]) || live(rest[i - 1], ids));
            }
        }
    } else {
        assert(kept(lines, ids).filter(entry) =~= lines.filter(stays));
    }
}

/// A scrub leaves no header without an entry: each one that stays is directly followed by an
/// entry.
pub proof fn law_scrub_leaves_no_empty_block(lines: Seq<Seq<char>>, ids: Seq<Seq<char>>)
    ensures
        forall|i: int|
            0 <= i < kept(lines, ids).len() && is_header(#[trigger] kept(lines, ids)[i]) ==> i + 1
                < kept(lines, ids).len() && !is_header(kept(lines, ids)[i + 1]),
    decreases lines.len(),
{
    if lines.len() > 0 {
        let others = lines.drop_first();
        let rest = kept(others, ids);
        let all = kept(lines, ids);
        law_scrub_leaves_no_empty_block(others, ids);
        assert forall|i: int| 0 <= i < all.len() && is_header(#[trigger] all[i]) implies i + 1
            < all.len() && !is_header(all[i + 1]) by {
            if all.len() == rest.len() {
                assert(is_header(rest[i]));
            } else if i > 0 {
                assert(all[i] == rest[i - 1]);
                assert(is_header(rest[i - 1]));
                assert(all[i + 1] == rest[i]);
            } else {
                assert(all[1] == rest[0]);
            }
        }
    }
}

/// Scrubbing once is enough: what a scrub keeps, the next one with the same archive keeps whole,
/// with nothing left to clear.
pub proof fn law_scrubbing_again_changes_nothing(lines: Seq<Seq<char>>, ids: Seq<Seq<char>>)
    ensures
        kept(kept(lines, ids), ids) == kept(lines, ids),
        cleared(kept(lines, ids), ids) == 0,
{
    law_scrub_keeps_what_is_unresolved(lines, ids);
    law_scrub_leaves_no_empty_block(lines, ids);
    lemma_kept_stays(kept(lines, ids), ids);
    lemma_nothing_cleared(kept(lines, ids), ids);
}

proof fn lemma_kept_stays(lines: Seq<Seq<char>>, ids: Seq<Seq<char>>)
    requires
        forall|i: int|
            0 <= i < lines.len() ==> is_header(#[trigger] lines[i]) || live(lines[i], ids),
        forall|i: int|
            0 <= i < lines.len() && is_header(#[trigger] lines[i]) ==> i + 1 < lines.len()
                && !is_header(lines[i + 1]),
    ensures
        kept(lines, ids) == lines,
    decreases lines.len(),
{
    if lines.len() > 0 {
        let others = lines.drop_first();
        assert forall|i: int| 0 <= i < others.len() implies is_header(#[trigger] others[i])
            || live(others[i], ids) by {
            assert(others[i] == lines[i + 1]);
        }
        assert forall|i: int| 0 <= i < others.len() && is_header(#[trigger] others[i]) implies i
            + 1 < others.len() && !is_header(others[i + 1]) by {
            assert(others[i] == lines[i + 1]);
            assert(lines[i + 2] == others[i + 1]);
        }
        lemma_kept_stays(others, ids);
        assert(is_header(lines[0]) || live(lines[0], ids));
        if is_header(lines[0]) {
            assert(!is_header(lines[1]));
            assert(others[0] == lines[1]);
        }
        assert(seq![lines[0]] + others =~= lines);
    } else {
        assert(kept(lines, ids) =~= lines);
    }
}

proof fn lemma_nothing_cleared(lines: Seq<Seq<char>>, ids: Seq<Seq<char>>)
    requires
        forall|i: int|
            0 <= i < lines.len() ==> is_header(#[trigger] lines[i]) || !resolved(lines[i], ids),
    ensures
        cleared(lines, ids) == 0,
    decreases lines.len(),
{
    if lines.len() > 0 {
        let prior = lines.drop_last();
        assert forall|i: int| 0 <= i < prior.len() implies is_header(#[trigger] prior[i])
            || !resolved(prior[i], ids) by {
            assert(prior[i] == lines[i]);
        }
        lemma_nothing_cleared(prior, ids);
        assert(is_header(lines[lines.len() - 1]) || !resolved(lines[lines.len() - 1], ids));
    }
}

/// Whether a text can stand as one line of a file and be read back whole.
pub open spec fn one_line(line: Seq<char>) -> bool {
    !line.contains('\n') && (line.len() == 0 || line.last() != '\r')
}

proof fn lemma_first_line(line: Seq<char>, rest: Seq<char>)
    requires
        !line.contains('\n'),
    ensures
        text::lines_of(line + "\n"@ + rest) == seq![text::strip_return(line)] + text::lines_of(
            rest,
        ),
{
    reveal_strlit("\n");
    let stops = seq!['\n'];
    let whole = line + "\n"@ + rest;
    text::lemma_stop_at(whole, stops, 0);
    let k = text::stop_at(whole, stops, 0);
    assert(stops.contains('\n')) by {
        assert(stops[0] == '\n');
    }
    assert(whole[line.len() as int] == '\n');
    if k < line.len() {
        assert(whole[k] == line[k]);
        assert(line.contains(line[k]));
        assert(stops.contains(whole[k]));
    }
    assert(k == line.len());
    assert(whole.take(k) =~= line);
    assert(whole.skip(k + 1) =~= rest);
}

proof fn lemma_ended_joins(lines: Seq<Seq<char>>)
    requires
        lines.len() > 0,
    ensures
        ended(lines) == text::joined(lines, "\n"@) + "\n"@,
    decreases lines.len(),
{
    if lines.len() == 1 {
        assert(ended(lines.drop_last()) =~= seq![]);
        assert(ended(lines) =~= text::joined(lines, "\n"@) + "\n"@);
    } else {
        lemma_ended_joins(lines.drop_last());
        assert(ended(lines) =~= text::joined(lines, "\n"@) + "\n"@);
    }
}

/// Lines as they are read back: without a carriage return at their end.
pub open spec fn returned(lines: Seq<Seq<char>>) -> Seq<Seq<char>> {
    lines.map_values(|line: Seq<char>| text::strip_return(line))
}

/// Lines that hold no line feed, written one to a line feed, are read back without the carriage
/// return that one of them may end in.
pub proof fn law_lines_read_back_without_returns(lines: Seq<Seq<char>>)
    requires
        forall|i: int| 0 <= i < lines.len() ==> !(#[trigger] lines[i]).contains('\n'),
    ensures
        text::lines_of(ended(lines)) == returned(lines),
{
    lemma_returned_before(lines, seq![]);
    assert(ended(lines) + seq![] =~= ended(lines));
    assert(returned(lines) + text::lines_of(seq![]) =~= returned(lines));
}

/// Lines that were written one to a line feed are read back as they are.
pub proof fn law_lines_read_back(lines: Seq<Seq<char>>)
    requires
        forall|i: int| 0 <= i < lines.len() ==> one_line(#[trigger] lines[i]),
    ensures
        text::lines_of(ended(lines)) == lines,
{
    assert forall|i: int| 0 <= i < lines.len() implies !(#[trigger] lines[i]).contains('\n') by {
        assert(one_line(lines[i]));
    }
    law_lines_read_back_without_returns(lines);
    assert forall|i: int| 0 <= i < lines.len() implies returned(lines)[i] == lines[i] by {
        assert(one_line(lines[i]));
    }
    assert(returned(lines) =~= lines);
}

proof fn lemma_returned_before(lines: Seq<Seq<char>>, rest: Seq<char>)
    requires
        forall|i: int| 0 <= i < lines.len() ==> !(#[trigger] lines[i]).contains('\n'),
    ensures
        text::lines_of(ended(lines) + rest) == returned(lines) + text::lines_of(rest),
    decreases lines.len(),
{
    if lines.len() == 0 {
        assert(ended(lines) + rest =~= rest);
        assert(returned(lines) + text::lines_of(rest) =~= text::lines_of(rest));
    } else {
        let prior = lines.drop_last();
        let last = lines.last();
        assert forall|i: int| 0 <= i < prior.len() implies !(#[trigger] prior[i]).contains(
            '\n',
        ) by {
            assert(prior[i] == lines[i]);
        }
        assert(!lines[lines.len() - 1].contains('\n'));
        lemma_returned_before(prior, last + "\n"@ + rest);
        lemma_first_line(last, rest);
        assert(ended(lines) + rest =~= ended(prior) + (last + "\n"@ + rest));
        assert(returned(prior) + (seq![text::strip_return(last)] + text::lines_of(rest))
            =~= returned(lines) + text::lines_of(rest));
    }
}

proof fn lemma_return_makes_no_reference(line: Seq<char>, id: Seq<char>)
    ensures
        refers(text::strip_return(line), id) ==> refers(line, id),
{
    let shown = text::strip_return(line);
    if shown != line && refers(shown, id) {
        let tail = seq!['\r'];
        assert(shown + tail =~= line);
        law_advice_keeps_the_reference(shown, tail, id);
    }
}

proof fn lemma_return_keeps_headers(line: Seq<char>)
    ensures
        is_header(text::strip_return(line)) == is_header(line),
{
    reveal_strlit("── ");
    let shown = text::strip_return(line);
    if shown != line {
        if is_header(shown) {
            assert(line.take(HEADER_MARK@.len() as int) =~= shown.take(HEADER_MARK@.len() as int));
        }
        if is_header(line) {
            assert(line[HEADER_MARK@.len() - 1] == HEADER_MARK@[HEADER_MARK@.len() - 1]);
            assert(shown.take(HEADER_MARK@.len() as int) =~= line.take(HEADER_MARK@.len() as int));
        }
    }
}

/// The ledger that a scrub writes reads back as the lines that it kept (without the carriage
/// return that one of them may end in), and the next scrub with the same archive leaves the file
/// alone.
pub proof fn law_a_scrubbed_ledger_is_left_alone(ledger: Seq<char>, ids: Seq<Seq<char>>)
    ensures
        match scrubbed(ledger, ids) {
            ScrubView::Rewritten { cleared, text } => {
                &&& text::lines_of(text) == returned(kept(text::lines_of(ledger), ids))
                &&& scrubbed(text, ids) is Unchanged
            },
            _ => true,
        },
{
    let lines = text::lines_of(ledger);
    let left = kept(lines, ids);
    if scrubbed(ledger, ids) is Rewritten {
        lemma_kept_are_lines(lines, ids);
        text::lemma_lines_hold_no_feed(ledger);
        assert forall|i: int| 0 <= i < left.len() implies !(#[trigger] left[i]).contains('\n') by {
            assert(lines.contains(left[i]));
            let j = choose|j: int| 0 <= j < lines.len() && lines[j] == left[i];
            assert(!lines[j].contains('\n'));
        }
        lemma_ended_joins(left);
        law_lines_read_back_without_returns(left);
        law_scrub_keeps_what_is_unresolved(lines, ids);
        let again = returned(left);
        assert forall|i: int| 0 <= i < again.len() implies is_header(#[trigger] again[i])
            || !resolved(again[i], ids) by {
            assert(is_header(left[i]) || live(left[i], ids));
            lemma_return_keeps_headers(left[i]);
            assert forall|j: int|
                0 <= j < ids.len() && refers(again[i], #[trigger] ids[j]) implies refers(
                left[i],
                ids[j],
            ) by {
                lemma_return_makes_no_reference(left[i], ids[j]);
            }
        }
        lemma_nothing_cleared(again, ids);
    }
}

/// A scrub touches the file exactly when an entry of it is resolved, and removes it exactly when
/// then no entry stays.
pub proof fn law_what_a_scrub_comes_to(ledger: Seq<char>, ids: Seq<Seq<char>>)
    ensures
        scrubbed(ledger, ids) is Unchanged <==> forall|i: int|
            0 <= i < text::lines_of(ledger).len() ==> is_header(
                #[trigger] text::lines_of(ledger)[i],
            ) || !resolved(text::lines_of(ledger)[i], ids),
        scrubbed(ledger, ids) is Emptied <==> scrubbed(ledger, ids) !is Unchanged && forall|i: int|
            0 <= i < text::lines_of(ledger).len() ==> !live(
                #[trigger] text::lines_of(ledger)[i],
                ids,
            ),
{
    let lines = text::lines_of(ledger);
    lemma_cleared_counts(lines, ids);
    law_headers_stay_with_their_entries(lines, ids);
    let at = positions(lines.len() as int, 0);
    let p = |i: int| stays(lines, ids, i);
    if forall|i: int| 0 <= i < lines.len() ==> !live(#[trigger] lines[i], ids) {
        assert forall|i: int| 0 <= i < at.len() implies !p(#[trigger] at[i]) by {
            if block_lives(lines, ids, at[i]) {
                let j = choose|j: int| #[trigger] lives_up_to(lines, ids, at[i], j);
                assert(!live(lines[j], ids));
            }
        }
        lemma_none_pass(at, p);
        assert(kept(lines, ids).len() == 0);
    } else {
        let i = choose|i: int| 0 <= i < lines.len() && live(#[trigger] lines[i], ids);
        assert(at[i] == i);
        assert(p(i));
        lemma_one_passes(at, p, i);
        assert(kept(lines, ids).len() > 0);
    }
}

proof fn lemma_none_pass(v: Seq<int>, p: spec_fn(int) -> bool)
    requires
        forall|i: int| 0 <= i < v.len() ==> !p(#[trigger] v[i]),
    ensures
        v.filter(p).len() == 0,
    decreases v.len(),
{
    reveal(Seq::filter);
    if v.len() > 0 {
        let prior = v.drop_last();
        assert forall|i: int| 0 <= i < prior.len() implies !p(#[trigger] prior[i]) by {
            assert(prior[i] == v[i]);
        }
        lemma_none_pass(prior, p);
        assert(!p(v[v.len() - 1]));
    }
}

proof fn lemma_one_passes(v: Seq<int>, p: spec_fn(int) -> bool, i: int)
    requires
        0 <= i < v.len(),
        p(v[i]),
    ensures
        v.filter(p).len() > 0,
    decreases v.len(),
{
    reveal(Seq::filter);
    if i < v.len() - 1 {
        lemma_one_passes(v.drop_last(), p, i);
    }
}

proof fn lemma_cleared_counts(lines: Seq<Seq<char>>, ids: Seq<Seq<char>>)
    ensures
        cleared(lines, ids) == 0 <==> forall|i: int|
            0 <= i < lines.len() ==> is_header(#[trigger] lines[i]) || !resolved(lines[i], ids),
    decreases lines.len(),
{
    if lines.len() > 0 {
        let prior = lines.drop_last();
        lemma_cleared_counts(prior, ids);
        if cleared(lines, ids) == 0 {
            assert forall|i: int| 0 <= i < lines.len() implies is_header(#[trigger] lines[i])
                || !resolved(lines[i], ids) by {
                if i < prior.len() {
                    assert(prior[i] == lines[i]);
                }
            }
        }
        if forall|i: int|
            0 <= i < lines.len() ==> is_header(#[trigger] lines[i]) || !resolved(lines[i], ids) {
            assert forall|i: int| 0 <= i < prior.len() implies is_header(#[trigger] prior[i])
                || !resolved(prior[i], ids) by {
                assert(prior[i] == lines[i]);
            }
            assert(is_header(lines[lines.len() - 1]) || !resolved(lines[lines.len() - 1], ids));
        }
    }
}

/// Whether the entry at position `j` stays, and belongs to the header at position `i`: no other
/// header stands between them.
pub open spec fn lives_up_to(lines: Seq<Seq<char>>, ids: Seq<Seq<char>>, i: int, j: int) -> bool {
    &&& i < j < lines.len()
    &&& live(lines[j], ids)
    &&& forall|k: int| i < k < j ==> !is_header(#[trigger] lines[k])
}

/// Whether the line at position `i` is a header with an entry before the next header that stays.
pub open spec fn block_lives(lines: Seq<Seq<char>>, ids: Seq<Seq<char>>, i: int) -> bool {
    is_header(lines[i]) && exists|j: int| #[trigger] lives_up_to(lines, ids, i, j)
}

/// Whether the line at position `i` stays: as an entry that is not resolved, or as the header of
/// one.
pub open spec fn stays(lines: Seq<Seq<char>>, ids: Seq<Seq<char>>, i: int) -> bool {
    live(lines[i], ids) || block_lives(lines, ids, i)
}

/// The positions from `k` up to `n`, in order.
pub open spec fn positions(n: int, k: int) -> Seq<int> {
    Seq::new(
        if k < n {
            (n - k) as nat
        } else {
            0
        },
        |i: int| k + i,
    )
}

/// A scrub keeps, in order, every entry that is not resolved, and exactly those headers that have
/// such an entry before the next header.
pub proof fn law_headers_stay_with_their_entries(lines: Seq<Seq<char>>, ids: Seq<Seq<char>>)
    ensures
        kept(lines, ids) == positions(lines.len() as int, 0).filter(
            |i: int| stays(lines, ids, i),
        ).map_values(|i: int| lines[i]),
{
    lemma_kept_from(lines, ids, 0);
    assert(lines.skip(0) =~= lines);
}

proof fn lemma_kept_from(lines: Seq<Seq<char>>, ids: Seq<Seq<char>>, k: int)
    requires
        0 <= k <= lines.len(),
    ensures
        kept(lines.skip(k), ids) == positions(lines.len() as int, k).filter(
            |i: int| stays(lines, ids, i),
        ).map_values(|i: int| lines[i]),
    decreases lines.len() - k,
{
    let n = lines.len() as int;
    let p = |i: int| stays(lines, ids, i);
    let at = |i: int| lines[i];
    reveal(Seq::filter);
    if k == n {
        assert(positions(n, k) =~= seq![]);
        assert(positions(n, k).filter(p) =~= seq![]);
        assert(kept(lines.skip(k), ids) =~= seq![]);
        assert(positions(n, k).filter(p).map_values(at) =~= seq![]);
    } else {
        let one = seq![k];
        let others = positions(n, k + 1);
        let left = others.filter(p);
        let rest = kept(lines.skip(k + 1), ids);
        lemma_kept_from(lines, ids, k + 1);
        assert(positions(n, k) =~= one + others);
        Seq::filter_distributes_over_add(one, others, p);
        assert(one.drop_last() =~= seq![]);
        assert(one.drop_last().filter(p) =~= seq![]);
        assert(one.filter(p) =~= if p(k) {
            one
        } else {
            seq![]
        });
        assert(lines.skip(k).drop_first() =~= lines.skip(k + 1));
        assert(lines.skip(k)[0] == lines[k]);
        lemma_first_that_stays(lines, ids, k + 1);
        if is_header(lines[k]) {
            lemma_header_stays(lines, ids, k);
        }
        assert(kept(lines.skip(k), ids) =~= (one.filter(p) + left).map_values(at));
    }
}

/// The first position from `k` on that stays, where there is one.
proof fn lemma_first_that_stays(lines: Seq<Seq<char>>, ids: Seq<Seq<char>>, k: int)
    requires
        0 <= k <= lines.len(),
    ensures
        ({
            let left = positions(lines.len() as int, k).filter(|i: int| stays(lines, ids, i));
            if left.len() == 0 {
                forall|i: int| k <= i < lines.len() ==> !stays(lines, ids, i)
            } else {
                &&& k <= left[0] < lines.len()
                &&& stays(lines, ids, left[0])
                &&& forall|i: int| k <= i < left[0] ==> !stays(lines, ids, i)
            }
        }),
    decreases lines.len() - k,
{
    let n = lines.len() as int;
    let p = |i: int| stays(lines, ids, i);
    reveal(Seq::filter);
    if k == n {
        assert(positions(n, k) =~= seq![]);
        assert(positions(n, k).filter(p) =~= seq![]);
    } else {
        let one = seq![k];
        let others = positions(n, k + 1);
        lemma_first_that_stays(lines, ids, k + 1);
        assert(positions(n, k) =~= one + others);
        Seq::filter_distributes_over_add(one, others, p);
        assert(one.drop_last() =~= seq![]);
        assert(one.drop_last().filter(p) =~= seq![]);
        assert(one.filter(p) =~= if p(k) {
            one
        } else {
            seq![]
        });
        let left = positions(n, k).filter(p);
        if p(k) {
            assert(left[0] == k);
        } else {
            assert(left =~= others.filter(p));
        }
    }
}

/// A header stays exactly when the first line behind it that stays is an entry.
proof fn lemma_header_stays(lines: Seq<Seq<char>>, ids: Seq<Seq<char>>, k: int)
    requires
        0 <= k < lines.len(),
        is_header(lines[k]),
    ensures
        ({
            let left = positions(lines.len() as int, k + 1).filter(
                |i: int| stays(lines, ids, i),
            );
            block_lives(lines, ids, k) <==> left.len() > 0 && !is_header(lines[left[0]])
        }),
{
    let left = positions(lines.len() as int, k + 1).filter(|i: int| stays(lines, ids, i));
    lemma_first_that_stays(lines, ids, k + 1);
    if block_lives(lines, ids, k) {
        let j = choose|j: int| #[trigger] lives_up_to(lines, ids, k, j);
        assert(stays(lines, ids, j));
        assert(left.len() > 0 && left[0] <= j);
        if left[0] < j {
            assert(!is_header(lines[left[0]]));
        }
    }
    if left.len() > 0 && !is_header(lines[left[0]]) {
        let j = left[0];
        assert(live(lines[j], ids));
        assert forall|i: int| k < i < j implies !is_header(#[trigger] lines[i]) by {
            if is_header(lines[i]) {
                let m = lemma_some_header_stays(lines, ids, i, j);
                assert(!stays(lines, ids, m));
            }
        }
        assert(lives_up_to(lines, ids, k, j));
    }
}

/// Between a header and an entry that stays, some header stays: the last one before the entry.
proof fn lemma_some_header_stays(
    lines: Seq<Seq<char>>,
    ids: Seq<Seq<char>>,
    i: int,
    j: int,
) -> (m: int)
    requires
        0 <= i < j < lines.len(),
        is_header(lines[i]),
        live(lines[j], ids),
    ensures
        i <= m < j,
        stays(lines, ids, m),
    decreases j - i,
{
    if exists|m: int| i < m < j && is_header(#[trigger] lines[m]) {
        let m = choose|m: int| i < m < j && is_header(#[trigger] lines[m]);
        lemma_some_header_stays(lines, ids, m, j)
    } else {
        assert(lives_up_to(lines, ids, i, j));
        i
    }
}

proof fn lemma_kept_are_lines(lines: Seq<Seq<char>>, ids: Seq<Seq<char>>)
    ensures
        forall|i: int|
            0 <= i < kept(lines, ids).len() ==> lines.contains(#[trigger] kept(lines, ids)[i]),
    decreases lines.len(),
{
    if lines.len() > 0 {
        let others = lines.drop_first();
        let rest = kept(others, ids);
        let all = kept(lines, ids);
        lemma_kept_are_lines(others, ids);
        assert forall|i: int| 0 <= i < all.len() implies lines.contains(#[trigger] all[i]) by {
            if all.len() == rest.len() || i > 0 {
                let k = if all.len() == rest.len() {
                    i
                } else {
                    i - 1
                };
                assert(all[i] == rest[k]);
                assert(others.contains(rest[k]));
                let j = choose|j: int| 0 <= j < others.len() && others[j] == rest[k];
                assert(lines[j + 1] == rest[k]);
            } else {
                assert(all[0] == lines[0]);
            }
        }
    }
}

/// What was recorded is cleared: a ledger of one block, all of whose entries name a video that
/// has since downloaded, is emptied.
pub proof fn law_a_recorded_block_is_cleared(
    stamp: Seq<char>,
    lines: Seq<Seq<char>>,
    ids: Seq<Seq<char>>,
)
    requires
        one_line(HEADER_MARK@ + stamp + " ──"@),
        lines.len() > 0,
        forall|i: int|
            0 <= i < lines.len() ==> one_line(#[trigger] lines[i]) && !is_header(lines[i])
                && resolved(lines[i], ids),
    ensures
        scrubbed(block(stamp, lines), ids) == (ScrubView::Emptied { cleared: lines.len() }),
{
    let head = HEADER_MARK@ + stamp + " ──"@;
    let all = seq![head] + lines;
    reveal_strlit(" ──\n");
    reveal_strlit(" ──");
    reveal_strlit("\n");
    assert(" ──\n"@ =~= " ──"@ + "\n"@);
    assert(block(stamp, lines) =~= head + "\n"@ + ended(lines));
    lemma_first_line(head, ended(lines));
    law_lines_read_back(lines);
    assert(head.take(HEADER_MARK@.len() as int) =~= HEADER_MARK@);
    assert(is_header(head));
    lemma_none_kept(lines, ids);
    lemma_all_cleared(lines, ids);
    assert(all.drop_first() =~= lines);
    assert(kept(all, ids) =~= seq![]);
    lemma_cleared_adds(head, lines, ids);
}

proof fn lemma_none_kept(lines: Seq<Seq<char>>, ids: Seq<Seq<char>>)
    requires
        forall|i: int|
            0 <= i < lines.len() ==> !is_header(#[trigger] lines[i]) && resolved(lines[i], ids),
    ensures
        kept(lines, ids) == Seq::<Seq<char>>::empty(),
    decreases lines.len(),
{
    if lines.len() > 0 {
        let others = lines.drop_first();
        assert forall|i: int| 0 <= i < others.len() implies !is_header(#[trigger] others[i])
            && resolved(others[i], ids) by {
            assert(others[i] == lines[i + 1]);
        }
        lemma_none_kept(others, ids);
        assert(!is_header(lines[0]) && resolved(lines[0], ids));
    }
}

proof fn lemma_all_cleared(lines: Seq<Seq<char>>, ids: Seq<Seq<char>>)
    requires
        forall|i: int|
            0 <= i < lines.len() ==> !is_header(#[trigger] lines[i]) && resolved(lines[i], ids),
    ensures
        cleared(lines, ids) == lines.len(),
    decreases lines.len(),
{
    if lines.len() > 0 {
        let prior = lines.drop_last();
        assert forall|i: int| 0 <= i < prior.len() implies !is_header(#[trigger] prior[i])
            && resolved(prior[i], ids) by {
            assert(prior[i] == lines[i]);
        }
        lemma_all_cleared(prior, ids);
        assert(!is_header(lines[lines.len() - 1]));
    }
}

proof fn lemma_cleared_adds(head: Seq<char>, lines: Seq<Seq<char>>, ids: Seq<Seq<char>>)
    requires
        is_header(head),
    ensures
        cleared(seq![head] + lines, ids) == cleared(lines, ids),
    decreases lines.len(),
{
    let all = seq![head] + lines;
    if lines.len() == 0 {
        assert(cleared(all.drop_last(), ids) == 0);
        assert(all.last() == head);
    } else {
        lemma_cleared_adds(head, lines.drop_last(), ids);
        assert(all.drop_last() =~= seq![head] + lines.drop_last());
        assert(all.last() == lines.last());
    }
}

/// A line goes on referring to a video when something is added behind it that does not go on a
/// word of the line, as no advice does.
pub proof fn law_advice_keeps_the_reference(label: Seq<char>, advice: Seq<char>, id: Seq<char>)
    requires
        refers(label, id),
        advice.len() == 0 || !link::is_id_char(advice[0]),
    ensures
        refers(label + advice, id),
{
    let line = label + advice;
    let bracketed = "["@ + id + "]"@;
    let parameter = "="@ + id;
    let start = id + " "@;
    if text::has(label, bracketed) {
        let i = choose|i: int| text::occurs_at(label, bracketed, i);
        assert(line.subrange(i, i + bracketed.len()) =~= label.subrange(i, i + bracketed.len()));
        assert(text::occurs_at(line, bracketed, i));
    } else if exists|i: int| parameter_at(label, id, i) {
        reveal_strlit("=");
        let i = choose|i: int| parameter_at(label, id, i);
        assert(line.subrange(i, i + parameter.len()) =~= label.subrange(i, i + parameter.len()));
        assert(parameter_at(line, id, i));
    } else {
        assert(line.take(start.len() as int) =~= label.take(start.len() as int));
    }
}

/// A ledger line refers to a video by its id in brackets anywhere, by its id behind an equals sign
/// where nothing goes on the id, or by its id and a space at the line's start; in no other way.
pub proof fn law_a_line_refers_in_three_ways(
    line: Seq<char>,
    id: Seq<char>,
    before: Seq<char>,
    behind: Seq<char>,
)
    ensures
        refers(before + "["@ + id + "]"@ + behind, id),
        behind.len() == 0 || !link::is_word_char(behind[0]) ==> refers(
            before + "="@ + id + behind,
            id,
        ),
        refers(id + " "@ + behind, id),
        refers(line, id) ==> text::has(line, "["@ + id + "]"@) || (id + " "@).is_prefix_of(line)
            || exists|a: Seq<char>, b: Seq<char>|
            line == #[trigger] (a + "="@ + id + b) && (b.len() == 0 || !link::is_word_char(b[0])),
{
    reveal_strlit("=");
    reveal_strlit("[");
    reveal_strlit("]");
    let n = before.len() as int;
    let bracketed = "["@ + id + "]"@;
    let one = before + "["@ + id + "]"@ + behind;
    assert(one.subrange(n, n + bracketed.len()) =~= bracketed);
    assert(text::occurs_at(one, bracketed, n));
    let parameter = "="@ + id;
    let two = before + "="@ + id + behind;
    if behind.len() == 0 || !link::is_word_char(behind[0]) {
        assert(two.subrange(n, n + parameter.len()) =~= parameter);
        if behind.len() > 0 {
            assert(two[n + 1 + id.len()] == behind[0]);
        }
        assert(parameter_at(two, id, n));
    }
    let start = id + " "@;
    assert((id + " "@ + behind).subrange(0, start.len() as int) =~= start);
    if exists|i: int| parameter_at(line, id, i) {
        let i = choose|i: int| parameter_at(line, id, i);
        let a = line.take(i);
        let b = line.skip(i + 1 + id.len());
        assert(line.subrange(i, i + parameter.len()) =~= parameter);
        assert(line =~= a + parameter + b);
        assert(line =~= a + "="@ + id + b);
    }
}

/// What a run adds to the ledger reads back as a header that names the instant, and one line to
/// each failure behind it, in order.
pub proof fn law_a_block_reads_back(stamp: Seq<char>, lines: Seq<Seq<char>>)
    requires
        one_line("── "@ + stamp + " ──"@),
        forall|i: int| 0 <= i < lines.len() ==> one_line(#[trigger] lines[i]),
    ensures
        text::lines_of(block(stamp, lines)) == seq!["── "@ + stamp + " ──"@] + lines,
{
    let head = "── "@ + stamp + " ──"@;
    reveal_strlit(" ──\n");
    reveal_strlit(" ──");
    reveal_strlit("\n");
    assert(" ──\n"@ =~= " ──"@ + "\n"@);
    assert(block(stamp, lines) =~= head + "\n"@ + ended(lines));
    lemma_first_line(head, ended(lines));
    law_lines_read_back(lines);
}

/// Whether a line of the ledger is an entry of a video that has since downloaded: it is no header,
/// and refers to one of the archived ids.
pub open spec fn has_downloaded(line: Seq<char>, ids: Seq<Seq<char>>) -> bool {
    !"── "@.is_prefix_of(line) && exists|i: int| 0 <= i < ids.len() && refers(
        line,
        #[trigger] ids[i],
    )
}

/// Whether a line of the ledger is an entry that stays: it is no header, not blank, and refers to
/// none of the archived ids.
pub open spec fn has_not_downloaded(line: Seq<char>, ids: Seq<Seq<char>>) -> bool {
    !"── "@.is_prefix_of(line) && text::trimmed(line).len() > 0 && forall|i: int|
        0 <= i < ids.len() ==> !refers(line, #[trigger] ids[i])
}

/// A scrub clears every entry of a video that has since downloaded and keeps every other one, in
/// order; it says how many it cleared. Where it clears none the file stays as it is; where it
/// keeps none the file goes.
pub proof fn law_a_scrub_clears_what_has_downloaded(ledger: Seq<char>, ids: Seq<Seq<char>>)
    ensures
        ({
            let lines = text::lines_of(ledger);
            let gone = lines.filter(|line: Seq<char>| has_downloaded(line, ids));
            let left = lines.filter(|line: Seq<char>| has_not_downloaded(line, ids));
            match scrubbed(ledger, ids) {
                ScrubView::Unchanged => gone.len() == 0,
                ScrubView::Emptied { cleared } => gone.len() > 0 && cleared == gone.len()
                    && left.len() == 0,
                ScrubView::Rewritten { cleared, text } => gone.len() > 0 && cleared == gone.len()
                    && left.len() > 0 && text == ended(kept(lines, ids)) && kept(
                    lines,
                    ids,
                ).filter(|line: Seq<char>| !"── "@.is_prefix_of(line)) == left,
            }
        }),
{
    let lines = text::lines_of(ledger);
    let p = |line: Seq<char>| has_downloaded(line, ids);
    let q = |line: Seq<char>| has_not_downloaded(line, ids);
    let stays = |line: Seq<char>| live(line, ids);
    let entry = |line: Seq<char>| !"── "@.is_prefix_of(line);
    let other = |line: Seq<char>| !is_header(line);
    lemma_cleared_is_downloaded(lines, ids);
    assert(q =~= stays);
    assert(entry =~= other);
    law_scrub_keeps_what_is_unresolved(lines, ids);
    if kept(lines, ids).len() > 0 {
        lemma_ended_joins(kept(lines, ids));
    }
    law_what_a_scrub_comes_to(ledger, ids);
    let left = lines.filter(stays);
    if left.len() > 0 {
        lines.lemma_filter_pred(stays, 0);
        assert(left.contains(left[0]));
        lines.lemma_filter_contains_rev(stays, left[0]);
        let j = choose|j: int| 0 <= j < lines.len() && lines[j] == left[0];
        assert(live(lines[j], ids));
    }
    if exists|j: int| 0 <= j < lines.len() && live(#[trigger] lines[j], ids) {
        let j = choose|j: int| 0 <= j < lines.len() && live(#[trigger] lines[j], ids);
        assert(stays(lines[j]));
        lines.lemma_filter_contains(stays, j);
        assert(left.len() > 0);
    }
}

proof fn lemma_cleared_is_downloaded(lines: Seq<Seq<char>>, ids: Seq<Seq<char>>)
    ensures
        cleared(lines, ids) == lines.filter(|line: Seq<char>| has_downloaded(line, ids)).len(),
    decreases lines.len(),
{
    reveal(Seq::filter);
    if lines.len() > 0 {
        lemma_cleared_is_downloaded(lines.drop_last(), ids);
    }
}

} // verus!
