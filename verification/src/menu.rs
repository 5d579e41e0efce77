//! The menu of yt-dlp flags worth knowing about.

use vstd::prelude::*;
use vstd::string::*;
use crate::flow;
use crate::util::style;
use crate::util::text;

verus! {

/// The flags worth knowing about: each as it is typed, and what it does.
pub open spec fn flags() -> Seq<(Seq<char>, Seq<char>)> {
    seq![
        ("--sponsorblock-remove sponsor"@, "cut sponsored segments out of the video"@),
        ("--write-description"@, "save the description as a sidecar file"@),
        ("--write-info-json"@, "save every scrap of metadata as JSON"@),
        ("--playlist-items 3,5-7"@, "download only a slice of a playlist"@),
        ("--limit-rate 2M"@, "cap the download speed"@),
        ("--merge-output-format webm/mkv"@, "prefer webm (forfeits embedded cover art)"@),
        ("--sub-langs all"@, "every real subtitle language, not just EN"@),
        ("--proxy URL"@, "route through a proxy"@),
    ]
}

fn put_flag(list: &mut Vec<(String, String)>, flag: &str, blurb: &str)
    ensures
        flow::pair_views(final(list)@) == flow::pair_views(old(list)@).push((flag@, blurb@)),
{
    let ghost before = flow::pair_views(list@);
    list.push((flag.to_owned(), blurb.to_owned()));
    assert(flow::pair_views(list@) =~= before.push((flag@, blurb@)));
}

/// The flags worth knowing about: each as it is typed, and what it does.
pub fn notable_flags() -> (r: Vec<(String, String)>)
    ensures
        flow::pair_views(r@) == flags(),
{
    let mut list: Vec<(String, String)> = Vec::new();
    put_flag(
        &mut list,
        "--sponsorblock-remove sponsor",
        "cut sponsored segments out of the video",
    );
    put_flag(&mut list, "--write-description", "save the description as a sidecar file");
    put_flag(&mut list, "--write-info-json", "save every scrap of metadata as JSON");
    put_flag(&mut list, "--playlist-items 3,5-7", "download only a slice of a playlist");
    put_flag(&mut list, "--limit-rate 2M", "cap the download speed");
    put_flag(
        &mut list,
        "--merge-output-format webm/mkv",
        "prefer webm (forfeits embedded cover art)",
    );
    put_flag(&mut list, "--sub-langs all", "every real subtitle language, not just EN");
    put_flag(&mut list, "--proxy URL", "route through a proxy");
    assert(flow::pair_views(list@) =~= flags());
    list
}

/// The length of the longest flag.
pub open spec fn widest(list: Seq<(Seq<char>, Seq<char>)>) -> nat
    decreases list.len(),
{
    if list.len() == 0 {
        0
    } else if list.last().0.len() > widest(list.drop_last()) {
        list.last().0.len()
    } else {
        widest(list.drop_last())
    }
}

/// Blanks.
pub open spec fn blanks(n: nat) -> Seq<char> {
    Seq::new(n, |i: int| ' ')
}

/// The line of a flag, with its blurb in the column that `width` leaves room for.
pub open spec fn menu_line(flag: (Seq<char>, Seq<char>), width: nat) -> Seq<char> {
    "  "@ + style::span("32"@, flag.0) + blanks((width - flag.0.len()) as nat) + "  "@ + flag.1
}

/// The lines of the menu, before yt-dlp's own list of options.
pub open spec fn menu() -> Seq<Seq<char>> {
    seq![style::span("1;34"@, "Notable yt-dlp flags — pass them after `--`:"@)]
        + flags().map_values(|f: (Seq<char>, Seq<char>)| menu_line(f, widest(flags()))) + seq![
        "\n"@ + style::span("1;34"@, "Everything yt-dlp accepts:"@),
    ]
}

fn width_of(list: &[(String, String)]) -> (r: usize)
    ensures
        r == widest(flow::pair_views(list@)),
        forall|i: int| 0 <= i < list@.len() ==> (#[trigger] list@[i]).0@.len() <= r,
{
    let ghost all = flow::pair_views(list@);
    let mut width: usize = 0;
    let mut i: usize = 0;
    assert(all.take(0) =~= seq![]);
    while i < list.len()
        invariant
            i <= list@.len(),
            all == flow::pair_views(list@),
            width == widest(all.take(i as int)),
            forall|j: int| 0 <= j < i ==> (#[trigger] list@[j]).0@.len() <= width,
        decreases list@.len() - i,
    {
        proof {
            assert(all.take(i + 1).drop_last() =~= all.take(i as int));
            assert(all.take(i + 1).last() == (list@[i as int].0@, list@[i as int].1@));
        }
        let n: usize = text::chars_of(list[i].0.as_str()).len();
        if n > width {
            width = n;
        }
        i += 1;
    }
    assert(all.take(i as int) =~= all);
    width
}

fn padding(n: usize) -> (r: String)
    ensures
        r@ == blanks(n as nat),
{
    let mut out = String::new();
    let mut i: usize = 0;
    assert(out@ =~= blanks(0));
    while i < n
        invariant
            i <= n,
            out@ == blanks(i as nat),
        decreases n - i,
    {
        out.push(' ');
        i += 1;
        assert(out@ =~= blanks(i as nat));
    }
    out
}

/// The lines of the menu, before yt-dlp's own list of options.
pub fn taglist() -> (r: Vec<String>)
    ensures
        text::texts(r@) == menu(),
{
    let list = notable_flags();
    let width: usize = width_of(list.as_slice());
    let ghost rows = flags().map_values(
        |f: (Seq<char>, Seq<char>)| menu_line(f, widest(flags())),
    );
    let mut out: Vec<String> = Vec::new();
    let top = style::header("Notable yt-dlp flags — pass them after `--`:");
    text::put(&mut out, top.as_str());
    let ghost start = seq![top@];
    let mut i: usize = 0;
    assert(text::texts(out@) =~= start + rows.take(0));
    while i < list.len()
        invariant
            i <= list@.len(),
            flow::pair_views(list@) == flags(),
            rows == flags().map_values(
                |f: (Seq<char>, Seq<char>)| menu_line(f, widest(flags())),
            ),
            width == widest(flags()),
            forall|j: int| 0 <= j < list@.len() ==> (#[trigger] list@[j]).0@.len() <= width,
            text::texts(out@) == start + rows.take(i as int),
        decreases list@.len() - i,
    {
        assert(flags()[i as int] == (list@[i as int].0@, list@[i as int].1@));
        let n: usize = text::chars_of(list[i].0.as_str()).len();
        assert(list@[i as int].0@.len() <= width);
        let pad = padding(width - n);
        let shown = style::argname(list[i].0.as_str());
        let line = text::cat5("  ", shown.as_str(), pad.as_str(), "  ", list[i].1.as_str());
        text::put(&mut out, line.as_str());
        assert(rows.take(i + 1) =~= rows.take(i as int).push(rows[i as int]));
        i += 1;
        assert(text::texts(out@) =~= start + rows.take(i as int));
    }
    assert(rows.take(i as int) =~= rows);
    let rest = style::header("Everything yt-dlp accepts:");
    let last = text::cat("\n", rest.as_str());
    text::put(&mut out, last.as_str());
    assert(text::texts(out@) =~= menu());
    out
}

/// The menu lists eight flags, each as it is typed and with what it does.
pub proof fn law_the_menu_lists_eight_flags()
    ensures
        flags() == seq![
            ("--sponsorblock-remove sponsor"@, "cut sponsored segments out of the video"@),
            ("--write-description"@, "save the description as a sidecar file"@),
            ("--write-info-json"@, "save every scrap of metadata as JSON"@),
            ("--playlist-items 3,5-7"@, "download only a slice of a playlist"@),
            ("--limit-rate 2M"@, "cap the download speed"@),
            ("--merge-output-format webm/mkv"@, "prefer webm (forfeits embedded cover art)"@),
            ("--sub-langs all"@, "every real subtitle language, not just EN"@),
            ("--proxy URL"@, "route through a proxy"@),
        ],
        menu().len() == 10,
        menu()[0] == style::span("1;34"@, "Notable yt-dlp flags — pass them after `--`:"@),
        menu()[9] == "\n"@ + style::span("1;34"@, "Everything yt-dlp accepts:"@),
{
}

/// Every flag of the menu has its line, in green and indented, and all blurbs start in the same
/// column: two blanks behind the longest flag.
pub proof fn law_the_menu_is_aligned(i: int)
    requires
        0 <= i < flags().len(),
    ensures
        ({
            let (flag, blurb) = flags()[i];
            let pad = Seq::new((widest(flags()) - flag.len()) as nat, |k: int| ' ');
            &&& flag.len() <= widest(flags())
            &&& menu()[i + 1] == "  "@ + style::span("32"@, flag) + pad + "  "@ + blurb
        }),
        exists|j: int| 0 <= j < flags().len() && (#[trigger] flags()[j]).0.len() == widest(flags()),
{
    lemma_widest(flags());
    let (flag, blurb) = flags()[i];
    assert(blanks((widest(flags()) - flag.len()) as nat) =~= Seq::new(
        (widest(flags()) - flag.len()) as nat,
        |k: int| ' ',
    ));
}

proof fn lemma_widest(list: Seq<(Seq<char>, Seq<char>)>)
    ensures
        forall|j: int| 0 <= j < list.len() ==> (#[trigger] list[j]).0.len() <= widest(list),
        list.len() > 0 ==> exists|j: int|
            0 <= j < list.len() && (#[trigger] list[j]).0.len() == widest(list),
    decreases list.len(),
{
    if list.len() > 0 {
        let prior = list.drop_last();
        lemma_widest(prior);
        assert forall|j: int| 0 <= j < list.len() implies (#[trigger] list[j]).0.len()
            <= widest(list) by {
            if j < prior.len() {
                assert(prior[j] == list[j]);
            }
        }
        if list.last().0.len() > widest(prior) || prior.len() == 0 {
            assert(list[list.len() - 1].0.len() == widest(list));
        } else {
            let j = choose|j: int|
                0 <= j < prior.len() && (#[trigger] prior[j]).0.len() == widest(prior);
            assert(list[j].0.len() == widest(list));
        }
    }
}

} // verus!
