//! Playlists and channel tabs as yt-dlp's flat scan lists them, the download archive, and the
//! report of the entries nobody can play anymore.

use vstd::prelude::*;
use vstd::string::*;
use crate::env::{Env, EnvView};
use crate::tools::{Tools, ToolsView};
use crate::util::text;
use crate::ytdlp;

verus! {

/// One playlist entry as the flat scan sees it.
pub struct ScanEntry {
    pub index: String,
    pub id: String,
    pub title: String,
}

/// A [`ScanEntry`] with its texts as sequences of characters.
pub struct ScanEntryView {
    pub index: Seq<char>,
    pub id: Seq<char>,
    pub title: Seq<char>,
}

impl View for ScanEntry {
    type V = ScanEntryView;

    open spec fn view(&self) -> ScanEntryView {
        ScanEntryView { index: self.index@, id: self.id@, title: self.title@ }
    }
}

impl Clone for ScanEntry {
    fn clone(&self) -> (r: Self)
        ensures
            r == *self,
    {
        ScanEntry { index: self.index.clone(), id: self.id.clone(), title: self.title.clone() }
    }
}

/// The views of scanned entries.
pub open spec fn entry_views(v: Seq<ScanEntry>) -> Seq<ScanEntryView> {
    v.map_values(|e: ScanEntry| e@)
}

/// A scanned playlist: its title, its folder name (as yt-dlp will spell it), and every entry,
/// dead or alive.
pub struct PlaylistScan {
    pub title: String,
    pub dirname: Option<String>,
    pub entries: Vec<ScanEntry>,
}

/// A [`PlaylistScan`] with its texts as sequences of characters.
pub struct PlaylistScanView {
    pub title: Seq<char>,
    pub dirname: Option<Seq<char>>,
    pub entries: Seq<ScanEntryView>,
}

impl View for PlaylistScan {
    type V = PlaylistScanView;

    open spec fn view(&self) -> PlaylistScanView {
        PlaylistScanView {
            title: self.title@,
            dirname: text::opt_text(self.dirname),
            entries: entry_views(self.entries@),
        }
    }
}

/// The print format of the flat scan, one line to an entry; the playlist's title rides along.
pub const SCAN_FORMAT: &'static str = "%(playlist_index)s\t%(id)s\t%(title)s\t%(playlist_title)s";

/// The arguments of a flat scan, which lists the entries and prints the collection's folder name.
pub open spec fn scan_args(
    url: Seq<char>,
    dir_template: Seq<char>,
    env: EnvView,
    tools: ToolsView,
) -> ytdlp::Argv {
    ytdlp::seed(env, tools) + seq![
        "--flat-playlist"@,
        "--print"@,
        SCAN_FORMAT@,
        "--print"@,
        "playlist:"@ + dir_template,
        url,
    ]
}

/// The arguments of a flat scan.
pub fn scan_argv(url: &str, dir_template: &str, env: Env, tools: &Tools) -> (r: Vec<String>)
    ensures
        text::texts(r@) == scan_args(url@, dir_template@, env@, tools@),
{
    let mut argv = ytdlp::seeded(env, tools);
    text::put(&mut argv, "--flat-playlist");
    text::put(&mut argv, "--print");
    text::put(&mut argv, SCAN_FORMAT);
    text::put(&mut argv, "--print");
    let folder = text::cat("playlist:", dir_template);
    text::put(&mut argv, folder.as_str());
    text::put(&mut argv, url);
    argv
}

/// Whether yt-dlp's stderr says that the tab does not exist.
pub fn tab_absence(stderr: &str) -> (r: bool)
    ensures
        r == text::has(stderr@, "does not have a"@),
{
    text::contains(stderr, "does not have a")
}

/// The entry that a line of the scan holds: index, id and title, with tabs between them (more
/// may follow).
pub open spec fn line_entry(line: Seq<char>) -> Option<ScanEntryView> {
    let fields = text::pieces_of(line, '\t');
    if fields.len() >= 3 {
        Some(ScanEntryView { index: fields[0], id: fields[1], title: fields[2] })
    } else {
        None
    }
}

/// The playlist's title that a line of the scan holds, in its fourth field.
pub open spec fn line_title(line: Seq<char>) -> Option<Seq<char>> {
    let fields = text::pieces_of(line, '\t');
    if fields.len() >= 4 {
        Some(fields[3])
    } else {
        None
    }
}

/// The folder name that a line of the scan holds: a line without a tab is one, unless it is blank
/// or an `NA` in it shows that the fields were not there.
pub open spec fn line_folder(line: Seq<char>) -> Option<Seq<char>> {
    if text::pieces_of(line, '\t').len() == 1 && text::trimmed(line).len() > 0 && !text::has(
        text::trimmed(line),
        "NA"@,
    ) {
        Some(text::trimmed(line))
    } else {
        None
    }
}

/// The entries that the lines of a scan hold; lines of another shape are skipped.
pub open spec fn entries_in(lines: Seq<Seq<char>>) -> Seq<ScanEntryView> {
    lines.filter_map(|line: Seq<char>| line_entry(line))
}

/// The last playlist title that the lines of a scan hold; empty where they hold none.
pub open spec fn title_in(lines: Seq<Seq<char>>) -> Seq<char>
    decreases lines.len(),
{
    if lines.len() == 0 {
        seq![]
    } else if let Some(title) = line_title(lines.last()) {
        title
    } else {
        title_in(lines.drop_last())
    }
}

/// The last folder name that the lines of a scan hold.
pub open spec fn folder_in(lines: Seq<Seq<char>>) -> Option<Seq<char>>
    decreases lines.len(),
{
    if lines.len() == 0 {
        None
    } else if let Some(folder) = line_folder(lines.last()) {
        Some(folder)
    } else {
        folder_in(lines.drop_last())
    }
}

/// What a flat scan printed; nothing where it printed no entry.
pub open spec fn scanned(out: Seq<char>) -> Option<PlaylistScanView> {
    let lines = text::lines_of(out);
    if entries_in(lines).len() == 0 {
        None
    } else {
        Some(
            PlaylistScanView {
                title: title_in(lines),
                dirname: folder_in(lines),
                entries: entries_in(lines),
            },
        )
    }
}

/// Read what a flat scan printed; `None` only when it printed no entry.
pub fn parse_scan(out: &str) -> (r: Option<PlaylistScan>)
    ensures
        match r {
            Some(scan) => scanned(out@) == Some(scan@),
            None => scanned(out@) is None,
        },
{
    let lines = text::lines(out);
    let ghost all = text::lines_of(out@);
    let ghost f = |line: Seq<char>| line_entry(line);
    let mut title = String::new();
    let mut dirname: Option<String> = None;
    let mut entries: Vec<ScanEntry> = Vec::new();
    let mut i: usize = 0;
    assert(all.take(0) =~= seq![]);
    assert(entry_views(entries@) =~= entries_in(all.take(0)));
    assert(title@ =~= seq![]);
    while i < lines.len()
        invariant
            i <= lines@.len(),
            all == text::texts(lines@),
            f == |line: Seq<char>| line_entry(line),
            entry_views(entries@) == entries_in(all.take(i as int)),
            title@ == title_in(all.take(i as int)),
            text::opt_text(dirname) == folder_in(all.take(i as int)),
        decreases lines@.len() - i,
    {
        let ghost before = entries@;
        let ghost line_view = lines@[i as int]@;
        proof {
            all.lemma_filter_map_take_succ(f, i as int);
            assert(all.take(i + 1).drop_last() =~= all.take(i as int));
            assert(all.take(i + 1).last() == line_view);
        }
        let mut fields = text::pieces(lines[i].as_str(), '\t');
        let ghost spec_fields = text::texts(fields@);
        if fields.len() == 1 {
            let line = text::trim(lines[i].as_str());
            if !line.as_str().is_empty() && !text::contains(line.as_str(), "NA") {
                dirname = Some(line);
            }
        } else if fields.len() >= 3 {
            assert(spec_fields[0] == fields@[0]@);
            assert(spec_fields[1] == fields@[1]@);
            assert(spec_fields[2] == fields@[2]@);
            if fields.len() >= 4 {
                assert(spec_fields[3] == fields@[3]@);
                title = fields[3].clone();
            }
            entries.push(
                ScanEntry {
                    index: fields[0].clone(),
                    id: fields[1].clone(),
                    title: fields[2].clone(),
                },
            );
            assert(entry_views(entries@) =~= entry_views(before).push(entries@.last()@));
        }
        i += 1;
        assert(entry_views(entries@) =~= entries_in(all.take(i as int)));
    }
    assert(all.take(i as int) =~= all);
    if entries.len() == 0 {
        None
    } else {
        Some(PlaylistScan { title, dirname, entries })
    }
}

/// What a program's run left behind: whether it ended well, its stdout and its stderr.
pub struct Captured {
    pub ok: bool,
    pub stdout: String,
    pub stderr: String,
}

/// A [`Captured`] with its texts as sequences of characters.
pub struct CapturedView {
    pub ok: bool,
    pub stdout: Seq<char>,
    pub stderr: Seq<char>,
}

impl View for Captured {
    type V = CapturedView;

    open spec fn view(&self) -> CapturedView {
        CapturedView { ok: self.ok, stdout: self.stdout@, stderr: self.stderr@ }
    }
}

/// The views of a run that may not have come about.
pub open spec fn captured_view(c: Option<Captured>) -> Option<CapturedView> {
    match c {
        Some(c) => Some(c@),
        None => None,
    }
}

/// A channel tab's scan outcome: tabs that a channel does not have are normal, not errors. A
/// failed scan carries what there is to pass on of its stderr.
pub enum TabScan {
    Found(PlaylistScan),
    Missing,
    Failed(String),
}

/// A [`TabScan`] with its texts as sequences of characters.
pub enum TabScanView {
    Found(PlaylistScanView),
    Missing,
    Failed(Seq<char>),
}

impl View for TabScan {
    type V = TabScanView;

    open spec fn view(&self) -> TabScanView {
        match self {
            TabScan::Found(scan) => TabScanView::Found(scan@),
            TabScan::Missing => TabScanView::Missing,
            TabScan::Failed(stderr) => TabScanView::Failed(stderr@),
        }
    }
}

/// What the scan of a tab shows: an empty but reachable tab counts as missing, and so does one of
/// which yt-dlp says that the channel does not have it.
pub open spec fn tab_outcome(run: Option<CapturedView>) -> TabScanView {
    match run {
        None => TabScanView::Failed(seq![]),
        Some(run) => if run.ok {
            match scanned(run.stdout) {
                Some(scan) => TabScanView::Found(scan),
                None => TabScanView::Missing,
            }
        } else if text::has(run.stderr, "does not have a"@) {
            TabScanView::Missing
        } else {
            TabScanView::Failed(run.stderr)
        },
    }
}

/// What the scan of a tab shows.
pub fn read_tab(run: Option<Captured>) -> (r: TabScan)
    ensures
        r@ == tab_outcome(captured_view(run)),
{
    match run {
        None => {
            let nothing = String::new();
            assert(nothing@ =~= seq![]);
            TabScan::Failed(nothing)
        },
        Some(run) => {
            if run.ok {
                match parse_scan(run.stdout.as_str()) {
                    Some(scan) => TabScan::Found(scan),
                    None => TabScan::Missing,
                }
            } else if tab_absence(run.stderr.as_str()) {
                TabScan::Missing
            } else {
                TabScan::Failed(run.stderr)
            }
        },
    }
}

/// The id that a line of a download archive records, in its second column.
pub open spec fn line_id(line: Seq<char>) -> Option<Seq<char>> {
    let columns = text::words_of(line);
    if columns.len() >= 2 {
        Some(columns[1])
    } else {
        None
    }
}

/// The ids that the lines of a download archive record, each once.
pub open spec fn ids_in(lines: Seq<Seq<char>>) -> Seq<Seq<char>>
    decreases lines.len(),
{
    if lines.len() == 0 {
        seq![]
    } else {
        let before = ids_in(lines.drop_last());
        match line_id(lines.last()) {
            Some(id) => if before.contains(id) {
                before
            } else {
                before.push(id)
            },
            None => before,
        }
    }
}

/// The ids that a download archive records; none where there is no archive.
pub open spec fn archived(content: Option<Seq<char>>) -> Seq<Seq<char>> {
    match content {
        Some(content) => ids_in(text::lines_of(content)),
        None => seq![],
    }
}

/// The video ids that a download archive has recorded (its lines are `<extractor> <id>`), each
/// once; `None` stands for an archive that could not be read.
pub fn archived_ids(content: Option<&str>) -> (r: Vec<String>)
    ensures
        text::texts(r@) == archived(text::opt_str(content)),
{
    let mut ids: Vec<String> = Vec::new();
    assert(text::texts(ids@) =~= seq![]);
    let content = match content {
        Some(content) => content,
        None => return ids,
    };
    let lines = text::lines(content);
    let ghost all = text::lines_of(content@);
    let mut i: usize = 0;
    assert(all.take(0) =~= seq![]);
    while i < lines.len()
        invariant
            i <= lines@.len(),
            all == text::texts(lines@),
            text::texts(ids@) == ids_in(all.take(i as int)),
        decreases lines@.len() - i,
    {
        proof {
            assert(all.take(i + 1).drop_last() =~= all.take(i as int));
            assert(all.take(i + 1).last() == lines@[i as int]@);
        }
        let columns = text::words(lines[i].as_str());
        let ghost spec_columns = text::texts(columns@);
        if columns.len() >= 2 {
            assert(spec_columns[1] == columns@[1]@);
            if !text::listed(ids.as_slice(), columns[1].as_str()) {
                text::put(&mut ids, columns[1].as_str());
            }
        }
        i += 1;
    }
    assert(all.take(i as int) =~= all);
    ids
}

/// The archive names each id once, whatever its lines repeat, and only ids that a line records.
pub proof fn law_archive_ids_are_distinct(lines: Seq<Seq<char>>)
    ensures
        ids_in(lines).no_duplicates(),
        forall|id: Seq<char>| #[trigger]
            ids_in(lines).contains(id) <==> exists|i: int|
                0 <= i < lines.len() && line_id(#[trigger] lines[i]) == Some(id),
    decreases lines.len(),
{
    if lines.len() > 0 {
        let prior = lines.drop_last();
        law_archive_ids_are_distinct(prior);
        let before = ids_in(prior);
        let after = ids_in(lines);
        assert forall|id: Seq<char>| #[trigger] after.contains(id) implies exists|i: int|
            0 <= i < lines.len() && line_id(#[trigger] lines[i]) == Some(id) by {
            if before.contains(id) {
                let i = choose|i: int|
                    0 <= i < prior.len() && line_id(#[trigger] prior[i]) == Some(id);
                assert(lines[i] == prior[i]);
            } else {
                let k = choose|k: int| 0 <= k < after.len() && after[k] == id;
                if k < before.len() {
                    assert(before[k] == id);
                }
                assert(line_id(lines[lines.len() - 1]) == Some(id));
            }
        }
        assert forall|id: Seq<char>|
            (exists|i: int| 0 <= i < lines.len() && line_id(#[trigger] lines[i]) == Some(id))
                implies #[trigger] after.contains(id) by {
            let i = choose|i: int| 0 <= i < lines.len() && line_id(#[trigger] lines[i]) == Some(id);
            if i < prior.len() {
                assert(prior[i] == lines[i]);
                assert(before.contains(id));
                let k = choose|k: int| 0 <= k < before.len() && before[k] == id;
                assert(after[k] == id);
            } else {
                if !before.contains(id) {
                    assert(after[after.len() - 1] == id);
                }
            }
        }
    }
}

/// Whether a title is one of those that YouTube substitutes once an entry cannot be played by
/// anyone anymore.
pub open spec fn tombstone(title: Seq<char>) -> bool {
    title == "[Private video]"@ || title == "[Deleted video]"@ || title == "[Unavailable video]"@
}

/// Whether an entry's title shows that nobody can play it anymore.
pub fn is_tombstone(title: &str) -> (r: bool)
    ensures
        r == tombstone(title@),
{
    text::same(title, "[Private video]") || text::same(title, "[Deleted video]") || text::same(
        title,
        "[Unavailable video]",
    )
}

/// The trace of one unplayable entry: its position and title, and the links by which its id can
/// still be looked up.
pub open spec fn trace(entry: ScanEntryView) -> Seq<char> {
    "#"@ + entry.index + "  "@ + entry.title + "\n  was:      https://www.youtube.com/watch?v="@
        + entry.id
        + "\n  wayback:  https://web.archive.org/web/*/https://www.youtube.com/watch?v="@
        + entry.id + "\n  filmot:   https://filmot.com/video/"@ + entry.id + "\n\n"@
}

/// The traces of unplayable entries, one after the other.
pub open spec fn traces(dead: Seq<ScanEntryView>) -> Seq<char>
    decreases dead.len(),
{
    if dead.len() == 0 {
        seq![]
    } else {
        traces(dead.drop_last()) + trace(dead.last())
    }
}

/// The report of a playlist's unplayable entries, recorded at the instant that `stamp` names.
pub open spec fn report(
    title: Seq<char>,
    id: Seq<char>,
    dead: Seq<ScanEntryView>,
    stamp: Seq<char>,
) -> Seq<char> {
    "Unplayable entries of playlist: "@ + title + " ["@ + id + "]\nrecorded "@ + stamp
        + " — video ids stay valid keys for archive services even after deletion\n\n"@ + traces(
        dead,
    )
}

fn trace_of(entry: &ScanEntry) -> (r: String)
    ensures
        r@ == trace(entry@),
{
    let head = text::cat5(
        "#",
        entry.index.as_str(),
        "  ",
        entry.title.as_str(),
        "\n  was:      https://www.youtube.com/watch?v=",
    );
    head.concat(entry.id.as_str()).concat(
        "\n  wayback:  https://web.archive.org/web/*/https://www.youtube.com/watch?v=",
    ).concat(entry.id.as_str()).concat("\n  filmot:   https://filmot.com/video/").concat(
        entry.id.as_str(),
    ).concat("\n\n")
}

/// The report of a playlist's unplayable entries: everything a future search needs to trace what
/// each entry was.
pub fn unplayable_report(title: &str, id: &str, dead: &[ScanEntry], stamp: &str) -> (r: String)
    ensures
        r@ == report(title@, id@, entry_views(dead@), stamp@),
{
    let head = text::cat5("Unplayable entries of playlist: ", title, " [", id, "]\nrecorded ");
    let mut out = head.concat(stamp).concat(
        " — video ids stay valid keys for archive services even after deletion\n\n",
    );
    let ghost start = out@;
    let ghost all = entry_views(dead@);
    let mut i: usize = 0;
    assert(all.take(0) =~= seq![]);
    assert(out@ =~= start + traces(all.take(0)));
    while i < dead.len()
        invariant
            i <= dead@.len(),
            all == entry_views(dead@),
            out@ == start + traces(all.take(i as int)),
        decreases dead@.len() - i,
    {
        proof {
            assert(all.take(i + 1).drop_last() =~= all.take(i as int));
            assert(all.take(i + 1).last() == dead@[i as int]@);
        }
        let one = trace_of(&dead[i]);
        out.append(one.as_str());
        i += 1;
        assert(out@ =~= start + traces(all.take(i as int)));
    }
    assert(all.take(i as int) =~= all);
    out
}

/// An archive line is read back: of `<extractor> <id>`, the id is taken.
pub proof fn law_archive_lines_read_back(extractor: Seq<char>, id: Seq<char>)
    requires
        text::is_word(extractor),
        text::is_word(id),
    ensures
        line_id(extractor + seq![' '] + id) == Some(id),
{
    text::lemma_first_word(extractor, id);
    text::lemma_first_word(id, seq![]);
}

/// An entry as the scan's print format prints it.
pub open spec fn printed_entry(entry: ScanEntryView, playlist: Seq<char>) -> Seq<char> {
    entry.index + seq!['\t'] + (entry.id + seq!['\t'] + (entry.title + seq!['\t'] + playlist))
}

/// An entry that the scan's print format printed is read back, and so is the playlist's title, as
/// long as no field holds a tab.
pub proof fn law_scan_lines_read_back(entry: ScanEntryView, playlist: Seq<char>)
    requires
        !entry.index.contains('\t'),
        !entry.id.contains('\t'),
        !entry.title.contains('\t'),
        !playlist.contains('\t'),
    ensures
        line_entry(printed_entry(entry, playlist)) == Some(entry),
        line_title(printed_entry(entry, playlist)) == Some(playlist),
        line_folder(printed_entry(entry, playlist)) is None,
{
    let titled = entry.title + seq!['\t'] + playlist;
    let named = entry.id + seq!['\t'] + titled;
    text::lemma_first_piece(playlist, '\t', seq![]);
    text::lemma_first_piece(entry.title, '\t', playlist);
    text::lemma_first_piece(entry.id, '\t', titled);
    text::lemma_first_piece(entry.index, '\t', named);
    let fields = text::pieces_of(printed_entry(entry, playlist), '\t');
    assert(fields =~= seq![entry.index, entry.id, entry.title, playlist]);
}

/// Three titles stand for entries that nobody can play anymore, and no other does.
pub proof fn law_three_titles_are_tombstones(title: Seq<char>)
    ensures
        tombstone("[Private video]"@),
        tombstone("[Deleted video]"@),
        tombstone("[Unavailable video]"@),
        title != "[Private video]"@ && title != "[Deleted video]"@ && title
            != "[Unavailable video]"@ ==> !tombstone(title),
{
}

/// An id is archived exactly if a line of the archive has it as its second word; where there is
/// no archive, none is.
pub proof fn law_the_second_word_is_archived(content: Seq<char>, id: Seq<char>)
    ensures
        archived(Some(content)).contains(id) <==> exists|i: int|
            0 <= i < text::lines_of(content).len() && text::words_of(
                #[trigger] text::lines_of(content)[i],
            ).len() >= 2 && text::words_of(text::lines_of(content)[i])[1] == id,
        !archived(None).contains(id),
{
    let lines = text::lines_of(content);
    law_archive_ids_are_distinct(lines);
    if archived(Some(content)).contains(id) {
        let i = choose|i: int| 0 <= i < lines.len() && line_id(#[trigger] lines[i]) == Some(id);
        assert(text::words_of(lines[i]).len() >= 2);
    }
    if exists|i: int|
        0 <= i < lines.len() && text::words_of(#[trigger] lines[i]).len() >= 2 && text::words_of(
            lines[i],
        )[1] == id {
        let i = choose|i: int|
            0 <= i < lines.len() && text::words_of(#[trigger] lines[i]).len() >= 2
                && text::words_of(lines[i])[1] == id;
        assert(line_id(lines[i]) == Some(id));
    }
}

/// Whether a text can stand in a field of the scan: it holds no tab.
pub open spec fn is_field(s: Seq<char>) -> bool {
    !s.contains('\t')
}

/// What the scan prints for one collection: a line to each entry, and behind them the folder's
/// name.
pub open spec fn printed_scan(
    entries: Seq<ScanEntryView>,
    playlist: Seq<char>,
    folder: Seq<char>,
) -> Seq<Seq<char>> {
    entries.map_values(|e: ScanEntryView| printed_entry(e, playlist)).push(folder)
}

/// A scan is read back whole: every entry that it printed, in order, the playlist's title, and the
/// folder's name, unless an `NA` shows that yt-dlp had none.
pub proof fn law_a_scan_reads_back(
    out: Seq<char>,
    entries: Seq<ScanEntryView>,
    playlist: Seq<char>,
    folder: Seq<char>,
)
    requires
        text::lines_of(out) == printed_scan(entries, playlist, folder),
        entries.len() > 0,
        is_field(playlist),
        is_field(folder),
        text::trimmed(folder) == folder,
        folder.len() > 0,
        forall|i: int|
            0 <= i < entries.len() ==> is_field((#[trigger] entries[i]).index) && is_field(
                entries[i].id,
            ) && is_field(entries[i].title),
    ensures
        scanned(out) == Some(
            PlaylistScanView {
                title: playlist,
                dirname: if text::has(folder, "NA"@) {
                    None
                } else {
                    Some(folder)
                },
                entries,
            },
        ),
{
    let lines = text::lines_of(out);
    let body = entries.map_values(|e: ScanEntryView| printed_entry(e, playlist));
    assert(lines.drop_last() =~= body);
    text::lemma_first_piece(folder, '\t', seq![]);
    lemma_no_piece(folder);
    assert(line_entry(folder) is None);
    assert(line_title(folder) is None);
    reveal(Seq::filter_map);
    lemma_printed_entries(entries, playlist);
    assert(entries_in(lines) =~= entries);
    assert(title_in(lines) == title_in(body));
    if text::has(folder, "NA"@) {
        assert(folder_in(lines) == folder_in(body));
    }
}

proof fn lemma_no_piece(s: Seq<char>)
    requires
        is_field(s),
    ensures
        text::pieces_of(s, '\t') == seq![s],
{
    text::lemma_stop_at(s, seq!['\t'], 0);
    let k = text::stop_at(s, seq!['\t'], 0);
    if k < s.len() {
        assert(seq!['\t'].contains(s[k]));
        assert(s.contains(s[k]));
    }
}

proof fn lemma_printed_entries(entries: Seq<ScanEntryView>, playlist: Seq<char>)
    requires
        is_field(playlist),
        forall|i: int|
            0 <= i < entries.len() ==> is_field((#[trigger] entries[i]).index) && is_field(
                entries[i].id,
            ) && is_field(entries[i].title),
    ensures
        ({
            let body = entries.map_values(|e: ScanEntryView| printed_entry(e, playlist));
            &&& entries_in(body) == entries
            &&& entries.len() > 0 ==> title_in(body) == playlist
            &&& folder_in(body) is None
        }),
    decreases entries.len(),
{
    let body = entries.map_values(|e: ScanEntryView| printed_entry(e, playlist));
    reveal(Seq::filter_map);
    if entries.len() > 0 {
        let prior = entries.drop_last();
        let last = entries.last();
        assert forall|i: int| 0 <= i < prior.len() implies is_field((#[trigger] prior[i]).index)
            && is_field(prior[i].id) && is_field(prior[i].title) by {
            assert(prior[i] == entries[i]);
        }
        lemma_printed_entries(prior, playlist);
        assert(is_field(entries[entries.len() - 1].index));
        law_scan_lines_read_back(last, playlist);
        assert(body.drop_last() =~= prior.map_values(
            |e: ScanEntryView| printed_entry(e, playlist),
        ));
        assert(body.last() == printed_entry(last, playlist));
        assert(prior.push(last) =~= entries);
    } else {
        assert(entries_in(body) =~= entries);
    }
}

/// A channel's tab is found where its scan ended well and printed an entry; it is missing where the
/// scan printed none or where yt-dlp says that the channel does not have it; else the scan failed,
/// and what yt-dlp said is passed on.
pub proof fn law_a_tab_is_found_missing_or_failed(out: CapturedView)
    ensures
        out.ok ==> tab_outcome(Some(out)) == (match scanned(out.stdout) {
            Some(found) => TabScanView::Found(found),
            None => TabScanView::Missing,
        }),
        !out.ok && text::has(out.stderr, "does not have a"@) ==> tab_outcome(Some(out))
            == TabScanView::Missing,
        !out.ok && !text::has(out.stderr, "does not have a"@) ==> tab_outcome(Some(out))
            == TabScanView::Failed(out.stderr),
        tab_outcome(None) == TabScanView::Failed(Seq::<char>::empty()),
{
}

/// Every unplayable entry is traced, in order: with its position and title, and the three links by
/// which its id can be looked up; behind a head that names the playlist and the instant.
pub proof fn law_every_unplayable_entry_is_traced(
    title: Seq<char>,
    id: Seq<char>,
    dead: Seq<ScanEntryView>,
    entry: ScanEntryView,
    stamp: Seq<char>,
)
    ensures
        report(title, id, seq![], stamp) == "Unplayable entries of playlist: "@ + title + " ["@
            + id + "]\nrecorded "@ + stamp
            + " — video ids stay valid keys for archive services even after deletion\n\n"@,
        report(title, id, dead.push(entry), stamp) == report(title, id, dead, stamp) + ("#"@
            + entry.index + "  "@ + entry.title
            + "\n  was:      https://www.youtube.com/watch?v="@ + entry.id
            + "\n  wayback:  https://web.archive.org/web/*/https://www.youtube.com/watch?v="@
            + entry.id + "\n  filmot:   https://filmot.com/video/"@ + entry.id + "\n\n"@),
{
    let head = "Unplayable entries of playlist: "@ + title + " ["@ + id + "]\nrecorded "@ + stamp
        + " — video ids stay valid keys for archive services even after deletion\n\n"@;
    assert(report(title, id, seq![], stamp) =~= head);
    assert(dead.push(entry).drop_last() =~= dead);
    assert(report(title, id, dead.push(entry), stamp) =~= report(title, id, dead, stamp)
        + trace(entry));
}

/// A line of fewer than three fields holds no entry, and one of fewer than four no playlist title.
pub proof fn law_short_lines_hold_no_entry(line: Seq<char>)
    ensures
        line_entry(line) is Some <==> text::pieces_of(line, '\t').len() >= 3,
        line_title(line) is Some <==> text::pieces_of(line, '\t').len() >= 4,
{
}

} // verus!
