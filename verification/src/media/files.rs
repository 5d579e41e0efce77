//! The media files on disk: which name belongs to which video, where sidecar files go, and what
//! ffprobe and ffmpeg are asked to do with them.

use vstd::prelude::*;
use vstd::string::*;
use crate::env::{Env, EnvView};
use crate::media::subtitles::{Pick, PickView};
use crate::media::titles;
use crate::tools::{Tools, ToolsView};
use crate::util::number;
use crate::util::path;
use crate::util::text;
use crate::ytdlp;

verus! {

/// Whether a file name has one of the extensions that media files have here.
pub open spec fn media_extension(name: Seq<char>) -> bool {
    ||| ".mkv"@.is_suffix_of(name)
    ||| ".opus"@.is_suffix_of(name)
    ||| ".m4a"@.is_suffix_of(name)
    ||| ".mp3"@.is_suffix_of(name)
    ||| ".ogg"@.is_suffix_of(name)
    ||| ".flac"@.is_suffix_of(name)
    ||| ".wav"@.is_suffix_of(name)
    ||| ".webm"@.is_suffix_of(name)
}

/// Whether a file name is that of the video `id`'s media file: it carries `__<id>.` and has a
/// media extension.
pub open spec fn names_media(name: Seq<char>, id: Seq<char>) -> bool {
    text::has(name, "__"@ + id + "."@) && media_extension(name)
}

/// Whether a file name is that of the video `id`'s media file.
pub fn is_media_of(name: &str, id: &str) -> (r: bool)
    ensures
        r == names_media(name@, id@),
{
    let marker = text::cat3("__", id, ".");
    text::contains(name, marker.as_str()) && (text::ends_with(name, ".mkv") || text::ends_with(
        name,
        ".opus",
    ) || text::ends_with(name, ".m4a") || text::ends_with(name, ".mp3") || text::ends_with(
        name,
        ".ogg",
    ) || text::ends_with(name, ".flac") || text::ends_with(name, ".wav") || text::ends_with(
        name,
        ".webm",
    ))
}

/// The sidecar that a download leaves beside `file` for a track: the file's name without its
/// extension, the track's key and `.vtt`.
pub open spec fn sidecar_of(file: Seq<char>, key: Seq<char>) -> Seq<char> {
    path::with_ext(file, seq![]) + "."@ + key + ".vtt"@
}

/// The sidecar that a download leaves beside `file` for the track `key`.
pub fn download_sidecar(file: &str, key: &str) -> (r: String)
    ensures
        r@ == sidecar_of(file@, key@),
{
    let none = String::new();
    assert(none@ =~= seq![]);
    let stem = path::with_extension(file, none.as_str());
    text::cat4(stem.as_str(), ".", key, ".vtt")
}

/// The sidecar that the subtitle patch fetches for a track: named by the video's id, so that no
/// drift of the title can hide it.
pub open spec fn patch_sidecar(into: Seq<char>, id: Seq<char>, key: Seq<char>) -> Seq<char> {
    path::joined(into, ".dlsub-"@ + id + "."@ + key + ".vtt"@)
}

/// The sidecar that the subtitle patch fetches for the track `key`.
pub fn subtitle_sidecar(into: &str, id: &str, key: &str) -> (r: String)
    ensures
        r@ == patch_sidecar(into@, id@, key@),
{
    let name = text::cat5(".dlsub-", id, ".", key, ".vtt");
    path::join(into, name.as_str())
}

/// The tag that carries a track, given its key in small letters: hyphens become underscores, a
/// final `_orig` goes, and an auto-generated track says so.
pub open spec fn tag_for(key: Seq<char>, auto: bool) -> Seq<char> {
    let joined = key.map_values(|c: char| underscored(c));
    let bare = if "_orig"@.is_suffix_of(joined) {
        joined.take(joined.len() - "_orig"@.len())
    } else {
        joined
    };
    if auto {
        "subtitles_"@ + bare + "_autogenerated"@
    } else {
        "subtitles_"@ + bare
    }
}

/// A hyphen as an underscore; any other character as it is.
pub open spec fn underscored(c: char) -> char {
    if c == '-' {
        '_'
    } else {
        c
    }
}

fn underscore(s: &str) -> (r: String)
    ensures
        r@ == s@.map_values(|c: char| underscored(c)),
{
    let v = text::chars_of(s);
    let ghost all = s@.map_values(|c: char| underscored(c));
    let mut out = String::new();
    let mut i: usize = 0;
    while i < v.len()
        invariant
            i <= v@.len(),
            v@ == s@,
            all == s@.map_values(|c: char| underscored(c)),
            out@ =~= all.take(i as int),
        decreases v@.len() - i,
    {
        out.push(
            if v[i] == '-' {
                '_'
            } else {
                v[i]
            },
        );
        i += 1;
    }
    assert(all.take(i as int) =~= all);
    out
}

/// The tag that carries a track, given its key in small letters.
pub fn tag_name(key: &str, auto: bool) -> (r: String)
    ensures
        r@ == tag_for(key@, auto),
{
    let joined = underscore(key);
    let v = text::chars_of(joined.as_str());
    let suffix = text::chars_of("_orig");
    let bare = if text::ends_with(joined.as_str(), "_orig") {
        let n: usize = v.len();
        let cut = text::string_of(v.as_slice(), 0, n - suffix.len());
        assert(cut@ =~= joined@.take(joined@.len() - "_orig"@.len()));
        cut
    } else {
        joined
    };
    if auto {
        text::cat3("subtitles_", bare.as_str(), "_autogenerated")
    } else {
        text::cat("subtitles_", bare.as_str())
    }
}

/// The tag that carries a track.
pub open spec fn tag_of(pick: PickView) -> Seq<char> {
    tag_for(text::lowercase(pick.key), pick.auto)
}

/// The metadata tag that carries one subtitle track.
pub fn subtitle_tag_name(pick: &Pick) -> (r: String)
    ensures
        r@ == tag_of(pick@),
{
    let key = text::to_lowercase(pick.key.as_str());
    tag_name(key.as_str(), pick.auto)
}

/// The number of the stream that carries the cover, from line `i` of an ffprobe listing on, where
/// `current` is the stream that the lines before speak of.
pub open spec fn cover_from(lines: Seq<Seq<char>>, i: int, current: Option<u32>) -> Option<u32>
    decreases lines.len() - i,
{
    if i < 0 || i >= lines.len() {
        None
    } else {
        match text::after_prefix(lines[i], "index="@) {
            Some(index) => cover_from(lines, i + 1, number::parsed(text::trimmed(index))),
            None => if text::trimmed(lines[i]) == "DISPOSITION:attached_pic=1"@ {
                current
            } else {
                cover_from(lines, i + 1, current)
            },
        }
    }
}

/// The stream that carries the embedded cover in an ffprobe listing: `index=` lines, each
/// followed by its stream's dispositions.
pub open spec fn cover_in(listing: Seq<char>) -> Option<u32> {
    cover_from(text::lines_of(listing), 0, None)
}

/// The stream that carries the embedded cover in an ffprobe listing, or `None` when there is no
/// cover.
pub fn attached_pic_stream_index(listing: &str) -> (r: Option<u32>)
    ensures
        r == cover_in(listing@),
{
    let lines = text::lines(listing);
    let ghost all = text::lines_of(listing@);
    let mut current: Option<u32> = None;
    let mut i: usize = 0;
    while i < lines.len()
        invariant
            i <= lines@.len(),
            all == text::texts(lines@),
            all == text::lines_of(listing@),
            cover_from(all, 0, None) == cover_from(all, i as int, current),
        decreases lines@.len() - i,
    {
        assert(all[i as int] == lines@[i as int]@);
        match text::strip_prefix(lines[i].as_str(), "index=") {
            Some(index) => {
                let shown = text::trim(index.as_str());
                current = number::parse_u32(shown.as_str());
            },
            None => {
                let shown = text::trim(lines[i].as_str());
                if text::same(shown.as_str(), "DISPOSITION:attached_pic=1") {
                    return current;
                }
            },
        }
        i += 1;
    }
    None
}

/// What ffprobe is asked for the titles of a file's subtitle tracks, one to a line.
pub open spec fn titles_query(file: Seq<char>) -> ytdlp::Argv {
    seq![
        "-v"@,
        "error"@,
        "-select_streams"@,
        "s"@,
        "-show_entries"@,
        "stream_tags=title"@,
        "-of"@,
        "csv=p=0"@,
        file,
    ]
}

/// What ffprobe is asked for a file's subtitle tracks and their titles.
pub open spec fn tracks_query(file: Seq<char>) -> ytdlp::Argv {
    seq![
        "-v"@,
        "error"@,
        "-select_streams"@,
        "s"@,
        "-show_entries"@,
        "stream=index:stream_tags=title"@,
        "-of"@,
        "default=nw=1"@,
        file,
    ]
}

/// What ffprobe is asked for a file's cover.
pub open spec fn cover_query(file: Seq<char>) -> ytdlp::Argv {
    seq![
        "-v"@,
        "error"@,
        "-show_entries"@,
        "stream=index:stream_disposition=attached_pic"@,
        "-of"@,
        "default=nw=1"@,
        file,
    ]
}

/// What ffprobe is asked for the titles of a file's subtitle tracks.
pub fn titles_probe(file: &str) -> (r: Vec<String>)
    ensures
        text::texts(r@) == titles_query(file@),
{
    let mut argv: Vec<String> = Vec::new();
    text::put(&mut argv, "-v");
    text::put(&mut argv, "error");
    text::put(&mut argv, "-select_streams");
    text::put(&mut argv, "s");
    text::put(&mut argv, "-show_entries");
    text::put(&mut argv, "stream_tags=title");
    text::put(&mut argv, "-of");
    text::put(&mut argv, "csv=p=0");
    text::put(&mut argv, file);
    assert(text::texts(argv@) =~= titles_query(file@));
    argv
}

/// What ffprobe is asked for a file's subtitle tracks and their titles.
pub fn tracks_probe(file: &str) -> (r: Vec<String>)
    ensures
        text::texts(r@) == tracks_query(file@),
{
    let mut argv: Vec<String> = Vec::new();
    text::put(&mut argv, "-v");
    text::put(&mut argv, "error");
    text::put(&mut argv, "-select_streams");
    text::put(&mut argv, "s");
    text::put(&mut argv, "-show_entries");
    text::put(&mut argv, "stream=index:stream_tags=title");
    text::put(&mut argv, "-of");
    text::put(&mut argv, "default=nw=1");
    text::put(&mut argv, file);
    assert(text::texts(argv@) =~= tracks_query(file@));
    argv
}

/// What ffprobe is asked for a file's cover.
pub fn cover_probe(file: &str) -> (r: Vec<String>)
    ensures
        text::texts(r@) == cover_query(file@),
{
    let mut argv: Vec<String> = Vec::new();
    text::put(&mut argv, "-v");
    text::put(&mut argv, "error");
    text::put(&mut argv, "-show_entries");
    text::put(&mut argv, "stream=index:stream_disposition=attached_pic");
    text::put(&mut argv, "-of");
    text::put(&mut argv, "default=nw=1");
    text::put(&mut argv, file);
    assert(text::texts(argv@) =~= cover_query(file@));
    argv
}

/// What every ffmpeg run starts with.
pub open spec fn remux(file: Seq<char>) -> ytdlp::Argv {
    seq!["-nostdin"@, "-v"@, "error"@, "-y"@, "-i"@, file]
}

fn remux_argv(file: &str) -> (r: Vec<String>)
    ensures
        text::texts(r@) == remux(file@),
{
    let mut argv: Vec<String> = Vec::new();
    text::put(&mut argv, "-nostdin");
    text::put(&mut argv, "-v");
    text::put(&mut argv, "error");
    text::put(&mut argv, "-y");
    text::put(&mut argv, "-i");
    text::put(&mut argv, file);
    assert(text::texts(argv@) =~= remux(file@));
    argv
}

/// The flags that give subtitle tracks their new titles.
pub open spec fn title_flags(retitle: Seq<(int, Seq<char>)>) -> ytdlp::Argv
    decreases retitle.len(),
{
    if retitle.len() == 0 {
        seq![]
    } else {
        title_flags(retitle.drop_last()) + seq![
            "-metadata:s:s:"@ + number::digits(retitle.last().0 as nat),
            "title="@ + retitle.last().1,
        ]
    }
}

/// The ffmpeg run that copies `file` to `out`, giving subtitle tracks their new titles.
pub open spec fn stamp_args(
    file: Seq<char>,
    out: Seq<char>,
    retitle: Seq<(int, Seq<char>)>,
) -> ytdlp::Argv {
    remux(file) + seq!["-map"@, "0"@, "-c"@, "copy"@] + title_flags(retitle) + seq![out]
}

/// The ffmpeg run that copies `file` to `out`, giving subtitle tracks their new titles.
pub fn stamp_argv(file: &str, out: &str, retitle: &[(usize, String)]) -> (r: Vec<String>)
    ensures
        text::texts(r@) == stamp_args(file@, out@, titles::numbered(retitle@)),
{
    let mut argv = remux_argv(file);
    text::put(&mut argv, "-map");
    text::put(&mut argv, "0");
    text::put(&mut argv, "-c");
    text::put(&mut argv, "copy");
    let ghost start = text::texts(argv@);
    let ghost all = titles::numbered(retitle@);
    let mut i: usize = 0;
    assert(all.take(0) =~= seq![]);
    assert(text::texts(argv@) =~= start + title_flags(all.take(0)));
    while i < retitle.len()
        invariant
            i <= retitle@.len(),
            all == titles::numbered(retitle@),
            text::texts(argv@) == start + title_flags(all.take(i as int)),
        decreases retitle@.len() - i,
    {
        proof {
            assert(all.take(i + 1).drop_last() =~= all.take(i as int));
            assert(all.take(i + 1).last() == (retitle@[i as int].0 as int, retitle@[i as int].1@));
        }
        let order = number::decimal(retitle[i].0 as u128);
        let flag = text::cat("-metadata:s:s:", order.as_str());
        let title = text::cat("title=", retitle[i].1.as_str());
        text::put(&mut argv, flag.as_str());
        text::put(&mut argv, title.as_str());
        i += 1;
        assert(text::texts(argv@) =~= start + title_flags(all.take(i as int)));
    }
    assert(all.take(i as int) =~= all);
    text::put(&mut argv, out);
    assert(text::texts(argv@) =~= stamp_args(file@, out@, all));
    argv
}

/// The ffmpeg run that copies the cover (stream `index`) out of `file`.
pub open spec fn extract_args(file: Seq<char>, index: u32, out: Seq<char>) -> ytdlp::Argv {
    remux(file) + seq![
        "-map"@,
        "0:"@ + number::digits(index as nat),
        "-frames:v"@,
        "1"@,
        "-c"@,
        "copy"@,
        out,
    ]
}

/// The ffmpeg run that copies the cover (stream `index`) out of `file`.
pub fn extract_argv(file: &str, index: u32, out: &str) -> (r: Vec<String>)
    ensures
        text::texts(r@) == extract_args(file@, index, out@),
{
    let mut argv = remux_argv(file);
    text::put(&mut argv, "-map");
    let number = number::decimal(index as u128);
    let stream = text::cat("0:", number.as_str());
    text::put(&mut argv, stream.as_str());
    text::put(&mut argv, "-frames:v");
    text::put(&mut argv, "1");
    text::put(&mut argv, "-c");
    text::put(&mut argv, "copy");
    text::put(&mut argv, out);
    assert(text::texts(argv@) =~= extract_args(file@, index, out@));
    argv
}

/// The flags that mark an attachment as the cover.
pub open spec fn cover_flags() -> ytdlp::Argv {
    seq![
        "-metadata:s:t:0"@,
        "mimetype=image/jpeg"@,
        "-metadata:s:t:0"@,
        "filename=cover.jpg"@,
    ]
}

fn put_cover_flags(argv: &mut Vec<String>)
    ensures
        text::texts(final(argv)@) == text::texts(old(argv)@) + cover_flags(),
{
    text::put(argv, "-metadata:s:t:0");
    text::put(argv, "mimetype=image/jpeg");
    text::put(argv, "-metadata:s:t:0");
    text::put(argv, "filename=cover.jpg");
}

/// The ffmpeg run that copies `file` to `out` with `thumb` attached as its cover.
pub open spec fn attach_args(file: Seq<char>, thumb: Seq<char>, out: Seq<char>) -> ytdlp::Argv {
    remux(file) + seq!["-map"@, "0"@, "-c"@, "copy"@, "-attach"@, thumb] + cover_flags() + seq![
        out,
    ]
}

/// The ffmpeg run that copies `file` to `out` with `thumb` attached as its cover.
pub fn attach_argv(file: &str, thumb: &str, out: &str) -> (r: Vec<String>)
    ensures
        text::texts(r@) == attach_args(file@, thumb@, out@),
{
    let mut argv = remux_argv(file);
    text::put(&mut argv, "-map");
    text::put(&mut argv, "0");
    text::put(&mut argv, "-c");
    text::put(&mut argv, "copy");
    text::put(&mut argv, "-attach");
    text::put(&mut argv, thumb);
    put_cover_flags(&mut argv);
    text::put(&mut argv, out);
    assert(text::texts(argv@) =~= attach_args(file@, thumb@, out@));
    argv
}

/// What curl is asked to fetch: the thumbnail of video `id` in this quality, into `dest`.
pub open spec fn thumbnail_args(
    id: Seq<char>,
    quality: Seq<char>,
    dest: Seq<char>,
) -> ytdlp::Argv {
    seq![
        "-fsSL"@,
        "-o"@,
        dest,
        "https://i.ytimg.com/vi/"@ + id + "/"@ + quality + ".jpg"@,
    ]
}

/// What curl is asked to fetch: the thumbnail of video `id` in this quality, into `dest`.
pub fn thumbnail_argv(id: &str, quality: &str, dest: &str) -> (r: Vec<String>)
    ensures
        text::texts(r@) == thumbnail_args(id@, quality@, dest@),
{
    let mut argv: Vec<String> = Vec::new();
    text::put(&mut argv, "-fsSL");
    text::put(&mut argv, "-o");
    text::put(&mut argv, dest);
    let url = text::cat5("https://i.ytimg.com/vi/", id, "/", quality, ".jpg");
    text::put(&mut argv, url.as_str());
    assert(text::texts(argv@) =~= thumbnail_args(id@, quality@, dest@));
    argv
}

/// The arguments that fetch subtitle tracks alone, into the patch's sidecar files.
pub open spec fn fetch_args(
    url: Seq<char>,
    id: Seq<char>,
    keys: Seq<Seq<char>>,
    into: Seq<char>,
    env: EnvView,
    tools: ToolsView,
) -> ytdlp::Argv {
    ytdlp::seed(env, tools) + seq![
        "--skip-download"@,
        "--write-subs"@,
        "--write-auto-subs"@,
        "--sub-langs"@,
        text::joined(keys, ","@),
        "--no-playlist"@,
        "--output"@,
        path::joined(into, ".dlsub-"@ + id + ".%(ext)s"@),
        url,
    ]
}

/// The arguments that fetch subtitle tracks alone, into the patch's sidecar files.
pub fn fetch_argv(
    url: &str,
    id: &str,
    keys: &[String],
    into: &str,
    env: Env,
    tools: &Tools,
) -> (r: Vec<String>)
    ensures
        text::texts(r@) == fetch_args(url@, id@, text::texts(keys@), into@, env@, tools@),
{
    let mut argv = ytdlp::seeded(env, tools);
    text::put(&mut argv, "--skip-download");
    text::put(&mut argv, "--write-subs");
    text::put(&mut argv, "--write-auto-subs");
    text::put(&mut argv, "--sub-langs");
    let list = text::join(keys, ",");
    text::put(&mut argv, list.as_str());
    text::put(&mut argv, "--no-playlist");
    text::put(&mut argv, "--output");
    let name = text::cat3(".dlsub-", id, ".%(ext)s");
    let output = path::join(into, name.as_str());
    text::put(&mut argv, output.as_str());
    text::put(&mut argv, url);
    argv
}

/// A subtitle track that was fetched: its pick, and the sidecar file that holds it.
pub struct Track {
    pub pick: Pick,
    pub sidecar: String,
}

/// A [`Track`] with its texts as sequences of characters.
pub struct TrackView {
    pub pick: PickView,
    pub sidecar: Seq<char>,
}

impl View for Track {
    type V = TrackView;

    open spec fn view(&self) -> TrackView {
        TrackView { pick: self.pick@, sidecar: self.sidecar@ }
    }
}

/// The views of fetched tracks.
pub open spec fn track_views(v: Seq<Track>) -> Seq<TrackView> {
    v.map_values(|t: Track| t@)
}

/// The flags that name the sidecars as inputs.
pub open spec fn input_flags(tracks: Seq<TrackView>) -> ytdlp::Argv
    decreases tracks.len(),
{
    if tracks.len() == 0 {
        seq![]
    } else {
        input_flags(tracks.drop_last()) + seq!["-i"@, tracks.last().sidecar]
    }
}

/// The flags that take `n` inputs beside the first into the output.
pub open spec fn map_flags(n: nat) -> ytdlp::Argv
    decreases n,
{
    if n == 0 {
        seq![]
    } else {
        map_flags((n - 1) as nat) + seq!["-map"@, number::digits(n)]
    }
}

/// The flags that tag the new tracks' language and title; they follow `existing` tracks.
pub open spec fn track_flags(tracks: Seq<TrackView>, existing: nat) -> ytdlp::Argv
    decreases tracks.len(),
{
    if tracks.len() == 0 {
        seq![]
    } else {
        let at = "-metadata:s:s:"@ + number::digits(
            (existing + tracks.len() - 1) as nat,
        );
        track_flags(tracks.drop_last(), existing) + seq![
            at,
            "language="@ + text::before_any(tracks.last().pick.key, "-"@),
            at,
            "title="@ + titles::title_of(tracks.last().pick),
        ]
    }
}

/// The ffmpeg run that copies `file` to `out` with the fetched tracks added. A cover (its stream,
/// and the file it was copied out to) is left out of the copy and attached anew.
pub open spec fn mux_args(
    file: Seq<char>,
    tracks: Seq<TrackView>,
    existing: nat,
    cover: Option<(u32, Seq<char>)>,
    out: Seq<char>,
) -> ytdlp::Argv {
    remux(file) + input_flags(tracks) + (match cover {
        Some((_, image)) => seq!["-attach"@, image],
        None => seq![],
    }) + seq!["-map"@, "0"@] + (match cover {
        Some((index, _)) => seq!["-map"@, "-0:"@ + number::digits(index as nat)],
        None => seq![],
    }) + map_flags(tracks.len()) + seq!["-c"@, "copy"@, "-c:s"@, "srt"@] + (if cover is Some {
        cover_flags()
    } else {
        seq![]
    }) + track_flags(tracks, existing) + seq![out]
}

/// A cover's stream and image file, as number and characters.
pub open spec fn cover_view(cover: Option<(u32, String)>) -> Option<(u32, Seq<char>)> {
    match cover {
        Some((index, image)) => Some((index, image@)),
        None => None,
    }
}

fn put_inputs(argv: &mut Vec<String>, tracks: &[Track])
    ensures
        text::texts(final(argv)@) == text::texts(old(argv)@) + input_flags(track_views(tracks@)),
{
    let ghost start = text::texts(argv@);
    let ghost all = track_views(tracks@);
    let mut i: usize = 0;
    assert(all.take(0) =~= seq![]);
    assert(text::texts(argv@) =~= start + input_flags(all.take(0)));
    while i < tracks.len()
        invariant
            i <= tracks@.len(),
            all == track_views(tracks@),
            text::texts(argv@) == start + input_flags(all.take(i as int)),
        decreases tracks@.len() - i,
    {
        proof {
            assert(all.take(i + 1).drop_last() =~= all.take(i as int));
            assert(all.take(i + 1).last() == tracks@[i as int]@);
        }
        text::put(argv, "-i");
        text::put(argv, tracks[i].sidecar.as_str());
        i += 1;
        assert(text::texts(argv@) =~= start + input_flags(all.take(i as int)));
    }
    assert(all.take(i as int) =~= all);
}

fn put_maps(argv: &mut Vec<String>, n: usize)
    ensures
        text::texts(final(argv)@) == text::texts(old(argv)@) + map_flags(n as nat),
{
    let ghost start = text::texts(argv@);
    let mut i: usize = 0;
    assert(text::texts(argv@) =~= start + map_flags(0));
    while i < n
        invariant
            i <= n,
            text::texts(argv@) == start + map_flags(i as nat),
        decreases n - i,
    {
        i += 1;
        let input = number::decimal(i as u128);
        text::put(argv, "-map");
        text::put(argv, input.as_str());
        assert(text::texts(argv@) =~= start + map_flags(i as nat));
    }
}

fn put_tracks(argv: &mut Vec<String>, tracks: &[Track], existing: usize)
    ensures
        text::texts(final(argv)@) == text::texts(old(argv)@) + track_flags(
            track_views(tracks@),
            existing as nat,
        ),
{
    let ghost start = text::texts(argv@);
    let ghost all = track_views(tracks@);
    let mut i: usize = 0;
    assert(all.take(0) =~= seq![]);
    assert(text::texts(argv@) =~= start + track_flags(all.take(0), existing as nat));
    while i < tracks.len()
        invariant
            i <= tracks@.len(),
            all == track_views(tracks@),
            text::texts(argv@) == start + track_flags(all.take(i as int), existing as nat),
        decreases tracks@.len() - i,
    {
        let ghost now = all.take(i + 1);
        proof {
            assert(now.drop_last() =~= all.take(i as int));
            assert(now.last() == tracks@[i as int]@);
        }
        let order = number::decimal(existing as u128 + i as u128);
        let at = text::cat("-metadata:s:s:", order.as_str());
        let lang = text::up_to(tracks[i].pick.key.as_str(), "-");
        let language = text::cat("language=", lang.as_str());
        let named = titles::subtitle_title(&tracks[i].pick);
        let title = text::cat("title=", named.as_str());
        text::put(argv, at.as_str());
        text::put(argv, language.as_str());
        text::put(argv, at.as_str());
        text::put(argv, title.as_str());
        i += 1;
        assert(text::texts(argv@) =~= start + track_flags(all.take(i as int), existing as nat));
    }
    assert(all.take(i as int) =~= all);
}

/// The ffmpeg run that copies `file` to `out` with the fetched tracks added.
pub fn mux_argv(
    file: &str,
    tracks: &[Track],
    existing: usize,
    cover: &Option<(u32, String)>,
    out: &str,
) -> (r: Vec<String>)
    ensures
        text::texts(r@) == mux_args(
            file@,
            track_views(tracks@),
            existing as nat,
            cover_view(*cover),
            out@,
        ),
{
    let mut argv = remux_argv(file);
    put_inputs(&mut argv, tracks);
    if let Some((_, image)) = cover {
        text::put(&mut argv, "-attach");
        text::put(&mut argv, image.as_str());
    }
    text::put(&mut argv, "-map");
    text::put(&mut argv, "0");
    if let Some((index, _)) = cover {
        let number = number::decimal(*index as u128);
        let stream = text::cat("-0:", number.as_str());
        text::put(&mut argv, "-map");
        text::put(&mut argv, stream.as_str());
    }
    put_maps(&mut argv, tracks.len());
    text::put(&mut argv, "-c");
    text::put(&mut argv, "copy");
    text::put(&mut argv, "-c:s");
    text::put(&mut argv, "srt");
    if cover.is_some() {
        put_cover_flags(&mut argv);
    }
    put_tracks(&mut argv, tracks, existing);
    text::put(&mut argv, out);
    assert(text::texts(argv@) =~= mux_args(
        file@,
        track_views(tracks@),
        existing as nat,
        cover_view(*cover),
        out@,
    ));
    argv
}

/// What yt-dlp names by its template is found again: a name that ends in `__`, the id and a media
/// extension is the name of the video's media file.
pub proof fn law_named_files_are_found_again(start: Seq<char>, id: Seq<char>, ext: Seq<char>)
    requires
        media_extension("."@ + ext),
    ensures
        names_media(start + "__"@ + id + "."@ + ext, id),
{
    reveal_strlit("__");
    reveal_strlit(".");
    let name = start + "__"@ + id + "."@ + ext;
    let marker = "__"@ + id + "."@;
    let i = start.len() as int;
    assert(name.subrange(i, i + marker.len()) =~= marker);
    assert(text::occurs_at(name, marker, i));
    let tail = "."@ + ext;
    assert(name.skip(name.len() - tail.len()) =~= tail);
    lemma_suffix_extends(".mkv"@, tail, name);
    lemma_suffix_extends(".opus"@, tail, name);
    lemma_suffix_extends(".m4a"@, tail, name);
    lemma_suffix_extends(".mp3"@, tail, name);
    lemma_suffix_extends(".ogg"@, tail, name);
    lemma_suffix_extends(".flac"@, tail, name);
    lemma_suffix_extends(".wav"@, tail, name);
    lemma_suffix_extends(".webm"@, tail, name);
}

proof fn lemma_suffix_extends(suffix: Seq<char>, tail: Seq<char>, whole: Seq<char>)
    requires
        tail.len() <= whole.len(),
        whole.skip(whole.len() - tail.len()) == tail,
    ensures
        suffix.is_suffix_of(tail) ==> suffix.is_suffix_of(whole),
{
    if suffix.is_suffix_of(tail) {
        assert(whole.skip(whole.len() - suffix.len()) =~= tail.skip(tail.len() - suffix.len()));
    }
}

/// Eight extensions make a media file, and its name carries the id between two underscores and
/// a dot; a name without the id, or with another ending, is none.
pub proof fn law_media_files_carry_the_id_and_their_extension(
    start: Seq<char>,
    id: Seq<char>,
    name: Seq<char>,
    other: Seq<char>,
)
    ensures
        names_media(start + "__"@ + id + ".mkv"@, id),
        names_media(start + "__"@ + id + ".opus"@, id),
        names_media(start + "__"@ + id + ".m4a"@, id),
        names_media(start + "__"@ + id + ".mp3"@, id),
        names_media(start + "__"@ + id + ".ogg"@, id),
        names_media(start + "__"@ + id + ".flac"@, id),
        names_media(start + "__"@ + id + ".wav"@, id),
        names_media(start + "__"@ + id + ".webm"@, id),
        names_media(name, other) ==> text::has(name, "__"@ + other + "."@) && (
        ".mkv"@.is_suffix_of(name) || ".opus"@.is_suffix_of(name) || ".m4a"@.is_suffix_of(name)
            || ".mp3"@.is_suffix_of(name) || ".ogg"@.is_suffix_of(name) || ".flac"@.is_suffix_of(
            name,
        ) || ".wav"@.is_suffix_of(name) || ".webm"@.is_suffix_of(name)),
{
    reveal_strlit("__");
    reveal_strlit(".");
    reveal_strlit(".mkv");
    reveal_strlit(".opus");
    reveal_strlit(".m4a");
    reveal_strlit(".mp3");
    reveal_strlit(".ogg");
    reveal_strlit(".flac");
    reveal_strlit(".wav");
    reveal_strlit(".webm");
    lemma_named(start, id, ".mkv"@);
    lemma_named(start, id, ".opus"@);
    lemma_named(start, id, ".m4a"@);
    lemma_named(start, id, ".mp3"@);
    lemma_named(start, id, ".ogg"@);
    lemma_named(start, id, ".flac"@);
    lemma_named(start, id, ".wav"@);
    lemma_named(start, id, ".webm"@);
}

proof fn lemma_named(start: Seq<char>, id: Seq<char>, ending: Seq<char>)
    requires
        ending.len() > 0,
        ending[0] == '.',
    ensures
        text::has(start + "__"@ + id + ending, "__"@ + id + "."@),
        ending.is_suffix_of(start + "__"@ + id + ending),
{
    reveal_strlit(".");
    let name = start + "__"@ + id + ending;
    let marker = "__"@ + id + "."@;
    let i = start.len() as int;
    assert(name.subrange(i, i + marker.len()) =~= marker);
    assert(text::occurs_at(name, marker, i));
    assert(name.subrange(name.len() - ending.len(), name.len() as int) =~= ending);
}

/// A download's sidecar stands beside its media file, under the file's stem, the track's key and
/// `.vtt`; the patch's sidecar stands in its folder, hidden, under the video's id and the key.
pub proof fn law_sidecars_stand_beside_their_file(
    dir: Seq<char>,
    stem: Seq<char>,
    ext: Seq<char>,
    into: Seq<char>,
    id: Seq<char>,
    key: Seq<char>,
)
    requires
        path::is_file_path(dir, stem, ext),
        into.len() > 0,
        into.last() != '/',
    ensures
        sidecar_of(dir + stem + "."@ + ext, key) == dir + stem + "."@ + key + ".vtt"@,
        patch_sidecar(into, id, key) == into + "/.dlsub-"@ + id + "."@ + key + ".vtt"@,
{
    path::law_a_path_gives_back_its_parts(dir, stem, ext, key);
    reveal_strlit(".dlsub-");
    reveal_strlit("/.dlsub-");
    reveal_strlit("/");
    let name = ".dlsub-"@ + id + "."@ + key + ".vtt"@;
    assert(name[0] == '.');
    assert("/.dlsub-"@ =~= "/"@ + ".dlsub-"@);
    assert(patch_sidecar(into, id, key) =~= into + "/.dlsub-"@ + id + "."@ + key + ".vtt"@);
}

/// A track's tag is `subtitles_` and its key, in small letters and with underscores for hyphens;
/// the `-orig` of a raw track goes, and an auto-generated one says that it is one.
pub proof fn law_tags_are_named_by_key(key: Seq<char>, auto: bool, name: Seq<char>)
    requires
        vstd::utf8::is_ascii_chars(key),
    ensures
        ({
            let small = Seq::new(
                key.len(),
                |i: int|
                    if key[i] == '-' {
                        '_'
                    } else {
                        text::lower(key[i])
                    },
            );
            let tail = if auto {
                "_autogenerated"@
            } else {
                ""@
            };
            &&& !"_orig"@.is_suffix_of(small) ==> tag_of(PickView { key, name, auto })
                == "subtitles_"@ + small + tail
            &&& tag_of(PickView { key: key + "-orig"@, name, auto }) == "subtitles_"@ + small
                + tail
        }),
{
    let small = Seq::new(
        key.len(),
        |i: int|
            if key[i] == '-' {
                '_'
            } else {
                text::lower(key[i])
            },
    );
    reveal_strlit("");
    reveal_strlit("-orig");
    reveal_strlit("_orig");
    text::lemma_lowercase_of_ascii(key);
    let joined = text::ascii_lower(key).map_values(|c: char| underscored(c));
    assert forall|i: int| 0 <= i < key.len() implies joined[i] == small[i] by {
        assert(text::ascii_lower(key)[i] == text::lower(key[i]));
    }
    assert(joined =~= small);
    let raw = key + "-orig"@;
    text::lemma_lowercase_of_ascii(raw);
    let other = text::ascii_lower(raw).map_values(|c: char| underscored(c));
    assert forall|i: int| 0 <= i < raw.len() implies other[i] == (small + "_orig"@)[i] by {
        assert(text::ascii_lower(raw)[i] == text::lower(raw[i]));
        if i >= key.len() {
            assert(raw[i] == "-orig"@[i - key.len()]);
        }
    }
    assert(other =~= small + "_orig"@);
    assert(other.subrange(other.len() - "_orig"@.len(), other.len() as int) =~= "_orig"@);
    assert(other.take(other.len() - "_orig"@.len()) =~= small);
    assert("subtitles_"@ + small + ""@ =~= "subtitles_"@ + small);
}

/// The cover is the stream whose `index=` line is the last one before the first line that reports
/// an attached picture; a listing that reports none shows no cover.
pub proof fn law_the_cover_is_the_attached_stream(listing: Seq<char>, i: int, j: int, index: u32)
    ensures
        ({
            let lines = text::lines_of(listing);
            let reports = |line: Seq<char>| text::trimmed(line)
                == "DISPOSITION:attached_pic=1"@;
            let names = |line: Seq<char>| "index="@.is_prefix_of(line);
            &&& 0 <= i < j < lines.len() && lines[i] == "index="@ + number::digits(index as nat)
                && reports(lines[j]) && !names(lines[j]) && (forall|k: int|
                0 <= k < j ==> names(#[trigger] lines[k]) || !reports(lines[k])) && (forall|
                k: int,
            |
                i < k < j ==> !names(#[trigger] lines[k])) ==> cover_in(listing) == Some(index)
            &&& (forall|k: int|
                0 <= k < lines.len() ==> names(#[trigger] lines[k]) || !reports(lines[k]))
                ==> cover_in(listing) is None
        }),
{
    let lines = text::lines_of(listing);
    let reports = |line: Seq<char>| text::trimmed(line) == "DISPOSITION:attached_pic=1"@;
    let names = |line: Seq<char>| "index="@.is_prefix_of(line);
    if 0 <= i < j < lines.len() && lines[i] == "index="@ + number::digits(index as nat) && reports(
        lines[j],
    ) && !names(lines[j]) && (forall|k: int|
        0 <= k < j ==> names(#[trigger] lines[k]) || !reports(lines[k])) && (forall|k: int|
        i < k < j ==> !names(#[trigger] lines[k])) {
        lemma_cover_at(lines, i, j, index, 0, None);
    }
    if forall|k: int| 0 <= k < lines.len() ==> names(#[trigger] lines[k]) || !reports(lines[k]) {
        lemma_no_cover(lines, 0, None);
    }
}

proof fn lemma_cover_at(
    lines: Seq<Seq<char>>,
    i: int,
    j: int,
    index: u32,
    from: int,
    current: Option<u32>,
)
    requires
        0 <= i < j < lines.len(),
        0 <= from <= j,
        lines[i] == "index="@ + number::digits(index as nat),
        text::trimmed(lines[j]) == "DISPOSITION:attached_pic=1"@,
        !"index="@.is_prefix_of(lines[j]),
        forall|k: int|
            0 <= k < j ==> "index="@.is_prefix_of(#[trigger] lines[k]) || text::trimmed(lines[k])
                != "DISPOSITION:attached_pic=1"@,
        forall|k: int| i < k < j ==> !"index="@.is_prefix_of(#[trigger] lines[k]),
        from > i ==> current == Some(index),
    ensures
        cover_from(lines, from, current) == Some(index),
    decreases j - from,
{
    if from < j {
        let line = lines[from];
        if "index="@.is_prefix_of(line) {
            let shown = text::after_prefix(line, "index="@).unwrap();
            if from == i {
                assert(shown =~= number::digits(index as nat));
                number::law_decimal_reads_back(index);
                number::lemma_digits_are_trimmed(index as nat);
            }
            lemma_cover_at(
                lines,
                i,
                j,
                index,
                from + 1,
                number::parsed(text::trimmed(shown)),
            );
        } else {
            assert(from != i) by {
                if from == i {
                    assert(line.subrange(0, "index="@.len() as int) =~= "index="@);
                }
            }
            lemma_cover_at(lines, i, j, index, from + 1, current);
        }
    }
}

proof fn lemma_no_cover(lines: Seq<Seq<char>>, from: int, current: Option<u32>)
    requires
        0 <= from,
        forall|k: int|
            0 <= k < lines.len() ==> "index="@.is_prefix_of(#[trigger] lines[k])
                || text::trimmed(lines[k]) != "DISPOSITION:attached_pic=1"@,
    ensures
        cover_from(lines, from, current) is None,
    decreases lines.len() - from,
{
    if from < lines.len() {
        match text::after_prefix(lines[from], "index="@) {
            Some(index) => lemma_no_cover(lines, from + 1, number::parsed(text::trimmed(index))),
            None => lemma_no_cover(lines, from + 1, current),
        }
    }
}

/// What ffprobe is asked: of which streams, for what, and in which form, and of the file last.
pub proof fn law_ffprobe_is_asked_for_what_is_read(file: Seq<char>)
    ensures
        titles_query(file) == seq![
            "-v"@,
            "error"@,
            "-select_streams"@,
            "s"@,
            "-show_entries"@,
            "stream_tags=title"@,
            "-of"@,
            "csv=p=0"@,
            file,
        ],
        tracks_query(file) == seq![
            "-v"@,
            "error"@,
            "-select_streams"@,
            "s"@,
            "-show_entries"@,
            "stream=index:stream_tags=title"@,
            "-of"@,
            "default=nw=1"@,
            file,
        ],
        cover_query(file) == seq![
            "-v"@,
            "error"@,
            "-show_entries"@,
            "stream=index:stream_disposition=attached_pic"@,
            "-of"@,
            "default=nw=1"@,
            file,
        ],
{
}

/// What curl is asked for: the thumbnail of the video in the given quality, from YouTube's image
/// host, into the given file.
pub proof fn law_thumbnails_come_from_the_image_host(
    id: Seq<char>,
    quality: Seq<char>,
    dest: Seq<char>,
)
    ensures
        thumbnail_args(id, quality, dest) == seq![
            "-fsSL"@,
            "-o"@,
            dest,
            "https://i.ytimg.com/vi/"@ + id + "/"@ + quality + ".jpg"@,
        ],
{
}

/// The copy with the cover attached takes every stream over as it is, attaches the image as a
/// jpeg named `cover.jpg`, and goes to the copy; the cover copied out is one frame of its stream.
pub proof fn law_covers_are_attached_and_copied_out(
    file: Seq<char>,
    thumb: Seq<char>,
    out: Seq<char>,
    index: u32,
)
    ensures
        attach_args(file, thumb, out) == seq![
            "-nostdin"@,
            "-v"@,
            "error"@,
            "-y"@,
            "-i"@,
            file,
            "-map"@,
            "0"@,
            "-c"@,
            "copy"@,
            "-attach"@,
            thumb,
            "-metadata:s:t:0"@,
            "mimetype=image/jpeg"@,
            "-metadata:s:t:0"@,
            "filename=cover.jpg"@,
            out,
        ],
        extract_args(file, index, out) == seq![
            "-nostdin"@,
            "-v"@,
            "error"@,
            "-y"@,
            "-i"@,
            file,
            "-map"@,
            "0:"@ + number::digits(index as nat),
            "-frames:v"@,
            "1"@,
            "-c"@,
            "copy"@,
            out,
        ],
{
}

/// A stamping copies every stream as it is and gives each track of the list its new title, in
/// order, by the track's position among the subtitle streams; nothing else is changed.
pub proof fn law_stamps_change_titles_only(
    file: Seq<char>,
    out: Seq<char>,
    retitle: Seq<(int, Seq<char>)>,
)
    requires
        forall|k: int| 0 <= k < retitle.len() ==> (#[trigger] retitle[k]).0 >= 0,
    ensures
        ({
            let argv = stamp_args(file, out, retitle);
            &&& argv.len() == 11 + 2 * retitle.len()
            &&& argv.take(10) == seq![
                "-nostdin"@,
                "-v"@,
                "error"@,
                "-y"@,
                "-i"@,
                file,
                "-map"@,
                "0"@,
                "-c"@,
                "copy"@,
            ]
            &&& forall|k: int|
                0 <= k < retitle.len() ==> argv[10 + 2 * k] == "-metadata:s:s:"@
                    + number::digits((#[trigger] retitle[k]).0 as nat) && argv[11 + 2 * k]
                    == "title="@ + retitle[k].1
            &&& argv.last() == out
        }),
{
    lemma_title_flags(retitle);
    let argv = stamp_args(file, out, retitle);
    let flags = title_flags(retitle);
    assert(argv.take(10) =~= seq![
        "-nostdin"@,
        "-v"@,
        "error"@,
        "-y"@,
        "-i"@,
        file,
        "-map"@,
        "0"@,
        "-c"@,
        "copy"@,
    ]);
    assert forall|k: int| 0 <= k < retitle.len() implies argv[10 + 2 * k] == "-metadata:s:s:"@
        + number::digits((#[trigger] retitle[k]).0 as nat) && argv[11 + 2 * k] == "title="@
        + retitle[k].1 by {
        assert(argv[10 + 2 * k] == flags[2 * k]);
        assert(argv[11 + 2 * k] == flags[2 * k + 1]);
    }
}

proof fn lemma_title_flags(retitle: Seq<(int, Seq<char>)>)
    ensures
        title_flags(retitle).len() == 2 * retitle.len(),
        forall|k: int|
            0 <= k < retitle.len() ==> title_flags(retitle)[2 * k] == "-metadata:s:s:"@
                + number::digits((#[trigger] retitle[k]).0 as nat) && title_flags(retitle)[2 * k
                + 1] == "title="@ + retitle[k].1,
    decreases retitle.len(),
{
    if retitle.len() > 0 {
        let prior = retitle.drop_last();
        lemma_title_flags(prior);
        let flags = title_flags(retitle);
        let before = title_flags(prior);
        assert forall|k: int| 0 <= k < retitle.len() implies flags[2 * k] == "-metadata:s:s:"@
            + number::digits((#[trigger] retitle[k]).0 as nat) && flags[2 * k + 1] == "title="@
            + retitle[k].1 by {
            if k < prior.len() {
                assert(prior[k] == retitle[k]);
                assert(flags[2 * k] == before[2 * k]);
                assert(flags[2 * k + 1] == before[2 * k + 1]);
            }
        }
    }
}

/// Whether a command line, from `from` on, takes in the sidecar of track `k` as an input.
pub open spec fn takes_in(argv: ytdlp::Argv, from: int, tracks: Seq<TrackView>, k: int) -> bool {
    argv.subrange(from + 2 * k, from + 2 * k + 2) == seq!["-i"@, tracks[k].sidecar]
}

/// Whether a command line, from `from` on, takes the streams of input `k + 1` over.
pub open spec fn takes_over(argv: ytdlp::Argv, from: int, k: int) -> bool {
    argv.subrange(from + 2 * k, from + 2 * k + 2) == seq![
        "-map"@,
        number::digits((k + 1) as nat),
    ]
}

/// Whether a command line, from `from` on, tags track `k`, which stands behind `existing` others,
/// with its language and its title.
pub open spec fn tags_track(
    argv: ytdlp::Argv,
    from: int,
    tracks: Seq<TrackView>,
    existing: nat,
    k: int,
) -> bool {
    argv.subrange(from + 4 * k, from + 4 * k + 4) == seq![
        "-metadata:s:s:"@ + number::digits((existing + k) as nat),
        "language="@ + text::before_any(tracks[k].pick.key, "-"@),
        "-metadata:s:s:"@ + number::digits((existing + k) as nat),
        "title="@ + titles::title_of(tracks[k].pick),
    ]
}

proof fn lemma_input_flags(tracks: Seq<TrackView>)
    ensures
        input_flags(tracks).len() == 2 * tracks.len(),
        forall|k: int| 0 <= k < tracks.len() ==> #[trigger] takes_in(input_flags(tracks), 0, tracks, k),
    decreases tracks.len(),
{
    if tracks.len() > 0 {
        let prior = tracks.drop_last();
        lemma_input_flags(prior);
        let flags = input_flags(tracks);
        let before = input_flags(prior);
        assert forall|k: int| 0 <= k < tracks.len() implies #[trigger] takes_in(
            flags,
            0,
            tracks,
            k,
        ) by {
            if k < prior.len() {
                assert(takes_in(before, 0, prior, k));
                assert(flags.subrange(2 * k, 2 * k + 2) =~= before.subrange(2 * k, 2 * k + 2));
            } else {
                assert(flags.subrange(2 * k, 2 * k + 2) =~= seq!["-i"@, tracks[k].sidecar]);
            }
        }
    }
}

proof fn lemma_map_flags(n: nat)
    ensures
        map_flags(n).len() == 2 * n,
        forall|k: int| 0 <= k < n ==> #[trigger] takes_over(map_flags(n), 0, k),
    decreases n,
{
    if n > 0 {
        let prior = (n - 1) as nat;
        lemma_map_flags(prior);
        let flags = map_flags(n);
        let before = map_flags(prior);
        assert forall|k: int| 0 <= k < n implies #[trigger] takes_over(flags, 0, k) by {
            if k < prior {
                assert(takes_over(before, 0, k));
                assert(flags.subrange(2 * k, 2 * k + 2) =~= before.subrange(2 * k, 2 * k + 2));
            } else {
                assert(flags.subrange(2 * k, 2 * k + 2) =~= seq![
                    "-map"@,
                    number::digits((k + 1) as nat),
                ]);
            }
        }
    }
}

proof fn lemma_track_flags(tracks: Seq<TrackView>, existing: nat)
    ensures
        track_flags(tracks, existing).len() == 4 * tracks.len(),
        forall|k: int|
            0 <= k < tracks.len() ==> #[trigger] tags_track(
                track_flags(tracks, existing),
                0,
                tracks,
                existing,
                k,
            ),
    decreases tracks.len(),
{
    if tracks.len() > 0 {
        let prior = tracks.drop_last();
        lemma_track_flags(prior, existing);
        let flags = track_flags(tracks, existing);
        let before = track_flags(prior, existing);
        assert forall|k: int| 0 <= k < tracks.len() implies #[trigger] tags_track(
            flags,
            0,
            tracks,
            existing,
            k,
        ) by {
            if k < prior.len() {
                assert(tags_track(before, 0, prior, existing, k));
                assert(flags.subrange(4 * k, 4 * k + 4) =~= before.subrange(4 * k, 4 * k + 4));
            } else {
                assert(flags.subrange(4 * k, 4 * k + 4) =~= seq![
                    "-metadata:s:s:"@ + number::digits((existing + k) as nat),
                    "language="@ + text::before_any(tracks[k].pick.key, "-"@),
                    "-metadata:s:s:"@ + number::digits((existing + k) as nat),
                    "title="@ + titles::title_of(tracks[k].pick),
                ]);
            }
        }
    }
}

/// The copy with the fetched tracks takes over every stream of the file, but for a cover that is
/// attached anew; it takes in every fetched track, each as an input of its own, as subtitles; it
/// tags each new track, behind the tracks that were there, with its language and its title; and
/// it does nothing else.
pub proof fn law_every_fetched_track_is_added(
    file: Seq<char>,
    tracks: Seq<TrackView>,
    existing: nat,
    cover: Option<(u32, Seq<char>)>,
    out: Seq<char>,
)
    ensures
        ({
            let argv = mux_args(file, tracks, existing, cover, out);
            let n = tracks.len() as int;
            let c = if cover is Some {
                2int
            } else {
                0int
            };
            let maps = 6 + 2 * n + c;
            let copies = maps + 2 + c + 2 * n;
            let tags = copies + 4 + 2 * c;
            &&& argv.len() == tags + 4 * n + 1
            &&& argv.take(6) == seq!["-nostdin"@, "-v"@, "error"@, "-y"@, "-i"@, file]
            &&& forall|k: int| 0 <= k < n ==> #[trigger] takes_in(argv, 6, tracks, k)
            &&& argv.subrange(maps, maps + 2) == seq!["-map"@, "0"@]
            &&& forall|k: int| 0 <= k < n ==> #[trigger] takes_over(argv, maps + 2 + c, k)
            &&& argv.subrange(copies, copies + 4) == seq!["-c"@, "copy"@, "-c:s"@, "srt"@]
            &&& forall|k: int|
                0 <= k < n ==> #[trigger] tags_track(argv, tags, tracks, existing, k)
            &&& argv.last() == out
            &&& cover matches Some((index, image)) ==> {
                &&& argv.subrange(6 + 2 * n, maps) == seq!["-attach"@, image]
                &&& argv.subrange(maps + 2, maps + 4) == seq![
                    "-map"@,
                    "-0:"@ + number::digits(index as nat),
                ]
                &&& argv.subrange(copies + 4, tags) == seq![
                    "-metadata:s:t:0"@,
                    "mimetype=image/jpeg"@,
                    "-metadata:s:t:0"@,
                    "filename=cover.jpg"@,
                ]
            }
        }),
{
    let argv = mux_args(file, tracks, existing, cover, out);
    let n = tracks.len() as int;
    let c = if cover is Some {
        2int
    } else {
        0int
    };
    let maps = 6 + 2 * n + c;
    let copies = maps + 2 + c + 2 * n;
    let tags = copies + 4 + 2 * c;
    lemma_input_flags(tracks);
    lemma_map_flags(tracks.len());
    lemma_track_flags(tracks, existing);
    let inputs = input_flags(tracks);
    let numbers = map_flags(tracks.len());
    let flags = track_flags(tracks, existing);
    assert(argv.len() == tags + 4 * n + 1);
    assert(argv.take(6) =~= seq!["-nostdin"@, "-v"@, "error"@, "-y"@, "-i"@, file]);
    assert(argv.subrange(6, 6 + 2 * n) =~= inputs);
    assert(argv.subrange(maps + 2 + c, copies) =~= numbers);
    assert(argv.subrange(tags, tags + 4 * n) =~= flags);
    assert forall|k: int| 0 <= k < n implies #[trigger] takes_in(argv, 6, tracks, k) by {
        assert(takes_in(inputs, 0, tracks, k));
        assert(argv.subrange(6 + 2 * k, 6 + 2 * k + 2) =~= inputs.subrange(2 * k, 2 * k + 2));
    }
    assert forall|k: int| 0 <= k < n implies #[trigger] takes_over(argv, maps + 2 + c, k) by {
        assert(takes_over(numbers, 0, k));
        let from = maps + 2 + c;
        assert(argv.subrange(from + 2 * k, from + 2 * k + 2) =~= numbers.subrange(
            2 * k,
            2 * k + 2,
        ));
    }
    assert forall|k: int| 0 <= k < n implies #[trigger] tags_track(
        argv,
        tags,
        tracks,
        existing,
        k,
    ) by {
        assert(tags_track(flags, 0, tracks, existing, k));
        assert(argv.subrange(tags + 4 * k, tags + 4 * k + 4) =~= flags.subrange(
            4 * k,
            4 * k + 4,
        ));
    }
    assert(argv.subrange(maps, maps + 2) =~= seq!["-map"@, "0"@]);
    assert(argv.subrange(copies, copies + 4) =~= seq!["-c"@, "copy"@, "-c:s"@, "srt"@]);
    if let Some((index, image)) = cover {
        assert(argv.subrange(6 + 2 * n, maps) =~= seq!["-attach"@, image]);
        assert(argv.subrange(maps + 2, maps + 4) =~= seq![
            "-map"@,
            "-0:"@ + number::digits(index as nat),
        ]);
        assert(argv.subrange(copies + 4, tags) =~= cover_flags());
    }
}

} // verus!
