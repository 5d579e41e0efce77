//! What holds of every yt-dlp command line.

use vstd::prelude::*;
use vstd::string::*;
use crate::env::EnvView;
use crate::media::files;
use crate::media::subtitles;
use crate::tools::ToolsView;
use crate::util::number;
use crate::util::path;
use crate::util::text;
use crate::ytdlp;
use crate::ytdlp::scan;

verus! {

/// Everything that a yt-dlp command line is made from.
pub struct Request {
    pub url: Seq<char>,
    pub id: Seq<char>,
    pub tab: Seq<char>,
    pub into: Seq<char>,
    pub dir: Seq<char>,
    pub template: Seq<char>,
    pub langs: ytdlp::Argv,
    pub items: Option<Seq<char>>,
    pub indexes: ytdlp::Argv,
}

/// The command lines that download something.
pub enum DownloadKind {
    Video,
    Generic,
    Playlist,
    Tab,
}

/// The command lines that ask something.
pub enum QuestionKind {
    VideoProbe,
    BatchProbe,
    Scan,
    Fetch,
}

/// The command line of a download.
pub open spec fn download_args(
    kind: DownloadKind,
    r: Request,
    env: EnvView,
    tools: ToolsView,
) -> ytdlp::Argv {
    match kind {
        DownloadKind::Video => ytdlp::video_args(r.url, r.into, env, r.langs, tools),
        DownloadKind::Generic => ytdlp::generic_args(r.url, r.into, env, tools),
        DownloadKind::Playlist => ytdlp::playlist_args(
            r.url,
            r.into,
            r.dir,
            env,
            r.langs,
            r.items,
            tools,
        ),
        DownloadKind::Tab => ytdlp::channel_tab_args(
            r.url,
            r.tab,
            r.into,
            r.dir,
            env,
            r.langs,
            match r.items {
                Some(items) => items,
                None => seq![],
            },
            tools,
        ),
    }
}

/// The command line of a question.
pub open spec fn question_args(
    kind: QuestionKind,
    r: Request,
    env: EnvView,
    tools: ToolsView,
) -> ytdlp::Argv {
    match kind {
        QuestionKind::VideoProbe => subtitles::video_probe_args(r.url, env, tools),
        QuestionKind::BatchProbe => subtitles::batch_probe_args(r.url, r.indexes, env, tools),
        QuestionKind::Scan => scan::scan_args(r.url, r.template, env, tools),
        QuestionKind::Fetch => files::fetch_args(r.url, r.id, r.langs, r.into, env, tools),
    }
}

/// Whether arguments stand in a command line, one after the other.
pub open spec fn carries(argv: ytdlp::Argv, part: ytdlp::Argv) -> bool {
    exists|i: int|
        0 <= i && i + part.len() <= argv.len() && #[trigger] argv.subrange(i, i + part.len())
            == part
}

proof fn lemma_carries_here(a: ytdlp::Argv, part: ytdlp::Argv)
    ensures
        carries(a + part, part),
{
    let i = a.len() as int;
    assert((a + part).subrange(i, i + part.len()) =~= part);
}

proof fn lemma_carries_on(a: ytdlp::Argv, b: ytdlp::Argv, part: ytdlp::Argv)
    requires
        carries(a, part),
    ensures
        carries(a + b, part),
{
    let i = choose|i: int|
        0 <= i && i + part.len() <= a.len() && #[trigger] a.subrange(i, i + part.len()) == part;
    assert((a + b).subrange(i, i + part.len()) =~= part);
}

proof fn lemma_seed_carries(env: EnvView, tools: ToolsView)
    ensures
        carries(ytdlp::seed(env, tools), ytdlp::cookies(env)),
        carries(ytdlp::seed(env, tools), ytdlp::ipv4(env)),
        carries(ytdlp::seed(env, tools), ytdlp::bundle(tools.js_runtime, tools.ffmpeg_dir)),
{
    let v4 = ytdlp::ipv4(env);
    let tied = ytdlp::bundle(tools.js_runtime, tools.ffmpeg_dir);
    let jar = ytdlp::cookies(env);
    assert(seq![] + v4 =~= v4);
    lemma_carries_here(seq![], v4);
    lemma_carries_on(v4, tied, v4);
    lemma_carries_on(v4 + tied, jar, v4);
    lemma_carries_here(v4, tied);
    lemma_carries_on(v4 + tied, jar, tied);
    lemma_carries_here(v4 + tied, jar);
}

proof fn lemma_base_carries(dir: Seq<char>, env: EnvView, langs: ytdlp::Argv, tools: ToolsView)
    ensures
        carries(ytdlp::base(dir, env, langs, tools), ytdlp::cookies(env)),
        carries(ytdlp::base(dir, env, langs, tools), ytdlp::ipv4(env)),
        carries(
            ytdlp::base(dir, env, langs, tools),
            ytdlp::bundle(tools.js_runtime, tools.ffmpeg_dir),
        ),
{
    let v4 = ytdlp::ipv4(env);
    let tied = ytdlp::bundle(tools.js_runtime, tools.ffmpeg_dir);
    let jar = ytdlp::cookies(env);
    let start = seq!["--ignore-errors"@, "--concurrent-fragments"@, "4"@];
    let subs = ytdlp::subtitle_flags(env, langs);
    let fixed = seq![
        "--embed-metadata"@,
        "--embed-chapters"@,
        "--merge-output-format"@,
        "mkv"@,
        "--download-archive"@,
        path::joined(dir, ytdlp::ARCHIVE_NAME@),
    ];
    let whole = ytdlp::base(dir, env, langs, tools);
    let core = start + v4 + subs + fixed + tied + jar;
    let knobs = whole.skip(core.len() as int);
    assert(whole =~= core + knobs);
    lemma_carries_here(start, v4);
    lemma_carries_on(start + v4, subs, v4);
    lemma_carries_on(start + v4 + subs, fixed, v4);
    lemma_carries_on(start + v4 + subs + fixed, tied, v4);
    lemma_carries_on(start + v4 + subs + fixed + tied, jar, v4);
    lemma_carries_on(core, knobs, v4);
    lemma_carries_here(start + v4 + subs + fixed, tied);
    lemma_carries_on(start + v4 + subs + fixed + tied, jar, tied);
    lemma_carries_on(core, knobs, tied);
    lemma_carries_here(start + v4 + subs + fixed + tied, jar);
    lemma_carries_on(core, knobs, jar);
}

/// The folder whose archive a download uses.
pub open spec fn archive_dir(kind: DownloadKind, r: Request) -> Seq<char> {
    match kind {
        DownloadKind::Video => r.into,
        DownloadKind::Generic => r.into,
        DownloadKind::Playlist => r.dir,
        DownloadKind::Tab => r.dir,
    }
}

/// The subtitle keys that a download asks for.
pub open spec fn langs_of(kind: DownloadKind, r: Request) -> ytdlp::Argv {
    if kind is Generic {
        seq![]
    } else {
        r.langs
    }
}

/// Every download's command line starts with the shared base and ends with the shared tail.
proof fn lemma_shape(kind: DownloadKind, r: Request, env: EnvView, tools: ToolsView) -> (t: (
    ytdlp::Argv,
    Seq<char>,
))
    ensures
        download_args(kind, r, env, tools) == ytdlp::base(
            archive_dir(kind, r),
            env,
            langs_of(kind, r),
            tools,
        ) + t.0 + ytdlp::tail(env, t.1, r.url),
        t == shape(kind, r),
{
    shape(kind, r)
}

/// What stands between a download's shared base and tail, and where its files go.
spec fn shape(kind: DownloadKind, r: Request) -> (ytdlp::Argv, Seq<char>) {
    match kind {
        DownloadKind::Video => (
            seq!["--no-playlist"@],
            path::joined(r.into, ytdlp::YT_NAME@),
        ),
        DownloadKind::Generic => (
            seq!["--no-playlist"@],
            path::joined(r.into, ytdlp::GENERIC_NAME@),
        ),
        DownloadKind::Playlist => (
            ytdlp::items_flag(r.items),
            path::joined(
                r.into,
                "%(playlist_title)s[%(playlist_id)s]/%(playlist_index)03d__"@ + ytdlp::YT_NAME@,
            ),
        ),
        DownloadKind::Tab => (
            ytdlp::items_flag(
                Some(
                    match r.items {
                        Some(items) => items,
                        None => seq![],
                    },
                ),
            ),
            path::joined(
                r.into,
                "%(uploader)s[%(channel_id)s]/"@ + r.tab + "/"@ + ytdlp::YT_NAME@,
            ),
        ),
    }
}

proof fn lemma_download_carries(
    kind: DownloadKind,
    r: Request,
    env: EnvView,
    tools: ToolsView,
    part: ytdlp::Argv,
)
    requires
        carries(ytdlp::base(archive_dir(kind, r), env, langs_of(kind, r), tools), part),
    ensures
        carries(download_args(kind, r, env, tools), part),
{
    let (middle, output) = lemma_shape(kind, r, env, tools);
    let base = ytdlp::base(archive_dir(kind, r), env, langs_of(kind, r), tools);
    lemma_carries_on(base, middle, part);
    lemma_carries_on(base + middle, ytdlp::tail(env, output, r.url), part);
}

proof fn lemma_question_carries(
    kind: QuestionKind,
    r: Request,
    env: EnvView,
    tools: ToolsView,
    part: ytdlp::Argv,
)
    requires
        carries(ytdlp::seed(env, tools), part),
    ensures
        carries(question_args(kind, r, env, tools), part),
{
    let seed = ytdlp::seed(env, tools);
    let argv = question_args(kind, r, env, tools);
    match kind {
        QuestionKind::BatchProbe => {
            let lax = seq!["--ignore-errors"@];
            let slow = if r.indexes.len() > subtitles::PROBE_PACING_THRESHOLD {
                seq!["--sleep-requests"@, "1"@]
            } else {
                seq![]
            };
            let rest = seq![
                "--playlist-items"@,
                crate::util::text::joined(r.indexes, ","@),
                "--print"@,
                subtitles::PROBE_FORMAT@,
                r.url,
            ];
            lemma_carries_on(seed, lax, part);
            lemma_carries_on(seed + lax, slow, part);
            lemma_carries_on(seed + lax + slow, rest, part);
        },
        QuestionKind::VideoProbe => {
            lemma_carries_on(
                seed,
                seq![
                    "--print"@,
                    "%(id)s"@,
                    "--print"@,
                    "%(language)s"@,
                    "--print"@,
                    "%(subtitles)j"@,
                    "--print"@,
                    "%(automatic_captions)j"@,
                    r.url,
                ],
                part,
            );
        },
        QuestionKind::Scan => {
            lemma_carries_on(
                seed,
                seq![
                    "--flat-playlist"@,
                    "--print"@,
                    scan::SCAN_FORMAT@,
                    "--print"@,
                    "playlist:"@ + r.template,
                    r.url,
                ],
                part,
            );
        },
        QuestionKind::Fetch => {
            lemma_carries_on(
                seed,
                seq![
                    "--skip-download"@,
                    "--write-subs"@,
                    "--write-auto-subs"@,
                    "--sub-langs"@,
                    crate::util::text::joined(r.langs, ","@),
                    "--no-playlist"@,
                    "--output"@,
                    path::joined(r.into, ".dlsub-"@ + r.id + ".%(ext)s"@),
                    r.url,
                ],
                part,
            );
        },
    }
}

/// Whatever cookies the user named reach yt-dlp as they are, on every download and on every
/// question; so do the choice of IPv4 and the programs that were bundled.
pub proof fn law_every_invocation_carries_the_shared_flags(
    download: DownloadKind,
    question: QuestionKind,
    r: Request,
    env: EnvView,
    tools: ToolsView,
)
    ensures
        carries(download_args(download, r, env, tools), ytdlp::cookies(env)),
        carries(question_args(question, r, env, tools), ytdlp::cookies(env)),
        carries(download_args(download, r, env, tools), ytdlp::ipv4(env)),
        carries(question_args(question, r, env, tools), ytdlp::ipv4(env)),
        carries(
            download_args(download, r, env, tools),
            ytdlp::bundle(tools.js_runtime, tools.ffmpeg_dir),
        ),
        carries(
            question_args(question, r, env, tools),
            ytdlp::bundle(tools.js_runtime, tools.ffmpeg_dir),
        ),
{
    let v4 = ytdlp::ipv4(env);
    let tied = ytdlp::bundle(tools.js_runtime, tools.ffmpeg_dir);
    let jar = ytdlp::cookies(env);
    lemma_seed_carries(env, tools);
    lemma_question_carries(question, r, env, tools, v4);
    lemma_question_carries(question, r, env, tools, tied);
    lemma_question_carries(question, r, env, tools, jar);
    lemma_base_carries(archive_dir(download, r), env, langs_of(download, r), tools);
    lemma_download_carries(download, r, env, tools, v4);
    lemma_download_carries(download, r, env, tools, tied);
    lemma_download_carries(download, r, env, tools, jar);
}

/// An explicit cookie file wins alone: the browser is named only where there is no file.
pub proof fn law_the_cookie_file_wins_alone(env: EnvView)
    ensures
        match (env.cookies, env.cookies_from_browser) {
            (Some(file), _) => ytdlp::cookies(env) == seq!["--cookies"@, file],
            (None, Some(browser)) => ytdlp::cookies(env) == seq![
                "--cookies-from-browser"@,
                browser,
            ],
            (None, None) => ytdlp::cookies(env) == Seq::<Seq<char>>::empty(),
        },
{
}

/// IPv4 is forced unless the user allowed IPv6.
pub proof fn law_ipv4_is_forced_unless_ipv6_is_allowed(env: EnvView)
    ensures
        env.allow_ipv6 ==> ytdlp::ipv4(env).len() == 0,
        !env.allow_ipv6 ==> ytdlp::ipv4(env) == seq!["--force-ipv4"@],
{
}

/// The URL ends every download's command line, and right before it stands what the user added, so
/// that it wins over every default; the defaults before do not depend on it.
pub proof fn law_what_the_user_added_comes_last(
    kind: DownloadKind,
    r: Request,
    env: EnvView,
    other: ytdlp::Argv,
    tools: ToolsView,
)
    ensures
        ({
            let argv = download_args(kind, r, env, tools);
            let again = download_args(kind, r, EnvView { extra: other, ..env }, tools);
            let n = argv.len() - env.extra.len() - 1;
            let m = again.len() - other.len() - 1;
            &&& 0 <= n == m
            &&& argv.skip(n) == env.extra + seq![r.url]
            &&& argv.take(n) == again.take(n)
        }),
{
    let (middle, output) = lemma_shape(kind, r, env, tools);
    let _ = lemma_shape(kind, r, EnvView { extra: other, ..env }, tools);
    let base = ytdlp::base(archive_dir(kind, r), env, langs_of(kind, r), tools);
    lemma_tail_splits(base + middle, output, env.extra, r.url);
    lemma_tail_splits(base + middle, output, other, r.url);
}

proof fn lemma_tail_splits(
    head: ytdlp::Argv,
    output: Seq<char>,
    extra: ytdlp::Argv,
    url: Seq<char>,
)
    ensures
        ({
            let argv = head + (seq!["--output"@, output] + extra + seq![url]);
            let n = argv.len() - extra.len() - 1;
            &&& n == head.len() + 2
            &&& argv.skip(n) == extra + seq![url]
            &&& argv.take(n) == head + seq!["--output"@, output]
        }),
{
    let argv = head + (seq!["--output"@, output] + extra + seq![url]);
    let n = argv.len() - extra.len() - 1;
    assert(argv.skip(n) =~= extra + seq![url]);
    assert(argv.take(n) =~= head + seq!["--output"@, output]);
}

/// A download asks for subtitles exactly where it was given languages; those of an audio download
/// are left beside the file, never embedded.
pub proof fn law_subtitles_are_asked_for_by_language(env: EnvView, langs: ytdlp::Argv)
    ensures
        langs.len() == 0 <==> ytdlp::subtitle_flags(env, langs).len() == 0,
        langs.len() > 0 && env.audio ==> ytdlp::subtitle_flags(env, langs) == seq![
            "--write-subs"@,
            "--write-auto-subs"@,
            "--sub-langs"@,
            crate::util::text::joined(langs, ","@),
            "--sleep-subtitles"@,
            "2"@,
        ],
{
    assert(langs.len() > 0 && env.audio ==> ytdlp::subtitle_flags(env, langs) =~= seq![
        "--write-subs"@,
        "--write-auto-subs"@,
        "--sub-langs"@,
        crate::util::text::joined(langs, ","@),
        "--sleep-subtitles"@,
        "2"@,
    ]);
}

/// Where a download's files go, as yt-dlp's template: a lone video by its upload date, title and
/// id; a page by its title and id; a playlist's entry in the playlist's folder, by its position;
/// a tab's entry in the tab's folder inside the channel's.
pub open spec fn template_of(kind: DownloadKind, r: Request) -> Seq<char> {
    match kind {
        DownloadKind::Video => "%(upload_date)s__%(title)s__%(id)s.%(ext)s"@,
        DownloadKind::Generic => "%(title)s [%(id)s].%(ext)s"@,
        DownloadKind::Playlist => "%(playlist_title)s[%(playlist_id)s]/%(playlist_index)03d__"@
            + "%(upload_date)s__%(title)s__%(id)s.%(ext)s"@,
        DownloadKind::Tab => "%(uploader)s[%(channel_id)s]/"@ + r.tab + "/"@
            + "%(upload_date)s__%(title)s__%(id)s.%(ext)s"@,
    }
}

/// Every download names one place for its files, under the destination, and it is the place that
/// its kind calls for.
pub proof fn law_files_go_where_their_kind_goes(
    kind: DownloadKind,
    r: Request,
    env: EnvView,
    tools: ToolsView,
)
    ensures
        ({
            let argv = download_args(kind, r, env, tools);
            let n = argv.len() - env.extra.len() - 3;
            &&& n >= 0
            &&& argv.subrange(n, n + 2) == seq![
                "--output"@,
                path::joined(r.into, template_of(kind, r)),
            ]
            &&& argv.last() == r.url
        }),
{
    let (middle, output) = lemma_shape(kind, r, env, tools);
    let base = ytdlp::base(archive_dir(kind, r), env, langs_of(kind, r), tools);
    lemma_tail_splits(base + middle, output, env.extra, r.url);
    let argv = download_args(kind, r, env, tools);
    let n = argv.len() - env.extra.len() - 3;
    let head = argv.take(n + 2);
    assert(head == base + middle + seq!["--output"@, output]);
    assert(argv.subrange(n, n + 2) =~= head.subrange(n, n + 2));
    assert(head.subrange(n, n + 2) =~= seq!["--output"@, output]);
}

/// Two tabs of a channel never share a folder: what they name differs wherever the tabs' names
/// do.
pub proof fn law_tabs_have_folders_of_their_own(r: Request, one: Seq<char>, other: Seq<char>)
    requires
        one != other,
    ensures
        path::joined(r.into, template_of(DownloadKind::Tab, Request { tab: one, ..r }))
            != path::joined(r.into, template_of(DownloadKind::Tab, Request { tab: other, ..r })),
{
    reveal_strlit("%(uploader)s[%(channel_id)s]/");
    let a = template_of(DownloadKind::Tab, Request { tab: one, ..r });
    let b = template_of(DownloadKind::Tab, Request { tab: other, ..r });
    assert(a[0] == '%' && b[0] == '%');
    let x = path::joined(r.into, a);
    let y = path::joined(r.into, b);
    if x == y {
        let n = (x.len() - a.len()) as int;
        assert(x.skip(n) =~= a);
        assert(y.skip(n) =~= b);
        let head = "%(uploader)s[%(channel_id)s]/"@.len() as int;
        let tail = ("/"@ + "%(upload_date)s__%(title)s__%(id)s.%(ext)s"@).len() as int;
        assert(a.subrange(head, a.len() - tail) =~= one);
        assert(b.subrange(head, b.len() - tail) =~= other);
    }
}

/// The flags that every invocation shares, in their order: IPv4 unless IPv6 is allowed, the
/// bundled programs that there are, and the cookies.
pub open spec fn is_shared_seed(argv: ytdlp::Argv, env: EnvView, tools: ToolsView) -> bool {
    argv == (if env.allow_ipv6 {
        Seq::<Seq<char>>::empty()
    } else {
        seq!["--force-ipv4"@]
    }) + bundle_of(tools) + jar_of(env)
}

/// The flags that point at bundled programs: the JavaScript runtime by the name of its kind, and
/// the directory of ffmpeg.
pub open spec fn bundle_of(tools: ToolsView) -> ytdlp::Argv {
    match (tools.js_runtime, tools.ffmpeg_dir) {
        (Some(deno), Some(dir)) => seq![
            "--js-runtimes"@,
            "deno:"@ + deno,
            "--ffmpeg-location"@,
            dir,
        ],
        (Some(deno), None) => seq!["--js-runtimes"@, "deno:"@ + deno],
        (None, Some(dir)) => seq!["--ffmpeg-location"@, dir],
        (None, None) => seq![],
    }
}

/// The cookie flags: the file alone where there is one, else the browser.
pub open spec fn jar_of(env: EnvView) -> ytdlp::Argv {
    match (env.cookies, env.cookies_from_browser) {
        (Some(file), _) => seq!["--cookies"@, file],
        (None, Some(browser)) => seq!["--cookies-from-browser"@, browser],
        (None, None) => seq![],
    }
}

/// The flags that ask for subtitles in these languages: uploaded and auto-generated ones, paced,
/// and embedded unless the download is audio.
pub open spec fn subtitles_of(env: EnvView, langs: ytdlp::Argv) -> ytdlp::Argv {
    if langs.len() == 0 {
        seq![]
    } else if env.audio {
        seq![
            "--write-subs"@,
            "--write-auto-subs"@,
            "--sub-langs"@,
            text::joined(langs, ","@),
            "--sleep-subtitles"@,
            "2"@,
        ]
    } else {
        seq![
            "--write-subs"@,
            "--write-auto-subs"@,
            "--sub-langs"@,
            text::joined(langs, ","@),
            "--embed-subs"@,
            "--compat-options"@,
            "no-keep-subs"@,
            "--sleep-subtitles"@,
            "2"@,
        ]
    }
}

/// What a download of each kind is told, and nothing else: to go on past errors, to fetch four
/// fragments at a time, the shared flags, the subtitles of its languages (a page has none), to
/// embed metadata and chapters, to make mkv, to keep the archive of the folder that owns the
/// collection, audio and height as the user asked, which entries it is for, where the files go,
/// what the user added, and last the URL.
pub proof fn law_a_download_is_told_this_and_no_more(
    kind: DownloadKind,
    r: Request,
    env: EnvView,
    tools: ToolsView,
)
    ensures
        download_args(kind, r, env, tools) == seq![
            "--ignore-errors"@,
            "--concurrent-fragments"@,
            "4"@,
        ] + (if env.allow_ipv6 {
            Seq::<Seq<char>>::empty()
        } else {
            seq!["--force-ipv4"@]
        }) + subtitles_of(
            env,
            if kind is Generic {
                seq![]
            } else {
                r.langs
            },
        ) + seq![
            "--embed-metadata"@,
            "--embed-chapters"@,
            "--merge-output-format"@,
            "mkv"@,
            "--download-archive"@,
            path::joined(
                if kind is Video || kind is Generic {
                    r.into
                } else {
                    r.dir
                },
                ".dl_video_archive.txt"@,
            ),
        ] + bundle_of(tools) + jar_of(env) + (if env.audio {
            seq!["-x"@]
        } else {
            Seq::<Seq<char>>::empty()
        }) + (match env.res {
            Some(height) => seq!["-S"@, "res:"@ + number::digits(height as nat)],
            None => Seq::<Seq<char>>::empty(),
        }) + (match (kind, r.items) {
            (DownloadKind::Video, _) => seq!["--no-playlist"@],
            (DownloadKind::Generic, _) => seq!["--no-playlist"@],
            (DownloadKind::Playlist, Some(items)) => seq!["--playlist-items"@, items],
            (DownloadKind::Playlist, None) => Seq::<Seq<char>>::empty(),
            (DownloadKind::Tab, Some(items)) => seq!["--playlist-items"@, items],
            (DownloadKind::Tab, None) => seq!["--playlist-items"@, seq![]],
        }) + seq!["--output"@, path::joined(r.into, template_of(kind, r))] + env.extra + seq![
            r.url,
        ],
{
    let (middle, output) = lemma_shape(kind, r, env, tools);
    assert(ytdlp::bundle(tools.js_runtime, tools.ffmpeg_dir) =~= bundle_of(tools));
    assert(ytdlp::cookies(env) =~= jar_of(env));
    assert(ytdlp::subtitle_flags(env, r.langs) =~= subtitles_of(env, r.langs));
    assert(ytdlp::subtitle_flags(env, seq![]) =~= subtitles_of(env, seq![]));
    let base = ytdlp::base(archive_dir(kind, r), env, langs_of(kind, r), tools);
    let lhs = download_args(kind, r, env, tools);
    assert(lhs =~= base + middle + (seq!["--output"@, output] + env.extra + seq![r.url]));
    assert(lhs =~= base + middle + seq!["--output"@, output] + env.extra + seq![r.url]);
}

/// What a question of each kind asks, and nothing else, behind the shared flags: the language and
/// the caption lists of one video, or of the entries at these positions (paced where they are
/// many); a collection's entries and folder; the subtitle files of one video alone.
pub proof fn law_a_question_asks_this_and_no_more(
    kind: QuestionKind,
    r: Request,
    env: EnvView,
    tools: ToolsView,
)
    ensures
        exists|seed: ytdlp::Argv| #[trigger]
            is_shared_seed(seed, env, tools) && question_args(kind, r, env, tools) == seed + (
            match kind {
                QuestionKind::VideoProbe => seq![
                    "--print"@,
                    "%(id)s"@,
                    "--print"@,
                    "%(language)s"@,
                    "--print"@,
                    "%(subtitles)j"@,
                    "--print"@,
                    "%(automatic_captions)j"@,
                    r.url,
                ],
                QuestionKind::BatchProbe => seq!["--ignore-errors"@] + (if r.indexes.len() > 20 {
                    seq!["--sleep-requests"@, "1"@]
                } else {
                    Seq::<Seq<char>>::empty()
                }) + seq![
                    "--playlist-items"@,
                    text::joined(r.indexes, ","@),
                    "--print"@,
                    "%(playlist_index)s\t%(id)s\t%(language)s\t%(subtitles)j\t%(automatic_captions)j"@,
                    r.url,
                ],
                QuestionKind::Scan => seq![
                    "--flat-playlist"@,
                    "--print"@,
                    "%(playlist_index)s\t%(id)s\t%(title)s\t%(playlist_title)s"@,
                    "--print"@,
                    "playlist:"@ + r.template,
                    r.url,
                ],
                QuestionKind::Fetch => seq![
                    "--skip-download"@,
                    "--write-subs"@,
                    "--write-auto-subs"@,
                    "--sub-langs"@,
                    text::joined(r.langs, ","@),
                    "--no-playlist"@,
                    "--output"@,
                    path::joined(r.into, ".dlsub-"@ + r.id + ".%(ext)s"@),
                    r.url,
                ],
            }),
{
    let seed = ytdlp::seed(env, tools);
    assert(ytdlp::bundle(tools.js_runtime, tools.ffmpeg_dir) =~= bundle_of(tools));
    assert(ytdlp::cookies(env) =~= jar_of(env));
    assert(is_shared_seed(seed, env, tools));
    if kind is BatchProbe {
        let argv = question_args(kind, r, env, tools);
        assert(argv =~= seed + argv.skip(seed.len() as int));
    }
}

/// yt-dlp is run by its own name where nothing was bundled; a bundled one is run itself, or, where
/// an interpreter is bundled with it, by that interpreter as its first argument.
pub proof fn law_yt_dlp_is_run_as_it_was_bundled(args: ytdlp::Argv, tools: ToolsView)
    ensures
        tools.ytdlp is None ==> ytdlp::invocation(args, tools) == ("yt-dlp"@, args),
        tools.ytdlp is Some && tools.python is None ==> ytdlp::invocation(args, tools) == (
            tools.ytdlp.unwrap(),
            args,
        ),
        tools.ytdlp is Some && tools.python is Some ==> ytdlp::invocation(args, tools) == (
            tools.python.unwrap(),
            seq![tools.ytdlp.unwrap()] + args,
        ),
{
}

/// Only a run that failed is spoken of, and by its exit code.
pub proof fn law_only_failed_runs_are_spoken_of(code: int)
    ensures
        ytdlp::launch_note(code) is None <==> code == 0,
        code != 0 ==> ("vidl: yt-dlp failed (exit "@ + number::signed(code)
            + ")"@).is_prefix_of(ytdlp::launch_note(code).unwrap()),
{
    if code != 0 {
        reveal_strlit(")");
        reveal_strlit(
            "). A `403 Forbidden` on media usually means the site has blocklisted this network's IP (VPN / datacenter exits often are) — switching the node/network tends to fix it, and --cookies is the other lever.",
        );
        let head = "vidl: yt-dlp failed (exit "@ + number::signed(code) + ")"@;
        let note = ytdlp::launch_note(code).unwrap();
        assert(note.subrange(0, head.len() as int) =~= head);
    }
}

} // verus!
