//! Everything that is said to yt-dlp: the argument lists of every run, built from a shared base.

pub mod failures;
pub mod laws;
pub mod ledger;
pub mod scan;

use vstd::prelude::*;
use vstd::string::*;
use crate::env::{Env, EnvView};
use crate::tools;
use crate::tools::{Tools, ToolsView};
use crate::util::number;
use crate::util::path;
use crate::util::text;

verus! {

/// The file name every YouTube mode shares: upload date, title, and the video id that keeps any
/// file traceable to its source.
pub const YT_NAME: &'static str = "%(upload_date)s__%(title)s__%(id)s.%(ext)s";

/// The file name of a download from any other site: title and id.
pub const GENERIC_NAME: &'static str = "%(title)s [%(id)s].%(ext)s";

/// The download archive's file name, inside the folder that owns the collection.
pub const ARCHIVE_NAME: &'static str = ".dl_video_archive.txt";

/// A list of arguments.
pub type Argv = Seq<Seq<char>>;

/// The flags that name a bundled JavaScript runtime and a bundled ffmpeg.
pub open spec fn bundle(js_runtime: Option<Seq<char>>, ffmpeg_dir: Option<Seq<char>>) -> Argv {
    (match js_runtime {
        Some(deno) => seq!["--js-runtimes"@, "deno:"@ + deno],
        None => seq![],
    }) + (match ffmpeg_dir {
        Some(dir) => seq!["--ffmpeg-location"@, dir],
        None => seq![],
    })
}

/// The cookie flags: a file wins over a browser spec.
pub open spec fn cookies(env: EnvView) -> Argv {
    if let Some(file) = env.cookies {
        seq!["--cookies"@, file]
    } else if let Some(spec_text) = env.cookies_from_browser {
        seq!["--cookies-from-browser"@, spec_text]
    } else {
        seq![]
    }
}

/// `--force-ipv4`, unless IPv6 is allowed.
pub open spec fn ipv4(env: EnvView) -> Argv {
    if env.allow_ipv6 {
        seq![]
    } else {
        seq!["--force-ipv4"@]
    }
}

/// What every metadata invocation starts with.
pub open spec fn seed(env: EnvView, tools: ToolsView) -> Argv {
    ipv4(env) + bundle(tools.js_runtime, tools.ffmpeg_dir) + cookies(env)
}

/// The flags that request the subtitle tracks `langs`; none for an empty list. Audio keeps the
/// sidecar files, since its container cannot hold subtitle streams.
pub open spec fn subtitle_flags(env: EnvView, langs: Argv) -> Argv {
    if langs.len() == 0 {
        seq![]
    } else {
        seq![
            "--write-subs"@,
            "--write-auto-subs"@,
            "--sub-langs"@,
            text::joined(langs, ","@),
        ] + (if env.audio {
            seq![]
        } else {
            seq!["--embed-subs"@, "--compat-options"@, "no-keep-subs"@]
        }) + seq!["--sleep-subtitles"@, "2"@]
    }
}

/// What every download starts with.
pub open spec fn base(archive_dir: Seq<char>, env: EnvView, langs: Argv, tools: ToolsView) -> Argv {
    seq!["--ignore-errors"@, "--concurrent-fragments"@, "4"@] + ipv4(env) + subtitle_flags(
        env,
        langs,
    ) + seq![
        "--embed-metadata"@,
        "--embed-chapters"@,
        "--merge-output-format"@,
        "mkv"@,
        "--download-archive"@,
        path::joined(archive_dir, ARCHIVE_NAME@),
    ] + bundle(tools.js_runtime, tools.ffmpeg_dir) + cookies(env) + (if env.audio {
        seq!["-x"@]
    } else {
        seq![]
    }) + (match env.res {
        Some(height) => seq!["-S"@, "res:"@ + number::digits(height as nat)],
        None => seq![],
    })
}

/// The end of every download's arguments: where the files go, what the user added, the URL.
pub open spec fn tail(env: EnvView, output: Seq<char>, url: Seq<char>) -> Argv {
    seq!["--output"@, output] + env.extra + seq![url]
}

/// The arguments for a lone YouTube video.
pub open spec fn video_args(
    url: Seq<char>,
    into: Seq<char>,
    env: EnvView,
    langs: Argv,
    tools: ToolsView,
) -> Argv {
    base(into, env, langs, tools) + seq!["--no-playlist"@] + tail(
        env,
        path::joined(into, YT_NAME@),
        url,
    )
}

/// The arguments for a download from any other site.
pub open spec fn generic_args(
    url: Seq<char>,
    into: Seq<char>,
    env: EnvView,
    tools: ToolsView,
) -> Argv {
    base(into, env, seq![], tools) + seq!["--no-playlist"@] + tail(
        env,
        path::joined(into, GENERIC_NAME@),
        url,
    )
}

/// The choice of playlist entries, where one is made.
pub open spec fn items_flag(items: Option<Seq<char>>) -> Argv {
    match items {
        Some(items) => seq!["--playlist-items"@, items],
        None => seq![],
    }
}

/// The arguments for entries of a playlist, or for all of it.
pub open spec fn playlist_args(
    url: Seq<char>,
    into: Seq<char>,
    archive_dir: Seq<char>,
    env: EnvView,
    langs: Argv,
    items: Option<Seq<char>>,
    tools: ToolsView,
) -> Argv {
    base(archive_dir, env, langs, tools) + items_flag(items) + tail(
        env,
        path::joined(
            into,
            "%(playlist_title)s[%(playlist_id)s]/%(playlist_index)03d__"@ + YT_NAME@,
        ),
        url,
    )
}

/// The arguments for entries of a channel's tab.
pub open spec fn channel_tab_args(
    tab_url: Seq<char>,
    tab: Seq<char>,
    into: Seq<char>,
    archive_dir: Seq<char>,
    env: EnvView,
    langs: Argv,
    items: Seq<char>,
    tools: ToolsView,
) -> Argv {
    base(archive_dir, env, langs, tools) + items_flag(Some(items)) + tail(
        env,
        path::joined(into, "%(uploader)s[%(channel_id)s]/"@ + tab + "/"@ + YT_NAME@),
        tab_url,
    )
}

/// How yt-dlp is invoked: the program, and its arguments. A zipapp is the first argument of the
/// interpreter that runs it.
pub open spec fn invocation(args: Argv, tools: ToolsView) -> (Seq<char>, Argv) {
    let (ytdlp, python) = tools::ytdlp_of(tools);
    match python {
        Some(python) => (python, seq![ytdlp] + args),
        None => (ytdlp, args),
    }
}

/// The flags that point yt-dlp at bundled programs.
pub fn bundle_flags_for(js_runtime: Option<&str>, ffmpeg_dir: Option<&str>) -> (r: Vec<String>)
    ensures
        text::texts(r@) == bundle(text::opt_str(js_runtime), text::opt_str(ffmpeg_dir)),
{
    let mut argv: Vec<String> = Vec::new();
    if let Some(deno) = js_runtime {
        let runtime = text::cat("deno:", deno);
        text::put(&mut argv, "--js-runtimes");
        text::put(&mut argv, runtime.as_str());
    }
    if let Some(dir) = ffmpeg_dir {
        text::put(&mut argv, "--ffmpeg-location");
        text::put(&mut argv, dir);
    }
    argv
}

/// The cookie flags of an invocation.
pub fn cookie_args(env: Env) -> (r: Vec<String>)
    ensures
        text::texts(r@) == cookies(env@),
{
    let mut argv: Vec<String> = Vec::new();
    if let Some(file) = env.cookies {
        text::put(&mut argv, "--cookies");
        text::put(&mut argv, file);
    } else if let Some(browser) = env.cookies_from_browser {
        text::put(&mut argv, "--cookies-from-browser");
        text::put(&mut argv, browser);
    }
    argv
}

/// `--force-ipv4`, unless the user opted into IPv6.
pub fn ipv4_flag(env: Env) -> (r: Vec<String>)
    ensures
        text::texts(r@) == ipv4(env@),
{
    let mut argv: Vec<String> = Vec::new();
    if !env.allow_ipv6 {
        text::put(&mut argv, "--force-ipv4");
    }
    argv
}

/// Starter arguments for the metadata invocations (probes, scans).
pub fn seeded(env: Env, tools: &Tools) -> (r: Vec<String>)
    ensures
        text::texts(r@) == seed(env@, tools@),
{
    let mut argv = ipv4_flag(env);
    let bundled = bundle_flags_for(tools::js_runtime(tools), tools::ffmpeg_dir(tools));
    text::extend(&mut argv, bundled.as_slice());
    let jar = cookie_args(env);
    text::extend(&mut argv, jar.as_slice());
    argv
}

fn subtitle_args(env: Env, langs: &[String]) -> (r: Vec<String>)
    ensures
        text::texts(r@) == subtitle_flags(env@, text::texts(langs@)),
{
    let mut argv: Vec<String> = Vec::new();
    if langs.len() > 0 {
        let list = text::join(langs, ",");
        text::put(&mut argv, "--write-subs");
        text::put(&mut argv, "--write-auto-subs");
        text::put(&mut argv, "--sub-langs");
        text::put(&mut argv, list.as_str());
        if !env.audio {
            text::put(&mut argv, "--embed-subs");
            text::put(&mut argv, "--compat-options");
            text::put(&mut argv, "no-keep-subs");
        }
        text::put(&mut argv, "--sleep-subtitles");
        text::put(&mut argv, "2");
    }
    argv
}

/// The arguments every download shares: keep going past broken entries, parallel fragments, the
/// requested subtitles, metadata and chapters embedded, mkv output, and a download archive in
/// `archive_dir` so that interrupted runs resume.
pub fn common(archive_dir: &str, env: Env, langs: &[String], tools: &Tools) -> (r: Vec<String>)
    ensures
        text::texts(r@) == base(archive_dir@, env@, text::texts(langs@), tools@),
{
    let mut argv: Vec<String> = Vec::new();
    text::put(&mut argv, "--ignore-errors");
    text::put(&mut argv, "--concurrent-fragments");
    text::put(&mut argv, "4");
    let v4 = ipv4_flag(env);
    text::extend(&mut argv, v4.as_slice());
    let subs = subtitle_args(env, langs);
    text::extend(&mut argv, subs.as_slice());
    text::put(&mut argv, "--embed-metadata");
    text::put(&mut argv, "--embed-chapters");
    text::put(&mut argv, "--merge-output-format");
    text::put(&mut argv, "mkv");
    text::put(&mut argv, "--download-archive");
    let archive = path::join(archive_dir, ARCHIVE_NAME);
    text::put(&mut argv, archive.as_str());
    let bundled = bundle_flags_for(tools::js_runtime(tools), tools::ffmpeg_dir(tools));
    text::extend(&mut argv, bundled.as_slice());
    let jar = cookie_args(env);
    text::extend(&mut argv, jar.as_slice());
    if env.audio {
        text::put(&mut argv, "-x");
    }
    if let Some(height) = env.res {
        let number = number::decimal(height as u128);
        let cap = text::cat("res:", number.as_str());
        text::put(&mut argv, "-S");
        text::put(&mut argv, cap.as_str());
    }
    argv
}

fn finish(argv: &mut Vec<String>, env: Env, output: &str, url: &str)
    ensures
        text::texts(final(argv)@) == text::texts(old(argv)@) + tail(env@, output@, url@),
{
    text::put(argv, "--output");
    text::put(argv, output);
    text::extend(argv, env.extra);
    text::put(argv, url);
}

/// A lone video, directly under the destination (which also holds the archive).
pub fn video_argv(url: &str, into: &str, env: Env, langs: &[String], tools: &Tools) -> (r: Vec<
    String,
>)
    ensures
        text::texts(r@) == video_args(url@, into@, env@, text::texts(langs@), tools@),
{
    let mut argv = common(into, env, langs, tools);
    text::put(&mut argv, "--no-playlist");
    let output = path::join(into, YT_NAME);
    finish(&mut argv, env, output.as_str(), url);
    argv
}

/// A download from any other site: no subtitle list, flat under `into`.
pub fn generic_argv(url: &str, into: &str, env: Env, tools: &Tools) -> (r: Vec<String>)
    ensures
        text::texts(r@) == generic_args(url@, into@, env@, tools@),
{
    let none: Vec<String> = Vec::new();
    assert(text::texts(none@) =~= seq![]);
    let mut argv = common(into, env, none.as_slice(), tools);
    text::put(&mut argv, "--no-playlist");
    let output = path::join(into, GENERIC_NAME);
    finish(&mut argv, env, output.as_str(), url);
    argv
}

/// Entries of a playlist (or, without `items`, all of it in one pass): a `title[id]` folder under
/// `into`, entries ordered by playlist position, the archive in `archive_dir`.
pub fn playlist_argv(
    url: &str,
    into: &str,
    archive_dir: &str,
    env: Env,
    langs: &[String],
    items: Option<&str>,
    tools: &Tools,
) -> (r: Vec<String>)
    ensures
        text::texts(r@) == playlist_args(
            url@,
            into@,
            archive_dir@,
            env@,
            text::texts(langs@),
            text::opt_str(items),
            tools@,
        ),
{
    let mut argv = common(archive_dir, env, langs, tools);
    if let Some(items) = items {
        text::put(&mut argv, "--playlist-items");
        text::put(&mut argv, items);
    }
    let name = text::cat("%(playlist_title)s[%(playlist_id)s]/%(playlist_index)03d__", YT_NAME);
    let output = path::join(into, name.as_str());
    finish(&mut argv, env, output.as_str(), url);
    argv
}

/// Entries of a channel's tab: a folder for the tab, under `uploader[channel_id]`.
pub fn channel_tab_argv(
    tab_url: &str,
    tab: &str,
    into: &str,
    archive_dir: &str,
    env: Env,
    langs: &[String],
    items: &str,
    tools: &Tools,
) -> (r: Vec<String>)
    ensures
        text::texts(r@) == channel_tab_args(
            tab_url@,
            tab@,
            into@,
            archive_dir@,
            env@,
            text::texts(langs@),
            items@,
            tools@,
        ),
{
    let mut argv = common(archive_dir, env, langs, tools);
    text::put(&mut argv, "--playlist-items");
    text::put(&mut argv, items);
    let name = text::cat4("%(uploader)s[%(channel_id)s]/", tab, "/", YT_NAME);
    let output = path::join(into, name.as_str());
    finish(&mut argv, env, output.as_str(), tab_url);
    argv
}

/// The program and arguments that run yt-dlp with `args`.
pub fn ytdlp_invocation(args: Vec<String>, tools: &Tools) -> (r: (String, Vec<String>))
    ensures
        (r.0@, text::texts(r.1@)) == invocation(text::texts(args@), tools@),
{
    let (ytdlp, python) = tools::ytdlp(tools);
    match python {
        Some(python) => {
            let mut full: Vec<String> = Vec::new();
            text::put(&mut full, ytdlp.as_str());
            text::extend(&mut full, args.as_slice());
            assert(text::texts(full@) =~= seq![ytdlp@] + text::texts(args@));
            (python, full)
        },
        None => (ytdlp, args),
    }
}

/// What to say of a yt-dlp run that ended with `code`: nothing of a good one.
pub open spec fn launch_note(code: int) -> Option<Seq<char>> {
    if code == 0 {
        None
    } else {
        Some(
            "vidl: yt-dlp failed (exit "@ + number::signed(code)
                + "). A `403 Forbidden` on media usually means the site has blocklisted this network's IP (VPN / datacenter exits often are) — switching the node/network tends to fix it, and --cookies is the other lever."@,
        )
    }
}

/// What to say of a yt-dlp run that ended with `code`.
pub fn launch_advice(code: i32) -> (r: Option<String>)
    ensures
        text::opt_text(r) == launch_note(code as int),
{
    if code == 0 {
        None
    } else {
        let number = number::decimal_signed(code);
        Some(
            text::cat3(
                "vidl: yt-dlp failed (exit ",
                number.as_str(),
                "). A `403 Forbidden` on media usually means the site has blocklisted this network's IP (VPN / datacenter exits often are) — switching the node/network tends to fix it, and --cookies is the other lever.",
            ),
        )
    }
}

} // verus!
