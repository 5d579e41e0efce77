//! Whole downloads, played out against a host that holds its files in memory and stands in for
//! yt-dlp, ffprobe, ffmpeg and curl.

use std::collections::{BTreeMap, BTreeSet};

use vidl::flow::diagnose::Diagnose;
use vidl::flow::download::Download;
use vidl::flow::find::Find;
use vidl::flow::finish::Finish;
use vidl::flow::ledgers::{ScrubLedger, WriteLedger};
use vidl::flow::patch::{Collection, Patch};
use vidl::flow::pending::Pending;
use vidl::flow::thumbnails::Thumbnails;
use vidl::flow::{Action, Event, Job, Node, Note, Reply};
use vidl::media::subtitles::Pick;
use vidl::tools::{configured, install, Tools};
use vidl::ytdlp::scan::Captured;
use vidl::ytdlp::ytdlp_invocation;
use vidl::{download_generic, download_playlist, taglist, Env};

const YT_VIDEO: &str = "https://www.youtube.com/watch?v=stubvid0000";
const LEDGER: &str = "/into/.dl_video_failed_download.txt";
const ARCHIVE: &str = "/into/.dl_video_archive.txt";

/// How the stand-in for yt-dlp answers a download.
#[derive(Clone, Copy, PartialEq)]
enum Mode {
    Fine,
    Geo,
    GeoUnlessUs,
    FailOnce,
    Says(&'static str),
    Unlaunchable,
}

struct Host {
    mode: Mode,
    files: BTreeMap<String, String>,
    dirs: BTreeSet<String>,
    calls: Vec<String>,
    programs: Vec<String>,
    shown: String,
    scan: String,
    nested: String,
    probe: Option<String>,
    video_probe: Option<String>,
    archive_adds: String,
    tracks: Option<String>,
    cover: Option<String>,
    images: Vec<&'static str>,
    ffmpeg_works: bool,
    fetched: Vec<&'static str>,
    tagged: Vec<(String, String)>,
    tag_error: Option<String>,
    failures: usize,
    work: Vec<String>,
}

impl Host {
    fn new(mode: Mode) -> Host {
        Host {
            mode,
            files: BTreeMap::new(),
            dirs: ["/into".to_string()].into_iter().collect(),
            calls: Vec::new(),
            programs: Vec::new(),
            shown: String::new(),
            scan: String::new(),
            nested: String::new(),
            probe: Some(String::new()),
            video_probe: Some("stubvid0000\nNA\nNA\nNA\n".to_string()),
            archive_adds: String::new(),
            tracks: Some(String::new()),
            cover: Some(String::new()),
            images: vec!["maxresdefault", "hqdefault"],
            ffmpeg_works: true,
            fetched: Vec::new(),
            tagged: Vec::new(),
            tag_error: None,
            failures: 0,
            work: Vec::new(),
        }
    }

    fn ytdlp(&mut self, argv: &[String], tools: &Tools) -> Option<Captured> {
        self.calls.push(argv.join(" "));
        self.programs.push(ytdlp_invocation(argv.to_vec(), tools).0);
        let has = |flag: &str| argv.iter().any(|arg| arg == flag);
        let url = argv.last().cloned().unwrap_or_default();
        let good = |stdout: &str| {
            Some(Captured { ok: true, stdout: stdout.to_string(), stderr: String::new() })
        };
        let bad = |stderr: &str| {
            Some(Captured { ok: false, stdout: String::new(), stderr: stderr.to_string() })
        };
        if has("--flat-playlist") {
            return if url.ends_with("/shorts") {
                bad("ERROR: [youtube:tab] @x: This channel does not have a shorts tab")
            } else if url.ends_with("/streams") {
                bad("ERROR: [youtube:tab] @x: Unable to download webpage")
            } else if url.ends_with("/playlists") {
                good(&self.nested.clone())
            } else {
                good(&self.scan.clone())
            };
        }
        if has("--print") {
            let answer =
                if has("--playlist-items") { self.probe.clone() } else { self.video_probe.clone() };
            return match answer {
                Some(out) => good(&out),
                None => bad("ERROR: no answer"),
            };
        }
        if has("--skip-download") {
            let at = argv.iter().position(|arg| arg == "--output").unwrap();
            for key in self.fetched.clone() {
                let path = argv[at + 1].replace("%(ext)s", &format!("{key}.vtt"));
                self.files.insert(path, "WEBVTT".to_string());
            }
            return good("");
        }
        self.failures += 1;
        let spoofed = argv.windows(2).any(|pair| pair[0] == "--xff" && pair[1] == "US");
        match self.mode {
            Mode::Unlaunchable => None,
            Mode::Geo => bad("ERROR: not available in your country"),
            Mode::GeoUnlessUs if !spoofed => bad("ERROR: not available in your country"),
            Mode::FailOnce if self.failures == 1 => bad("ERROR: flaky"),
            Mode::Says(stderr) => bad(stderr),
            _ => {
                let at = argv.iter().position(|arg| arg == "--download-archive").unwrap();
                let adds = self.archive_adds.clone();
                self.files.entry(argv[at + 1].clone()).or_default().push_str(&adds);
                good("")
            }
        }
    }

    fn perform(&mut self, action: Action, env: Env, tools: &Tools) -> Event {
        let done = Event::Done(None);
        match action {
            Action::Launch(argv) => match self.ytdlp(&argv, tools) {
                Some(run) => Event::Code(if run.ok { 0 } else { 1 }),
                None => Event::Code(-1),
            },
            Action::Capture(argv) => Event::Captured(self.ytdlp(&argv, tools)),
            Action::Ask(argv) => {
                Event::Text(self.ytdlp(&argv, tools).filter(|run| run.ok).map(|run| run.stdout))
            }
            Action::Inspect(argv) => {
                self.work.push(format!("ffprobe {}", argv.join(" ")));
                let covers = argv.iter().any(|arg| arg.contains("attached_pic"));
                Event::Text(if covers { self.cover.clone() } else { self.tracks.clone() })
            }
            Action::Remux(argv) => {
                self.work.push(format!("ffmpeg {}", argv.join(" ")));
                if self.ffmpeg_works {
                    self.files.insert(argv.last().unwrap().clone(), "remuxed".to_string());
                }
                Event::Flag(self.ffmpeg_works)
            }
            Action::Fetch(argv) => {
                let landed = self.images.iter().any(|q| argv[3].contains(q));
                self.work.push(format!("curl {}", argv[3]));
                if landed {
                    self.files.insert(argv[2].clone(), "jpg".to_string());
                }
                Event::Flag(landed)
            }
            Action::List(dir) => {
                let prefix = format!("{dir}/");
                let mut names: BTreeMap<String, bool> = BTreeMap::new();
                for path in self.files.keys().chain(self.dirs.iter()) {
                    if let Some(rest) = path.strip_prefix(&prefix) {
                        let is_dir = rest.contains('/') || self.dirs.contains(path);
                        let name = rest.split('/').next().unwrap().to_string();
                        let seen = names.entry(name).or_insert(false);
                        *seen = *seen || is_dir;
                    }
                }
                let known = self.dirs.contains(&dir) || !names.is_empty();
                Event::Listing(known.then(|| {
                    names.into_iter().map(|(name, dir)| Node { name, dir }).collect()
                }))
            }
            Action::IsFile(path) => Event::Flag(self.files.contains_key(&path)),
            Action::Read(path) => Event::Text(self.files.get(&path).cloned()),
            Action::Load(path) => {
                Event::Contents(self.files.get(&path).cloned().ok_or("gone".to_string()))
            }
            Action::Write { path, text } => {
                self.files.insert(path, text);
                done
            }
            Action::Append { path, text } => {
                self.files.entry(path).or_default().push_str(&text);
                done
            }
            Action::Remove(path) => {
                Event::Done(self.files.remove(&path).is_none().then(|| "gone".to_string()))
            }
            Action::MakeDir(path) => {
                if path.contains("forbidden") {
                    return Event::Done(Some("permission denied".to_string()));
                }
                self.dirs.insert(path);
                done
            }
            Action::Rename { from, to } => match self.files.remove(&from) {
                Some(text) => {
                    self.files.insert(to, text);
                    done
                }
                None => Event::Done(Some("gone".to_string())),
            },
            Action::Clock => Event::Time(1_622_620_581),
            Action::Tag { file: _, tags } => {
                if self.tag_error.is_none() {
                    self.tagged.extend(tags);
                }
                Event::Done(self.tag_error.clone())
            }
            Action::Run(job) => self.run_job(job, env, tools),
            Action::Return(event) => event,
        }
    }

    fn run_job(&mut self, job: Job, env: Env, tools: &Tools) -> Event {
        match job {
            Job::Find { root, id } => {
                let mut m = Find::new(&root, &id);
                self.drive(|e| m.step(e), env, tools)
            }
            Job::Diagnose { base, label, rescue } => {
                let mut m = Diagnose::new(base, label, rescue);
                self.drive(|e| m.step(e), env, tools)
            }
            Job::WriteLedger { dir, lines } => {
                let mut m = WriteLedger::new(dir, lines);
                self.drive(|e| m.step(e), env, tools)
            }
            Job::ScrubLedger { dir } => {
                let mut m = ScrubLedger::new(dir);
                self.drive(|e| m.step(e), env, tools)
            }
            Job::Finish { root, id, picks } => {
                let mut m = Finish::new(root, id, picks, env.audio);
                self.drive(|e| m.step(e), env, tools)
            }
            Job::Thumbnails { dir, ids } => {
                let mut m = Thumbnails::new(dir, ids);
                self.drive(|e| m.step(e), env, tools)
            }
            Job::Subtitles { into, id, url, expected } => {
                let mut m = Patch::new(into, id, url, expected, env, tools);
                self.drive(|e| m.step(e), env, tools)
            }
            Job::Patch { url, indexes, home } => {
                let mut m = Collection::new(url, indexes, home, env, tools);
                self.drive(|e| m.step(e), env, tools)
            }
            Job::Pending { url, entries, into, home, tab } => {
                let mut m = Pending::new(url, entries, into, home, tab, env, tools);
                self.drive(|e| m.step(e), env, tools)
            }
            Job::Playlist { url, id, into } => {
                let mut m = download_playlist(&url, &id, &into, env, tools);
                self.drive(|e| m.step(e), env, tools)
            }
        }
    }

    fn drive(&mut self, mut step: impl FnMut(Event) -> Reply, env: Env, tools: &Tools) -> Event {
        let mut event = Event::Start;
        loop {
            let Reply { notes, action } = step(event);
            for note in notes {
                match note {
                    Note::Out(line) | Note::Warn(line) => {
                        self.shown.push_str(&line);
                        self.shown.push('\n');
                    }
                    Note::Raw(text) => self.shown.push_str(&text),
                }
            }
            match action {
                Action::Return(event) => return event,
                other => event = self.perform(other, env, tools),
            }
        }
    }

    /// Download `url` into `/into`, and hand back the exit code.
    fn dl(&mut self, url: &str, env: Env) -> i32 {
        let tools = Tools::default();
        let mut m = Download::new(url, false, "/into", env, &tools);
        match self.drive(|e| m.step(e), env, &tools) {
            Event::Code(code) => code,
            _ => panic!("a download is answered by a code"),
        }
    }

    fn ledger(&self) -> String {
        self.files.get(LEDGER).cloned().unwrap_or_default()
    }

    fn downloads(&self) -> Vec<&String> {
        self.calls.iter().filter(|line| !line.contains("--print")).collect()
    }

    fn put(&mut self, path: &str, text: &str) {
        self.files.insert(path.to_string(), text.to_string());
    }
}

#[test]
fn a_youtube_geo_block_is_reported_as_ip_enforced_without_any_xff_sweep() {
    let mut host = Host::new(Mode::Geo);
    assert_ne!(host.dl(YT_VIDEO, Env::default()), 0, "a dead geo-block must exit nonzero");
    let ledger = host.ledger();
    assert!(
        ledger.contains("[stubvid0000]") && ledger.contains("geo-blocked (enforced by IP"),
        "honest IP-enforced line, keyed by id: {ledger}"
    );
    assert!(!ledger.contains("tried"), "no region list on the IP-enforced path: {ledger}");
    assert!(!host.calls.iter().any(|call| call.contains("--xff")), "no spoofing: {:?}", host.calls);
}

#[test]
fn a_generic_geo_block_sweeps_xff_regions_and_stops_at_the_first_win() {
    let mut host = Host::new(Mode::GeoUnlessUs);
    assert_eq!(host.dl("https://media.example.com/v/1", Env::default()), 0, "{}", host.shown);
    assert!(host.shown.contains("region US worked"), "{}", host.shown);
    let sweeps: Vec<&String> = host.calls.iter().filter(|call| call.contains("--xff")).collect();
    assert_eq!(sweeps.len(), 1, "stops at the first working region: {sweeps:?}");
    assert!(sweeps[0].contains("--xff US"), "US is the first region tried: {sweeps:?}");
    assert!(host.ledger().is_empty(), "a rescued download must not be ledgered");
}

#[test]
fn a_sweep_that_finds_no_region_names_them_all() {
    let mut host = Host::new(Mode::Geo);
    assert_eq!(host.dl("https://media.example.com/v/1", Env::default()), 1);
    assert_eq!(host.calls.iter().filter(|call| call.contains("--xff")).count(), 12);
    assert!(
        host.ledger().contains("geo-blocked (tried US,GB,DE,FR,NL,SE,CA,AU,JP,KR,BR,IN)"),
        "{}",
        host.ledger()
    );
}

#[test]
fn a_finished_download_says_so_in_green() {
    let mut host = Host::new(Mode::Fine);
    assert_eq!(host.dl(YT_VIDEO, Env::default()), 0, "{}", host.shown);
    assert!(host.shown.contains("\x1b[1;32mstubvid0000: downloaded"), "{}", host.shown);
}

#[test]
fn a_transient_failure_succeeds_on_the_diagnostic_retry() {
    let mut host = Host::new(Mode::FailOnce);
    assert_eq!(host.dl(YT_VIDEO, Env::default()), 0, "{}", host.shown);
    assert!(host.shown.contains("succeeded on retry"), "{}", host.shown);
    assert!(host.ledger().is_empty(), "a retried success must not be ledgered: {}", host.ledger());
}

#[test]
fn gated_failures_land_honest_cookie_aware_ledger_lines() {
    let line = |stderr: &'static str, cookies: Option<&str>| {
        let mut host = Host::new(Mode::Says(stderr));
        host.dl(YT_VIDEO, Env { cookies, ..Default::default() });
        host.ledger()
    };
    // Members-only: no retry pretence, just the release-later reality.
    assert!(line("ERROR: members-only content", None).contains("members-only"));
    // Age gate, no cookies anywhere: the fix (import) is named.
    assert!(line("ERROR: confirm your age", None)
        .contains("needs cookies from a signed-in 18+ account"));
    // Age gate WITH cookies in play: "add cookies" would be a lie — the harder-gate wording
    // must appear instead.
    assert!(line("ERROR: confirm your age", Some("/jar"))
        .contains("age-restricted despite cookies"));
    // Bot-wall: honest that it may be undownloadable.
    assert!(line("ERROR: you're not a bot", None).contains("anti-bot/CAPTCHA"));
    // DRM, no cookies: the tv-client quirk makes "import cookies" a genuine first fix.
    assert!(line("ERROR: DRM protected", None).contains("cookies sometimes unlock non-DRM"));
    // DRM with cookies in play: terminal.
    assert!(line("ERROR: DRM protected", Some("/jar")).contains("DRM-protected even with cookies"));
    // And what no class knows is quoted.
    assert!(line("ERROR: HTTP Error 500", None).contains("failed: ERROR: HTTP Error 500"));
}

#[test]
fn a_run_that_cannot_be_launched_again_is_ledgered_as_such() {
    let mut host = Host::new(Mode::Unlaunchable);
    assert_eq!(host.dl(YT_VIDEO, Env::default()), -1);
    assert!(host.ledger().contains("failed (could not even re-run yt-dlp)"), "{}", host.ledger());
    assert!(host.ledger().starts_with("── 2021-06-02_0756 ──\n"), "{}", host.ledger());
}

#[test]
fn patch_flags_on_a_non_youtube_site_name_the_supported_platforms_and_skip() {
    let mut host = Host::new(Mode::Fine);
    let env = Env { thumbnail: true, subtitles: true, ..Default::default() };
    assert_eq!(host.dl("https://media.example.com/v/2", env), 0, "{}", host.shown);
    assert!(host.shown.contains("--thumbnail/--subtitles supported platforms: youtube"), "{}", host.shown);
    assert!(
        !host.shown.contains("thumbnails: scanning") && !host.shown.contains("subtitles: scanning"),
        "the passes themselves must not run off-platform: {}",
        host.shown
    );
}

#[test]
fn a_playlist_scan_reports_tombstones_skips_archived_and_downloads_pending_in_one_group() {
    let mut host = Host::new(Mode::Fine);
    // Four entries: one pending, one tombstone, one already archived, one more pending — the
    // two pending share a subtitle plan, so they must download as ONE grouped invocation.
    host.scan = "1\tvidpend0001\tKeep One\tStub List\n\
                 2\tvidpriv0002\t[Private video]\tStub List\n\
                 3\tvidarch0003\tAlready Have\tStub List\n\
                 4\tvidpend0004\tKeep Two\tStub List\n\
                 Stub List [PLstub]\n"
        .to_string();
    host.probe = Some(
        "1\tvidpend0001\ten\t{\"en\": [{\"name\": \"English\"}]}\t{}\n\
         4\tvidpend0004\ten\t{\"en\": [{\"name\": \"English\"}]}\t{}\n"
            .to_string(),
    );
    host.put("/into/Stub List [PLstub]/.dl_video_archive.txt", "youtube vidarch0003\n");
    host.archive_adds = "youtube vidpend0001\nyoutube vidpend0004\n".to_string();

    let code = host.dl("https://www.youtube.com/playlist?list=PLstub", Env::default());
    assert_eq!(code, 0, "{}", host.shown);
    assert!(host.shown.contains("1 of 4 entries are unplayable"), "{}", host.shown);
    let report = &host.files["/into/Stub List [PLstub]/unplayable__PLstub.txt"];
    assert!(report.contains("vidpriv0002"), "the tombstone is traced by id: {report}");
    assert!(
        host.shown.contains("2 entries already archived (or unplayable) — skipped"),
        "{}",
        host.shown
    );
    assert!(host.shown.contains("probing subtitles of 2 entries"), "{}", host.shown);
    assert!(host.shown.contains("downloading 2 entries (subs: en)"), "{}", host.shown);
    let scans = host.calls.iter().filter(|line| line.contains("--flat-playlist")).count();
    assert_eq!(scans, 1, "one scan: {:?}", host.calls);
    let downloads = host.downloads();
    assert_eq!(downloads.len(), 1, "the shared subtitle plan downloads as one group");
    assert!(downloads[0].contains("--playlist-items 1,4"), "both pending entries: {}", downloads[0]);
    // Two entries sit far under the pacing threshold — the probe must not sleep between requests.
    let probe =
        host.calls.iter().find(|l| l.contains("--print") && l.contains("--playlist-items")).unwrap();
    assert!(!probe.contains("--sleep-requests"), "small probes must not pace: {probe}");
}

#[test]
fn a_playlist_whose_entries_are_all_playable_says_so() {
    let mut host = Host::new(Mode::Fine);
    host.scan = "1\tvidaaaa0001\tOne\tL\nNA[NA]\n".to_string();
    host.archive_adds = "youtube vidaaaa0001\n".to_string();
    assert_eq!(host.dl("https://www.youtube.com/playlist?list=PL9", Env::default()), 0);
    assert!(host.shown.contains("all 1 playlist entries are playable"), "{}", host.shown);
    assert!(host.shown.contains("downloading 1 entry (subs: en,en-US,en-GB)"), "{}", host.shown);
    assert!(host.dirs.contains("/into/[PL9]"), "an unknown folder name degrades to the id");
}

#[test]
fn a_playlist_that_cannot_be_scanned_downloads_in_one_pass() {
    let mut host = Host::new(Mode::Fine);
    assert_eq!(host.dl("https://www.youtube.com/playlist?list=PL9", Env::default()), 0);
    assert!(host.shown.contains("could not scan the playlist"), "{}", host.shown);
    let downloads = host.downloads();
    assert_eq!(downloads.len(), 1);
    assert!(downloads[0].contains("--sub-langs en,en-US,en-GB"), "{}", downloads[0]);
    assert!(!downloads[0].contains("--playlist-items"), "{}", downloads[0]);
}

#[test]
fn a_playlist_whose_folder_cannot_be_made_stops() {
    let mut host = Host::new(Mode::Fine);
    host.scan = "1\tvidaaaa0001\tOne\tL\nforbidden\n".to_string();
    assert_eq!(host.dl("https://www.youtube.com/playlist?list=PL9", Env::default()), 1);
    assert!(
        host.shown.contains("vidl: cannot create /into/forbidden: permission denied"),
        "{}",
        host.shown
    );
    assert!(host.downloads().is_empty());
}

#[test]
fn entries_that_stay_out_of_the_archive_are_diagnosed_and_ledgered() {
    let mut host = Host::new(Mode::Says("ERROR: Private video"));
    host.scan = "7\tvidgone0007\tGone\tL\nL[PL9]\n".to_string();
    assert_eq!(host.dl("https://www.youtube.com/playlist?list=PL9", Env::default()), 1);
    assert!(
        host.shown.contains("--- diagnosing #7 Gone [vidgone0007] ---"),
        "{}",
        host.shown
    );
    let ledger = &host.files["/into/L[PL9]/.dl_video_failed_download.txt"];
    assert!(ledger.contains("#7 Gone [vidgone0007] — needs an account with access"), "{ledger}");
}

#[test]
fn a_channel_walks_every_tab_downloading_reporting_missing_and_failed_ones() {
    let mut host = Host::new(Mode::Fine);
    host.scan = "1\tvidchan0001\tClip One\tStub Channel\n\
                 2\tvidchan0002\tClip Two\tStub Channel\n\
                 Stub Channel [UCstub]\n"
        .to_string();
    host.probe = Some(
        "1\tvidchan0001\ten\t{\"en\": [{\"name\": \"English\"}]}\t{}\n\
         2\tvidchan0002\ten\t{\"en\": [{\"name\": \"English\"}]}\t{}\n"
            .to_string(),
    );
    host.archive_adds = "youtube vidchan0001\nyoutube vidchan0002\n".to_string();

    let code = host.dl("https://www.youtube.com/@stubchannel", Env::default());
    assert_eq!(code, 0, "one good tab means a good run: {}", host.shown);
    for tab in ["videos", "shorts", "streams", "playlists"] {
        assert!(
            host.shown.contains(&format!("=== https://www.youtube.com/@stubchannel/{tab} ===")),
            "every tab is announced: {}",
            host.shown
        );
    }
    let all = &host.shown;
    assert!(all.contains("the channel has no `shorts` tab"), "{all}");
    assert!(all.contains("Unable to download webpage"), "a failed tab's real error passes through: {all}");
    assert!(all.contains("could not read the `streams` tab — moving on"), "{all}");
    assert!(all.contains("the channel has no `playlists` tab"), "reachable-but-empty reads as absent: {all}");
    assert!(all.contains("downloading 2 entries (subs: en)"), "{all}");
    // The channel's own folder (named by the first readable tab's scan) holds the shared archive.
    let archive = &host.files["/into/Stub Channel [UCstub]/.dl_video_archive.txt"];
    assert!(archive.contains("vidchan0001") && archive.contains("vidchan0002"), "{archive}");
    let scans = host.calls.iter().filter(|line| line.contains("--flat-playlist")).count();
    assert_eq!(scans, 4, "one scan per tab: {:?}", host.calls);
    assert_eq!(host.downloads().len(), 1, "the videos tab downloads as one group");
}

#[test]
fn a_channels_playlists_nest_under_its_folder() {
    let mut host = Host::new(Mode::Fine);
    host.scan = "1\tvidchan0001\tClip One\tStub\nChan[UC1]\n".to_string();
    host.nested = "1\tPLinner\tBest Of\tx\nChan[UC1]\n".to_string();
    host.archive_adds = "youtube vidchan0001\n".to_string();
    assert_eq!(host.dl("https://www.youtube.com/@c", Env::default()), 0, "{}", host.shown);
    assert!(host.shown.contains("--- playlist: Best Of ---"), "{}", host.shown);
    assert!(
        host.calls.iter().any(|call| call.ends_with("https://www.youtube.com/playlist?list=PLinner")),
        "{:?}",
        host.calls
    );
    assert!(host.dirs.contains("/into/Chan[UC1]/playlists/Chan[UC1]"), "{:?}", host.dirs);
}

#[test]
fn a_channel_of_which_nothing_can_be_read_fails() {
    let mut host = Host::new(Mode::Fine);
    assert_eq!(host.dl("https://www.youtube.com/@empty", Env::default()), 1);
    assert!(host.downloads().is_empty());
}

#[test]
fn a_probe_over_the_pacing_threshold_sleeps_between_requests() {
    let mut host = Host::new(Mode::Fine);
    // 21 pending entries (threshold is 20): a metadata burst that big paces itself.
    for i in 1..=21 {
        host.scan.push_str(&format!("{i}\tvidpend{i:04}\tEntry {i}\tBig List\n"));
        host.archive_adds.push_str(&format!("youtube vidpend{i:04}\n"));
    }
    host.scan.push_str("Big List [PLbig]\n");
    // The probe answers nothing → EN fallback.
    assert_eq!(host.dl("https://www.youtube.com/playlist?list=PLbig", Env::default()), 0);
    let probe = host
        .calls
        .iter()
        .find(|line| line.contains("--print") && line.contains("--playlist-items"))
        .expect("a batch probe ran");
    assert!(probe.contains("--sleep-requests 1"), "big probes must pace themselves: {probe}");
}

#[test]
fn the_subtitle_pass_reports_audio_files_as_tag_carriers_and_skips_them() {
    let mut host = Host::new(Mode::Fine);
    host.put("/into/song__stubvid0000.opus", "OPUSDATA");
    let env = Env { subtitles: true, ..Default::default() };
    assert_eq!(host.dl(YT_VIDEO, env), 0, "{}", host.shown);
    assert!(host.shown.contains("already downloaded — scanning subtitles"), "{}", host.shown);
    assert!(
        host.shown.contains("audio — subtitles kept as tags; nothing to patch"),
        "{}",
        host.shown
    );
    assert_eq!(host.files["/into/song__stubvid0000.opus"], "OPUSDATA", "the file stays untouched");
    assert!(host.work.is_empty(), "{:?}", host.work);
}

#[test]
fn an_unreadable_video_file_is_reported_and_left_alone() {
    let mut host = Host::new(Mode::Fine);
    host.put("/into/v__stubvid0000.mkv", "not really an mkv");
    host.tracks = None;
    let env = Env { subtitles: true, ..Default::default() };
    assert_eq!(host.dl(YT_VIDEO, env), 0, "{}", host.shown);
    assert!(host.shown.contains("could not read (ffprobe) — skipping"), "{}", host.shown);
    assert_eq!(host.files["/into/v__stubvid0000.mkv"], "not really an mkv");
}

#[test]
fn a_subtitle_fetch_that_yields_no_sidecars_is_reported_as_rate_limited() {
    let mut host = Host::new(Mode::Fine);
    host.put("/into/v__stubvid0000.mkv", "video");
    // The probe advertises an `en` track, but the fetch writes no sidecar files.
    host.video_probe =
        Some("stubvid0000\nen\n{\"en\": [{\"name\": \"English\"}]}\n{}\n".to_string());
    let env = Env { subtitles: true, ..Default::default() };
    assert_eq!(host.dl(YT_VIDEO, env), 0, "{}", host.shown);
    assert!(host.shown.contains("missing subtitle(s): en"), "{}", host.shown);
    assert!(host.shown.contains("no subtitles arrived (rate-limited?)"), "{}", host.shown);
}

#[test]
fn a_video_with_no_subtitles_anywhere_reads_as_nothing_to_embed_not_all_zero() {
    let mut host = Host::new(Mode::Fine);
    host.put("/into/v__stubvid0000.mkv", "video");
    // Default probe: NA everywhere → the expected set is empty.
    let env = Env { subtitles: true, ..Default::default() };
    assert_eq!(host.dl(YT_VIDEO, env), 0, "{}", host.shown);
    assert!(
        host.shown.contains("no subtitles exist for this video — nothing to embed"),
        "{}",
        host.shown
    );
    assert!(!host.shown.contains("all 0 expected"), "{}", host.shown);
}

#[test]
fn a_non_youtube_url_takes_the_flat_generic_path_not_the_youtube_one() {
    let mut host = Host::new(Mode::Fine);
    assert_eq!(host.dl("https://media.example.com/v/2", Env::default()), 0, "{}", host.shown);
    let calls = host.calls.join("\n");
    assert!(calls.contains("--no-playlist"), "the generic path pins one video:\n{calls}");
    assert!(
        calls.contains("%(title)s [%(id)s].%(ext)s"),
        "flat generic naming, not the YouTube date/title/id template:\n{calls}"
    );
    assert!(!calls.contains("%(upload_date)s"), "no YouTube template off-platform:\n{calls}");
    assert!(
        !calls.contains("--write-subs") && !calls.contains("--sub-langs"),
        "the caption matrix is a YouTube feature — no subtitle requests here:\n{calls}"
    );
    assert!(!calls.contains("--print"), "no metadata probe:\n{calls}");
    assert!(!host.shown.contains("probing subtitles"), "{}", host.shown);
}

#[test]
fn a_youtube_shaped_path_on_another_host_is_still_generic() {
    for url in ["https://media.example.com/@someone", "https://media.example.com/watch?v=x&list=PL1"] {
        let mut host = Host::new(Mode::Fine);
        assert_eq!(host.dl(url, Env::default()), 0, "{}", host.shown);
        let calls = host.calls.join("\n");
        assert!(calls.contains("--no-playlist"), "{url} must download flat:\n{calls}");
        assert!(
            !calls.contains("/videos") && !calls.contains("--flat-playlist"),
            "{url} must not be walked as a channel or playlist:\n{calls}"
        );
    }
}

#[test]
fn cookie_flags_reach_yt_dlp_verbatim_on_every_invocation() {
    let mut host = Host::new(Mode::Fine);
    host.dl(YT_VIDEO, Env { cookies: Some("/jar.txt"), ..Default::default() });
    assert!(host.calls.len() > 1, "the YouTube path probes before downloading: {:?}", host.calls);
    for line in &host.calls {
        assert!(line.contains("--cookies /jar.txt"), "every call carries the jar: {line}");
    }
    let mut host = Host::new(Mode::Fine);
    host.dl(
        YT_VIDEO,
        Env { cookies_from_browser: Some("firefox:/some/dir"), ..Default::default() },
    );
    for line in &host.calls {
        assert!(
            line.contains("--cookies-from-browser firefox:/some/dir"),
            "the browser is passed through untouched: {line}"
        );
    }
}

#[test]
fn a_video_on_disk_is_neither_probed_nor_downloaded() {
    let mut host = Host::new(Mode::Fine);
    host.put("/into/a/b/20200101__T__stubvid0000.mkv", "video");
    assert_eq!(host.dl(YT_VIDEO, Env::default()), 0);
    assert!(host.shown.contains("stubvid0000: already downloaded — skipping"), "{}", host.shown);
    assert!(host.calls.is_empty(), "{:?}", host.calls);
}

#[test]
fn find_by_id_walks_nested_dirs_and_matches_media_extensions_only() {
    let mut host = Host::new(Mode::Fine);
    host.put("/into/a/b/20200101__Title__abcdefghijk.mkv", "x");
    host.put("/into/notes__abcdefghijk.txt", "x"); // not a media ext
    host.put("/into/song__qrstuvwxyz1.opus", "x");
    let mut found = |id: &str| {
        let job = Job::Find { root: "/into".to_string(), id: id.to_string() };
        match host.run_job(job, Env::default(), &Tools::default()) {
            Event::Text(path) => path,
            _ => panic!("a search is answered by a path"),
        }
    };
    assert_eq!(
        found("abcdefghijk").as_deref(),
        Some("/into/a/b/20200101__Title__abcdefghijk.mkv"),
        "nested mkv found"
    );
    assert!(found("qrstuvwxyz1").is_some(), "audio extensions match too");
    assert!(found("zzzzzzzzzzz").is_none(), "an unknown id finds nothing");
}

#[test]
fn the_thumbnail_pass_leaves_non_mkv_files_untouched() {
    let mut host = Host::new(Mode::Fine);
    host.put("/into/song__abcdefghijk.opus", "OPUSDATA");
    let job =
        Job::Thumbnails { dir: "/into".to_string(), ids: vec!["abcdefghijk".to_string()] };
    host.run_job(job, Env::default(), &Tools::default());
    assert!(host.shown.contains("not an mkv"), "{}", host.shown);
    assert!(host.shown.contains("thumbnails: all present — nothing to embed"), "{}", host.shown);
    assert_eq!(host.files.len(), 1, "no temp or mkv artifacts may appear: {:?}", host.files);
    assert_eq!(host.files["/into/song__abcdefghijk.opus"], "OPUSDATA");
}

#[test]
fn a_missing_cover_is_fetched_attached_and_cleaned_up() {
    let mut host = Host::new(Mode::Fine);
    host.put("/into/v__stubvid0000.mkv", "video");
    host.images = vec!["hqdefault"];
    let env = Env { thumbnail: true, ..Default::default() };
    assert_eq!(host.dl(YT_VIDEO, env), 0);
    assert!(host.shown.contains("missing a thumbnail"), "{}", host.shown);
    assert!(host.shown.contains("thumbnails: fetching + embedding 1 …"), "{}", host.shown);
    assert!(host.shown.contains("embedded"), "{}", host.shown);
    assert_eq!(host.files.len(), 1, "{:?}", host.files);
    assert_eq!(host.files["/into/v__stubvid0000.mkv"], "remuxed");
    // A second run finds the cover and leaves the file alone.
    host.cover = Some("index=0\nDISPOSITION:attached_pic=1\n".to_string());
    host.work.clear();
    assert_eq!(host.dl(YT_VIDEO, env), 0);
    assert!(host.shown.contains("already has a thumbnail"), "{}", host.shown);
    assert_eq!(host.work.len(), 1, "only the probe ran: {:?}", host.work);
}

#[test]
fn a_cover_that_cannot_be_had_leaves_the_file_as_it_was() {
    for (images, works) in [(vec![], true), (vec!["maxresdefault"], false)] {
        let mut host = Host::new(Mode::Fine);
        host.put("/into/v__stubvid0000.mkv", "video");
        host.images = images;
        host.ffmpeg_works = works;
        host.dl(YT_VIDEO, Env { thumbnail: true, ..Default::default() });
        assert!(host.shown.contains("could not embed a thumbnail"), "{}", host.shown);
        assert_eq!(host.files.len(), 1, "{:?}", host.files);
        assert_eq!(host.files["/into/v__stubvid0000.mkv"], "video");
    }
}

#[test]
fn missing_tracks_are_added_and_the_cover_rides_along() {
    let mut host = Host::new(Mode::Fine);
    host.put("/into/v__stubvid0000.mkv", "video");
    host.video_probe = Some(
        "stubvid0000\nko\n{\"ko\": [{\"name\": \"Korean\"}]}\n{\"en\": [{\"name\": \"English\"}]}\n"
            .to_string(),
    );
    host.tracks = Some("index=2\nTAG:title=Korean\n".to_string());
    host.cover = Some("index=5\nDISPOSITION:attached_pic=1\n".to_string());
    host.fetched = vec!["en"];
    let env = Env { subtitles: true, ..Default::default() };
    assert_eq!(host.dl(YT_VIDEO, env), 0);
    assert!(host.shown.contains("missing subtitle(s): en"), "{}", host.shown);
    assert!(host.shown.contains("embedded en"), "{}", host.shown);
    let mux = host.work.last().unwrap();
    assert!(mux.contains("-attach /into/v__stubvid0000.cover-keep.jpg -map 0 -map -0:5 -map 1"), "{mux}");
    assert!(mux.contains("-metadata:s:s:1 title=English (auto-generated)"), "{mux}");
    assert_eq!(host.files.len(), 1, "sidecar, cover and copy are gone: {:?}", host.files);
    // With the track in place, a second run fetches nothing.
    host.tracks =
        Some("index=2\nTAG:title=Korean\nindex=3\nTAG:title=English (auto-generated)\n".to_string());
    host.calls.clear();
    assert_eq!(host.dl(YT_VIDEO, env), 0);
    assert!(host.shown.contains("all 2 expected subtitle(s) already embedded"), "{}", host.shown);
    assert!(!host.calls.iter().any(|call| call.contains("--skip-download")), "{:?}", host.calls);
}

#[test]
fn a_mux_that_fails_leaves_the_file_and_no_litter() {
    let mut host = Host::new(Mode::Fine);
    host.put("/into/v__stubvid0000.mkv", "video");
    host.video_probe =
        Some("stubvid0000\nen\n{\"en\": [{\"name\": \"English\"}]}\n{}\n".to_string());
    host.fetched = vec!["en"];
    host.ffmpeg_works = false;
    host.cover = Some("index=5\nDISPOSITION:attached_pic=1\n".to_string());
    host.dl(YT_VIDEO, Env { subtitles: true, ..Default::default() });
    assert!(host.shown.contains("could not embed subtitles"), "{}", host.shown);
    assert_eq!(host.files.len(), 1, "{:?}", host.files);
    assert_eq!(host.files["/into/v__stubvid0000.mkv"], "video");
}

#[test]
fn auto_tracks_of_a_fresh_download_are_stamped() {
    let mut host = Host::new(Mode::Fine);
    host.video_probe =
        Some("stubvid0000\nja\n{}\n{\"ja-orig\": [{\"name\": \"Japanese\"}]}\n".to_string());
    host.tracks = Some("Japanese (Original)\n".to_string());
    // The file appears with the download; a file under another id keeps it out of sight before.
    host.put("/into/x__probeid0000.mkv", "video");
    host.video_probe = host.video_probe.map(|out| out.replace("stubvid0000", "probeid0000"));
    assert_eq!(host.dl(YT_VIDEO, Env::default()), 0);
    assert!(
        host.shown.contains("stamped subtitle track: Japanese (auto-generated)"),
        "{}",
        host.shown
    );
    assert_eq!(host.files["/into/x__probeid0000.mkv"], "remuxed");
}

#[test]
fn sidecars_pair_by_lang_key_and_skip_refused_tracks() {
    let mut host = Host::new(Mode::Fine);
    host.put("/into/20260101__title__abcdefghijk.opus", "");
    host.put("/into/20260101__title__abcdefghijk.iw-orig.vtt", "WEBVTT");
    let picks = vec![
        Pick { key: "iw-orig".into(), name: String::new(), auto: true },
        Pick { key: "en".into(), name: String::new(), auto: true }, // 429'd: never arrived
    ];
    let job = Job::Finish { root: "/into".into(), id: "abcdefghijk".into(), picks };
    let env = Env { audio: true, ..Default::default() };
    host.run_job(job, env, &Tools::default());
    assert_eq!(
        host.tagged,
        [("subtitles_iw_autogenerated".to_string(), "WEBVTT".to_string())],
        "missing sidecars are skipped, not errors"
    );
    assert!(host.shown.contains("embedded subtitle tags: subtitles_iw_autogenerated"), "{}", host.shown);
    assert_eq!(host.files.len(), 1, "the sidecar is folded in and removed: {:?}", host.files);
}

#[test]
fn sidecars_are_kept_when_the_tags_cannot_be_written() {
    let mut host = Host::new(Mode::Fine);
    host.put("/into/t__abcdefghijk.opus", "");
    host.put("/into/t__abcdefghijk.en.vtt", "WEBVTT");
    host.tag_error = Some("unrecognized audio container".to_string());
    let picks = vec![Pick { key: "en".into(), name: String::new(), auto: false }];
    let job = Job::Finish { root: "/into".into(), id: "abcdefghijk".into(), picks };
    host.run_job(job, Env { audio: true, ..Default::default() }, &Tools::default());
    assert!(
        host.shown.contains("(unrecognized audio container) — sidecar .vtt files kept"),
        "{}",
        host.shown
    );
    assert!(host.files.contains_key("/into/t__abcdefghijk.en.vtt"));
}

#[test]
fn a_success_clears_its_old_ledger_entry() {
    let mut host = Host::new(Mode::Fine);
    host.put(LEDGER, "── 2020-01-01_0000 ──\n[stubvid0000] — members-only\n");
    host.archive_adds = "youtube stubvid0000\n".to_string();
    assert_eq!(host.dl(YT_VIDEO, Env::default()), 0);
    assert!(!host.files.contains_key(LEDGER), "{:?}", host.files);
    assert!(host.files.contains_key(ARCHIVE));
    assert!(
        host.shown.contains("1 previously-failed download(s) have since succeeded")
            && host.shown.contains("(nothing left; file removed)"),
        "{}",
        host.shown
    );
}

#[test]
fn a_collection_is_patched_entry_by_entry() {
    let mut host = Host::new(Mode::Fine);
    host.scan = "1\tvidaaaa0001\tOne\tL\n2\tvidbbbb0002\t[Deleted video]\tL\nL[PL9]\n".to_string();
    host.put("/into/L[PL9]/.dl_video_archive.txt", "youtube vidaaaa0001\n");
    host.put("/into/L[PL9]/a__vidaaaa0001.mkv", "video");
    host.probe = Some("1\tvidaaaa0001\ten\t{\"en\": [{\"name\": \"English\"}]}\t{}\n".to_string());
    host.fetched = vec!["en"];
    let env = Env { thumbnail: true, subtitles: true, ..Default::default() };
    assert_eq!(host.dl("https://www.youtube.com/playlist?list=PL9", env), 0, "{}", host.shown);
    assert!(host.shown.contains("thumbnails: scanning 1 video(s)…"), "{}", host.shown);
    assert!(host.shown.contains("subtitles: scanning 1 video(s)…"), "{}", host.shown);
    assert!(host.shown.contains("embedded en"), "{}", host.shown);
    assert!(
        host.calls.iter().any(|call| call.contains("--skip-download")
            && call.ends_with("https://www.youtube.com/watch?v=vidaaaa0001")),
        "{:?}",
        host.calls
    );
    assert!(host.downloads().iter().all(|call| call.contains("--skip-download")), "nothing to download");
}

#[test]
fn an_injected_ytdlp_is_the_one_run_and_the_first_install_wins() {
    let mut slot = None;
    install(
        &mut slot,
        Tools { ytdlp: Some("/hidden/pinned-downloader".to_string()), ..Default::default() },
    );
    // The second call must be ignored. If it won instead, the run below would try to execute a
    // path that does not exist.
    install(
        &mut slot,
        Tools { ytdlp: Some("/nonexistent/would-break-the-run".to_string()), ..Default::default() },
    );
    let tools = configured(&mut slot);

    let env = Env::default();
    let mut host = Host::new(Mode::Fine);
    let mut m = download_generic("https://media.example.com/v/1", "/into", env, &tools);
    host.drive(|e| m.step(e), env, &tools);

    assert!(
        !host.calls.is_empty(),
        "the injected yt-dlp must actually be executed — nothing was invoked at all"
    );
    assert!(
        host.programs.iter().all(|program| program == "/hidden/pinned-downloader"),
        "nothing else is run: {:?}",
        host.programs
    );
    assert!(
        host.calls[0].contains("--download-archive"),
        "and it must receive the real download argv: {:?}",
        host.calls
    );
}

#[test]
fn the_taglist_prints_without_a_url_and_without_downloading() {
    let all = taglist().join("\n");
    assert!(all.contains("--"), "it lists flags:\n{all}");
    assert!(!all.contains("--download-archive"), "no download was started:\n{all}");
}

#[test]
fn what_a_pass_added_the_next_pass_leaves_alone() {
    let mut host = Host::new(Mode::Fine);
    host.put("/into/20240101__t__stubvid0000.mkv", "video");
    host.video_probe =
        Some("stubvid0000\nen\n{\"en\": [{\"name\": \"English\"}]}\n{}\n".to_string());
    host.fetched = vec!["en"];
    let env = Env { thumbnail: true, subtitles: true, ..Default::default() };
    assert_eq!(host.dl(YT_VIDEO, env), 0, "{}", host.shown);
    assert!(host.shown.contains("missing a thumbnail"), "{}", host.shown);
    assert!(host.shown.contains("missing subtitle(s): en"), "{}", host.shown);

    // ffprobe now lists what was added.
    host.cover = Some("index=0\nindex=1\nDISPOSITION:attached_pic=1\n".to_string());
    host.tracks = Some("index=2\nTAG:title=English\n".to_string());
    host.shown.clear();
    host.work.clear();
    assert_eq!(host.dl(YT_VIDEO, env), 0, "{}", host.shown);
    assert!(host.shown.contains("already has a thumbnail"), "{}", host.shown);
    assert!(host.shown.contains("all 1 expected subtitle(s) already embedded"), "{}", host.shown);
    assert!(
        host.work.iter().all(|line| line.starts_with("ffprobe")),
        "files are looked at and left alone: {:?}",
        host.work
    );
}

#[test]
fn a_search_misses_no_file_at_any_depth() {
    let tools = Tools::default();
    let search = |host: &mut Host, id: &str| {
        let mut m = Find::new("/into", id);
        match host.drive(|e| m.step(e), Env::default(), &tools) {
            Event::Text(found) => found,
            _ => panic!("a search is answered by a text"),
        }
    };
    let mut host = Host::new(Mode::Fine);
    host.put("/into/a/x__abcdefghijk.en.vtt", "sidecar");
    host.put("/into/a/b/c/t__abcdefghijk.mkv", "video");
    host.put("/into/z/other__zzzzzzzzzzz.mkv", "video");
    assert_eq!(search(&mut host, "abcdefghijk").as_deref(), Some("/into/a/b/c/t__abcdefghijk.mkv"));
    assert_eq!(search(&mut host, "nosuchvideo"), None);
}
