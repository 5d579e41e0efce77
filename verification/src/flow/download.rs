//! The download of a URL, by what it points at.

use vstd::prelude::*;
use vstd::string::*;
use crate::env::{Env, EnvView};
use crate::flow::channel;
use crate::flow::channel::{Channel, ChannelView};
use crate::flow::playlist;
use crate::flow::playlist::{Playlist, PlaylistView};
use crate::flow::single;
use crate::flow::single::{Page, PageView, Video, VideoView};
use crate::flow::{ActionView, Event, EventView, Reply, ReplyView};
use crate::link;
use crate::link::{Link, LinkView};
use crate::tools::{Tools, ToolsView};
use crate::ytdlp;

verus! {

/// The download of a URL.
pub enum Download<'a> {
    Video(Video<'a>),
    Page(Page<'a>),
    Playlist(Playlist<'a>),
    Channel(Channel<'a>),
}

/// A [`Download`] with its texts as sequences of characters.
#[verifier::ext_equal]
pub enum DownloadView {
    Video(VideoView),
    Page(PageView),
    Playlist(PlaylistView),
    Channel(ChannelView),
}

impl<'a> View for Download<'a> {
    type V = DownloadView;

    open spec fn view(&self) -> DownloadView {
        match self {
            Download::Video(s) => DownloadView::Video(s@),
            Download::Page(s) => DownloadView::Page(s@),
            Download::Playlist(s) => DownloadView::Playlist(s@),
            Download::Channel(s) => DownloadView::Channel(s@),
        }
    }
}

/// The download of a URL at its start: each kind of link has its own.
pub open spec fn routed(
    url: Seq<char>,
    single: bool,
    into: Seq<char>,
    env: EnvView,
    tools: ToolsView,
) -> DownloadView {
    match link::kind(url, single) {
        LinkView::Video => DownloadView::Video(single::video_start(url, into, env, tools)),
        LinkView::Playlist { id } => DownloadView::Playlist(
            playlist::playlist_start(url, id, into, env, tools),
        ),
        LinkView::Channel { root } => DownloadView::Channel(
            channel::channel_start(root, into, env, tools),
        ),
        LinkView::Generic => DownloadView::Page(single::page_start(url, into, env, tools)),
    }
}

/// The next step of a download.
pub open spec fn next(s: DownloadView, event: EventView) -> (DownloadView, ReplyView) {
    match s {
        DownloadView::Video(s) => {
            let (t, reply) = single::next(s, event);
            (DownloadView::Video(t), reply)
        },
        DownloadView::Page(s) => {
            let (t, reply) = single::page_next(s, event);
            (DownloadView::Page(t), reply)
        },
        DownloadView::Playlist(s) => {
            let (t, reply) = playlist::next(s, event);
            (DownloadView::Playlist(t), reply)
        },
        DownloadView::Channel(s) => {
            let (t, reply) = channel::next(s, event);
            (DownloadView::Channel(t), reply)
        },
    }
}

impl<'a> Download<'a> {
    /// The download of `url` into `into`; `single` pins a video that carries a playlist to just
    /// the video.
    pub fn new(
        url: &'a str,
        single: bool,
        into: &'a str,
        env: Env<'a>,
        tools: &'a Tools,
    ) -> (r: Self)
        ensures
            r@ == routed(url@, single, into@, env@, tools@),
    {
        match link::classify(url, single) {
            Link::Video => Download::Video(single::download_video(url, into, env, tools)),
            Link::Playlist { id } => Download::Playlist(
                playlist::download_playlist(url, id.as_str(), into, env, tools),
            ),
            Link::Channel { root } => Download::Channel(
                channel::download_channel(root.as_str(), into, env, tools),
            ),
            Link::Generic => Download::Page(single::download_generic(url, into, env, tools)),
        }
    }

    /// Take in the outcome of the last action and say what comes next.
    pub fn step(&mut self, event: Event) -> (r: Reply)
        ensures
            (final(self)@, r@) == next(old(self)@, event@),
    {
        match self {
            Download::Video(s) => s.step(event),
            Download::Page(s) => s.step(event),
            Download::Playlist(s) => s.step(event),
            Download::Channel(s) => s.step(event),
        }
    }
}

/// The host decides: a URL of any site but YouTube downloads flat, in one yt-dlp run and without
/// a probe, whatever its path looks like.
pub proof fn law_other_sites_download_flat(
    url: Seq<char>,
    single: bool,
    into: Seq<char>,
    env: EnvView,
    tools: ToolsView,
    event: EventView,
)
    requires
        !link::youtube_host(link::host(url)),
    ensures
        routed(url, single, into, env, tools) is Page,
        next(routed(url, single, into, env, tools), event).1.action == ActionView::Launch(
            ytdlp::generic_args(url, into, env, tools),
        ),
{
}

/// Each kind of link has its own download, which starts with what the link gave: a video with its
/// URL, a playlist with its id, a channel with its root, and a page with its URL; and every step
/// is that download's own.
pub proof fn law_each_link_has_its_own_download(
    url: Seq<char>,
    single: bool,
    into: Seq<char>,
    env: EnvView,
    tools: ToolsView,
    event: EventView,
)
    ensures
        match link::kind(url, single) {
            LinkView::Video => {
                let s = single::VideoView {
                    url,
                    into,
                    env,
                    tools,
                    stage: single::Stage::Start,
                    url_id: link::video_id(url),
                    probe_id: None,
                    picks: seq![],
                    code: 0,
                };
                &&& routed(url, single, into, env, tools) == DownloadView::Video(s)
                &&& next(DownloadView::Video(s), event) == (
                    DownloadView::Video(single::next(s, event).0),
                    single::next(s, event).1,
                )
            },
            LinkView::Playlist { id } => {
                let s = PlaylistView {
                    url,
                    id,
                    into,
                    env,
                    tools,
                    stage: playlist::Stage::Start,
                    title: seq![],
                    entries: seq![],
                    home: seq![],
                    code: 0,
                };
                &&& routed(url, single, into, env, tools) == DownloadView::Playlist(s)
                &&& next(DownloadView::Playlist(s), event) == (
                    DownloadView::Playlist(playlist::next(s, event).0),
                    playlist::next(s, event).1,
                )
            },
            LinkView::Channel { root } => {
                let s = ChannelView {
                    root,
                    into,
                    env,
                    tools,
                    stage: channel::Stage::Start,
                    left: seq!["videos"@, "shorts"@, "streams"@, "playlists"@],
                    tab: seq![],
                    home: None,
                    entries: seq![],
                    code: 0,
                    any: false,
                };
                &&& routed(url, single, into, env, tools) == DownloadView::Channel(s)
                &&& next(DownloadView::Channel(s), event) == (
                    DownloadView::Channel(channel::next(s, event).0),
                    channel::next(s, event).1,
                )
            },
            LinkView::Generic => {
                let s = PageView {
                    url,
                    into,
                    env,
                    tools,
                    stage: single::PageStage::Start,
                    code: 0,
                };
                &&& routed(url, single, into, env, tools) == DownloadView::Page(s)
                &&& next(DownloadView::Page(s), event) == (
                    DownloadView::Page(single::page_next(s, event).0),
                    single::page_next(s, event).1,
                )
            },
        },
{
}

} // verus!
