//! **vidl** drives `yt-dlp`: it works out what a URL points at, downloads it, and patches the
//! result. This crate is its verified part: every decision, every command line and every text,
//! each with a contract. Programs, files, the network and the clock belong to the host that runs
//! it.
//!
//! - [`link`] tells whether a URL is a video, a playlist, a channel, or a page of another site.
//! - [`ytdlp`] talks to yt-dlp: its command lines, what its failures mean, the failed-downloads
//!   ledger, and what a scan of a playlist or channel tab shows.
//! - [`media`] works on what came back: which subtitle tracks a video should have, and what
//!   ffmpeg, ffprobe and the tag writer are asked to do.
//! - [`flow`] puts these together: each download is a step machine that takes in the outcome of
//!   the last action and says what to do next.
//! - [`env`](mod@env) holds what the user asked for, [`tools`] where the programs are.

pub mod env;
pub mod flow;
pub mod link;
pub mod media;
pub mod menu;
pub mod tools;
pub mod util;
pub mod ytdlp;

pub use env::Env;
pub use flow::channel::download_channel;
pub use flow::playlist::download_playlist;
pub use flow::single::{download_generic, download_video};
pub use link::{classify, Link};
pub use menu::taglist;
