//! What happens to the files once yt-dlp has written them.

pub mod captions;
pub mod files;
pub mod groups;
pub mod json;
pub mod subtitles;
pub mod tags;
pub mod titles;
