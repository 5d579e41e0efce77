//! What the user asked for.

use vstd::prelude::*;
use crate::util::text;

verus! {

/// What the user asked for, shared by every yt-dlp invocation of one run: *what to do*, never
/// *where the programs are*.
#[derive(Clone, Copy)]
pub struct Env<'a> {
    /// The `--cookies` file, when the caller supplied one (it wins over the browser spec).
    pub cookies: Option<&'a str>,
    /// A `--cookies-from-browser` spec (`<browser>[:<dir>]`), used unless a `--cookies` file
    /// overrides it.
    pub cookies_from_browser: Option<&'a str>,
    /// Audio-only extraction (`-x`).
    pub audio: bool,
    /// Height cap, as a format-sort preference (`-S res:N`).
    pub res: Option<u32>,
    /// Let yt-dlp use IPv6. Off by default: every invocation then adds `--force-ipv4`.
    pub allow_ipv6: bool,
    /// Embed a cover-art thumbnail, in a late pass that can be repeated.
    pub thumbnail: bool,
    /// Force the subtitle patch pass: embed whatever expected subtitle track is missing.
    pub subtitles: bool,
    /// Raw arguments, appended after every default so that they win any flag repeated.
    pub extra: &'a [String],
}

/// An [`Env`] with its texts as sequences of characters.
pub struct EnvView {
    pub cookies: Option<Seq<char>>,
    pub cookies_from_browser: Option<Seq<char>>,
    pub audio: bool,
    pub res: Option<u32>,
    pub allow_ipv6: bool,
    pub thumbnail: bool,
    pub subtitles: bool,
    pub extra: Seq<Seq<char>>,
}

impl<'a> View for Env<'a> {
    type V = EnvView;

    open spec fn view(&self) -> EnvView {
        EnvView {
            cookies: text::opt_str(self.cookies),
            cookies_from_browser: text::opt_str(self.cookies_from_browser),
            audio: self.audio,
            res: self.res,
            allow_ipv6: self.allow_ipv6,
            thumbnail: self.thumbnail,
            subtitles: self.subtitles,
            extra: text::texts(self.extra@),
        }
    }
}

impl<'a> Default for Env<'a> {
    fn default() -> (r: Self)
        ensures
            r@ == (EnvView {
                cookies: None,
                cookies_from_browser: None,
                audio: false,
                res: None,
                allow_ipv6: false,
                thumbnail: false,
                subtitles: false,
                extra: Seq::empty(),
            }),
    {
        let none: &'static [String] = &[];
        assert(text::texts(none@) =~= Seq::<Seq<char>>::empty());
        Env {
            cookies: None,
            cookies_from_browser: None,
            audio: false,
            res: None,
            allow_ipv6: false,
            thumbnail: false,
            subtitles: false,
            extra: none,
        }
    }
}

} // verus!
