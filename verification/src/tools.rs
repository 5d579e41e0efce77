//! Where the external programs live.
//!
//! By default they are found by bare name, on `PATH`. An embedder that manages its own pinned
//! copies installs their paths once; the first installation wins, and so does the first use.

use vstd::prelude::*;
use vstd::string::*;
use crate::util::path;
use crate::util::text;

verus! {

/// The programs that get run. `None` means "look on `PATH` by the usual name".
pub struct Tools {
    /// The yt-dlp binary, or the zipapp to hand to [`Tools::python`].
    pub ytdlp: Option<String>,
    /// The interpreter to run a yt-dlp *zipapp* through.
    pub python: Option<String>,
    /// The directory holding `ffmpeg` and `ffprobe`.
    pub ffmpeg_dir: Option<String>,
    /// A JavaScript runtime (deno) for yt-dlp's YouTube extractor.
    pub js_runtime: Option<String>,
}

/// [`Tools`] with their texts as sequences of characters.
pub struct ToolsView {
    pub ytdlp: Option<Seq<char>>,
    pub python: Option<Seq<char>>,
    pub ffmpeg_dir: Option<Seq<char>>,
    pub js_runtime: Option<Seq<char>>,
}

impl View for Tools {
    type V = ToolsView;

    open spec fn view(&self) -> ToolsView {
        ToolsView {
            ytdlp: text::opt_text(self.ytdlp),
            python: text::opt_text(self.python),
            ffmpeg_dir: text::opt_text(self.ffmpeg_dir),
            js_runtime: text::opt_text(self.js_runtime),
        }
    }
}

/// Nothing pinned: every program by its bare name.
pub open spec fn on_path() -> ToolsView {
    ToolsView { ytdlp: None, python: None, ffmpeg_dir: None, js_runtime: None }
}

impl Default for Tools {
    fn default() -> (r: Self)
        ensures
            r@ == on_path(),
    {
        Tools { ytdlp: None, python: None, ffmpeg_dir: None, js_runtime: None }
    }
}

impl Clone for Tools {
    fn clone(&self) -> (r: Self)
        ensures
            r == *self,
    {
        Tools {
            ytdlp: text::copy_opt(&self.ytdlp),
            python: text::copy_opt(&self.python),
            ffmpeg_dir: text::copy_opt(&self.ffmpeg_dir),
            js_runtime: text::copy_opt(&self.js_runtime),
        }
    }
}

/// What a slot holds once something was installed in it: what it already held, if anything.
pub open spec fn installed<A>(slot: Option<A>, tools: A) -> Option<A> {
    match slot {
        Some(first) => Some(first),
        None => Some(tools),
    }
}

/// The first install wins: a second one changes nothing.
pub proof fn law_the_first_install_wins<A>(slot: Option<A>, first: A, second: A)
    ensures
        installed(installed(slot, first), second) == installed(slot, first),
        slot is None ==> installed(installed(slot, first), second) == Some(first),
{
}

/// Declare where the tools are. The first call wins; later ones change nothing.
pub fn install(slot: &mut Option<Tools>, tools: Tools)
    ensures
        *final(slot) == installed(*old(slot), tools),
{
    if slot.is_none() {
        *slot = Some(tools);
    }
}

/// The installed tools, or the `PATH` defaults, which this settles on when nothing was installed.
pub fn configured(slot: &mut Option<Tools>) -> (r: Tools)
    ensures
        *final(slot) == Some(r),
        *old(slot) is Some ==> *old(slot) == Some(r),
        *old(slot) is None ==> r@ == on_path(),
{
    let chosen = match slot {
        Some(tools) => tools.clone(),
        None => Tools::default(),
    };
    *slot = Some(chosen.clone());
    chosen
}

/// The yt-dlp to run, and the interpreter to run it through: a zipapp is taken to be one when
/// both the interpreter and yt-dlp itself are named.
pub open spec fn ytdlp_of(tools: ToolsView) -> (Seq<char>, Option<Seq<char>>) {
    match tools.ytdlp {
        Some(ytdlp) => (ytdlp, tools.python),
        None => ("yt-dlp"@, None),
    }
}

/// A program inside a directory, or by its bare name where there is none.
pub open spec fn located(dir: Option<Seq<char>>, name: Seq<char>) -> Seq<char> {
    match dir {
        Some(dir) => path::joined(dir, name),
        None => name,
    }
}

/// The yt-dlp to run, and the interpreter to run it through when it is a zipapp.
pub fn ytdlp(tools: &Tools) -> (r: (String, Option<String>))
    ensures
        (r.0@, text::opt_text(r.1)) == ytdlp_of(tools@),
{
    match &tools.ytdlp {
        Some(program) => (program.clone(), text::copy_opt(&tools.python)),
        None => ("yt-dlp".to_owned(), None),
    }
}

fn in_dir(dir: &Option<String>, name: &str) -> (r: String)
    ensures
        r@ == located(text::opt_text(*dir), name@),
{
    match dir {
        Some(dir) => path::join(dir.as_str(), name),
        None => name.to_owned(),
    }
}

/// The `ffmpeg` to run.
pub fn ffmpeg(tools: &Tools) -> (r: String)
    ensures
        r@ == located(tools@.ffmpeg_dir, "ffmpeg"@),
{
    in_dir(&tools.ffmpeg_dir, "ffmpeg")
}

/// The `ffprobe` beside [`ffmpeg`].
pub fn ffprobe(tools: &Tools) -> (r: String)
    ensures
        r@ == located(tools@.ffmpeg_dir, "ffprobe"@),
{
    in_dir(&tools.ffmpeg_dir, "ffprobe")
}

/// The JavaScript runtime for yt-dlp's YouTube extractor, when one is bundled.
pub fn js_runtime(tools: &Tools) -> (r: Option<&str>)
    ensures
        text::opt_str(r) == tools@.js_runtime,
{
    text::borrow(&tools.js_runtime)
}

/// The bundled ffmpeg's directory, when there is one.
pub fn ffmpeg_dir(tools: &Tools) -> (r: Option<&str>)
    ensures
        text::opt_str(r) == tools@.ffmpeg_dir,
{
    text::borrow(&tools.ffmpeg_dir)
}

/// A program is looked for in the bundled directory where there is one, and else by its bare name;
/// yt-dlp by its own name unless it was bundled, and then through the interpreter that was bundled
/// with it, if one was.
pub proof fn law_bundled_programs_are_used(tools: ToolsView, dir: Seq<char>, name: Seq<char>)
    ensures
        located(Some(dir), name) == path::joined(dir, name),
        located(None, name) == name,
        tools.ytdlp is None ==> ytdlp_of(tools) == ("yt-dlp"@, None::<Seq<char>>),
        tools.ytdlp is Some ==> ytdlp_of(tools) == (tools.ytdlp.unwrap(), tools.python),
        on_path().ytdlp is None && on_path().python is None && on_path().ffmpeg_dir is None
            && on_path().js_runtime is None,
{
}

} // verus!
