//! What a URL points at.

use vstd::prelude::*;
use vstd::string::*;
use crate::util::text;

verus! {

/// What a URL points at; each kind downloads differently.
#[derive(Debug, PartialEq)]
pub enum Link {
    /// A single YouTube video.
    Video,
    /// A YouTube playlist, by its `list=` id; the id is empty where a `/playlist` URL gives none.
    Playlist { id: String },
    /// A YouTube channel, normalized to its root.
    Channel { root: String },
    /// Any other site yt-dlp supports, downloaded flat.
    Generic,
}

/// A [`Link`] with its texts as sequences of characters.
pub enum LinkView {
    Video,
    Playlist { id: Seq<char> },
    Channel { root: Seq<char> },
    Generic,
}

impl View for Link {
    type V = LinkView;

    open spec fn view(&self) -> LinkView {
        match self {
            Link::Video => LinkView::Video,
            Link::Playlist { id } => LinkView::Playlist { id: id@ },
            Link::Channel { root } => LinkView::Channel { root: root@ },
            Link::Generic => LinkView::Generic,
        }
    }
}

/// The host part of a URL: what stands between the scheme and the path, query or fragment,
/// without user information and port, in small letters.
pub open spec fn host(url: Seq<char>) -> Seq<char> {
    let authority = text::before_any(beyond_scheme(url), "/?#"@);
    text::ascii_lower(text::before_any(text::after_last(authority, '@'), ":"@))
}

/// Whether a host is YouTube's: `youtu.be`, or `youtube.com` or `youtube-nocookie.com` or a
/// subdomain of one of these two.
pub open spec fn youtube_host(h: Seq<char>) -> bool {
    ||| h == "youtu.be"@
    ||| h == "youtube.com"@
    ||| ".youtube.com"@.is_suffix_of(h)
    ||| h == "youtube-nocookie.com"@
    ||| ".youtube-nocookie.com"@.is_suffix_of(h)
}

/// The URL up to the end of the name that follows the first `marker` in it.
pub open spec fn up_to_name(url: Seq<char>, marker: Seq<char>) -> Option<Seq<char>> {
    match text::find(url, marker) {
        Some(i) => Some(url.take(text::stop_at(url, "/?#"@, i + marker.len()))),
        None => None,
    }
}

/// The root of the channel that a URL names: `/@`, `/channel/`, `/c/` and `/user/` mark one, in
/// this order of precedence.
pub open spec fn channel_root(url: Seq<char>) -> Option<Seq<char>> {
    if text::find(url, "/@"@) is Some {
        up_to_name(url, "/@"@)
    } else if text::find(url, "/channel/"@) is Some {
        up_to_name(url, "/channel/"@)
    } else if text::find(url, "/c/"@) is Some {
        up_to_name(url, "/c/"@)
    } else {
        up_to_name(url, "/user/"@)
    }
}

/// The `list=` parameter of a URL, where it has one that is not empty.
pub open spec fn list_id(url: Seq<char>) -> Option<Seq<char>> {
    match text::after_first(url, "list="@) {
        Some(rest) => if text::before_any(rest, "&#"@).len() > 0 {
            Some(text::before_any(rest, "&#"@))
        } else {
            None
        },
        None => None,
    }
}

/// What follows the scheme of a URL; the whole of it where it has none.
pub open spec fn beyond_scheme(url: Seq<char>) -> Seq<char> {
    match text::after_first(url, "://"@) {
        Some(rest) => rest,
        None => url,
    }
}

/// The path of a URL: what stands between the host and the query or fragment.
pub open spec fn path_of(url: Seq<char>) -> Seq<char> {
    let whole = text::before_any(beyond_scheme(url), "?#"@);
    whole.skip(text::stop_at(whole, "/"@, 0))
}

/// Whether a URL is explicitly that of a playlist: its path is `/playlist`.
pub open spec fn playlist_path(url: Seq<char>) -> bool {
    path_of(url) == "/playlist"@
}

/// What a URL points at. The host is looked at first. A `list=` parameter, or an explicit
/// `/playlist`, means playlist, unless `single` opts out.
pub open spec fn kind(url: Seq<char>, single: bool) -> LinkView {
    if !youtube_host(host(url)) {
        LinkView::Generic
    } else if let Some(root) = channel_root(url) {
        LinkView::Channel { root }
    } else if single {
        LinkView::Video
    } else if let Some(id) = list_id(url) {
        LinkView::Playlist { id }
    } else if playlist_path(url) {
        LinkView::Playlist { id: seq![] }
    } else {
        LinkView::Video
    }
}

fn rest_after_scheme(url: &str) -> (r: String)
    ensures
        r@ == beyond_scheme(url@),
{
    match text::split_after(url, "://") {
        Some(rest) => rest,
        None => url.to_owned(),
    }
}

/// The host part of `url`.
pub fn host_of(url: &str) -> (r: String)
    ensures
        r@ == host(url@),
{
    let rest = rest_after_scheme(url);
    let authority = text::up_to(rest.as_str(), "/?#");
    let after_user = text::beyond_last(authority.as_str(), '@');
    let name = text::up_to(after_user.as_str(), ":");
    text::ascii_lowercase(name.as_str())
}

/// Whether `url`'s host is YouTube.
pub fn is_youtube(url: &str) -> (r: bool)
    ensures
        r == youtube_host(host(url@)),
{
    let h = host_of(url);
    text::same(h.as_str(), "youtu.be") || text::same(h.as_str(), "youtube.com") || text::ends_with(
        h.as_str(),
        ".youtube.com",
    ) || text::same(h.as_str(), "youtube-nocookie.com") || text::ends_with(
        h.as_str(),
        ".youtube-nocookie.com",
    )
}

fn cut_after_name(url: &str, marker: &str) -> (r: Option<String>)
    ensures
        text::opt_text(r) == up_to_name(url@, marker@),
{
    match text::position(url, marker) {
        Some(start) => {
            let v = text::chars_of(url);
            let n: usize = v.len();
            let m = text::chars_of(marker);
            let end: usize = text::stop_position(url, "/?#", start + m.len());
            let root = text::string_of(v.as_slice(), 0, end);
            assert(root@ =~= url@.take(end as int));
            Some(root)
        },
        None => None,
    }
}

fn has_playlist_path(url: &str) -> (r: bool)
    ensures
        r == playlist_path(url@),
{
    let rest = rest_after_scheme(url);
    let whole = text::up_to(rest.as_str(), "?#");
    let v = text::chars_of(whole.as_str());
    let start: usize = text::stop_position(whole.as_str(), "/", 0);
    let path = text::string_of(v.as_slice(), start, v.len());
    assert(path@ =~= path_of(url@));
    text::same(path.as_str(), "/playlist")
}

/// Classify `url`. A host that is not YouTube's is generic, whatever the path looks like. On
/// YouTube a channel is normalized to its root, a `list=` parameter or an explicit `/playlist`
/// means playlist unless `single` opts out, and everything else is a lone video.
pub fn classify(url: &str, single: bool) -> (r: Link)
    ensures
        r@ == kind(url@, single),
{
    if !is_youtube(url) {
        return Link::Generic;
    }
    if let Some(root) = cut_after_name(url, "/@") {
        return Link::Channel { root };
    }
    if let Some(root) = cut_after_name(url, "/channel/") {
        return Link::Channel { root };
    }
    if let Some(root) = cut_after_name(url, "/c/") {
        return Link::Channel { root };
    }
    if let Some(root) = cut_after_name(url, "/user/") {
        return Link::Channel { root };
    }
    if !single {
        if let Some(rest) = text::split_after(url, "list=") {
            let id = text::up_to(rest.as_str(), "&#");
            if !id.as_str().is_empty() {
                return Link::Playlist { id };
            }
        }
        if has_playlist_path(url) {
            let id = String::new();
            assert(id@ =~= seq![]);
            return Link::Playlist { id };
        }
    }
    Link::Video
}

/// Whether `c` may stand in a video id.
pub open spec fn is_id_char(c: char) -> bool {
    ||| 'a' <= c <= 'z'
    ||| 'A' <= c <= 'Z'
    ||| '0' <= c <= '9'
    ||| c == '_'
    ||| c == '-'
}

/// Whether `c` may stand in a video id.
pub fn id_char(c: char) -> (r: bool)
    ensures
        r == is_id_char(c),
{
    ('a' <= c && c <= 'z') || ('A' <= c && c <= 'Z') || ('0' <= c && c <= '9') || c == '_' || c
        == '-'
}

/// The number of id characters from position `i` on, plus `i`.
pub open spec fn id_end(s: Seq<char>, i: int) -> int
    decreases s.len() - i,
{
    if 0 <= i < s.len() && is_id_char(s[i]) {
        id_end(s, i + 1)
    } else {
        i
    }
}

/// What follows the marker before a video id: the first of `v=`, `youtu.be/`, `/shorts/`,
/// `/embed/` and `/live/`, in this order, that the URL holds.
pub open spec fn after_id_marker(url: Seq<char>) -> Option<Seq<char>> {
    if text::find(url, "v="@) is Some {
        text::after_first(url, "v="@)
    } else if text::find(url, "youtu.be/"@) is Some {
        text::after_first(url, "youtu.be/"@)
    } else if text::find(url, "/shorts/"@) is Some {
        text::after_first(url, "/shorts/"@)
    } else if text::find(url, "/embed/"@) is Some {
        text::after_first(url, "/embed/"@)
    } else {
        text::after_first(url, "/live/"@)
    }
}

/// The video id of a URL: the id characters after the marker, where they are eleven.
pub open spec fn video_id(url: Seq<char>) -> Option<Seq<char>> {
    match after_id_marker(url) {
        Some(rest) => if id_end(rest, 0) == 11 {
            Some(rest.take(11))
        } else {
            None
        },
        None => None,
    }
}

fn rest_after_marker(url: &str) -> (r: Option<String>)
    ensures
        text::opt_text(r) == after_id_marker(url@),
{
    if let Some(rest) = text::split_after(url, "v=") {
        return Some(rest);
    }
    if let Some(rest) = text::split_after(url, "youtu.be/") {
        return Some(rest);
    }
    if let Some(rest) = text::split_after(url, "/shorts/") {
        return Some(rest);
    }
    if let Some(rest) = text::split_after(url, "/embed/") {
        return Some(rest);
    }
    text::split_after(url, "/live/")
}

/// The 11-character video id in a lone YouTube URL; nothing for a shape that is not recognized.
pub fn id_from_url(url: &str) -> (r: Option<String>)
    ensures
        text::opt_text(r) == video_id(url@),
{
    let rest = match rest_after_marker(url) {
        Some(rest) => rest,
        None => return None,
    };
    let v = text::chars_of(rest.as_str());
    let mut i: usize = 0;
    while i < v.len() && id_char(v[i])
        invariant
            i <= v@.len(),
            id_end(v@, 0) == id_end(v@, i as int),
        decreases v@.len() - i,
    {
        i += 1;
    }
    if i == 11 {
        let id = text::string_of(v.as_slice(), 0, 11);
        assert(id@ =~= rest@.take(11));
        Some(id)
    } else {
        None
    }
}

/// A URL is of another site exactly when its host is not YouTube's; what its path looks like does
/// not matter.
pub proof fn law_the_host_decides(url: Seq<char>, single: bool)
    ensures
        kind(url, single) is Generic <==> !youtube_host(host(url)),
{
}

/// With `single`, no URL is a playlist.
pub proof fn law_single_opts_out_of_playlists(url: Seq<char>)
    ensures
        !(kind(url, true) is Playlist),
        !(kind(url, false) is Playlist) ==> kind(url, true) == kind(url, false),
{
}

/// A YouTube URL that names no channel is a playlist exactly when it has a `list=` parameter or
/// its path is `/playlist`, unless `single` opts out; a parameter's id is kept.
pub proof fn law_playlists_are_told_by_parameter_or_path(url: Seq<char>, single: bool)
    requires
        youtube_host(host(url)),
        channel_root(url) is None,
    ensures
        kind(url, single) is Playlist <==> !single && (list_id(url) is Some || playlist_path(url)),
        !single && list_id(url) is Some ==> kind(url, single) == (LinkView::Playlist {
            id: list_id(url).unwrap(),
        }),
{
}

/// Whether the name that starts at `start` ends at `end`: at the first `/`, `?` or `#`, or else
/// with the text.
pub open spec fn spans_name(s: Seq<char>, start: int, end: int) -> bool {
    &&& 0 <= start <= end <= s.len()
    &&& forall|j: int|
        start <= j < end ==> #[trigger] s[j] != '/' && s[j] != '?' && s[j] != '#'
    &&& end < s.len() ==> s[end] == '/' || s[end] == '?' || s[end] == '#'
}

/// Whether `root` is the URL up to the end of the name behind the first `marker` in it.
pub open spec fn is_cut_behind(url: Seq<char>, marker: Seq<char>, root: Seq<char>) -> bool {
    exists|i: int|
        #[trigger] text::first_at(url, marker, i) && spans_name(
            url,
            i + marker.len(),
            root.len() as int,
        ) && root == url.take(root.len() as int)
}

/// On YouTube, `/@`, `/channel/`, `/c/` and `/user/` each mark a channel, whether or not `single`
/// is given, and nothing else does. Its root is the URL up to the end of the name behind the
/// first occurrence of the marker; of several markers the one named first here counts.
pub proof fn law_four_markers_name_a_channel(url: Seq<char>, single: bool)
    requires
        youtube_host(host(url)),
    ensures
        kind(url, single) is Channel <==> text::has(url, "/@"@) || text::has(url, "/channel/"@)
            || text::has(url, "/c/"@) || text::has(url, "/user/"@),
        text::has(url, "/@"@) ==> is_cut_behind(url, "/@"@, kind(url, single)->root),
        text::has(url, "/channel/"@) && !text::has(url, "/@"@) ==> is_cut_behind(
            url,
            "/channel/"@,
            kind(url, single)->root,
        ),
        text::has(url, "/c/"@) && !text::has(url, "/@"@) && !text::has(url, "/channel/"@)
            ==> is_cut_behind(url, "/c/"@, kind(url, single)->root),
        text::has(url, "/user/"@) && !text::has(url, "/@"@) && !text::has(url, "/channel/"@)
            && !text::has(url, "/c/"@) ==> is_cut_behind(
            url,
            "/user/"@,
            kind(url, single)->root,
        ),
{
    lemma_cut(url, "/@"@);
    lemma_cut(url, "/channel/"@);
    lemma_cut(url, "/c/"@);
    lemma_cut(url, "/user/"@);
}

proof fn lemma_cut(url: Seq<char>, marker: Seq<char>)
    ensures
        text::has(url, marker) <==> text::find(url, marker) is Some,
        text::has(url, marker) <==> up_to_name(url, marker) is Some,
        text::has(url, marker) ==> is_cut_behind(url, marker, up_to_name(url, marker).unwrap()),
{
    text::lemma_find_is_first(url, marker);
    if let Some(i) = text::find(url, marker) {
        reveal_strlit("/?#");
        let end = text::stop_at(url, "/?#"@, i + marker.len());
        text::lemma_stop_at(url, "/?#"@, i + marker.len());
        assert("/?#"@ =~= seq!['/', '?', '#']);
        assert forall|j: int| i + marker.len() <= j < end implies #[trigger] url[j] != '/'
            && url[j] != '?' && url[j] != '#' by {
            if url[j] == '/' {
                assert("/?#"@[0] == url[j]);
            } else if url[j] == '?' {
                assert("/?#"@[1] == url[j]);
            } else if url[j] == '#' {
                assert("/?#"@[2] == url[j]);
            }
        }
        assert(spans_name(url, i + marker.len(), end));
        assert(url.take(end).len() == end);
    }
}

/// Where a playlist's id stands: behind the first `list=`, up to the first `&` or `#` or else to
/// the end, and not empty.
pub open spec fn is_list_id(url: Seq<char>, id: Seq<char>) -> bool {
    exists|i: int|
        #[trigger] text::first_at(url, "list="@, i) && {
            let start = i + "list="@.len();
            let end = start + id.len();
            &&& id.len() > 0
            &&& end <= url.len()
            &&& id == url.subrange(start, end)
            &&& !id.contains('&') && !id.contains('#')
            &&& end < url.len() ==> url[end] == '&' || url[end] == '#'
        }
}

/// A YouTube URL without a channel's marker that carries a playlist's id in `list=` downloads
/// that playlist, and just the video with `single`; a URL whose `list=` is missing or empty gives
/// no id.
pub proof fn law_a_list_parameter_names_the_playlist(url: Seq<char>, id: Seq<char>)
    requires
        youtube_host(host(url)),
        !text::has(url, "/@"@),
        !text::has(url, "/channel/"@),
        !text::has(url, "/c/"@),
        !text::has(url, "/user/"@),
        id.len() > 0,
    ensures
        kind(url, false) == (LinkView::Playlist { id }) <==> is_list_id(url, id),
        kind(url, true) == LinkView::Video,
{
    lemma_cut(url, "/@"@);
    lemma_cut(url, "/channel/"@);
    lemma_cut(url, "/c/"@);
    lemma_cut(url, "/user/"@);
    text::lemma_find_is_first(url, "list="@);
    if let Some(i) = text::find(url, "list="@) {
        reveal_strlit("&#");
        assert("&#"@ =~= seq!['&', '#']);
        assert("&#"@[0] == '&' && "&#"@[1] == '#');
        let start = i + "list="@.len();
        let rest = url.skip(start);
        let end = text::stop_at(rest, "&#"@, 0);
        text::lemma_stop_at(rest, "&#"@, 0);
        let found = text::before_any(rest, "&#"@);
        assert(found =~= url.subrange(start, start + end));
        assert forall|j: int| 0 <= j < found.len() implies #[trigger] found[j] != '&' && found[j]
            != '#' by {
            assert(found[j] == rest[j]);
        }
        if is_list_id(url, id) {
            let k = choose|k: int|
                #[trigger] text::first_at(url, "list="@, k) && {
                    let start = k + "list="@.len();
                    let end = start + id.len();
                    &&& id.len() > 0
                    &&& end <= url.len()
                    &&& id == url.subrange(start, end)
                    &&& !id.contains('&') && !id.contains('#')
                    &&& end < url.len() ==> url[end] == '&' || url[end] == '#'
                };
            assert(k == i) by {
                if k < i {
                    assert(!text::occurs_at(url, "list="@, k));
                } else if i < k {
                    assert(!text::occurs_at(url, "list="@, i));
                }
            }
            if id.len() < end {
                assert(rest[id.len() as int] == url[start + id.len()]);
            } else if end < id.len() {
                assert(rest[end] == url[start + end]);
                assert(id[end] == url[start + end]);
            }
            assert(id =~= found);
        }
    }
}

/// The marker by which a URL names a channel: the first, in order of precedence, that stands in
/// it.
pub open spec fn marker_of(url: Seq<char>) -> Option<Seq<char>> {
    if text::find(url, "/@"@) is Some {
        Some("/@"@)
    } else if text::find(url, "/channel/"@) is Some {
        Some("/channel/"@)
    } else if text::find(url, "/c/"@) is Some {
        Some("/c/"@)
    } else if text::find(url, "/user/"@) is Some {
        Some("/user/"@)
    } else {
        None
    }
}

/// A tab, query or fragment behind a channel's root is dropped. The URL as a whole must be
/// YouTube's, and what follows the root must not hold a marker that takes precedence over the
/// root's own.
pub proof fn law_channel_tabs_are_dropped(root: Seq<char>, tail: Seq<char>, single: bool)
    requires
        kind(root, single) == (LinkView::Channel { root }),
        tail.len() == 0 || "/?#"@.contains(tail[0]),
        youtube_host(host(root + tail)),
        marker_of(root + tail) == marker_of(root),
    ensures
        kind(root + tail, single) == (LinkView::Channel { root }),
{
    let url = root + tail;
    let marker = marker_of(root).unwrap();
    reveal_strlit("/@");
    reveal_strlit("/channel/");
    reveal_strlit("/c/");
    reveal_strlit("/user/");
    text::lemma_find_from(root, marker, 0);
    text::lemma_find_extends(root, tail, marker);
    let i = text::find(root, marker).unwrap() + marker.len();
    text::lemma_stop_at(root, "/?#"@, i);
    assert(root.take(text::stop_at(root, "/?#"@, i)).len() == root.len());
    text::lemma_stop_extends(root, tail, "/?#"@, i);
    assert(url.take(root.len() as int) =~= root);
}

/// A channel's root is in its normal form: it stands for itself, as long as its host is still
/// YouTube's.
pub proof fn law_channel_roots_are_normal(url: Seq<char>, root: Seq<char>, single: bool)
    requires
        kind(url, single) == (LinkView::Channel { root }),
        youtube_host(host(root)),
    ensures
        kind(root, single) == (LinkView::Channel { root }),
{
    reveal_strlit("/@");
    reveal_strlit("/channel/");
    reveal_strlit("/c/");
    reveal_strlit("/user/");
    let marker = marker_of(url).unwrap();
    let i = text::find(url, marker).unwrap();
    text::lemma_find_from(url, marker, 0);
    let end = text::stop_at(url, "/?#"@, i + marker.len());
    text::lemma_stop_at(url, "/?#"@, i + marker.len());
    assert(root == url.take(end));
    text::lemma_find_in_prefix(url, end, marker);
    text::lemma_absent_in_prefix(url, end, "/@"@);
    text::lemma_absent_in_prefix(url, end, "/channel/"@);
    text::lemma_absent_in_prefix(url, end, "/c/"@);
    text::lemma_stop_at(root, "/?#"@, i + marker.len());
    assert forall|j: int| i + marker.len() <= j < root.len() implies !"/?#"@.contains(
        #[trigger] root[j],
    ) by {
        assert(root[j] == url[j]);
    }
    assert(text::stop_at(root, "/?#"@, i + marker.len()) == root.len());
    assert(root.take(root.len() as int) =~= root);
}

proof fn lemma_id_end(s: Seq<char>, i: int)
    requires
        0 <= i <= s.len(),
    ensures
        i <= id_end(s, i) <= s.len(),
        forall|j: int| i <= j < id_end(s, i) ==> is_id_char(#[trigger] s[j]),
    decreases s.len() - i,
{
    if i < s.len() && is_id_char(s[i]) {
        lemma_id_end(s, i + 1);
    }
}

/// An id that a URL gives has eleven characters, all of them those of ids, and stands in the URL.
pub proof fn law_ids_have_their_shape(url: Seq<char>)
    ensures
        match video_id(url) {
            Some(id) => {
                &&& id.len() == 11
                &&& forall|i: int| 0 <= i < id.len() ==> is_id_char(#[trigger] id[i])
                &&& text::has(url, id)
            },
            None => true,
        },
{
    if let Some(id) = video_id(url) {
        let rest = after_id_marker(url).unwrap();
        lemma_id_end(rest, 0);
        assert forall|i: int| 0 <= i < id.len() implies is_id_char(#[trigger] id[i]) by {
            assert(id[i] == rest[i]);
        }
        let k = url.len() - rest.len();
        lemma_rest_of(url, "v="@);
        lemma_rest_of(url, "youtu.be/"@);
        lemma_rest_of(url, "/shorts/"@);
        lemma_rest_of(url, "/embed/"@);
        lemma_rest_of(url, "/live/"@);
        assert(url.subrange(k, k + id.len()) =~= id);
        assert(text::occurs_at(url, id, k));
    }
}

/// YouTube's hosts are `youtu.be`, `youtube.com` and `youtube-nocookie.com`, and every subdomain
/// of the last two. A host that only ends in their letters is another's.
pub proof fn law_youtubes_hosts(h: Seq<char>, sub: Seq<char>)
    ensures
        youtube_host("youtu.be"@),
        youtube_host("youtube.com"@),
        youtube_host("youtube-nocookie.com"@),
        youtube_host(sub + ".youtube.com"@),
        youtube_host(sub + ".youtube-nocookie.com"@),
        youtube_host(h) && h != "youtu.be"@ && h != "youtube.com"@ && h
            != "youtube-nocookie.com"@ ==> exists|domain: Seq<char>|
            h == #[trigger] (domain + ".youtube.com"@) || h == domain
                + ".youtube-nocookie.com"@,
{
    let a = ".youtube.com"@;
    let b = ".youtube-nocookie.com"@;
    assert((sub + a).subrange((sub + a).len() - a.len(), (sub + a).len() as int) =~= a);
    assert((sub + b).subrange((sub + b).len() - b.len(), (sub + b).len() as int) =~= b);
    if a.is_suffix_of(h) {
        let domain = h.take(h.len() - a.len());
        assert(h =~= domain + a);
    } else if b.is_suffix_of(h) {
        let domain = h.take(h.len() - b.len());
        assert(h =~= domain + b);
        let other = domain + a;
    }
}

/// Whether none of the characters that end or divide a URL's authority stands in `s`.
pub open spec fn is_plain(s: Seq<char>) -> bool {
    forall|i: int|
        0 <= i < s.len() ==> #[trigger] s[i] != '/' && s[i] != '?' && s[i] != '#' && s[i] != '@'
            && s[i] != ':'
}

/// The host is the name between the scheme and the path, query or fragment, in small letters;
/// neither user information before it nor a port behind it belongs to it. `user` is empty or ends
/// in its `@`, `port` is empty or starts with its `:`.
pub proof fn law_the_host_is_the_bare_name(
    scheme: Seq<char>,
    user: Seq<char>,
    name: Seq<char>,
    port: Seq<char>,
    rest: Seq<char>,
)
    requires
        is_plain(scheme),
        is_plain(name),
        user.len() == 0 || user.last() == '@' && is_plain(user.drop_last()),
        port.len() == 0 || port[0] == ':' && is_plain(port.drop_first()),
        rest.len() == 0 || rest[0] == '/' || rest[0] == '?' || rest[0] == '#',
    ensures
        host(scheme + "://"@ + user + name + port + rest) == text::ascii_lower(name),
{
    reveal_strlit("://");
    reveal_strlit("/?#");
    reveal_strlit(":");
    let url = scheme + "://"@ + user + name + port + rest;
    let k = scheme.len() as int;
    assert(url.subrange(k, k + 3) =~= "://"@);
    assert forall|j: int| 0 <= j < k implies #[trigger] url.subrange(j, j + 3) != "://"@ by {
        assert(url.subrange(j, j + 3)[0] == scheme[j]);
    }
    assert(text::first_at(url, "://"@, k));
    text::lemma_find_is_first(url, "://"@);
    let authority = user + name + port;
    let whole = authority + rest;
    assert(beyond_scheme(url) =~= whole);
    assert("/?#"@ =~= seq!['/', '?', '#']);
    assert("/?#"@[0] == '/' && "/?#"@[1] == '?' && "/?#"@[2] == '#');
    assert forall|j: int| 0 <= j < authority.len() implies !"/?#"@.contains(
        #[trigger] whole[j],
    ) by {
        if j < user.len() {
            if j < user.len() - 1 {
                assert(user.drop_last()[j] == whole[j]);
            }
        } else if j < user.len() + name.len() {
            assert(name[j - user.len()] == whole[j]);
        } else if j > user.len() + name.len() {
            assert(port.drop_first()[j - user.len() - name.len() - 1] == whole[j]);
        }
    }
    if rest.len() > 0 {
        assert(whole[authority.len() as int] == rest[0]);
    }
    text::lemma_stops_at(whole, "/?#"@, authority.len() as int);
    assert(text::before_any(whole, "/?#"@) =~= authority);
    let behind = name + port;
    assert(authority =~= user + behind);
    assert forall|j: int| 0 <= j < behind.len() implies #[trigger] behind[j] != '@' by {
        if j < name.len() {
            assert(name[j] == behind[j]);
        } else if j > name.len() {
            assert(port.drop_first()[j - name.len() - 1] == behind[j]);
        }
    }
    lemma_after_user(user, behind);
    assert(":"@ =~= seq![':']);
    assert(":"@[0] == ':');
    assert forall|j: int| 0 <= j < name.len() implies !":"@.contains(#[trigger] behind[j]) by {
        assert(name[j] == behind[j]);
    }
    if port.len() > 0 {
        assert(behind[name.len() as int] == port[0]);
    }
    text::lemma_stops_at(behind, ":"@, name.len() as int);
    assert(text::before_any(behind, ":"@) =~= name);
}

proof fn lemma_after_user(user: Seq<char>, behind: Seq<char>)
    requires
        user.len() == 0 || user.last() == '@',
        forall|j: int| 0 <= j < behind.len() ==> #[trigger] behind[j] != '@',
    ensures
        text::after_last(user + behind, '@') == behind,
    decreases behind.len(),
{
    let s = user + behind;
    if behind.len() == 0 {
        assert(s =~= user);
        assert(text::after_last(s, '@') =~= behind);
    } else {
        assert(s.drop_last() =~= user + behind.drop_last());
        lemma_after_user(user, behind.drop_last());
        assert(s.last() == behind.last());
        assert(behind.drop_last().push(behind.last()) =~= behind);
    }
}

/// Whether `c` is a letter or digit of ASCII, `_` or `-`.
pub open spec fn is_word_char(c: char) -> bool {
    'a' <= c <= 'z' || 'A' <= c <= 'Z' || '0' <= c <= '9' || c == '_' || c == '-'
}

/// Whether `id` is the run of eleven id characters behind the first `marker` of a URL, and no
/// twelfth one follows.
pub open spec fn is_id_behind(url: Seq<char>, marker: Seq<char>, id: Seq<char>) -> bool {
    exists|i: int|
        #[trigger] text::first_at(url, marker, i) && {
            let start = i + marker.len();
            &&& id.len() == 11
            &&& start + 11 <= url.len()
            &&& id == url.subrange(start, start + 11)
            &&& forall|j: int| 0 <= j < 11 ==> is_word_char(#[trigger] id[j])
            &&& start + 11 < url.len() ==> !is_word_char(url[start + 11])
        }
}

proof fn lemma_id_behind(url: Seq<char>, marker: Seq<char>, id: Seq<char>)
    ensures
        text::has(url, marker) <==> text::find(url, marker) is Some,
        is_id_behind(url, marker, id) <==> text::has(url, marker) && {
            let rest = text::after_first(url, marker).unwrap();
            id_end(rest, 0) == 11 && rest.take(11) == id
        },
{
    text::lemma_find_is_first(url, marker);
    if let Some(i) = text::find(url, marker) {
        let start = i + marker.len();
        let rest = url.skip(start);
        lemma_id_end(rest, 0);
        lemma_id_end_stops(rest, 0);
        if id_end(rest, 0) == 11 && rest.take(11) == id {
            assert(id =~= url.subrange(start, start + 11));
            assert forall|j: int| 0 <= j < 11 implies is_word_char(#[trigger] id[j]) by {
                assert(is_id_char(rest[j]));
            }
            assert(start + 11 < url.len() ==> rest[11] == url[start + 11]);
            assert(text::first_at(url, marker, i));
        }
        if is_id_behind(url, marker, id) {
            assert(id =~= rest.take(11));
            assert forall|j: int| 0 <= j < 11 implies is_id_char(#[trigger] rest[j]) by {
                assert(id[j] == rest[j]);
            }
            if id_end(rest, 0) < 11 {
                assert(is_id_char(rest[id_end(rest, 0)]));
            } else if id_end(rest, 0) > 11 {
                assert(is_id_char(rest[11]));
                assert(rest[11] == url[start + 11]);
            }
        }
    }
}

proof fn lemma_id_end_stops(s: Seq<char>, i: int)
    requires
        0 <= i <= s.len(),
    ensures
        id_end(s, i) < s.len() ==> !is_id_char(s[id_end(s, i)]),
    decreases s.len() - i,
{
    if i < s.len() && is_id_char(s[i]) {
        lemma_id_end_stops(s, i + 1);
    }
}

/// A video's id is read from behind the first of `v=`, `youtu.be/`, `/shorts/`, `/embed/` and
/// `/live/`, in this order, that its URL holds; a URL without any of them, or with more or fewer
/// than eleven id characters there, gives none.
pub proof fn law_five_markers_lead_to_an_id(url: Seq<char>, id: Seq<char>)
    ensures
        video_id(url) == Some(id) <==> if text::has(url, "v="@) {
            is_id_behind(url, "v="@, id)
        } else if text::has(url, "youtu.be/"@) {
            is_id_behind(url, "youtu.be/"@, id)
        } else if text::has(url, "/shorts/"@) {
            is_id_behind(url, "/shorts/"@, id)
        } else if text::has(url, "/embed/"@) {
            is_id_behind(url, "/embed/"@, id)
        } else {
            is_id_behind(url, "/live/"@, id)
        },
{
    lemma_id_behind(url, "v="@, id);
    lemma_id_behind(url, "youtu.be/"@, id);
    lemma_id_behind(url, "/shorts/"@, id);
    lemma_id_behind(url, "/embed/"@, id);
    lemma_id_behind(url, "/live/"@, id);
}

/// An explicit `/playlist` page is a playlist even without a `list=` parameter, on any host of
/// YouTube and whatever query or fragment follows.
pub proof fn law_the_playlist_page_is_a_playlist(name: Seq<char>, tail: Seq<char>, single: bool)
    requires
        is_plain(name),
        youtube_host(text::ascii_lower(name)),
        tail.len() == 0 || tail[0] == '?' || tail[0] == '#',
        ({
            let url = "https://"@ + name + "/playlist"@ + tail;
            &&& !text::has(url, "/@"@)
            &&& !text::has(url, "/channel/"@)
            &&& !text::has(url, "/c/"@)
            &&& !text::has(url, "/user/"@)
        }),
    ensures
        kind("https://"@ + name + "/playlist"@ + tail, single) is Playlist <==> !single,
{
    reveal_strlit("https");
    reveal_strlit("://");
    reveal_strlit("https://");
    reveal_strlit("/playlist");
    reveal_strlit("?#");
    reveal_strlit("/");
    let url = "https://"@ + name + "/playlist"@ + tail;
    let rest = "/playlist"@ + tail;
    let none = Seq::<char>::empty();
    assert(url =~= "https"@ + "://"@ + none + name + none + rest);
    law_the_host_is_the_bare_name("https"@, none, name, none, rest);
    lemma_cut(url, "/@"@);
    lemma_cut(url, "/channel/"@);
    lemma_cut(url, "/c/"@);
    lemma_cut(url, "/user/"@);
    assert(url.subrange(5, 8) =~= "://"@);
    assert forall|j: int| 0 <= j < 5 implies #[trigger] url.subrange(j, j + 3) != "://"@ by {
        assert(url.subrange(j, j + 3)[0] == "https://"@[j]);
    }
    assert(text::first_at(url, "://"@, 5));
    text::lemma_find_is_first(url, "://"@);
    let whole = name + rest;
    assert(beyond_scheme(url) =~= whole);
    assert("?#"@ =~= seq!['?', '#']);
    assert("?#"@[0] == '?' && "?#"@[1] == '#');
    assert forall|j: int| 0 <= j < name.len() + 9 implies !"?#"@.contains(
        #[trigger] whole[j],
    ) by {
        if j < name.len() {
            assert(whole[j] == name[j]);
        } else {
            assert(whole[j] == "/playlist"@[j - name.len()]);
        }
    }
    if tail.len() > 0 {
        assert(whole[name.len() as int + 9] == tail[0]);
    }
    text::lemma_stops_at(whole, "?#"@, name.len() as int + 9);
    let front = text::before_any(whole, "?#"@);
    assert(front =~= name + "/playlist"@);
    assert("/"@ =~= seq!['/']);
    assert("/"@[0] == '/');
    assert forall|j: int| 0 <= j < name.len() implies !"/"@.contains(#[trigger] front[j]) by {
        assert(front[j] == name[j]);
    }
    assert(front[name.len() as int] == "/playlist"@[0]);
    text::lemma_stops_at(front, "/"@, name.len() as int);
    assert(path_of(url) =~= "/playlist"@);
}

proof fn lemma_rest_of(url: Seq<char>, marker: Seq<char>)
    ensures
        match text::after_first(url, marker) {
            Some(rest) => rest.len() <= url.len() && rest =~= url.skip(url.len() - rest.len()),
            None => true,
        },
{
    text::lemma_find_from(url, marker, 0);
}

/// A URL without a scheme has the same host as with one.
pub proof fn law_the_scheme_may_be_left_out(
    user: Seq<char>,
    name: Seq<char>,
    port: Seq<char>,
    rest: Seq<char>,
)
    requires
        is_plain(name),
        user.len() == 0 || user.last() == '@' && is_plain(user.drop_last()),
        port.len() == 0 || port[0] == ':' && is_plain(port.drop_first()),
        rest.len() == 0 || rest[0] == '/' || rest[0] == '?' || rest[0] == '#',
        !text::has(user + name + port + rest, "://"@),
    ensures
        host(user + name + port + rest) == text::ascii_lower(name),
{
    let bare = user + name + port + rest;
    let none = Seq::<char>::empty();
    let url = none + "://"@ + user + name + port + rest;
    law_the_host_is_the_bare_name(none, user, name, port, rest);
    reveal_strlit("://");
    assert(url.subrange(0, 3) =~= "://"@);
    assert(text::first_at(url, "://"@, 0));
    text::lemma_find_is_first(url, "://"@);
    text::lemma_find_is_first(bare, "://"@);
    assert(beyond_scheme(url) =~= bare);
    assert(beyond_scheme(bare) == bare);
}

/// A page of YouTube that names no channel and carries no `list=` is a lone video, unless its path
/// is `/playlist` and `single` does not opt out.
pub proof fn law_other_pages_are_lone_videos(
    name: Seq<char>,
    page: Seq<char>,
    tail: Seq<char>,
    single: bool,
)
    requires
        is_plain(name),
        youtube_host(text::ascii_lower(name)),
        page.len() > 0,
        page[0] == '/',
        !page.contains('?'),
        !page.contains('#'),
        tail.len() == 0 || tail[0] == '?' || tail[0] == '#',
        ({
            let url = "https"@ + "://"@ + name + page + tail;
            &&& !text::has(url, "/@"@)
            &&& !text::has(url, "/channel/"@)
            &&& !text::has(url, "/c/"@)
            &&& !text::has(url, "/user/"@)
            &&& !text::has(url, "list="@)
        }),
    ensures
        kind("https"@ + "://"@ + name + page + tail, single) == (if !single && page
            == "/playlist"@ {
            LinkView::Playlist { id: seq![] }
        } else {
            LinkView::Video
        }),
{
    reveal_strlit("https");
    reveal_strlit("://");
    reveal_strlit("?#");
    reveal_strlit("/");
    let url = "https"@ + "://"@ + name + page + tail;
    let rest = page + tail;
    let none = Seq::<char>::empty();
    assert(url =~= "https"@ + "://"@ + none + name + none + rest);
    law_the_host_is_the_bare_name("https"@, none, name, none, rest);
    lemma_cut(url, "/@"@);
    lemma_cut(url, "/channel/"@);
    lemma_cut(url, "/c/"@);
    lemma_cut(url, "/user/"@);
    text::lemma_find_is_first(url, "list="@);
    assert(url.subrange(5, 8) =~= "://"@);
    assert forall|j: int| 0 <= j < 5 implies #[trigger] url.subrange(j, j + 3) != "://"@ by {
        assert(url.subrange(j, j + 3)[0] == "https"@[j]);
    }
    assert(text::first_at(url, "://"@, 5));
    text::lemma_find_is_first(url, "://"@);
    let whole = name + rest;
    assert(beyond_scheme(url) =~= whole);
    assert("?#"@ =~= seq!['?', '#']);
    assert("?#"@[0] == '?' && "?#"@[1] == '#');
    let n = (name.len() + page.len()) as int;
    assert forall|j: int| 0 <= j < n implies !"?#"@.contains(#[trigger] whole[j]) by {
        if j < name.len() {
            assert(whole[j] == name[j]);
        } else {
            assert(whole[j] == page[j - name.len()]);
            assert(page.contains(page[j - name.len()]));
        }
    }
    if tail.len() > 0 {
        assert(whole[n] == tail[0]);
    }
    text::lemma_stops_at(whole, "?#"@, n);
    let front = text::before_any(whole, "?#"@);
    assert(front =~= name + page);
    assert("/"@ =~= seq!['/']);
    assert("/"@[0] == '/');
    assert forall|j: int| 0 <= j < name.len() implies !"/"@.contains(#[trigger] front[j]) by {
        assert(front[j] == name[j]);
    }
    assert(front[name.len() as int] == page[0]);
    text::lemma_stops_at(front, "/"@, name.len() as int);
    assert(path_of(url) =~= page);
}

} // verus!
