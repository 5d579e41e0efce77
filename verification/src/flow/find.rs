//! The search for a video's media file by its id, which rides in every file's name.

use vstd::prelude::*;
use vstd::string::*;
use crate::flow;
use crate::flow::{Action, ActionView, Event, EventView, Node, NodeView, Reply, ReplyView};
use crate::media::files;
use crate::util::path;
use crate::util::text;

verus! {

/// A walk under a directory in search of the media file of the video `id`. `stack` holds the
/// directories that are still to be read; `reading` is the one that was last asked for.
pub struct Find {
    pub id: String,
    pub stack: Vec<String>,
    pub reading: Option<String>,
}

/// A [`Find`] with its texts as sequences of characters.
#[verifier::ext_equal]
pub struct FindView {
    pub id: Seq<char>,
    pub stack: Seq<Seq<char>>,
    pub reading: Option<Seq<char>>,
}

impl View for Find {
    type V = FindView;

    open spec fn view(&self) -> FindView {
        FindView {
            id: self.id@,
            stack: text::texts(self.stack@),
            reading: text::opt_text(self.reading),
        }
    }
}

/// The first of a directory's items, from the `i`-th on, that is the media file of video `id`.
pub open spec fn media_from(items: Seq<NodeView>, id: Seq<char>, i: int) -> Option<Seq<char>>
    decreases items.len() - i,
{
    if i < 0 || i >= items.len() {
        None
    } else if !items[i].dir && files::names_media(items[i].name, id) {
        Some(items[i].name)
    } else {
        media_from(items, id, i + 1)
    }
}

/// The directories among the items of `dir`, as paths.
pub open spec fn dirs_in(dir: Seq<char>, items: Seq<NodeView>) -> Seq<Seq<char>>
    decreases items.len(),
{
    if items.len() == 0 {
        seq![]
    } else if items.last().dir {
        dirs_in(dir, items.drop_last()).push(path::joined(dir, items.last().name))
    } else {
        dirs_in(dir, items.drop_last())
    }
}

/// The search goes on with the directory that was noted last; it ends where none is left.
pub open spec fn onward(s: FindView) -> (FindView, ReplyView) {
    if s.stack.len() == 0 {
        (
            FindView { reading: None, ..s },
            flow::quiet(ActionView::Return(EventView::Text(None))),
        )
    } else {
        (
            FindView { reading: Some(s.stack.last()), stack: s.stack.drop_last(), ..s },
            flow::quiet(ActionView::List(s.stack.last())),
        )
    }
}

/// The search's next step. The first media file with the id ends it; a directory that cannot be
/// read ends it empty-handed.
pub open spec fn next(s: FindView, event: EventView) -> (FindView, ReplyView) {
    match s.reading {
        None => onward(s),
        Some(dir) => match flow::listing_of(event) {
            None => (s, flow::quiet(ActionView::Return(EventView::Text(None)))),
            Some(items) => match media_from(items, s.id, 0) {
                Some(name) => (
                    s,
                    flow::quiet(
                        ActionView::Return(EventView::Text(Some(path::joined(dir, name)))),
                    ),
                ),
                None => onward(FindView { stack: s.stack + dirs_in(dir, items), ..s }),
            },
        },
    }
}

fn first_media(items: &[Node], id: &str) -> (r: Option<usize>)
    ensures
        match r {
            Some(i) => i < items@.len() && media_from(flow::node_views(items@), id@, 0) == Some(
                items@[i as int].name@,
            ),
            None => media_from(flow::node_views(items@), id@, 0) is None,
        },
{
    let ghost all = flow::node_views(items@);
    let mut i: usize = 0;
    while i < items.len()
        invariant
            i <= items@.len(),
            all == flow::node_views(items@),
            media_from(all, id@, 0) == media_from(all, id@, i as int),
        decreases items@.len() - i,
    {
        assert(all[i as int] == items@[i as int]@);
        if !items[i].dir && files::is_media_of(items[i].name.as_str(), id) {
            return Some(i);
        }
        i += 1;
    }
    None
}

fn push_dirs(stack: &mut Vec<String>, dir: &str, items: &[Node])
    ensures
        text::texts(final(stack)@) == text::texts(old(stack)@) + dirs_in(
            dir@,
            flow::node_views(items@),
        ),
{
    let ghost start = text::texts(stack@);
    let ghost all = flow::node_views(items@);
    let mut i: usize = 0;
    assert(all.take(0) =~= seq![]);
    assert(text::texts(stack@) =~= start + dirs_in(dir@, all.take(0)));
    while i < items.len()
        invariant
            i <= items@.len(),
            all == flow::node_views(items@),
            text::texts(stack@) == start + dirs_in(dir@, all.take(i as int)),
        decreases items@.len() - i,
    {
        proof {
            assert(all.take(i + 1).drop_last() =~= all.take(i as int));
            assert(all.take(i + 1).last() == items@[i as int]@);
        }
        if items[i].dir {
            let sub = path::join(dir, items[i].name.as_str());
            text::put(stack, sub.as_str());
        }
        i += 1;
        assert(text::texts(stack@) =~= start + dirs_in(dir@, all.take(i as int)));
    }
    assert(all.take(i as int) =~= all);
}

impl Find {
    /// A search under `root` for the media file of the video `id`.
    pub fn new(root: &str, id: &str) -> (r: Self)
        ensures
            r@ == find_start(root@, id@),
    {
        let mut stack: Vec<String> = Vec::new();
        text::put(&mut stack, root);
        assert(text::texts(stack@) =~= seq![root@]);
        Find { id: id.to_owned(), stack, reading: None }
    }

    fn advance(&mut self) -> (r: Reply)
        ensures
            (final(self)@, r@) == onward(old(self)@),
    {
        let ghost before = text::texts(self.stack@);
        match self.stack.pop() {
            None => {
                self.reading = None;
                flow::silently(Action::Return(Event::Text(None)))
            },
            Some(dir) => {
                assert(text::texts(self.stack@) =~= before.drop_last());
                self.reading = Some(dir.clone());
                flow::silently(Action::List(dir))
            },
        }
    }

    /// Take in the outcome of the last action and say what comes next.
    pub fn step(&mut self, event: Event) -> (r: Reply)
        ensures
            (final(self)@, r@) == next(old(self)@, event@),
    {
        let dir = match &self.reading {
            None => return self.advance(),
            Some(dir) => dir.clone(),
        };
        match event {
            Event::Listing(Some(items)) => {
                match first_media(items.as_slice(), self.id.as_str()) {
                    Some(i) => {
                        let file = path::join(dir.as_str(), items[i].name.as_str());
                        flow::silently(Action::Return(Event::Text(Some(file))))
                    },
                    None => {
                        push_dirs(&mut self.stack, dir.as_str(), items.as_slice());
                        self.advance()
                    },
                }
            },
            _ => flow::silently(Action::Return(Event::Text(None))),
        }
    }
}

/// What a search answers with is a media file of the video: a path that ends in a name, and the
/// name carries the id and a media extension.
pub proof fn law_found_files_are_media(s: FindView, event: EventView, file: Seq<char>)
    requires
        next(s, event).1.action == ActionView::Return(EventView::Text(Some(file))),
    ensures
        path::ends_in_name(file),
        exists|dir: Seq<char>, name: Seq<char>|
            file == #[trigger] path::joined(dir, name) && files::names_media(name, s.id),
{
    let dir = s.reading.unwrap();
    let items = flow::listing_of(event).unwrap();
    lemma_media_from(items, s.id, 0);
    let name = media_from(items, s.id, 0).unwrap();
    assert(file == path::joined(dir, name));
    lemma_media_names_are_names(dir, name);
}

proof fn lemma_media_names_are_names(dir: Seq<char>, name: Seq<char>)
    requires
        files::media_extension(name),
    ensures
        path::ends_in_name(path::joined(dir, name)),
{
    reveal_strlit(".mkv");
    reveal_strlit(".opus");
    reveal_strlit(".m4a");
    reveal_strlit(".mp3");
    reveal_strlit(".ogg");
    reveal_strlit(".flac");
    reveal_strlit(".wav");
    reveal_strlit(".webm");
    let file = path::joined(dir, name);
    let ext = if ".mkv"@.is_suffix_of(name) {
        ".mkv"@
    } else if ".opus"@.is_suffix_of(name) {
        ".opus"@
    } else if ".m4a"@.is_suffix_of(name) {
        ".m4a"@
    } else if ".mp3"@.is_suffix_of(name) {
        ".mp3"@
    } else if ".ogg"@.is_suffix_of(name) {
        ".ogg"@
    } else if ".flac"@.is_suffix_of(name) {
        ".flac"@
    } else if ".wav"@.is_suffix_of(name) {
        ".wav"@
    } else {
        ".webm"@
    };
    assert(ext.is_suffix_of(file)) by {
        assert(name.skip(name.len() - ext.len()) =~= ext);
        assert(file.skip(file.len() - ext.len()) =~= ext);
    }
    path::lemma_plain_ending(file, ext);
}

/// A tree of directories: what a listing of each path shows, where it can be read.
pub type Tree = spec_fn(Seq<char>) -> Option<Seq<NodeView>>;

/// Whether `dir` is one of the directories among the items of `up`.
pub open spec fn is_among(items: Seq<NodeView>, up: Seq<char>, dir: Seq<char>) -> bool {
    exists|i: int|
        0 <= i < items.len() && (#[trigger] items[i]).dir && dir == path::joined(
            up,
            items[i].name,
        )
}

/// Whether `dir` stands directly in `up`, as a directory.
pub open spec fn stands_in(tree: Tree, up: Seq<char>, dir: Seq<char>) -> bool {
    match tree(up) {
        Some(items) => is_among(items, up, dir),
        None => false,
    }
}

/// Whether `dir` stands `depth` levels below `root`.
pub open spec fn at_depth(tree: Tree, root: Seq<char>, dir: Seq<char>, depth: nat) -> bool
    decreases depth,
{
    if depth == 0 {
        dir == root
    } else {
        exists|up: Seq<char>|
            at_depth(tree, root, up, (depth - 1) as nat) && #[trigger] stands_in(tree, up, dir)
    }
}

/// Whether `dir` is `root` or stands below it, at any depth.
pub open spec fn below(tree: Tree, root: Seq<char>, dir: Seq<char>) -> bool {
    exists|depth: nat| #[trigger] at_depth(tree, root, dir, depth)
}

/// What a search answers with when its host lists the directories of `tree`, within so many
/// steps; nothing where it is not over by then.
pub open spec fn answer(s: FindView, event: EventView, tree: Tree, steps: nat) -> Option<
    Option<Seq<char>>,
>
    decreases steps,
{
    if steps == 0 {
        None
    } else {
        let (t, reply) = next(s, event);
        match reply.action {
            ActionView::Return(EventView::Text(found)) => Some(found),
            ActionView::List(dir) => answer(
                t,
                EventView::Listing(tree(dir)),
                tree,
                (steps - 1) as nat,
            ),
            _ => None,
        }
    }
}

/// A search at its start.
pub open spec fn find_start(root: Seq<char>, id: Seq<char>) -> FindView {
    FindView { id, stack: seq![root], reading: None }
}

/// Whether one of a directory's items is the media file of video `id`.
pub open spec fn holds_media(items: Seq<NodeView>, id: Seq<char>) -> bool {
    exists|i: int|
        0 <= i < items.len() && !(#[trigger] items[i]).dir && files::names_media(
            items[i].name,
            id,
        )
}

/// A search misses nothing: where every directory below `root` can be read, one that ends
/// empty-handed has met no media file of the video, at any depth.
pub proof fn law_a_search_misses_nothing(tree: Tree, root: Seq<char>, id: Seq<char>, steps: nat)
    requires
        forall|dir: Seq<char>| #[trigger] below(tree, root, dir) ==> tree(dir) is Some,
        answer(find_start(root, id), EventView::Start, tree, steps) == Some(None::<Seq<char>>),
    ensures
        forall|dir: Seq<char>| #[trigger]
            below(tree, root, dir) ==> !holds_media(tree(dir).unwrap(), id),
{
    let s = find_start(root, id);
    let (t, reply) = next(s, EventView::Start);
    assert(reply.action == ActionView::List(root));
    assert(t.stack =~= seq![]);
    assert(at_depth(tree, root, root, 0));
    assert(below(tree, root, root));
    lemma_nothing_missed(t, tree, root, Set::empty(), (steps - 1) as nat);
}

/// A search finds only what is there: what it answers with stands below `root`, as a media file
/// of the video.
pub proof fn law_a_search_finds_what_is_there(
    tree: Tree,
    root: Seq<char>,
    id: Seq<char>,
    steps: nat,
    file: Seq<char>,
)
    requires
        answer(find_start(root, id), EventView::Start, tree, steps) == Some(Some(file)),
    ensures
        exists|dir: Seq<char>, name: Seq<char>| #[trigger]
            stands_as(tree, dir, name, id) && below(tree, root, dir) && file == path::joined(
                dir,
                name,
            ),
{
    let s = find_start(root, id);
    let (t, reply) = next(s, EventView::Start);
    assert(t.stack =~= seq![]);
    assert(at_depth(tree, root, root, 0));
    assert(below(tree, root, root));
    lemma_found_below(t, tree, root, (steps - 1) as nat, file);
}

/// Whether `name` is a media file of the video `id` in `dir`.
pub open spec fn stands_as(tree: Tree, dir: Seq<char>, name: Seq<char>, id: Seq<char>) -> bool {
    match tree(dir) {
        Some(items) => files::names_media(name, id) && exists|i: int|
            0 <= i < items.len() && !(#[trigger] items[i]).dir && items[i].name == name,
        None => false,
    }
}

proof fn lemma_media_from(items: Seq<NodeView>, id: Seq<char>, i: int)
    requires
        0 <= i,
    ensures
        match media_from(items, id, i) {
            Some(name) => files::names_media(name, id) && exists|j: int|
                0 <= j < items.len() && !(#[trigger] items[j]).dir && items[j].name == name,
            None => forall|j: int|
                i <= j < items.len() ==> (#[trigger] items[j]).dir || !files::names_media(
                    items[j].name,
                    id,
                ),
        },
    decreases items.len() - i,
{
    if i < items.len() {
        if !items[i].dir && files::names_media(items[i].name, id) {
            assert(items[i].name == media_from(items, id, i).unwrap());
        } else {
            lemma_media_from(items, id, i + 1);
        }
    }
}

proof fn lemma_dirs_in(dir: Seq<char>, items: Seq<NodeView>)
    ensures
        forall|sub: Seq<char>| #[trigger]
            is_among(items, dir, sub) ==> dirs_in(dir, items).contains(sub),
        forall|k: int|
            0 <= k < dirs_in(dir, items).len() ==> is_among(
                items,
                dir,
                #[trigger] dirs_in(dir, items)[k],
            ),
    decreases items.len(),
{
    if items.len() > 0 {
        let prior = items.drop_last();
        let before = dirs_in(dir, prior);
        let all = dirs_in(dir, items);
        lemma_dirs_in(dir, prior);
        assert forall|sub: Seq<char>| #[trigger] is_among(items, dir, sub) implies all.contains(
            sub,
        ) by {
            let i = choose|i: int|
                0 <= i < items.len() && (#[trigger] items[i]).dir && sub == path::joined(
                    dir,
                    items[i].name,
                );
            if i < prior.len() {
                assert(prior[i] == items[i]);
                assert(is_among(prior, dir, sub));
                let k = choose|k: int| 0 <= k < before.len() && before[k] == sub;
                assert(all[k] == sub);
            } else {
                assert(all[all.len() - 1] == sub);
            }
        }
        assert forall|k: int| 0 <= k < all.len() implies is_among(
            items,
            dir,
            #[trigger] all[k],
        ) by {
            if k < before.len() {
                assert(all[k] == before[k]);
                assert(is_among(prior, dir, before[k]));
                let i = choose|i: int|
                    0 <= i < prior.len() && (#[trigger] prior[i]).dir && before[k]
                        == path::joined(dir, prior[i].name);
                assert(items[i] == prior[i]);
            } else {
                assert(items[items.len() - 1].dir);
            }
        }
    }
}

proof fn lemma_one_deeper(tree: Tree, root: Seq<char>, up: Seq<char>, dir: Seq<char>)
    requires
        below(tree, root, up),
        stands_in(tree, up, dir),
    ensures
        below(tree, root, dir),
{
    let depth = choose|depth: nat| #[trigger] at_depth(tree, root, up, depth);
    assert(at_depth(tree, root, up, ((depth + 1) - 1) as nat));
    assert(at_depth(tree, root, dir, depth + 1));
}

/// The directories that were noted of a listing stand below `root`.
proof fn lemma_noted_stand_below(tree: Tree, root: Seq<char>, dir: Seq<char>)
    requires
        below(tree, root, dir),
        tree(dir) is Some,
    ensures
        forall|k: int|
            0 <= k < dirs_in(dir, tree(dir).unwrap()).len() ==> below(
                tree,
                root,
                #[trigger] dirs_in(dir, tree(dir).unwrap())[k],
            ),
{
    let items = tree(dir).unwrap();
    let subs = dirs_in(dir, items);
    lemma_dirs_in(dir, items);
    assert forall|k: int| 0 <= k < subs.len() implies below(tree, root, #[trigger] subs[k]) by {
        assert(stands_in(tree, dir, subs[k]));
        lemma_one_deeper(tree, root, dir, subs[k]);
    }
}

/// Whether a directory is still to be read, or being read.
spec fn awaited(s: FindView, dir: Seq<char>) -> bool {
    s.stack.contains(dir) || s.reading == Some(dir)
}

/// What holds while a search goes on: `seen` are the directories that were read. None of them
/// holds a media file, and whatever stands in one of them was read too or is awaited.
spec fn thorough(s: FindView, tree: Tree, root: Seq<char>, seen: Set<Seq<char>>) -> bool {
    &&& s.reading is Some
    &&& forall|dir: Seq<char>| #[trigger] awaited(s, dir) ==> below(tree, root, dir)
    &&& seen.contains(root) || awaited(s, root)
    &&& forall|dir: Seq<char>| #[trigger]
        seen.contains(dir) ==> tree(dir) is Some && !holds_media(tree(dir).unwrap(), s.id)
    &&& forall|up: Seq<char>, dir: Seq<char>|
        seen.contains(up) && #[trigger] stands_in(tree, up, dir) ==> seen.contains(dir) || awaited(
            s,
            dir,
        )
}

proof fn lemma_nothing_missed(
    s: FindView,
    tree: Tree,
    root: Seq<char>,
    seen: Set<Seq<char>>,
    steps: nat,
)
    requires
        forall|dir: Seq<char>| #[trigger] below(tree, root, dir) ==> tree(dir) is Some,
        thorough(s, tree, root, seen),
        answer(s, EventView::Listing(tree(s.reading.unwrap())), tree, steps) == Some(
            None::<Seq<char>>,
        ),
    ensures
        forall|dir: Seq<char>| #[trigger]
            below(tree, root, dir) ==> !holds_media(tree(dir).unwrap(), s.id),
    decreases steps,
{
    let dir = s.reading.unwrap();
    assert(awaited(s, dir));
    assert(below(tree, root, dir));
    let items = tree(dir).unwrap();
    lemma_media_from(items, s.id, 0);
    assert(media_from(items, s.id, 0) is None);
    let subs = dirs_in(dir, items);
    let noted = FindView { stack: s.stack + subs, ..s };
    let (t, reply) = onward(noted);
    let more = seen.insert(dir);
    assert(next(s, EventView::Listing(tree(dir))) == onward(noted));
    lemma_dirs_in(dir, items);
    lemma_noted_stand_below(tree, root, dir);
    assert forall|up: Seq<char>, sub: Seq<char>|
        more.contains(up) && #[trigger] stands_in(tree, up, sub) implies more.contains(sub)
        || noted.stack.contains(sub) by {
        if up == dir {
            assert(is_among(items, dir, sub));
            let k = choose|k: int| 0 <= k < subs.len() && subs[k] == sub;
            assert(noted.stack[s.stack.len() + k] == sub);
        } else {
            assert(seen.contains(sub) || awaited(s, sub));
            if s.stack.contains(sub) {
                let k = choose|k: int| 0 <= k < s.stack.len() && s.stack[k] == sub;
                assert(noted.stack[k] == sub);
            }
        }
    }
    if !more.contains(root) {
        assert(awaited(s, root));
        let k = choose|k: int| 0 <= k < s.stack.len() && s.stack[k] == root;
        assert(noted.stack[k] == root);
    }
    if noted.stack.len() == 0 {
        assert forall|d: Seq<char>| #[trigger] below(tree, root, d) implies !holds_media(
            tree(d).unwrap(),
            s.id,
        ) by {
            let depth = choose|depth: nat| #[trigger] at_depth(tree, root, d, depth);
            lemma_all_seen(tree, root, more, d, depth);
        }
    } else {
        assert(noted.stack.drop_last().push(noted.stack.last()) =~= noted.stack);
        assert forall|d: Seq<char>| noted.stack.contains(d) implies #[trigger] awaited(t, d) by {
            let k = choose|k: int| 0 <= k < noted.stack.len() && noted.stack[k] == d;
            if k < noted.stack.len() - 1 {
                assert(t.stack[k] == d);
            }
        }
        assert forall|d: Seq<char>| #[trigger] awaited(t, d) implies below(tree, root, d) by {
            let k = if t.stack.contains(d) {
                choose|k: int| 0 <= k < t.stack.len() && t.stack[k] == d
            } else {
                noted.stack.len() - 1
            };
            assert(noted.stack[k] == d);
            if k < s.stack.len() {
                assert(s.stack[k] == d);
                assert(awaited(s, d));
            } else {
                assert(subs[k - s.stack.len()] == d);
            }
        }
        lemma_nothing_missed(t, tree, root, more, (steps - 1) as nat);
    }
}

/// Once nothing is awaited, everything below `root` was read.
proof fn lemma_all_seen(
    tree: Tree,
    root: Seq<char>,
    seen: Set<Seq<char>>,
    dir: Seq<char>,
    depth: nat,
)
    requires
        seen.contains(root),
        forall|up: Seq<char>, sub: Seq<char>|
            seen.contains(up) && #[trigger] stands_in(tree, up, sub) ==> seen.contains(sub),
        at_depth(tree, root, dir, depth),
    ensures
        seen.contains(dir),
    decreases depth,
{
    if depth > 0 {
        let up = choose|up: Seq<char>|
            at_depth(tree, root, up, (depth - 1) as nat) && #[trigger] stands_in(tree, up, dir);
        lemma_all_seen(tree, root, seen, up, (depth - 1) as nat);
    }
}

proof fn lemma_found_below(
    s: FindView,
    tree: Tree,
    root: Seq<char>,
    steps: nat,
    file: Seq<char>,
)
    requires
        s.reading is Some,
        below(tree, root, s.reading.unwrap()),
        forall|k: int| 0 <= k < s.stack.len() ==> below(tree, root, #[trigger] s.stack[k]),
        answer(s, EventView::Listing(tree(s.reading.unwrap())), tree, steps) == Some(Some(file)),
    ensures
        exists|dir: Seq<char>, name: Seq<char>| #[trigger]
            stands_as(tree, dir, name, s.id) && below(tree, root, dir) && file == path::joined(
                dir,
                name,
            ),
    decreases steps,
{
    let dir = s.reading.unwrap();
    let items = tree(dir).unwrap();
    lemma_media_from(items, s.id, 0);
    match media_from(items, s.id, 0) {
        Some(name) => {
            assert(stands_as(tree, dir, name, s.id));
        },
        None => {
            let subs = dirs_in(dir, items);
            let noted = FindView { stack: s.stack + subs, ..s };
            let (t, reply) = onward(noted);
            lemma_noted_stand_below(tree, root, dir);
            assert forall|k: int| 0 <= k < noted.stack.len() implies below(
                tree,
                root,
                #[trigger] noted.stack[k],
            ) by {
                if k >= s.stack.len() {
                    assert(noted.stack[k] == subs[k - s.stack.len()]);
                }
            }
            assert(noted.stack.len() > 0);
            assert forall|k: int| 0 <= k < t.stack.len() implies below(
                tree,
                root,
                #[trigger] t.stack[k],
            ) by {
                assert(t.stack[k] == noted.stack[k]);
            }
            assert(below(tree, root, noted.stack[noted.stack.len() - 1]));
            lemma_found_below(t, tree, root, (steps - 1) as nat, file);
        },
    }
}

/// Of a directory that was read, the first file that is the video's media file is the answer;
/// where there is none, its subdirectories are noted and the one noted last is read next. A
/// directory that cannot be read ends the search without an answer.
pub proof fn law_the_first_media_file_is_the_answer(
    s: FindView,
    dir: Seq<char>,
    items: Seq<NodeView>,
    i: int,
)
    requires
        s.reading == Some(dir),
    ensures
        ({
            let (t, reply) = next(s, EventView::Listing(Some(items)));
            &&& 0 <= i < items.len() && !items[i].dir && files::names_media(items[i].name, s.id)
                && (forall|j: int|
                0 <= j < i ==> (#[trigger] items[j]).dir || !files::names_media(
                    items[j].name,
                    s.id,
                )) ==> reply.action == ActionView::Return(
                EventView::Text(Some(path::joined(dir, items[i].name))),
            )
            &&& (forall|j: int|
                0 <= j < items.len() ==> (#[trigger] items[j]).dir || !files::names_media(
                    items[j].name,
                    s.id,
                )) ==> {
                let noted = s.stack + items.filter(|n: NodeView| n.dir).map_values(
                    |n: NodeView| path::joined(dir, n.name),
                );
                if noted.len() > 0 {
                    reply.action == ActionView::List(noted.last()) && t.stack
                        == noted.drop_last() && t.reading == Some(noted.last())
                } else {
                    reply.action == ActionView::Return(EventView::Text(None))
                }
            }
        }),
        next(s, EventView::Listing(None)).1.action == ActionView::Return(EventView::Text(None)),
{
    if 0 <= i < items.len() && !items[i].dir && files::names_media(items[i].name, s.id) && (forall|
        j: int,
    |
        0 <= j < i ==> (#[trigger] items[j]).dir || !files::names_media(items[j].name, s.id)) {
        lemma_first_media(items, s.id, i, 0);
    }
    if forall|j: int|
        0 <= j < items.len() ==> (#[trigger] items[j]).dir || !files::names_media(
            items[j].name,
            s.id,
        ) {
        lemma_media_from(items, s.id, 0);
        lemma_no_media(items, s.id, 0);
        lemma_dirs_are_filtered(dir, items);
    }
}

proof fn lemma_first_media(items: Seq<NodeView>, id: Seq<char>, i: int, from: int)
    requires
        0 <= from <= i < items.len(),
        !items[i].dir && files::names_media(items[i].name, id),
        forall|j: int|
            0 <= j < i ==> (#[trigger] items[j]).dir || !files::names_media(items[j].name, id),
    ensures
        media_from(items, id, from) == Some(items[i].name),
    decreases i - from,
{
    if from < i {
        lemma_first_media(items, id, i, from + 1);
    }
}

proof fn lemma_no_media(items: Seq<NodeView>, id: Seq<char>, from: int)
    requires
        0 <= from,
        forall|j: int|
            0 <= j < items.len() ==> (#[trigger] items[j]).dir || !files::names_media(
                items[j].name,
                id,
            ),
    ensures
        media_from(items, id, from) is None,
    decreases items.len() - from,
{
    if from < items.len() {
        lemma_no_media(items, id, from + 1);
    }
}

proof fn lemma_dirs_are_filtered(dir: Seq<char>, items: Seq<NodeView>)
    ensures
        dirs_in(dir, items) == items.filter(|n: NodeView| n.dir).map_values(
            |n: NodeView| path::joined(dir, n.name),
        ),
    decreases items.len(),
{
    reveal(Seq::filter);
    let p = |n: NodeView| n.dir;
    let f = |n: NodeView| path::joined(dir, n.name);
    if items.len() > 0 {
        lemma_dirs_are_filtered(dir, items.drop_last());
    }
    assert(dirs_in(dir, items) =~= items.filter(p).map_values(f));
}

} // verus!
