//! File paths as text, with `/` between their parts.

use vstd::prelude::*;
use vstd::string::*;
use crate::util::text;

verus! {

/// `rel` seen from the directory `base`: an absolute `rel` stands for itself, and no separator is
/// added where `base` is empty or already ends in one.
pub open spec fn joined(base: Seq<char>, rel: Seq<char>) -> Seq<char> {
    if rel.len() > 0 && rel[0] == '/' {
        rel
    } else if base.len() == 0 || base.last() == '/' {
        base + rel
    } else {
        base + "/"@ + rel
    }
}

/// A path without the separators at its end, and without the parts `.` behind a separator there.
pub open spec fn body_of(path: Seq<char>) -> Seq<char>
    decreases path.len(),
{
    if path.len() > 0 && path.last() == '/' {
        body_of(path.drop_last())
    } else if path.len() > 1 && path.last() == '.' && path[path.len() - 2] == '/' {
        body_of(path.drop_last())
    } else {
        path
    }
}

/// The last part of a path.
pub open spec fn name_of(path: Seq<char>) -> Seq<char> {
    text::after_last(body_of(path), '/')
}

/// What stands before the last part of a path.
pub open spec fn dir_of(path: Seq<char>) -> Seq<char> {
    body_of(path).take(body_of(path).len() - name_of(path).len())
}

/// Whether the path's last part is a name: it is there, and neither `.` nor `..`.
pub open spec fn ends_in_name(path: Seq<char>) -> bool {
    name_of(path).len() > 0 && name_of(path) != "."@ && name_of(path) != ".."@
}

/// The position of the dot before a name's extension; none where the only dot leads the name.
pub open spec fn dot_of(name: Seq<char>) -> Option<int> {
    let k = name.len() - text::after_last(name, '.').len() - 1;
    if k > 0 {
        Some(k)
    } else {
        None
    }
}

/// What follows a name's last dot.
pub open spec fn extension_of(name: Seq<char>) -> Option<Seq<char>> {
    match dot_of(name) {
        Some(k) => Some(text::after_last(name, '.')),
        None => None,
    }
}

/// A name without its extension.
pub open spec fn stem_of(name: Seq<char>) -> Seq<char> {
    match dot_of(name) {
        Some(k) => name.take(k),
        None => name,
    }
}

/// `path` with `ext` in place of its extension; an empty `ext` takes the extension off. A path
/// that does not end in a name stays as it is.
pub open spec fn with_ext(path: Seq<char>, ext: Seq<char>) -> Seq<char> {
    if !ends_in_name(path) {
        path
    } else if ext.len() == 0 {
        dir_of(path) + stem_of(name_of(path))
    } else {
        dir_of(path) + stem_of(name_of(path)) + "."@ + ext
    }
}

/// Whether the path ends in a name that has the extension `ext`.
pub open spec fn has_ext(path: Seq<char>, ext: Seq<char>) -> bool {
    ends_in_name(path) && extension_of(name_of(path)) == Some(ext)
}

/// `rel` seen from the directory `base`.
pub fn join(base: &str, rel: &str) -> (r: String)
    ensures
        r@ == joined(base@, rel@),
{
    let b = text::chars_of(base);
    let p = text::chars_of(rel);
    if p.len() > 0 && p[0] == '/' {
        rel.to_owned()
    } else if b.len() == 0 || b[b.len() - 1] == '/' {
        text::cat(base, rel)
    } else {
        text::cat3(base, "/", rel)
    }
}

proof fn lemma_after_last_len(s: Seq<char>, c: char)
    ensures
        text::after_last(s, c).len() <= s.len(),
    decreases s.len(),
{
    if s.len() > 0 && s.last() != c {
        lemma_after_last_len(s.drop_last(), c);
    }
}

fn body_part(path: &str) -> (r: String)
    ensures
        r@ == body_of(path@),
{
    let v = text::chars_of(path);
    let mut n: usize = v.len();
    assert(v@.take(n as int) =~= v@);
    while n > 0 && (v[n - 1] == '/' || (n > 1 && v[n - 1] == '.' && v[n - 2] == '/'))
        invariant
            n <= v@.len(),
            body_of(v@) == body_of(v@.take(n as int)),
        decreases n,
    {
        assert(v@.take(n as int).drop_last() =~= v@.take(n - 1));
        n -= 1;
    }
    let r = text::string_of(v.as_slice(), 0, n);
    assert(r@ =~= v@.take(n as int));
    r
}

fn name_part(path: &str) -> (r: String)
    ensures
        r@ == name_of(path@),
{
    let rest = body_part(path);
    text::beyond_last(rest.as_str(), '/')
}

/// Whether the path's last part is a name.
pub fn is_name_last(path: &str) -> (r: bool)
    ensures
        r == ends_in_name(path@),
{
    let name = name_part(path);
    !name.as_str().is_empty() && !text::same(name.as_str(), ".") && !text::same(name.as_str(), "..")
}

/// Whether the path ends in a name that has the extension `ext`.
pub fn has_extension(path: &str, ext: &str) -> (r: bool)
    ensures
        r == has_ext(path@, ext@),
{
    let name = name_part(path);
    let after = text::beyond_last(name.as_str(), '.');
    let n: usize = text::chars_of(name.as_str()).len();
    let a: usize = text::chars_of(after.as_str()).len();
    proof {
        lemma_after_last_len(name@, '.');
    }
    is_name_last(path) && n > a && n - a > 1 && text::same(after.as_str(), ext)
}

/// `path` with `ext` in place of its extension.
pub fn with_extension(path: &str, ext: &str) -> (r: String)
    ensures
        r@ == with_ext(path@, ext@),
{
    if !is_name_last(path) {
        return path.to_owned();
    }
    let rest = body_part(path);
    let p = text::chars_of(rest.as_str());
    let name = name_part(path);
    let after = text::beyond_last(name.as_str(), '.');
    let name_chars = text::chars_of(name.as_str());
    let n: usize = name_chars.len();
    let a: usize = text::chars_of(after.as_str()).len();
    proof {
        lemma_after_last_len(name@, '.');
        lemma_after_last_len(body_of(path@), '/');
    }
    let whole: usize = p.len();
    let dir = text::string_of(p.as_slice(), 0, whole - n);
    let keep: usize = if n > a && n - a > 1 {
        n - a - 1
    } else {
        n
    };
    let stem = text::string_of(name_chars.as_slice(), 0, keep);
    assert(stem@ =~= stem_of(name@));
    assert(dir@ =~= dir_of(path@));
    if ext.is_empty() {
        text::cat(dir.as_str(), stem.as_str())
    } else {
        text::cat4(dir.as_str(), stem.as_str(), ".", ext)
    }
}

proof fn lemma_after_last_holds_none(s: Seq<char>, c: char)
    ensures
        !text::after_last(s, c).contains(c),
        text::after_last(s, c) == s.skip(s.len() - text::after_last(s, c).len()),
        text::after_last(s, c).len() < s.len() ==> s[s.len() - text::after_last(s, c).len() - 1]
            == c,
    decreases s.len(),
{
    lemma_after_last_len(s, c);
    let t = text::after_last(s, c);
    if s.len() > 0 && s.last() != c {
        let prior = s.drop_last();
        lemma_after_last_holds_none(prior, c);
        lemma_after_last_len(prior, c);
        let u = text::after_last(prior, c);
        assert(t == u.push(s.last()));
        assert forall|j: int| 0 <= j < t.len() implies t[j] != c by {
            if j < u.len() {
                assert(u.contains(u[j]));
            }
        }
        assert(t =~= s.skip(s.len() - t.len()));
    } else {
        assert(t =~= s.skip(s.len() - t.len()));
    }
}

/// A file's temporary copies are other files beside it: an extension of more than one part gives
/// a path in the same directory that is never the file's own.
pub proof fn law_temporary_files_stand_beside(path: Seq<char>, ext: Seq<char>)
    requires
        ends_in_name(path),
        ext.contains('.'),
        !ext.contains('/'),
    ensures
        with_ext(path, ext) != path,
        dir_of(path).is_prefix_of(with_ext(path, ext)),
{
    reveal_strlit(".");
    let rest = body_of(path);
    let name = name_of(path);
    lemma_after_last_len(rest, '/');
    lemma_after_last_len(name, '.');
    lemma_after_last_holds_none(rest, '/');
    lemma_after_last_holds_none(name, '.');
    let dir = dir_of(path);
    let stem = stem_of(name);
    let other = with_ext(path, ext);
    assert(other.take(dir.len() as int) =~= dir);
    assert(other.skip(dir.len() as int) =~= stem + "."@ + ext);
    assert(rest.skip(dir.len() as int) =~= name);
    if other == path {
        assert(other.last() == ext.last());
        assert(ext.contains(ext.last()));
        if ext.len() > 1 {
            assert(other[other.len() - 2] == ext[ext.len() - 2]);
            assert(ext.contains(ext[ext.len() - 2]));
        } else {
            assert(other[other.len() - 2] == '.');
        }
        assert(rest == path);
        let shown = stem + "."@ + ext;
        assert(shown == name);
        assert(shown.skip((stem.len() + 1) as int) =~= ext);
        if let Some(k) = dot_of(name) {
            let old = text::after_last(name, '.');
            assert(name.skip(k + 1) =~= old);
            assert(stem.len() == k);
            assert(ext =~= old);
        } else {
            assert(stem == name);
            assert(shown.len() == name.len());
        }
    }
}

/// A path that ends in a few plain characters ends in a name.
pub proof fn lemma_plain_ending(path: Seq<char>, ending: Seq<char>)
    requires
        ending.is_suffix_of(path),
        ending.len() > 2,
        !ending.contains('/'),
        ending.last() != '.',
    ensures
        ends_in_name(path),
{
    reveal_strlit(".");
    reveal_strlit("..");
    assert(path.skip(path.len() - ending.len()) =~= ending);
    assert(path.skip(path.len() - ending.len()).last() == path.last());
    assert(ending.contains(ending.last()));
    assert(body_of(path) == path);
    text::lemma_after_last_reaches(path, '/', ending.len());
}

/// What follows the last `c` of a text is what was put behind it, where that holds no `c`.
pub proof fn lemma_after_last_of(front: Seq<char>, c: char, tail: Seq<char>)
    requires
        front.len() == 0 || front.last() == c,
        !tail.contains(c),
    ensures
        text::after_last(front + tail, c) == tail,
    decreases tail.len(),
{
    let s = front + tail;
    if tail.len() == 0 {
        assert(s =~= front);
        assert(text::after_last(s, c) =~= tail);
    } else {
        let prior = tail.drop_last();
        assert(tail.contains(tail.last()));
        assert forall|j: int| 0 <= j < prior.len() implies prior[j] != c by {
            assert(tail.contains(tail[j]));
        }
        assert(s.drop_last() =~= front + prior);
        lemma_after_last_of(front, c, prior);
        assert(s.last() == tail.last());
        assert(prior.push(tail.last()) =~= tail);
    }
}

/// The parts of a file's path: its directory (empty, or with its separator), the name's stem, and
/// the extension behind the last dot.
pub open spec fn is_file_path(dir: Seq<char>, stem: Seq<char>, ext: Seq<char>) -> bool {
    &&& dir.len() == 0 || dir.last() == '/'
    &&& stem.len() > 0
    &&& !stem.contains('/')
    &&& ext.len() > 0
    &&& !ext.contains('/')
    &&& !ext.contains('.')
}

/// A file's path gives back its parts: its name, its directory and its extension; and a new
/// extension takes the place of the old one and changes nothing else.
pub proof fn law_a_path_gives_back_its_parts(
    dir: Seq<char>,
    stem: Seq<char>,
    ext: Seq<char>,
    new: Seq<char>,
)
    requires
        is_file_path(dir, stem, ext),
    ensures
        ({
            let path = dir + stem + "."@ + ext;
            &&& ends_in_name(path)
            &&& name_of(path) == stem + "."@ + ext
            &&& dir_of(path) == dir
            &&& forall|other: Seq<char>| #[trigger] has_ext(path, other) <==> other == ext
            &&& new.len() > 0 ==> with_ext(path, new) == dir + stem + "."@ + new
            &&& with_ext(path, seq![]) == dir + stem
        }),
{
    reveal_strlit(".");
    reveal_strlit("..");
    let path = dir + stem + "."@ + ext;
    let name = stem + "."@ + ext;
    assert(ext.contains(ext.last()));
    assert(path.last() == ext.last());
    assert(body_of(path) == path);
    assert forall|j: int| 0 <= j < name.len() implies name[j] != '/' by {
        if j < stem.len() {
            assert(stem.contains(stem[j]));
        } else if j > stem.len() {
            assert(name[j] == ext[j - stem.len() - 1]);
            assert(ext.contains(ext[j - stem.len() - 1]));
        }
    }
    assert(path =~= dir + name);
    lemma_after_last_of(dir, '/', name);
    assert(dir_of(path) =~= dir);
    assert(name.last() == ext.last());
    assert(name != "."@ && name != ".."@) by {
        assert("."@.last() == '.');
        assert(".."@.last() == '.');
    }
    assert(name =~= (stem + "."@) + ext);
    lemma_after_last_of(stem + "."@, '.', ext);
    assert(dot_of(name) == Some(stem.len() as int));
    assert(name.take(stem.len() as int) =~= stem);
    assert(with_ext(path, seq![]) =~= dir + stem);
}

/// A name seen from a directory stands behind it, with one separator between them; seen from no
/// directory, or absolute, it stands for itself.
pub proof fn law_a_name_stands_behind_its_directory(base: Seq<char>, rel: Seq<char>)
    ensures
        rel.len() > 0 && rel[0] == '/' ==> joined(base, rel) == rel,
        rel.len() == 0 || rel[0] != '/' ==> {
            &&& base.len() == 0 ==> joined(base, rel) == rel
            &&& base.len() > 0 && base.last() == '/' ==> joined(base, rel) == base + rel
            &&& base.len() > 0 && base.last() != '/' ==> joined(base, rel) == base + seq!['/']
                + rel
        },
{
    reveal_strlit("/");
    assert("/"@ =~= seq!['/']);
    if base.len() == 0 {
        assert(base + rel =~= rel);
    }
}

} // verus!
