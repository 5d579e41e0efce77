//! Subtitle texts as metadata tags of audio files: a plain key in Vorbis comments (opus, ogg,
//! flac), a `TXXX` frame on ID3v2 (mp3, wav), a `----:vidl:<name>` freeform atom on MP4 (m4a).

use vstd::prelude::*;
use vstd::string::*;
use crate::flow;
use crate::util::text;

verus! {

/// Pairs of a tag's name and its text.
pub type Texts = Seq<(Seq<char>, Seq<char>)>;

/// The texts of MP4 freeform atoms, by their vendor and name.
pub type Atoms = Map<(Seq<char>, Seq<char>), Seq<Option<Seq<char>>>>;

/// Lofty's Vorbis comments, held as they are.
#[verifier::external_type_specification]
#[verifier::external_body]
pub struct ExVorbisComments(lofty::ogg::VorbisComments);

/// Lofty's ID3v2 tag, held as it is.
#[verifier::external_type_specification]
#[verifier::external_body]
pub struct ExId3v2Tag(lofty::id3::v2::Id3v2Tag);

/// Lofty's MP4 item list, held as it is.
#[verifier::external_type_specification]
#[verifier::external_body]
pub struct ExIlst(lofty::mp4::Ilst);

/// The keys and values of Vorbis comments, in order.
pub uninterp spec fn vorbis_items(tag: lofty::ogg::VorbisComments) -> Seq<(Seq<char>, Seq<char>)>;

/// The descriptions and contents of the `TXXX` frames of an ID3v2 tag, in order.
pub uninterp spec fn user_texts(tag: lofty::id3::v2::Id3v2Tag) -> Seq<(Seq<char>, Seq<char>)>;

/// The values of the first freeform atom of each vendor and name in an MP4 item list, in order:
/// the text of a UTF-8 value, nothing for a value of another type.
pub uninterp spec fn freeform_values(ilst: lofty::mp4::Ilst) -> Map<(Seq<char>, Seq<char>), Seq<Option<Seq<char>>>>;

/// What Vorbis comments hold beside their keys and values: the vendor and the pictures, in order,
/// each as its debug text.
pub uninterp spec fn vorbis_rest(tag: lofty::ogg::VorbisComments) -> Seq<Seq<char>>;

/// The frames of an ID3v2 tag that are not `TXXX` frames, in order, each as its debug text.
pub uninterp spec fn other_frames(tag: lofty::id3::v2::Id3v2Tag) -> Seq<Seq<char>>;

/// The atoms of an MP4 item list beside the first freeform atom of each vendor and name, in order,
/// each as its debug text.
pub uninterp spec fn other_atoms(ilst: lofty::mp4::Ilst) -> Seq<Seq<char>>;

/// Whether Vorbis comments accept a key: it is not empty, and its characters lie between the
/// space and `}`, but for `=`.
pub open spec fn vorbis_key(key: Seq<char>) -> bool {
    key.len() > 0 && forall|i: int|
        0 <= i < key.len() ==> ' ' <= #[trigger] key[i] <= '}' && key[i] != '='
}

/// Vorbis comments after one more was pushed: a key that they do not accept changes nothing.
pub open spec fn pushed(items: Texts, key: Seq<char>, value: Seq<char>) -> Texts {
    if vorbis_key(key) {
        items.push((key, value))
    } else {
        items
    }
}

/// `lofty::ogg::VorbisComments::push`: the item goes to the end, unless its key is not a valid
/// one, which changes nothing. Items already there stay, those of the same key too, and so do the
/// vendor and the pictures.
pub assume_specification[ lofty::ogg::VorbisComments::push ](
    tag: &mut lofty::ogg::VorbisComments,
    key: String,
    value: String,
)
    ensures
        vorbis_items(*final(tag)) == pushed(vorbis_items(*old(tag)), key@, value@),
        vorbis_rest(*final(tag)) == vorbis_rest(*old(tag)),
;

/// The position of the first text from `i` on under this name.
pub open spec fn place_of(texts: Texts, name: Seq<char>, i: int) -> Option<int>
    decreases texts.len() - i,
{
    if i < 0 || i >= texts.len() {
        None
    } else if texts[i].0 == name {
        Some(i)
    } else {
        place_of(texts, name, i + 1)
    }
}

/// Texts after one was put in: the first one of that name goes, the new one stands at the end.
pub open spec fn replaced(texts: Texts, name: Seq<char>, content: Seq<char>) -> Texts {
    match place_of(texts, name, 0) {
        Some(i) => texts.remove(i).push((name, content)),
        None => texts.push((name, content)),
    }
}

/// `lofty::id3::v2::Id3v2Tag::insert_user_text`: the first `TXXX` frame of that description goes,
/// and the new one stands at the end of the tag. The frames of other kinds stay as they are.
#[verifier::external_body]
fn insert_user_text(tag: &mut lofty::id3::v2::Id3v2Tag, name: String, content: String)
    ensures
        user_texts(*final(tag)) == replaced(user_texts(*old(tag)), name@, content@),
        other_frames(*final(tag)) == other_frames(*old(tag)),
{
    let _ = tag.insert_user_text(name, content);
}

/// The vendor that the MP4 atoms are namespaced by.
pub const VENDOR: &'static str = "vidl";

/// The values under a vendor and name; none where there is no such atom.
pub open spec fn values_at(atoms: Atoms, key: (Seq<char>, Seq<char>)) -> Seq<Option<Seq<char>>> {
    if atoms.dom().contains(key) {
        atoms[key]
    } else {
        seq![]
    }
}

/// Atoms after a text was merged in: it follows the values already there under the same vendor
/// and name.
pub open spec fn merged(atoms: Atoms, mean: Seq<char>, name: Seq<char>, content: Seq<char>) -> Atoms {
    atoms.insert((mean, name), values_at(atoms, (mean, name)).push(Some(content)))
}

/// `lofty::mp4::Ilst::insert`, of a freeform atom with one UTF-8 value: the value joins the first
/// atom of the same vendor and name, or else the atom goes to the end of the list. The other atoms
/// of the list stay as they are.
#[verifier::external_body]
fn insert_freeform(ilst: &mut lofty::mp4::Ilst, mean: String, name: String, content: String)
    ensures
        freeform_values(*final(ilst)) == merged(
            freeform_values(*old(ilst)),
            mean@,
            name@,
            content@,
        ),
        other_atoms(*final(ilst)) == other_atoms(*old(ilst)),
{
    let ident = lofty::mp4::AtomIdent::Freeform { mean: mean.into(), name: name.into() };
    ilst.insert(lofty::mp4::Atom::new(ident, lofty::mp4::AtomData::UTF8(content)));
}

/// Vorbis comments after these texts were added.
pub open spec fn vorbis_filled(items: Texts, texts: Texts) -> Texts
    decreases texts.len(),
{
    if texts.len() == 0 {
        items
    } else {
        pushed(vorbis_filled(items, texts.drop_last()), texts.last().0, texts.last().1)
    }
}

/// `TXXX` frames after these texts were added.
pub open spec fn id3_filled(frames: Texts, texts: Texts) -> Texts
    decreases texts.len(),
{
    if texts.len() == 0 {
        frames
    } else {
        replaced(id3_filled(frames, texts.drop_last()), texts.last().0, texts.last().1)
    }
}

/// MP4 atoms after these texts were added.
pub open spec fn atoms_filled(atoms: Atoms, texts: Texts) -> Atoms
    decreases texts.len(),
{
    if texts.len() == 0 {
        atoms
    } else {
        merged(
            atoms_filled(atoms, texts.drop_last()),
            VENDOR@,
            texts.last().0,
            texts.last().1,
        )
    }
}

/// Add subtitle texts to Vorbis comments; what else they hold stays.
pub fn tag_vorbis(tag: &mut lofty::ogg::VorbisComments, texts: &[(String, String)])
    ensures
        vorbis_items(*final(tag)) == vorbis_filled(
            vorbis_items(*old(tag)),
            flow::pair_views(texts@),
        ),
        vorbis_rest(*final(tag)) == vorbis_rest(*old(tag)),
{
    let ghost start = vorbis_items(*tag);
    let ghost rest = vorbis_rest(*tag);
    let ghost all = flow::pair_views(texts@);
    let mut i: usize = 0;
    assert(all.take(0) =~= seq![]);
    while i < texts.len()
        invariant
            i <= texts@.len(),
            all == flow::pair_views(texts@),
            vorbis_items(*tag) == vorbis_filled(start, all.take(i as int)),
            vorbis_rest(*tag) == rest,
        decreases texts@.len() - i,
    {
        proof {
            assert(all.take(i + 1).drop_last() =~= all.take(i as int));
            assert(all.take(i + 1).last() == (texts@[i as int].0@, texts@[i as int].1@));
        }
        tag.push(texts[i].0.clone(), texts[i].1.clone());
        i += 1;
    }
    assert(all.take(i as int) =~= all);
}

/// Add subtitle texts to an ID3v2 tag; its frames of other kinds stay.
pub fn tag_id3(tag: &mut lofty::id3::v2::Id3v2Tag, texts: &[(String, String)])
    ensures
        user_texts(*final(tag)) == id3_filled(user_texts(*old(tag)), flow::pair_views(texts@)),
        other_frames(*final(tag)) == other_frames(*old(tag)),
{
    let ghost start = user_texts(*tag);
    let ghost rest = other_frames(*tag);
    let ghost all = flow::pair_views(texts@);
    let mut i: usize = 0;
    assert(all.take(0) =~= seq![]);
    while i < texts.len()
        invariant
            i <= texts@.len(),
            all == flow::pair_views(texts@),
            user_texts(*tag) == id3_filled(start, all.take(i as int)),
            other_frames(*tag) == rest,
        decreases texts@.len() - i,
    {
        proof {
            assert(all.take(i + 1).drop_last() =~= all.take(i as int));
            assert(all.take(i + 1).last() == (texts@[i as int].0@, texts@[i as int].1@));
        }
        insert_user_text(tag, texts[i].0.clone(), texts[i].1.clone());
        i += 1;
    }
    assert(all.take(i as int) =~= all);
}

/// Add subtitle texts to an MP4 item list; its other atoms stay.
pub fn tag_ilst(ilst: &mut lofty::mp4::Ilst, texts: &[(String, String)])
    ensures
        freeform_values(*final(ilst)) == atoms_filled(
            freeform_values(*old(ilst)),
            flow::pair_views(texts@),
        ),
        other_atoms(*final(ilst)) == other_atoms(*old(ilst)),
{
    let ghost start = freeform_values(*ilst);
    let ghost rest = other_atoms(*ilst);
    let ghost all = flow::pair_views(texts@);
    let mut i: usize = 0;
    assert(all.take(0) =~= seq![]);
    while i < texts.len()
        invariant
            i <= texts@.len(),
            all == flow::pair_views(texts@),
            freeform_values(*ilst) == atoms_filled(start, all.take(i as int)),
            other_atoms(*ilst) == rest,
        decreases texts@.len() - i,
    {
        proof {
            assert(all.take(i + 1).drop_last() =~= all.take(i as int));
            assert(all.take(i + 1).last() == (texts@[i as int].0@, texts@[i as int].1@));
        }
        insert_freeform(ilst, VENDOR.to_owned(), texts[i].0.clone(), texts[i].1.clone());
        i += 1;
    }
    assert(all.take(i as int) =~= all);
}

/// Whether no two texts share a name, as the `TXXX` frames of a tag must not.
pub open spec fn distinct(texts: Texts) -> bool {
    forall|i: int, j: int|
        0 <= i < j < texts.len() ==> (#[trigger] texts[i]).0 != (#[trigger] texts[j]).0
}

proof fn lemma_place_of(texts: Texts, name: Seq<char>, i: int)
    requires
        0 <= i,
    ensures
        match place_of(texts, name, i) {
            Some(k) => i <= k < texts.len() && texts[k].0 == name,
            None => forall|j: int| i <= j < texts.len() ==> (#[trigger] texts[j]).0 != name,
        },
    decreases texts.len() - i,
{
    if i < texts.len() && texts[i].0 != name {
        lemma_place_of(texts, name, i + 1);
    }
}

/// What is put into an ID3v2 tag is read back: of texts of distinct names, each one stands under
/// its name, and the frames of other descriptions stay. Frames of distinct descriptions stay
/// distinct.
pub proof fn law_id3_texts_read_back(frames: Texts, texts: Texts)
    requires
        distinct(texts),
    ensures
        distinct(frames) ==> distinct(id3_filled(frames, texts)),
        forall|i: int|
            0 <= i < texts.len() ==> id3_filled(frames, texts).contains(#[trigger] texts[i]),
        forall|i: int|
            0 <= i < frames.len() && !named_in(texts, (#[trigger] frames[i]).0) ==> id3_filled(
                frames,
                texts,
            ).contains(frames[i]),
    decreases texts.len(),
{
    if texts.len() > 0 {
        let prior = texts.drop_last();
        let last = texts.last();
        let before = id3_filled(frames, prior);
        let after = id3_filled(frames, texts);
        assert forall|i: int, j: int| 0 <= i < j < prior.len() implies (#[trigger] prior[i]).0 != (
        #[trigger] prior[j]).0 by {
            assert(prior[i] == texts[i] && prior[j] == texts[j]);
        }
        law_id3_texts_read_back(frames, prior);
        lemma_one_text_reads_back(before, last.0, last.1);
        assert forall|i: int| 0 <= i < texts.len() implies after.contains(#[trigger] texts[i]) by {
            if i < prior.len() {
                assert(prior[i] == texts[i]);
                assert(before.contains(prior[i]));
                let k = choose|k: int| 0 <= k < before.len() && before[k] == prior[i];
                assert(texts[i].0 != texts[texts.len() - 1].0);
                assert(after.contains(before[k]));
            }
        }
        assert forall|i: int|
            0 <= i < frames.len() && !named_in(texts, (#[trigger] frames[i]).0) implies after.contains(
            frames[i],
        ) by {
            let name = frames[i].0;
            assert(texts[texts.len() - 1].0 != name);
            assert(!named_in(prior, name)) by {
                if named_in(prior, name) {
                    let j = choose|j: int| 0 <= j < prior.len() && (#[trigger] prior[j]).0 == name;
                    assert(texts[j].0 == name);
                }
            }
            assert(before.contains(frames[i]));
            let k = choose|k: int| 0 <= k < before.len() && before[k] == frames[i];
            assert(after.contains(before[k]));
        }
    }
}

/// Whether one of the texts has this name.
pub open spec fn named_in(texts: Texts, name: Seq<char>) -> bool {
    exists|i: int| 0 <= i < texts.len() && (#[trigger] texts[i]).0 == name
}

proof fn lemma_one_text_reads_back(frames: Texts, name: Seq<char>, content: Seq<char>)
    ensures
        distinct(frames) ==> distinct(replaced(frames, name, content)),
        replaced(frames, name, content).contains((name, content)),
        forall|i: int|
            0 <= i < frames.len() && (#[trigger] frames[i]).0 != name ==> replaced(
                frames,
                name,
                content,
            ).contains(frames[i]),
{
    lemma_place_of(frames, name, 0);
    let all = replaced(frames, name, content);
    assert(all.last() == (name, content));
    assert(all[all.len() - 1] == (name, content));
    match place_of(frames, name, 0) {
        Some(k) => {
            let kept = frames.remove(k);
            assert forall|j: int| distinct(frames) && 0 <= j < kept.len() implies (
            #[trigger] kept[j]).0 != name by {
                let o = if j < k {
                    j
                } else {
                    j + 1
                };
                assert(kept[j] == frames[o]);
                assert(frames[k].0 == name);
            }
            assert forall|i: int, j: int| distinct(frames) && 0 <= i < j < all.len() implies (
            #[trigger] all[i]).0 != (#[trigger] all[j]).0 by {
                let a = if i < k {
                    i
                } else {
                    i + 1
                };
                let b = if j < k {
                    j
                } else {
                    j + 1
                };
                assert(all[i] == kept[i]);
                assert(kept[i] == frames[a]);
                if j < kept.len() {
                    assert(all[j] == kept[j]);
                    assert(kept[j] == frames[b]);
                }
            }
            assert forall|i: int| 0 <= i < frames.len() && (#[trigger] frames[i]).0
                != name implies all.contains(frames[i]) by {
                let j = if i < k {
                    i
                } else {
                    i - 1
                };
                assert(all[j] == frames[i]);
            }
        },
        None => {
            assert forall|i: int| 0 <= i < frames.len() implies all.contains(
                #[trigger] frames[i],
            ) by {
                assert(all[i] == frames[i]);
            }
        },
    }
}

/// What is put into Vorbis comments under a valid key is read back, and nothing that was there is
/// lost.
pub proof fn law_vorbis_texts_read_back(items: Texts, texts: Texts)
    ensures
        vorbis_filled(items, texts) == items + texts.filter(
            |t: (Seq<char>, Seq<char>)| vorbis_key(t.0),
        ),
    decreases texts.len(),
{
    let p = |t: (Seq<char>, Seq<char>)| vorbis_key(t.0);
    reveal(Seq::filter);
    if texts.len() == 0 {
        assert(items + texts.filter(p) =~= items);
    } else {
        law_vorbis_texts_read_back(items, texts.drop_last());
        assert(vorbis_filled(items, texts) =~= items + texts.filter(p));
    }
}

/// What is put into an MP4 item list is read back: of texts of distinct names, each one follows
/// the values that were already there under its name, and the atoms of other vendors or names stay
/// as they were.
pub proof fn law_mp4_texts_read_back(atoms: Atoms, texts: Texts)
    requires
        distinct(texts),
    ensures
        forall|i: int|
            0 <= i < texts.len() ==> {
                let key = (VENDOR@, (#[trigger] texts[i]).0);
                &&& atoms_filled(atoms, texts).dom().contains(key)
                &&& atoms_filled(atoms, texts)[key] == values_at(atoms, key).push(
                    Some(texts[i].1),
                )
            },
        forall|key: (Seq<char>, Seq<char>)|
            key.0 != VENDOR@ || !named_in(texts, key.1) ==> {
                &&& #[trigger] atoms_filled(atoms, texts).dom().contains(key)
                    == atoms.dom().contains(key)
                &&& values_at(atoms_filled(atoms, texts), key) == values_at(atoms, key)
            },
    decreases texts.len(),
{
    if texts.len() > 0 {
        let prior = texts.drop_last();
        let last = texts[texts.len() - 1];
        let before = atoms_filled(atoms, prior);
        let after = atoms_filled(atoms, texts);
        assert forall|i: int, j: int| 0 <= i < j < prior.len() implies (#[trigger] prior[i]).0 != (
        #[trigger] prior[j]).0 by {
            assert(prior[i] == texts[i] && prior[j] == texts[j]);
        }
        law_mp4_texts_read_back(atoms, prior);
        assert forall|name: Seq<char>| named_in(prior, name) implies #[trigger] named_in(
            texts,
            name,
        ) by {
            let j = choose|j: int| 0 <= j < prior.len() && (#[trigger] prior[j]).0 == name;
            assert(texts[j].0 == name);
        }
        assert(!named_in(prior, last.0)) by {
            if named_in(prior, last.0) {
                let j = choose|j: int| 0 <= j < prior.len() && (#[trigger] prior[j]).0 == last.0;
                assert(texts[j].0 == last.0);
            }
        }
        let mark = (VENDOR@, last.0);
        assert(before.dom().contains(mark) == atoms.dom().contains(mark));
        assert(values_at(before, mark) == values_at(atoms, mark));
        assert forall|i: int| 0 <= i < texts.len() implies {
            let key = (VENDOR@, (#[trigger] texts[i]).0);
            &&& after.dom().contains(key)
            &&& after[key] == values_at(atoms, key).push(Some(texts[i].1))
        } by {
            if i < prior.len() {
                assert(prior[i] == texts[i]);
                assert(texts[i].0 != texts[texts.len() - 1].0);
            }
        }
        assert forall|key: (Seq<char>, Seq<char>)|
            key.0 != VENDOR@ || !named_in(texts, key.1) implies {
            &&& #[trigger] after.dom().contains(key) == atoms.dom().contains(key)
            &&& values_at(after, key) == values_at(atoms, key)
        } by {
            if key == mark {
                assert(texts[texts.len() - 1].0 == key.1);
            }
            assert(before.dom().contains(key) == atoms.dom().contains(key));
        }
    }
}

/// The audio container that a file was recognized as.
pub enum Container {
    Opus,
    Vorbis,
    Flac,
    Mpeg,
    Wav,
    Mp4,
    /// Any other one, by its name.
    Other(String),
}

/// How a container carries texts.
#[derive(Debug, PartialEq, Eq, Structural, Clone, Copy)]
pub enum TagKind {
    /// As Vorbis comments.
    Comments,
    /// As `TXXX` frames of an ID3v2 tag.
    Frames,
    /// As freeform atoms of an MP4 item list.
    Atoms,
}

/// How a container carries texts, or why no text can be written into the file.
pub open spec fn kind_of(container: Option<Container>) -> Result<TagKind, Seq<char>> {
    match container {
        None => Err("unrecognized audio container"@),
        Some(Container::Opus) => Ok(TagKind::Comments),
        Some(Container::Vorbis) => Ok(TagKind::Comments),
        Some(Container::Flac) => Ok(TagKind::Comments),
        Some(Container::Mpeg) => Ok(TagKind::Frames),
        Some(Container::Wav) => Ok(TagKind::Frames),
        Some(Container::Mp4) => Ok(TagKind::Atoms),
        Some(Container::Other(name)) => Err("unsupported audio container: "@ + name@),
    }
}

/// How a container carries texts, or why no text can be written into the file; `None` stands for a
/// container that was not recognized.
pub fn tag_kind(container: &Option<Container>) -> (r: Result<TagKind, String>)
    ensures
        match r {
            Ok(kind) => kind_of(*container) == Ok::<TagKind, Seq<char>>(kind),
            Err(why) => kind_of(*container) == Err::<TagKind, Seq<char>>(why@),
        },
{
    match container {
        None => Err("unrecognized audio container".to_owned()),
        Some(Container::Opus) => Ok(TagKind::Comments),
        Some(Container::Vorbis) => Ok(TagKind::Comments),
        Some(Container::Flac) => Ok(TagKind::Comments),
        Some(Container::Mpeg) => Ok(TagKind::Frames),
        Some(Container::Wav) => Ok(TagKind::Frames),
        Some(Container::Mp4) => Ok(TagKind::Atoms),
        Some(Container::Other(name)) => Err(
            text::cat("unsupported audio container: ", name.as_str()),
        ),
    }
}

/// Each container carries texts in its own way: opus, vorbis and flac as comments, mpeg and wav as
/// frames, mp4 as atoms; into any other nothing is written, and the reason names it.
pub proof fn law_each_container_has_its_tags(name: String)
    ensures
        kind_of(Some(Container::Opus)) == Ok::<TagKind, Seq<char>>(TagKind::Comments),
        kind_of(Some(Container::Vorbis)) == Ok::<TagKind, Seq<char>>(TagKind::Comments),
        kind_of(Some(Container::Flac)) == Ok::<TagKind, Seq<char>>(TagKind::Comments),
        kind_of(Some(Container::Mpeg)) == Ok::<TagKind, Seq<char>>(TagKind::Frames),
        kind_of(Some(Container::Wav)) == Ok::<TagKind, Seq<char>>(TagKind::Frames),
        kind_of(Some(Container::Mp4)) == Ok::<TagKind, Seq<char>>(TagKind::Atoms),
        kind_of(Some(Container::Other(name))) == Err::<TagKind, Seq<char>>(
            "unsupported audio container: "@ + name@,
        ),
        kind_of(None) == Err::<TagKind, Seq<char>>("unrecognized audio container"@),
{
}

/// The atoms that carry texts are this program's own: each text stands under its vendor name, and
/// atoms of other vendors stay.
pub proof fn law_atoms_are_this_programs_own(
    atoms: Atoms,
    text: (Seq<char>, Seq<char>),
    key: (Seq<char>, Seq<char>),
)
    ensures
        ({
            let filled = atoms_filled(atoms, seq![text]);
            let own = ("vidl"@, text.0);
            &&& filled.dom().contains(own)
            &&& filled[own] == (if atoms.dom().contains(own) {
                atoms[own]
            } else {
                seq![]
            }).push(Some(text.1))
            &&& key != own ==> (filled.dom().contains(key) <==> atoms.dom().contains(key))
                && (atoms.dom().contains(key) ==> filled[key] == atoms[key])
        }),
{
    let texts = seq![text];
    assert(texts.drop_last() =~= seq![]);
    assert(atoms_filled(atoms, texts.drop_last()) == atoms);
    assert(texts.last() == text);
}

} // verus!
