//! Subtitle texts in the tags of audio files.

use lofty::id3::v2::Id3v2Tag;
use lofty::mp4::{Atom, AtomData, AtomIdent, Ilst};
use lofty::ogg::VorbisComments;
use lofty::tag::{Accessor, TagExt};
use vidl::media::tags::{tag_id3, tag_ilst, tag_kind, tag_vorbis, Container, TagKind};

fn pairs(items: &[(&str, &str)]) -> Vec<(String, String)> {
    items.iter().map(|(name, text)| (name.to_string(), text.to_string())).collect()
}

#[test]
fn vorbis_comments_take_each_text_and_keep_what_is_there() {
    let mut tag = VorbisComments::default();
    tag.push("TITLE".to_string(), "A song".to_string());
    tag_vorbis(
        &mut tag,
        &pairs(&[("subtitles_en", "WEBVTT a"), ("subtitles_en", "WEBVTT b"), ("bad=key", "x"), ("", "y"), ("\u{e4}", "z")]),
    );
    let items: Vec<(&str, &str)> = tag.items().collect();
    assert_eq!(
        items,
        [("TITLE", "A song"), ("subtitles_en", "WEBVTT a"), ("subtitles_en", "WEBVTT b")],
        "both texts stay, and keys that the format does not accept add nothing"
    );
}

#[test]
fn id3_frames_are_replaced_by_their_description() {
    let mut tag = Id3v2Tag::new();
    let _ = tag.insert_user_text("other".to_string(), "kept".to_string());
    tag_id3(&mut tag, &pairs(&[("subtitles_en", "old"), ("subtitles_ko", "ko"), ("subtitles_en", "new")]));
    assert_eq!(tag.get_user_text("other"), Some("kept"));
    assert_eq!(tag.get_user_text("subtitles_ko"), Some("ko"));
    assert_eq!(tag.get_user_text("subtitles_en"), Some("new"));
    assert_eq!(tag.len(), 3, "a description stands once");
}

#[test]
fn mp4_atoms_collect_their_texts_under_the_vendor() {
    let mut ilst = Ilst::new();
    tag_ilst(&mut ilst, &pairs(&[("subtitles_en", "a"), ("subtitles_ko", "k"), ("subtitles_en", "b")]));
    let texts = |name: &str| -> Vec<String> {
        let ident = AtomIdent::Freeform { mean: "vidl".into(), name: name.to_string().into() };
        ilst.get(&ident)
            .map(|atom| {
                atom.data()
                    .map(|data| match data {
                        AtomData::UTF8(text) => text.clone(),
                        _ => panic!("only texts were put in"),
                    })
                    .collect()
            })
            .unwrap_or_default()
    };
    assert_eq!(texts("subtitles_en"), ["a", "b"]);
    assert_eq!(texts("subtitles_ko"), ["k"]);
    assert!(texts("subtitles_iw").is_empty());
}

#[test]
fn what_a_tag_already_holds_stays() {
    let texts = pairs(&[("subtitles_en", "WEBVTT")]);

    let mut comments = VorbisComments::default();
    comments.set_vendor("someone".to_string());
    tag_vorbis(&mut comments, &texts);
    assert_eq!(comments.vendor(), "someone");

    let mut id3 = Id3v2Tag::new();
    id3.set_title("A song".to_string());
    tag_id3(&mut id3, &texts);
    assert_eq!(id3.title().as_deref(), Some("A song"));
    assert_eq!(id3.get_user_text("subtitles_en"), Some("WEBVTT"));

    let mut ilst = Ilst::new();
    ilst.set_title("A song".to_string());
    let other = AtomIdent::Freeform { mean: "other".into(), name: "subtitles_en".into() };
    ilst.insert(Atom::new(other.clone(), AtomData::UTF8("kept".to_string())));
    tag_ilst(&mut ilst, &texts);
    assert_eq!(ilst.title().as_deref(), Some("A song"));
    assert_eq!(ilst.get(&other).map(|atom| atom.data().count()), Some(1));
    assert_eq!(ilst.len(), 3);
}

#[test]
fn a_container_takes_its_kind_of_tag_or_is_refused() {
    let kind = |container: Container| tag_kind(&Some(container));
    assert_eq!(kind(Container::Opus), Ok(TagKind::Comments));
    assert_eq!(kind(Container::Vorbis), Ok(TagKind::Comments));
    assert_eq!(kind(Container::Flac), Ok(TagKind::Comments));
    assert_eq!(kind(Container::Mpeg), Ok(TagKind::Frames));
    assert_eq!(kind(Container::Wav), Ok(TagKind::Frames));
    assert_eq!(kind(Container::Mp4), Ok(TagKind::Atoms));
    assert_eq!(
        kind(Container::Other("Ape".to_string())),
        Err("unsupported audio container: Ape".to_string())
    );
    assert_eq!(tag_kind(&None), Err("unrecognized audio container".to_string()));
}
