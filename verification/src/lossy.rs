//! Metadata in lossy audio: an ID3v2 tag at the start of the payload. Tags
//! are made and written by the `id3` crate; this module decides what goes
//! into them.

use id3::TagLike;
use vstd::multiset::Multiset;
use vstd::prelude::*;
use vstd::slice::slice_to_vec;

use crate::errors::Error;
use crate::format::{codec_of, has_prefix, starts_with, Codec, FLAC_MAGIC, MP3_MAGIC};
use crate::metadata::{
    cover_description, cover_mime, decimal, lemma_duration_is_short, outcome_of, PictureKind,
    TrackMetadata, MAX_COVER_SIZE, MAX_TEXT_SIZE,
};

verus! {

/// The ids of a tag's frames, each as often as the tag has frames of it.
pub uninterp spec fn tag_ids(tag: id3::Tag) -> Multiset<Seq<char>>;

/// For each frame id, the text that the tag gives for it: that of its first
/// frame with that id, where that frame is a text frame.
pub uninterp spec fn tag_texts(tag: id3::Tag) -> Map<Seq<char>, Seq<char>>;

/// The pictures of a tag in the order of their frames, each with its MIME
/// type, the code of its picture type, its description and its data.
pub uninterp spec fn tag_pictures(tag: id3::Tag) -> Seq<(Seq<char>, u8, Seq<char>, Seq<u8>)>;

/// The bytes that a tag is written as in ID3v2.4.
pub uninterp spec fn tag_bytes(tag: id3::Tag) -> Seq<u8>;

/// How many leading bytes of a payload the tag that it begins with takes up,
/// padding included; zero where it begins with none.
pub uninterp spec fn tag_region(payload: Seq<u8>) -> nat;

/// What writing a tag as ID3v2.4 into a payload gives: the payload with the
/// tag in it, or nothing where the tag cannot be written into that payload.
pub uninterp spec fn tag_written(tag: id3::Tag, payload: Seq<u8>) -> Option<Seq<u8>>;

/// The id of the frame that holds the title.
pub open spec fn title_id() -> Seq<char> {
    "TIT2"@
}

/// The id of the frame that holds the artist.
pub open spec fn artist_id() -> Seq<char> {
    "TPE1"@
}

/// The id of the frame that holds the album.
pub open spec fn album_id() -> Seq<char> {
    "TALB"@
}

/// The id of the frame that holds the duration.
pub open spec fn duration_id() -> Seq<char> {
    "TLEN"@
}

/// The id of a frame that holds a picture.
pub open spec fn picture_id() -> Seq<char> {
    "APIC"@
}

/// Whether `id` is the id of a frame that metadata is put into.
pub open spec fn is_metadata_id(id: Seq<char>) -> bool {
    id == title_id() || id == artist_id() || id == album_id() || id == duration_id() || id
        == picture_id()
}

/// Whether all that `after` holds under ids other than `id` is what `before`
/// held under them.
pub open spec fn others_kept(before: id3::Tag, after: id3::Tag, id: Seq<char>) -> bool {
    forall|other: Seq<char>|
        #![trigger tag_ids(after).count(other)]
        #![trigger tag_texts(after).dom().contains(other)]
        #![trigger tag_texts(after)[other]]
        other != id ==> {
            &&& tag_ids(after).count(other) == tag_ids(before).count(other)
            &&& tag_texts(after).dom().contains(other) == tag_texts(before).dom().contains(other)
            &&& tag_texts(before).dom().contains(other) ==> tag_texts(after)[other] == tag_texts(
                before,
            )[other]
        }
}

/// Whether `after` is `before` with a text frame of the id `id` put in. The
/// frame is there; frames of other ids and the pictures are as they were.
/// Where `before` had no frame of that id, `after` has one and gives `text`
/// for it.
pub open spec fn text_put(before: id3::Tag, after: id3::Tag, id: Seq<char>, text: Seq<char>) -> bool {
    &&& others_kept(before, after, id)
    &&& tag_ids(after).count(id) >= 1
    &&& tag_pictures(after) == tag_pictures(before)
    &&& tag_ids(before).count(id) == 0 ==> {
        &&& tag_ids(after).count(id) == 1
        &&& tag_texts(after).dom().contains(id)
        &&& tag_texts(after)[id] == text
    }
}

/// Whether `after` is `before` with a picture put in. A picture frame is
/// there; frames of other ids are as they were. Where `before` had no picture
/// frame, `after` has one, which gives no text, and the picture comes behind
/// the pictures that `before` had.
pub open spec fn picture_put(
    before: id3::Tag,
    after: id3::Tag,
    picture: (Seq<char>, u8, Seq<char>, Seq<u8>),
) -> bool {
    &&& others_kept(before, after, picture_id())
    &&& tag_ids(after).count(picture_id()) >= 1
    &&& tag_ids(before).count(picture_id()) == 0 ==> {
        &&& tag_ids(after).count(picture_id()) == 1
        &&& !tag_texts(after).dom().contains(picture_id())
        &&& tag_pictures(after) == tag_pictures(before).push(picture)
    }
}

/// Whether a tag holds nothing but metadata of small size: its frames have
/// the ids of metadata, each text id has one frame, a text frame of no more
/// than [`MAX_TEXT_SIZE`] characters, and the frames of the picture id are
/// pictures, at most one, with texts no longer than that and data of no more
/// than [`MAX_COVER_SIZE`] bytes. Such a tag is written in far less than the
/// 256 MiB that a tag can take.
pub open spec fn is_light(tag: id3::Tag) -> bool {
    &&& forall|id: Seq<char>| #[trigger] tag_ids(tag).count(id) > 0 ==> is_metadata_id(id)
    &&& forall|id: Seq<char>|
        id != picture_id() && #[trigger] tag_ids(tag).count(id) > 0 ==> {
            &&& tag_ids(tag).count(id) == 1
            &&& tag_texts(tag).dom().contains(id)
            &&& tag_texts(tag)[id].len() <= MAX_TEXT_SIZE
        }
    &&& tag_ids(tag).count(picture_id()) == tag_pictures(tag).len()
    &&& tag_pictures(tag).len() <= 1
    &&& forall|i: int|
        0 <= i < tag_pictures(tag).len() ==> {
            &&& (#[trigger] tag_pictures(tag)[i]).0.len() <= MAX_TEXT_SIZE
            &&& tag_pictures(tag)[i].2.len() <= MAX_TEXT_SIZE
            &&& tag_pictures(tag)[i].3.len() <= MAX_COVER_SIZE
        }
}

/// `id3::Tag::new`: the tag made has no frames, so no ids, texts or pictures.
#[verifier::external_body]
fn tag_new() -> (fresh: id3::Tag)
    ensures
        tag_ids(fresh) == Multiset::<Seq<char>>::empty(),
        tag_texts(fresh).dom() == Set::<Seq<char>>::empty(),
        tag_pictures(fresh).len() == 0,
{
    id3::Tag::new()
}

/// `id3::TagLike::set_title`: puts a text frame with the id `TIT2` and the
/// given text behind the frames of the tag, and takes out at most one frame,
/// one of the same id.
#[verifier::external_body]
fn tag_set_title(tag: &mut id3::Tag, title: &str)
    ensures
        text_put(*old(tag), *final(tag), title_id(), title@),
{
    tag.set_title(title);
}

/// `id3::TagLike::set_artist`: as `set_title`, with the id `TPE1`.
#[verifier::external_body]
fn tag_set_artist(tag: &mut id3::Tag, artist: &str)
    ensures
        text_put(*old(tag), *final(tag), artist_id(), artist@),
{
    tag.set_artist(artist);
}

/// `id3::TagLike::set_album`: as `set_title`, with the id `TALB`.
#[verifier::external_body]
fn tag_set_album(tag: &mut id3::Tag, album: &str)
    ensures
        text_put(*old(tag), *final(tag), album_id(), album@),
{
    tag.set_album(album);
}

/// `id3::TagLike::set_duration`: as `set_title`, with the id `TLEN` and the
/// number in decimal digits as the text.
#[verifier::external_body]
fn tag_set_duration(tag: &mut id3::Tag, duration: u32)
    ensures
        text_put(*old(tag), *final(tag), duration_id(), decimal(duration as nat)),
{
    tag.set_duration(duration);
}

/// `id3::TagLike::add_frame` with a picture: puts a frame with the id `APIC`
/// behind the frames of the tag, and takes out at most one frame, a picture
/// of the same kind.
#[verifier::external_body]
fn tag_add_picture(
    tag: &mut id3::Tag,
    mime_type: &str,
    kind: PictureKind,
    description: &str,
    data: Vec<u8>,
)
    ensures
        picture_put(*old(tag), *final(tag), (mime_type@, kind.code(), description@, data@)),
{
    let picture_type = match kind {
        PictureKind::CoverFront => id3::frame::PictureType::CoverFront,
        PictureKind::CoverBack => id3::frame::PictureType::CoverBack,
    };
    tag.add_frame(
        id3::frame::Picture {
            mime_type: mime_type.to_string(),
            picture_type,
            description: description.to_string(),
            data,
        },
    );
}

/// `id3::Tag::write_to_file` with the version ID3v2.4 on a payload held in
/// memory. The payload begins like lossy audio, so the crate takes it for no
/// other kind of file, into which it would write the tag in another way. The
/// tag holds nothing but metadata of small size, so each of its frames and
/// the whole of it stay far below the 256 MiB from which on the crate stops on
/// an assertion. Whether the call succeeds, and what it gives, lies with the
/// tag and the payload alone. Where it succeeds, the tag as written stands in
/// place of the tag region at the start of the payload, and what followed that
/// region follows unchanged. A tag as written begins with a header of ten
/// bytes, the first of them the magic of lossy audio.
#[verifier::external_body]
fn tag_write(tag: &id3::Tag, payload: Vec<u8>) -> (written: Option<Vec<u8>>)
    requires
        starts_with(payload@, MP3_MAGIC@),
        is_light(*tag),
    ensures
        written matches Some(bytes) ==> tag_written(*tag, payload@) == Some(bytes@),
        written is None ==> tag_written(*tag, payload@) is None,
        written matches Some(bytes) ==> {
            &&& tag_region(payload@) <= payload@.len()
            &&& bytes@ == tag_bytes(*tag) + payload@.skip(tag_region(payload@) as int)
            &&& tag_bytes(*tag).len() >= 10
            &&& starts_with(tag_bytes(*tag), MP3_MAGIC@)
        },
{
    let mut file = std::io::Cursor::new(payload);
    match tag.write_to_file(&mut file, id3::Version::Id3v24) {
        Ok(()) => Some(file.into_inner()),
        Err(_) => None,
    }
}

/// The picture that a cover image is put into a tag as.
pub open spec fn cover_picture(image: Seq<u8>) -> (Seq<char>, u8, Seq<char>, Seq<u8>) {
    (cover_mime(), PictureKind::CoverFront.code(), cover_description(), image)
}

/// Whether a tag holds the metadata and nothing else: one text frame each for
/// title, artists, album and duration, and the cover, if there is one, as its
/// one picture.
pub open spec fn holds(tag: id3::Tag, metadata: TrackMetadata) -> bool {
    &&& forall|id: Seq<char>|
        #![trigger tag_ids(tag).count(id)]
        tag_ids(tag).count(id) == if id == title_id() || id == artist_id() || id == album_id() || id
            == duration_id() || (id == picture_id() && metadata.cover is Some) {
            1nat
        } else {
            0nat
        }
    &&& tag_texts(tag) == Map::<Seq<char>, Seq<char>>::empty().insert(
        title_id(),
        metadata.title@,
    ).insert(artist_id(), metadata.artist_line()).insert(album_id(), metadata.album@).insert(
        duration_id(),
        decimal(metadata.duration_code() as nat),
    )
    &&& tag_pictures(tag) == match metadata.cover {
        Some(image) => seq![cover_picture(image@)],
        None => Seq::empty(),
    }
}

/// Whether `bytes` is `payload` with `tag`, written as ID3v2.4, in place of the
/// tag region at its start: the audio behind that region is kept byte for
/// byte, and the tag as written begins like lossy audio.
pub open spec fn tagged(bytes: Seq<u8>, tag: id3::Tag, payload: Seq<u8>) -> bool {
    &&& tag_region(payload) <= payload.len()
    &&& bytes == tag_bytes(tag) + payload.skip(
        tag_region(payload) as int,
    )
    &&& tag_bytes(tag).len() >= 10
    &&& starts_with(tag_bytes(tag), MP3_MAGIC@)
}

/// A payload with a tag put in still begins like lossy audio.
pub proof fn lemma_tagged_is_lossy(bytes: Seq<u8>, tag: id3::Tag, payload: Seq<u8>)
    requires
        tagged(bytes, tag, payload),
    ensures
        codec_of(bytes) == Some(Codec::Mp3),
{
    let head = tag_bytes(tag);
    assert(bytes.subrange(0, 3) =~= head.subrange(0, 3));
    assert(bytes.subrange(0, 4) =~= head.subrange(0, 4));
    assert(head.subrange(0, 3)[0] == 0x49u8);
    assert(head.subrange(0, 4)[0] == head[0]);
    assert(FLAC_MAGIC@[0] == 0x66u8);
}

/// Whether `bytes` is `payload` with the metadata in the tag at its start: a
/// tag that holds the metadata and nothing else stands, written as ID3v2.4,
/// in place of the tag region; the audio behind it is kept byte for byte.
pub open spec fn carries(bytes: Seq<u8>, payload: Seq<u8>, metadata: TrackMetadata) -> bool {
    exists|tag: id3::Tag| #[trigger] holds(tag, metadata) && tagged(bytes, tag, payload)
}

proof fn lemma_ids_differ()
    ensures
        title_id() != artist_id(),
        title_id() != album_id(),
        title_id() != duration_id(),
        title_id() != picture_id(),
        artist_id() != album_id(),
        artist_id() != duration_id(),
        artist_id() != picture_id(),
        album_id() != duration_id(),
        album_id() != picture_id(),
        duration_id() != picture_id(),
{
    reveal_strlit("TIT2");
    reveal_strlit("TPE1");
    reveal_strlit("TALB");
    reveal_strlit("TLEN");
    reveal_strlit("APIC");
    assert(title_id()[1] == 'I' && title_id()[0] == 'T' && title_id()[3] == '2');
    assert(artist_id()[1] == 'P' && artist_id()[0] == 'T');
    assert(album_id()[1] == 'A' && album_id()[0] == 'T');
    assert(duration_id()[1] == 'L' && duration_id()[0] == 'T');
    assert(picture_id()[0] == 'A');
}

/// Makes a tag that holds the metadata and nothing else: title, artists,
/// album and duration as text frames, and the cover, if there is one, as a
/// front-cover picture.
pub fn make_tag(metadata: &TrackMetadata) -> (tag: id3::Tag)
    ensures
        holds(tag, *metadata),
        metadata.fits_spec() ==> is_light(tag),
{
    proof {
        lemma_ids_differ();
    }
    let mut tag = tag_new();
    let ghost t0 = tag;
    tag_set_title(&mut tag, metadata.title.as_str());
    let ghost t1 = tag;
    let artist = metadata.artist();
    tag_set_artist(&mut tag, artist.as_str());
    let ghost t2 = tag;
    tag_set_album(&mut tag, metadata.album.as_str());
    let ghost t3 = tag;
    tag_set_duration(&mut tag, metadata.duration_in_tag());
    let ghost t4 = tag;
    match &metadata.cover {
        Some(image) => {
            tag_add_picture(
                &mut tag,
                "image/jpeg",
                PictureKind::CoverFront,
                "CoverFront",
                slice_to_vec(image.as_slice()),
            );
        },
        None => {},
    }
    proof {
        let cover = metadata.cover is Some;
        let texts = Map::<Seq<char>, Seq<char>>::empty().insert(
            title_id(),
            metadata.title@,
        ).insert(artist_id(), metadata.artist_line()).insert(album_id(), metadata.album@).insert(
            duration_id(),
            decimal(metadata.duration_code() as nat),
        );
        assert forall|id: Seq<char>|
            #![trigger tag_ids(tag).count(id)]
            tag_ids(tag).count(id) == (if id == title_id() || id == artist_id() || id == album_id()
                || id == duration_id() || (id == picture_id() && cover) {
                1nat
            } else {
                0nat
            }) && tag_texts(tag).dom().contains(id) == texts.dom().contains(id) && (
            texts.dom().contains(id) ==> tag_texts(tag)[id] == texts[id]) by {
            assert(tag_ids(t0).count(id) == 0);
            assert(!tag_texts(t0).dom().contains(id));
            if id != title_id() {
                assert(tag_ids(t1).count(id) == tag_ids(t0).count(id));
                assert(tag_texts(t1).dom().contains(id) == tag_texts(t0).dom().contains(id));
            }
            if id != artist_id() {
                assert(tag_ids(t2).count(id) == tag_ids(t1).count(id));
                assert(tag_texts(t2).dom().contains(id) == tag_texts(t1).dom().contains(id));
                if tag_texts(t1).dom().contains(id) {
                    assert(tag_texts(t2)[id] == tag_texts(t1)[id]);
                }
            }
            if id != album_id() {
                assert(tag_ids(t3).count(id) == tag_ids(t2).count(id));
                assert(tag_texts(t3).dom().contains(id) == tag_texts(t2).dom().contains(id));
                if tag_texts(t2).dom().contains(id) {
                    assert(tag_texts(t3)[id] == tag_texts(t2)[id]);
                }
            }
            if id != duration_id() {
                assert(tag_ids(t4).count(id) == tag_ids(t3).count(id));
                assert(tag_texts(t4).dom().contains(id) == tag_texts(t3).dom().contains(id));
                if tag_texts(t3).dom().contains(id) {
                    assert(tag_texts(t4)[id] == tag_texts(t3)[id]);
                }
            }
            if cover && id != picture_id() {
                assert(tag_ids(tag).count(id) == tag_ids(t4).count(id));
                assert(tag_texts(tag).dom().contains(id) == tag_texts(t4).dom().contains(id));
                if tag_texts(t4).dom().contains(id) {
                    assert(tag_texts(tag)[id] == tag_texts(t4)[id]);
                }
            }
        }
        assert(tag_texts(tag) =~= texts);
        assert(tag_pictures(t0) =~= Seq::empty());
        if cover {
            assert(tag_ids(t4).count(picture_id()) == 0);
            assert(tag_pictures(tag) =~= seq![cover_picture(metadata.cover->Some_0@)]);
        } else {
            assert(tag_pictures(tag) =~= Seq::empty());
        }
        if metadata.fits_spec() {
            lemma_duration_is_short(metadata.duration_code());
            reveal_strlit("image/jpeg");
            reveal_strlit("CoverFront");
        }
    }
    tag
}

/// Whether `outcome` is what putting the metadata into a payload of lossy
/// audio owes. Metadata that is too large is refused. Otherwise a tag that
/// holds the metadata and nothing else is written into the payload: where
/// that can be done, the outcome is what it gives, and the payload carries the
/// metadata; where it cannot, the metadata is refused.
pub open spec fn settles(
    payload: Seq<u8>,
    metadata: TrackMetadata,
    outcome: Result<Seq<u8>, Error>,
) -> bool {
    if !metadata.fits_spec() {
        outcome == Err::<Seq<u8>, Error>(Error::Metadata)
    } else {
        exists|tag: id3::Tag| #[trigger]
            holds(tag, metadata) && match tag_written(tag, payload) {
                Some(bytes) => outcome == Ok::<Seq<u8>, Error>(bytes) && tagged(
                    bytes,
                    tag,
                    payload,
                ),
                None => outcome == Err::<Seq<u8>, Error>(Error::Metadata),
            }
    }
}

/// What settles with bytes carries the metadata.
pub proof fn lemma_settled_carries(payload: Seq<u8>, metadata: TrackMetadata, bytes: Seq<u8>)
    requires
        settles(payload, metadata, Ok(bytes)),
    ensures
        metadata.fits_spec(),
        carries(bytes, payload, metadata),
        codec_of(bytes) == Some(Codec::Mp3),
{
    let tag = choose|tag: id3::Tag| #[trigger]
        holds(tag, metadata) && match tag_written(tag, payload) {
            Some(found) => Ok::<Seq<u8>, Error>(bytes) == Ok::<Seq<u8>, Error>(found) && tagged(
                found,
                tag,
                payload,
            ),
            None => Ok::<Seq<u8>, Error>(bytes) == Err::<Seq<u8>, Error>(Error::Metadata),
        };
    assert(holds(tag, metadata) && tagged(bytes, tag, payload));
    lemma_tagged_is_lossy(bytes, tag, payload);
}

/// Puts a track's metadata into a payload of lossy audio: a tag that holds the
/// metadata and nothing else is written as ID3v2.4 in place of the tag that
/// the payload begins with. A payload that does not begin like lossy audio is
/// refused as of the wrong format. Metadata that is too large is refused, and
/// so is metadata whose tag cannot be written into the payload, which lies
/// with the tag and the payload alone.
pub fn inject(payload: &[u8], metadata: &TrackMetadata) -> (written: Result<Vec<u8>, Error>)
    ensures
        !starts_with(payload@, MP3_MAGIC@) ==> written == Err::<Vec<u8>, Error>(Error::Format),
        starts_with(payload@, MP3_MAGIC@) ==> settles(payload@, *metadata, outcome_of(written)),
{
    if !has_prefix(payload, MP3_MAGIC.as_slice()) {
        return Err(Error::Format);
    }
    if !metadata.fits() {
        return Err(Error::Metadata);
    }
    let tag = make_tag(metadata);
    match tag_write(&tag, slice_to_vec(payload)) {
        Some(bytes) => {
            assert(holds(tag, *metadata) && tag_written(tag, payload@) == Some(bytes@) && tagged(
                bytes@,
                tag,
                payload@,
            ));
            Ok(bytes)
        },
        None => {
            assert(holds(tag, *metadata) && tag_written(tag, payload@) is None);
            Err(Error::Metadata)
        },
    }
}

} // verus!
