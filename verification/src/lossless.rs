//! Metadata in lossless audio: the metadata blocks between the magic and the
//! audio. This module walks the blocks of a payload, decides which of them
//! stay, and puts new blocks with the metadata behind them; the new blocks are
//! made and written by the `metaflac` crate.

use vstd::prelude::*;

use crate::bytes::copy_range;
use crate::errors::Error;
use crate::format::{codec_of, has_prefix, starts_with, Codec, FLAC_MAGIC};
use crate::metadata::{
    cover_mime, decimal, decimal_text, lemma_duration_is_short, outcome_of, PictureKind,
    TrackMetadata,
};

verus! {

/// The most bytes of texts and data that a tag may hold to be written: far
/// less than the numbers in which lengths are written can take.
pub const MAX_TAG_WEIGHT: usize = 0x800_0000;

/// The size of the header of a metadata block: a byte with the kind of the
/// block and the flag of the last block, and the length of its content in
/// three bytes.
pub const BLOCK_HEADER_SIZE: usize = 4;

/// The least header byte of a block that is flagged as the last.
pub const LAST_FLAG: u8 = 0x80;

/// The kind of a block that holds comments.
pub const COMMENT_BLOCK: u8 = 4;

/// The kind of a block that holds a picture.
pub const PICTURE_BLOCK: u8 = 6;

/// The comments of a tag: for each key the values under it, as the first
/// comment block of the tag holds them; none where the tag has no such block.
pub uninterp spec fn flac_comments(tag: metaflac::Tag) -> Map<Seq<char>, Seq<Seq<char>>>;

/// The pictures of a tag in the order of their blocks, each with its MIME
/// type, the code of its picture type and its data.
pub uninterp spec fn flac_pictures(tag: metaflac::Tag) -> Seq<(Seq<char>, u8, Seq<u8>)>;

/// The ways in which a tag may be written: the magic, and then its blocks in
/// their order, the last of them flagged as the last. A tag has more than one
/// such way where it holds more than one comment, since the order in which
/// the comments of a block are written is not settled.
pub uninterp spec fn flac_writings(tag: metaflac::Tag) -> Set<Seq<u8>>;

/// The kinds of the blocks of a tag, in the order in which the tag holds
/// them, each by what the crate holds the block as: 0 for stream information,
/// 1 for padding, 2 for an application's block, 3 for a seek table, 4 for
/// comments, 5 for a cue sheet, 6 for a picture, and 127 for a block that the
/// crate holds as bytes of a kind unknown to it.
pub uninterp spec fn flac_kinds(tag: metaflac::Tag) -> Seq<u8>;

/// How many bytes the texts and the data in the blocks of a tag take up, all
/// blocks together.
pub uninterp spec fn flac_weight(tag: metaflac::Tag) -> nat;

/// The key of the comment that holds the title.
pub open spec fn title_key() -> Seq<char> {
    "TITLE"@
}

/// The key of the comment that holds the artist.
pub open spec fn artist_key() -> Seq<char> {
    "ARTIST"@
}

/// The key of the comment that holds the album.
pub open spec fn album_key() -> Seq<char> {
    "ALBUM"@
}

/// The key of the comment that holds the duration.
pub open spec fn length_key() -> Seq<char> {
    "LENGTH"@
}

/// Whether a key is made of capital letters only.
pub open spec fn is_capital(key: Seq<char>) -> bool {
    forall|i: int| 0 <= i < key.len() ==> 'A' <= #[trigger] key[i] <= 'Z'
}

/// The pictures with those of one kind taken out and a new one of that kind
/// put behind the rest.
pub open spec fn with_picture(
    pictures: Seq<(Seq<char>, u8, Seq<u8>)>,
    picture: (Seq<char>, u8, Seq<u8>),
) -> Seq<(Seq<char>, u8, Seq<u8>)> {
    pictures.filter(|other: (Seq<char>, u8, Seq<u8>)| other.1 != picture.1).push(picture)
}

/// The kinds of a tag's blocks once the tag has a block of comments: as they
/// are, if one is among them, else with one behind them.
pub open spec fn with_comments(kinds: Seq<u8>) -> Seq<u8> {
    if kinds.contains(COMMENT_BLOCK) {
        kinds
    } else {
        kinds.push(COMMENT_BLOCK)
    }
}

/// Whether a tag holds nothing but metadata of small size: one block of
/// comments, with one value under each of the keys of metadata and no other
/// key, at most one picture behind it, and no more than [`MAX_TAG_WEIGHT`]
/// bytes of texts and data in all. Such a tag has no block whose writing can
/// stop on an assertion, and no count or length in it runs over.
pub open spec fn is_plain(tag: metaflac::Tag) -> bool {
    &&& flac_kinds(tag) == seq![COMMENT_BLOCK] || flac_kinds(tag) == seq![
        COMMENT_BLOCK,
        PICTURE_BLOCK,
    ]
    &&& flac_weight(tag) <= MAX_TAG_WEIGHT
    &&& forall|key: Seq<char>| #[trigger]
        flac_comments(tag).dom().contains(key) ==> {
            &&& key == title_key() || key == artist_key() || key == album_key() || key
                == length_key()
            &&& flac_comments(tag)[key].len() == 1
        }
}

/// `metaflac::Tag::new`: the tag made has no blocks, so no comments and no
/// pictures.
#[verifier::external_body]
fn flac_new() -> (fresh: metaflac::Tag)
    ensures
        flac_kinds(fresh).len() == 0,
        flac_weight(fresh) == 0,
        flac_comments(fresh).dom() == Set::<Seq<char>>::empty(),
        flac_pictures(fresh).len() == 0,
{
    metaflac::Tag::new()
}

/// `metaflac::Tag::set_vorbis` with one value: the value is put under the key,
/// written in capital letters, in the first comment block of the tag, which
/// is made behind the other blocks if the tag has none; what stood under the
/// key is taken out. The tag grows by no more than the key and the value, of
/// which each character takes at most four bytes.
#[verifier::external_body]
fn flac_set(tag: &mut metaflac::Tag, key: &str, value: &str)
    requires
        is_capital(key@),
    ensures
        flac_comments(*final(tag)) == flac_comments(*old(tag)).insert(key@, seq![value@]),
        flac_pictures(*final(tag)) == flac_pictures(*old(tag)),
        flac_kinds(*final(tag)) == with_comments(flac_kinds(*old(tag))),
        flac_weight(*final(tag)) <= flac_weight(*old(tag)) + 4 * (key@.len() + value@.len()),
{
    tag.set_vorbis(key, vec![value]);
}

/// `metaflac::Tag::add_picture`: all pictures of the kind are taken out, and a
/// picture block of that kind with the MIME type and the data is put behind
/// the blocks of the tag. Where the tag had no picture, no block is taken out.
/// The tag grows by no more than the MIME type, of which each character takes
/// at most four bytes, and the data.
#[verifier::external_body]
fn flac_add_picture(tag: &mut metaflac::Tag, mime_type: &str, kind: PictureKind, data: Vec<u8>)
    ensures
        flac_pictures(*final(tag)) == with_picture(
            flac_pictures(*old(tag)),
            (mime_type@, kind.code(), data@),
        ),
        flac_comments(*final(tag)) == flac_comments(*old(tag)),
        flac_pictures(*old(tag)).len() == 0 ==> flac_kinds(*final(tag)) == flac_kinds(
            *old(tag),
        ).push(PICTURE_BLOCK),
        flac_weight(*final(tag)) <= flac_weight(*old(tag)) + 4 * mime_type@.len() + data@.len(),
{
    let picture_type = match kind {
        PictureKind::CoverFront => metaflac::block::PictureType::CoverFront,
        PictureKind::CoverBack => metaflac::block::PictureType::CoverBack,
    };
    tag.add_picture(mime_type, picture_type, data);
}

/// `metaflac::Tag::write_to` into memory, with a tag that holds nothing but
/// metadata of small size. Writing into memory cannot fail. What is written
/// is one of the ways in which the tag may be written, and begins with the
/// magic of lossless audio.
#[verifier::external_body]
fn flac_write(tag: metaflac::Tag) -> (written: Vec<u8>)
    requires
        is_plain(tag),
    ensures
        flac_writings(tag).contains(written@),
        starts_with(written@, FLAC_MAGIC@),
{
    let mut tag = tag;
    let mut written = Vec::new();
    let _ = tag.write_to(&mut written);
    written
}

/// The length of the content of the block whose header begins at `at`.
pub open spec fn block_len(bytes: Seq<u8>, at: int) -> int {
    bytes[at + 1] * 0x1_0000 + bytes[at + 2] * 0x100 + bytes[at + 3]
}

/// Whether the bytes hold all of the block whose header begins at `at`.
pub open spec fn block_fits(bytes: Seq<u8>, at: int) -> bool {
    0 <= at && at + BLOCK_HEADER_SIZE + block_len(bytes, at) <= bytes.len()
}

/// Whether the block at `at` is flagged as the last.
pub open spec fn is_last(bytes: Seq<u8>, at: int) -> bool {
    bytes[at] >= LAST_FLAG
}

/// The kind of the block at `at`: its first byte without the flag.
pub open spec fn block_kind(bytes: Seq<u8>, at: int) -> u8 {
    (bytes[at] % 0x80) as u8
}

/// Where the block behind the block at `at` begins.
pub open spec fn next_block(bytes: Seq<u8>, at: int) -> int {
    at + BLOCK_HEADER_SIZE + block_len(bytes, at)
}

/// Where the blocks that begin at `at` end, and with them the metadata: behind
/// the first block that is flagged as the last. They end nowhere if the bytes
/// run out before.
pub open spec fn blocks_end(bytes: Seq<u8>, at: int) -> Option<int>
    decreases bytes.len() - at,
{
    if !block_fits(bytes, at) {
        None
    } else if is_last(bytes, at) {
        Some(next_block(bytes, at))
    } else {
        blocks_end(bytes, next_block(bytes, at))
    }
}

/// Whether the block at `at` holds a picture of the front cover.
pub open spec fn is_front_cover(bytes: Seq<u8>, at: int) -> bool {
    &&& block_kind(bytes, at) == PICTURE_BLOCK
    &&& block_len(bytes, at) >= 4
    &&& bytes[at + 4] == 0
    &&& bytes[at + 5] == 0
    &&& bytes[at + 6] == 0
    &&& bytes[at + 7] == PictureKind::CoverFront.code()
}

/// Whether the block at `at` gives way to the new blocks: a block of
/// comments always does, a picture of the front cover does where a new cover
/// comes.
pub open spec fn gives_way(bytes: Seq<u8>, at: int, cover: bool) -> bool {
    block_kind(bytes, at) == COMMENT_BLOCK || (cover && is_front_cover(bytes, at))
}

/// What stays of the block at `at`: nothing if it gives way, else all of it,
/// without the flag of the last block.
pub open spec fn kept_block(bytes: Seq<u8>, at: int, cover: bool) -> Seq<u8> {
    if gives_way(bytes, at, cover) {
        Seq::empty()
    } else {
        seq![block_kind(bytes, at)] + bytes.subrange(at + 1, next_block(bytes, at))
    }
}

/// What stays of the blocks that begin at `at`.
pub open spec fn kept_blocks(bytes: Seq<u8>, at: int, cover: bool) -> Seq<u8>
    decreases bytes.len() - at,
{
    if !block_fits(bytes, at) {
        Seq::empty()
    } else if is_last(bytes, at) {
        kept_block(bytes, at, cover)
    } else {
        kept_block(bytes, at, cover) + kept_blocks(bytes, next_block(bytes, at), cover)
    }
}

/// Walks the blocks of a payload from `BLOCK_HEADER_SIZE` on, where they
/// begin behind the magic, and gives what stays of them and where they end; or
/// nothing, if the payload runs out before a block is flagged as the last.
pub fn keep_blocks(payload: &[u8], cover: bool) -> (kept: Option<(Vec<u8>, usize)>)
    ensures
        match blocks_end(payload@, BLOCK_HEADER_SIZE as int) {
            Some(end) => kept matches Some((blocks, found)) && found == end && end
                <= payload@.len() && blocks@ == kept_blocks(
                payload@,
                BLOCK_HEADER_SIZE as int,
                cover,
            ),
            None => kept is None,
        },
{
    let total = payload.len();
    let mut blocks: Vec<u8> = Vec::new();
    let mut at: usize = BLOCK_HEADER_SIZE;
    loop
        invariant
            total == payload@.len(),
            BLOCK_HEADER_SIZE <= at,
            blocks_end(payload@, at as int) == blocks_end(payload@, BLOCK_HEADER_SIZE as int),
            blocks@ + kept_blocks(payload@, at as int, cover) == kept_blocks(
                payload@,
                BLOCK_HEADER_SIZE as int,
                cover,
            ),
        decreases total - at,
    {
        if at > total || total - at < BLOCK_HEADER_SIZE {
            return None;
        }
        let len: usize = payload[at + 1] as usize * 0x1_0000 + payload[at + 2] as usize * 0x100
            + payload[at + 3] as usize;
        if len > total - at - BLOCK_HEADER_SIZE {
            return None;
        }
        let head = payload[at];
        let last = head >= LAST_FLAG;
        let kind = head % 0x80;
        let next = at + BLOCK_HEADER_SIZE + len;
        let front_cover = kind == PICTURE_BLOCK && len >= 4 && payload[at + 4] == 0 && payload[at
            + 5] == 0 && payload[at + 6] == 0 && payload[at + 7] == 3;
        let ghost before = blocks@;
        if !(kind == COMMENT_BLOCK || (cover && front_cover)) {
            blocks.push(kind);
            let mut rest = copy_range(payload, at + 1, next - at - 1);
            blocks.append(&mut rest);
        }
        assert(blocks@ =~= before + kept_block(payload@, at as int, cover));
        if last {
            assert(blocks@ =~= kept_blocks(payload@, BLOCK_HEADER_SIZE as int, cover));
            return Some((blocks, next));
        }
        assert(blocks@ + kept_blocks(payload@, next as int, cover) =~= before + kept_blocks(
            payload@,
            at as int,
            cover,
        ));
        at = next;
    }
}

/// The picture that a cover image is put into a tag as.
pub open spec fn cover_picture(image: Seq<u8>) -> (Seq<char>, u8, Seq<u8>) {
    (cover_mime(), PictureKind::CoverFront.code(), image)
}

/// The comments with the metadata put in: title, artists, album and duration
/// each as the one value under their key.
pub open spec fn with_metadata(
    comments: Map<Seq<char>, Seq<Seq<char>>>,
    metadata: TrackMetadata,
) -> Map<Seq<char>, Seq<Seq<char>>> {
    comments.insert(title_key(), seq![metadata.title@]).insert(
        artist_key(),
        seq![metadata.artist_line()],
    ).insert(album_key(), seq![metadata.album@]).insert(
        length_key(),
        seq![decimal(metadata.duration_code() as nat)],
    )
}

/// The most bytes by which a tag grows when the metadata is put in: four for
/// each character of the keys, the texts and the MIME type, and the bytes of
/// the cover.
pub open spec fn added_weight(metadata: TrackMetadata) -> nat {
    4 * (title_key().len() + metadata.title@.len()) + 4 * (artist_key().len()
        + metadata.artist_line().len()) + 4 * (album_key().len() + metadata.album@.len()) + 4 * (
    length_key().len() + decimal(metadata.duration_code() as nat).len()) + match metadata.cover {
        Some(image) => 4 * cover_mime().len() + image@.len(),
        None => 0,
    }
}

/// Whether `after` is `before` with the metadata put in: title, artists, album
/// and duration each stand as the one value under their key, the other
/// comments are as they were, and a cover stands as the one front-cover
/// picture, behind the other pictures. The tag has a block of comments, and
/// where it had no picture, the cover is its last block. The tag has grown
/// by no more than the metadata.
pub open spec fn filled(before: metaflac::Tag, after: metaflac::Tag, metadata: TrackMetadata) -> bool {
    &&& flac_comments(after) == with_metadata(flac_comments(before), metadata)
    &&& flac_pictures(after) == match metadata.cover {
        Some(image) => with_picture(flac_pictures(before), cover_picture(image@)),
        None => flac_pictures(before),
    }
    &&& metadata.cover is None ==> flac_kinds(after) == with_comments(flac_kinds(before))
    &&& metadata.cover is Some && flac_pictures(before).len() == 0 ==> flac_kinds(after)
        == with_comments(flac_kinds(before)).push(PICTURE_BLOCK)
    &&& flac_weight(after) <= flac_weight(before) + added_weight(metadata)
}

/// Whether a tag holds the metadata and nothing else: title, artists, album
/// and duration as its comments, one value each, and the cover, if there is
/// one, as its one picture.
pub open spec fn holds(tag: metaflac::Tag, metadata: TrackMetadata) -> bool {
    &&& flac_comments(tag) == with_metadata(Map::empty(), metadata)
    &&& flac_pictures(tag) == match metadata.cover {
        Some(image) => seq![cover_picture(image@)],
        None => Seq::empty(),
    }
    &&& flac_kinds(tag) == match metadata.cover {
        Some(image) => seq![COMMENT_BLOCK, PICTURE_BLOCK],
        None => seq![COMMENT_BLOCK],
    }
}

proof fn lemma_comments_come_once(kinds: Seq<u8>)
    ensures
        with_comments(kinds).contains(COMMENT_BLOCK),
        with_comments(with_comments(kinds)) == with_comments(kinds),
{
    if !kinds.contains(COMMENT_BLOCK) {
        assert(kinds.push(COMMENT_BLOCK)[kinds.len() as int] == COMMENT_BLOCK);
    }
}

proof fn lemma_keys_are_capital()
    ensures
        is_capital(title_key()),
        is_capital(artist_key()),
        is_capital(album_key()),
        is_capital(length_key()),
{
    reveal_strlit("TITLE");
    reveal_strlit("ARTIST");
    reveal_strlit("ALBUM");
    reveal_strlit("LENGTH");
}

/// Puts the metadata into a tag: title, artists, album and duration as
/// comments, and the cover, if there is one, as the front-cover picture.
pub fn fill_tag(tag: &mut metaflac::Tag, metadata: &TrackMetadata)
    ensures
        filled(*old(tag), *final(tag), *metadata),
{
    proof {
        lemma_keys_are_capital();
    }
    flac_set(tag, "TITLE", metadata.title.as_str());
    let artist = metadata.artist();
    flac_set(tag, "ARTIST", artist.as_str());
    flac_set(tag, "ALBUM", metadata.album.as_str());
    let length = decimal_text(metadata.duration_in_tag());
    flac_set(tag, "LENGTH", length.as_str());
    proof {
        lemma_comments_come_once(flac_kinds(*old(tag)));
    }
    match &metadata.cover {
        Some(image) => {
            let data = vstd::slice::slice_to_vec(image.as_slice());
            flac_add_picture(tag, "image/jpeg", PictureKind::CoverFront, data);
        },
        None => {},
    }
}

/// Makes a tag that holds the metadata and nothing else.
pub fn make_tag(metadata: &TrackMetadata) -> (tag: metaflac::Tag)
    ensures
        holds(tag, *metadata),
        metadata.fits_spec() ==> is_plain(tag),
{
    let mut tag = flac_new();
    let ghost fresh = tag;
    fill_tag(&mut tag, metadata);
    proof {
        assert(flac_comments(fresh) =~= Map::<Seq<char>, Seq<Seq<char>>>::empty());
        assert(flac_pictures(fresh) =~= Seq::empty());
        assert(flac_kinds(fresh) =~= Seq::empty());
        assert(with_comments(flac_kinds(fresh)) =~= seq![COMMENT_BLOCK]);
        if metadata.cover is Some {
            let image = metadata.cover->Some_0@;
            let kept = flac_pictures(fresh).filter(
                |other: (Seq<char>, u8, Seq<u8>)| other.1 != cover_picture(image).1,
            );
            assert(kept =~= Seq::empty());
            assert(flac_pictures(tag) =~= seq![cover_picture(image)]);
            assert(flac_kinds(tag) =~= seq![COMMENT_BLOCK, PICTURE_BLOCK]);
        }
        if metadata.fits_spec() {
            lemma_duration_is_short(metadata.duration_code());
            reveal_strlit("image/jpeg");
            reveal_strlit("TITLE");
            reveal_strlit("ARTIST");
            reveal_strlit("ALBUM");
            reveal_strlit("LENGTH");
            assert(added_weight(*metadata) <= MAX_TAG_WEIGHT);
        }
    }
    tag
}

/// The payload with new blocks: the magic, what stays of the blocks of the
/// payload, the new blocks as they were written behind a magic of their own,
/// and the audio of the payload.
pub open spec fn spliced(payload: Seq<u8>, cover: bool, written: Seq<u8>) -> Seq<u8> {
    FLAC_MAGIC@ + kept_blocks(payload, BLOCK_HEADER_SIZE as int, cover) + written.skip(
        BLOCK_HEADER_SIZE as int,
    ) + payload.skip(blocks_end(payload, BLOCK_HEADER_SIZE as int).unwrap())
}

/// Puts new blocks, as they were written behind a magic of their own, between
/// the blocks of a payload and its audio. Of the old blocks those of comments
/// give way, and with a new cover the pictures of the front cover; the others
/// stay in their order, none of them flagged as the last. The audio is kept
/// byte for byte. Where what was written does not begin with the magic, or
/// the blocks of the payload do not end, the metadata cannot be put in.
pub fn splice(payload: &[u8], cover: bool, written: Vec<u8>) -> (bytes: Result<Vec<u8>, Error>)
    ensures
        if starts_with(written@, FLAC_MAGIC@) && blocks_end(payload@, BLOCK_HEADER_SIZE as int)
            is Some {
            bytes matches Ok(found) && found@ == spliced(payload@, cover, written@)
        } else {
            bytes == Err::<Vec<u8>, Error>(Error::Metadata)
        },
{
    if !has_prefix(written.as_slice(), FLAC_MAGIC.as_slice()) {
        return Err(Error::Metadata);
    }
    let (kept, end) = match keep_blocks(payload, cover) {
        Some(found) => found,
        None => {
            return Err(Error::Metadata);
        },
    };
    let mut bytes = copy_range(FLAC_MAGIC.as_slice(), 0, BLOCK_HEADER_SIZE);
    assert(bytes@ =~= FLAC_MAGIC@);
    let mut kept = kept;
    bytes.append(&mut kept);
    let mut fresh = copy_range(
        written.as_slice(),
        BLOCK_HEADER_SIZE,
        written.len() - BLOCK_HEADER_SIZE,
    );
    assert(fresh@ =~= written@.skip(BLOCK_HEADER_SIZE as int));
    bytes.append(&mut fresh);
    let mut audio = copy_range(payload, end, payload.len() - end);
    assert(audio@ =~= payload@.skip(end as int));
    bytes.append(&mut audio);
    Ok(bytes)
}

/// A payload with new blocks put in still begins like lossless audio.
pub proof fn lemma_spliced_is_lossless(payload: Seq<u8>, cover: bool, written: Seq<u8>)
    ensures
        codec_of(spliced(payload, cover, written)) == Some(Codec::Flac),
{
    let bytes = spliced(payload, cover, written);
    assert(bytes.subrange(0, 4) =~= FLAC_MAGIC@);
}

/// Whether `bytes` is `payload` with the metadata in new blocks: a tag that
/// holds the metadata and nothing else was written in one of its ways, and
/// its blocks stand between what stays of the blocks of the payload and the
/// audio.
pub open spec fn carries(bytes: Seq<u8>, payload: Seq<u8>, metadata: TrackMetadata) -> bool {
    exists|tag: metaflac::Tag, written: Seq<u8>|
        #![trigger holds(tag, metadata), starts_with(written, FLAC_MAGIC@)]
        holds(tag, metadata) && flac_writings(tag).contains(written) && starts_with(
            written,
            FLAC_MAGIC@,
        ) && bytes == spliced(payload, metadata.cover is Some, written)
}

/// A payload with the metadata in new blocks still begins like lossless
/// audio.
pub proof fn lemma_carrying_is_lossless(bytes: Seq<u8>, payload: Seq<u8>, metadata: TrackMetadata)
    requires
        carries(bytes, payload, metadata),
    ensures
        codec_of(bytes) == Some(Codec::Flac),
{
    let (tag, written) = choose|tag: metaflac::Tag, written: Seq<u8>|
        #![trigger holds(tag, metadata), starts_with(written, FLAC_MAGIC@)]
        holds(tag, metadata) && flac_writings(tag).contains(written) && starts_with(
            written,
            FLAC_MAGIC@,
        ) && bytes == spliced(payload, metadata.cover is Some, written);
    lemma_spliced_is_lossless(payload, metadata.cover is Some, written);
}

/// Whether the metadata can go into a payload of lossless audio: the blocks
/// of the payload end, and the metadata is small enough.
pub open spec fn takes(payload: Seq<u8>, metadata: TrackMetadata) -> bool {
    &&& blocks_end(payload, BLOCK_HEADER_SIZE as int) is Some
    &&& metadata.fits_spec()
}

/// Whether `outcome` is what putting the metadata into a payload of lossless
/// audio owes: where the payload takes the metadata, bytes that carry it, and
/// else its refusal.
pub open spec fn settles(
    payload: Seq<u8>,
    metadata: TrackMetadata,
    outcome: Result<Seq<u8>, Error>,
) -> bool {
    if takes(payload, metadata) {
        outcome matches Ok(bytes) && carries(bytes, payload, metadata)
    } else {
        outcome == Err::<Seq<u8>, Error>(Error::Metadata)
    }
}

/// Puts a track's metadata into a payload of lossless audio: new blocks with
/// the title, the artists, the album, the duration and the cover are made and
/// put between the blocks of the payload and its audio. A payload that does
/// not begin like lossless audio is refused as of the wrong format. The
/// metadata is put in wherever the blocks of the payload end and the metadata
/// is small enough, and refused elsewhere.
pub fn inject(payload: &[u8], metadata: &TrackMetadata) -> (written: Result<Vec<u8>, Error>)
    ensures
        !starts_with(payload@, FLAC_MAGIC@) ==> written == Err::<Vec<u8>, Error>(Error::Format),
        starts_with(payload@, FLAC_MAGIC@) ==> settles(payload@, *metadata, outcome_of(written)),
{
    if !has_prefix(payload, FLAC_MAGIC.as_slice()) {
        return Err(Error::Format);
    }
    if !metadata.fits() {
        return Err(Error::Metadata);
    }
    let cover = metadata.cover.is_some();
    let tag = make_tag(metadata);
    let blocks = flac_write(tag);
    let bytes = splice(payload, cover, blocks);
    proof {
        if bytes is Ok {
            assert(holds(tag, *metadata) && starts_with(blocks@, FLAC_MAGIC@));
        }
    }
    bytes
}

} // verus!
