//! A track's metadata, and putting it into the decrypted payload: as a tag
//! in lossy audio, as metadata blocks in lossless audio.

use vstd::prelude::*;
use vstd::string::{StrSliceExecFns, StringExecFns};

use crate::errors::Error;
use crate::format::{codec_of, Codec};

verus! {

/// The longest text, in characters, that is put into a tag. Four such texts
/// fit into a block whose length is written in three bytes, and a tag of them
/// and a cover stays far below the size at which a tag can no longer be
/// written.
pub const MAX_TEXT_SIZE: usize = 0x8_0000;

/// The largest cover, in bytes, that is put into a tag: with what stands
/// around it, it must fit into a block whose length is written in three
/// bytes.
pub const MAX_COVER_SIZE: usize = 0xFF_FF00;

/// The decimal digit `d` as a character.
pub open spec fn digit(d: nat) -> char {
    (48 + d) as char
}

/// A number written in decimal digits.
pub open spec fn decimal(n: nat) -> Seq<char>
    decreases n,
{
    if n < 10 {
        seq![digit(n)]
    } else {
        decimal(n / 10).push(digit(n % 10))
    }
}

/// Ten to the power of `k`.
pub open spec fn ten_to(k: nat) -> nat
    decreases k,
{
    if k == 0 {
        1
    } else {
        10 * ten_to((k - 1) as nat)
    }
}

/// A number below ten to the power of `k` is written in at most `k` digits.
pub proof fn lemma_decimal_len(n: nat, k: nat)
    requires
        k >= 1,
        n < ten_to(k),
    ensures
        1 <= decimal(n).len() <= k,
    decreases k,
{
    if n >= 10 {
        assert(ten_to(1) == 10) by {
            reveal_with_fuel(ten_to, 2);
        }
        assert(k >= 2);
        lemma_decimal_len(n / 10, (k - 1) as nat);
    }
}

/// A duration as a tag holds it is written in at most ten digits.
pub proof fn lemma_duration_is_short(code: u32)
    ensures
        1 <= decimal(code as nat).len() <= 10,
{
    assert(ten_to(10) == 10_000_000_000) by {
        reveal_with_fuel(ten_to, 11);
    }
    lemma_decimal_len(code as nat, 10);
}

fn digit_text(d: u32) -> (text: &'static str)
    requires
        d < 10,
    ensures
        text@ == seq![digit(d as nat)],
{
    proof {
        reveal_strlit("0");
        reveal_strlit("1");
        reveal_strlit("2");
        reveal_strlit("3");
        reveal_strlit("4");
        reveal_strlit("5");
        reveal_strlit("6");
        reveal_strlit("7");
        reveal_strlit("8");
        reveal_strlit("9");
    }
    let text = match d {
        0 => "0",
        1 => "1",
        2 => "2",
        3 => "3",
        4 => "4",
        5 => "5",
        6 => "6",
        7 => "7",
        8 => "8",
        _ => "9",
    };
    assert(text@ =~= seq![digit(d as nat)]);
    text
}

/// Writes a number in decimal digits.
pub fn decimal_text(n: u32) -> (text: String)
    ensures
        text@ == decimal(n as nat),
    decreases n,
{
    if n < 10 {
        String::from_str(digit_text(n))
    } else {
        let mut text = decimal_text(n / 10);
        text.append(digit_text(n % 10));
        assert(text@ =~= decimal((n / 10) as nat).push(digit((n % 10) as nat)));
        text
    }
}

/// Names put one after another with a comma between each two.
pub open spec fn joined(names: Seq<Seq<char>>) -> Seq<char>
    decreases names.len(),
{
    if names.len() == 0 {
        Seq::empty()
    } else if names.len() == 1 {
        names[0]
    } else {
        joined(names.drop_last()) + seq![','] + names.last()
    }
}

/// What a picture in a tag shows.
#[derive(Clone, Copy, Debug, PartialEq, Eq, Structural)]
pub enum PictureKind {
    /// The front cover.
    CoverFront,
    /// The back cover.
    CoverBack,
}

impl PictureKind {
    /// The code that stands for the kind in a picture frame.
    pub open spec fn code(self) -> u8 {
        match self {
            PictureKind::CoverFront => 3,
            PictureKind::CoverBack => 4,
        }
    }
}

/// What is known of a track: its title, its artists by name and id, its album,
/// its duration, and its cover image if it has one.
#[derive(Clone, Debug, PartialEq, Eq)]
pub struct TrackMetadata {
    pub title: String,
    pub artists: Vec<(String, u64)>,
    pub album: String,
    pub duration: u64,
    pub cover: Option<Vec<u8>>,
}

/// The MIME type under which a cover is put in.
pub open spec fn cover_mime() -> Seq<char> {
    "image/jpeg"@
}

/// The description under which a cover is put into a tag.
pub open spec fn cover_description() -> Seq<char> {
    "CoverFront"@
}

/// The artists as they were read, each with its name and its id, with the id
/// zero where none was read.
pub open spec fn read_artists(artists: Seq<(String, Option<u64>)>) -> Seq<(Seq<char>, u64)> {
    Seq::new(
        artists.len(),
        |i: int|
            (
                artists[i].0@,
                match artists[i].1 {
                    Some(id) => id,
                    None => 0,
                },
            ),
    )
}

impl TrackMetadata {
    /// The artists, each with its name and its id.
    pub open spec fn artist_pairs(self) -> Seq<(Seq<char>, u64)> {
        Seq::new(self.artists@.len(), |i: int| (self.artists@[i].0@, self.artists@[i].1))
    }

    /// The metadata of a track from what could be read of it. A track whose
    /// title could not be read has no metadata. An album that could not be
    /// read is empty, and a duration or an artist's id that could not be read
    /// is zero.
    pub fn from_parts(
        title: Option<String>,
        artists: Vec<(String, Option<u64>)>,
        album: Option<String>,
        duration: Option<u64>,
        cover: Option<Vec<u8>>,
    ) -> (metadata: Option<TrackMetadata>)
        ensures
            title is None ==> metadata is None,
            title matches Some(given) ==> {
                &&& metadata matches Some(made)
                &&& made.title@ == given@
                &&& made.artist_pairs() == read_artists(artists@)
                &&& made.album@ == match album {
                    Some(name) => name@,
                    None => Seq::empty(),
                }
                &&& made.duration == match duration {
                    Some(length) => length,
                    None => 0,
                }
                &&& made.cover == cover
            },
    {
        let title = match title {
            Some(title) => title,
            None => {
                return None;
            },
        };
        let mut pairs: Vec<(String, u64)> = Vec::new();
        let mut i: usize = 0;
        while i < artists.len()
            invariant
                i <= artists@.len(),
                pairs@.len() == i,
                forall|j: int|
                    0 <= j < i ==> (#[trigger] pairs@[j]).0@ == artists@[j].0@ && pairs@[j].1
                        == read_artists(artists@)[j].1,
            decreases artists@.len() - i,
        {
            let id = match artists[i].1 {
                Some(id) => id,
                None => 0,
            };
            pairs.push((artists[i].0.clone(), id));
            i += 1;
        }
        let album = match album {
            Some(album) => album,
            None => String::new(),
        };
        let duration = match duration {
            Some(duration) => duration,
            None => 0,
        };
        let made = TrackMetadata { title, artists: pairs, album, duration, cover };
        assert(made.artist_pairs() =~= read_artists(artists@));
        Some(made)
    }

    /// The names of the artists, in their order.
    pub open spec fn artist_names(self) -> Seq<Seq<char>> {
        Seq::new(self.artists@.len(), |i: int| self.artists@[i].0@)
    }

    /// The artists as one text: their names with commas between them.
    pub open spec fn artist_line(self) -> Seq<char> {
        joined(self.artist_names())
    }

    /// The duration as a tag holds it: cut to its low 32 bits.
    pub open spec fn duration_code(self) -> u32 {
        (self.duration % 0x1_0000_0000) as u32
    }

    /// Whether the metadata is small enough to be put into a tag: no text is
    /// longer than [`MAX_TEXT_SIZE`], and the cover is no larger than
    /// [`MAX_COVER_SIZE`].
    pub open spec fn fits_spec(self) -> bool {
        &&& self.title@.len() <= MAX_TEXT_SIZE
        &&& self.artist_line().len() <= MAX_TEXT_SIZE
        &&& self.album@.len() <= MAX_TEXT_SIZE
        &&& self.cover matches Some(image) ==> image@.len() <= MAX_COVER_SIZE
    }

    /// Whether the metadata is small enough to be put into a tag.
    pub fn fits(&self) -> (fits: bool)
        ensures
            fits == self.fits_spec(),
    {
        let cover = match &self.cover {
            Some(image) => image.len() <= MAX_COVER_SIZE,
            None => true,
        };
        cover && self.title.as_str().unicode_len() <= MAX_TEXT_SIZE
            && self.artist().as_str().unicode_len() <= MAX_TEXT_SIZE
            && self.album.as_str().unicode_len() <= MAX_TEXT_SIZE
    }

    /// The artists as one text: their names with commas between them.
    pub fn artist(&self) -> (line: String)
        ensures
            line@ == self.artist_line(),
    {
        let ghost names = self.artist_names();
        let mut line = String::new();
        let mut i: usize = 0;
        while i < self.artists.len()
            invariant
                i <= self.artists@.len(),
                names == self.artist_names(),
                line@ == joined(names.take(i as int)),
            decreases self.artists@.len() - i,
        {
            if i > 0 {
                line.append(",");
            }
            line.append(self.artists[i].0.as_str());
            proof {
                reveal_strlit(",");
                assert(","@ =~= seq![',']);
                let now = names.take(i + 1);
                assert(now.drop_last() =~= names.take(i as int));
                assert(now.last() == names[i as int]);
                if i == 0 {
                    assert(line@ =~= names[0]);
                }
            }
            i += 1;
        }
        assert(names.take(i as int) =~= names);
        line
    }

    /// The duration as a tag holds it: cut to its low 32 bits.
    pub fn duration_in_tag(&self) -> (code: u32)
        ensures
            code == self.duration_code(),
    {
        let duration = self.duration;
        assert(duration as u32 == (duration % 0x1_0000_0000) as u32) by (bit_vector);
        #[verifier::truncate]
        (duration as u32)
    }
}

/// What came of putting metadata in, with the bytes as a plain value.
pub open spec fn outcome_of(written: Result<Vec<u8>, Error>) -> Result<Seq<u8>, Error> {
    match written {
        Ok(bytes) => Ok(bytes@),
        Err(error) => Err(error),
    }
}

/// Whether `outcome` is what putting the metadata into a payload owes: for a
/// payload of no known codec the refusal of its format, and else what the
/// codec of the payload asks for.
pub open spec fn settles(
    payload: Seq<u8>,
    metadata: TrackMetadata,
    outcome: Result<Seq<u8>, Error>,
) -> bool {
    match codec_of(payload) {
        None => outcome == Err::<Seq<u8>, Error>(Error::Format),
        Some(Codec::Mp3) => crate::lossy::settles(payload, metadata, outcome),
        Some(Codec::Flac) => crate::lossless::settles(payload, metadata, outcome),
    }
}

/// Whatever is put in, the payload stays of its codec.
pub proof fn lemma_settled_keeps_codec(payload: Seq<u8>, metadata: TrackMetadata, bytes: Seq<u8>)
    requires
        settles(payload, metadata, Ok(bytes)),
    ensures
        codec_of(bytes) == codec_of(payload),
{
    match codec_of(payload) {
        None => {},
        Some(Codec::Mp3) => {
            crate::lossy::lemma_settled_carries(payload, metadata, bytes);
        },
        Some(Codec::Flac) => {
            crate::lossless::lemma_carrying_is_lossless(bytes, payload, metadata);
        },
    }
}

/// Puts a track's metadata into its payload: into the tag at the start of
/// lossy audio, into the metadata blocks at the start of lossless audio. The
/// audio itself is kept byte for byte. A payload of no known codec is refused
/// as of the wrong format. Lossless audio takes the metadata wherever its
/// blocks end and the metadata is small enough; lossy audio takes it
/// wherever the metadata is small enough and the tag can be written into the
/// payload. Elsewhere the metadata is refused.
pub fn inject_metadata(payload: &[u8], metadata: &TrackMetadata) -> (written: Result<
    Vec<u8>,
    Error,
>)
    ensures
        settles(payload@, *metadata, outcome_of(written)),
        written matches Ok(bytes) ==> codec_of(bytes@) == codec_of(payload@),
        written matches Err(error) ==> error == Error::Format || error == Error::Metadata,
{
    let written = match Codec::detect(payload) {
        Err(error) => Err(Error::Format),
        Ok(Codec::Mp3) => crate::lossy::inject(payload, metadata),
        Ok(Codec::Flac) => crate::lossless::inject(payload, metadata),
    };
    proof {
        if written is Ok {
            lemma_settled_keeps_codec(payload@, *metadata, written->Ok_0@);
        }
        if written is Err && codec_of(payload@) == Some(Codec::Mp3) && metadata.fits_spec() {
            assert(written->Err_0 == Error::Metadata);
        }
    }
    written
}

/// What is written for a payload, and why its metadata was left out, if it
/// was. Without metadata the payload goes through unchanged. With metadata it
/// goes through with the metadata in it wherever that is owed; where the
/// metadata is refused, the payload goes through unchanged all the same, and
/// the reason comes with it.
pub fn finish_payload(payload: Vec<u8>, metadata: Option<&TrackMetadata>) -> (finished: (
    Vec<u8>,
    Option<Error>,
))
    ensures
        codec_of(finished.0@) == codec_of(payload@),
        metadata is None ==> finished.0@ == payload@ && finished.1 is None,
        finished.1 is Some ==> finished.0@ == payload@,
        metadata matches Some(given) ==> settles(
            payload@,
            *given,
            match finished.1 {
                None => Ok(finished.0@),
                Some(error) => Err(error),
            },
        ),
{
    match metadata {
        None => (payload, None),
        Some(metadata) => match inject_metadata(payload.as_slice(), metadata) {
            Ok(bytes) => (bytes, None),
            Err(error) => (payload, Some(error)),
        },
    }
}

} // verus!
