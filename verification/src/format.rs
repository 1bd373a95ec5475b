//! Telling formats apart by their leading bytes: the container of an input
//! file, and the codec of a decrypted payload.

use vstd::prelude::*;

use crate::errors::Error;
use crate::qmcdump::{key_byte, transform, KEY};

verus! {

/// How many leading bytes of a file tell its container.
pub const HEAD_SIZE: usize = 8;

/// How many leading bytes of a payload tell its codec.
pub const PAYLOAD_HEAD_SIZE: usize = 4;

/// The leading bytes of the header-tagged container.
pub const NCM_MAGIC: [u8; 8] = [0x43, 0x54, 0x45, 0x4E, 0x46, 0x44, 0x41, 0x4D];

/// The leading bytes of a raw-offset-keyed container that wraps lossless audio.
pub const QMC_FLAC_MAGIC: [u8; 4] = [0xA5, 0x06, 0xB7, 0x89];

/// The leading bytes of a raw-offset-keyed container that wraps lossy audio.
pub const QMC_MP3_MAGIC: [u8; 3] = [0x8A, 0x0E, 0xE5];

/// The leading bytes of a lossless payload.
pub const FLAC_MAGIC: [u8; 4] = [0x66, 0x4C, 0x61, 0x43];

/// The leading bytes of a lossy payload.
pub const MP3_MAGIC: [u8; 3] = [0x49, 0x44, 0x33];

/// Whether `data` begins with the bytes of `magic`.
pub open spec fn starts_with(data: Seq<u8>, magic: Seq<u8>) -> bool {
    magic.len() <= data.len() && data.subrange(0, magic.len() as int) == magic
}

/// Whether `data` begins with the bytes of `magic`.
pub fn has_prefix(data: &[u8], magic: &[u8]) -> (found: bool)
    ensures
        found == starts_with(data@, magic@),
{
    let n = magic.len();
    if data.len() < n {
        return false;
    }
    let mut i: usize = 0;
    while i < n
        invariant
            i <= n,
            n == magic@.len(),
            n <= data@.len(),
            forall|j: int| 0 <= j < i ==> data@[j] == magic@[j],
        decreases n - i,
    {
        if data[i] != magic[i] {
            assert(data@.subrange(0, n as int)[i as int] != magic@[i as int]);
            return false;
        }
        i += 1;
    }
    assert(data@.subrange(0, n as int) =~= magic@);
    true
}

/// The container of an input file.
#[derive(Clone, Copy, Debug, PartialEq, Eq, Structural)]
pub enum FileType {
    /// The header-tagged container, with embedded key and metadata blocks.
    Ncm,
    /// The raw-offset-keyed stream-cipher container.
    Qmc,
    /// Anything else.
    Other,
}

/// The codec of a decrypted payload.
#[derive(Clone, Copy, Debug, PartialEq, Eq, Structural)]
pub enum Codec {
    /// Lossless audio.
    Flac,
    /// Lossy audio.
    Mp3,
}

/// The container that the leading bytes of a file stand for. Fewer than
/// [`HEAD_SIZE`] bytes stand for none.
pub open spec fn file_type_of(head: Seq<u8>) -> FileType {
    if head.len() < HEAD_SIZE {
        FileType::Other
    } else if starts_with(head, NCM_MAGIC@) {
        FileType::Ncm
    } else if starts_with(head, QMC_FLAC_MAGIC@) || starts_with(head, QMC_MP3_MAGIC@) {
        FileType::Qmc
    } else {
        FileType::Other
    }
}

/// The codec that the leading bytes of a payload stand for, if any. Fewer than
/// [`PAYLOAD_HEAD_SIZE`] bytes stand for none.
pub open spec fn codec_of(head: Seq<u8>) -> Option<Codec> {
    if head.len() < PAYLOAD_HEAD_SIZE {
        None
    } else if starts_with(head, FLAC_MAGIC@) {
        Some(Codec::Flac)
    } else if starts_with(head, MP3_MAGIC@) {
        Some(Codec::Mp3)
    } else {
        None
    }
}

impl FileType {
    /// Tells the container of a file from the bytes read at its start.
    pub fn detect(head: &[u8]) -> (format: FileType)
        ensures
            format == file_type_of(head@),
    {
        if head.len() < HEAD_SIZE {
            FileType::Other
        } else if has_prefix(head, NCM_MAGIC.as_slice()) {
            FileType::Ncm
        } else if has_prefix(head, QMC_FLAC_MAGIC.as_slice()) || has_prefix(
            head,
            QMC_MP3_MAGIC.as_slice(),
        ) {
            FileType::Qmc
        } else {
            FileType::Other
        }
    }

    /// Whether a decoder exists for this container.
    pub fn is_supported(&self) -> (supported: bool)
        ensures
            supported == (*self != FileType::Other),
    {
        match self {
            FileType::Ncm | FileType::Qmc => true,
            FileType::Other => false,
        }
    }
}

impl Codec {
    /// The extension of a file that holds a payload of this codec.
    pub open spec fn extension_spec(self) -> Seq<char> {
        match self {
            Codec::Flac => "flac"@,
            Codec::Mp3 => "mp3"@,
        }
    }

    /// Tells the codec of a payload from the plain bytes read at its start, and
    /// refuses a payload that begins like neither.
    pub fn detect(head: &[u8]) -> (codec: Result<Codec, Error>)
        ensures
            match codec_of(head@) {
                Some(found) => codec == Ok::<Codec, Error>(found),
                None => codec == Err::<Codec, Error>(Error::Format),
            },
    {
        if head.len() < PAYLOAD_HEAD_SIZE {
            Err(Error::Format)
        } else if has_prefix(head, FLAC_MAGIC.as_slice()) {
            Ok(Codec::Flac)
        } else if has_prefix(head, MP3_MAGIC.as_slice()) {
            Ok(Codec::Mp3)
        } else {
            Err(Error::Format)
        }
    }

    /// The extension of a file that holds a payload of this codec.
    pub fn extension(&self) -> (extension: &'static str)
        ensures
            extension@ == self.extension_spec(),
    {
        match self {
            Codec::Flac => "flac",
            Codec::Mp3 => "mp3",
        }
    }
}

/// Every stream that is taken for the raw-offset-keyed container decrypts to a
/// payload of a known codec: lossless behind the one magic, lossy behind the
/// other.
pub proof fn lemma_qmc_payload_is_recognised(stream: Seq<u8>)
    requires
        file_type_of(stream) == FileType::Qmc,
    ensures
        starts_with(stream, QMC_FLAC_MAGIC@) ==> codec_of(transform(0, stream)) == Some(
            Codec::Flac,
        ),
        !starts_with(stream, QMC_FLAC_MAGIC@) ==> codec_of(transform(0, stream)) == Some(
            Codec::Mp3,
        ),
{
    let plain = transform(0, stream);
    assert(key_byte(0) == 0xC3 && key_byte(1) == 0x4A && key_byte(2) == 0xD6 && key_byte(3)
        == 0xCA) by {
        assert((0nat * 0nat + 80923) % 256 == 27);
        assert((1nat * 1nat + 80923) % 256 == 28);
        assert((2nat * 2nat + 80923) % 256 == 31);
        assert((3nat * 3nat + 80923) % 256 == 36);
        assert(KEY@[27] == 0xC3 && KEY@[28] == 0x4A && KEY@[31] == 0xD6 && KEY@[36] == 0xCA);
    }
    assert(0xA5u8 ^ 0xC3u8 == 0x66u8 && 0x06u8 ^ 0x4Au8 == 0x4Cu8 && 0xB7u8 ^ 0xD6u8 == 0x61u8
        && 0x89u8 ^ 0xCAu8 == 0x43u8) by (bit_vector);
    assert(0x8Au8 ^ 0xC3u8 == 0x49u8 && 0x0Eu8 ^ 0x4Au8 == 0x44u8 && 0xE5u8 ^ 0xD6u8 == 0x33u8)
        by (bit_vector);
    assert(plain[0] == stream[0] ^ key_byte(0));
    assert(plain[1] == stream[1] ^ key_byte(1));
    assert(plain[2] == stream[2] ^ key_byte(2));
    assert(plain[3] == stream[3] ^ key_byte(3));
    if starts_with(stream, QMC_FLAC_MAGIC@) {
        let head = stream.subrange(0, 4);
        assert(head[0] == 0xA5 && head[1] == 0x06 && head[2] == 0xB7 && head[3] == 0x89);
        assert(plain.subrange(0, 4) =~= FLAC_MAGIC@);
    } else {
        assert(starts_with(stream, QMC_MP3_MAGIC@));
        let head = stream.subrange(0, 3);
        assert(head[0] == 0x8A && head[1] == 0x0E && head[2] == 0xE5);
        assert(plain.subrange(0, 3) =~= MP3_MAGIC@);
        assert(plain.subrange(0, 4)[0] == 0x49u8);
        assert(FLAC_MAGIC@[0] == 0x66u8);
        assert(plain.subrange(0, 4) != FLAC_MAGIC@);
    }
}

} // verus!
