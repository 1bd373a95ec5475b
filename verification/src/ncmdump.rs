//! The decoder of the header-tagged container: the framing of the file, the
//! recovery of the stream key, the key schedule, and the cipher of the audio.

use aes::cipher::{BlockDecrypt, KeyInit};
use base64::Engine;
use vstd::prelude::*;

use crate::bytes::copy_range;
use crate::errors::Error;
use crate::format::{has_prefix, starts_with, NCM_MAGIC};

verus! {

/// The key under which the block that holds the stream key is encrypted.
pub const HEADER_KEY: [u8; 16] = [
    0x68, 0x7A, 0x48, 0x52, 0x41, 0x6D, 0x73, 0x6F, 0x35, 0x6B, 0x49, 0x6E, 0x62, 0x61, 0x78, 0x57,
];

/// The key under which the block that holds the metadata is encrypted.
pub const INFO_KEY: [u8; 16] = [
    0x23, 0x31, 0x34, 0x6C, 0x6A, 0x6B, 0x5F, 0x21, 0x5C, 0x5D, 0x26, 0x30, 0x55, 0x3C, 0x27, 0x28,
];

/// The mask over each byte of the key block.
pub const KEY_MASK: u8 = 0x64;

/// The mask over each byte of the metadata block.
pub const INFO_MASK: u8 = 0x63;

/// Where the key block begins: behind the magic and a gap of two bytes.
pub const KEY_BLOCK_AT: usize = 10;

/// How many bytes lie between the metadata block and the cover block: a
/// checksum of four bytes and a gap of five.
pub const COVER_GAP: usize = 9;

/// How many bytes stand before the stream key in the decrypted key block.
pub const KEY_PREFIX_SIZE: usize = 17;

/// How many bytes stand before the encoded text in the unmasked metadata
/// block.
pub const INFO_LABEL_SIZE: usize = 22;

/// How many bytes stand before the metadata in the decrypted text.
pub const INFO_PREFIX_SIZE: usize = 6;

/// The size of a block of the fixed cipher.
pub const BLOCK_SIZE: usize = 16;

/// The size of the key box.
pub const BOX_SIZE: usize = 256;

/// What the AES-128 block cipher makes of one block of sixteen bytes when it
/// decrypts it under a key of sixteen bytes.
pub uninterp spec fn aes128_decrypted(key: Seq<u8>, block: Seq<u8>) -> Seq<u8>;

/// The bytes that a text in standard base64, with padding, stands for; `None`
/// where the text is not such a text.
pub uninterp spec fn base64_decoded(text: Seq<u8>) -> Option<Seq<u8>>;

/// `aes::Aes128` made from the key by `KeyInit::new`, and
/// `BlockDecrypt::decrypt_block` on one block.
#[verifier::external_body]
fn aes128_decrypt_block(key: &[u8; 16], block: [u8; 16]) -> (plain: [u8; 16])
    ensures
        plain@ == aes128_decrypted(key@, block@),
{
    let cipher = aes::Aes128::new(&(*key).into());
    let mut block = block.into();
    cipher.decrypt_block(&mut block);
    block.into()
}

/// `base64::Engine::decode` of the engine `STANDARD`.
#[verifier::external_body]
fn base64_decode(text: &[u8]) -> (bytes: Option<Vec<u8>>)
    ensures
        bytes matches Some(decoded) ==> base64_decoded(text@) == Some(decoded@),
        bytes is None ==> base64_decoded(text@) is None,
{
    base64::engine::general_purpose::STANDARD.decode(text).ok()
}

/// The number that four bytes at `at` stand for, the lowest byte first.
pub open spec fn le32(bytes: Seq<u8>, at: int) -> nat {
    (bytes[at] + 0x100 * bytes[at + 1] + 0x1_0000 * bytes[at + 2] + 0x100_0000 * bytes[at
        + 3]) as nat
}

/// The block that begins at `at` with its length in four bytes: where its
/// content begins and how long it is, if the bytes hold all of it.
pub open spec fn block_at(bytes: Seq<u8>, at: int) -> Option<(int, int)> {
    if 0 <= at && at + 4 <= bytes.len() && at + 4 + le32(bytes, at) <= bytes.len() {
        Some((at + 4, le32(bytes, at) as int))
    } else {
        None
    }
}

/// Where the parts of a file lie.
#[derive(Clone, Copy, Debug, PartialEq, Eq, Structural)]
pub struct Layout {
    pub key_start: usize,
    pub key_len: usize,
    pub info_start: usize,
    pub info_len: usize,
    pub cover_start: usize,
    pub cover_len: usize,
    pub audio_start: usize,
}

/// Where the parts of a file lie, if it is framed as the container is: the
/// magic, a gap, the key block, the metadata block, a checksum and a gap, the
/// cover block, and the audio to the end.
pub open spec fn layout_of(bytes: Seq<u8>) -> Option<Layout> {
    if !starts_with(bytes, NCM_MAGIC@) {
        None
    } else {
        match block_at(bytes, KEY_BLOCK_AT as int) {
            None => None,
            Some((key_start, key_len)) => match block_at(bytes, key_start + key_len) {
                None => None,
                Some((info_start, info_len)) => match block_at(
                    bytes,
                    info_start + info_len + COVER_GAP,
                ) {
                    None => None,
                    Some((cover_start, cover_len)) => Some(
                        Layout {
                            key_start: key_start as usize,
                            key_len: key_len as usize,
                            info_start: info_start as usize,
                            info_len: info_len as usize,
                            cover_start: cover_start as usize,
                            cover_len: cover_len as usize,
                            audio_start: (cover_start + cover_len) as usize,
                        },
                    ),
                },
            },
        }
    }
}

fn read_block(bytes: &[u8], at: usize) -> (block: Option<(usize, usize)>)
    ensures
        block matches Some((start, len)) ==> block_at(bytes@, at as int) == Some(
            (start as int, len as int),
        ) && start + len <= bytes@.len(),
        block is None ==> block_at(bytes@, at as int) is None,
{
    let total = bytes.len();
    if at > total || total - at < 4 {
        return None;
    }
    let len: u64 = bytes[at] as u64 + 0x100 * (bytes[at + 1] as u64) + 0x1_0000 * (bytes[at
        + 2] as u64) + 0x100_0000 * (bytes[at + 3] as u64);
    if len > (total - at - 4) as u64 {
        return None;
    }
    Some((at + 4, len as usize))
}

/// Finds the parts of a file.
pub fn parse_layout(bytes: &[u8]) -> (layout: Option<Layout>)
    ensures
        layout == layout_of(bytes@),
        layout matches Some(found) ==> {
            &&& found.key_start + found.key_len <= found.info_start
            &&& found.info_start + found.info_len <= found.cover_start
            &&& found.cover_start + found.cover_len == found.audio_start
            &&& found.audio_start <= bytes@.len()
        },
{
    let total = bytes.len();
    if !has_prefix(bytes, NCM_MAGIC.as_slice()) {
        return None;
    }
    let (key_start, key_len) = match read_block(bytes, KEY_BLOCK_AT) {
        Some(block) => block,
        None => {
            return None;
        },
    };
    let (info_start, info_len) = match read_block(bytes, key_start + key_len) {
        Some(block) => block,
        None => {
            return None;
        },
    };
    let after_info = info_start + info_len;
    if total - after_info < COVER_GAP {
        return None;
    }
    let (cover_start, cover_len) = match read_block(bytes, after_info + COVER_GAP) {
        Some(block) => block,
        None => {
            return None;
        },
    };
    Some(
        Layout {
            key_start,
            key_len,
            info_start,
            info_len,
            cover_start,
            cover_len,
            audio_start: cover_start + cover_len,
        },
    )
}

/// Each byte of `data` with `mask` taken off.
pub open spec fn unmasked(data: Seq<u8>, mask: u8) -> Seq<u8> {
    Seq::new(data.len(), |i: int| data[i] ^ mask)
}

/// Takes `mask` off each byte of `data`.
pub fn unmask(data: &[u8], mask: u8) -> (plain: Vec<u8>)
    ensures
        plain@ == unmasked(data@, mask),
{
    let mut plain: Vec<u8> = Vec::new();
    let mut i: usize = 0;
    while i < data.len()
        invariant
            i <= data@.len(),
            plain@.len() == i,
            forall|j: int| 0 <= j < i ==> plain@[j] == data@[j] ^ mask,
        decreases data@.len() - i,
    {
        plain.push(data[i] ^ mask);
        i += 1;
    }
    assert(plain@ =~= unmasked(data@, mask));
    plain
}

/// What the fixed cipher makes of `data`, block by block, when it decrypts it
/// under `key`. It is meant for data of whole blocks.
pub open spec fn ecb_decrypted(key: Seq<u8>, data: Seq<u8>) -> Seq<u8> {
    Seq::new(
        data.len(),
        |i: int| aes128_decrypted(key, data.subrange(i - i % 16, i - i % 16 + 16))[i % 16],
    )
}

/// Decrypts `data` block by block under `key`. Data that is not of whole
/// blocks is refused.
pub fn ecb_decrypt(key: &[u8; 16], data: &[u8]) -> (plain: Option<Vec<u8>>)
    ensures
        data@.len() % 16 == 0 ==> (plain matches Some(text) && text@ == ecb_decrypted(
            key@,
            data@,
        )),
        data@.len() % 16 != 0 ==> plain is None,
{
    let total = data.len();
    if total % BLOCK_SIZE != 0 {
        return None;
    }
    let mut plain: Vec<u8> = Vec::new();
    let mut start: usize = 0;
    while start < total
        invariant
            start <= total,
            total == data@.len(),
            total % 16 == 0,
            start % 16 == 0,
            plain@.len() == start,
            forall|i: int|
                0 <= i < start ==> plain@[i] == #[trigger] ecb_decrypted(key@, data@)[i],
        decreases total - start,
    {
        let mut block = [0u8; 16];
        let mut j: usize = 0;
        while j < BLOCK_SIZE
            invariant
                j <= 16,
                start + 16 <= total,
                total == data@.len(),
                forall|k: int| 0 <= k < j ==> block@[k] == data@[start + k],
            decreases 16 - j,
        {
            block[j] = data[start + j];
            j += 1;
        }
        assert(block@ =~= data@.subrange(start as int, start + 16));
        let clear = aes128_decrypt_block(key, block);
        let ghost before = plain@;
        let mut k: usize = 0;
        while k < BLOCK_SIZE
            invariant
                k <= 16,
                plain@.len() == start + k,
                plain@.subrange(0, start as int) == before,
                forall|m: int| 0 <= m < k ==> plain@[start + m] == clear@[m],
            decreases 16 - k,
        {
            plain.push(clear[k]);
            k += 1;
        }
        proof {
            assert forall|i: int| 0 <= i < start + 16 implies plain@[i] == #[trigger] ecb_decrypted(
                key@,
                data@,
            )[i] by {
                if i < start {
                    assert(plain@[i] == plain@.subrange(0, start as int)[i]);
                } else {
                    assert(i - i % 16 == start);
                    assert(plain@[start + (i - start)] == clear@[i - start]);
                }
            }
        }
        start += BLOCK_SIZE;
    }
    assert(plain@ =~= ecb_decrypted(key@, data@));
    Some(plain)
}

/// Whether a text ends with padding: its last byte says how long the padding
/// is, at least one byte, at most a block and no longer than the text, and
/// each byte of the padding says the same.
pub open spec fn is_padded(text: Seq<u8>) -> bool {
    &&& text.len() > 0
    &&& 1 <= text.last() <= BLOCK_SIZE
    &&& text.last() <= text.len()
    &&& forall|i: int| text.len() - text.last() <= i < text.len() ==> text[i] == text.last()
}

/// The text without the padding at its end, if it ends with padding.
pub open spec fn unpadded(text: Seq<u8>) -> Option<Seq<u8>> {
    if is_padded(text) {
        Some(text.take(text.len() - text.last()))
    } else {
        None
    }
}

/// Takes the padding off the end of a text, and refuses a text that does not
/// end with padding.
pub fn unpad(text: Vec<u8>) -> (plain: Option<Vec<u8>>)
    ensures
        match unpadded(text@) {
            Some(rest) => plain matches Some(found) && found@ == rest,
            None => plain is None,
        },
{
    let total = text.len();
    if total == 0 {
        return None;
    }
    let last = text[total - 1];
    let padding = last as usize;
    if padding < 1 || padding > BLOCK_SIZE || padding > total {
        return None;
    }
    let mut i: usize = total - padding;
    while i < total
        invariant
            total - padding <= i <= total,
            total == text@.len(),
            last == text@.last(),
            padding == last,
            forall|j: int| total - padding <= j < i ==> text@[j] == last,
        decreases total - i,
    {
        if text[i] != last {
            return None;
        }
        i += 1;
    }
    let mut plain = text;
    plain.truncate(total - padding);
    assert(plain@ =~= text@.take(total - padding));
    Some(plain)
}

/// The stream key that a key block holds: the block is unmasked and decrypted
/// under [`HEADER_KEY`], its padding is taken off, and what stands behind the
/// first [`KEY_PREFIX_SIZE`] bytes is the key. A block that is empty or not of
/// whole cipher blocks, whose padding is off, or that leaves no byte for the
/// key, holds none.
pub open spec fn stream_key_of(block: Seq<u8>) -> Option<Seq<u8>> {
    if block.len() == 0 || block.len() % 16 != 0 {
        None
    } else {
        match unpadded(ecb_decrypted(HEADER_KEY@, unmasked(block, KEY_MASK))) {
            Some(text) => if text.len() > KEY_PREFIX_SIZE {
                Some(text.skip(KEY_PREFIX_SIZE as int))
            } else {
                None
            },
            None => None,
        }
    }
}

/// Recovers the stream key from a key block.
pub fn recover_stream_key(block: &[u8]) -> (key: Option<Vec<u8>>)
    ensures
        match stream_key_of(block@) {
            Some(found) => key matches Some(bytes) && bytes@ == found && bytes@.len() > 0,
            None => key is None,
        },
{
    if block.len() == 0 {
        return None;
    }
    let masked = unmask(block, KEY_MASK);
    let text = match ecb_decrypt(&HEADER_KEY, masked.as_slice()) {
        Some(text) => text,
        None => {
            return None;
        },
    };
    let text = match unpad(text) {
        Some(text) => text,
        None => {
            return None;
        },
    };
    if text.len() <= KEY_PREFIX_SIZE {
        return None;
    }
    let key = copy_range(text.as_slice(), KEY_PREFIX_SIZE, text.len() - KEY_PREFIX_SIZE);
    assert(key@ =~= text@.skip(KEY_PREFIX_SIZE as int));
    Some(key)
}

/// The box before the first round of the key schedule: each place holds its
/// own number.
pub open spec fn identity_box() -> Seq<u8> {
    Seq::new(BOX_SIZE as nat, |i: int| i as u8)
}

/// The box with the bytes at two places changed over.
pub open spec fn swapped(key_box: Seq<u8>, i: int, j: int) -> Seq<u8> {
    key_box.update(i, key_box[j]).update(j, key_box[i])
}

/// The box after the first `round` rounds of the key schedule, and the place
/// that the last of them changed over with. Round `i` adds up the byte at
/// place `i`, the place of the round before and the key byte in turn, and
/// changes the bytes at place `i` and at the place of that sum over.
pub open spec fn schedule_rounds(key: Seq<u8>, round: nat) -> (Seq<u8>, int)
    decreases round,
{
    if round == 0 {
        (identity_box(), 0)
    } else {
        let (key_box, last) = schedule_rounds(key, (round - 1) as nat);
        let i = round - 1;
        let place = (key_box[i] + last + key[i % (key.len() as int)]) % 256;
        (swapped(key_box, i, place), place)
    }
}

/// The key box that the key schedule makes of a stream key.
pub open spec fn key_box_of(key: Seq<u8>) -> Seq<u8> {
    schedule_rounds(key, BOX_SIZE as nat).0
}

/// Whether a box holds each byte value at exactly one place.
pub open spec fn is_permutation(key_box: Seq<u8>) -> bool {
    &&& key_box.len() == BOX_SIZE
    &&& forall|i: int, j: int| 0 <= i < j < BOX_SIZE ==> key_box[i] != key_box[j]
}

proof fn lemma_rounds_permute(key: Seq<u8>, round: nat)
    requires
        key.len() > 0,
        round <= BOX_SIZE,
    ensures
        is_permutation(schedule_rounds(key, round).0),
        0 <= schedule_rounds(key, round).1 < 256,
    decreases round,
{
    if round > 0 {
        lemma_rounds_permute(key, (round - 1) as nat);
        let (key_box, last) = schedule_rounds(key, (round - 1) as nat);
        let i = round - 1;
        let place = (key_box[i] + last + key[i % (key.len() as int)]) % 256;
        let next = swapped(key_box, i, place);
        assert forall|a: int, b: int| 0 <= a < b < BOX_SIZE implies next[a] != next[b] by {
            assert(key_box[a] != key_box[b]);
            if a != i && a != place {
                assert(next[a] == key_box[a]);
            }
            if b != i && b != place {
                assert(next[b] == key_box[b]);
            }
            if i < place {
                assert(key_box[i] != key_box[place]);
            }
            if place < i {
                assert(key_box[place] != key_box[i]);
            }
        }
    }
}

/// The key schedule changes bytes over and nothing else: the box that it makes
/// holds each byte value at exactly one place.
pub proof fn lemma_key_box_is_permutation(key: Seq<u8>)
    requires
        key.len() > 0,
    ensures
        is_permutation(key_box_of(key)),
{
    lemma_rounds_permute(key, BOX_SIZE as nat);
}

/// The keystream byte at an absolute offset in the audio.
pub open spec fn stream_byte(key_box: Seq<u8>, offset: nat) -> u8 {
    let j = ((offset + 1) % 256) as int;
    key_box[(key_box[j] + key_box[(key_box[j] + j) % 256]) % 256]
}

/// The cipher applied to `data` whose first byte stands at absolute offset
/// `offset` in the audio.
pub open spec fn decoded(key_box: Seq<u8>, offset: nat, data: Seq<u8>) -> Seq<u8> {
    Seq::new(data.len(), |i: int| data[i] ^ stream_byte(key_box, offset + i as nat))
}

/// Applying the cipher twice at the same offset gives the input back.
pub proof fn lemma_decoded_involution(key_box: Seq<u8>, offset: nat, data: Seq<u8>)
    ensures
        decoded(key_box, offset, decoded(key_box, offset, data)) == data,
{
    let twice = decoded(key_box, offset, decoded(key_box, offset, data));
    assert forall|i: int| 0 <= i < data.len() implies twice[i] == data[i] by {
        let b = data[i];
        let k = stream_byte(key_box, offset + i as nat);
        assert((b ^ k) ^ k == b) by (bit_vector);
    }
    assert(twice =~= data);
}

/// The cipher may be applied piecewise: a prefix at `offset` and the rest at
/// the offset where the prefix ends give what one application to the whole
/// gives.
pub proof fn lemma_decoded_split(key_box: Seq<u8>, offset: nat, data: Seq<u8>, k: int)
    requires
        0 <= k <= data.len(),
    ensures
        decoded(key_box, offset, data.subrange(0, k)) + decoded(
            key_box,
            offset + k as nat,
            data.subrange(k, data.len() as int),
        ) == decoded(key_box, offset, data),
{
    let whole = decoded(key_box, offset, data);
    let parts = decoded(key_box, offset, data.subrange(0, k)) + decoded(
        key_box,
        offset + k as nat,
        data.subrange(k, data.len() as int),
    );
    assert forall|i: int| 0 <= i < data.len() implies parts[i] == whole[i] by {
        if i >= k {
            assert(offset + k as nat + (i - k) as nat == offset + i as nat);
        }
    }
    assert(parts =~= whole);
}

/// The keystream comes round after as many bytes as the box has places.
pub proof fn lemma_stream_byte_period(key_box: Seq<u8>, offset: nat)
    ensures
        stream_byte(key_box, offset + BOX_SIZE as nat) == stream_byte(key_box, offset),
{
    assert((offset + 256 + 1) % 256 == (offset + 1) % 256);
}

/// The key box of one file, made once from its stream key and never changed.
pub struct KeySchedule {
    key_box: Vec<u8>,
}

impl KeySchedule {
    #[verifier::type_invariant]
    spec fn well_formed(self) -> bool {
        self.key_box@.len() == BOX_SIZE
    }

    /// The key box.
    pub closed spec fn view(&self) -> Seq<u8> {
        self.key_box@
    }

    /// Makes the key box of a stream key; of an empty key none can be made.
    pub fn new(key: &[u8]) -> (schedule: Option<KeySchedule>)
        ensures
            key@.len() == 0 ==> schedule is None,
            key@.len() > 0 ==> (schedule matches Some(made) && made@ == key_box_of(key@)
                && is_permutation(made@)),
    {
        if key.len() == 0 {
            return None;
        }
        let mut key_box: Vec<u8> = Vec::new();
        let mut n: usize = 0;
        while n < BOX_SIZE
            invariant
                n <= 256,
                key_box@.len() == n,
                forall|j: int| 0 <= j < n ==> key_box@[j] == j as u8,
            decreases 256 - n,
        {
            key_box.push(n as u8);
            n += 1;
        }
        assert(key_box@ =~= identity_box());
        let mut last: usize = 0;
        let mut i: usize = 0;
        while i < BOX_SIZE
            invariant
                i <= 256,
                key@.len() > 0,
                key_box@.len() == 256,
                last < 256,
                (key_box@, last as int) == schedule_rounds(key@, i as nat),
            decreases 256 - i,
        {
            let here = key_box[i];
            let place = (here as usize + last + key[i % key.len()] as usize) % BOX_SIZE;
            let there = key_box[place];
            key_box[i] = there;
            key_box[place] = here;
            last = place;
            i += 1;
            proof {
                let (before, _) = schedule_rounds(key@, (i - 1) as nat);
                assert(key_box@ =~= swapped(before, i - 1, place as int));
            }
        }
        proof {
            lemma_key_box_is_permutation(key@);
        }
        Some(KeySchedule { key_box })
    }

    /// The key box, place by place.
    pub fn key_box(&self) -> (key_box: &[u8])
        ensures
            key_box@ == self@,
            key_box@.len() == BOX_SIZE,
    {
        proof {
            use_type_invariant(self);
        }
        self.key_box.as_slice()
    }

    /// The keystream byte at an absolute offset in the audio.
    pub fn key_byte(&self, offset: u64) -> (key: u8)
        ensures
            key == stream_byte(self@, offset as nat),
    {
        self.byte_at(offset as u128)
    }

    fn byte_at(&self, offset: u128) -> (key: u8)
        ensures
            key == stream_byte(self@, offset as nat),
    {
        proof {
            use_type_invariant(self);
        }
        let j: usize = ((offset % 256 + 1) % 256) as usize;
        assert(j == (offset as nat + 1) % 256);
        let first = self.key_box[j] as usize;
        let second = self.key_box[(first + j) % BOX_SIZE] as usize;
        self.key_box[(first + second) % BOX_SIZE]
    }

    /// Applies the cipher in place to `buffer`, whose first byte stands at
    /// `offset` in the audio.
    pub fn decode(&self, offset: u64, buffer: &mut [u8])
        ensures
            final(buffer)@ == decoded(self@, offset as nat, old(buffer)@),
    {
        let n = buffer.len();
        let mut i: usize = 0;
        while i < n
            invariant
                i <= n,
                n == buffer@.len(),
                buffer@.len() == old(buffer)@.len(),
                forall|j: int|
                    0 <= j < i ==> buffer@[j] == old(buffer)@[j] ^ stream_byte(
                        self@,
                        offset as nat + j as nat,
                    ),
                forall|j: int| i <= j < n ==> buffer@[j] == old(buffer)@[j],
            decreases n - i,
        {
            let key = self.byte_at(offset as u128 + i as u128);
            let byte = buffer[i];
            buffer[i] = byte ^ key;
            i += 1;
        }
        assert(buffer@ =~= decoded(self@, offset as nat, old(buffer)@));
    }
}

/// The metadata text that a metadata block holds: the block is unmasked, what
/// stands behind its first [`INFO_LABEL_SIZE`] bytes is decoded from base64
/// and decrypted under [`INFO_KEY`], the padding is taken off, and what
/// stands behind the first [`INFO_PREFIX_SIZE`] bytes is the text. A block
/// on which one of these steps fails holds none.
pub open spec fn info_of(block: Seq<u8>) -> Option<Seq<u8>> {
    if block.len() <= INFO_LABEL_SIZE {
        None
    } else {
        match base64_decoded(unmasked(block, INFO_MASK).skip(INFO_LABEL_SIZE as int)) {
            None => None,
            Some(cipher) => if cipher.len() == 0 || cipher.len() % 16 != 0 {
                None
            } else {
                match unpadded(ecb_decrypted(INFO_KEY@, cipher)) {
                    None => None,
                    Some(text) => if text.len() < INFO_PREFIX_SIZE {
                        None
                    } else {
                        Some(text.skip(INFO_PREFIX_SIZE as int))
                    },
                }
            },
        }
    }
}

/// Recovers the metadata text from a metadata block.
pub fn recover_info(block: &[u8]) -> (info: Option<Vec<u8>>)
    ensures
        match info_of(block@) {
            Some(found) => info matches Some(text) && text@ == found,
            None => info is None,
        },
{
    if block.len() <= INFO_LABEL_SIZE {
        return None;
    }
    let masked = unmask(block, INFO_MASK);
    let encoded = copy_range(masked.as_slice(), INFO_LABEL_SIZE, masked.len() - INFO_LABEL_SIZE);
    assert(encoded@ =~= unmasked(block@, INFO_MASK).skip(INFO_LABEL_SIZE as int));
    let cipher = match base64_decode(encoded.as_slice()) {
        Some(cipher) => cipher,
        None => {
            return None;
        },
    };
    if cipher.len() == 0 {
        return None;
    }
    let text = match ecb_decrypt(&INFO_KEY, cipher.as_slice()) {
        Some(text) => text,
        None => {
            return None;
        },
    };
    let text = match unpad(text) {
        Some(text) => text,
        None => {
            return None;
        },
    };
    if text.len() < INFO_PREFIX_SIZE {
        return None;
    }
    let info = copy_range(text.as_slice(), INFO_PREFIX_SIZE, text.len() - INFO_PREFIX_SIZE);
    assert(info@ =~= text@.skip(INFO_PREFIX_SIZE as int));
    Some(info)
}

/// What a file of the container holds: the key box made of its stream key, its
/// metadata text if it can be recovered, its cover image, empty where it has
/// none, and its encrypted audio.
pub struct NcmParts {
    pub key_box: Seq<u8>,
    pub info: Option<Seq<u8>>,
    pub cover: Seq<u8>,
    pub audio: Seq<u8>,
}

/// What a file holds, if it is framed as the container is and its key block
/// holds a stream key.
pub open spec fn parts_of(bytes: Seq<u8>) -> Option<NcmParts> {
    match layout_of(bytes) {
        None => None,
        Some(layout) => match stream_key_of(
            bytes.subrange(layout.key_start as int, layout.key_start + layout.key_len),
        ) {
            None => None,
            Some(key) => Some(
                NcmParts {
                    key_box: key_box_of(key),
                    info: info_of(
                        bytes.subrange(
                            layout.info_start as int,
                            layout.info_start + layout.info_len,
                        ),
                    ),
                    cover: bytes.subrange(
                        layout.cover_start as int,
                        layout.cover_start + layout.cover_len,
                    ),
                    audio: bytes.skip(layout.audio_start as int),
                },
            ),
        },
    }
}

/// A reader over a file of the container held in memory, which hands out the
/// plain audio, the metadata text and the cover image.
pub struct NcmDump {
    schedule: KeySchedule,
    info: Option<Vec<u8>>,
    cover: Vec<u8>,
    audio: Vec<u8>,
    cursor: u64,
}

impl NcmDump {
    /// What the file holds.
    pub closed spec fn parts(&self) -> NcmParts {
        NcmParts {
            key_box: self.schedule@,
            info: match self.info {
                Some(text) => Some(text@),
                None => None,
            },
            cover: self.cover@,
            audio: self.audio@,
        }
    }

    /// The absolute offset in the audio of the next byte to be read.
    pub closed spec fn position(&self) -> nat {
        self.cursor as nat
    }

    /// The encrypted audio from the cursor to its end.
    pub open spec fn pending(&self) -> Seq<u8> {
        if self.position() <= self.parts().audio.len() {
            self.parts().audio.skip(self.position() as int)
        } else {
            Seq::empty()
        }
    }

    /// Takes a file apart, with the cursor at the start of its audio. A file
    /// that is not framed as the container is, or whose key block holds no
    /// stream key, is refused as of the wrong format. Metadata that cannot be
    /// recovered is left out and does not stand in the way of the audio.
    pub fn from_reader(reader: Vec<u8>) -> (dump: Result<Self, Error>)
        ensures
            match parts_of(reader@) {
                Some(parts) => dump matches Ok(found) && found.parts() == parts
                    && found.position() == 0,
                None => dump matches Err(error) && error == Error::Format,
            },
    {
        let bytes = reader.as_slice();
        let layout = match parse_layout(bytes) {
            Some(layout) => layout,
            None => {
                return Err(Error::Format);
            },
        };
        let key_block = copy_range(bytes, layout.key_start, layout.key_len);
        let key = match recover_stream_key(key_block.as_slice()) {
            Some(key) => key,
            None => {
                return Err(Error::Format);
            },
        };
        let schedule = match KeySchedule::new(key.as_slice()) {
            Some(schedule) => schedule,
            None => {
                return Err(Error::Format);
            },
        };
        let info_block = copy_range(bytes, layout.info_start, layout.info_len);
        let info = recover_info(info_block.as_slice());
        let cover = copy_range(bytes, layout.cover_start, layout.cover_len);
        let audio = copy_range(bytes, layout.audio_start, bytes.len() - layout.audio_start);
        assert(audio@ =~= reader@.skip(layout.audio_start as int));
        Ok(NcmDump { schedule, info, cover, audio, cursor: 0 })
    }

    /// The metadata text of the file. Where none could be recovered, this
    /// fails, and the audio can be had all the same.
    pub fn get_info(&self) -> (info: Result<Vec<u8>, Error>)
        ensures
            match self.parts().info {
                Some(text) => info matches Ok(found) && found@ == text,
                None => info matches Err(error) && error == Error::Metadata,
            },
    {
        match &self.info {
            Some(text) => Ok(copy_range(text.as_slice(), 0, text.len())),
            None => Err(Error::Metadata),
        }
    }

    /// The cover image of the file, if it has one.
    pub fn get_image(&self) -> (image: Option<Vec<u8>>)
        ensures
            match image {
                Some(found) => found@ == self.parts().cover && found@.len() > 0,
                None => self.parts().cover.len() == 0,
            },
    {
        if self.cover.len() == 0 {
            None
        } else {
            Some(copy_range(self.cover.as_slice(), 0, self.cover.len()))
        }
    }

    /// Reads into `buf` as many bytes of audio as it holds, or as are left,
    /// puts them in plain text, and moves the cursor past them. The keystream
    /// starts at the cursor as it stood before the read; the bytes of `buf`
    /// behind those read are left as they were.
    pub fn read(&mut self, buf: &mut [u8]) -> (size: Result<usize, Error>)
        ensures
            final(self).parts() == old(self).parts(),
            size is Ok,
            size->Ok_0 as nat == if old(buf)@.len() <= old(self).pending().len() {
                old(buf)@.len()
            } else {
                old(self).pending().len()
            },
            final(self).position() == old(self).position() + size->Ok_0,
            final(buf)@ == decoded(
                old(self).parts().key_box,
                old(self).position(),
                old(self).pending().take(size->Ok_0 as int),
            ) + old(buf)@.skip(size->Ok_0 as int),
    {
        let len = self.audio.len();
        let start: usize = if self.cursor >= len as u64 {
            len
        } else {
            self.cursor as usize
        };
        let left = len - start;
        let size = if buf.len() <= left {
            buf.len()
        } else {
            left
        };
        let ghost chunk = old(self).pending().take(size as int);
        let mut i: usize = 0;
        while i < size
            invariant
                i <= size,
                size <= buf@.len(),
                buf@.len() == old(buf)@.len(),
                start + size <= len,
                len == self.audio@.len(),
                *self == *old(self),
                size > 0 ==> start == self.cursor,
                forall|j: int|
                    0 <= j < i ==> buf@[j] == self.audio@[start + j] ^ stream_byte(
                        self.schedule@,
                        self.cursor as nat + j as nat,
                    ),
                forall|j: int| i <= j < buf@.len() ==> buf@[j] == old(buf)@[j],
            decreases size - i,
        {
            let key = self.schedule.byte_at(self.cursor as u128 + i as u128);
            buf[i] = self.audio[start + i] ^ key;
            i += 1;
        }
        assert(buf@ =~= decoded(old(self).parts().key_box, old(self).position(), chunk) + old(
            buf,
        )@.skip(size as int));
        if size > 0 {
            self.cursor = self.cursor + size as u64;
        }
        Ok(size)
    }

    /// Reads the audio from the cursor to its end and gives the plain text.
    pub fn get_data(&mut self) -> (data: Result<Vec<u8>, Error>)
        ensures
            final(self).parts() == old(self).parts(),
            final(self).position() == old(self).position() + old(self).pending().len(),
            data is Ok,
            data->Ok_0@ == decoded(
                old(self).parts().key_box,
                old(self).position(),
                old(self).pending(),
            ),
    {
        let len = self.audio.len();
        let start: usize = if self.cursor >= len as u64 {
            len
        } else {
            self.cursor as usize
        };
        let mut output = copy_range(self.audio.as_slice(), start, len - start);
        assert(output@ =~= old(self).pending());
        self.schedule.decode(self.cursor, output.as_mut_slice());
        if len > start {
            self.cursor = self.cursor + (len - start) as u64;
        }
        Ok(output)
    }
}

} // verus!
