//! The substitution-stream cipher of the raw-offset-keyed container.

use vstd::prelude::*;

use crate::errors::Error;

verus! {

/// The pre-shared substitution table of the cipher.
pub const KEY: [u8; 256] = [
    0x77, 0x48, 0x32, 0x73, 0xDE, 0xF2, 0xC0, 0xC8, 0x95, 0xEC, 0x30, 0xB2, 0x51, 0xC3, 0xE1, 0xA0,
    0x9E, 0xE6, 0x9D, 0xCF, 0xFA, 0x7F, 0x14, 0xD1, 0xCE, 0xB8, 0xDC, 0xC3, 0x4A, 0x67, 0x93, 0xD6,
    0x28, 0xC2, 0x91, 0x70, 0xCA, 0x8D, 0xA2, 0xA4, 0xF0, 0x08, 0x61, 0x90, 0x7E, 0x6F, 0xA2, 0xE0,
    0xEB, 0xAE, 0x3E, 0xB6, 0x67, 0xC7, 0x92, 0xF4, 0x91, 0xB5, 0xF6, 0x6C, 0x5E, 0x84, 0x40, 0xF7,
    0xF3, 0x1B, 0x02, 0x7F, 0xD5, 0xAB, 0x41, 0x89, 0x28, 0xF4, 0x25, 0xCC, 0x52, 0x11, 0xAD, 0x43,
    0x68, 0xA6, 0x41, 0x8B, 0x84, 0xB5, 0xFF, 0x2C, 0x92, 0x4A, 0x26, 0xD8, 0x47, 0x6A, 0x7C, 0x95,
    0x61, 0xCC, 0xE6, 0xCB, 0xBB, 0x3F, 0x47, 0x58, 0x89, 0x75, 0xC3, 0x75, 0xA1, 0xD9, 0xAF, 0xCC,
    0x08, 0x73, 0x17, 0xDC, 0xAA, 0x9A, 0xA2, 0x16, 0x41, 0xD8, 0xA2, 0x06, 0xC6, 0x8B, 0xFC, 0x66,
    0x34, 0x9F, 0xCF, 0x18, 0x23, 0xA0, 0x0A, 0x74, 0xE7, 0x2B, 0x27, 0x70, 0x92, 0xE9, 0xAF, 0x37,
    0xE6, 0x8C, 0xA7, 0xBC, 0x62, 0x65, 0x9C, 0xC2, 0x08, 0xC9, 0x88, 0xB3, 0xF3, 0x43, 0xAC, 0x74,
    0x2C, 0x0F, 0xD4, 0xAF, 0xA1, 0xC3, 0x01, 0x64, 0x95, 0x4E, 0x48, 0x9F, 0xF4, 0x35, 0x78, 0x95,
    0x7A, 0x39, 0xD6, 0x6A, 0xA0, 0x6D, 0x40, 0xE8, 0x4F, 0xA8, 0xEF, 0x11, 0x1D, 0xF3, 0x1B, 0x3F,
    0x3F, 0x07, 0xDD, 0x6F, 0x5B, 0x19, 0x30, 0x19, 0xFB, 0xEF, 0x0E, 0x37, 0xF0, 0x0E, 0xCD, 0x16,
    0x49, 0xFE, 0x53, 0x47, 0x13, 0x1A, 0xBD, 0xA4, 0xF1, 0x40, 0x19, 0x60, 0x0E, 0xED, 0x68, 0x09,
    0x06, 0x5F, 0x4D, 0xCF, 0x3D, 0x1A, 0xFE, 0x20, 0x77, 0xE4, 0xD9, 0xDA, 0xF9, 0xA4, 0x2B, 0x76,
    0x1C, 0x71, 0xDB, 0x00, 0xBC, 0xFD, 0x0C, 0x6C, 0xA5, 0x47, 0xF7, 0xF6, 0x00, 0x79, 0x4A, 0x11,
];

/// The offset folded into the range the table index is computed from.
pub open spec fn fold_offset(offset: nat) -> nat {
    if offset > 0x7FFF {
        offset % 0x7FFF
    } else {
        offset
    }
}

/// The keystream byte at an absolute offset.
pub open spec fn key_byte(offset: nat) -> u8 {
    let l = fold_offset(offset);
    KEY@[((l * l + 80923) % 256) as int]
}

/// The cipher applied to `data` whose first byte stands at absolute offset `offset`.
pub open spec fn transform(offset: nat, data: Seq<u8>) -> Seq<u8> {
    Seq::new(data.len(), |i: int| data[i] ^ key_byte(offset + i as nat))
}

/// Applying the cipher twice at the same offset gives the input back.
pub proof fn lemma_transform_involution(offset: nat, data: Seq<u8>)
    ensures
        transform(offset, transform(offset, data)) == data,
{
    let once = transform(offset, data);
    let twice = transform(offset, once);
    assert forall|i: int| 0 <= i < data.len() implies twice[i] == data[i] by {
        let b = data[i];
        let k = key_byte(offset + i as nat);
        assert((b ^ k) ^ k == b) by (bit_vector);
    }
    assert(twice =~= data);
}

/// The cipher may be applied piecewise: a prefix at `offset` and the rest at the
/// offset where the prefix ends give what one application to the whole gives.
pub proof fn lemma_transform_split(offset: nat, data: Seq<u8>, k: int)
    requires
        0 <= k <= data.len(),
    ensures
        transform(offset, data.subrange(0, k)) + transform(
            offset + k as nat,
            data.subrange(k, data.len() as int),
        ) == transform(offset, data),
{
    let whole = transform(offset, data);
    let parts = transform(offset, data.subrange(0, k)) + transform(
        offset + k as nat,
        data.subrange(k, data.len() as int),
    );
    assert forall|i: int| 0 <= i < data.len() implies parts[i] == whole[i] by {
        if i >= k {
            assert(offset + k as nat + (i - k) as nat == offset + i as nat);
        }
    }
    assert(parts =~= whole);
}

/// Any piece of the output is what the cipher makes of that piece of the
/// input at the offset where the piece stands: it matters not in which
/// pieces a stream is read.
pub proof fn lemma_transform_piece(offset: nat, data: Seq<u8>, from: int, to: int)
    requires
        0 <= from <= to <= data.len(),
    ensures
        transform(offset, data).subrange(from, to) == transform(
            offset + from as nat,
            data.subrange(from, to),
        ),
{
    let piece = transform(offset + from as nat, data.subrange(from, to));
    assert forall|i: int| 0 <= i < to - from implies transform(offset, data).subrange(from, to)[i]
        == piece[i] by {
        assert(offset + from as nat + i as nat == offset + (from + i) as nat);
    }
    assert(transform(offset, data).subrange(from, to) =~= piece);
}

fn key_at(position: u128) -> (key: u8)
    ensures
        key == key_byte(position as nat),
{
    let l: u128 = if position > 0x7FFF {
        position % 0x7FFF
    } else {
        position
    };
    assert(l * l <= 0x7FFF * 0x7FFF) by (nonlinear_arith)
        requires
            l <= 0x7FFF,
    ;
    let index: u128 = (l * l + 80923) % 256;
    KEY[index as usize]
}

/// The size of the chunks in which a stream is read to its end.
pub const BUFFER_SIZE: usize = 8192;

/// Where a seek starts from, and how far it goes.
#[derive(Clone, Copy, Debug, PartialEq, Eq, Structural)]
pub enum SeekFrom {
    /// So many bytes from the start of the stream.
    Start(u64),
    /// So many bytes from the end of the stream.
    End(i64),
    /// So many bytes from the cursor.
    Current(i64),
}

/// The absolute offset a seek aims at, in a stream of `len` bytes with the cursor
/// at `position`.
pub open spec fn seek_target(len: nat, position: nat, pos: SeekFrom) -> int {
    match pos {
        SeekFrom::Start(offset) => offset as int,
        SeekFrom::End(delta) => len + delta,
        SeekFrom::Current(delta) => position + delta,
    }
}

/// A reader over an encrypted stream held in memory, which hands out plaintext.
pub struct QmcDump {
    reader: Vec<u8>,
    cursor: u64,
}

impl QmcDump {
    /// The encrypted bytes the reader was made from.
    pub closed spec fn source(&self) -> Seq<u8> {
        self.reader@
    }

    /// The absolute offset of the next byte to be read.
    pub closed spec fn position(&self) -> nat {
        self.cursor as nat
    }

    /// The encrypted bytes from the cursor to the end of the stream.
    pub open spec fn pending(&self) -> Seq<u8> {
        if self.position() <= self.source().len() {
            self.source().subrange(self.position() as int, self.source().len() as int)
        } else {
            Seq::empty()
        }
    }

    /// The keystream byte at `value`.
    pub fn map_l(value: u64) -> (key: u8)
        ensures
            key == key_byte(value as nat),
    {
        key_at(value as u128)
    }

    /// Applies the cipher in place to `buffer`, whose first byte stands at `offset`.
    pub fn encrypt(offset: u64, buffer: &mut [u8])
        ensures
            final(buffer)@ == transform(offset as nat, old(buffer)@),
    {
        let n = buffer.len();
        let mut i: usize = 0;
        while i < n
            invariant
                i <= n,
                n == buffer@.len(),
                buffer@.len() == old(buffer)@.len(),
                forall|j: int| 0 <= j < i ==> buffer@[j] == old(buffer)@[j] ^ key_byte(offset as nat + j as nat),
                forall|j: int| i <= j < n ==> buffer@[j] == old(buffer)@[j],
            decreases n - i,
        {
            let key = key_at(offset as u128 + i as u128);
            let byte = buffer[i];
            buffer[i] = byte ^ key;
            i += 1;
        }
        assert(buffer@ =~= transform(offset as nat, old(buffer)@));
    }

    /// Wraps an encrypted stream, with the cursor at its start.
    pub fn from_reader(reader: Vec<u8>) -> (dump: Result<Self, Error>)
        ensures
            dump is Ok,
            dump->Ok_0.source() == reader@,
            dump->Ok_0.position() == 0,
    {
        Ok(Self { reader, cursor: 0 })
    }

    /// Moves the cursor. The next read is keyed from the new offset; nothing read
    /// before needs to be read again. A target before the start of the stream, or
    /// beyond what the cursor can hold, is refused and leaves the cursor alone.
    pub fn seek(&mut self, pos: SeekFrom) -> (offset: Result<u64, Error>)
        ensures
            final(self).source() == old(self).source(),
            ({
                let target = seek_target(old(self).source().len(), old(self).position(), pos);
                if 0 <= target <= u64::MAX {
                    &&& offset == Ok::<u64, Error>(target as u64)
                    &&& final(self).position() == target
                } else {
                    &&& offset == Err::<u64, Error>(Error::Unknow)
                    &&& final(self).position() == old(self).position()
                }
            }),
    {
        let (base, delta): (u64, i64) = match pos {
            SeekFrom::Start(offset) => {
                self.cursor = offset;
                return Ok(offset);
            },
            SeekFrom::End(delta) => (self.reader.len() as u64, delta),
            SeekFrom::Current(delta) => (self.cursor, delta),
        };
        let target: i128 = base as i128 + delta as i128;
        if target < 0 || target > u64::MAX as i128 {
            return Err(Error::Unknow);
        }
        self.cursor = target as u64;
        Ok(self.cursor)
    }

    /// Reads into `buf` as many bytes as it holds, or as are left, puts them in
    /// plain text, and moves the cursor past them. The keystream starts at the
    /// cursor as it stood before the read, and runs over the whole of `buf`: the
    /// bytes behind those read are ciphered too.
    pub fn read(&mut self, buf: &mut [u8]) -> (size: Result<usize, Error>)
        ensures
            final(self).source() == old(self).source(),
            size is Ok,
            size->Ok_0 as nat == if old(buf)@.len() <= old(self).pending().len() {
                old(buf)@.len()
            } else {
                old(self).pending().len()
            },
            final(self).position() == old(self).position() + size->Ok_0,
            final(buf)@ == transform(
                old(self).position(),
                old(self).pending().subrange(0, size->Ok_0 as int) + old(buf)@.subrange(
                    size->Ok_0 as int,
                    old(buf)@.len() as int,
                ),
            ),
    {
        let len = self.reader.len();
        let start: usize = if self.cursor >= len as u64 {
            len
        } else {
            self.cursor as usize
        };
        let left = len - start;
        let size = if buf.len() <= left {
            buf.len()
        } else {
            left
        };
        let ghost filled = old(self).pending().subrange(0, size as int) + old(buf)@.subrange(
            size as int,
            old(buf)@.len() as int,
        );
        let mut i: usize = 0;
        while i < size
            invariant
                i <= size,
                size <= buf@.len(),
                buf@.len() == old(buf)@.len(),
                start + size <= len,
                len == self.reader@.len(),
                *self == *old(self),
                size > 0 ==> start == self.cursor,
                forall|j: int| 0 <= j < i ==> buf@[j] == self.reader@[start + j],
                forall|j: int| i <= j < buf@.len() ==> buf@[j] == old(buf)@[j],
            decreases size - i,
        {
            buf[i] = self.reader[start + i];
            i += 1;
        }
        assert(buf@ =~= filled);
        Self::encrypt(self.cursor, buf);
        if size > 0 {
            self.cursor = self.cursor + size as u64;
        }
        Ok(size)
    }

    /// Reads the stream from the cursor to its end and gives the plain text.
    pub fn get_data(&mut self) -> (data: Result<Vec<u8>, Error>)
        ensures
            final(self).source() == old(self).source(),
            final(self).position() == old(self).position() + old(self).pending().len(),
            data is Ok,
            data->Ok_0@ == transform(old(self).position(), old(self).pending()),
    {
        let mut buffer = [0u8; BUFFER_SIZE];
        let mut output: Vec<u8> = Vec::new();
        loop
            invariant
                self.source() == old(self).source(),
                self.position() == old(self).position() + output@.len(),
                output@.len() <= old(self).pending().len(),
                output@ == transform(
                    old(self).position(),
                    old(self).pending().subrange(0, output@.len() as int),
                ),
            ensures
                self.source() == old(self).source(),
                output@.len() == old(self).pending().len(),
                self.position() == old(self).position() + output@.len(),
                output@ == transform(old(self).position(), old(self).pending()),
            decreases old(self).pending().len() - output@.len(),
        {
            let ghost before = *self;
            let ghost done = output@;
            let size = match self.read(&mut buffer) {
                Ok(size) => size,
                Err(error) => {
                    return Err(error);
                },
            };
            if size == 0 {
                assert(old(self).pending().subrange(0, output@.len() as int) =~= old(
                    self,
                ).pending());
                break;
            }
            let mut i: usize = 0;
            while i < size
                invariant
                    i <= size,
                    size <= buffer@.len(),
                    output@ == done + buffer@.subrange(0, i as int),
                decreases size - i,
            {
                output.push(buffer[i]);
                i += 1;
                assert(output@ =~= done + buffer@.subrange(0, i as int));
            }
            proof {
                let whole = old(self).pending();
                let chunk = before.pending().subrange(0, size as int);
                assert(before.pending() =~= whole.subrange(done.len() as int, whole.len() as int));
                lemma_transform_split(
                    before.position(),
                    chunk + buffer@.subrange(size as int, buffer@.len() as int),
                    size as int,
                );
                let next = whole.subrange(0, done.len() + size);
                lemma_transform_split(old(self).position(), next, done.len() as int);
                assert(next.subrange(0, done.len() as int) =~= whole.subrange(0, done.len() as int));
                assert(next.subrange(done.len() as int, next.len() as int) =~= chunk);
                assert(buffer@.subrange(0, size as int) =~= transform(before.position(), chunk));
            }
        }
        Ok(output)
    }
}

} // verus!
