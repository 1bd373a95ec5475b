//! Copying runs of bytes.

use vstd::prelude::*;

verus! {

/// The bytes of `data` from `start` on, `len` of them.
pub(crate) fn copy_range(data: &[u8], start: usize, len: usize) -> (part: Vec<u8>)
    requires
        start + len <= data@.len(),
    ensures
        part@ == data@.subrange(start as int, start + len),
{
    let total = data.len();
    let mut part: Vec<u8> = Vec::new();
    let mut i: usize = 0;
    while i < len
        invariant
            i <= len,
            start + len <= data@.len() <= usize::MAX,
            part@ == data@.subrange(start as int, start + i),
        decreases len - i,
    {
        part.push(data[start + i]);
        i += 1;
        assert(part@ =~= data@.subrange(start as int, start + i));
    }
    part
}

} // verus!
