//! The blocks of memory behind a buffer: `bytes::BytesMut`.
use bytes::BytesMut;
use vstd::prelude::*;

verus! {

/// `bytes::BytesMut`, a block of bytes that owns its memory.
#[verifier::external_type_specification]
#[verifier::external_body]
pub struct ExBytesMut(BytesMut);

/// The bytes that a block holds.
pub uninterp spec fn block_bytes(block: BytesMut) -> Seq<u8>;

/// Whether a block is the whole of its allocation: nothing was split off it and
/// nothing was cut from its front.
pub uninterp spec fn block_is_whole(block: BytesMut) -> bool;

/// Largest block that can be allocated: no allocation is larger than `isize::MAX`
/// bytes.
pub const MAX_BLOCK_SIZE: usize = usize::MAX / 2;

/// Largest size to which a block is grown in place. That may double the allocation,
/// so half of the largest block always fits.
pub const MAX_RESIZED_SIZE: usize = usize::MAX / 4;

/// `n` bytes of value `value`.
pub open spec fn repeated(value: u8, n: int) -> Seq<u8> {
    Seq::new(n as nat, |i: int| value)
}

/// `bytes` cut or filled up with `value` to `new_len` bytes.
pub open spec fn resized(bytes: Seq<u8>, new_len: int, value: u8) -> Seq<u8> {
    if new_len <= bytes.len() {
        bytes.take(new_len)
    } else {
        bytes + repeated(value, new_len - bytes.len())
    }
}

/// `BytesMut::zeroed` wraps a fresh vector of `len` zeros.
pub assume_specification[ BytesMut::zeroed ](len: usize) -> (block: BytesMut)
    requires
        len <= MAX_BLOCK_SIZE,
    ensures
        block_bytes(block) == repeated(0, len as int),
        block_is_whole(block),
;

/// `BytesMut::len` counts the bytes that the block holds.
pub assume_specification[ BytesMut::len ](block: &BytesMut) -> (len: usize)
    ensures
        len == block_bytes(*block).len(),
;

/// `BytesMut::capacity` counts the bytes that the block can hold without
/// another allocation. That is at least what it holds; how much more the
/// allocator gave is left open.
pub assume_specification[ BytesMut::capacity ](block: &BytesMut) -> (capacity: usize)
    ensures
        capacity >= block_bytes(*block).len(),
;

/// `BytesMut::resize` cuts the block, or fills it up with `value`, to `new_len`
/// bytes. A whole block is backed by a vector of its own, which at most doubles.
pub assume_specification[ BytesMut::resize ](block: &mut BytesMut, new_len: usize, value: u8)
    requires
        block_is_whole(*old(block)),
        new_len <= MAX_RESIZED_SIZE,
    ensures
        block_bytes(*final(block)) == resized(
            block_bytes(*old(block)),
            new_len as int,
            value,
        ),
        block_is_whole(*final(block)),
;

/// `BytesMut`'s `Deref::deref` shows the bytes that the block holds.
pub assume_specification[ <BytesMut as core::ops::Deref>::deref ](block: &BytesMut) -> (bytes:
    &[u8])
    ensures
        bytes@ == block_bytes(*block),
;

/// `BytesMut`'s `DerefMut::deref_mut` shows the bytes that the block holds, and what
/// is written through the slice is what the block then holds. A slice keeps its
/// length, and the block its allocation.
pub assume_specification[ <BytesMut as core::ops::DerefMut>::deref_mut ](
    block: &mut BytesMut,
) -> (bytes: &mut [u8])
    ensures
        bytes@ == block_bytes(*old(block)),
        final(bytes)@.len() == bytes@.len(),
        block_bytes(*final(block)) == final(bytes)@,
        block_is_whole(*final(block)) == block_is_whole(*old(block)),
;

/// The std method `copy_from_slice` copies all elements of `src` into `dst`,
/// which must be as long.
pub assume_specification<A: Copy>[ <[A]>::copy_from_slice ](dst: &mut [A], src: &[A])
    requires
        old(dst)@.len() == src@.len(),
    ensures
        final(dst)@ == src@,
;

/// Fills `block` up with zeros to `new_len` bytes, in place or, where that could ask
/// for more than an allocation can have, in a new block.
pub(crate) fn fill_up(block: &mut BytesMut, new_len: usize)
    requires
        block_is_whole(*old(block)),
        block_bytes(*old(block)).len() <= new_len <= MAX_BLOCK_SIZE,
    ensures
        block_bytes(*final(block)) == block_bytes(*old(block)) + repeated(
            0,
            new_len - block_bytes(*old(block)).len(),
        ),
        block_is_whole(*final(block)),
{
    if new_len <= MAX_RESIZED_SIZE {
        block.resize(new_len, 0);
        assert(block_bytes(*block) =~= block_bytes(*old(block)) + repeated(
            0,
            new_len - block_bytes(*old(block)).len(),
        ));
    } else {
        let len: usize = block.len();
        let mut larger = BytesMut::zeroed(new_len);
        let (front, _) = larger.split_at_mut(len);
        front.copy_from_slice(&block[0..len]);
        core::mem::swap(block, &mut larger);
        assert(block_bytes(*block) =~= block_bytes(*old(block)) + repeated(
            0,
            new_len - block_bytes(*old(block)).len(),
        ));
    }
}

} // verus!
