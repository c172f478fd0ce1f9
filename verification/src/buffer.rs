//! The bounded buffer that collects the bytes of a response.
use bytes::BytesMut;
use vstd::prelude::*;
use vstd::string::StringExecFns;

use crate::block::{block_bytes, block_is_whole, fill_up, repeated, MAX_BLOCK_SIZE};
use crate::error::{ErrorView, StreamError};
use crate::size::NonZeroSize;
use crate::text::{decimal_text, to_decimal};

verus! {

/// The contents of a [`Buffer`]: its block, how many bytes of the block are in
/// use, and the size that the block may not exceed.
#[verifier::ext_equal]
pub struct BufferView {
    pub block: Seq<u8>,
    pub used: int,
    pub limit: int,
}

pub open spec fn min(a: int, b: int) -> int {
    if a <= b {
        a
    } else {
        b
    }
}

pub open spec fn max(a: int, b: int) -> int {
    if a <= b {
        b
    } else {
        a
    }
}

/// The least multiple of [`Buffer::BLOCK_SIZE`] that is not less than `size`.
pub open spec fn round_up(size: int) -> int {
    if size % (Buffer::BLOCK_SIZE as int) == 0 {
        size
    } else {
        size + (Buffer::BLOCK_SIZE - size % (Buffer::BLOCK_SIZE as int))
    }
}

impl BufferView {
    /// The buffered bytes.
    pub open spec fn buffered(self) -> Seq<u8> {
        self.block.subrange(0, self.used)
    }

    /// How many bytes of the block are not in use.
    pub open spec fn free(self) -> int {
        self.block.len() - self.used
    }

    /// The block is within the limit, and a multiple of [`Buffer::BLOCK_SIZE`] unless the
    /// limit cut it short.
    pub open spec fn wf(self) -> bool {
        &&& 0 <= self.used <= self.block.len() <= self.limit <= usize::MAX
        &&& 0 < self.block.len() <= MAX_BLOCK_SIZE
        &&& self.block.len() == self.limit || self.block.len() % (Buffer::BLOCK_SIZE as nat) == 0
    }

    /// An empty buffer with the first block.
    pub open spec fn empty(limit: int) -> BufferView {
        BufferView { block: repeated(0, min(Buffer::BLOCK_SIZE as int, limit)), used: 0, limit }
    }

    /// The buffer with `num_bytes` more of its bytes in use, or all of them.
    pub open spec fn extended(self, num_bytes: int) -> BufferView {
        BufferView { used: min(self.used + num_bytes, self.block.len() as int), ..self }
    }

    /// Whether the limit leaves no room for `num_bytes` more.
    pub open spec fn exceeds_limit(self, num_bytes: int) -> bool {
        self.block.len() + num_bytes > self.limit
    }

    /// The size of the block after it grew by at least `num_bytes`.
    pub open spec fn grown_size(self, num_bytes: int) -> int {
        min(round_up(self.block.len() + num_bytes), self.limit)
    }

    /// The buffer after its block grew by at least `num_bytes`.
    pub open spec fn grown(self, num_bytes: int) -> BufferView {
        BufferView {
            block: self.block + repeated(0, self.grown_size(num_bytes) - self.block.len()),
            ..self
        }
    }

    /// By how many bytes at least the block grows if `num_bytes` more are asked for:
    /// a full block grows in any case, so that bytes are free.
    pub open spec fn least_growth(self, num_bytes: int) -> int {
        if self.free() == 0 && num_bytes == 0 {
            1
        } else {
            num_bytes
        }
    }

    /// Whether the block is full or smaller than `required`.
    pub open spec fn must_grow(self, required: int) -> bool {
        self.free() == 0 || required > self.block.len()
    }

    /// By how much at least the block grows to hold `required` bytes and have
    /// room.
    pub open spec fn growth(self, required: int) -> int {
        max(Buffer::BLOCK_SIZE as int, required - self.block.len())
    }

    /// Whether making room for `required` bytes stays within the limit.
    pub open spec fn has_room(self, required: int) -> bool {
        self.must_grow(required) ==> !self.exceeds_limit(self.growth(required))
    }

    /// The buffer with room for `required` bytes and for at least one more than
    /// it holds.
    pub open spec fn ensured(self, required: int) -> BufferView {
        if self.must_grow(required) {
            self.grown(self.growth(required))
        } else {
            self
        }
    }

    /// Whether the block that holds `required` bytes can be allocated at all.
    pub open spec fn is_allocatable(self, required: int) -> bool {
        self.ensured(required).block.len() <= MAX_BLOCK_SIZE
    }

    /// The buffer with room for `required` bytes, or why it cannot be had.
    pub open spec fn prepared(self, required: int) -> Result<BufferView, ErrorView> {
        if !self.has_room(required) {
            Err(ErrorView::ResponseTooLarge)
        } else if !self.is_allocatable(required) {
            Err(ErrorView::SizeOverflow)
        } else {
            Ok(self.ensured(required))
        }
    }

    /// The size of a new block for `len` bytes, with room for more.
    pub open spec fn reset_size(self, len: int) -> int {
        min(len + (Buffer::BLOCK_SIZE - len % (Buffer::BLOCK_SIZE as int)), self.limit)
    }

    /// A buffer with a new block that holds `data`.
    pub open spec fn reset(self, data: Seq<u8>) -> BufferView {
        BufferView {
            block: data + repeated(0, self.reset_size(data.len() as int) - data.len()),
            used: data.len() as int,
            limit: self.limit,
        }
    }

    /// The buffer with another block.
    pub open spec fn with_block(self, block: Seq<u8>) -> BufferView {
        BufferView { block, ..self }
    }

    /// What [`Buffer::debug_text`] shows.
    pub open spec fn debug_text(self, capacity: nat) -> Seq<char> {
        "Buffer { used: "@ + decimal_text(self.used as nat) + ", capacity: "@ + decimal_text(
            capacity,
        ) + " }"@
    }
}

/// A new block for the bytes after a response is not larger than the block that
/// the response came in.
pub proof fn lemma_reset_size(buffer: BufferView, len: int)
    requires
        buffer.wf(),
        0 <= len < buffer.used,
    ensures
        len <= buffer.limit,
        buffer.reset_size(len) <= buffer.block.len() <= MAX_BLOCK_SIZE,
{
}

/// A buffer for the bytes of a response.
///
/// Bytes are written into the free part of the block and then declared used. The
/// block grows on demand, but not past the limit.
pub struct Buffer {
    block: BytesMut,
    offset: usize,
    max_capacity: NonZeroSize,
}

impl View for Buffer {
    type V = BufferView;

    closed spec fn view(&self) -> BufferView {
        BufferView {
            block: block_bytes(self.block),
            used: self.offset as int,
            limit: self.max_capacity@ as int,
        }
    }
}

impl Buffer {
    /// Blocks grow in steps of this many bytes.
    pub const BLOCK_SIZE: usize = 4096;

    /// Limit of a buffer for which none was given: 512 MiB.
    pub const DEFAULT_MAX_CAPACITY: usize = 536870912;

    /// Whether the block can grow in place.
    pub closed spec fn owns_block(&self) -> bool {
        block_is_whole(self.block)
    }

    /// The buffer is in a consistent state.
    pub open spec fn wf(&self) -> bool {
        self@.wf() && self.owns_block()
    }

    /// Creates a buffer with the default limit.
    pub fn new() -> (buffer: Self)
        ensures
            buffer.wf(),
            buffer@ == BufferView::empty(Buffer::DEFAULT_MAX_CAPACITY as int),
    {
        match NonZeroSize::new(Buffer::DEFAULT_MAX_CAPACITY) {
            Some(limit) => Self::new_with_max_response_size(limit),
            None => vstd::pervasive::unreached(),
        }
    }

    /// Creates a buffer whose block cannot grow past `max_capacity` bytes.
    pub fn new_with_max_response_size(max_capacity: NonZeroSize) -> (buffer: Self)
        ensures
            buffer.wf(),
            buffer@ == BufferView::empty(max_capacity@ as int),
    {
        Self { block: Self::first_block(max_capacity), offset: 0, max_capacity }
    }

    /// Allocates the block that a buffer starts with.
    fn first_block(max_capacity: NonZeroSize) -> (block: BytesMut)
        ensures
            block_bytes(block) == BufferView::empty(max_capacity@ as int).block,
            block_is_whole(block),
            max_capacity@ > 0,
    {
        let limit: usize = max_capacity.get();
        BytesMut::zeroed(if Buffer::BLOCK_SIZE < limit { Buffer::BLOCK_SIZE } else { limit })
    }

    /// Returns the number of bytes in the buffer containing data.
    pub fn used(&self) -> (used: usize)
        ensures
            used == self@.used,
    {
        self.offset
    }

    /// Returns the block behind the buffer.
    pub fn block(&self) -> (block: &BytesMut)
        ensures
            block_bytes(*block) == self@.block,
    {
        &self.block
    }

    /// Returns the bytes in the buffer containing data.
    pub fn buffered(&self) -> (bytes: &[u8])
        requires
            self@.wf(),
        ensures
            bytes@ == self@.buffered(),
    {
        &self.block[0..self.offset]
    }

    /// Returns the unused part of the buffer to which new data can be written.
    pub fn free_as_mut_slice(&mut self) -> (free: &mut [u8])
        requires
            old(self)@.wf(),
        ensures
            free@ == old(self)@.block.skip(old(self)@.used),
            final(free)@.len() == free@.len(),
            final(self)@ == old(self)@.with_block(
                old(self)@.block.take(old(self)@.used) + final(free)@,
            ),
            final(self).owns_block() == old(self).owns_block(),
    {
        let (_, free) = self.block.split_at_mut(self.offset);
        free
    }

    /// Indicates how many new bytes were written into the buffer.
    ///
    /// When new bytes are written into the slice returned by
    /// [`Self::free_as_mut_slice`] this method should be called to extend the
    /// used portion of the buffer to include the new data.
    ///
    /// You can not write past the end of the buffer, so extending more than there
    /// is free space marks the entire buffer as used.
    pub fn extend_used(&mut self, num_bytes: usize)
        requires
            old(self)@.wf(),
        ensures
            final(self)@ == old(self)@.extended(num_bytes as int),
            final(self)@.wf(),
            final(self).owns_block() == old(self).owns_block(),
    {
        let free: usize = self.block.len() - self.offset;
        if num_bytes > free {
            self.offset = self.block.len();
        } else {
            self.offset = self.offset + num_bytes;
        }
    }

    /// Ensures that the buffer has free capacity, and room for `required` bytes
    /// in all.
    pub fn ensure_capacity(&mut self, required: usize) -> (result: Result<(), StreamError>)
        requires
            old(self).wf(),
            old(self)@.has_room(required as int) ==> old(self)@.is_allocatable(required as int),
        ensures
            final(self).wf(),
            result is Ok <==> old(self)@.has_room(required as int),
            result matches Ok(_) ==> final(self)@ == old(self)@.ensured(required as int),
            result matches Err(error) ==> error == StreamError::ResponseTooLarge && final(self)@
                == old(self)@,
    {
        let len: usize = self.block.len();
        let free_bytes: usize = len - self.offset;
        let extra_bytes_needed: usize = if required > len { required - len } else { 0 };
        if free_bytes == 0 || extra_bytes_needed > 0 {
            let increase: usize = if extra_bytes_needed > Buffer::BLOCK_SIZE {
                extra_bytes_needed
            } else {
                Buffer::BLOCK_SIZE
            };
            return self.grow(increase);
        }
        Ok(())
    }

    /// Tells whether the block that [`Self::ensure_capacity`] asks for can be
    /// allocated, or is refused for its size before that.
    pub fn can_ensure_capacity(&self, required: usize) -> (possible: bool)
        requires
            self@.wf(),
        ensures
            possible == (self@.has_room(required as int) ==> self@.is_allocatable(required as int)),
    {
        let len: usize = self.block.len();
        if len - self.offset != 0 && required <= len {
            return true;
        }
        let increase: usize = if required > len && required - len > Buffer::BLOCK_SIZE {
            required - len
        } else {
            Buffer::BLOCK_SIZE
        };
        match self.size_after_growth(increase) {
            Some(size) => size <= MAX_BLOCK_SIZE,
            None => true,
        }
    }

    /// Ensures the capacity as [`Self::ensure_capacity`] does, for any `required`.
    pub fn prepare(&mut self, required: usize) -> (result: Result<(), StreamError>)
        requires
            old(self).wf(),
        ensures
            final(self).wf(),
            match (result, old(self)@.prepared(required as int)) {
                (Ok(_), Ok(buffer)) => final(self)@ == buffer,
                (Err(error), Err(reason)) => error@ == reason && final(self)@ == old(self)@,
                _ => false,
            },
    {
        if self.can_ensure_capacity(required) {
            self.ensure_capacity(required)
        } else {
            Err(StreamError::SizeOverflow)
        }
    }

    /// Computes the size of the block after it grew by at least `num_bytes`,
    /// unless that exceeds the limit.
    fn size_after_growth(&self, num_bytes: usize) -> (size: Option<usize>)
        requires
            self@.wf(),
        ensures
            size is None <==> self@.exceeds_limit(num_bytes as int),
            size matches Some(size) ==> size == self@.grown_size(num_bytes as int),
    {
        let limit: usize = self.max_capacity.get();
        let min_size: usize = match self.block.len().checked_add(num_bytes) {
            Some(min_size) => min_size,
            None => {
                return None;
            },
        };
        if min_size > limit {
            return None;
        }
        let rest: usize = min_size % Buffer::BLOCK_SIZE;
        if rest == 0 {
            Some(min_size)
        } else if Buffer::BLOCK_SIZE - rest < limit - min_size {
            Some(min_size + (Buffer::BLOCK_SIZE - rest))
        } else {
            Some(limit)
        }
    }

    /// Grows the buffer, ensuring there are free bytes in the tail.
    ///
    /// The specified number of bytes is only a minimum. The buffer could grow by
    /// more as it will always grow in multiples of [`Buffer::BLOCK_SIZE`], up to the
    /// limit.
    ///
    /// If the size would be larger than the limit an error is returned.
    pub fn grow(&mut self, num_bytes: usize) -> (result: Result<(), StreamError>)
        requires
            old(self).wf(),
            !old(self)@.exceeds_limit(old(self)@.least_growth(num_bytes as int)) ==>
                old(self)@.grown_size(old(self)@.least_growth(num_bytes as int)) <= MAX_BLOCK_SIZE,
        ensures
            final(self).wf(),
            result is Ok <==> !old(self)@.exceeds_limit(
                old(self)@.least_growth(num_bytes as int),
            ),
            result matches Ok(_) ==> {
                &&& final(self)@ == old(self)@.grown(old(self)@.least_growth(num_bytes as int))
                &&& final(self)@.free() > 0
            },
            result matches Err(error) ==> error == StreamError::ResponseTooLarge && final(self)@
                == old(self)@,
    {
        let least: usize = if num_bytes == 0 && self.offset == self.block.len() {
            1
        } else {
            num_bytes
        };
        match self.size_after_growth(least) {
            Some(new_size) => {
                fill_up(&mut self.block, new_size);
                assert(self@ =~= old(self)@.grown(least as int));
                Ok(())
            },
            None => Err(StreamError::ResponseTooLarge),
        }
    }

    /// Returns the block backing the buffer.
    ///
    /// Next you *must* either return this block using [`Self::return_block`] or
    /// call [`Self::reset_with_data`].
    pub fn take_block(&mut self) -> (block: BytesMut)
        ensures
            block_bytes(block) == old(self)@.block,
            block_is_whole(block) == old(self).owns_block(),
            final(self)@ == old(self)@.with_block(BufferView::empty(old(self)@.limit).block),
            final(self).owns_block(),
    {
        let mut block = Self::first_block(self.max_capacity);
        core::mem::swap(&mut self.block, &mut block);
        block
    }

    /// Resets the buffer to be a new allocation with given data copied in.
    ///
    /// This allows the block returned by [`Self::take_block`] to be kept with the
    /// response that was parsed from it.
    ///
    /// It ensures that there is at least some free space at the end of the buffer
    /// so that the next reading operation won't need to reallocate right away,
    /// unless the data is as long as the limit.
    pub fn reset_with_data(&mut self, data: &[u8])
        requires
            data@.len() <= old(self)@.limit,
            old(self)@.reset_size(data@.len() as int) <= MAX_BLOCK_SIZE,
        ensures
            final(self).wf(),
            final(self)@ == old(self)@.reset(data@),
            final(self)@.buffered() == data@,
            final(self)@.free() > 0 <==> data@.len() < final(self)@.limit,
    {
        let limit: usize = self.max_capacity.get();
        let min_size: usize = data.len();
        let step: usize = Buffer::BLOCK_SIZE - min_size % Buffer::BLOCK_SIZE;
        let new_size: usize = if step < limit - min_size {
            min_size + step
        } else {
            limit
        };
        self.block = BytesMut::zeroed(new_size);
        let (used, _) = self.block.split_at_mut(min_size);
        used.copy_from_slice(data);
        self.offset = min_size;
        assert(self@ =~= old(self)@.reset(data@));
        assert(self@.buffered() =~= data@);
    }

    /// Returns the block which backs this buffer.
    pub fn return_block(&mut self, block: BytesMut)
        ensures
            final(self)@ == old(self)@.with_block(block_bytes(block)),
            final(self).owns_block() == block_is_whole(block),
    {
        self.block = block;
    }

    /// Shows the number of bytes in use and the capacity of the block.
    ///
    /// The capacity is what the allocator gave, and left open.
    pub fn debug_text(&self) -> (text: String)
        ensures
            exists|capacity: nat|
                capacity >= self@.block.len() && text@ == #[trigger] self@.debug_text(capacity),
    {
        let capacity: usize = self.block.capacity();
        let text = self.debug_text_with(capacity);
        assert(text@ == self@.debug_text(capacity as nat));
        text
    }

    /// Shows the number of bytes in use and `capacity`.
    pub fn debug_text_with(&self, capacity: usize) -> (text: String)
        ensures
            text@ == self@.debug_text(capacity as nat),
    {
        let mut text = "Buffer { used: ".to_owned();
        text.append(to_decimal(self.used()).as_str());
        text.append(", capacity: ");
        text.append(to_decimal(capacity).as_str());
        text.append(" }");
        text
    }
}

} // verus!
