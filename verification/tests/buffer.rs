use std::io::Write as _;

use imap_stream::{Buffer, ErrorKind, NonZeroSize, StreamError};

const MAX_CAPACITY: usize = Buffer::DEFAULT_MAX_CAPACITY;

fn limited(limit: usize) -> Buffer {
    Buffer::new_with_max_response_size(NonZeroSize::new(limit).unwrap())
}

#[test]
fn test_buffer_empty() {
    let buf = Buffer::new();
    assert_eq!(buf.used(), 0);

    let mut buf = Buffer::new();
    let slice: &[u8] = buf.free_as_mut_slice();
    assert_eq!(slice.len(), Buffer::BLOCK_SIZE);
    assert_eq!(slice.len(), buf.block().len());
}

#[test]
fn test_buffer_extend_use() {
    let mut buf = Buffer::new();
    buf.extend_used(3);
    assert_eq!(buf.used(), 3);
    let slice = buf.free_as_mut_slice();
    assert_eq!(slice.len(), Buffer::BLOCK_SIZE - 3);

    // Extend past the end of the buffer.
    buf.extend_used(Buffer::BLOCK_SIZE);
    assert_eq!(buf.used(), Buffer::BLOCK_SIZE);
    assert_eq!(buf.block().len(), buf.used());
    let slice = buf.free_as_mut_slice();
    assert_eq!(slice.len(), 0);
}

#[test]
fn test_buffer_write_read() {
    let mut buf = Buffer::new();
    let mut slice = buf.free_as_mut_slice();
    slice.write_all(b"hello").unwrap();
    buf.extend_used(b"hello".len());

    let slice = &buf.block()[..buf.used()];
    assert_eq!(slice, b"hello");
    assert_eq!(buf.buffered(), b"hello");
    assert_eq!(
        buf.free_as_mut_slice().len(),
        buf.block().len() - buf.used()
    );
}

#[test]
fn test_buffer_grow() {
    let mut buf = Buffer::new();
    assert_eq!(buf.block().len(), Buffer::BLOCK_SIZE);
    buf.grow(1).unwrap();
    assert_eq!(buf.block().len(), 2 * Buffer::BLOCK_SIZE);

    buf.grow(Buffer::BLOCK_SIZE + 1).unwrap();
    assert_eq!(buf.block().len(), 4 * Buffer::BLOCK_SIZE);

    let ret = buf.grow(MAX_CAPACITY);
    assert!(ret.is_err());
}

#[test]
fn test_buffer_ensure_capacity() {
    // Initial state: 1 byte capacity left, initial size.
    let mut buf = Buffer::new();
    buf.extend_used(Buffer::BLOCK_SIZE - 1);
    assert_eq!(buf.free_as_mut_slice().len(), 1);
    assert_eq!(buf.block().len(), Buffer::BLOCK_SIZE);

    // Still has capacity, no size request.
    buf.ensure_capacity(0).unwrap();
    assert_eq!(buf.free_as_mut_slice().len(), 1);
    assert_eq!(buf.block().len(), Buffer::BLOCK_SIZE);

    // No more capacity, initial size.
    buf.extend_used(1);
    assert_eq!(buf.free_as_mut_slice().len(), 0);
    assert_eq!(buf.block().len(), Buffer::BLOCK_SIZE);

    // No capacity, no size request.
    buf.ensure_capacity(0).unwrap();
    assert_eq!(buf.free_as_mut_slice().len(), Buffer::BLOCK_SIZE);
    assert_eq!(buf.block().len(), 2 * Buffer::BLOCK_SIZE);

    // Some capacity, size request.
    buf.extend_used(5);
    assert_eq!(buf.used(), Buffer::BLOCK_SIZE + 5);
    buf.ensure_capacity(3 * Buffer::BLOCK_SIZE - 6).unwrap();
    assert_eq!(buf.free_as_mut_slice().len(), 2 * Buffer::BLOCK_SIZE - 5);
    assert_eq!(buf.block().len(), 3 * Buffer::BLOCK_SIZE);
}

/// Regression test: `ensure_capacity()` must ensure that at least one byte is
/// available. Reading into a buffer of zero size can only read zero bytes, which
/// is indistinguishable from the end of the transport.
#[test]
fn test_ensure_capacity_loop() {
    let mut buf = Buffer::new();

    for i in 1..500 {
        // Ask for `i` bytes.
        buf.ensure_capacity(i).unwrap();

        // Test that we can read at least 1 byte.
        let free = buf.free_as_mut_slice();
        let used = free.len();
        assert!(used > 0);

        // Use as much as allowed.
        buf.extend_used(used);

        // Test that we can read at least as much as requested.
        let block = buf.take_block();
        assert!(block.len() >= i);
        buf.return_block(block);
    }
}

#[test]
fn test_buffer_take_and_return_block() {
    // This test identifies blocks by their size.
    let mut buf = Buffer::new();
    buf.grow(1).unwrap();
    let block_size = buf.block().len();

    let block = buf.take_block();
    assert_eq!(block.len(), block_size);
    assert_ne!(buf.block().len(), block_size);

    buf.return_block(block);
    assert_eq!(buf.block().len(), block_size);
}

#[test]
fn test_buffer_reset_with_data() {
    // This test identifies blocks by their size.
    let data: [u8; 2 * Buffer::BLOCK_SIZE] = [b'a'; 2 * Buffer::BLOCK_SIZE];
    let mut buf = Buffer::new();
    let block_size = buf.block().len();
    assert_eq!(block_size, Buffer::BLOCK_SIZE);
    buf.reset_with_data(&data);
    assert_ne!(buf.block().len(), block_size);
    assert_eq!(buf.block().len(), 3 * Buffer::BLOCK_SIZE);
    assert!(!buf.free_as_mut_slice().is_empty());

    let data: [u8; 0] = [];
    let mut buf = Buffer::new();
    buf.reset_with_data(&data);
    assert_eq!(buf.block().len(), Buffer::BLOCK_SIZE);
}

#[test]
fn test_buffer_debug() {
    assert_eq!(
        Buffer::new().debug_text(),
        format!(r#"Buffer {{ used: 0, capacity: {} }}"#, Buffer::BLOCK_SIZE)
    );
}

#[test]
fn debug_text_shows_any_numbers_in_decimal() {
    let mut buf = Buffer::new();
    buf.extend_used(1204);
    assert_eq!(
        buf.debug_text_with(usize::MAX),
        format!("Buffer {{ used: 1204, capacity: {} }}", usize::MAX)
    );
}

#[test]
fn default_limit_is_half_a_gibibyte() {
    assert_eq!(MAX_CAPACITY, 512 * 1024 * 1024);
}

#[test]
fn small_limit_bounds_the_first_block() {
    let mut buf = limited(10);
    assert_eq!(buf.block().len(), 10);
    assert_eq!(buf.take_block().len(), 10);
    buf.reset_with_data(b"abc");
    assert_eq!(buf.block().len(), 10);
    assert_eq!(buf.buffered(), b"abc");
}

#[test]
fn growth_is_cut_at_the_limit() {
    let mut buf = limited(9 * 1024);
    buf.ensure_capacity(8225).unwrap();
    assert_eq!(buf.block().len(), 9 * 1024);
}

#[test]
fn growth_leaves_bytes_free() {
    let mut buf = Buffer::new();
    buf.extend_used(4096);
    buf.grow(0).unwrap();
    assert!(!buf.free_as_mut_slice().is_empty());
    assert_eq!(buf.block().len(), 8192);
    assert_eq!(buf.used(), 4096);

    // Where bytes are free, none more are needed.
    buf.grow(0).unwrap();
    assert_eq!(buf.block().len(), 8192);

    let mut buf = limited(4096);
    buf.extend_used(4096);
    assert_eq!(buf.grow(0), Err(StreamError::ResponseTooLarge));
    assert_eq!(buf.block().len(), 4096);
}

#[test]
fn growth_past_the_limit_changes_nothing() {
    let mut buf = limited(6000);
    let error = buf.grow(4096).unwrap_err();
    assert_eq!(error, StreamError::ResponseTooLarge);
    assert_eq!(error.kind(), ErrorKind::InvalidData);
    assert_eq!(error.message(), "incoming IMAP response too large");
    assert_eq!(buf.block().len(), 4096);

    // A size that cannot be counted is larger than any limit.
    let mut buf = limited(usize::MAX);
    assert!(buf.grow(usize::MAX).is_err());
    assert_eq!(buf.block().len(), 4096);
}

#[test]
fn grown_bytes_are_zero_and_the_others_stay() {
    let mut buf = Buffer::new();
    buf.free_as_mut_slice().fill(7);
    buf.extend_used(Buffer::BLOCK_SIZE);
    buf.ensure_capacity(0).unwrap();
    assert_eq!(buf.buffered(), vec![7; Buffer::BLOCK_SIZE]);
    assert_eq!(buf.free_as_mut_slice(), vec![0; Buffer::BLOCK_SIZE]);
}

#[test]
fn block_larger_than_an_allocation_is_refused() {
    let mut buf = limited(usize::MAX);
    assert!(buf.can_ensure_capacity(1 << 20));
    assert!(!buf.can_ensure_capacity(usize::MAX));
    assert_eq!(buf.prepare(usize::MAX), Err(StreamError::SizeOverflow));
    assert_eq!(buf.block().len(), 4096);
    assert_eq!(buf.prepare(5000), Ok(()));
    assert_eq!(buf.block().len(), 8192);

    // The limit comes first.
    let mut buf = limited(8192);
    assert!(buf.can_ensure_capacity(usize::MAX));
    assert_eq!(buf.prepare(usize::MAX), Err(StreamError::ResponseTooLarge));
}

#[test]
fn extending_by_any_number_stops_at_the_end() {
    let mut buf = Buffer::new();
    buf.extend_used(1);
    buf.extend_used(usize::MAX);
    assert_eq!(buf.used(), Buffer::BLOCK_SIZE);
}

#[test]
fn returned_block_restores_the_buffer() {
    let mut buf = Buffer::new();
    buf.free_as_mut_slice()[..3].copy_from_slice(b"abc");
    buf.extend_used(3);
    let block = buf.take_block();
    assert_eq!(&block[..3], b"abc");
    buf.return_block(block);
    assert_eq!(buf.buffered(), b"abc");
}

#[test]
fn reset_to_the_limit_leaves_no_room() {
    let mut buf = limited(4096);
    buf.reset_with_data(&[1; 4095]);
    assert_eq!(buf.free_as_mut_slice().len(), 1);
    buf.reset_with_data(&[1; 4096]);
    assert_eq!(buf.free_as_mut_slice().len(), 0);
    assert_eq!(buf.block().len(), 4096);
}

#[test]
fn size_is_not_zero() {
    assert!(NonZeroSize::new(0).is_none());
    assert_eq!(NonZeroSize::new(3).unwrap().get(), 3);
}
