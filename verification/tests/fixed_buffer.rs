use fixed_ring_buffer::fixed_buffer::{align_size, alloc_bytes_ptr, is_shared, FixedBuffer, PAGE_SIZE};

#[test]
fn test_fixed_buffer() {
    let mut fix_buf = FixedBuffer::allocate(1024);
    fix_buf.resize(1024);
    assert_eq!(fix_buf.len(), 1024);
    assert_eq!(1024, fix_buf.capacity());

    let mut fix_buf_read_only = fix_buf.clone();
    fix_buf_read_only.write_buf_at("test".as_bytes(), 0).unwrap();
}

#[test]
fn align_size_rounds_up_to_pages() {
    assert_eq!(align_size(0), 0);
    assert_eq!(align_size(1), 4096);
    assert_eq!(align_size(4096), 4096);
    assert_eq!(align_size(4097), 8192);
    assert_eq!(align_size(10000), 12288);
    assert_eq!(PAGE_SIZE, 4096);
}

#[test]
fn alloc_bytes_ptr_gives_zeroed_block() {
    let block = alloc_bytes_ptr(7);
    assert_eq!(block, vec![0u8; 7]);
}

#[test]
fn new_buffer_is_empty_and_zeroed() {
    let buf = FixedBuffer::allocate(16);
    assert_eq!(buf.len(), 0);
    assert_eq!(buf.capacity(), 16);
    assert_eq!(buf.raw_data(), &[0u8; 16][..]);
    assert!(buf.as_slice().is_empty());
    assert!(!buf.read_only());
}

#[test]
fn alloc_by_tag_uses_the_given_block() {
    let buf = FixedBuffer::alloc_by_tag(vec![1, 2, 3, 4, 5], 3);
    assert_eq!(buf.capacity(), 3);
    assert_eq!(buf.len(), 0);
    assert_eq!(buf.raw_data(), &[1, 2, 3][..]);
}

#[test]
fn append_grows_data_until_full() {
    let mut buf = FixedBuffer::allocate(6);
    assert_eq!(buf.append(&[1, 2, 3, 4]), Ok(4));
    assert_eq!(buf.as_slice(), &[1, 2, 3, 4][..]);
    assert_eq!(buf.append(&[5, 6, 7]), Err("buffer no more space to append".to_string()));
    assert_eq!(buf.as_slice(), &[1, 2, 3, 4][..]);
    assert_eq!(buf.append(&[5, 6]), Ok(2));
    assert_eq!(buf.as_slice(), &[1, 2, 3, 4, 5, 6][..]);
}

#[test]
fn write_at_follows_the_capacity_and_read_at_the_data() {
    let mut buf = FixedBuffer::allocate(8);
    assert_eq!(buf.write_at(&[9, 8, 7, 6], 3, 5), Ok(3));
    assert_eq!(buf.raw_data(), &[0, 0, 0, 0, 0, 9, 8, 7][..]);
    assert_eq!(buf.write_at(&[1, 2], 2, 7), Err("buffer no more space to write".to_string()));
    let mut dst = [0xffu8; 4];
    assert_eq!(buf.read_at(&mut dst, 1, 0), Err("dst buffer no more space to read".to_string()));
    assert_eq!(dst, [0xff; 4]);
    buf.resize(7);
    assert_eq!(buf.read_at(&mut dst, 3, 5), Err("dst buffer no more space to read".to_string()));
    assert_eq!(buf.read_at(&mut dst, 2, 5), Ok(2));
    assert_eq!(dst, [9, 8, 0xff, 0xff]);
    buf.resize(8);
    let mut dst = [0xffu8; 4];
    assert_eq!(buf.read_at(&mut dst, 3, 5), Ok(3));
    assert_eq!(dst, [9, 8, 7, 0xff]);
    let mut dst = [0xffu8; 4];
    assert_eq!(buf.read_at(&mut dst, 4, 5), Err("dst buffer no more space to read".to_string()));
    assert_eq!(dst, [0xff; 4]);
}

#[test]
fn buf_access_is_bounded_by_the_data_length() {
    let mut buf = FixedBuffer::allocate(8);
    buf.resize(4);
    assert_eq!(buf.write_buf_at(&[1, 2], 2), Ok(2));
    assert_eq!(buf.write_buf_at(&[1, 2], 3), Err("buffer no more space to write".to_string()));
    let mut dst = [0u8; 2];
    assert_eq!(buf.read_buf_at(&mut dst, 2), Ok(2));
    assert_eq!(dst, [1, 2]);
    let mut dst = [7u8; 2];
    assert_eq!(buf.read_buf_at(&mut dst, 3), Err("buffer no more space to read".to_string()));
    assert_eq!(dst, [7, 7]);
}

#[test]
fn bigendian_values_read_back() {
    let mut buf = FixedBuffer::allocate(32);
    buf.resize(32);
    assert_eq!(buf.write_bigendian_u8(0xab, 0), Ok(1));
    assert_eq!(buf.write_bigendian_u16(0x1234, 1), Ok(2));
    assert_eq!(buf.write_bigendian_u32(0x89ab_cdef, 3), Ok(4));
    assert_eq!(buf.write_bigendian_u64(0x0102_0304_0506_0708, 7), Ok(8));
    assert_eq!(buf.read_bigendian_u8(0), Ok(0xab));
    assert_eq!(buf.read_bigendian_u16(1), Ok(0x1234));
    assert_eq!(buf.read_bigendian_u32(3), Ok(0x89ab_cdef));
    assert_eq!(buf.read_bigendian_u64(7), Ok(0x0102_0304_0506_0708));
}

#[test]
fn bigendian_writes_put_the_high_byte_first() {
    let mut buf = FixedBuffer::allocate(16);
    buf.resize(16);
    buf.write_bigendian_u16(0x0102, 0).unwrap();
    buf.write_bigendian_u32(0x0304_0506, 2).unwrap();
    buf.write_bigendian_u64(0x0708_090a_0b0c_0d0e, 6).unwrap();
    assert_eq!(&buf.as_slice()[..14], &[1, 2, 3, 4, 5, 6, 7, 8, 9, 10, 11, 12, 13, 14][..]);
}

#[test]
fn bigendian_reads_take_the_high_byte_first() {
    let mut buf = FixedBuffer::allocate(8);
    buf.resize(8);
    buf.write_buf_at(&[0x12, 0x34, 0x56, 0x78, 0x9a, 0xbc, 0xde, 0xf0], 0).unwrap();
    assert_eq!(buf.read_bigendian_u16(0), Ok(0x1234));
    assert_eq!(buf.read_bigendian_u32(4), Ok(0x9abc_def0));
    assert_eq!(buf.read_bigendian_u64(0), Ok(0x1234_5678_9abc_def0));
}

#[test]
fn bigendian_access_past_the_data_fails() {
    let mut buf = FixedBuffer::allocate(8);
    buf.resize(3);
    let err = Err("buffer no more space to write".to_string());
    assert_eq!(buf.write_bigendian_u8(1, 3), err);
    assert_eq!(buf.write_bigendian_u16(1, 2), err);
    assert_eq!(buf.write_bigendian_u32(1, 0), err);
    assert_eq!(buf.write_bigendian_u64(1, 0), err);
    let err = "buffer no more space to read".to_string();
    assert_eq!(buf.read_bigendian_u8(3), Err(err.clone()));
    assert_eq!(buf.read_bigendian_u16(2), Err(err.clone()));
    assert_eq!(buf.read_bigendian_u32(0), Err(err.clone()));
    assert_eq!(buf.read_bigendian_u64(0), Err(err));
    assert_eq!(buf.raw_data(), &[0u8; 8][..]);
}

#[test]
fn writes_leave_other_bytes_alone() {
    let mut buf = FixedBuffer::allocate(6);
    buf.resize(6);
    buf.write_buf_at(&[1, 1, 1, 1, 1, 1], 0).unwrap();
    buf.write_buf_at(&[2, 3], 2).unwrap();
    assert_eq!(buf.as_slice(), &[1, 1, 2, 3, 1, 1][..]);
}

#[test]
fn resize_keeps_the_block() {
    let mut buf = FixedBuffer::allocate(4);
    buf.append(&[5, 6, 7]).unwrap();
    buf.resize(1);
    assert_eq!(buf.as_slice(), &[5][..]);
    buf.resize(4);
    assert_eq!(buf.as_slice(), &[5, 6, 7, 0][..]);
}

#[test]
fn clones_share_until_written() {
    let mut buf = FixedBuffer::allocate(4);
    buf.append(&[1, 2]).unwrap();
    let mut copy = buf.clone();
    assert!(buf.read_only());
    assert!(copy.read_only());
    assert_eq!(copy.as_slice(), buf.as_slice());
    copy.write_buf_at(&[9], 0).unwrap();
    assert_eq!(copy.as_slice(), &[9, 2][..]);
    assert_eq!(buf.as_slice(), &[1, 2][..]);
    assert!(!buf.read_only());
    drop(copy);
    let copy = buf.clone();
    assert!(buf.read_only());
    drop(copy);
    assert!(!buf.read_only());
}

#[test]
fn is_shared_means_more_than_one_handle() {
    assert!(!is_shared(1));
    assert!(is_shared(2));
    assert!(is_shared(7));
}

#[test]
fn resize_and_clones_of_a_fresh_buffer() {
    let mut buf = FixedBuffer::alloc_by_tag(vec![0; 4], 4);
    assert!(!buf.read_only());
    buf.resize(2);
    assert!(!buf.read_only());
    let copy = buf.clone();
    assert!(buf.read_only() && copy.read_only());
    buf.resize(3);
    assert!(buf.read_only());
}

#[test]
fn raw_data_mut_writes_the_block() {
    let mut buf = FixedBuffer::allocate(3);
    buf.raw_data_mut()[1] = 4;
    assert_eq!(buf.raw_data(), &[0, 4, 0][..]);
}

#[test]
fn into_block_hands_back_the_block_from_the_last_handle() {
    let mut buf = FixedBuffer::alloc_by_tag(vec![1, 2, 3], 3);
    buf.append(&[7]).unwrap();
    let copy = buf.clone();
    assert_eq!(copy.into_block(), None);
    assert_eq!(buf.into_block(), Some(vec![7, 2, 3]));
}
