//! A fixed-capacity byte buffer.
//!
//! The buffer owns a memory block of `capacity` bytes, of which the first
//! `len()` bytes are its data. Clones share the block; a write through one
//! handle gives that handle a block of its own first, so what one handle
//! writes is never seen through another.
use crate::byte_order::{be_bytes, be_value, byte_range, lemma_be_round_trip, be_read_u16, be_read_u32, be_read_u64, be_write_u16, be_write_u32, be_write_u64};
use std::sync::Arc;
use vstd::prelude::*;

verus! {

pub const PAGE_BITS: usize = 12;

pub const PAGE_SIZE: usize = 4096;

pub const PAGE_MASK: usize = 4095;

/// `s` with `bytes` written over it from position `offset` on; its length is that of `s`.
pub open spec fn splice(s: Seq<u8>, offset: int, bytes: Seq<u8>) -> Seq<u8> {
    Seq::new(
        s.len(),
        |i: int|
            if offset <= i < offset + bytes.len() {
                bytes[i - offset]
            } else {
                s[i]
            },
    )
}

/// What a `FixedBuffer` holds: its whole memory block, whose length is the
/// capacity, and the length of the data at the start of the block.
pub struct BufferView {
    pub block: Seq<u8>,
    pub len: nat,
}

impl BufferView {
    pub open spec fn capacity(self) -> nat {
        self.block.len()
    }

    /// The data of the buffer: the first `len` bytes of the block.
    pub open spec fn data(self) -> Seq<u8> {
        self.block.take(self.len as int)
    }

    /// The buffer after `bytes` are written into the block at `offset`.
    pub open spec fn with_bytes(self, offset: int, bytes: Seq<u8>) -> BufferView {
        BufferView { block: splice(self.block, offset, bytes), len: self.len }
    }
}

/// What a write of `bytes` at `offset`, bounded by the data length, leaves
/// behind: `result` is `Ok` exactly when the bytes fit below `len()`; then
/// they are written and their number returned, else nothing changes.
pub open spec fn bounded_write(
    before: BufferView,
    after: BufferView,
    offset: int,
    bytes: Seq<u8>,
    result: Result<usize, String>,
) -> bool {
    &&& (result is Ok <==> offset + bytes.len() <= before.len)
    &&& result matches Ok(n) ==> n == bytes.len() && after == before.with_bytes(offset, bytes)
    &&& result matches Err(e) ==> after == before && e@ == "buffer no more space to write"@
}

/// What a read of `width` bytes at `offset`, bounded by the data length,
/// reports: `Ok` exactly when they lie below `len()`, with the value that
/// `decode` gives of them.
pub open spec fn bounded_read<T>(
    view: BufferView,
    offset: int,
    width: nat,
    result: Result<T, String>,
    decode: spec_fn(Seq<u8>) -> T,
) -> bool {
    &&& (result is Ok <==> offset + width <= view.len)
    &&& result matches Ok(v) ==> v == decode(view.block.subrange(offset, offset + width))
    &&& result matches Err(e) ==> e@ == "buffer no more space to read"@
}

/// Reading back where bytes were just written gives those bytes, and every
/// other byte of the block, as well as the data length, is as it was.
pub proof fn lemma_write_read_back(view: BufferView, offset: int, bytes: Seq<u8>)
    requires
        0 <= offset,
        offset + bytes.len() <= view.capacity(),
    ensures
        view.with_bytes(offset, bytes).block.subrange(offset, offset + bytes.len()) == bytes,
        view.with_bytes(offset, bytes).len == view.len,
        view.with_bytes(offset, bytes).capacity() == view.capacity(),
        forall|i: int|
            0 <= i < view.capacity() && !(offset <= i < offset + bytes.len()) ==> #[trigger] view.with_bytes(
                offset,
                bytes,
            ).block[i] == view.block[i],
{
    assert(view.with_bytes(offset, bytes).block.subrange(offset, offset + bytes.len()) =~= bytes);
}

/// A number that one of the `write_bigendian_*` functions wrote at `offset`
/// is what the matching `read_bigendian_*` gives back from there: the write
/// succeeds exactly when its bytes fit in the data, and then the bytes at
/// `offset` decode to the number and the data length is unchanged.
pub proof fn lemma_bigendian_read_back(
    before: BufferView,
    after: BufferView,
    offset: int,
    value: nat,
    width: nat,
    written: Result<usize, String>,
)
    requires
        0 <= offset,
        before.len <= before.capacity(),
        value < byte_range(width),
        bounded_write(before, after, offset, be_bytes(value, width), written),
    ensures
        written is Ok <==> offset + width <= before.len,
        written is Ok ==> after.len == before.len && be_value(
            after.block.subrange(offset, offset + width),
        ) == value,
{
    lemma_be_round_trip(value, width);
    if written is Ok {
        lemma_write_read_back(before, offset, be_bytes(value, width));
    }
}

/// Appending puts `src` right after the data: the new data is the old data
/// followed by `src`.
pub proof fn lemma_append_data(view: BufferView, src: Seq<u8>)
    requires
        view.len + src.len() <= view.capacity(),
    ensures
        (BufferView { block: splice(view.block, view.len as int, src), len: view.len + src.len() }).data()
            == view.data() + src,
{
    let after = BufferView { block: splice(view.block, view.len as int, src), len: view.len + src.len() };
    assert(after.data() =~= view.data() + src);
}

/// Rounds `size` up to the next multiple of `PAGE_SIZE`.
pub fn align_size(size: usize) -> (aligned: usize)
    requires
        size + PAGE_MASK <= usize::MAX,
    ensures
        aligned % PAGE_SIZE == 0,
        size <= aligned < size + PAGE_SIZE,
{
    let rounded_up = size + PAGE_MASK;
    let aligned = rounded_up & (!PAGE_MASK);
    assert(aligned == rounded_up - rounded_up % 4096 && (rounded_up - rounded_up % 4096) % 4096
        == 0) by (bit_vector)
        requires
            aligned == rounded_up & !4095usize,
    ;
    aligned
}

/// A zeroed memory block of `size` bytes.
pub fn alloc_bytes_ptr(size: usize) -> (block: Vec<u8>)
    requires
        size <= isize::MAX,
    ensures
        block@ == Seq::new(size as nat, |i: int| 0u8),
{
    let mut block: Vec<u8> = Vec::with_capacity(size);
    let mut i: usize = 0;
    while i < size
        invariant
            i <= size,
            block@ == Seq::new(i as nat, |k: int| 0u8),
        decreases size - i,
    {
        block.push(0u8);
        i += 1;
    }
    block
}

/// Copies `length` bytes of `src` from `src_offset` on into `dst` at `dst_offset`.
pub(crate) fn copy_bytes(dst: &mut [u8], dst_offset: usize, src: &[u8], src_offset: usize, length: usize)
    requires
        src_offset + length <= src@.len(),
        dst_offset + length <= old(dst)@.len(),
    ensures
        final(dst)@ == splice(
            old(dst)@,
            dst_offset as int,
            src@.subrange(src_offset as int, src_offset + length),
        ),
{
    let dst_len = dst.len();
    let src_len = src.len();
    let mut i: usize = 0;
    while i < length
        invariant
            i <= length,
            src_offset + length <= src_len == src@.len(),
            dst_offset + length <= dst_len == old(dst)@.len(),
            dst_offset + length <= old(dst)@.len(),
            dst@.len() == old(dst)@.len(),
            forall|k: int|
                0 <= k < dst@.len() ==> #[trigger] dst@[k] == if dst_offset <= k < dst_offset + i {
                    src@[src_offset + k - dst_offset]
                } else {
                    old(dst)@[k]
                },
        decreases length - i,
    {
        dst[dst_offset + i] = src[src_offset + i];
        i += 1;
    }
    assert(dst@ =~= splice(
        old(dst)@,
        dst_offset as int,
        src@.subrange(src_offset as int, src_offset + length),
    ));
}

/// Calls `Arc::make_mut`: gives mutable access to the block behind `block`,
/// cloning it first when other handles share it, so that the contents seen
/// through `block` do not change; what is written through the result is what
/// `block` holds afterwards.
#[verifier::external_body]
fn block_mut(block: &mut Arc<Vec<u8>>) -> (bytes: &mut Vec<u8>)
    ensures
        bytes@ == old(block)@,
        final(block)@ == final(bytes)@,
{
    Arc::make_mut(block)
}

/// Calls `Arc::clone`: a new handle on the same block, so with the same contents.
#[verifier::external_body]
fn share_block(block: &Arc<Vec<u8>>) -> (shared: Arc<Vec<u8>>)
    ensures
        shared@ == block@,
{
    Arc::clone(block)
}

/// Calls `Arc::strong_count`: how many handles share the block. It depends on
/// the other handles alive at the time of the call, so only that the count
/// includes `block` itself is stated.
#[verifier::external_body]
fn share_count(block: &Arc<Vec<u8>>) -> (count: usize)
    ensures
        count >= 1,
{
    Arc::strong_count(block)
}

/// Calls `Arc::into_inner`: the block itself when `block` is its last handle,
/// and `None` otherwise. Which it is depends on the handles alive elsewhere,
/// so only that a block handed back holds what `block` held is stated.
#[verifier::external_body]
fn last_block(block: Arc<Vec<u8>>) -> (inner: Option<Vec<u8>>)
    ensures
        inner matches Some(bytes) ==> bytes@ == block@,
{
    Arc::into_inner(block)
}

/// Whether a block that `count` handles hold is shared: more than one holds it.
pub fn is_shared(count: usize) -> (shared: bool)
    ensures
        shared == (count > 1),
{
    count > 1
}

/// Fixed-capacity buffer over a memory block that clones share.
pub struct FixedBuffer {
    capacity: usize,
    data_length: usize,
    block: Arc<Vec<u8>>,
}

impl View for FixedBuffer {
    type V = BufferView;

    closed spec fn view(&self) -> BufferView {
        BufferView { block: self.block@, len: self.data_length as nat }
    }
}

impl FixedBuffer {
    /// The block holds `capacity` bytes and the data fits in it.
    pub closed spec fn wf(&self) -> bool {
        &&& self.block@.len() == self.capacity
        &&& self.data_length <= self.capacity
    }

    /// The data of a well-formed buffer lies within its block.
    pub proof fn lemma_len_within_capacity(&self)
        requires
            self.wf(),
        ensures
            self@.len <= self@.capacity(),
    {
    }

    /// A buffer over the first `capacity` bytes of the memory block `tag`,
    /// with no data yet.
    pub fn alloc_by_tag(tag: Vec<u8>, capacity: usize) -> (buffer: FixedBuffer)
        requires
            capacity <= tag@.len(),
        ensures
            buffer.wf(),
            buffer@.block == tag@.take(capacity as int),
            buffer@.len == 0,
    {
        let mut tag = tag;
        tag.truncate(capacity);
        FixedBuffer { capacity, data_length: 0, block: Arc::new(tag) }
    }

    /// A buffer over a new zeroed block of `capacity` bytes, with no data yet.
    pub fn allocate(capacity: usize) -> (buffer: FixedBuffer)
        requires
            capacity <= isize::MAX,
        ensures
            buffer.wf(),
            buffer@.block == Seq::new(capacity as nat, |i: int| 0u8),
            buffer@.len == 0,
    {
        let block = alloc_bytes_ptr(capacity);
        FixedBuffer { capacity, data_length: 0, block: Arc::new(block) }
    }

    /// The whole memory block, `capacity()` bytes.
    pub fn raw_data(&self) -> (block: &[u8])
        ensures
            block@ == self@.block,
    {
        self.block.as_slice()
    }

    /// The whole memory block, to be written in place. A slice keeps its
    /// length, and the buffer is well formed again once the borrow ends.
    pub fn raw_data_mut(&mut self) -> (block: &mut [u8])
        ensures
            block@ == old(self)@.block,
            final(self)@ == (BufferView { block: final(block)@, len: old(self)@.len }),
            old(self).wf() && final(block)@.len() == block@.len() ==> final(self).wf(),
    {
        block_mut(&mut self.block).as_mut_slice()
    }

    /// The data, the first `len()` bytes of the block.
    pub fn as_slice(&self) -> (data: &[u8])
        ensures
            self.wf() ==> data@ == self@.data(),
    {
        let block = self.block.as_slice();
        let end = if self.data_length <= block.len() {
            self.data_length
        } else {
            block.len()
        };
        vstd::slice::slice_subrange(block, 0, end)
    }

    /// The data, the first `len()` bytes of the block, to be written in place.
    /// A slice keeps its length, and the buffer is well formed again once the
    /// borrow ends.
    pub fn as_mut_slice(&mut self) -> (data: &mut [u8])
        ensures
            old(self).wf() ==> {
                &&& data@ == old(self)@.data()
                &&& final(self)@ == (BufferView {
                    block: final(data)@ + old(self)@.block.skip(old(self)@.len as int),
                    len: old(self)@.len,
                })
                &&& final(data)@.len() == data@.len() ==> final(self).wf()
            },
    {
        let length = self.data_length;
        let block = block_mut(&mut self.block).as_mut_slice();
        let end = if length <= block.len() {
            length
        } else {
            block.len()
        };
        let (data, _rest) = block.split_at_mut(end);
        data
    }

    /// Appends `src` to the data, or fails and changes nothing when the block
    /// has no room for it.
    pub fn append(&mut self, src: &[u8]) -> (result: Result<usize, String>)
        requires
            old(self).wf(),
        ensures
            final(self).wf(),
            result is Ok <==> old(self)@.len + src@.len() <= old(self)@.capacity(),
            result matches Ok(n) ==> n == src@.len() && final(self)@ == (BufferView {
                block: splice(old(self)@.block, old(self)@.len as int, src@),
                len: old(self)@.len + src@.len(),
            }),
            result matches Err(e) ==> final(self)@ == old(self)@ && e@
                == "buffer no more space to append"@,
    {
        if src.len() > self.capacity - self.data_length {
            return Err("buffer no more space to append".to_owned());
        }
        let length = src.len();
        match self.write_at(src, length, self.data_length) {
            Ok(size) => {
                assert(src@.take(length as int) =~= src@);
                self.data_length = self.data_length + size;
                Ok(size)
            },
            Err(e) => Err(e),
        }
    }

    /// Copies `length` bytes of the data from `offset` on into the start of
    /// `dst`, or fails and leaves `dst` as it was when there is not enough
    /// data there: when they would pass `len()`.
    pub fn read_at(&self, dst: &mut [u8], length: usize, offset: usize) -> (result: Result<
        usize,
        String,
    >)
        requires
            self.wf(),
            length <= old(dst)@.len(),
        ensures
            result is Ok <==> offset + length <= self@.len,
            result matches Ok(n) ==> n == length && final(dst)@ == splice(
                old(dst)@,
                0,
                self@.block.subrange(offset as int, offset + length),
            ),
            result matches Err(e) ==> final(dst)@ == old(dst)@ && e@
                == "dst buffer no more space to read"@,
    {
        if length > self.data_length || offset > self.data_length - length {
            return Err("dst buffer no more space to read".to_owned());
        }
        copy_bytes(dst, 0, self.block.as_slice(), offset, length);
        Ok(length)
    }

    /// Writes the first `length` bytes of `src` into the block at `offset`, or
    /// fails and changes nothing when they would pass the capacity.
    pub fn write_at(&mut self, src: &[u8], length: usize, offset: usize) -> (result: Result<
        usize,
        String,
    >)
        requires
            old(self).wf(),
            length <= src@.len(),
        ensures
            final(self).wf(),
            result is Ok <==> offset + length <= old(self)@.capacity(),
            result matches Ok(n) ==> n == length && final(self)@ == old(self)@.with_bytes(
                offset as int,
                src@.take(length as int),
            ),
            result matches Err(e) ==> final(self)@ == old(self)@ && e@
                == "buffer no more space to write"@,
    {
        if length > self.capacity || offset > self.capacity - length {
            return Err("buffer no more space to write".to_owned());
        }
        let bytes = block_mut(&mut self.block);
        copy_bytes(bytes.as_mut_slice(), offset, src, 0, length);
        proof {
            assert(src@.subrange(0, length as int) =~= src@.take(length as int));
        }
        Ok(length)
    }

    /// Writes the byte `val` into the data at `offset`, or fails and changes
    /// nothing when `offset` is not below `len()`.
    pub fn write_bigendian_u8(&mut self, val: u8, offset: usize) -> (result: Result<usize, String>)
        requires
            old(self).wf(),
        ensures
            final(self).wf(),
            bounded_write(old(self)@, final(self)@, offset as int, seq![val], result),
    {
        let mut buf: Vec<u8> = Vec::new();
        buf.push(val);
        assert(buf@ =~= seq![val]);
        self.write_buf_at(buf.as_slice(), offset)
    }

    /// Reads the byte of the data at `offset`, or fails when `offset` is not below `len()`.
    pub fn read_bigendian_u8(&self, offset: usize) -> (result: Result<u8, String>)
        requires
            self.wf(),
        ensures
            bounded_read(self@, offset as int, 1, result, |bytes: Seq<u8>| bytes[0]),
    {
        let mut buf = alloc_bytes_ptr(1);
        match self.read_buf_at(buf.as_mut_slice(), offset) {
            Ok(_) => Ok(buf[0]),
            Err(e) => Err(e),
        }
    }

    /// Writes `val` into the data at `offset` as 2 bytes, most significant
    /// first, or fails and changes nothing when they would pass `len()`.
    pub fn write_bigendian_u16(&mut self, val: u16, offset: usize) -> (result: Result<
        usize,
        String,
    >)
        requires
            old(self).wf(),
        ensures
            final(self).wf(),
            bounded_write(old(self)@, final(self)@, offset as int, be_bytes(val as nat, 2), result),
    {
        let mut buf = alloc_bytes_ptr(2);
        be_write_u16(buf.as_mut_slice(), val);
        assert(buf@ =~= be_bytes(val as nat, 2));
        self.write_buf_at(buf.as_slice(), offset)
    }

    /// Reads the 2 bytes of the data at `offset` as a number, most
    /// significant byte first, or fails when they would pass `len()`.
    pub fn read_bigendian_u16(&self, offset: usize) -> (result: Result<u16, String>)
        requires
            self.wf(),
        ensures
            bounded_read(self@, offset as int, 2, result, |bytes: Seq<u8>| be_value(bytes) as u16),
    {
        let mut buf = alloc_bytes_ptr(2);
        match self.read_buf_at(buf.as_mut_slice(), offset) {
            Ok(_) => {
                assert(buf@.take(2) =~= buf@);
                Ok(be_read_u16(buf.as_slice()))
            },
            Err(e) => Err(e),
        }
    }

    /// Writes `val` into the data at `offset` as 4 bytes, most significant
    /// first, or fails and changes nothing when they would pass `len()`.
    pub fn write_bigendian_u32(&mut self, val: u32, offset: usize) -> (result: Result<
        usize,
        String,
    >)
        requires
            old(self).wf(),
        ensures
            final(self).wf(),
            bounded_write(old(self)@, final(self)@, offset as int, be_bytes(val as nat, 4), result),
    {
        let mut buf = alloc_bytes_ptr(4);
        be_write_u32(buf.as_mut_slice(), val);
        assert(buf@ =~= be_bytes(val as nat, 4));
        self.write_buf_at(buf.as_slice(), offset)
    }

    /// Reads the 4 bytes of the data at `offset` as a number, most
    /// significant byte first, or fails when they would pass `len()`.
    pub fn read_bigendian_u32(&self, offset: usize) -> (result: Result<u32, String>)
        requires
            self.wf(),
        ensures
            bounded_read(self@, offset as int, 4, result, |bytes: Seq<u8>| be_value(bytes) as u32),
    {
        let mut buf = alloc_bytes_ptr(4);
        match self.read_buf_at(buf.as_mut_slice(), offset) {
            Ok(_) => {
                assert(buf@.take(4) =~= buf@);
                Ok(be_read_u32(buf.as_slice()))
            },
            Err(e) => Err(e),
        }
    }

    /// Writes `val` into the data at `offset` as 8 bytes, most significant
    /// first, or fails and changes nothing when they would pass `len()`.
    pub fn write_bigendian_u64(&mut self, val: u64, offset: usize) -> (result: Result<
        usize,
        String,
    >)
        requires
            old(self).wf(),
        ensures
            final(self).wf(),
            bounded_write(old(self)@, final(self)@, offset as int, be_bytes(val as nat, 8), result),
    {
        let mut buf = alloc_bytes_ptr(8);
        be_write_u64(buf.as_mut_slice(), val);
        assert(buf@ =~= be_bytes(val as nat, 8));
        self.write_buf_at(buf.as_slice(), offset)
    }

    /// Reads the 8 bytes of the data at `offset` as a number, most
    /// significant byte first, or fails when they would pass `len()`.
    pub fn read_bigendian_u64(&self, offset: usize) -> (result: Result<u64, String>)
        requires
            self.wf(),
        ensures
            bounded_read(self@, offset as int, 8, result, |bytes: Seq<u8>| be_value(bytes) as u64),
    {
        let mut buf = alloc_bytes_ptr(8);
        match self.read_buf_at(buf.as_mut_slice(), offset) {
            Ok(_) => {
                assert(buf@.take(8) =~= buf@);
                Ok(be_read_u64(buf.as_slice()))
            },
            Err(e) => Err(e),
        }
    }

    /// Reads `buf.len()` bytes of the data from `offset` on into `buf`, or
    /// fails and leaves `buf` as it was when they lie beyond `len()`.
    pub fn read_buf_at(&self, buf: &mut [u8], offset: usize) -> (result: Result<usize, String>)
        requires
            self.wf(),
        ensures
            result is Ok <==> offset + old(buf)@.len() <= self@.len,
            result matches Ok(n) ==> n == old(buf)@.len() && final(buf)@ == self@.block.subrange(
                offset as int,
                offset + n,
            ),
            result matches Err(e) ==> final(buf)@ == old(buf)@ && e@
                == "buffer no more space to read"@,
    {
        let n = buf.len();
        if n > self.data_length || offset > self.data_length - n {
            return Err("buffer no more space to read".to_owned());
        }
        let result = self.read_at(buf, n, offset);
        assert(buf@ =~= self@.block.subrange(offset as int, offset + n));
        result
    }

    /// Writes `buf` into the data at `offset`, or fails and changes nothing
    /// when it would pass `len()`.
    pub fn write_buf_at(&mut self, buf: &[u8], offset: usize) -> (result: Result<usize, String>)
        requires
            old(self).wf(),
        ensures
            final(self).wf(),
            bounded_write(old(self)@, final(self)@, offset as int, buf@, result),
    {
        let n = buf.len();
        if n > self.data_length || offset > self.data_length - n {
            return Err("buffer no more space to write".to_owned());
        }
        let result = self.write_at(buf, n, offset);
        assert(buf@.take(n as int) =~= buf@);
        result
    }

    /// Sets the length of the data; the block is not touched.
    pub fn resize(&mut self, new: usize)
        requires
            old(self).wf(),
            new <= old(self)@.capacity(),
        ensures
            final(self).wf(),
            final(self)@ == (BufferView { block: old(self)@.block, len: new as nat }),
    {
        self.data_length = new;
    }

    /// The capacity set when the buffer was made.
    pub fn capacity(&self) -> (capacity: usize)
        requires
            self.wf(),
        ensures
            capacity == self@.capacity(),
    {
        self.capacity
    }

    /// The length of the data.
    pub fn len(&self) -> (len: usize)
        ensures
            len == self@.len,
    {
        self.data_length
    }

    /// Gives up this handle, and hands back the memory block when this was its
    /// last handle, so that whoever supplied it can take it back.
    pub fn into_block(self) -> (block: Option<Vec<u8>>)
        ensures
            block matches Some(bytes) ==> bytes@ == self@.block,
    {
        last_block(self.block)
    }

    /// Whether another handle shares the memory block with this one: whether
    /// more than one handle holds it. How many do depends on the handles
    /// alive elsewhere, which `share_count` reports and no contract can name.
    pub fn read_only(&self) -> (shared: bool) {
        is_shared(share_count(&self.block))
    }
}

impl std::ops::Deref for FixedBuffer {
    type Target = [u8];

    /// The data, as `as_slice` gives it.
    fn deref(&self) -> (data: &[u8])
        ensures
            self.wf() ==> data@ == self@.data(),
    {
        self.as_slice()
    }
}

impl AsRef<[u8]> for FixedBuffer {
    /// The data, as `as_slice` gives it.
    fn as_ref(&self) -> (data: &[u8])
        ensures
            self.wf() ==> data@ == self@.data(),
    {
        self.as_slice()
    }
}

impl AsMut<[u8]> for FixedBuffer {
    /// The data, as `as_mut_slice` gives it.
    fn as_mut(&mut self) -> (data: &mut [u8])
        ensures
            old(self).wf() ==> {
                &&& data@ == old(self)@.data()
                &&& final(self)@ == (BufferView {
                    block: final(data)@ + old(self)@.block.skip(old(self)@.len as int),
                    len: old(self)@.len,
                })
            },
    {
        self.as_mut_slice()
    }
}

impl std::ops::DerefMut for FixedBuffer {
    /// The data, as `as_mut_slice` gives it.
    fn deref_mut(&mut self) -> (data: &mut [u8])
        ensures
            old(self).wf() ==> {
                &&& data@ == old(self)@.data()
                &&& final(self)@ == (BufferView {
                    block: final(data)@ + old(self)@.block.skip(old(self)@.len as int),
                    len: old(self)@.len,
                })
            },
    {
        self.as_mut_slice()
    }
}

impl Clone for FixedBuffer {
    /// A new handle on the same block, with the same data length.
    fn clone(&self) -> (copy: FixedBuffer)
        ensures
            copy@ == self@,
            copy.wf() == self.wf(),
    {
        FixedBuffer {
            capacity: self.capacity,
            data_length: self.data_length,
            block: share_block(&self.block),
        }
    }
}

} // verus!
