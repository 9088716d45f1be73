# fixed_ring_buffer

A fixed-capacity byte buffer and a single-producer single-consumer ring
buffer of bytes, verified with Verus.

- `src/byte_order.rs`: big-endian encoding as spec functions, and the calls
  into `byteorder` that write and read 16-, 32- and 64-bit numbers.
- `src/fixed_buffer.rs`: `FixedBuffer`, a memory block of fixed capacity with
  a data length; bounded reads and writes of bytes and of big-endian numbers.
  Clones share the block until one of them writes.
- `src/async_ring_buffer.rs`: the ring's state and the step that its writer
  and reader take on each poll: how many bytes move, whether to wait, and
  whether the other side has shut down. Its view is the queue of bytes
  written and not yet read.
- `app/lib.rs`: the asynchronous `RingBufferWriter` and `RingBufferReader`
  (`futures` `AsyncWrite`, `AsyncRead`, `AsyncBufRead`), which hold the ring
  behind a mutex, register wakers and wake the other side as each step says.
- `app/recycle.rs`: `RecycledBuffer`, a `FixedBuffer` over a block supplied
  from outside, which hands the block to a recycle function when its last
  handle is dropped (through the library's `FixedBuffer::into_block`).
