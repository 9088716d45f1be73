pub mod byte_order;
pub mod fixed_buffer;
pub mod async_ring_buffer;
