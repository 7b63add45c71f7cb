pub mod ringbuffer;
