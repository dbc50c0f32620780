//! Small utilities: a fixed-size ring buffer and C-string decoding.

pub mod cstr;
pub mod ringbuf;
