//! The C library: strings, numbers, formatting, descriptors, streams.
pub mod string;
pub mod ctype;
pub mod number;
pub mod net;
pub mod fd;
pub mod epoll;
pub mod sort;
pub mod time;
pub mod memory;
pub mod format;
pub mod stdio;
pub mod start;
pub mod message;
