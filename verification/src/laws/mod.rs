//! Laws that hold across the library: what one operation gives back of another, what
//! callers may rely on, and what stays as it was.

pub mod authority;
pub mod device;
pub mod exchange;
pub mod holding;
pub mod image;
pub mod library;
pub mod limits;
pub mod mapping;
pub mod process;
pub mod runtime;
pub mod sched;
pub mod stream;
pub mod text;
