//! The user-space runtime: what a program computes between its system calls.
pub mod packet;
pub mod dns;
pub mod heap;
pub mod fs;
pub mod io;
pub mod ident;
pub mod udp;
pub mod tcp;
pub mod calls;
pub mod rings;
