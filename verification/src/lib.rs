//! The logic of a capability microkernel and of its user-space runtime.
pub mod abi;
pub mod arch;
pub mod books;
pub mod boot;
pub mod bytes;
pub mod channel;
pub mod elf;
pub mod fb;
pub mod image;
pub mod ipc;
pub mod irq;
pub mod kernel;
pub mod laws;
pub mod libc;
pub mod load;
pub mod mm;
pub mod notif;
pub mod object;
pub mod pci;
pub mod percpu;
pub mod pipe;
pub mod proc;
pub mod pty;
pub mod ring;
pub mod rng;
pub mod rt;
pub mod shm;
pub mod syscall;
pub mod thread;
pub mod turns;
pub mod usermem;
pub mod waitq;
