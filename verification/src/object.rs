//! Kernel objects as handles see them.
use vstd::prelude::*;
use crate::channel::NCONN;
use crate::ipc::{EP_POOL, REPLY_POOL};
use crate::irq::NLINES;
use crate::mm::mem::{FRAME_POOL, MEM_POOL};
use crate::notif::POOL_SIZE;
use crate::pipe::NPIPES;
use crate::shm::NREGIONS;

verus! {

/// The type of a kernel object.
#[derive(Clone, Copy, PartialEq, Eq, Debug, Structural)]
pub enum ObjType {
    Endpoint,
    Reply,
    Console,
    Memory,
    Frame,
    Notification,
    IoPort,
    Irq,
    Image,
    PciDevice,
    Pipe,
    Framebuffer,
    Channel,
    Shm,
}

/// What a handle points at: a pool index, or the description of a device resource.
#[derive(Clone, Copy, PartialEq, Eq, Debug, Structural)]
pub enum ObjectRef {
    Endpoint(u8),
    Reply(u8),
    Console,
    Memory(u8),
    Frame(u8),
    Notification(u8),
    IoPort { base: u16, len: u16 },
    Irq(u8),
    /// A spawnable program image, by registry index.
    Image(u8),
    /// One PCI device: bus, device and function packed into one word.
    PciDevice(u32),
    Pipe(u8),
    /// The linear framebuffer, a singleton.
    Framebuffer,
    /// One side of a channel connection.
    Channel { conn: u8, side: u8 },
    /// A shared memory region.
    Shm(u8),
}

/// The type of the object `o` refers to.
pub open spec fn type_of(o: ObjectRef) -> ObjType {
    match o {
        ObjectRef::Endpoint(_) => ObjType::Endpoint,
        ObjectRef::Reply(_) => ObjType::Reply,
        ObjectRef::Console => ObjType::Console,
        ObjectRef::Memory(_) => ObjType::Memory,
        ObjectRef::Frame(_) => ObjType::Frame,
        ObjectRef::Notification(_) => ObjType::Notification,
        ObjectRef::IoPort { .. } => ObjType::IoPort,
        ObjectRef::Irq(_) => ObjType::Irq,
        ObjectRef::Image(_) => ObjType::Image,
        ObjectRef::PciDevice(_) => ObjType::PciDevice,
        ObjectRef::Pipe(_) => ObjType::Pipe,
        ObjectRef::Framebuffer => ObjType::Framebuffer,
        ObjectRef::Channel { .. } => ObjType::Channel,
        ObjectRef::Shm(_) => ObjType::Shm,
    }
}

impl ObjectRef {
    /// The type of the object referred to.
    pub fn ty(self) -> (t: ObjType)
        ensures
            t == type_of(self),
    {
        match self {
            ObjectRef::Endpoint(_) => ObjType::Endpoint,
            ObjectRef::Reply(_) => ObjType::Reply,
            ObjectRef::Console => ObjType::Console,
            ObjectRef::Memory(_) => ObjType::Memory,
            ObjectRef::Frame(_) => ObjType::Frame,
            ObjectRef::Notification(_) => ObjType::Notification,
            ObjectRef::IoPort { .. } => ObjType::IoPort,
            ObjectRef::Irq(_) => ObjType::Irq,
            ObjectRef::Image(_) => ObjType::Image,
            ObjectRef::PciDevice(_) => ObjType::PciDevice,
            ObjectRef::Pipe(_) => ObjType::Pipe,
            ObjectRef::Framebuffer => ObjType::Framebuffer,
            ObjectRef::Channel { .. } => ObjType::Channel,
            ObjectRef::Shm(_) => ObjType::Shm,
        }
    }
}

/// One occupied slot of a handle table: an object and the holder's rights over it.
#[derive(Clone, Copy, PartialEq, Eq, Debug, Structural)]
pub struct HandleEntry {
    pub obj: ObjectRef,
    pub rights: u32,
    /// On an endpoint, the label delivered to the receiver (0 = unbadged). On a
    /// reply, memory or frame handle, the generation of the pool slot it was made for.
    pub badge: u64,
}

/// The object exists: its pool index, side or port range is in bounds.
pub open spec fn names_object(o: ObjectRef) -> bool {
    match o {
        ObjectRef::Endpoint(i) => i < EP_POOL,
        ObjectRef::Reply(i) => i < REPLY_POOL,
        ObjectRef::Memory(i) => i < MEM_POOL,
        ObjectRef::Frame(i) => i < FRAME_POOL,
        ObjectRef::Notification(i) => i < POOL_SIZE,
        ObjectRef::IoPort { base, len } => base + len <= 0xffff,
        ObjectRef::Irq(l) => l < NLINES,
        ObjectRef::Pipe(i) => i < NPIPES,
        ObjectRef::Channel { conn, side } => conn < NCONN && side < 2,
        ObjectRef::Shm(i) => i < NREGIONS,
        _ => true,
    }
}

/// `rights` holds every bit of `need`.
pub open spec fn has_rights(rights: u32, need: u32) -> bool {
    rights & need == need
}

/// `a` grants nothing that `b` does not.
pub open spec fn rights_within(a: u32, b: u32) -> bool {
    a & !b == 0
}

} // verus!
