//! The entry of every system call: which call it is, and whether the process may make it.
use vstd::prelude::*;
use crate::abi::{
    PLEDGE_CAP, PLEDGE_IO, PLEDGE_IPC, PLEDGE_MEM, PLEDGE_NOTIF, PLEDGE_SPAWN, PLEDGE_STDIO,
    SYS_ATTENUATE, SYS_CALL, SYS_CAP_TYPE, SYS_CHANNEL_CLOSE, SYS_CHANNEL_PAIR, SYS_CHANNEL_POLL,
    SYS_CHANNEL_RECV, SYS_CHANNEL_SEND, SYS_CLOSE, SYS_CONSOLE_WRITE, SYS_DMA_ALLOC,
    SYS_EP_CREATE, SYS_EXIT, SYS_FB_INFO, SYS_FB_MAP, SYS_FRAME_ALLOC, SYS_FRAME_MAP,
    SYS_GETENTROPY, SYS_IMMUTABLE, SYS_IO_IN, SYS_IO_OUT, SYS_IRQ_ACK, SYS_IRQ_BIND, SYS_MAP,
    SYS_MINT, SYS_NOTIF_CREATE, SYS_NOTIF_SIGNAL, SYS_NOTIF_WAIT, SYS_PCI_BAR_MAP, SYS_PCI_READ,
    SYS_PCI_WRITE, SYS_PIPE, SYS_PIPE_EOF, SYS_PIPE_READ, SYS_PIPE_WRITE, SYS_PLEDGE,
    SYS_PROTECT, SYS_RECV, SYS_REPLY, SYS_SEND, SYS_SHM_CREATE, SYS_SHM_MAP, SYS_SPAWN,
    SYS_SPAWN_BYTES, SYS_UPTIME_MS,
};
use crate::kernel::Kernel;
use crate::proc;
use crate::syscall;
use crate::thread;
use crate::thread::Switch;

verus! {

/// A system call.
#[derive(Clone, Copy, PartialEq, Eq, Debug, Structural)]
pub enum Call {
    Send,
    Recv,
    Call,
    Reply,
    MapMemory,
    FrameAlloc,
    FrameMap,
    NotifCreate,
    NotifSignal,
    NotifWait,
    IoIn,
    IoOut,
    IrqBind,
    IrqAck,
    Spawn,
    SpawnBytes,
    GetEntropy,
    Pledge,
    Immutable,
    Pipe,
    PipeRead,
    PipeWrite,
    PipeEof,
    EpCreate,
    Mint,
    PciRead,
    PciWrite,
    PciBarMap,
    FbInfo,
    FbMap,
    ChannelPair,
    ChannelSend,
    ChannelRecv,
    ChannelClose,
    ChannelPoll,
    ShmCreate,
    ShmMap,
    CapType,
    DmaAlloc,
    Protect,
    UptimeMs,
    ConsoleWrite,
    Attenuate,
    Close,
    Exit,
    /// No such call.
    Nosys,
}

/// The call with number `nr`.
pub open spec fn call_numbered(nr: u64) -> Call {
    if nr == SYS_SEND {
        Call::Send
    } else if nr == SYS_RECV {
        Call::Recv
    } else if nr == SYS_CALL {
        Call::Call
    } else if nr == SYS_REPLY {
        Call::Reply
    } else if nr == SYS_MAP {
        Call::MapMemory
    } else if nr == SYS_FRAME_ALLOC {
        Call::FrameAlloc
    } else if nr == SYS_FRAME_MAP {
        Call::FrameMap
    } else if nr == SYS_NOTIF_CREATE {
        Call::NotifCreate
    } else if nr == SYS_NOTIF_SIGNAL {
        Call::NotifSignal
    } else if nr == SYS_NOTIF_WAIT {
        Call::NotifWait
    } else if nr == SYS_IO_IN {
        Call::IoIn
    } else if nr == SYS_IO_OUT {
        Call::IoOut
    } else if nr == SYS_IRQ_BIND {
        Call::IrqBind
    } else if nr == SYS_IRQ_ACK {
        Call::IrqAck
    } else if nr == SYS_SPAWN {
        Call::Spawn
    } else if nr == SYS_SPAWN_BYTES {
        Call::SpawnBytes
    } else if nr == SYS_GETENTROPY {
        Call::GetEntropy
    } else if nr == SYS_PLEDGE {
        Call::Pledge
    } else if nr == SYS_IMMUTABLE {
        Call::Immutable
    } else if nr == SYS_PIPE {
        Call::Pipe
    } else if nr == SYS_PIPE_READ {
        Call::PipeRead
    } else if nr == SYS_PIPE_WRITE {
        Call::PipeWrite
    } else if nr == SYS_PIPE_EOF {
        Call::PipeEof
    } else if nr == SYS_EP_CREATE {
        Call::EpCreate
    } else if nr == SYS_MINT {
        Call::Mint
    } else if nr == SYS_PCI_READ {
        Call::PciRead
    } else if nr == SYS_PCI_WRITE {
        Call::PciWrite
    } else if nr == SYS_PCI_BAR_MAP {
        Call::PciBarMap
    } else if nr == SYS_FB_INFO {
        Call::FbInfo
    } else if nr == SYS_FB_MAP {
        Call::FbMap
    } else if nr == SYS_CHANNEL_PAIR {
        Call::ChannelPair
    } else if nr == SYS_CHANNEL_SEND {
        Call::ChannelSend
    } else if nr == SYS_CHANNEL_RECV {
        Call::ChannelRecv
    } else if nr == SYS_CHANNEL_CLOSE {
        Call::ChannelClose
    } else if nr == SYS_CHANNEL_POLL {
        Call::ChannelPoll
    } else if nr == SYS_SHM_CREATE {
        Call::ShmCreate
    } else if nr == SYS_SHM_MAP {
        Call::ShmMap
    } else if nr == SYS_CAP_TYPE {
        Call::CapType
    } else if nr == SYS_DMA_ALLOC {
        Call::DmaAlloc
    } else if nr == SYS_PROTECT {
        Call::Protect
    } else if nr == SYS_UPTIME_MS {
        Call::UptimeMs
    } else if nr == SYS_CONSOLE_WRITE {
        Call::ConsoleWrite
    } else if nr == SYS_ATTENUATE {
        Call::Attenuate
    } else if nr == SYS_CLOSE {
        Call::Close
    } else if nr == SYS_EXIT {
        Call::Exit
    } else {
        Call::Nosys
    }
}

/// The call with number `nr`.
pub fn decode(nr: u64) -> (c: Call)
    ensures
        c == call_numbered(nr),
{
    if nr == SYS_SEND {
        Call::Send
    } else if nr == SYS_RECV {
        Call::Recv
    } else if nr == SYS_CALL {
        Call::Call
    } else if nr == SYS_REPLY {
        Call::Reply
    } else if nr == SYS_MAP {
        Call::MapMemory
    } else if nr == SYS_FRAME_ALLOC {
        Call::FrameAlloc
    } else if nr == SYS_FRAME_MAP {
        Call::FrameMap
    } else if nr == SYS_NOTIF_CREATE {
        Call::NotifCreate
    } else if nr == SYS_NOTIF_SIGNAL {
        Call::NotifSignal
    } else if nr == SYS_NOTIF_WAIT {
        Call::NotifWait
    } else if nr == SYS_IO_IN {
        Call::IoIn
    } else if nr == SYS_IO_OUT {
        Call::IoOut
    } else if nr == SYS_IRQ_BIND {
        Call::IrqBind
    } else if nr == SYS_IRQ_ACK {
        Call::IrqAck
    } else if nr == SYS_SPAWN {
        Call::Spawn
    } else if nr == SYS_SPAWN_BYTES {
        Call::SpawnBytes
    } else if nr == SYS_GETENTROPY {
        Call::GetEntropy
    } else if nr == SYS_PLEDGE {
        Call::Pledge
    } else if nr == SYS_IMMUTABLE {
        Call::Immutable
    } else if nr == SYS_PIPE {
        Call::Pipe
    } else if nr == SYS_PIPE_READ {
        Call::PipeRead
    } else if nr == SYS_PIPE_WRITE {
        Call::PipeWrite
    } else if nr == SYS_PIPE_EOF {
        Call::PipeEof
    } else if nr == SYS_EP_CREATE {
        Call::EpCreate
    } else if nr == SYS_MINT {
        Call::Mint
    } else if nr == SYS_PCI_READ {
        Call::PciRead
    } else if nr == SYS_PCI_WRITE {
        Call::PciWrite
    } else if nr == SYS_PCI_BAR_MAP {
        Call::PciBarMap
    } else if nr == SYS_FB_INFO {
        Call::FbInfo
    } else if nr == SYS_FB_MAP {
        Call::FbMap
    } else if nr == SYS_CHANNEL_PAIR {
        Call::ChannelPair
    } else if nr == SYS_CHANNEL_SEND {
        Call::ChannelSend
    } else if nr == SYS_CHANNEL_RECV {
        Call::ChannelRecv
    } else if nr == SYS_CHANNEL_CLOSE {
        Call::ChannelClose
    } else if nr == SYS_CHANNEL_POLL {
        Call::ChannelPoll
    } else if nr == SYS_SHM_CREATE {
        Call::ShmCreate
    } else if nr == SYS_SHM_MAP {
        Call::ShmMap
    } else if nr == SYS_CAP_TYPE {
        Call::CapType
    } else if nr == SYS_DMA_ALLOC {
        Call::DmaAlloc
    } else if nr == SYS_PROTECT {
        Call::Protect
    } else if nr == SYS_UPTIME_MS {
        Call::UptimeMs
    } else if nr == SYS_CONSOLE_WRITE {
        Call::ConsoleWrite
    } else if nr == SYS_ATTENUATE {
        Call::Attenuate
    } else if nr == SYS_CLOSE {
        Call::Close
    } else if nr == SYS_EXIT {
        Call::Exit
    } else {
        Call::Nosys
    }
}

/// The class a process must have kept to make a call; 0 for the calls that are always
/// permitted.
pub open spec fn class_of(c: Call) -> u64 {
    match c {
        Call::ConsoleWrite | Call::GetEntropy | Call::UptimeMs => PLEDGE_STDIO,
        Call::Send | Call::Recv | Call::Call | Call::Reply | Call::EpCreate | Call::Mint
        | Call::Pipe | Call::PipeRead | Call::PipeWrite | Call::PipeEof | Call::ChannelPair
        | Call::ChannelSend | Call::ChannelRecv | Call::ChannelClose | Call::ChannelPoll
        | Call::CapType => PLEDGE_IPC,
        Call::MapMemory | Call::Protect | Call::Immutable | Call::FrameAlloc | Call::FrameMap
        | Call::DmaAlloc | Call::ShmCreate | Call::ShmMap => PLEDGE_MEM,
        Call::Spawn | Call::SpawnBytes => PLEDGE_SPAWN,
        Call::Attenuate => PLEDGE_CAP,
        Call::IoIn | Call::IoOut | Call::PciRead | Call::PciWrite | Call::PciBarMap
        | Call::IrqBind | Call::IrqAck | Call::FbInfo | Call::FbMap => PLEDGE_IO,
        Call::NotifCreate | Call::NotifSignal | Call::NotifWait => PLEDGE_NOTIF,
        Call::Exit | Call::Pledge | Call::Close | Call::Nosys => 0,
    }
}

/// The class a process must have kept to make the call numbered `nr`.
pub fn pledge_class(nr: u64) -> (class: u64)
    ensures
        class == class_of(call_numbered(nr)),
{
    match decode(nr) {
        Call::ConsoleWrite | Call::GetEntropy | Call::UptimeMs => PLEDGE_STDIO,
        Call::Send | Call::Recv | Call::Call | Call::Reply | Call::EpCreate | Call::Mint
        | Call::Pipe | Call::PipeRead | Call::PipeWrite | Call::PipeEof | Call::ChannelPair
        | Call::ChannelSend | Call::ChannelRecv | Call::ChannelClose | Call::ChannelPoll
        | Call::CapType => PLEDGE_IPC,
        Call::MapMemory | Call::Protect | Call::Immutable | Call::FrameAlloc | Call::FrameMap
        | Call::DmaAlloc | Call::ShmCreate | Call::ShmMap => PLEDGE_MEM,
        Call::Spawn | Call::SpawnBytes => PLEDGE_SPAWN,
        Call::Attenuate => PLEDGE_CAP,
        Call::IoIn | Call::IoOut | Call::PciRead | Call::PciWrite | Call::PciBarMap
        | Call::IrqBind | Call::IrqAck | Call::FbInfo | Call::FbMap => PLEDGE_IO,
        Call::NotifCreate | Call::NotifSignal | Call::NotifWait => PLEDGE_NOTIF,
        Call::Exit | Call::Pledge | Call::Close | Call::Nosys => 0,
    }
}

/// A process that kept `pledge` must not make the call numbered `nr`.
pub open spec fn breaks_pledge(pledge: u64, nr: u64) -> bool {
    let class = class_of(call_numbered(nr));
    class != 0 && !proc::permits(pledge, class)
}

/// What the entry of a call comes to.
pub enum Entry {
    /// The call is to be carried out.
    Proceed(Call),
    /// The process is dead; the processor is to switch as told.
    Ended(Option<Switch>),
}

/// Enter the call numbered `nr`, with first argument `a1`. A process that breaks its
/// pledge is killed before the call does anything; one that exits ends here.
pub fn syscall_dispatch(k: &mut Kernel, cpu: usize, nr: u64, a1: u64, live: u64) -> (r: Entry)
    requires
        old(k).wf(),
        old(k).in_process(cpu),
        breaks_pledge(old(k).procs.v@[old(k).caller(cpu)].pledge, nr) || call_numbered(nr)
            == Call::Exit ==> proc::refunds_fit(*old(k), old(k).caller(cpu)),
    ensures
        final(k).wf(),
        ({
            let pledge = old(k).procs.v@[old(k).caller(cpu)].pledge;
            if breaks_pledge(pledge, nr) {
                &&& r is Ended
                &&& proc::process_ended(
                    *old(k),
                    *final(k),
                    cpu,
                    thread::FAULT_EXIT,
                    live,
                    r->Ended_0,
                )
            } else if call_numbered(nr) == Call::Exit {
                &&& r is Ended
                &&& proc::process_ended(*old(k), *final(k), cpu, a1 as i32, live, r->Ended_0)
            } else {
                r == Entry::Proceed(call_numbered(nr)) && *final(k) == *old(k)
            }
        }),
{
    let me: usize = syscall::caller(k, cpu);
    let class: u64 = pledge_class(nr);
    if class != 0 && !k.procs.v[me].pledge_allows(class) {
        return Entry::Ended(proc::end_current(k, cpu, thread::FAULT_EXIT, live));
    }
    let c = decode(nr);
    if c == Call::Exit {
        return Entry::Ended(proc::end_current(k, cpu, a1 as i32, live));
    }
    Entry::Proceed(c)
}

/// Whatever a process gave up, it can still exit, give up more, and close handles.
pub proof fn law_always_permitted(pledge: u64, nr: u64)
    requires
        nr == SYS_EXIT || nr == SYS_PLEDGE || nr == SYS_CLOSE,
    ensures
        !breaks_pledge(pledge, nr),
{
}

/// A call that a process was not permitted stays so, whatever it pledges later.
pub proof fn law_refused_stays_refused(pledge: u64, promises: u64, nr: u64)
    requires
        breaks_pledge(pledge, nr),
    ensures
        breaks_pledge(pledge & promises, nr),
{
    let class = class_of(call_numbered(nr));
    proc::law_pledge_only_narrows(pledge, promises, class);
}

} // verus!
