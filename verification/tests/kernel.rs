use oxbow::abi::{
    Handle, MsgBuf, SysError, BOOT_CONSOLE, BOOT_MEM, CAP_CHANNEL, CAP_OTHER, CAP_SHM,
    CHAN_NONBLOCK, HANDLE_TABLE_SIZE, PLEDGE_MEM, PLEDGE_STDIO, PROT_EXEC, PROT_READ, PROT_WRITE,
    RECV_NOTIF_FIRED, R_ACK, R_ATTENUATE, R_BIND, R_GRANT, R_IN, R_MAP, R_OUT, R_RECV, R_SEND,
    R_SIGNAL, R_SPAWN, R_WAIT, R_WRITE, SYS_CALL, SYS_CLOSE, SYS_EXIT, SYS_MAP, SYS_SEND,
    SYS_UPTIME_MS, TAG_PING, TAG_PONG,
};
use oxbow::arch;
use oxbow::boot;
use oxbow::boot::{Action, BootContext, Module, Stop};
use oxbow::elf::Image;
use oxbow::image;
use oxbow::ipc;
use oxbow::irq;
use oxbow::kernel;
use oxbow::kernel::Kernel;
use oxbow::mm::mem;
use oxbow::mm::pmm;
use oxbow::mm::pmm::{MemRegion, RegionKind};
use oxbow::mm::vm::{PTE_PRESENT, PTE_USER, PTE_WRITABLE};
use oxbow::notif;
use oxbow::notif::Outcome;
use oxbow::object::{HandleEntry, ObjType, ObjectRef};
use oxbow::proc;
use oxbow::proc::{PState, Process, MAX_IMM};
use oxbow::rng::Csprng;
use oxbow::syscall::caps;
use oxbow::syscall::dev;
use oxbow::syscall::dispatch;
use oxbow::syscall::dispatch::{Call, Entry};
use oxbow::syscall::memory;
use oxbow::syscall::msg;
use oxbow::syscall::spawn;
use oxbow::syscall::stream;
use oxbow::syscall::{SyscallRet, UserSpace};
use oxbow::thread;
use oxbow::thread::{Preempt, State, FAULT_EXIT, MAX_THREADS};

const STACKS: u64 = 0x2000_0000;

fn new_kernel() -> Kernel {
    let map = [MemRegion { base: 0x10_0000, length: 0x40_0000, kind: RegionKind::Usable }];
    let mut rng = Csprng::new();
    rng.reseed(&[1, 2, 3, 4, 5, 6, 7, 8]);
    kernel::init(pmm::init(&map).0, rng, None)
}

fn process(k: &mut Kernel, name: &[u8]) -> (usize, usize) {
    let root = 0x1_0000 + 0x1000 * k.procs.v.iter().filter(|p| p.state == PState::Alive).count() as u64;
    let (pid, _) = proc::create(&mut k.procs, &k.sched, root, name).unwrap();
    let tid = thread::spawn_user(&mut k.sched, STACKS, pid, root, 0);
    (pid, tid)
}

fn run(k: &mut Kernel, tid: usize) {
    thread::switch_to(&mut k.sched, 0, tid, 0);
}

fn grant(k: &mut Kernel, pid: usize, slot: Handle, obj: ObjectRef, rights: u32) {
    k.procs.v[pid].install(slot, HandleEntry { obj, rights, badge: 0 });
}

fn memory_cap(k: &mut Kernel, pid: usize, budget: u64) -> u8 {
    let b = mem::grant(&mut k.mems, budget).unwrap();
    let gen = mem::mem_gen(&k.mems, b);
    k.procs.v[pid].install(
        BOOT_MEM,
        HandleEntry { obj: ObjectRef::Memory(b), rights: R_MAP | R_GRANT, badge: gen as u64 },
    );
    b
}

/// One page of user memory at 0x40_0000.
fn user_ram() -> Vec<u64> {
    let mut ram = vec![0u64; 512 * 8];
    let link = PTE_PRESENT | PTE_USER | PTE_WRITABLE;
    ram[0] = 0x1000 | link;
    ram[512] = 0x2000 | link;
    ram[1024 + 2] = 0x3000 | link;
    ram[1536] = 0x7000 | link;
    ram
}

const PTR: u64 = 0x40_0000;

fn failed(e: SysError) -> SyscallRet {
    SyscallRet::err(e)
}

#[test]
fn threads_take_turns() {
    let mut s = thread::init();
    let a = thread::spawn_kernel(&mut s, STACKS);
    let b = thread::spawn_kernel(&mut s, STACKS);
    assert_eq!((a, b), (1, 2));
    assert_eq!(thread::pick_next(&s, 0), Some(1));
    let sw = thread::yield_now(&mut s, 0, 0).unwrap();
    assert_eq!((sw.prev, sw.next), (0, 1));
    let sw = thread::yield_now(&mut s, 0, 0).unwrap();
    assert_eq!((sw.prev, sw.next), (1, 2));
    let sw = thread::yield_now(&mut s, 0, 0).unwrap();
    assert_eq!((sw.prev, sw.next), (2, 0));
    assert_eq!(thread::current(&s, 0), 0);
    assert_eq!(s.tcbs[2].state, State::Ready);
}

#[test]
fn threads_run_out() {
    let mut s = thread::init();
    for _ in 1..MAX_THREADS {
        assert_ne!(thread::spawn_kernel(&mut s, STACKS), 0);
    }
    assert_eq!(thread::spawn_kernel(&mut s, STACKS), 0);
}

#[test]
fn a_wakeup_before_the_switch_is_not_lost() {
    let mut s = thread::init();
    let a = thread::spawn_kernel(&mut s, STACKS);
    thread::switch_to(&mut s, 0, a, 0);
    thread::prepare_block(&mut s, 0);
    thread::wake(&mut s, a);
    assert!(thread::block_current(&mut s, 0, 0).is_none() || s.tcbs[a].state != State::Blocked);
    assert_ne!(s.tcbs[a].state, State::Blocked);
}

#[test]
fn sleepers_wake_at_their_time() {
    let mut s = thread::init();
    let a = thread::spawn_kernel(&mut s, STACKS);
    let b = thread::spawn_kernel(&mut s, STACKS);
    thread::switch_to(&mut s, 0, a, 0);
    thread::prepare_block(&mut s, 0);
    thread::set_wake_at(&mut s, a, 50);
    thread::block_current(&mut s, 0, 0);
    assert_eq!(thread::current(&s, 0), b);
    thread::wake_expired(&mut s, 49);
    assert_eq!(s.tcbs[a].state, State::Blocked);
    thread::wake_expired(&mut s, 50);
    assert_eq!(s.tcbs[a].state, State::Ready);
}

#[test]
fn preemption_and_dying() {
    let mut s = thread::init();
    let a = thread::spawn_user(&mut s, STACKS, 3, 0x5000, 0);
    let b = thread::spawn_user(&mut s, STACKS, 4, 0x6000, 0);
    thread::switch_to(&mut s, 0, a, 0);
    match thread::preempt(&mut s, 0, 0x5000) {
        Preempt::Switch(sw) => {
            assert_eq!(sw.next, b);
            assert_eq!(sw.load_cr3, Some(0x6000));
        }
        _ => panic!("no switch"),
    }
    thread::mark_proc_dying(&mut s, 4);
    assert!(thread::must_die(&s, 0));
    assert!(matches!(thread::preempt(&mut s, 0, 0x6000), Preempt::Exit));
    assert!(thread::proc_has_live_threads(&s, 4));
    assert!(!thread::proc_has_live_threads(&s, 9));
}

#[test]
fn futexes() {
    let mut s = thread::init();
    let a = thread::spawn_user(&mut s, STACKS, 3, 0x5000, 0);
    let b = thread::spawn_user(&mut s, STACKS, 3, 0x5000, 0);
    thread::switch_to(&mut s, 0, a, 0);
    thread::futex_arm(&mut s, 0, 0x9000, 0, 0);
    assert!(thread::futex_wait(&mut s, 0, 5, 5));
    thread::block_current(&mut s, 0, 0);
    assert_eq!(thread::current(&s, 0), b);
    assert_eq!(thread::futex_wake(&mut s, 0, 0x9004, 10), 0);
    assert_eq!(thread::futex_wake(&mut s, 0, 0x9000, 10), 1);
    assert_eq!(s.tcbs[a].state, State::Ready);
    thread::switch_to(&mut s, 0, a, 0);
    assert!(!thread::futex_finish(&mut s, 0, 0, 9));
    thread::futex_arm(&mut s, 0, 0x9000, 0, 0);
    assert!(!thread::futex_wait(&mut s, 0, 4, 5));
}

#[test]
fn handle_tables() {
    let mut p = Process::new();
    let e = HandleEntry { obj: ObjectRef::Console, rights: R_WRITE, badge: 0 };
    assert_eq!(p.get(0).err(), Some(SysError::BadHandle));
    let h = p.alloc_slot(e).unwrap();
    assert!(h > 0);
    assert!(p.lookup(h, ObjType::Console, R_WRITE).is_ok());
    assert_eq!(p.lookup(h, ObjType::Pipe, 0).err(), Some(SysError::BadType));
    assert_eq!(p.lookup(h, ObjType::Console, R_MAP).err(), Some(SysError::Rights));
    assert_eq!(p.lookup(9, ObjType::Console, 0).err(), Some(SysError::BadHandle));
    assert_eq!(p.close(h), Ok(()));
    assert_eq!(p.close(h), Err(SysError::BadHandle));
    for _ in 1..HANDLE_TABLE_SIZE {
        assert!(p.alloc_slot(e).is_ok());
    }
    assert_eq!(p.alloc_slot(e).err(), Some(SysError::NoSlots));
    p.close_all();
    assert!(p.get(1).is_err());
}

#[test]
fn pledges_only_narrow() {
    let mut p = Process::new();
    assert!(p.pledge_allows(PLEDGE_MEM));
    p.pledge_narrow(PLEDGE_STDIO);
    assert!(!p.pledge_allows(PLEDGE_MEM));
    p.pledge_narrow(PLEDGE_STDIO | PLEDGE_MEM);
    assert!(!p.pledge_allows(PLEDGE_MEM));
    assert!(p.pledge_allows(PLEDGE_STDIO));
}

#[test]
fn locked_ranges_stay_locked() {
    let mut p = Process::new();
    assert!(p.immutable_add(0x1000, 0x3000));
    assert!(p.is_immutable(0x2000, 0x2001));
    assert!(!p.is_immutable(0x3000, 0x4000));
    for i in 1..MAX_IMM as u64 {
        assert!(p.immutable_add(i << 20, (i << 20) + 1));
    }
    assert!(!p.immutable_add(0x9000_0000, 0x9000_0001));
}

#[test]
fn notifications_latch() {
    let mut k = new_kernel();
    let n = notif::create(&mut k.notifs).unwrap();
    notif::signal(&mut k.notifs, &mut k.ipc.slots, &mut k.sched, n);
    notif::signal(&mut k.notifs, &mut k.ipc.slots, &mut k.sched, n);
    assert_eq!(notif::poll(&mut k.notifs, n), 2);
    assert_eq!(notif::poll(&mut k.notifs, n), 0);
    notif::signal_exit(&mut k.notifs, &mut k.ipc.slots, &mut k.sched, n, -7);
    assert_eq!(notif::status(&k.notifs, n), -7);
}

#[test]
fn interrupts_signal_their_notification() {
    let mut k = new_kernel();
    let n = notif::create(&mut k.notifs).unwrap();
    irq::fire(&k.irqs, &mut k.notifs, &mut k.ipc.slots, &mut k.sched, 4);
    assert_eq!(notif::poll(&mut k.notifs, n), 0);
    irq::bind(&mut k.irqs, 4, n);
    assert!(irq::is_bound(&k.irqs, 4));
    irq::fire(&k.irqs, &mut k.notifs, &mut k.ipc.slots, &mut k.sched, 4);
    assert_eq!(notif::poll(&mut k.notifs, n), 1);
}

#[test]
fn the_clock_signals_and_wakes() {
    let mut k = new_kernel();
    let n = notif::create(&mut k.notifs).unwrap();
    notif::arm_tick(&mut k.notifs, n);
    arch::lapic_timer(&mut k, 0, 99);
    assert_eq!(notif::poll(&mut k.notifs, n), 0);
    arch::lapic_timer(&mut k, 0, 100);
    assert_eq!(notif::poll(&mut k.notifs, n), 1);
}

/// A server and a client on one endpoint, and the server waiting for a message.
fn server_and_client(k: &mut Kernel) -> (usize, usize, usize, usize) {
    let (sp, st) = process(k, b"server");
    let (cp, ct) = process(k, b"client");
    grant(k, sp, 5, ObjectRef::Endpoint(ipc::EP0), R_RECV | R_SEND | R_GRANT | R_ATTENUATE);
    grant(k, cp, 6, ObjectRef::Endpoint(ipc::EP0), R_SEND);
    (sp, st, cp, ct)
}

#[test]
fn a_call_is_answered() {
    let mut k = new_kernel();
    let ram = user_ram();
    let u = UserSpace { ram: &ram, root: 0 };
    let (sp, st, _, ct) = server_and_client(&mut k);
    run(&mut k, st);
    let (out, m) = msg::sys_recv(&mut k, 0, &u, 5, PTR);
    assert!(matches!(out, Outcome::Sleep) && m.is_none());
    run(&mut k, ct);
    let mut q = MsgBuf::new(TAG_PING);
    q.data[0] = 99;
    q.data_len = 1;
    assert!(matches!(msg::sys_ipc(&mut k, 0, &u, 6, PTR, &q, true), Outcome::Sleep));
    run(&mut k, st);
    let ((rax, rdx), m) = ipc::resume_epilogue(&mut k.ipc.slots, st, true);
    assert_eq!(rax, 0);
    let m = m.unwrap();
    assert_eq!((m.tag, m.data[0], m.badge), (TAG_PING, 99, 0));
    let reply = rdx as Handle;
    assert!(k.procs.v[sp].lookup(reply, ObjType::Reply, 0).is_ok());
    let mut a = MsgBuf::new(TAG_PONG);
    a.data[0] = 100;
    a.data_len = 1;
    assert_eq!(msg::sys_reply(&mut k, 0, &u, reply as u64, PTR, &a), SyscallRet::ok());
    assert_eq!(k.sched.tcbs[ct].state, State::Ready);
    assert_eq!(msg::sys_reply(&mut k, 0, &u, reply as u64, PTR, &a), failed(SysError::BadHandle));
    run(&mut k, ct);
    let ((rax, _), m) = ipc::resume_epilogue(&mut k.ipc.slots, ct, true);
    assert_eq!(rax, 0);
    assert_eq!(m.unwrap().data[0], 100);
}

#[test]
fn a_badge_names_the_sender() {
    let mut k = new_kernel();
    let ram = user_ram();
    let u = UserSpace { ram: &ram, root: 0 };
    let (_, st, cp, ct) = server_and_client(&mut k);
    run(&mut k, st);
    let r = caps::sys_mint(&mut k, 0, 5, 77, (R_SEND | R_GRANT) as u64);
    assert_eq!(r.rax, 0);
    let minted = k.procs.v[k.sched.tcbs[st].proc].get(r.rdx as Handle).unwrap();
    assert_eq!(minted.badge, 77);
    assert_eq!(caps::sys_mint(&mut k, 0, r.rdx, 78, R_SEND as u64).rax != 0, true);
    k.procs.v[cp].install(7, HandleEntry { rights: R_SEND, ..minted });
    msg::sys_recv(&mut k, 0, &u, 5, PTR);
    run(&mut k, ct);
    let mut q = MsgBuf::new(TAG_PING);
    q.badge = 12345;
    assert!(matches!(msg::sys_ipc(&mut k, 0, &u, 7, PTR, &q, false), Outcome::Done(0, _)));
    run(&mut k, st);
    let (_, m) = ipc::resume_epilogue(&mut k.ipc.slots, st, true);
    assert_eq!(m.unwrap().badge, 77);
}

#[test]
fn messages_pass_capabilities_that_may_be_granted() {
    let mut k = new_kernel();
    let ram = user_ram();
    let u = UserSpace { ram: &ram, root: 0 };
    let (sp, st, cp, ct) = server_and_client(&mut k);
    let n = notif::create(&mut k.notifs).unwrap();
    grant(&mut k, cp, 8, ObjectRef::Notification(n), R_SIGNAL | R_GRANT);
    grant(&mut k, cp, 9, ObjectRef::Notification(n), R_SIGNAL);
    run(&mut k, st);
    msg::sys_recv(&mut k, 0, &u, 5, PTR);
    run(&mut k, ct);
    let mut q = MsgBuf::new(TAG_PING);
    q.handle_count = 1;
    q.handles[0] = 9;
    match msg::sys_ipc(&mut k, 0, &u, 6, PTR, &q, false) {
        Outcome::Done(rax, _) => assert_eq!(rax, SysError::Rights.code()),
        Outcome::Sleep => panic!("sent"),
    }
    q.handles[0] = 8;
    assert!(matches!(msg::sys_ipc(&mut k, 0, &u, 6, PTR, &q, false), Outcome::Done(0, _)));
    let (_, m) = ipc::resume_epilogue(&mut k.ipc.slots, st, true);
    let h = m.unwrap().handles[0];
    let e = k.procs.v[sp].get(h).unwrap();
    assert!(e.obj == ObjectRef::Notification(n) && e.rights == R_SIGNAL | R_GRANT);
}

#[test]
fn bad_messages_are_refused() {
    let mut k = new_kernel();
    let ram = user_ram();
    let u = UserSpace { ram: &ram, root: 0 };
    let (_, _, _, ct) = server_and_client(&mut k);
    run(&mut k, ct);
    let q = MsgBuf::new(TAG_PING);
    for (h, ptr, m, e) in [
        (40, PTR, q, SysError::BadHandle),
        (6, 0x9000_0000, q, SysError::Fault),
        (6, PTR, MsgBuf { data_len: 9, ..q }, SysError::Msg),
        (6, PTR, MsgBuf { handle_count: 5, ..q }, SysError::Msg),
    ] {
        match msg::sys_ipc(&mut k, 0, &u, h, ptr, &m, false) {
            Outcome::Done(rax, _) => assert_eq!(rax, e.code()),
            Outcome::Sleep => panic!("sent"),
        }
    }
    let (out, _) = msg::sys_recv(&mut k, 0, &u, 6, PTR);
    assert!(matches!(out, Outcome::Done(r, _) if r == SysError::Rights.code()));
}

#[test]
fn a_receiver_is_woken_by_its_notification() {
    let mut k = new_kernel();
    let (_, st, _, _) = server_and_client(&mut k);
    let n = notif::create(&mut k.notifs).unwrap();
    run(&mut k, st);
    let (out, _) = ipc::recv_notif(
        &mut k.ipc, &mut k.procs, &mut k.regions, &mut k.notifs, &mut k.sched, 0, ipc::EP0, n, PTR,
        true, 0, 0,
    );
    assert!(matches!(out, Outcome::Sleep));
    notif::signal(&mut k.notifs, &mut k.ipc.slots, &mut k.sched, n);
    let ((rax, rdx), m) = ipc::recv_notif_resume(
        &mut k.ipc, &mut k.notifs, &mut k.sched, 0, ipc::EP0, n, true, 0,
    );
    assert_eq!(rax, 0);
    assert_ne!(rdx & RECV_NOTIF_FIRED, 0);
    assert!(m.is_none());
}

#[test]
fn rights_never_grow() {
    let mut k = new_kernel();
    let (pid, tid) = process(&mut k, b"p");
    run(&mut k, tid);
    let n = notif::create(&mut k.notifs).unwrap();
    grant(&mut k, pid, 5, ObjectRef::Notification(n), R_SIGNAL | R_ATTENUATE);
    let r = caps::sys_attenuate(&mut k, 0, 5, R_SIGNAL as u64);
    assert_eq!(r.rax, 0);
    assert_eq!(k.procs.v[pid].get(r.rdx as Handle).unwrap().rights, R_SIGNAL);
    assert_eq!(caps::sys_attenuate(&mut k, 0, 5, R_WAIT as u64), failed(SysError::Rights));
    assert_eq!(caps::sys_attenuate(&mut k, 0, r.rdx, R_SIGNAL as u64), failed(SysError::Rights));
    assert_eq!(caps::sys_close(&mut k, 0, r.rdx), SyscallRet::ok());
    assert_eq!(caps::sys_close(&mut k, 0, r.rdx), failed(SysError::BadHandle));
}

#[test]
fn capability_kinds() {
    let mut k = new_kernel();
    let (pid, tid) = process(&mut k, b"p");
    run(&mut k, tid);
    memory_cap(&mut k, pid, 1 << 20);
    let c = stream::sys_channel_pair(&mut k, 0);
    let s = memory::sys_shm_create(&mut k, 0, BOOT_MEM as u64, 2);
    assert_eq!((c.rax, s.rax), (0, 0));
    assert_eq!(caps::sys_cap_type(&k, 0, c.rdx & 0xffff_ffff).rdx, CAP_CHANNEL);
    assert_eq!(caps::sys_cap_type(&k, 0, s.rdx).rdx, CAP_SHM);
    assert_eq!(caps::sys_cap_type(&k, 0, BOOT_MEM as u64).rdx, CAP_OTHER);
    let none = caps::sys_cap_type(&k, 0, 50);
    assert_eq!((none.rax, none.rdx), (0, CAP_OTHER));
    let e = caps::sys_ep_create(&mut k, 0);
    assert_eq!(e.rax, 0);
    assert_eq!(
        k.procs.v[pid].get(e.rdx as Handle).unwrap().rights,
        R_SEND | R_RECV | R_GRANT | R_ATTENUATE
    );
    assert_eq!(caps::sys_pledge(&mut k, 0, PLEDGE_STDIO), SyscallRet::ok());
    assert!(!k.procs.v[pid].pledge_allows(PLEDGE_MEM));
}

#[test]
fn memory_is_paid_for() {
    let mut k = new_kernel();
    let ram = user_ram();
    let u = UserSpace { ram: &ram, root: 0 };
    let (pid, tid) = process(&mut k, b"p");
    run(&mut k, tid);
    let b = memory_cap(&mut k, pid, 3 * 4096);
    let h = BOOT_MEM as u64;
    let rw = PROT_READ | PROT_WRITE;
    let (r, plan) = memory::sys_map(&mut k, 0, &u, h, 0x40_1000, 2 * 4096, rw);
    assert_eq!(r, SyscallRet::ok());
    assert_eq!(plan.pages.len(), 2);
    assert!(plan.writable);
    assert_eq!(mem::remaining(&k.mems, b), 4096);
    assert_eq!(memory::sys_map(&mut k, 0, &u, h, 0x40_4000, 2 * 4096, rw).0, failed(SysError::NoMem));
    assert_eq!(mem::remaining(&k.mems, b), 4096);
    assert_ne!(memory::sys_map(&mut k, 0, &u, h, 0x40_0000, 4096, rw).0.rax, 0);
    assert_ne!(memory::sys_map(&mut k, 0, &u, h, 0x40_1000, 4096, rw | PROT_EXEC).0.rax, 0);
    assert_eq!(memory::sys_map(&mut k, 0, &u, 50, 0x40_8000, 4096, rw).0, failed(SysError::BadHandle));
    mem::release(&mut k.mems, b);
    assert_eq!(memory::sys_map(&mut k, 0, &u, h, 0x40_8000, 4096, rw).0, failed(SysError::Gone));
}

#[test]
fn locked_pages_are_not_protected() {
    let mut k = new_kernel();
    let ram = user_ram();
    let u = UserSpace { ram: &ram, root: 0 };
    let (pid, tid) = process(&mut k, b"p");
    run(&mut k, tid);
    memory_cap(&mut k, pid, 1 << 20);
    let h = BOOT_MEM as u64;
    let (r, p) = memory::sys_protect(&k, 0, &u, h, PTR, 4096, PROT_READ | PROT_EXEC);
    assert_eq!(r, SyscallRet::ok());
    assert!(p.unwrap().complete);
    assert_ne!(memory::sys_protect(&k, 0, &u, h, PTR, 4096, PROT_WRITE | PROT_EXEC).0.rax, 0);
    assert_eq!(memory::sys_immutable(&mut k, 0, h, PTR, 4096), SyscallRet::ok());
    assert_ne!(memory::sys_protect(&k, 0, &u, h, PTR, 4096, PROT_READ).0.rax, 0);
}

#[test]
fn frames_and_dma() {
    let mut k = new_kernel();
    let ram = user_ram();
    let u = UserSpace { ram: &ram, root: 0 };
    let (pid, tid) = process(&mut k, b"p");
    run(&mut k, tid);
    let b = memory_cap(&mut k, pid, 3 * 4096);
    let f = memory::sys_frame_alloc(&mut k, 0, BOOT_MEM as u64);
    assert_eq!(f.rax, 0);
    assert_eq!(mem::remaining(&k.mems, b), 2 * 4096);
    let (r, page) = memory::sys_frame_map(&mut k, 0, &u, f.rdx, 0x40_1000, PROT_READ | PROT_WRITE);
    assert_eq!(r, SyscallRet::ok());
    assert_eq!(page.unwrap().virt, 0x40_1000);
    let (r, page) = memory::sys_dma_alloc(&mut k, 0, &u, BOOT_MEM as u64, 0x40_2000);
    assert_eq!(r.rax, 0);
    assert_eq!(r.rdx, page.unwrap().phys);
}

#[test]
fn entropy_has_a_limit() {
    let mut k = new_kernel();
    let ram = user_ram();
    let u = UserSpace { ram: &ram, root: 0 };
    let (r, a) = memory::sys_getentropy(&mut k, &u, PTR, 32);
    assert_eq!((r.rax, a.len()), (0, 32));
    let (_, b) = memory::sys_getentropy(&mut k, &u, PTR, 32);
    assert_ne!(a, b);
    assert_eq!(memory::sys_getentropy(&mut k, &u, PTR, 257).0, failed(SysError::Msg));
    assert_eq!(memory::sys_getentropy(&mut k, &u, 0x9000_0000, 8).0, failed(SysError::Fault));
}

#[test]
fn shared_memory_is_mapped_and_freed() {
    let mut k = new_kernel();
    let ram = user_ram();
    let u = UserSpace { ram: &ram, root: 0 };
    let (pid, tid) = process(&mut k, b"p");
    run(&mut k, tid);
    let b = memory_cap(&mut k, pid, 4 * 4096);
    let before = pmm::stats(&k.pmm);
    let s = memory::sys_shm_create(&mut k, 0, BOOT_MEM as u64, 3);
    assert_eq!(s.rax, 0);
    let (r, plan) = memory::sys_shm_map(&k, 0, &u, s.rdx, 0x40_1000);
    assert_eq!((r.rax, r.rdx, plan.pages.len()), (0, 3 * 4096, 3));
    assert_eq!(caps::sys_close(&mut k, 0, s.rdx), SyscallRet::ok());
    assert_eq!(mem::remaining(&k.mems, b), 4 * 4096);
    assert_eq!(pmm::stats(&k.pmm), before);
    assert_eq!(memory::sys_shm_create(&mut k, 0, BOOT_MEM as u64, 9), failed(SysError::NoMem));
}

#[test]
fn pipes_between_threads() {
    let mut k = new_kernel();
    let ram = user_ram();
    let u = UserSpace { ram: &ram, root: 0 };
    let (pid, tid) = process(&mut k, b"p");
    run(&mut k, tid);
    let p = stream::sys_pipe(&mut k, 0);
    assert_eq!(p.rax, 0);
    assert_eq!(
        k.procs.v[pid].get(p.rdx as Handle).unwrap().rights,
        R_IN | R_OUT | R_GRANT | R_ATTENUATE
    );
    let (out, _) = stream::sys_pipe_read(&mut k, 0, &u, p.rdx, PTR, 10);
    assert!(matches!(out, Outcome::Sleep));
    let t2 = thread::spawn_thread_in_current(&mut k.sched, 0, STACKS, 0);
    run(&mut k, t2);
    let (n, out, pipe) = stream::sys_pipe_write(&mut k, 0, &u, p.rdx, PTR, 5, b"hello");
    assert_eq!((n, pipe.is_some()), (5, true));
    assert!(matches!(out, Outcome::Done(0, 5)));
    assert_eq!(k.sched.tcbs[tid].state, State::Ready);
    run(&mut k, tid);
    let (out, data) = stream::sys_pipe_read(&mut k, 0, &u, p.rdx, PTR, 10);
    assert!(matches!(out, Outcome::Done(0, 5)));
    assert_eq!(data, b"hello".to_vec());
    assert_eq!(stream::sys_pipe_eof(&mut k, 0, p.rdx), SyscallRet::ok());
    let (out, _) = stream::sys_pipe_read(&mut k, 0, &u, p.rdx, PTR, 10);
    assert!(matches!(out, Outcome::Done(0, 0)));
}

#[test]
fn channels_pass_bytes_and_capabilities() {
    let mut k = new_kernel();
    let ram = user_ram();
    let u = UserSpace { ram: &ram, root: 0 };
    let (pid, tid) = process(&mut k, b"p");
    run(&mut k, tid);
    let c = stream::sys_channel_pair(&mut k, 0);
    let (a, b) = (c.rdx & 0xffff_ffff, c.rdx >> 32);
    let n = notif::create(&mut k.notifs).unwrap();
    grant(&mut k, pid, 40, ObjectRef::Notification(n), R_SIGNAL | R_GRANT);
    let (out, sender) =
        stream::sys_channel_send(&mut k, 0, &u, a, PTR, 3, PTR + 64, 1, b"abc", &[40]);
    assert!(matches!(out, Outcome::Done(0, 3)));
    assert_eq!(sender.unwrap().caps.len(), 1);
    assert_eq!(stream::sys_channel_poll(&k, 0, b).rdx, 5);
    let step = stream::sys_channel_recv(&mut k, 0, &u, b, PTR, 16, PTR + 64, 2);
    assert!(matches!(step.out, Outcome::Done(0, v) if v == 3 | (1 << 32)));
    assert_eq!(step.bytes, b"abc".to_vec());
    assert!(k.procs.v[pid].lookup(step.handles[0], ObjType::Notification, R_SIGNAL).is_ok());
    let step = stream::sys_channel_recv(&mut k, 0, &u, b, PTR, 16, PTR + 64, CHAN_NONBLOCK << 32);
    assert!(matches!(step.out, Outcome::Done(11, 0)));
    assert_eq!(stream::sys_channel_close(&mut k, 0, a), SyscallRet::ok());
    let step = stream::sys_channel_recv(&mut k, 0, &u, b, PTR, 16, PTR + 64, 0);
    assert!(matches!(step.out, Outcome::Done(0, 0)));
}

#[test]
fn ports_are_confined() {
    let mut k = new_kernel();
    let (pid, tid) = process(&mut k, b"p");
    run(&mut k, tid);
    grant(&mut k, pid, 5, ObjectRef::IoPort { base: 0x3F8, len: 2 }, R_IN);
    assert_eq!(dev::sys_io_in(&k, 0, 5, 0x3F9), Ok(0x3F9));
    assert!(dev::sys_io_in(&k, 0, 5, 0x3FA).is_err());
    assert!(dev::sys_io_in(&k, 0, 5, 0x3F7).is_err());
    assert_eq!(dev::sys_io_out(&k, 0, 5, 0x3F8, 1), Err(SysError::Rights));
    grant(&mut k, pid, 6, ObjectRef::IoPort { base: 0x60, len: 1 }, R_OUT);
    assert_eq!(dev::sys_io_out(&k, 0, 6, 0x60, 0x1ED), Ok((0x60, 0xED)));
}

#[test]
fn interrupt_lines() {
    let mut k = new_kernel();
    let (pid, tid) = process(&mut k, b"p");
    run(&mut k, tid);
    let n = notif::create(&mut k.notifs).unwrap();
    grant(&mut k, pid, 5, ObjectRef::Irq(4), R_BIND | R_ACK);
    grant(&mut k, pid, 6, ObjectRef::Notification(n), R_SIGNAL | R_WAIT);
    assert_eq!(msg::sys_irq_bind(&mut k, 0, 5, 6), SyscallRet::ok());
    assert!(irq::is_bound(&k.irqs, 4));
    let (r, m) = msg::sys_irq_ack(&k, 0, 5, 0xFF);
    assert_eq!(r, SyscallRet::ok());
    assert_eq!(m, 0xEF);
    assert_eq!(msg::sys_notif_signal(&mut k, 0, 6), SyscallRet::ok());
    assert!(matches!(msg::sys_notif_wait(&mut k, 0, 6), Outcome::Done(0, 1)));
    assert!(matches!(msg::sys_notif_wait(&mut k, 0, 6), Outcome::Sleep));
    assert_eq!(msg::sys_notif_create(&mut k, 0).rax, 0);
}

#[test]
fn console_and_clock() {
    let mut k = new_kernel();
    let ram = user_ram();
    let u = UserSpace { ram: &ram, root: 0 };
    let (pid, tid) = process(&mut k, b"p");
    run(&mut k, tid);
    grant(&mut k, pid, BOOT_CONSOLE, ObjectRef::Console, R_WRITE);
    let (r, out) = dev::sys_console_write(&k, 0, &u, BOOT_CONSOLE as u64, PTR, 3, b"hi\n");
    assert_eq!(r, SyscallRet::ok());
    assert_eq!(out, b"hi\r\n".to_vec());
    assert_ne!(dev::sys_console_write(&k, 0, &u, BOOT_CONSOLE as u64, PTR, 2000, b"").0.rax, 0);
    assert_eq!(dev::sys_uptime_ms(123).rdx, 1230);
}

#[test]
fn calls_are_decoded_and_pledged() {
    assert_eq!(dispatch::decode(SYS_SEND), Call::Send);
    assert_eq!(dispatch::decode(SYS_MAP), Call::MapMemory);
    assert_eq!(dispatch::decode(9999), Call::Nosys);
    assert_eq!(dispatch::pledge_class(SYS_MAP), PLEDGE_MEM);
    let mut k = new_kernel();
    let (pid, tid) = process(&mut k, b"p");
    run(&mut k, tid);
    k.procs.v[pid].pledge_narrow(PLEDGE_STDIO);
    assert!(matches!(
        dispatch::syscall_dispatch(&mut k, 0, SYS_CLOSE, 0, 0),
        Entry::Proceed(Call::Close)
    ));
    assert!(matches!(
        dispatch::syscall_dispatch(&mut k, 0, SYS_UPTIME_MS, 0, 0),
        Entry::Proceed(Call::UptimeMs)
    ));
    assert!(matches!(dispatch::syscall_dispatch(&mut k, 0, SYS_CALL, 0, 0), Entry::Ended(_)));
    assert_eq!(k.procs.v[pid].state, PState::Dead);
}

#[test]
fn exit_signals_the_parent() {
    let mut k = new_kernel();
    let (pid, tid) = process(&mut k, b"p");
    let n = notif::create(&mut k.notifs).unwrap();
    let b = mem::grant(&mut k.mems, 100).unwrap();
    let parent = mem::grant(&mut k.mems, 5).unwrap();
    proc::set_lifecycle(&mut k.procs, pid, Some(n), b, parent, 4096);
    assert_eq!(proc::find_by_exit_notif(&k.procs, n), Some(pid));
    run(&mut k, tid);
    assert!(matches!(dispatch::syscall_dispatch(&mut k, 0, SYS_EXIT, 3, 0), Entry::Ended(_)));
    assert_eq!(notif::poll(&mut k.notifs, n), 1);
    assert_eq!(notif::status(&k.notifs, n), 3);
    assert_eq!(mem::remaining(&k.mems, parent), 4101);
    assert_eq!(k.procs.v[pid].state, PState::Dead);
}

#[test]
fn a_faulting_program_ends() {
    let mut k = new_kernel();
    let (pid, tid) = process(&mut k, b"p");
    let n = notif::create(&mut k.notifs).unwrap();
    let b = mem::grant(&mut k.mems, 100).unwrap();
    proc::set_lifecycle(&mut k.procs, pid, Some(n), b, b, 0);
    run(&mut k, tid);
    proc::kill_current_user(&mut k, 0, 0);
    assert_eq!(notif::status(&k.notifs, n), FAULT_EXIT);
    assert_eq!(k.procs.v[pid].state, PState::Dead);
}

#[test]
fn killing_by_number() {
    let mut k = new_kernel();
    let (pid, _) = process(&mut k, b"p");
    grant(&mut k, pid, 5, ObjectRef::Console, R_WRITE);
    assert!(proc::kill_pid(&mut k, pid, 9));
    assert!(k.procs.v[pid].get(5).is_err());
    assert!(!proc::kill_pid(&mut k, 31, 9));
}

#[test]
fn process_names() {
    let mut k = new_kernel();
    process(&mut k, b"a-rather-long-program-name");
    let mut out = [(0u8, 0u8, [0u8; 16]); 4];
    let n = proc::snapshot(&k.procs, &mut out);
    assert_eq!(n, 1);
    assert_eq!(&out[0].2, b"a-rather-long-p\0");
}

/// A small program: one loadable segment of `code` at 0x40_0000.
fn program(code: &[u8]) -> Vec<u8> {
    let mut f = vec![0u8; 64 + 56];
    f[..4].copy_from_slice(b"\x7fELF");
    f[4] = 2;
    f[5] = 1;
    f[6] = 1;
    f[16..18].copy_from_slice(&2u16.to_le_bytes());
    f[18..20].copy_from_slice(&62u16.to_le_bytes());
    f[24..32].copy_from_slice(&0x40_0078u64.to_le_bytes());
    f[32..40].copy_from_slice(&64u64.to_le_bytes());
    f[54..56].copy_from_slice(&56u16.to_le_bytes());
    f[56..58].copy_from_slice(&1u16.to_le_bytes());
    f[64..68].copy_from_slice(&1u32.to_le_bytes());
    f[68..72].copy_from_slice(&5u32.to_le_bytes());
    f[80..88].copy_from_slice(&0x40_0000u64.to_le_bytes());
    let size = (120 + code.len()) as u64;
    f[96..104].copy_from_slice(&size.to_le_bytes());
    f[104..112].copy_from_slice(&size.to_le_bytes());
    f[112..120].copy_from_slice(&4096u64.to_le_bytes());
    f.extend_from_slice(code);
    f
}

#[test]
fn a_child_is_spawned_and_paid_for() {
    let mut k = new_kernel();
    let ram = user_ram();
    let u = UserSpace { ram: &ram, root: 0 };
    let (pid, tid) = process(&mut k, b"parent");
    run(&mut k, tid);
    let b = memory_cap(&mut k, pid, 0x100_0000);
    grant(&mut k, pid, 7, ObjectRef::Console, R_WRITE | R_GRANT);
    let elf = program(&[0xf4]);
    let mut m = MsgBuf::new(0);
    m.data_len = 1;
    m.data[0] = 0x1_0000;
    m.handle_count = 2;
    m.handles = [0, 7, 0, 0];
    let before = mem::remaining(&k.mems, b);
    let (r, child) = spawn::sys_spawn_bytes(
        &mut k, 0, &u, PTR, elf.len() as u64, &elf, BOOT_MEM as u64, PTR, &m, 0, STACKS,
    );
    assert_eq!(r.rax, 0, "{:?}", r);
    let child = child.unwrap();
    assert_eq!(r.rdx, child.pid as u64);
    assert!(mem::remaining(&k.mems, b) < before);
    assert!(k.procs.v[child.pid].lookup(2, ObjType::Console, R_WRITE).is_ok());
    assert!(k.procs.v[child.pid].lookup(BOOT_MEM, ObjType::Memory, 0).is_ok());
    assert!(k.procs.v[child.pid].get(7).is_err());
    assert_eq!(child.load.entry, 0x40_0078);
    assert!(proc::kill_pid(&mut k, child.pid, 0));
    assert_eq!(mem::remaining(&k.mems, b), before);
}

#[test]
fn bad_programs_are_refused() {
    let mut k = new_kernel();
    let ram = user_ram();
    let u = UserSpace { ram: &ram, root: 0 };
    let (pid, tid) = process(&mut k, b"parent");
    run(&mut k, tid);
    memory_cap(&mut k, pid, 0x100_0000);
    let m = MsgBuf::new(0);
    let mut elf = program(&[0xf4]);
    elf[0] = 0;
    let n = elf.len() as u64;
    let (r, c) = spawn::sys_spawn_bytes(&mut k, 0, &u, PTR, n, &elf, BOOT_MEM as u64, PTR, &m, 0, STACKS);
    assert_ne!(r.rax, 0);
    assert!(c.is_none());
    let (r, _) = spawn::sys_spawn(&mut k, 0, &u, 50, BOOT_MEM as u64, PTR, &m, 0, STACKS);
    assert_eq!(r, failed(SysError::BadHandle));
    let code: &'static [u8] = Box::leak(program(&[0xf4]).into_boxed_slice());
    let i = image::register(&mut k.images, b"hello", code);
    grant(&mut k, pid, 8, ObjectRef::Image(i), R_SPAWN);
    let (r, c) = spawn::sys_spawn(&mut k, 0, &u, 8, BOOT_MEM as u64, PTR, &m, 0, STACKS);
    assert_eq!(r.rax, 0);
    assert!(c.is_some());
}

#[test]
fn a_fork_has_its_own_budget() {
    let mut k = new_kernel();
    let (pid, tid) = process(&mut k, b"p");
    run(&mut k, tid);
    grant(&mut k, pid, 9, ObjectRef::Console, R_WRITE);
    let f = proc::fork_current(&mut k, 0, 0x7_0000, STACKS, None);
    let child = f.pid as usize;
    assert_ne!(child, pid);
    assert!(k.procs.v[child].lookup(9, ObjType::Console, R_WRITE).is_ok());
    assert_eq!(k.procs.v[child].pml4_phys, 0x7_0000);
}

#[test]
fn modules_are_told_apart() {
    assert_eq!(boot::classify(b"kbd"), Module::Kbd);
    assert_eq!(boot::classify(b"net"), Module::Net);
    assert_eq!(boot::classify(b"sh"), boot::classify(b"sh"));
    assert!(boot::boot_budget(Module::Shell) > boot::boot_budget(Module::Kbd));
}

#[test]
fn a_booted_driver_holds_its_ports() {
    let mut k = new_kernel();
    let tick = notif::create(&mut k.notifs).unwrap();
    let ctx = BootContext {
        tick,
        input_chan: None,
        term_chan: None,
        mouse_chan: None,
        nic: None,
        blk: None,
    };
    let elf = program(&[0xf4]);
    let img = Image::try_validate(&elf).ok().unwrap();
    let b = boot::boot_module(&mut k, b"kbd", &img, &ctx, STACKS);
    assert!(k.procs.v[b.pid].lookup(5, ObjType::IoPort, R_IN).is_ok());
    assert_eq!(k.sched.tcbs[b.tid].state, State::Ready);
    let s = boot::boot_module(&mut k, b"shell", &img, &ctx, STACKS);
    for h in 0..HANDLE_TABLE_SIZE as u32 {
        if let Ok(e) = k.procs.v[s.pid].get(h) {
            assert!(!matches!(e.obj, ObjectRef::IoPort { .. } | ObjectRef::Irq(_)));
        }
    }
}

#[test]
fn modules_are_taken_one_by_one() {
    let mut k = new_kernel();
    let ctx = boot::prepare(&mut k, Some((0x1800, 11)), None).unwrap();
    assert_eq!((ctx.nic, ctx.blk), (Some((0x1800, 11)), None));
    assert_ne!(ctx.input_chan, ctx.term_chan);
    assert_ne!(ctx.term_chan, ctx.mouse_chan);
    let code: &'static [u8] = Box::leak(program(&[0xf4]).into_boxed_slice());
    let mut initrd = None;
    let archive: &'static [u8] = &[0; 5000];
    let r = boot::boot_step(&mut k, &mut initrd, b"initrd", archive, 0x30_0000, &ctx, STACKS);
    assert!(matches!(r, Action::Remembered));
    assert_eq!(initrd, Some((0x30_0000, 5000)));
    let r = boot::boot_step(&mut k, &mut initrd, b"kbd", code, 0, &ctx, STACKS);
    assert!(matches!(r, Action::Started(_, ref pages) if pages.is_empty()));
    let r = boot::boot_step(&mut k, &mut initrd, b"fs", code, 0, &ctx, STACKS);
    assert!(matches!(r, Action::Started(_, ref pages) if pages.len() == 2));
    let r = boot::boot_step(&mut k, &mut initrd, b"kbd", b"no program", 0, &ctx, STACKS);
    assert!(matches!(r, Action::Stopped(Stop::BadProgram)));
    let pages = boot::initrd_pages(0x30_0000, 5000);
    assert_eq!(pages.len(), 2);
    assert_eq!(pages[1].phys, 0x30_1000);
}

#[test]
fn programs_on_demand_are_registered() {
    let mut k = new_kernel();
    let ctx = boot::prepare(&mut k, None, None).unwrap();
    let mut initrd = None;
    let mut r = boot::boot_step(&mut k, &mut initrd, b"hello", b"x", 0, &ctx, STACKS);
    assert_eq!(boot::classify(b"hello"), Module::Image);
    assert!(matches!(r, Action::Registered(0)));
    for _ in 1..image::MAX_IMAGES {
        r = boot::boot_step(&mut k, &mut initrd, b"hello", b"x", 0, &ctx, STACKS);
    }
    assert!(matches!(r, Action::Registered(_)));
    r = boot::boot_step(&mut k, &mut initrd, b"hello", b"x", 0, &ctx, STACKS);
    assert!(matches!(r, Action::Stopped(Stop::NoRoom)));
}

#[test]
fn a_machine_without_clock_does_not_boot() {
    let mut k = new_kernel();
    while notif::create(&mut k.notifs).is_some() {}
    assert!(boot::prepare(&mut k, None, None).is_none());
}

#[test]
fn some_calls_are_always_permitted() {
    for nr in [SYS_EXIT, SYS_CLOSE, oxbow::abi::SYS_PLEDGE] {
        assert_eq!(dispatch::pledge_class(nr), 0);
    }
    assert_eq!(dispatch::pledge_class(SYS_MAP), PLEDGE_MEM);
}

#[test]
fn only_the_valid_part_reaches_the_receiver() {
    let mut buffer = MsgBuf::new(1);
    buffer.data = [9; 8];
    buffer.handles = [8; 4];
    let mut m = MsgBuf::new(TAG_PING);
    m.data_len = 2;
    m.data = [1, 2, 3, 4, 5, 6, 7, 8];
    m.handle_count = 1;
    m.handles = [5, 6, 7, 8];
    m.badge = 44;
    assert_eq!(ipc::copy_msg_to_user(&mut buffer, &m), Ok(()));
    assert_eq!(buffer.tag, TAG_PING);
    assert_eq!(buffer.data, [1, 2, 9, 9, 9, 9, 9, 9]);
    assert_eq!(buffer.handles, [5, 8, 8, 8]);
    assert_eq!(buffer.badge, 44);
    m.data_len = 9;
    assert_eq!(ipc::copy_msg_to_user(&mut buffer, &m), Err(SysError::Msg));
    assert_eq!(buffer.data_len, 2);
}

#[test]
fn a_cleared_thread_is_not_woken() {
    let mut k = new_kernel();
    let n = notif::create(&mut k.notifs).unwrap();
    let (_, tid) = process(&mut k, b"p");
    run(&mut k, tid);
    assert!(matches!(notif::wait(&mut k.notifs, &mut k.sched, 0, n), Outcome::Sleep));
    assert_eq!(k.sched.tcbs[tid].state, State::Blocked);
    notif::clear_waiter(&mut k.notifs, tid);
    notif::signal(&mut k.notifs, &mut k.ipc.slots, &mut k.sched, n);
    assert_eq!(k.sched.tcbs[tid].state, State::Blocked);
    assert_eq!(notif::poll(&mut k.notifs, n), 1);
}

#[test]
fn senders_wait_in_one_queue_each() {
    let mut k = new_kernel();
    let ram = user_ram();
    let u = UserSpace { ram: &ram, root: 0 };
    let (_, st, _, ct) = server_and_client(&mut k);
    let q = MsgBuf::new(TAG_PING);
    for (tid, h) in [(st, 5), (ct, 6)] {
        run(&mut k, tid);
        assert!(matches!(msg::sys_ipc(&mut k, 0, &u, h, PTR, &q, false), Outcome::Sleep));
        assert_eq!(k.sched.tcbs[tid].state, State::Blocked);
    }
    assert_eq!(k.ipc.eps[ipc::EP0 as usize].send_q.len, 2);
    let (_, third) = {
        let (pid, tid) = process(&mut k, b"other");
        grant(&mut k, pid, 5, ObjectRef::Endpoint(ipc::EP0), R_RECV);
        (pid, tid)
    };
    run(&mut k, third);
    let (out, m) = msg::sys_recv(&mut k, 0, &u, 5, PTR);
    assert!(matches!(out, Outcome::Done(0, 0)));
    assert_eq!(m.unwrap().tag, TAG_PING);
    assert_eq!(k.sched.tcbs[st].state, State::Ready);
    assert_eq!(k.sched.tcbs[ct].state, State::Blocked);
    assert_eq!(k.ipc.eps[ipc::EP0 as usize].send_q.len, 1);
}

#[test]
fn locked_pages_are_not_mapped() {
    let mut k = new_kernel();
    let ram = user_ram();
    let u = UserSpace { ram: &ram, root: 0 };
    let (pid, tid) = process(&mut k, b"p");
    run(&mut k, tid);
    let b = memory_cap(&mut k, pid, 1 << 20);
    let h = BOOT_MEM as u64;
    let rw = PROT_READ | PROT_WRITE;
    assert_eq!(memory::sys_immutable(&mut k, 0, h, 0x40_2000, 4096), SyscallRet::ok());
    let (r, plan) = memory::sys_map(&mut k, 0, &u, h, 0x40_1000, 2 * 4096, rw);
    assert_eq!(r, failed(SysError::Rights));
    assert_eq!(plan.pages.len(), 0);
    assert_eq!(mem::remaining(&k.mems, b), 1 << 20);
    assert_eq!(memory::sys_map(&mut k, 0, &u, h, 0x40_3000, 4096, rw).0, SyscallRet::ok());
}

#[test]
fn a_long_send_goes_on_where_it_stopped() {
    let mut k = new_kernel();
    let ram = user_ram();
    let u = UserSpace { ram: &ram, root: 0 };
    let (_, tid) = process(&mut k, b"p");
    run(&mut k, tid);
    let c = stream::sys_channel_pair(&mut k, 0);
    let (a, b) = (c.rdx & 0xffff_ffff, c.rdx >> 32);
    let ent = HandleEntry { obj: ObjectRef::Notification(1), rights: R_SIGNAL, badge: 0 };
    let caps = vec![ent; 20];
    let data: Vec<u8> = (0..9000u32).map(|i| i as u8).collect();
    let (conn, side) = stream::chan_of(&k.procs.v[0], a as Handle, R_OUT).unwrap();
    let mut at = stream::Sending { done: 0, given: 0 };
    assert!(matches!(
        stream::send_again(&mut k, 0, conn, side, &data, &caps, &mut at),
        Outcome::Sleep
    ));
    assert_eq!((at.done, at.given), (8192, 16));
    assert_eq!(k.sched.tcbs[tid].state, State::Blocked);
    let t2 = thread::spawn_thread_in_current(&mut k.sched, 0, STACKS, 0);
    run(&mut k, t2);
    let mut got = Vec::new();
    for _ in 0..2 {
        let step = stream::sys_channel_recv(&mut k, 0, &u, b, PTR, 1024, PTR, 8);
        got.extend_from_slice(&step.bytes);
    }
    assert_eq!(k.sched.tcbs[tid].state, State::Ready);
    run(&mut k, tid);
    assert!(matches!(
        stream::send_again(&mut k, 0, conn, side, &data, &caps, &mut at),
        Outcome::Done(0, 9000)
    ));
    assert_eq!((at.done, at.given), (9000, 20));
    while got.len() < data.len() {
        let step = stream::sys_channel_recv(&mut k, 0, &u, b, PTR, 1024, PTR, 0);
        got.extend_from_slice(&step.bytes);
    }
    assert_eq!(got, data);
}

#[test]
fn a_long_write_goes_on_where_it_stopped() {
    let mut k = new_kernel();
    let ram = user_ram();
    let u = UserSpace { ram: &ram, root: 0 };
    let (_, tid) = process(&mut k, b"p");
    run(&mut k, tid);
    let p = stream::sys_pipe(&mut k, 0);
    let idx = stream::pipe_idx(&k.procs.v[0], p.rdx as Handle, R_OUT).unwrap();
    let size = oxbow::pipe::PBUF;
    let src: Vec<u8> = (0..size + 10).map(|i| i as u8).collect();
    let mut done = 0;
    assert!(matches!(stream::write_again(&mut k, 0, idx, &src, &mut done), Outcome::Sleep));
    assert_eq!(done, size);
    thread::wake(&mut k.sched, tid);
    run(&mut k, tid);
    let mut got = Vec::new();
    let (_, first) = stream::sys_pipe_read(&mut k, 0, &u, p.rdx, PTR, 1024);
    got.extend_from_slice(&first);
    let all = (size + 10) as u64;
    assert_eq!(stream::write_again(&mut k, 0, idx, &src, &mut done), Outcome::Done(0, all));
    while got.len() < src.len() {
        let (_, more) = stream::sys_pipe_read(&mut k, 0, &u, p.rdx, PTR, 1024);
        got.extend_from_slice(&more);
    }
    assert_eq!(got, src);
}

#[test]
fn a_thread_that_ends_tells_its_joiner() {
    let mut k = new_kernel();
    let a = thread::spawn_user(&mut k.sched, STACKS, 3, 0x5000, 0);
    let b = thread::spawn_user(&mut k.sched, STACKS, 3, 0x5000, 0);
    let c = thread::spawn_user(&mut k.sched, STACKS, 3, 0x5000, 0);
    run(&mut k, a);
    thread::futex_arm(&mut k.sched, 0, 0x9000, 0, 0);
    thread::block_current(&mut k.sched, 0, 0);
    assert_eq!(thread::current(&k.sched, 0), b);
    let mut word = 0;
    thread::thread_exit(&mut k.sched, &mut k.notifs, 0, 0x9000, &mut word, 0);
    assert_eq!(word, 1);
    assert_eq!(k.sched.tcbs[b].state, State::Exited);
    assert_eq!(k.sched.tcbs[a].futex_addr, 0);
    assert_ne!(k.sched.tcbs[a].state, State::Blocked);
    run(&mut k, c);
    word = 7;
    thread::thread_exit(&mut k.sched, &mut k.notifs, 0, 0, &mut word, 0);
    assert_eq!(word, 7);
    assert_eq!(k.sched.tcbs[c].state, State::Exited);
}

#[test]
fn a_second_kill_changes_nothing() {
    let mut k = new_kernel();
    let (pid, _) = process(&mut k, b"p");
    let n = notif::create(&mut k.notifs).unwrap();
    let b = mem::grant(&mut k.mems, 100).unwrap();
    let parent = mem::grant(&mut k.mems, 5).unwrap();
    let gen = mem::mem_gen(&k.mems, b);
    proc::set_lifecycle(&mut k.procs, pid, Some(n), b, parent, 4096);
    grant(&mut k, pid, 9, ObjectRef::Console, R_WRITE);
    proc::kill(&mut k, pid, 5);
    assert_eq!(k.procs.v[pid].state, PState::Dead);
    assert!(k.procs.v[pid].get(9).is_err());
    assert_eq!(mem::mem_gen(&k.mems, b), gen + 1);
    assert_eq!(mem::remaining(&k.mems, parent), 4101);
    assert_eq!(notif::status(&k.notifs, n), 5);
    proc::kill(&mut k, pid, 6);
    assert_eq!(mem::mem_gen(&k.mems, b), gen + 1);
    assert_eq!(mem::remaining(&k.mems, parent), 4101);
    assert_eq!(notif::status(&k.notifs, n), 5);
    assert_eq!(notif::poll(&mut k.notifs, n), 1);
}

#[test]
fn the_status_outlives_its_signals() {
    let mut k = new_kernel();
    let n = notif::create(&mut k.notifs).unwrap();
    assert_eq!(notif::status(&k.notifs, n), 0);
    notif::signal_exit(&mut k.notifs, &mut k.ipc.slots, &mut k.sched, n, 4);
    notif::signal(&mut k.notifs, &mut k.ipc.slots, &mut k.sched, n);
    assert_eq!(notif::drain(&mut k.notifs, n), 2);
    assert_eq!(notif::status(&k.notifs, n), 4);
    notif::signal_exit(&mut k.notifs, &mut k.ipc.slots, &mut k.sched, n, -1);
    assert_eq!(notif::status(&k.notifs, n), -1);
}

#[test]
fn a_child_without_room_costs_nothing() {
    let mut k = new_kernel();
    let ram = user_ram();
    let u = UserSpace { ram: &ram, root: 0 };
    let (pid, tid) = process(&mut k, b"parent");
    run(&mut k, tid);
    let b = memory_cap(&mut k, pid, 0x100_0000);
    while thread::spawn_kernel(&mut k.sched, STACKS) != 0 {}
    let elf = program(&[0xf4]);
    let m = MsgBuf::new(0);
    let frames = k.pmm.free.len() as u64 + (k.pmm.end - k.pmm.next) / 4096;
    let (r, child) = spawn::sys_spawn_bytes(
        &mut k, 0, &u, PTR, elf.len() as u64, &elf, BOOT_MEM as u64, PTR, &m, 0, STACKS,
    );
    assert_eq!(r, failed(SysError::NoMem));
    assert!(child.is_none());
    assert_eq!(mem::remaining(&k.mems, b), 0x100_0000);
    assert_eq!(k.procs.v.iter().filter(|p| p.state == PState::Alive).count(), 1);
    assert_eq!(frames, k.pmm.free.len() as u64 + (k.pmm.end - k.pmm.next) / 4096);
}

#[test]
fn a_child_pays_for_its_stack() {
    let mut k = new_kernel();
    let ram = user_ram();
    let u = UserSpace { ram: &ram, root: 0 };
    let (pid, tid) = process(&mut k, b"parent");
    run(&mut k, tid);
    let elf = program(&[0xf4]);
    let mut m = MsgBuf::new(0);
    m.data_len = 1;
    m.data[0] = 4096;
    let b = memory_cap(&mut k, pid, 0x100_0000);
    let (r, child) = spawn::sys_spawn_bytes(
        &mut k, 0, &u, PTR, elf.len() as u64, &elf, BOOT_MEM as u64, PTR, &m, 0, STACKS,
    );
    assert_eq!(r.rax, 0);
    let pages = child.unwrap().load.pages.len() as u64;
    assert_eq!(pages, 1);
    let stack = oxbow::load::USER_STACK_PAGES as u64;
    assert!(0x100_0000 - mem::remaining(&k.mems, b) >= 4096 * (pages + stack) + 4096);
}

#[test]
fn a_thread_stands_in_a_queue_once() {
    let mut k = new_kernel();
    let ram = user_ram();
    let u = UserSpace { ram: &ram, root: 0 };
    let (_, st, _, ct) = server_and_client(&mut k);
    let q = MsgBuf::new(TAG_PING);
    for (tid, h) in [(ct, 6), (st, 5), (ct, 6)] {
        thread::wake(&mut k.sched, tid);
        run(&mut k, tid);
        assert!(matches!(msg::sys_ipc(&mut k, 0, &u, h, PTR, &q, false), Outcome::Sleep));
    }
    let queue = &mut k.ipc.eps[ipc::EP0 as usize].send_q;
    assert_eq!(queue.len, 2);
    assert_eq!(queue.pop(), st);
    assert_eq!(queue.pop(), ct);
}

#[test]
fn a_frame_is_in_one_place() {
    let mut k = new_kernel();
    let (pid, tid) = process(&mut k, b"p");
    run(&mut k, tid);
    memory_cap(&mut k, pid, 1 << 20);
    let h = BOOT_MEM as u64;
    for pages in [3, 2, 1] {
        assert_eq!(memory::sys_shm_create(&mut k, 0, h, pages).rax, 0);
    }
    let mut held: Vec<u64> = k.regions.v.iter().flat_map(|r| r.frames.clone()).collect();
    held.sort();
    held.dedup();
    assert_eq!(held.len(), 6);
    proc::kill(&mut k, pid, 0);
    let mut free = k.pmm.free.clone();
    free.sort();
    assert_eq!(free, held);
    assert!(k.regions.v.iter().all(|r| !r.in_use));
}

#[test]
fn a_call_moves_no_thread() {
    let mut k = new_kernel();
    let ram = user_ram();
    let u = UserSpace { ram: &ram, root: 0 };
    let (_, _, _, ct) = server_and_client(&mut k);
    run(&mut k, ct);
    let places: Vec<_> = k.sched.tcbs.iter().map(|t| t.running_on).collect();
    let q = MsgBuf::new(TAG_PING);
    assert!(matches!(msg::sys_ipc(&mut k, 0, &u, 6, PTR, &q, true), Outcome::Sleep));
    let after: Vec<_> = k.sched.tcbs.iter().map(|t| t.running_on).collect();
    assert_eq!(places, after);
    assert_eq!(k.sched.tcbs[k.sched.cpus[0].idle_tid].state, State::Running);
}

#[test]
fn a_child_without_a_budget_is_left_behind() {
    let mut k = new_kernel();
    let ram = user_ram();
    let u = UserSpace { ram: &ram, root: 0 };
    let (pid, tid) = process(&mut k, b"parent");
    run(&mut k, tid);
    let b = memory_cap(&mut k, pid, 0x100_0000);
    while mem::grant(&mut k.mems, 1).is_some() {}
    let elf = program(&[0xf4]);
    let m = MsgBuf::new(0);
    let (r, child) = spawn::sys_spawn_bytes(
        &mut k, 0, &u, PTR, elf.len() as u64, &elf, BOOT_MEM as u64, PTR, &m, 0, STACKS,
    );
    assert_eq!(r, failed(SysError::NoMem));
    let child = child.unwrap();
    assert_eq!(child.tid, 0);
    let p = &k.procs.v[child.pid];
    assert_eq!((p.state, p.pml4_phys), (PState::Alive, child.root));
    assert!(p.get(BOOT_MEM).is_err());
    assert_eq!(mem::remaining(&k.mems, b), 0x100_0000);
}

#[test]
fn a_child_without_a_process_takes_a_frame() {
    let mut k = new_kernel();
    let ram = user_ram();
    let u = UserSpace { ram: &ram, root: 0 };
    let (pid, tid) = process(&mut k, b"parent");
    run(&mut k, tid);
    let b = memory_cap(&mut k, pid, 0x100_0000);
    while proc::create(&mut k.procs, &k.sched, 0, b"x").is_ok() {}
    let next = k.pmm.next;
    let elf = program(&[0xf4]);
    let m = MsgBuf::new(0);
    let (r, child) = spawn::sys_spawn_bytes(
        &mut k, 0, &u, PTR, elf.len() as u64, &elf, BOOT_MEM as u64, PTR, &m, 0, STACKS,
    );
    assert_eq!(r, failed(SysError::NoMem));
    assert!(child.is_none());
    assert_eq!(k.pmm.next, next + 4096);
    assert_eq!(mem::remaining(&k.mems, b), 0x100_0000);
}
