use oxbow::channel;
use oxbow::channel::{Conns, RecvOut, CAPQ, CBUF, NCONN};
use oxbow::object::{HandleEntry, ObjType, ObjectRef};
use oxbow::pipe;
use oxbow::pipe::{Pipes, ReadOut, NPIPES, PBUF};
use oxbow::ring::Ring;
use oxbow::waitq::{WaitQ, QCAP};

fn cap(n: u8) -> HandleEntry {
    HandleEntry { obj: ObjectRef::Notification(n), rights: 5, badge: 0 }
}

#[test]
fn ring_is_first_in_first_out() {
    let mut r: Ring<u8> = Ring::new(4, 0);
    assert_eq!(r.write_from(&[1, 2, 3, 4, 5]), 4);
    let mut two = [0u8; 2];
    assert_eq!(r.read_into(&mut two), 2);
    assert_eq!(two, [1, 2]);
    assert_eq!(r.write_from(&[6, 7, 8]), 2);
    let mut out = [0u8; 8];
    assert_eq!(r.read_into(&mut out), 4);
    assert_eq!(&out[..4], &[3, 4, 6, 7]);
    r.push(9);
    assert_eq!(r.pop(), 9);
    r.push(1);
    r.clear();
    assert_eq!(r.len, 0);
}

#[test]
fn wait_queue_removal_is_exact() {
    let mut w = WaitQ::new();
    for t in [3usize, 5, 3, 7] {
        w.push(t);
    }
    w.remove(3);
    let mut out = [0usize; QCAP];
    let n = w.drain(&mut out);
    assert!(out[..n].contains(&5) && out[..n].contains(&7));
    assert!(!out[..n].contains(&3));
    assert_eq!(w.n, 0);
}

#[test]
fn wait_queue_has_a_limit() {
    let mut w = WaitQ::new();
    for t in 0..12usize {
        w.push(t + 1);
    }
    assert_eq!(w.n, QCAP);
}

#[test]
fn pipe_keeps_order_and_ends() {
    let mut p = Pipes::new();
    let i = pipe::create(&mut p).unwrap();
    let mut wake = [0usize; QCAP];
    let mut buf = [0u8; 16];
    assert!(matches!(pipe::try_read(&mut p, i, &mut buf, &mut wake).0, ReadOut::WouldBlock));
    pipe::park_reader(&mut p, i, 42);
    let (w, n) = pipe::try_write(&mut p, i, b"hello", &mut wake);
    assert_eq!((w, n), (5, 1));
    assert_eq!(wake[0], 42);
    assert!(matches!(pipe::try_read(&mut p, i, &mut buf[..3], &mut wake).0, ReadOut::Data(3)));
    assert_eq!(&buf[..3], b"hel");
    assert_eq!(pipe::mark_eof(&mut p, i, &mut wake), 0);
    assert!(matches!(pipe::try_read(&mut p, i, &mut buf, &mut wake).0, ReadOut::Data(2)));
    assert_eq!(&buf[..2], b"lo");
    assert!(matches!(pipe::try_read(&mut p, i, &mut buf, &mut wake).0, ReadOut::Eof));
}

#[test]
fn pipe_fills_up() {
    let mut p = Pipes::new();
    let i = pipe::create(&mut p).unwrap();
    let mut wake = [0usize; QCAP];
    let big = vec![1u8; PBUF + 10];
    assert_eq!(pipe::try_write(&mut p, i, &big, &mut wake).0, PBUF);
    pipe::park_writer(&mut p, i, 9);
    pipe::unpark_writer(&mut p, i, 9);
    assert_eq!(pipe::try_write(&mut p, i, &big, &mut wake).0, 0);
}

#[test]
fn pipes_run_out() {
    let mut p = Pipes::new();
    for _ in 0..NPIPES {
        assert!(pipe::create(&mut p).is_some());
    }
    assert!(pipe::create(&mut p).is_none());
}

#[test]
fn channel_carries_bytes_and_capabilities_both_ways() {
    let mut c = Conns::new();
    let i = channel::create(&mut c).unwrap();
    let mut wake = [0usize; QCAP];
    let mut buf = [0u8; 8];
    let mut caps = [cap(0); 2];
    assert_eq!(channel::try_send(&mut c, i, 0, b"abc", &[cap(1), cap(2), cap(3)], &mut wake).0, 3);
    let (r, nc, _) = channel::try_recv(&mut c, i, 1, &mut buf, &mut caps, &mut wake);
    assert!(matches!(r, RecvOut::Data(3)));
    assert_eq!(nc, 2);
    assert_eq!(&buf[..3], b"abc");
    assert!(matches!(caps[0].obj, ObjectRef::Notification(1)));
    assert!(matches!(caps[1].obj, ObjectRef::Notification(2)));
    assert_eq!(channel::try_send(&mut c, i, 1, b"z", &[], &mut wake).0, 1);
    let (r, _, _) = channel::try_recv(&mut c, i, 0, &mut buf, &mut caps, &mut wake);
    assert!(matches!(r, RecvOut::Data(1)));
    assert_eq!(buf[0], b'z');
}

#[test]
fn channel_reports_readiness_and_end() {
    let mut c = Conns::new();
    let i = channel::create(&mut c).unwrap();
    let mut wake = [0usize; QCAP];
    let mut buf = [0u8; 8];
    assert_eq!(channel::poll(&c, i, 0), 4);
    channel::try_send(&mut c, i, 1, b"x", &[], &mut wake);
    assert_eq!(channel::poll(&c, i, 0), 5);
    channel::park_recv(&mut c, i, 0, 17);
    assert!(channel::peer_open(&c, i, 0));
    let n = channel::close(&mut c, i, 1, &mut wake);
    assert!(wake[..n].contains(&17));
    assert!(!channel::peer_open(&c, i, 0));
    let (r, _, _) = channel::try_recv(&mut c, i, 0, &mut buf, &mut [], &mut wake);
    assert!(matches!(r, RecvOut::Data(1)));
    let (r, _, _) = channel::try_recv(&mut c, i, 0, &mut buf, &mut [], &mut wake);
    assert!(matches!(r, RecvOut::Eof));
}

#[test]
fn channel_limits() {
    let mut c = Conns::new();
    for _ in 0..NCONN {
        assert!(channel::create(&mut c).is_some());
    }
    assert!(channel::create(&mut c).is_none());
    let mut c = Conns::new();
    let i = channel::create(&mut c).unwrap();
    let mut wake = [0usize; QCAP];
    let big = vec![7u8; CBUF + 1];
    let many = vec![cap(1); CAPQ + 3];
    let (b, k, _) = channel::try_send(&mut c, i, 0, &big, &many, &mut wake);
    assert_eq!((b, k), (CBUF, CAPQ));
}

#[test]
fn object_types() {
    assert_eq!(ObjectRef::Notification(3).ty(), ObjType::Notification);
    assert_eq!(ObjectRef::Console.ty(), ObjType::Console);
    assert_eq!(ObjectRef::IoPort { base: 0x60, len: 1 }.ty(), ObjType::IoPort);
}

#[test]
fn the_peer_gets_what_was_sent() {
    let mut pool = Conns::new();
    let c = channel::create(&mut pool).unwrap();
    let mut wake = [0usize; QCAP];
    channel::try_send(&mut pool, c, 0, b"abc", &[cap(1)], &mut wake);
    channel::try_send(&mut pool, c, 1, b"xy", &[], &mut wake);
    channel::try_send(&mut pool, c, 0, b"de", &[cap(2)], &mut wake);
    let (mut got, mut caps) = ([0u8; 4], [cap(0); 1]);
    let r = channel::try_recv(&mut pool, c, 1, &mut got, &mut caps, &mut wake);
    assert_eq!(r, (RecvOut::Data(4), 1, 0));
    assert_eq!(&got, b"abcd");
    assert_eq!(caps[0].obj, ObjectRef::Notification(1));
    let r = channel::try_recv(&mut pool, c, 0, &mut got, &mut caps, &mut wake);
    assert_eq!(r, (RecvOut::Data(2), 0, 0));
    assert_eq!(&got[..2], b"xy");
    let r = channel::try_recv(&mut pool, c, 1, &mut got, &mut caps, &mut wake);
    assert_eq!(r, (RecvOut::Data(1), 1, 0));
    assert_eq!(got[0], b'e');
    assert_eq!(caps[0].obj, ObjectRef::Notification(2));
}
