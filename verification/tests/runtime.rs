use oxbow::abi::{
    IdentRec, MsgBuf, SysError, BOOT_NET_EP, FS_DIR, FS_FILE, MSG_DATA_WORDS, TAG_FS_CREATE,
    TAG_FS_OPEN, TAG_FS_READ, TAG_FS_WRITE, TAG_TCP_SEND, TAG_TTY_WRITE, TAG_UDP_SENDTO,
};
use oxbow::ipc::copy_msg_to_user;
use oxbow::rt::calls;
use oxbow::rt::calls::{AnonWindow, RecvNotif};
use oxbow::rt::dns;
use oxbow::rt::fs;
use oxbow::rt::fs::{Cwd, Node, OpenError};
use oxbow::rt::heap;
use oxbow::rt::heap::{Alloc, Slab, HEAP_BASE, HEAP_LIMIT};
use oxbow::rt::ident;
use oxbow::rt::io;
use oxbow::rt::io::{Mode, Step, Stdout};
use oxbow::rt::packet::Packet;
use oxbow::rt::rings;
use oxbow::rt::rings::{Ring, RingMap, Shape, RING_XFER};
use oxbow::rt::tcp;
use oxbow::rt::udp;
use oxbow::rt::udp::{FrameCache, Route, UDP_XFER};

fn reply(words: &[u64]) -> Packet {
    let mut m = Packet::new(0);
    for (i, w) in words.iter().enumerate() {
        m.set_word(i, *w);
    }
    m.data_len = words.len() as u32;
    m
}

#[test]
fn words_of_a_message_read_back() {
    let mut m = Packet::new(3);
    m.set_word(0, 0x1122);
    m.set_word(1, u64::MAX);
    assert_eq!(m.word(0), 0x1122);
    assert_eq!(m.word(1), u64::MAX);
    assert_eq!(m.word(2), 0);
    m.put(24, b"abcdef", 4);
    assert_eq!(m.get(24, 6), b"abcd\0\0".to_vec());
    assert_eq!(m.word(1), u64::MAX);
}

#[test]
fn size_classes() {
    assert_eq!(heap::bucket_of(1, 1), 4);
    assert_eq!(heap::bucket_of(16, 8), 4);
    assert_eq!(heap::bucket_of(17, 1), 5);
    assert_eq!(heap::bucket_of(10, 64), 6);
    assert_eq!(heap::bucket_of(4096, 16), 12);
    assert_eq!(heap::bucket_of(4097, 16), 13);
    assert_eq!(heap::bucket_of(u64::MAX, 1), 64);
    assert_eq!(heap::bucket_of(0, 0), 4);
}

fn allocate(s: &mut Slab, size: u64, align: u64) -> Option<u64> {
    loop {
        match s.allocate(size, align) {
            Alloc::Block(a) => return Some(a),
            Alloc::Fail => return None,
            Alloc::Grow { vaddr, len } => {
                assert_eq!(vaddr, s.mapped_end);
                assert_eq!(len % 4096, 0);
                s.grown(len);
            }
        }
    }
}

#[test]
fn heap_blocks_are_disjoint_and_aligned() {
    let mut s = Slab::new();
    let mut got: Vec<(u64, u64)> = vec![];
    for (size, align) in [(1u64, 1u64), (100, 8), (4096, 4096), (17, 16), (5000, 8)] {
        let a = allocate(&mut s, size, align).unwrap();
        assert_eq!(a % align, 0);
        assert!(a >= HEAP_BASE && a + size <= HEAP_LIMIT);
        for (b, n) in &got {
            assert!(a + size <= *b || b + n <= a);
        }
        got.push((a, size));
    }
}

#[test]
fn freed_block_serves_the_next_request_of_its_class() {
    let mut s = Slab::new();
    let a = allocate(&mut s, 100, 8).unwrap();
    let b = allocate(&mut s, 100, 8).unwrap();
    assert_ne!(a, b);
    s.dealloc(a, 100, 8);
    assert_eq!(s.allocate(128, 1), Alloc::Block(a));
    assert_eq!(s.allocate(1 << 39, 1), Alloc::Fail);
    assert_eq!(s.allocate(u64::MAX, 1), Alloc::Fail);
}

#[test]
fn first_request_maps_pages() {
    let mut s = Slab::new();
    assert_eq!(s.allocate(5000, 1), Alloc::Grow { vaddr: HEAP_BASE, len: 8192 });
    s.grown(8192);
    assert_eq!(s.allocate(5000, 1), Alloc::Block(HEAP_BASE));
}

#[test]
fn paths_travel_with_their_end() {
    let m = fs::open(b"etc/motd");
    assert_eq!((m.tag, m.data_len), (TAG_FS_OPEN, 2));
    assert_eq!(m.get(0, 9), b"etc/motd\0".to_vec());
    let long = [b'x'; 100];
    let m = fs::create(&long);
    assert_eq!((m.tag, m.data_len), (TAG_FS_CREATE, 8));
    assert_eq!(m.get(55, 3), vec![b'x', 0, 0]);
    let m = fs::pack_two(9, b"old", b"new");
    assert_eq!((m.tag, m.data_len), (9, 1));
    assert_eq!(m.get(0, 8), b"old\0new\0".to_vec());
}

#[test]
fn open_replies() {
    let mut r = reply(&[0, FS_FILE, 1234]);
    r.handles[0] = 17;
    let n = fs::opened(Ok(()), &r).unwrap();
    assert_eq!(n, Node { cap: 17, kind: FS_FILE, size: 1234, mtime: 0, atime: 0 });
    let r5 = reply(&[0, FS_DIR, 0, 11, 12]);
    let n = fs::opened(Ok(()), &r5).unwrap();
    assert_eq!((n.mtime, n.atime), (11, 12));
    assert_eq!(fs::opened(Ok(()), &reply(&[1])), None);
    assert_eq!(fs::opened(Err(SysError::Gone), &r), None);
    assert_eq!(fs::created(Ok(()), &r), Some(17));
}

#[test]
fn open_with_flags() {
    let m = fs::open_with(b"f", 7);
    assert_eq!(m.data_len as usize, MSG_DATA_WORDS);
    assert_eq!(m.word(MSG_DATA_WORDS - 1), 7);
    assert_eq!(m.get(0, 2), b"f\0".to_vec());
    assert_eq!(fs::opened_with(Ok(()), &reply(&[2])), Err(OpenError::AlreadyExists));
    assert_eq!(fs::opened_with(Ok(()), &reply(&[3])), Err(OpenError::IsADirectory));
    assert_eq!(fs::opened_with(Ok(()), &reply(&[1])), Err(OpenError::NotFound));
    assert_eq!(fs::opened_with(Err(SysError::Msg), &reply(&[0])), Err(OpenError::Failed));
    assert!(fs::opened_with(Ok(()), &reply(&[0, 2, 3, 4, 5])).is_ok());
    assert_eq!(OpenError::NotFound.status(), -1);
    assert_eq!(OpenError::AlreadyExists.status(), -2);
    assert_eq!(OpenError::Failed.status(), -3);
    assert_eq!(OpenError::IsADirectory.status(), -4);
}

#[test]
fn everything_is_written_in_chunks() {
    let data: Vec<u8> = (0..100u8).collect();
    let mut pos = 0;
    let mut got = vec![];
    while pos < data.len() {
        let m = fs::write_chunk(&data, pos);
        assert_eq!((m.tag, m.data_len), (TAG_FS_WRITE, 8));
        assert_eq!(m.word(0), pos as u64);
        let n = m.word(1) as usize;
        assert!(n <= 48);
        got.extend(m.get(16, n));
        pos = fs::write_next(Ok(()), &reply(&[n as u64]), pos).unwrap();
    }
    assert_eq!(got, data);
    assert_eq!(fs::write_next(Ok(()), &reply(&[0]), 5), None);
    assert_eq!(fs::write_next(Err(SysError::Gone), &reply(&[4]), 5), None);
}

#[test]
fn reads_append() {
    let mut r = Packet::new(0);
    r.set_word(0, 3);
    r.put(8, b"abc", 3);
    let mut out = b"x".to_vec();
    assert!(fs::read_next(Ok(()), &r, &mut out));
    assert_eq!(out, b"xabc".to_vec());
    assert!(!fs::read_next(Ok(()), &reply(&[0]), &mut out));
    assert!(!fs::read_next(Ok(()), &reply(&[505]), &mut out));
    assert_eq!(out.len(), 4);
    let m = fs::read(77);
    assert_eq!((m.tag, m.data_len, m.word(0)), (TAG_FS_READ, 1, 77));
    assert_eq!(fs::pread_reply(Ok(()), &r, 2), Some(b"ab".to_vec()));
    assert_eq!(fs::pread_reply(Err(SysError::Gone), &r, 2), None);
    assert_eq!(fs::readlink_reply(Ok(()), &reply(&[0]), 9), None);
    assert_eq!(fs::readlink_reply(Ok(()), &r, 9), Some(b"abc".to_vec()));
}

#[test]
fn positioned_writes() {
    let data = [5u8; 600];
    let m = fs::pwrite(&data, 9);
    assert_eq!((m.word(0), m.word(1), m.data_len), (9, 480, 62));
    let m = fs::pwrite(b"abc", 0);
    assert_eq!((m.word(1), m.data_len), (3, 3));
    assert_eq!(fs::pwrite_reply(Ok(()), &reply(&[3])), Some(3));
    assert_eq!(fs::pwrite_reply(Err(SysError::Gone), &reply(&[3])), None);
}

#[test]
fn directory_entries() {
    let mut r = Packet::new(0);
    r.set_word(0, 1);
    r.set_word(1, FS_DIR);
    r.put(16, b"bin\0", 4);
    assert_eq!(fs::entry(Ok(()), &r), Some((b"bin".to_vec(), FS_DIR)));
    r.put(16, &[b'n'; 48], 48);
    assert_eq!(fs::entry(Ok(()), &r), Some((vec![], FS_DIR)));
    r.set_word(0, 0);
    assert_eq!(fs::entry(Ok(()), &r), None);
    assert_eq!(fs::readdir(4).word(0), 4);
}

#[test]
fn file_times_and_lengths() {
    let m = fs::set_times(1, 10, 20, true, true);
    assert_eq!((m.word(0), m.word(1), m.word(2), m.data_len), (10, 20, 3, 3));
    assert_eq!(fs::set_times(1, 0, 0, false, true).word(2), 2);
    assert_eq!(fs::set_times(1, 0, 0, true, false).word(2), 1);
    assert_eq!(fs::truncate(2, 99).word(0), 99);
    assert!(fs::succeeded(Ok(()), &reply(&[0])));
    assert!(!fs::succeeded(Ok(()), &reply(&[1])));
    assert_eq!(fs::mkdir(b"d").get(0, 2), b"d\0".to_vec());
    assert_eq!(fs::unlink(b"e").get(0, 2), b"e\0".to_vec());
}

#[test]
fn changing_directory() {
    let mut c = Cwd::new();
    assert_eq!(c.target(b"/"), None);
    assert_eq!(c.target(b"/a/b"), Some(&b"a/b"[..]));
    assert_eq!(c.target(b"a"), Some(&b"a"[..]));
    let dir = Node { cap: 9, kind: FS_DIR, size: 0, mtime: 0, atime: 0 };
    assert_eq!(c.arrive(Some(dir)), (true, None));
    assert_eq!(c.handle, 9);
    let file = Node { cap: 10, kind: FS_FILE, size: 0, mtime: 0, atime: 0 };
    assert_eq!(c.arrive(Some(file)), (false, Some(10)));
    assert_eq!(c.arrive(None), (false, None));
    assert_eq!(c.change(1), Some(9));
    assert_eq!(c.change(5), None);
    let m = fs::spawn_request(0x1000, 12, &c, 2);
    assert_eq!((m.word(0), m.word(1), m.word(2)), (8 * 1024 * 1024, 0x1000, 12));
    assert_eq!(m.handles, [5, 2, 4, BOOT_NET_EP]);
}

#[test]
fn output_goes_to_the_terminal_in_pieces() {
    let data = vec![b'q'; 130];
    let mut s = Stdout::new();
    let mut off = 0;
    let mut got = vec![];
    loop {
        match s.next(&data, off) {
            Step::Done => break,
            Step::Pipe => panic!("no pipe"),
            Step::Send { msg, n } => {
                assert_eq!(msg.tag, TAG_TTY_WRITE);
                assert_eq!(msg.data_len as usize, (n + 8) / 8);
                got.extend(msg.get(0, n));
                assert_eq!(msg.get(n, 1), vec![0]);
                off = s.sent(Ok(()), off, n).unwrap();
            }
        }
    }
    assert_eq!(got, data);
    assert_eq!(s.mode, Mode::Tty);
    assert_eq!(s.sent(Err(SysError::BadType), 0, 5), None);
}

#[test]
fn output_turns_to_a_pipe() {
    let mut s = Stdout::new();
    assert_eq!(s.sent(Err(SysError::Gone), 0, 5), None);
    assert_eq!(s.mode, Mode::Unknown);
    assert_eq!(s.sent(Err(SysError::BadType), 3, 5), Some(3));
    assert!(matches!(s.next(b"abc", 0), Step::Pipe));
    assert_eq!(io::pipe_next(10, 0, 4), Some(4));
    assert_eq!(io::pipe_next(10, 4, 6), None);
    assert_eq!(io::pipe_next(10, 4, 0), None);
}

#[test]
fn arguments_are_words() {
    let page = [b"run  -v  file\0junk".to_vec(), vec![0; 100]].concat();
    let line = ident::argv(&page);
    assert_eq!(line, b"run  -v  file");
    let v = ident::args(line);
    assert_eq!(v, vec![b"run".to_vec(), b"-v".to_vec(), b"file".to_vec()]);
    assert_eq!(ident::args(b"   "), Vec::<Vec<u8>>::new());
    assert_eq!(ident::args(b" a\tb  c "), vec![b"a".to_vec(), b"b".to_vec(), b"c".to_vec()]);
    assert_eq!(ident::args(b"a\nb\x0cc\rd\x0be").len(), 5);
    assert_eq!(ident::argv(&vec![b'a'; 5000]).len(), 4095);
}

#[test]
fn identity_defaults_to_the_superuser() {
    let z = IdentRec::zeroed();
    assert_eq!(ident::user_name(&z), b"root".to_vec());
    assert_eq!(ident::home(&z), b"/".to_vec());
    let r = IdentRec::new(5, 6, b"ann", b"/h");
    assert_eq!((ident::uid(&r), ident::gid(&r)), (5, 6));
    assert_eq!(ident::user_name(&r), b"ann".to_vec());
    assert_eq!(ident::home(&r), b"/h".to_vec());
    let mut m = MsgBuf::new(0);
    ident::msg_set_identity(&mut m, 0xAB00);
    assert_eq!((m.data[3], m.data[4], m.data_len), (0xAB00, 236, 5));
    m.data_len = 7;
    ident::msg_set_identity(&mut m, 1);
    assert_eq!(m.data_len, 7);
}

#[test]
fn dns_query_bytes() {
    let q = dns::query(0x1234, "a.bc", dns::TYPE_A);
    assert_eq!(
        q,
        vec![0x12, 0x34, 1, 0, 0, 1, 0, 0, 0, 0, 0, 0, 1, b'a', 2, b'b', b'c', 0, 0, 1, 0, 1]
    );
}

fn response(typ: u16, data: &[u8]) -> Vec<u8> {
    let mut r = dns::query(7, "host.example", typ);
    r[2] = 0x81;
    r[7] = 1;
    r.extend([0xC0, 12]);
    r.extend(typ.to_be_bytes());
    r.extend([0, 1, 0, 0, 0, 60]);
    r.extend((data.len() as u16).to_be_bytes());
    r.extend(data);
    r
}

#[test]
fn dns_answers_are_found() {
    let r = response(dns::TYPE_A, &[10, 1, 2, 3]);
    assert_eq!(dns::first_a(&r), Some([10, 1, 2, 3]));
    assert_eq!(dns::first_aaaa(&r), None);
    let ip: Vec<u8> = (0..16u8).collect();
    let r6 = response(dns::TYPE_AAAA, &ip);
    assert_eq!(dns::first_aaaa(&r6).unwrap().to_vec(), ip);
    assert_eq!(dns::first_a(&r6), None);
    assert_eq!(dns::first_a(&r[..r.len() - 1]), None);
    assert_eq!(dns::first_a(&r[..11]), None);
}

#[test]
fn dns_waits_four_seconds() {
    assert!(!dns::timed_out(100, 4100));
    assert!(dns::timed_out(100, 4101));
    assert!(!dns::timed_out(u64::MAX, 10));
}

#[test]
fn datagrams_are_never_cut() {
    assert_eq!(udp::route(480), Route::Inline);
    assert_eq!(udp::route(481), Route::Frame);
    assert_eq!(udp::route(1473), Route::Refuse);
    assert!(udp::sendto([1, 2, 3, 4], 53, &[0; 481]).is_none());
    let m = udp::sendto([1, 2, 3, 4], 53, b"hey").unwrap();
    assert_eq!(m.tag, TAG_UDP_SENDTO);
    assert_eq!((m.word(0), m.word(1), m.word(2)), (0x0102_0304, 53, 3));
    assert_eq!(m.get(24, 3), b"hey".to_vec());
    assert_eq!(udp::sendv([10, 0, 0, 1], 80, 5000).word(2), 1472);
    assert_eq!(udp::u32_to_ip(udp::ip_to_u32([9, 8, 7, 6])), [9, 8, 7, 6]);
}

#[test]
fn datagrams_arrive_with_their_source() {
    let mut r = Packet::new(0);
    r.set_word(0, 3);
    r.put(8, b"hey", 3);
    r.set_word(MSG_DATA_WORDS - 2, 0x0A00_0001);
    r.set_word(MSG_DATA_WORDS - 1, 5353);
    let (v, d) = udp::recvfrom_src(Ok(()), &r, 10);
    assert_eq!((v, d.len, d.ip, d.port), (b"hey".to_vec(), 3, [10, 0, 0, 1], 5353));
    assert_eq!(udp::recvfrom(Ok(()), &r, 2), b"he".to_vec());
    assert_eq!(udp::recvfrom(Err(SysError::Gone), &r, 2), Vec::<u8>::new());
    let d = udp::recvv_src(Ok(()), &reply(&[2000, 0x0102_0304, 7]));
    assert_eq!((d.len, d.ip, d.port), (1472, [1, 2, 3, 4], 7));
    assert_eq!(udp::recvv_src(Err(SysError::Gone), &r).len, 0);
    assert_eq!(udp::dns_server(Ok(()), &reply(&[8, 8, 4, 4])), [8, 8, 4, 4]);
    assert_eq!(udp::dns_server(Err(SysError::Gone), &r), [10, 0, 2, 3]);
    let mut b = reply(&[0, 4242]);
    b.handles[0] = 6;
    assert_eq!(udp::bound(Ok(()), &b), Some((6, 4242)));
    assert_eq!(udp::bind(7).word(0), 7);
}

#[test]
fn frames_are_mapped_once() {
    let mut c = FrameCache::new();
    assert_eq!(c.lookup(5), None);
    assert_eq!(c.lookup(0), None);
    let mut r = reply(&[0, 3]);
    r.handles[0] = 77;
    r.handle_count = 1;
    assert_eq!(FrameCache::attached(Ok(()), &r), Some((77, 3)));
    assert_eq!(FrameCache::attached(Ok(()), &reply(&[0, 3])), None);
    let mut bad = reply(&[0, 17]);
    bad.handle_count = 1;
    assert_eq!(FrameCache::attached(Ok(()), &bad), None);
    assert_eq!(c.to_map(3), Some(UDP_XFER + 3 * 4096));
    assert_eq!(c.remember(5, 3), UDP_XFER + 3 * 4096);
    assert_eq!(c.lookup(5), Some(UDP_XFER + 3 * 4096));
    assert_eq!(c.to_map(3), None);
    c.frame_drop(5);
    assert_eq!(c.lookup(5), None);
    assert_eq!(c.to_map(3), None);
}

#[test]
fn streams_take_what_fits() {
    let m = tcp::send(&[1; 600]);
    assert_eq!((m.tag, m.word(0)), (TAG_TCP_SEND, 504));
    assert_eq!(tcp::sent(Ok(()), &reply(&[0, 400])), Some(400));
    assert_eq!(tcp::sent(Ok(()), &reply(&[1, 400])), None);
    assert_eq!(tcp::recv(5).word(0), 5);
    assert_eq!(tcp::recv(5000).word(0), 504);
    let mut r = Packet::new(0);
    r.set_word(0, 5);
    r.put(8, b"hello", 5);
    assert_eq!(tcp::received(Ok(()), &r, 9), b"hello".to_vec());
    assert_eq!(tcp::received(Ok(()), &r, 2), b"he".to_vec());
    assert!(!tcp::wants_frame(504));
    assert!(tcp::wants_frame(505));
    assert_eq!(tcp::recvv(1, 0).word(0), 1);
    assert_eq!(tcp::recvv(1, 9999).word(0), 1472);
    assert_eq!(tcp::recvv_len(Ok(()), &reply(&[50]), 40), 40);
    assert_eq!(tcp::sendv(1, 9).word(0), 9);
}

#[test]
fn connections() {
    let m = tcp::connect([1, 2, 3, 4], 80);
    assert_eq!((m.word(0), m.word(1), m.data_len), (0x0102_0304, 80, 2));
    let addr: [u8; 16] = [7; 16];
    assert_eq!(tcp::connect6(5, addr, 443).get(8, 16), addr.to_vec());
    assert_eq!(tcp::listen(5, 22).word(0), 22);
    let mut r = reply(&[0, 6, 8080]);
    r.handles[0] = 3;
    r.put(24, &addr, 16);
    assert!(tcp::accepted(Ok(()), &r).is_none());
    assert_eq!(tcp::granted(Ok(()), &r), None);
    assert_eq!(tcp::connected(Ok(()), &r), Some(3));
    r.handle_count = 1;
    let a = tcp::accepted(Ok(()), &r).unwrap();
    assert_eq!((a.sock, a.addr, a.is_v6, a.port), (3, addr.to_vec(), true, 8080));
}

fn ring() -> Ring {
    Ring {
        shape: Shape { slots: 4, stride: 128, header: 64, payload_max: 100 },
        page: vec![0; 4096],
    }
}

#[test]
fn ring_queues_until_full() {
    let mut r = ring();
    assert!(r.push([1, 2, 3, 4], 9, b"one"));
    assert!(r.push([1, 2, 3, 4], 9, &[5; 200]));
    assert!(r.push([1, 2, 3, 4], 9, b"three"));
    assert!(!r.push([1, 2, 3, 4], 9, b"four"));
    assert_eq!(&r.page[64..75], &[4, 3, 2, 1, 9, 0, 3, 0, b'o', b'n', b'e']);
    assert_eq!(r.page[64 + 128 + 6], 100);
}

#[test]
fn ring_hands_out_what_the_server_put() {
    let mut r = ring();
    assert!(r.pop(10).is_none());
    let at = 64 + 4 * 128;
    r.page[at..at + 11].copy_from_slice(&[4, 3, 2, 1, 9, 0, 3, 0, b'a', b'b', b'c']);
    r.page[12] = 1;
    assert_eq!(r.pop(10), Some(([1, 2, 3, 4], 9, b"abc".to_vec())));
    assert!(r.pop(10).is_none());
}

#[test]
fn call_results() {
    assert_eq!(calls::handle_result(0, 7), Ok(7));
    assert_eq!(calls::handle_result(3, 7), Err(SysError::Rights));
    assert_eq!(calls::value_result(0, 7), Ok(7));
    assert_eq!(calls::count_result(1, 7), 0);
    assert_eq!(calls::count_result(0, 7), 7);
    assert_eq!(calls::sys_recv_notif(0, 5), Ok(RecvNotif::Message(5)));
    assert_eq!(calls::sys_recv_notif(0, 0x1_0000_0000), Ok(RecvNotif::Notified));
    assert_eq!(calls::sys_recv_notif(8, 0), Err(SysError::Gone));
    assert_eq!(
        calls::sys_fb_info(0, 1024 | (768 << 16) | (4096 << 32) | (32 << 48)),
        Ok((1024, 768, 4096, 32))
    );
    assert_eq!(calls::sys_meminfo((5 << 32) | 9), (5, 9));
    assert_eq!(calls::sys_cap_type(1, 2), 0);
    assert_eq!(calls::sys_cap_type(0, 2), 2);
    assert_eq!(calls::sys_notif_status(0, (-3i64) as u64), -3);
    assert_eq!(calls::sys_notif_status(1, 9), 0);
    assert_eq!(calls::try_wait(0, 4), None);
    assert_eq!(calls::try_wait(1, 4), Some(4));
    assert_eq!(calls::pair(0, 3 | (4 << 32)), Some((3, 4)));
    assert_eq!(calls::pair(7, 0), None);
    assert_eq!(calls::received(0, 3 | (4 << 32)), Some((3, 4)));
    assert_eq!(calls::received(9, 0), None);
    assert_eq!(calls::recv_flags(8, true), 8 | (1 << 32));
    assert_eq!(calls::poll(1, 0), 3);
    assert_eq!(calls::poll(0, 4), 4);
    assert_eq!(calls::thread_stack(0x1007), 0xFF0);
}

#[test]
fn anonymous_mappings() {
    let mut w = AnonWindow::new();
    assert_eq!(w.mmap_anon(1), Some((0x4000_0000, 4096)));
    assert_eq!(w.mmap_anon(0), None);
    assert_eq!(w.mmap_anon(4097), Some((0x4000_1000, 8192)));
    assert_eq!(w.mmap_anon(0x4000_0000), None);
    assert_eq!(w.mmap_anon(1), None);
}

#[test]
fn ring_pages_have_their_places() {
    let shape = ring().shape;
    let mut m = RingMap::new(shape);
    assert_eq!(m.mapped, vec![false; 9]);
    let mut r = reply(&[0, 3]);
    assert_eq!(m.attached(Ok(()), &r), None);
    r.handle_count = 1;
    r.handles[0] = 77;
    assert_eq!(m.attached(Ok(()), &r), Some((77, 3)));
    assert_eq!(m.attached(Err(SysError::Gone), &r), None);
    let mut far = reply(&[0, 9]);
    far.handle_count = 1;
    assert_eq!(m.attached(Ok(()), &far), None);
    assert_eq!(m.attach(shape, 3), (RING_XFER + 3 * 4096, true));
    m.remember(3);
    assert_eq!(m.attach(shape, 3), (RING_XFER + 3 * 4096, false));
    assert_eq!(m.attach(shape, 4), (RING_XFER + 4 * 4096, true));
    assert_eq!(rings::kick(Ok(()), &reply(&[5, 6])), (5, 6));
    assert_eq!(rings::kick(Err(SysError::Gone), &reply(&[5, 6])), (0, 0));
}

#[test]
fn what_one_side_writes_the_other_reads() {
    let mut m = fs::open_with(b"notes.txt", 3);
    m.handle_count = 1;
    m.handles[0] = 9;
    let sent = m.message();
    assert_eq!((sent.tag, sent.data_len, sent.handle_count), (m.tag, 8, 1));
    assert_eq!(sent.data[7], 3);
    let mut buffer = MsgBuf::new(0);
    buffer.data[7] = 99;
    assert!(copy_msg_to_user(&mut buffer, &sent).is_ok());
    let got = Packet::received(&buffer);
    assert_eq!(got.get(0, 10), b"notes.txt\0".to_vec());
    assert_eq!(got.word(7), 3);
    assert_eq!(got.get(64, 448), vec![0u8; 448]);
    let long = udp::sendto([10, 0, 0, 1], 80, &[1u8; 100]).unwrap().message();
    assert!(copy_msg_to_user(&mut buffer, &long).is_err());
}
