use oxbow::abi::{SysError, CAP_CHANNEL, CAP_OTHER, CAP_SHM, FS_DIR, FS_FILE, TAG_TCP_SEND};
use oxbow::libc::ctype;
use oxbow::libc::epoll;
use oxbow::libc::epoll::{Ctl, EpollInst, Epolls, Wait};
use oxbow::libc::fd;
use oxbow::libc::fd::{ClosePlan, FdKind, FdTable, OpenPlan, Output, ReadPlan, WritePlan};
use oxbow::libc::format::{emit_exp, parse, snprint, strip_g, vfmt, Arg, Directive, Prec};
use oxbow::libc::memory;
use oxbow::libc::memory::{MmapNext, Realloc};
use oxbow::libc::message;
use oxbow::libc::net;
use oxbow::libc::net::PollFd;
use oxbow::libc::number;
use oxbow::libc::sort::qsort;
use oxbow::libc::start;
use oxbow::libc::stdio;
use oxbow::libc::stdio::{Files, FILE};
use oxbow::libc::string;
use oxbow::libc::time;
use oxbow::rt::fs::Node;
use oxbow::rt::packet::Packet;

#[test]
fn comparing_strings() {
    assert_eq!(string::strcmp(b"abc\0x", b"abc\0y"), 0);
    assert_eq!(string::strcmp(b"abd", b"abc"), 1);
    assert_eq!(string::strcmp(b"ab", b"abc"), -99);
    assert_eq!(string::strcmp(b"abc", b"ab"), 99);
    assert_eq!(string::strncmp(b"abcd", b"abce", 3), 0);
    assert_eq!(string::strncmp(b"ab", b"abce", 3), -99);
    assert_eq!(string::memcmp(b"a\0b", b"a\0c", 3), -1);
    assert_eq!(string::strcoll(b"b", b"a"), 1);
    assert_eq!(string::strlen(b"hello\0there"), 5);
}

#[test]
fn copying_strings() {
    let mut b = [b'.'; 10];
    string::strcpy(&mut b, b"abc");
    assert_eq!(&b, b"abc\0......");
    string::strcat(&mut b, b"de\0zz");
    assert_eq!(&b, b"abcde\0....");
    string::strncat(&mut b, b"fghij", 2);
    assert_eq!(&b, b"abcdefg\0..");
    string::strncpy(&mut b, b"xy", 4);
    assert_eq!(&b, b"xy\0\0efg\0..");
    string::memset(&mut b, 0x141, 3);
    assert_eq!(&b[..4], b"AAA\0");
    string::memcpy(&mut b, b"zzz", 2);
    assert_eq!(&b[..4], b"zzA\0");
    assert_eq!(string::strdup(b"ab\0c"), b"ab\0".to_vec());
}

#[test]
fn moving_overlapping_bytes() {
    let mut b = *b"abcdefgh";
    string::memmove(&mut b, 2, 0, 5);
    assert_eq!(&b, b"ababcdeh");
    let mut b = *b"abcdefgh";
    string::memmove(&mut b, 0, 2, 5);
    assert_eq!(&b, b"cdefgfgh");
}

#[test]
fn finding_in_strings() {
    assert_eq!(string::strchr(b"hello", b'l' as i32), Some(2));
    assert_eq!(string::strchr(b"hello", 0), Some(5));
    assert_eq!(string::strchr(b"hello", b'z' as i32), None);
    assert_eq!(string::strrchr(b"hello", b'l' as i32), Some(3));
    assert_eq!(string::strrchr(b"hello", 0), Some(5));
    assert_eq!(string::strrchr(b"hello", b'z' as i32), None);
    assert_eq!(string::memchr(b"a\0b", b'b' as i32, 3), Some(2));
    assert_eq!(string::memchr(b"a\0b", b'b' as i32, 2), None);
    assert_eq!(string::strstr(b"one two", b"two"), Some(4));
    assert_eq!(string::strstr(b"one", b""), Some(0));
    assert_eq!(string::strstr(b"one", b"oner"), None);
    assert_eq!(string::strspn(b"aab1", b"ab"), 3);
    assert_eq!(string::strcspn(b"xyz,1", b",;"), 3);
    assert_eq!(string::strpbrk(b"xyz,1", b";,"), Some(3));
    assert_eq!(string::strpbrk(b"xyz", b";,"), None);
    assert_eq!(string::basename(b"/usr/bin/cc"), 9);
    assert_eq!(string::basename(b"cc"), 0);
    assert_eq!(string::basename(b"dir/"), 4);
}

#[test]
fn tokens_one_by_one() {
    let mut b = *b"  ab, cd";
    let (t, next) = string::strtok_r(&mut b, 0, b" ,");
    assert_eq!((t, next), (Some(2), 5));
    assert_eq!(&b, b"  ab\0 cd");
    let (t, next) = string::strtok_r(&mut b, next, b" ,");
    assert_eq!((t, next), (Some(6), 8));
    assert_eq!(string::strtok_r(&mut b, next, b" ,"), (None, 8));
    let mut b = *b"x;y";
    let mut save = Some(0);
    assert_eq!(string::strtok(&mut b, &mut save, b";"), Some(0));
    assert_eq!(save, Some(2));
    assert_eq!(string::strtok(&mut b, &mut save, b";"), Some(2));
    assert_eq!(save, None);
    assert_eq!(string::strtok(&mut b, &mut save, b";"), None);
}

#[test]
fn error_text_is_cut() {
    let mut b = [b'.'; 8];
    string::strerror_r(&mut b);
    assert_eq!(&b, b"error\0..");
    let mut b = [b'.'; 3];
    string::strerror_r(&mut b);
    assert_eq!(&b, b"er\0");
}

#[test]
fn character_classes() {
    for c in 0..256i32 {
        let b = c as u8;
        assert_eq!(ctype::isalpha(c) == 1, b.is_ascii_alphabetic());
        assert_eq!(ctype::isalnum(c) == 1, b.is_ascii_alphanumeric());
        assert_eq!(ctype::isupper(c) == 1, b.is_ascii_uppercase());
        assert_eq!(ctype::islower(c) == 1, b.is_ascii_lowercase());
        assert_eq!(ctype::iscntrl(c) == 1, b.is_ascii_control());
        assert_eq!(ctype::isgraph(c) == 1, b.is_ascii_graphic());
        assert_eq!(ctype::ispunct(c) == 1, b.is_ascii_punctuation());
        assert_eq!(ctype::isxdigit(c) == 1, b.is_ascii_hexdigit());
        assert_eq!(ctype::toupper(c), b.to_ascii_uppercase() as i32);
        assert_eq!(ctype::tolower(c), b.to_ascii_lowercase() as i32);
    }
    assert_eq!(ctype::isspace(b'\t' as i32), 1);
    assert_eq!(ctype::isspace(0x0b), 1);
    assert_eq!(ctype::isspace(b'x' as i32), 0);
    assert_eq!(ctype::isdigit(b'7' as i32), 1);
    assert_eq!(ctype::isdigit(b'7' as i32 + 256), 0);
}

#[test]
fn reading_numbers() {
    assert_eq!(number::strtol(b"  -42xyz", 10), (-42, 5));
    assert_eq!(number::strtol(b"0x1F", 0), (31, 4));
    assert_eq!(number::strtol(b"0x1F", 16), (31, 4));
    assert_eq!(number::strtol(b"017", 0), (15, 3));
    assert_eq!(number::strtol(b"zz", 36), (1295, 2));
    assert_eq!(number::strtol(b"+9", 0), (9, 2));
    assert_eq!(number::strtol(b"abc", 10), (0, 0));
    assert_eq!(number::strtoul(b"-1", 10), (u64::MAX, 2));
    assert_eq!(number::strtoll(b"77", 8), (63, 2));
    assert_eq!(number::strtoull(b"5", 10), (5, 1));
    assert_eq!(number::atoi(b"12abc"), 12);
    assert_eq!(number::atoi(b"4294967297"), 1);
    assert_eq!(number::abs(-5), 5);
    assert_eq!(number::abs(i32::MIN), i32::MIN);
}

#[test]
fn printed_numbers_read_back() {
    for v in [0i64, 7, -7, 1234567890123, i64::MAX, -i64::MAX] {
        let t = number::print_int(v);
        assert_eq!(number::strtol(&t, 10), (v, t.len()));
    }
    assert_eq!(number::print_int(i64::MIN), b"-9223372036854775808".to_vec());
    assert_eq!(number::print_uint(255, 16), b"ff".to_vec());
    assert_eq!(number::print_uint(u64::MAX, 8), b"1777777777777777777777".to_vec());
}

#[test]
fn byte_order() {
    assert_eq!(net::htons(0x1234), 0x3412);
    assert_eq!(net::ntohs(net::htons(0xABCD)), 0xABCD);
    assert_eq!(net::htonl(0x0102_0304), 0x0403_0201);
    assert_eq!(net::ntohl(net::htonl(0xDEAD_BEEF)), 0xDEAD_BEEF);
}

#[test]
fn dotted_addresses() {
    assert_eq!(net::inet_pton(b"10.0.2.15"), Some([10, 0, 2, 15]));
    for bad in [&b"10.0.2"[..], b"10.0.2.256", b"10..2.3", b"1.2.3.4.5", b"a.b.c.d", b"", b"1.2.3."] {
        assert_eq!(net::inet_pton(bad), None);
    }
    assert_eq!(net::inet_pton(b"99999999999999999999.1.1.1"), None);
    assert_eq!(net::inet_addr(b"1.2.3.4"), 0x0403_0201);
    assert_eq!(net::inet_addr(b"x"), 0xFFFF_FFFF);
    let mut b = [b'.'; 16];
    net::inet_ntop([192, 168, 0, 1], &mut b);
    assert_eq!(&b[..12], b"192.168.0.1\0");
    assert_eq!(net::inet_pton(&b), Some([192, 168, 0, 1]));
    let mut b = [0u8; 4];
    net::inet_ntop([192, 168, 0, 1], &mut b);
    assert_eq!(&b, b"192.");
}

#[test]
fn resolving_names() {
    let ai = net::getaddrinfo(b"1.2.3.4", Some(b"8080"), None).ok().unwrap();
    assert_eq!(ai.ai_addr.sin_port, net::htons(8080));
    assert_eq!(net::connect_target(ai.ai_addr), ([1, 2, 3, 4], 8080));
    let ai = net::getaddrinfo(b"host", None, Some([9, 9, 9, 9])).ok().unwrap();
    assert_eq!(ai.ai_addr.sin_addr, 0x0909_0909);
    assert_eq!(net::getaddrinfo(b"host", None, None).err(), Some(-2));
    assert_eq!(net::service_port(b"80/tcp"), 80);
    assert_eq!(net::service_port(b"65537"), 1);
}

#[test]
fn readiness() {
    let mut v = vec![
        PollFd { fd: 3, events: 0xFF, revents: 0 },
        PollFd { fd: -1, events: 1, revents: 9 },
        PollFd { fd: 4, events: 2, revents: 9 },
    ];
    assert_eq!(net::poll(&mut v), 1);
    assert_eq!((v[0].revents, v[1].revents, v[2].revents), (5, 0, 0));
    assert_eq!(net::select(3), 3);
    assert_eq!(net::select(-3), 0);
}

#[test]
fn uniform_numbers() {
    assert_eq!(net::arc4random_uniform(0, 99), Some(0));
    assert_eq!(net::arc4random_uniform(1, 99), Some(0));
    assert_eq!(net::arc4random_uniform(10, 5), None);
    assert_eq!(net::arc4random_uniform(10, 6), Some(6));
    assert_eq!(net::arc4random_uniform(10, 27), Some(7));
    assert_eq!(net::arc4random_uniform(16, 0), Some(0));
}

#[test]
fn directives_of_a_format() {
    let v = parse(b"a%%%-08.3ld%*.*s%q");
    assert_eq!(
        v,
        vec![
            Directive::Byte(b'a'),
            Directive::Percent,
            Directive::Conv { star: false, prec: Prec::Num(3), long: true, spec: b'd' },
            Directive::Conv { star: true, prec: Prec::Star, long: false, spec: b's' },
            Directive::Odd(b'q'),
        ]
    );
    assert_eq!(parse(b"x%"), vec![Directive::Byte(b'x')]);
    assert_eq!(
        parse(b"%.99999999999f"),
        vec![Directive::Conv { star: false, prec: Prec::Num(i32::MAX), long: false, spec: b'f' }]
    );
}

#[test]
fn formatted_output() {
    let out = vfmt(
        b"%d %u %x %s %c %p|%s\n",
        &[
            Arg::Word(-5i64 as u64),
            Arg::Word(0xFFFF_FFFF_FFFF_FFFF),
            Arg::Word(255),
            Arg::Text(b"str\0cut"),
            Arg::Word(b'Z' as u64),
            Arg::Word(0x1234_5678_9ABC),
            Arg::Null,
        ],
    );
    assert_eq!(out, b"-5 4294967295 ff str Z 0x123456789abc|(null)\n".to_vec());
    let out = vfmt(b"%*ld", &[Arg::Word(9), Arg::Word(1 << 40)]);
    assert_eq!(out, b"1099511627776".to_vec());
    assert_eq!(vfmt(b"plain", &[]), b"plain".to_vec());
    assert_eq!(vfmt(b"%o%q", &[Arg::Word(8)]), b"10%q".to_vec());
}

#[test]
fn exponents_and_short_fractions() {
    assert_eq!(emit_exp(5), b"e+05".to_vec());
    assert_eq!(emit_exp(-12), b"e-12".to_vec());
    assert_eq!(emit_exp(308), b"e+308".to_vec());
    for (a, b) in [("1.500", "1.5"), ("2.000", "2"), ("100", "100"), ("0.10", "0.1")] {
        let mut v = a.as_bytes().to_vec();
        strip_g(&mut v);
        assert_eq!(v, b.as_bytes().to_vec());
    }
}

#[test]
fn output_into_buffers() {
    let mut b = [b'.'; 6];
    assert_eq!(snprint(&mut b, 4, b"hello"), 5);
    assert_eq!(&b, b"hel\0..");
    assert_eq!(snprint(&mut b, 0, b"hello"), 5);
    assert_eq!(snprint(&mut b, usize::MAX, b"hello"), 5);
    assert_eq!(&b, b"hello\0");
}

#[test]
fn sorting() {
    let mut v = vec![5i32, 3, 9, 3, 1];
    qsort(&mut v, |a: &i32, b: &i32| if a > b { 1 } else if a < b { -1 } else { 0 });
    assert_eq!(v, vec![1, 3, 3, 5, 9]);
    let mut pairs = vec![(2, 'a'), (1, 'b'), (2, 'c'), (1, 'd')];
    qsort(&mut pairs, |a: &(i32, char), b: &(i32, char)| a.0 - b.0);
    assert_eq!(pairs, vec![(1, 'b'), (1, 'd'), (2, 'a'), (2, 'c')]);
    let mut one = vec![1];
    qsort(&mut one, |_: &i32, _: &i32| 1);
    assert_eq!(one, vec![1]);
}

#[test]
fn clocks() {
    assert_eq!(time::time(2500), 1_781_395_202);
    let ts = time::clock_gettime(2500);
    assert_eq!((ts.tv_sec, ts.tv_nsec), (2, 500_000_000));
    assert_eq!(time::gettimeofday(2500), (2, 500_000));
}

#[test]
fn allocation_requests() {
    assert_eq!(memory::malloc_total(0), None);
    assert_eq!(memory::malloc_total(10), Some(26));
    assert_eq!(memory::calloc_total(3, 5), 15);
    assert_eq!(memory::calloc_total(usize::MAX, 2), usize::MAX);
    assert_eq!(memory::realloc_plan(None, 5), Realloc::Malloc);
    assert_eq!(memory::realloc_plan(Some(26), 0), Realloc::Free);
    assert_eq!(memory::realloc_plan(Some(26), 100), Realloc::Move { copy: 10 });
    assert_eq!(memory::realloc_plan(Some(26), 4), Realloc::Move { copy: 4 });
    assert_eq!(memory::mprotect(7), 5);
    assert_eq!(memory::mprotect(3), 3);
    let mut m = MmapNext::new();
    assert_eq!(m.mmap(5000), Some((0x5000_0000, 8192)));
    assert_eq!(m.mmap(0), None);
    assert_eq!(m.mmap(1), Some((0x5000_2000, 4096)));
}

#[test]
fn descriptors_are_the_lowest_free() {
    let mut t = FdTable::new();
    assert_eq!(t.adopt(10, 100), (3, None));
    assert_eq!(t.adopt(11, 0), (4, None));
    assert_eq!(t.close(3), ClosePlan::Capability { handle: 10 });
    assert_eq!(t.close(3), ClosePlan::Nothing);
    assert_eq!(t.socket(2, 1), 3);
    assert_eq!(t.socket(10, 1), -1);
    for _ in 5..32 {
        assert!(t.memfd_create() > 0);
    }
    assert_eq!(t.adopt(12, 0), (-1, Some(12)));
    assert_eq!(t.close(1000), ClosePlan::Epoll);
}

#[test]
fn only_files_are_adopted() {
    let mut t = FdTable::new();
    let f = Node { cap: 7, kind: FS_FILE, size: 55, mtime: 0, atime: 0 };
    assert_eq!(t.adopt_node(f), (3, None));
    assert_eq!(t.slots[3].size, 55);
    let d = Node { cap: 8, kind: FS_DIR, size: 0, mtime: 0, atime: 0 };
    assert_eq!(t.adopt_node(d), (-1, Some(8)));
    assert_eq!(fd::open_plan(0, 0), OpenPlan::Refuse);
    assert_eq!(fd::open_plan(3, 0), OpenPlan::Open);
    assert_eq!(fd::open_plan(3, 0o100), OpenPlan::Create);
    assert_eq!(fd::open_plan(3, 0o1001), OpenPlan::Create);
}

#[test]
fn reading_and_writing_descriptors() {
    let mut t = FdTable::new();
    t.adopt(10, 100);
    assert_eq!(t.read(3), ReadPlan::File { handle: 10, off: 0 });
    t.read_done(3, 56);
    assert_eq!(t.write(3), WritePlan::File { handle: 10, off: 56 });
    t.write_done(3, 60);
    assert_eq!((t.slots[3].off, t.slots[3].size), (116, 116));
    assert_eq!(t.read(4), ReadPlan::Bad);
    assert_eq!(t.write(1), WritePlan::Terminal);
    assert_eq!(t.write(0), WritePlan::Bad);
    let fd = t.alloc_cap_fd(21, CAP_CHANNEL);
    assert_eq!(t.read(fd), ReadPlan::Channel { handle: 21, nonblock: false });
    assert_eq!(t.close(fd), ClosePlan::Channel { handle: 21 });
    let s = t.socket(2, 1);
    assert!(t.is_socket(s));
    assert_eq!(t.close(s), ClosePlan::Nothing);
    let s = t.socket(2, 1);
    t.connected(s, 33);
    assert_eq!(t.write(s), WritePlan::Socket { handle: 33 });
    assert_eq!(t.close(s), ClosePlan::Socket { handle: 33 });
    assert_eq!(fd::write_result(0, 5), None);
    assert_eq!(fd::write_result(0, 0), Some(0));
}

#[test]
fn seeking() {
    let mut t = FdTable::new();
    t.adopt(10, 100);
    assert_eq!(t.lseek(3, 7, 0), 7);
    assert_eq!(t.lseek(3, 3, 1), 10);
    assert_eq!(t.lseek(3, -1, 2), 99);
    assert_eq!(t.lseek(3, -500, 1), -1);
    assert_eq!(t.lseek(3, 0, 9), -1);
    assert_eq!(t.lseek(9, 0, 0), -1);
    assert_eq!(t.slots[3].off, 99);
}

#[test]
fn duplicating_and_flags() {
    let mut t = FdTable::new();
    t.alloc_cap_fd(21, CAP_CHANNEL);
    assert_eq!(t.fcntl(3, 0, 10), 10);
    assert_eq!(t.slots[10].handle, 21);
    assert_eq!(t.fcntl(3, 1030, 0), 4);
    assert_eq!(t.fcntl(9, 0, 0), -1);
    assert_eq!(t.fcntl(3, 0, 99), -1);
    assert_eq!(t.fcntl(3, 3, 0), 0);
    assert_eq!(t.fcntl(3, 4, 0o4000), 0);
    assert_eq!(t.fcntl(3, 3, 0), 0o4000);
    assert_eq!(t.read(3), ReadPlan::Channel { handle: 21, nonblock: true });
    assert_eq!(t.fcntl(3, 77, 0), 0);
}

#[test]
fn counters_and_shared_memory() {
    let mut t = FdTable::new();
    let e = t.eventfd(5);
    assert_eq!(t.eventfd_write(e, 3), 0);
    assert_eq!(t.eventfd_read(e), Some(8));
    assert_eq!(t.eventfd_read(e), Some(0));
    assert_eq!(t.eventfd_read(30), None);
    assert_eq!(t.eventfd_write(30, 1), -1);
    let m = t.memfd_create();
    assert_eq!(t.shared_memory(m), None);
    assert_eq!(t.ftruncate(m, 5000), Some(2));
    t.sized(m, 44, 5000);
    assert_eq!(t.ftruncate(m, 9000), None);
    assert_eq!(t.shared_memory(m), Some(44));
    assert_eq!(t.slots[m as usize].kind, FdKind::Shm);
    let s = t.alloc_cap_fd(45, CAP_SHM);
    assert_eq!(t.shared_memory(s), Some(45));
    assert_eq!(t.passed(&[m, 31, -1, s]), vec![44, 45]);
    assert_eq!(t.socketpair(60, 61), Some((6, 7)));
}

#[test]
fn watching_descriptors() {
    let mut t = Epolls::new();
    assert_eq!(t.epoll_create1(), 1000);
    assert_eq!(t.epoll_create1(), 1001);
    assert_eq!(t.epoll_inst(1001), Some(1));
    assert_eq!(t.epoll_inst(1002), None);
    assert_eq!(t.epoll_inst(5), None);
    let mut i = EpollInst { used: true, w: vec![] };
    assert!(i.ctl(Ctl::Watch, 3, Some((1, 30))));
    assert!(i.ctl(Ctl::Watch, 4, Some((4, 40))));
    assert!(i.ctl(Ctl::Watch, 3, Some((5, 31))));
    assert!(!i.ctl(Ctl::Watch, 3, None));
    assert!(i.ctl(Ctl::Change, 4, Some((1, 41))));
    assert_eq!(i.collect(&[Some(1), Some(3), Some(4)], 8), vec![(1, 30), (17, 41), (4, 31)]);
    assert_eq!(i.collect(&[Some(1), Some(3), Some(4)], 2).len(), 2);
    assert_eq!(i.collect(&[None, Some(4), Some(0)], 8), vec![]);
    assert!(i.ctl(Ctl::Forget, 3, None));
    assert_eq!(i.w.len(), 1);
    assert_eq!(i.w[0].fd, 4);
    for k in 0..47 {
        assert!(i.ctl(Ctl::Watch, k, Some((1, 0))));
    }
    assert!(!i.ctl(Ctl::Watch, 99, Some((1, 0))));
    assert_eq!(epoll::ctl_of(1), Some(Ctl::Watch));
    assert_eq!(epoll::ctl_of(2), Some(Ctl::Forget));
    assert_eq!(epoll::ctl_of(3), Some(Ctl::Change));
    assert_eq!(epoll::ctl_of(4), None);
    assert_eq!(epoll::deadline(-1, 5), u64::MAX);
    assert_eq!(epoll::deadline(10, 5), 15);
    assert!(epoll::expired(0, 0, 9));
    assert!(epoll::expired(5, 9, 9));
    assert!(!epoll::expired(5, 8, 9));
    assert_eq!(epoll::revents(5, 7), 21);
}

#[test]
fn stream_modes() {
    assert_eq!(stdio::fopen_mode(b"r"), (0, false));
    assert_eq!(stdio::fopen_mode(b"w"), (0o1101, false));
    assert_eq!(stdio::fopen_mode(b"a"), (0o101, true));
    assert_eq!(stdio::fopen_mode(b"rb+"), (2, false));
    assert_eq!(stdio::fopen_mode(b"w+"), (0o1102, false));
    assert_eq!(stdio::fopen_mode(b""), (0, false));
}

#[test]
fn streams_of_a_program() {
    let mut f = Files::new();
    assert_eq!(f.fdopen(7), Some(0));
    assert_eq!(f.fdopen(8), Some(1));
    assert_eq!(f.fdopen(-1), None);
    assert_eq!(f.v[0].fclose(), Some(7));
    assert_eq!(f.fdopen(9), Some(0));
    let mut s = FILE { fd: 1, eof: 0 };
    assert_eq!(s.fclose(), None);
    assert_eq!(s.fgetc(Some(200)), 200);
    assert_eq!(s.fgetc(None), -1);
    assert_eq!(s.eof, 1);
    assert_eq!(s.fseek(-1), -1);
    assert_eq!(s.eof, 1);
    assert_eq!(s.fseek(0), 0);
    assert_eq!(s.eof, 0);
}

#[test]
fn lines() {
    assert_eq!(stdio::fgets(b"one\ntwo", 80), Some(4));
    assert_eq!(stdio::fgets(b"one\ntwo", 3), Some(2));
    assert_eq!(stdio::fgets(b"one", 80), Some(3));
    assert_eq!(stdio::fgets(b"", 80), None);
    assert_eq!(stdio::fgets(b"x", 1), None);
    assert_eq!(stdio::fgets(b"x", 0), None);
    assert_eq!(stdio::items(10, 3), 3);
    assert_eq!(stdio::items(10, 0), 0);
    let mut b = [9u8; 3];
    assert!(stdio::getcwd(&mut b));
    assert_eq!(b, [b'/', 0, 9]);
    assert!(!stdio::getcwd(&mut b[..1]));
}

#[test]
fn messages_over_channels() {
    let parts = vec![b"ab".to_vec(), vec![], b"cd".to_vec()];
    assert_eq!(message::gather(&parts), b"abcd".to_vec());
    assert_eq!(message::gather(&vec![vec![1; 4000], vec![2; 4000]]).len(), 4096);
    assert_eq!(message::scatter(&vec![3, 0, 5, 9], 6), vec![3, 0, 3, 0]);
    let mut c = vec![0u8; 24];
    c[0] = 24;
    c[8] = 1;
    c[12] = 1;
    c[16] = 5;
    c[20..24].copy_from_slice(&(-1i32).to_le_bytes());
    assert_eq!(message::rights(&c), vec![5, -1]);
    c[12] = 2;
    assert_eq!(message::rights(&c), Vec::<i32>::new());
    assert!(message::rights_fit(24, 2));
    assert!(!message::rights_fit(23, 2));
    assert!(!message::rights_fit(23, 0));
}

#[test]
fn starting_a_program() {
    let v = start::build_argv(b"a  bc");
    assert_eq!(v, vec![b"prog\0".to_vec(), b"a\0".to_vec(), b"bc\0".to_vec()]);
}

#[test]
fn writing_a_file_through_its_descriptor() {
    let mut t = FdTable::new();
    t.adopt(10, 0);
    let data = vec![3u8; 100];
    let mut done = 0;
    let mut sent = 0;
    while let Some(m) = start::fs_write_fd(&t, 3, &data, done) {
        assert_eq!(m.word(0), done as u64);
        sent += m.word(1) as usize;
        let mut r = Packet::new(0);
        r.set_word(0, m.word(1));
        done = start::fs_wrote(&mut t, 3, done, Ok(()), &r).unwrap();
    }
    assert_eq!((done, sent), (100, 100));
    assert_eq!((t.slots[3].off, t.slots[3].size), (100, 100));
    assert!(start::fs_write_fd(&t, 4, &data, 0).is_none());
    let r = Packet::new(0);
    assert_eq!(start::fs_wrote(&mut t, 3, 0, Ok(()), &r), None);
    assert_eq!(start::fs_wrote(&mut t, 3, 0, Err(SysError::Gone), &r), None);
}

#[test]
fn passing_descriptors_in_messages() {
    let mut t = FdTable::new();
    let chan = t.alloc_cap_fd(40, CAP_CHANNEL);
    let other = t.alloc_cap_fd(41, CAP_SHM);
    let parts = vec![b"he".to_vec(), b"llo".to_vec()];
    let mut c = vec![0u8; 20];
    c[0] = 20;
    c[8] = 1;
    c[12] = 1;
    c[16] = other as u8;
    let o = message::sendmsg(&t, chan, &parts, &c).unwrap();
    assert_eq!((o.handle, o.data, o.caps), (40, b"hello".to_vec(), vec![41]));
    let o = message::sendmsg(&t, chan, &parts, &[]).unwrap();
    assert_eq!(o.caps, vec![]);
    assert!(message::sendmsg(&t, other, &parts, &[]).is_none());
    assert_eq!(message::recvmsg(&t, chan), Some((40, true)));
    t.fcntl(chan, 4, fd::O_NONBLOCK);
    assert_eq!(message::recvmsg(&t, chan), Some((40, false)));
    assert_eq!(message::recvmsg(&t, 9), None);
    let r = message::recvmsg_done(&mut t, &vec![2, 9], 5, &vec![(50, CAP_CHANNEL), (51, CAP_OTHER)], 24);
    assert_eq!(r.takes, vec![2, 3]);
    assert_eq!(r.fds, vec![5, 6]);
    assert_eq!(r.control_len, 24);
    assert_eq!(t.slots[5].handle, 50);
    assert_eq!(t.slots[5].kind, FdKind::Chan);
    assert_eq!(t.slots[6].kind, FdKind::File);
    let r = message::recvmsg_done(&mut t, &vec![8], 5, &vec![(52, CAP_CHANNEL)], 19);
    assert_eq!((r.fds, r.control_len), (vec![], 0));
    assert!(!t.slots[7].used);
}

#[test]
fn waiting_for_events() {
    let mut t = Epolls::new();
    let ep = t.epoll_create1();
    assert_eq!(t.epoll_ctl(ep, 1, 3, Some((1, 30))), 0);
    assert_eq!(t.epoll_ctl(ep, 1, 4, Some((4, 40))), 0);
    assert_eq!(t.epoll_ctl(ep, 1, 4, None), -1);
    assert_eq!(t.epoll_ctl(ep, 9, 4, Some((4, 40))), -1);
    assert_eq!(t.epoll_ctl(7, 1, 3, Some((1, 30))), -1);
    assert!(matches!(t.epoll_wait(7, &[], 8, 0, 0, 0), Wait::Bad));
    assert!(matches!(t.epoll_wait(ep, &[None, None], 0, 0, 0, 0), Wait::Bad));
    assert!(matches!(t.epoll_wait(ep, &[None, Some(0)], 8, 5, 4, 9), Wait::Again));
    assert!(matches!(t.epoll_wait(ep, &[None, Some(0)], 8, 5, 9, 9), Wait::Over));
    assert!(matches!(t.epoll_wait(ep, &[None, Some(0)], 8, 0, 0, 9), Wait::Over));
    match t.epoll_wait(ep, &[Some(1), Some(4)], 8, -1, 0, u64::MAX) {
        Wait::Ready(v) => assert_eq!(v, vec![(1, 30), (4, 40)]),
        _ => panic!("nothing was ready"),
    }
    match t.epoll_wait(ep, &[Some(1), Some(4)], 1, -1, 0, u64::MAX) {
        Wait::Ready(v) => assert_eq!(v, vec![(1, 30)]),
        _ => panic!("nothing was ready"),
    }
    assert_eq!(t.epoll_ctl(ep, 2, 3, None), 0);
    assert!(matches!(t.epoll_wait(ep, &[Some(0)], 8, 5, 0, 9), Wait::Again));
}

#[test]
fn opening_streams() {
    let mut f = Files::new();
    let mut t = FdTable::new();
    let (a, _) = t.adopt(11, 100);
    let (b, _) = t.adopt(12, 70);
    assert_eq!(stdio::fopen(&mut f, &mut t, -1, true), (None, ClosePlan::Nothing));
    assert_eq!(stdio::fopen(&mut f, &mut t, a, false), (Some(0), ClosePlan::Nothing));
    assert_eq!(t.slots[a as usize].off, 0);
    assert_eq!(stdio::fopen(&mut f, &mut t, b, true), (Some(1), ClosePlan::Nothing));
    assert_eq!(t.slots[b as usize].off, 70);
    while f.fdopen(9).is_some() {}
    let (c, _) = t.adopt(13, 5);
    assert_eq!(
        stdio::fopen(&mut f, &mut t, c, false),
        (None, ClosePlan::Capability { handle: 13 })
    );
    assert!(!t.slots[c as usize].used);
    assert_eq!(stdio::fread(0, 100, 56), (56, true));
    assert_eq!(stdio::fread(56, 100, 44), (100, false));
    assert_eq!(stdio::fread(56, 100, 0), (56, false));
    assert_eq!(stdio::fread(56, 100, -1), (56, false));
}

#[test]
fn where_output_goes() {
    assert_eq!(fd::out_fd(1), Output::Terminal);
    assert_eq!(fd::out_fd(2), Output::Terminal);
    assert_eq!(fd::out_fd(3), Output::File);
    assert_eq!(fd::out_fd(0), Output::Nowhere);
    assert_eq!(fd::out_fd(-1), Output::Nowhere);
}

#[test]
fn random_numbers_in_pieces() {
    assert_eq!(net::rand(u32::MAX), i32::MAX);
    assert_eq!(net::rand(0x8000_0001), 1);
    assert_eq!(net::arc4random_buf(0, 300), 256);
    assert_eq!(net::arc4random_buf(256, 300), 44);
    assert_eq!(net::arc4random_buf(300, 300), 0);
}

#[test]
fn sockets_send_in_pieces() {
    let data: Vec<u8> = (0..60).collect();
    let (m, n) = net::sock_send(&data, 0).unwrap();
    assert_eq!((m.tag, n), (TAG_TCP_SEND, 48));
    let (_, n) = net::sock_send(&data, 48).unwrap();
    assert_eq!(n, 12);
    assert!(net::sock_send(&data, 60).is_none());
    let a = net::getsockname();
    assert_eq!((a.sin_family, a.sin_port, a.sin_addr, a.sin_zero), (2, 0, 0, [0; 8]));
}

#[test]
fn small_answers() {
    assert!(net::getentropy(256));
    assert!(!net::getentropy(257));
    assert_eq!(net::getsockopt(true, None), Some(0));
    assert_eq!(net::getsockopt(true, Some(4)), Some(0));
    assert_eq!(net::getsockopt(true, Some(3)), None);
    assert_eq!(net::getsockopt(false, None), None);
    assert_eq!(net::getpeername().sin_family, 2);
    assert_eq!(stdio::fileno(None), -1);
    assert_eq!(stdio::fileno(Some(&FILE { fd: 7, eof: 0 })), 7);
    assert_eq!(stdio::feof(None), 0);
    assert_eq!(stdio::feof(Some(&FILE { fd: 7, eof: 1 })), 1);
}

#[test]
fn numbers_that_do_not_fit() {
    assert_eq!(number::parse_checked(b" -0x1fz\0", 0), Some((-31, 6)));
    assert_eq!(number::parse_checked(b"9223372036854775807\0", 10), Some((i64::MAX, 19)));
    assert_eq!(number::parse_checked(b"9223372036854775808\0", 10), None);
}
