use oxbow::abi::SysError;
use oxbow::arch;
use oxbow::arch::fault;
use oxbow::arch::fault::Fault;
use oxbow::arch::irqchip;
use oxbow::arch::irqchip::Interrupt;
use oxbow::arch::rtc;
use oxbow::arch::rtc::RtcRegs;
use oxbow::arch::serial;
use oxbow::arch::QemuExit;
use oxbow::elf;
use oxbow::elf::Image;
use oxbow::fb;
use oxbow::image;
use oxbow::image::{Images, MAX_IMAGES};
use oxbow::load;
use oxbow::load::{USER_STACK_PAGES, USER_STACK_TOP};
use oxbow::object::{HandleEntry, ObjectRef};
use oxbow::pci;
use oxbow::pci::Device;
use oxbow::proc::{Process, TlsTemplate};
use oxbow::rng;
use oxbow::rng::Csprng;
use oxbow::syscall::dev;

fn header(segments: &[(u32, u32, u64, u64, u64, u64)], body: &[u8]) -> Vec<u8> {
    let mut f = vec![0u8; 64];
    f[..4].copy_from_slice(b"\x7fELF");
    f[4] = 2;
    f[5] = 1;
    f[6] = 1;
    f[16..18].copy_from_slice(&2u16.to_le_bytes());
    f[18..20].copy_from_slice(&62u16.to_le_bytes());
    f[24..32].copy_from_slice(&0x40_1000u64.to_le_bytes());
    f[32..40].copy_from_slice(&64u64.to_le_bytes());
    f[54..56].copy_from_slice(&56u16.to_le_bytes());
    f[56..58].copy_from_slice(&(segments.len() as u16).to_le_bytes());
    for &(kind, flags, off, vaddr, filesz, memsz) in segments {
        f.extend_from_slice(&kind.to_le_bytes());
        f.extend_from_slice(&flags.to_le_bytes());
        for v in [off, vaddr, vaddr, filesz, memsz, 16] {
            f.extend_from_slice(&v.to_le_bytes());
        }
    }
    f.extend_from_slice(body);
    f
}

#[test]
fn programs_are_parsed() {
    let f = header(&[(1, 5, 0, 0x40_0000, 64, 64), (1, 6, 0, 0x60_0000, 0, 0x2000)], &[]);
    let img = Image::try_validate(&f).ok().unwrap();
    assert_eq!(img.entry, 0x40_1000);
    let loads = img.loads();
    assert_eq!(loads.len(), 2);
    assert_eq!((loads[1].p_vaddr, loads[1].p_memsz), (0x60_0000, 0x2000));
    assert!(img.tls().is_none());
    assert!(img.segments_in_bounds());
    assert_eq!(elf::perm_str(5), "r-x");
    assert_eq!(elf::perm_str(6), "rw-");
}

#[test]
fn broken_programs_are_rejected() {
    let good = header(&[(1, 5, 0, 0x40_0000, 64, 64)], &[]);
    for i in [0, 4, 16, 18] {
        let mut f = good.clone();
        f[i] = 0x33;
        assert!(matches!(Image::try_validate(&f), Err(SysError::Msg)));
    }
    assert!(matches!(Image::try_validate(&good[..63]), Err(SysError::Msg)));
    let f = header(&[(1, 5, 0, 0x40_0000, 64, 64)], &[]);
    assert!(Image::try_validate(&f).ok().unwrap().is_loadable());
    let f = header(&[(1, 5, 100, 0x40_0000, 4096, 4096)], &[]);
    assert!(!Image::try_validate(&f).ok().unwrap().segments_in_bounds());
}

#[test]
fn a_segment_is_loaded_page_by_page() {
    let body: Vec<u8> = (0..200u8).collect();
    let f = header(&[(1, 5, 120, 0x40_0FF0, 100, 5000)], &body);
    let img = Image::try_validate(&f).ok().unwrap();
    let lr = load::load_into(&img, 0);
    assert_eq!(lr.entry, 0x40_1000);
    let p = &lr.pages;
    assert_eq!(p.len(), 3);
    assert_eq!((p[0].virt, p[0].dst_off, p[0].src_off, p[0].len), (0x40_0000, 0xFF0, 120, 16));
    assert_eq!((p[1].virt, p[1].dst_off, p[1].src_off, p[1].len), (0x40_1000, 0, 136, 84));
    assert_eq!((p[2].virt, p[2].len), (0x40_2000, 0));
    assert!(p.iter().all(|g| g.executable && !g.writable));
    assert_eq!(load::spawn_load_pages(&img), 3);
}

#[test]
fn the_stack_slides_down_by_pages() {
    let f = header(&[(1, 5, 0, 0x40_0000, 64, 64)], &[]);
    let img = Image::try_validate(&f).ok().unwrap();
    let a = load::load_into(&img, 0);
    let b = load::load_into(&img, 3);
    assert_eq!(a.user_rsp, USER_STACK_TOP);
    assert_eq!(b.user_rsp, USER_STACK_TOP - 3 * 4096);
    assert_eq!(a.stack_base, USER_STACK_TOP - 4096 * USER_STACK_PAGES);
}

#[test]
fn a_thread_block_ends_with_its_own_address() {
    let t = TlsTemplate { vaddr: 0x50_0000, filesz: 3, memsz: 16, align: 8 };
    let (page, tp) = load::build_tls_block(0x7000_0000, &t, &[7, 8, 9]);
    assert_eq!(tp, 0x7000_0010);
    assert_eq!(&page[..4], &[7, 8, 9, 0]);
    assert_eq!(&page[16..24], &tp.to_le_bytes());
    assert_eq!(elf::tls_size(17, 16), 32);
}

#[test]
fn arguments_fill_a_page() {
    let page = load::argv_page(b"ls -l");
    assert_eq!(page.len(), 4096);
    assert_eq!(&page[..6], b"ls -l\0");
    assert!(page[6..].iter().all(|&b| b == 0));
}

#[test]
fn images_are_found_by_name() {
    let mut m = Images::new();
    static A: [u8; 2] = [1, 2];
    let i = image::register(&mut m, b"fatfs", &A);
    assert_eq!(image::find(&m, b"fatfs"), Some(i));
    assert_eq!(image::find(&m, b"fat"), None);
    assert_eq!(image::bytes(&m, i), Some(&A[..]));
    assert_eq!(image::bytes(&m, 9), None);
    assert_eq!(image::name_len(&m, i), 5);
    assert_eq!(&image::name(&m, i)[..6], b"fatfs\0");
    for _ in 1..MAX_IMAGES {
        image::register(&mut m, b"x", &A);
    }
    assert_eq!(image::find(&m, b"x"), Some(1));
}

#[test]
fn key_stream_of_the_zero_key() {
    let b = rng::block(&[0; 8], 0);
    assert_eq!(&b[..4], &[0xade0_b876, 0x903d_f1a0, 0xe56a_5d40, 0x28bd_8653]);
    assert_ne!(rng::block(&[0; 8], 1)[0], b[0]);
}

#[test]
fn random_bytes_do_not_repeat() {
    let mut r = Csprng::new();
    r.reseed(&[9; 8]);
    let mut a = [0u8; 100];
    let mut b = [0u8; 100];
    rng::fill_bytes(&mut r, &mut a);
    rng::fill_bytes(&mut r, &mut b);
    assert_ne!(a[..], b[..]);
    let key = r.key;
    rng::next_u64(&mut r);
    assert_ne!(key, r.key);
}

#[test]
fn pixels_have_addresses() {
    let f = fb::init(0xFFFF_8000_E000_0000, 0xFFFF_8000_0000_0000, 640, 480, 2560, 32);
    assert_eq!(f.phys, 0xE000_0000);
    assert_eq!(f.size_bytes(), 2560 * 480);
    assert_eq!(fb::put(&f, 2, 3), Some(f.virt + 3 * 2560 + 8));
    assert_eq!(fb::put(&f, 640, 0), None);
    assert_eq!(fb::put(&f, 0, 480), None);
    assert!(fb::info(&Some(f)).is_some());
    assert!(fb::info(&None).is_none());
    let shallow = fb::init(0xFFFF_8000_E000_0000, 0xFFFF_8000_0000_0000, 640, 480, 1920, 24);
    assert!(fb::info(&Some(shallow)).is_none());
}

#[test]
fn the_bus_is_scanned() {
    assert_eq!(pci::address(1, 2, 3, 0x10), 0x8001_1310);
    assert!(pci::probe(0, 3, 0, 0xFFFF_FFFF, 0).is_none());
    let d = pci::probe(0, 3, 0, 0x100E_8086, 0x0200_0003).unwrap();
    assert_eq!((d.vendor, d.device, d.class), (0x8086, 0x100E, 2));
    assert_eq!(pci::unpack_bdf(d.bdf()), (0, 3, 0));
    assert_eq!(Device::bar(2), 0x18);
    assert_eq!(Device::irq_line(0x1234_560B), 0x0B);
    assert_eq!(Device::bar_region(0xFEBC_0000, 0xFFFE_0000), (0xFEBC_0000, 0x2_0000));
    let mut s = pci::enumerate();
    s = pci::scan_step(&s, 0xFFFF_FFFF, 0, 0);
    assert_eq!((s.bus, s.dev, s.func), (0, 0, 1));
    for _ in 1..8 {
        s = pci::scan_step(&s, 0xFFFF_FFFF, 0, 0);
    }
    assert_eq!((s.bus, s.dev, s.func), (0, 1, 0));
    s = pci::scan_step(&s, 0x100E_8086, 0x0200_0003, 0);
    assert_eq!((s.bus, s.dev, s.func), (0, 2, 0));
    assert_eq!(s.nic.unwrap().dev, 1);
}

#[test]
fn bus_devices_are_reached_through_their_capability() {
    let mut p = Process::new();
    let w = pci::probe(0, 4, 1, 0x100E_8086, 0x0200_0003).unwrap().bdf();
    p.install(5, HandleEntry { obj: ObjectRef::PciDevice(w), rights: 1 << 30, badge: 0 });
    assert_eq!(dev::pci_dev(&p, 5, 1 << 30), Ok((0, 4, 1)));
    assert_eq!(dev::pci_dev(&p, 5, 1 << 29), Err(SysError::Rights));
    assert_eq!(dev::pci_dev(&p, 6, 0), Err(SysError::BadHandle));
    let pages = dev::bar_pages(0x5000_0000, 0xFEBC_0000, 0xFFFF_E000).ok().unwrap();
    assert_eq!(pages.len(), 2);
    assert_eq!((pages[1].virt, pages[1].phys), (0x5000_1000, 0xFEBC_1000));
}

#[test]
fn days_since_the_epoch() {
    assert_eq!(rtc::days_from_civil(1970, 1, 1), 0);
    assert_eq!(rtc::days_from_civil(1970, 3, 1), 59);
    assert_eq!(rtc::days_from_civil(2000, 3, 1), 11017);
    assert_eq!(rtc::days_from_civil(2024, 2, 29), 19782);
}

#[test]
fn the_clock_chip_is_decoded() {
    let bcd = RtcRegs { sec: 0x30, min: 0x59, hour: 0x23, day: 0x29, month: 0x02, year: 0x24, status_b: 0x02 };
    assert_eq!(rtc::epoch_secs(&bcd), 19782 * 86400 + 23 * 3600 + 59 * 60 + 30);
    let bin = RtcRegs { sec: 30, min: 59, hour: 23, day: 29, month: 2, year: 24, status_b: 0x06 };
    assert_eq!(rtc::epoch_secs(&bin), rtc::epoch_secs(&bcd));
    let pm = RtcRegs { hour: 0x80 | 11, status_b: 0x04, ..bin };
    assert_eq!(rtc::epoch_secs(&pm), rtc::epoch_secs(&bcd));
}

#[test]
fn line_feeds_follow_returns() {
    assert_eq!(serial::write_bytes(b"a\nb"), b"a\r\nb".to_vec());
    assert_eq!(&serial::raw_hex(0xBEEF), b"0x000000000000beef");
    let mut out = serial::write_bytes(b"a");
    serial::send_crlf(&mut out, b'\n');
    assert_eq!(out, serial::write_bytes(b"a\n"));
}

#[test]
fn interrupt_controllers() {
    assert_eq!(irqchip::pic_place(4), (irqchip::PIC1_DATA, 4));
    assert_eq!(irqchip::pic_place(12), (irqchip::PIC2_DATA, 4));
    assert_eq!(irqchip::mask(3, 0), 8);
    assert_eq!(irqchip::unmask(3, 0xFF), 0xF7);
    assert!(!irqchip::eoi_both(7));
    assert!(irqchip::eoi_both(8));
    assert_eq!(irqchip::redir_lo(2), 0x14);
    assert_eq!(irqchip::route(0x24, 1), (0x24 | irqchip::REDIR_MASK, 1 << 24));
    assert_eq!(irqchip::pit_divisor(100), 11931);
    assert_eq!(irqchip::timer_count(1_000_000, 100), 1_000_000);
    assert_eq!(irqchip::timer_count(1_000_000, 1000), 100_000);
}

#[test]
fn faults_are_reported() {
    assert!(fault::from_program(0x23));
    assert!(!fault::from_program(0x08));
    assert!(fault::page_fault_from_program(0x6));
    assert!(!fault::page_fault_from_program(0x2));
    let r = fault::trap_report("GP", "err", 1, "rip", 2, 3);
    let digits = b"0000000000000003";
    assert!(r.windows(digits.len()).any(|w| w == digits));
    let f = Fault { ring: 0, rip: 0x1234, cr2: 0, err: 2, tid: 9 };
    let r = fault::fault_report("PF", f, &[0; fault::REPORTED_CPUS]);
    let digits = b"0000000000001234";
    assert!(r.windows(digits.len()).any(|w| w == digits));
    assert_eq!(QemuExit::Success.word(), 0x10);
    assert_eq!(QemuExit::Failed.word(), 0x11);
    assert_eq!(arch::TICKS_PER_SIGNAL, 100);
}

#[test]
fn the_whole_bus_is_scanned() {
    let mut s = pci::enumerate();
    let mut looked = 0;
    while s.bus < 256 {
        let id = if (s.bus, s.dev, s.func) == (2, 31, 5) { 0x100E_8086 } else { 0x1111_1234 };
        let class = if id == 0x100E_8086 { 0x0200_0003 } else { 0x0300_0000 };
        s = pci::scan_step(&s, id, class, 0x0080_0000);
        looked += 1;
    }
    assert_eq!(looked, 256 * 32 * 8);
    let d = s.nic.unwrap();
    assert_eq!((d.bus, d.dev, d.func, d.vendor), (2, 31, 5, 0x8086));
}

#[test]
fn lines_go_to_their_vectors() {
    assert_eq!(irqchip::isa_routes(), [(1, 0x21), (4, 0x24), (12, 0x2C)]);
    for (line, _) in irqchip::isa_routes() {
        assert!(irqchip::routed(line));
    }
    assert!(!irqchip::routed(0));
}

#[test]
fn interrupts_are_told_apart() {
    assert_eq!(irqchip::interrupt(0x20), Interrupt::Clock);
    assert_eq!(irqchip::interrupt(0x30), Interrupt::LocalClock);
    assert_eq!(irqchip::interrupt(0x21), Interrupt::Direct(1));
    assert_eq!(irqchip::interrupt(0x2C), Interrupt::Direct(12));
    assert_eq!(irqchip::interrupt(0x2B), Interrupt::Masked(11));
    assert_eq!(irqchip::interrupt(0x27), Interrupt::Spurious);
    assert_eq!(irqchip::interrupt(0xFF), Interrupt::Spurious);
    assert_eq!(irqchip::interrupt(0x2F), Interrupt::SecondSpurious);
    assert_eq!(irqchip::interrupt(0x22), Interrupt::Unexpected);
    assert_eq!(irqchip::interrupt(0x80), Interrupt::Unexpected);
}

#[test]
fn memory_addresses_alone_are_sized() {
    assert_eq!(pci::bar_writes(0xFEBC_0000), Some((0xFFFF_FFFF, 0xFEBC_0000)));
    assert_eq!(pci::bar_writes(0xC001), None);
    assert_eq!(Device::bar_region(0xC001, 0), (0, 0));
}
