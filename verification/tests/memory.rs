use oxbow::abi::SysError;
use oxbow::mm::mem;
use oxbow::mm::mem::{Frames, Mems, FRAME_POOL, MEM_POOL};
use oxbow::mm::pmm;
use oxbow::mm::pmm::{MemRegion, Pmm, RegionKind};
use oxbow::mm::vm;
use oxbow::mm::vm::{
    KernelImage, Probe, PTE_NO_EXECUTE, PTE_PRESENT, PTE_USER, PTE_WRITABLE, UPPER_HALF_START,
};
use oxbow::mm::{hhdm_offset, phys_to_virt, set_hhdm_offset, Hhdm};
use oxbow::shm;
use oxbow::shm::Regions;
use oxbow::usermem::check_user;

fn region(base: u64, length: u64, kind: RegionKind) -> MemRegion {
    MemRegion { base, length, kind }
}

fn small_pmm() -> Pmm {
    pmm::init(&[region(0x10_0000, 0x1_0000, RegionKind::Usable)]).0
}

#[test]
fn largest_usable_region_is_taken() {
    let map = [
        region(0, 0x9_0000, RegionKind::Usable),
        region(0x10_0000, 0x40_0000, RegionKind::Other),
        region(0x80_0000, 0x20_0000, RegionKind::Usable),
    ];
    let (mut p, _, _) = pmm::init(&map);
    assert_eq!(pmm::alloc_frame(&mut p), Some(0x80_0000));
    assert_eq!(pmm::alloc_frame(&mut p), Some(0x80_1000));
}

#[test]
fn frames_come_back_last_first() {
    let mut p = small_pmm();
    let a = pmm::alloc_frame(&mut p).unwrap();
    let b = pmm::alloc_frame(&mut p).unwrap();
    assert_ne!(a, b);
    pmm::free_frame(&mut p, a);
    pmm::free_frame(&mut p, b);
    assert_eq!(pmm::alloc_frame(&mut p), Some(b));
    assert_eq!(pmm::alloc_frame(&mut p), Some(a));
}

#[test]
fn frames_run_out_and_balance() {
    let mut p = small_pmm();
    let before = pmm::stats(&p);
    let all = pmm::alloc_many(&mut p, 16).unwrap();
    assert_eq!(all.len(), 16);
    assert_eq!(pmm::alloc_frame(&mut p), None);
    assert!(pmm::alloc_many(&mut p, 1).is_none());
    for f in all {
        pmm::free_frame(&mut p, f);
    }
    assert_eq!(pmm::stats(&p), before);
}

#[test]
fn runs_of_frames_are_contiguous() {
    let mut p = small_pmm();
    let a = pmm::alloc_contig(&mut p, 4).unwrap();
    let b = pmm::alloc_frame(&mut p).unwrap();
    assert_eq!(b, a + 4 * 4096);
    assert_eq!(pmm::alloc_contig(&mut p, 100), None);
}

#[test]
fn budgets_are_debited_and_credited() {
    let mut m = Mems::new();
    let i = mem::grant(&mut m, 1000).unwrap();
    assert!(mem::debit(&mut m, i, 600));
    assert!(!mem::debit(&mut m, i, 600));
    assert_eq!(mem::remaining(&m, i), 400);
    mem::credit(&mut m, i, 600);
    assert_eq!(mem::remaining(&m, i), 1000);
    let g = mem::mem_gen(&m, i);
    assert!(mem::mem_gen_ok(&m, i, g));
    mem::release(&mut m, i);
    assert!(!mem::mem_gen_ok(&m, i, g));
}

#[test]
fn budgets_run_out() {
    let mut m = Mems::new();
    for _ in 0..MEM_POOL {
        assert!(mem::grant(&mut m, 1).is_some());
    }
    assert!(mem::grant(&mut m, 1).is_none());
}

#[test]
fn shared_frames_are_counted() {
    let mut f = Frames::new();
    let mut p = small_pmm();
    let phys = pmm::alloc_frame(&mut p).unwrap();
    let (idx, gen) = mem::frame_record(&mut f, phys).unwrap();
    assert_eq!(mem::frame_checkout(&mut f, idx, gen), Some(phys));
    assert!(mem::is_shared_frame(&f, phys));
    mem::frame_inc_map_by_phys(&mut f, phys);
    mem::frame_unmap(&mut f, &mut p, phys);
    assert!(mem::is_shared_frame(&f, phys));
    mem::frame_unmap(&mut f, &mut p, phys);
    assert!(!mem::is_shared_frame(&f, phys));
    assert_eq!(pmm::alloc_frame(&mut p), Some(phys));
    assert_eq!(mem::frame_checkout(&mut f, idx, gen), None);
}

#[test]
fn frame_records_run_out() {
    let mut f = Frames::new();
    for i in 0..FRAME_POOL {
        assert!(mem::frame_record(&mut f, 0x1000 * (i as u64 + 1)).is_some());
    }
    assert!(mem::frame_record(&mut f, 0x100_0000).is_none());
}

#[test]
fn alignment() {
    assert_eq!(vm::align_up_4k(1), 4096);
    assert_eq!(vm::align_up_4k(4096), 4096);
    assert_eq!(vm::align_down_4k(8191), 4096);
    assert_eq!(vm::align_up_2m(0x20_0001), 0x40_0000);
}

#[test]
fn writable_pages_are_not_executable() {
    assert_eq!(vm::user_flags(true, false), PTE_PRESENT | PTE_USER | PTE_WRITABLE | PTE_NO_EXECUTE);
    assert_eq!(vm::user_flags(false, true), PTE_PRESENT | PTE_USER);
    assert_eq!(vm::mmio_kernel_flags() & PTE_USER, 0);
    assert_eq!(vm::mmio_flags() & PTE_USER, PTE_USER);
}

#[test]
fn direct_map_addresses() {
    let mut h = Hhdm { offset: 0 };
    set_hhdm_offset(&mut h, UPPER_HALF_START);
    assert_eq!(hhdm_offset(&h), UPPER_HALF_START);
    assert_eq!(phys_to_virt(&h, 0x1234), UPPER_HALF_START + 0x1234);
}

/// Tables for one mapped page at 0x40_0000: root 0, then 0x1000, 0x2000, 0x3000.
fn one_page(flags: u64) -> Vec<u64> {
    let mut ram = vec![0u64; 512 * 8];
    let link = PTE_PRESENT | PTE_USER | PTE_WRITABLE;
    ram[0] = 0x1000 | link;
    ram[512] = 0x2000 | link;
    ram[1024 + 2] = 0x3000 | link;
    ram[1536] = 0x7000 | flags;
    ram
}

#[test]
fn pages_are_probed() {
    let ram = one_page(PTE_PRESENT | PTE_USER | PTE_WRITABLE);
    assert!(matches!(vm::probe_page(&ram, 0, 0x40_0000), Probe::Mapped));
    assert!(matches!(vm::probe_page(&ram, 0, 0x40_1000), Probe::Vacant));
    assert!(matches!(vm::probe_page(&ram, 0, 0x60_0000), Probe::NoTable1));
    assert_eq!(vm::probe_user_range(&ram, 0, 0x40_1000, 3), Ok(0));
    assert_eq!(vm::probe_user_range(&ram, 0, 0x40_0000, 1), Err(()));
    assert_eq!(vm::probe_user_range(&ram, 0, 0x60_0000, 1), Ok(1));
}

#[test]
fn user_pointers_are_checked() {
    let ram = one_page(PTE_PRESENT | PTE_USER | PTE_WRITABLE);
    assert_eq!(check_user(&ram, 0, 0x40_0000, 4096, true), Ok(()));
    assert_eq!(check_user(&ram, 0, 0x40_0ff0, 17, false), Err(SysError::Fault));
    assert_eq!(check_user(&ram, 0, UPPER_HALF_START, 1, false), Err(SysError::Fault));
    let ro = one_page(PTE_PRESENT | PTE_USER);
    assert_eq!(check_user(&ro, 0, 0x40_0000, 8, false), Ok(()));
    assert_eq!(check_user(&ro, 0, 0x40_0000, 8, true), Err(SysError::Fault));
    let kernel = one_page(PTE_PRESENT | PTE_WRITABLE);
    assert_eq!(check_user(&kernel, 0, 0x40_0000, 8, false), Err(SysError::Fault));
}

#[test]
fn teardown_returns_every_frame() {
    let ram = one_page(PTE_PRESENT | PTE_USER | PTE_WRITABLE);
    let mut p = Pmm { base: 0, next: 0x8000, end: 0x8000, free: vec![] };
    let mut f = Frames::new();
    vm::free_user_pml4(&ram, &mut p, &mut f, 0);
    let mut free = p.free.clone();
    free.sort();
    assert_eq!(free, vec![0x0, 0x1000, 0x2000, 0x3000, 0x7000]);
}

#[test]
fn a_new_space_shares_only_the_kernel() {
    let mut ram = vec![0u64; 512 * 2];
    ram[3] = 0x5003;
    ram[300] = 0x6003;
    let t = vm::new_user_pml4(&ram, 0);
    assert_eq!(t.len(), 512);
    assert_eq!(t[3], 0);
    assert_eq!(t[300], 0x6003);
}

#[test]
fn kernel_sections_keep_their_distance() {
    let v = vm::map_kernel_section(0xffff_ffff_8000_0000, 0xffff_ffff_8000_2000, 0x20_0000, 0xffff_ffff_8000_0000);
    assert_eq!(v.len(), 2);
    assert_eq!((v[1].virt, v[1].phys), (0xffff_ffff_8000_1000, 0x20_1000));
}

#[test]
fn regions_are_freed_at_the_last_handle() {
    let mut r = Regions::new();
    let mut p = small_pmm();
    let mut m = Mems::new();
    let b = mem::grant(&mut m, 0).unwrap();
    let before = pmm::stats(&p);
    let i = shm::create(&mut r, &mut p, 3).unwrap();
    shm::set_mem(&mut r, i, b);
    assert_eq!(shm::size(&r, i), 3 * 4096);
    shm::incref(&mut r, i);
    shm::incref(&mut r, i);
    shm::decref(&mut r, &mut p, &mut m, i);
    assert_ne!(pmm::stats(&p), before);
    shm::decref(&mut r, &mut p, &mut m, i);
    assert_eq!(pmm::stats(&p), before);
    assert_eq!(mem::remaining(&m, b), 3 * 4096);
}

#[test]
fn contiguous_regions_have_a_base() {
    let mut r = Regions::new();
    let mut p = small_pmm();
    let i = shm::create_contig(&mut r, &mut p, 2).unwrap();
    assert_eq!(shm::phys_base(&r, i), 0x10_0000);
    let ram = vec![0u64; 512];
    let pages = shm::map(&r, i, &ram, 0, 0x50_0000);
    assert_eq!(pages.len(), 2);
    assert_eq!((pages[1].virt, pages[1].phys), (0x50_1000, 0x10_1000));
    shm::free(&mut r, &mut p, i);
    assert_eq!(pmm::stats(&p).0, 0);
}

#[test]
fn the_kernel_maps_itself() {
    let map = [region(0x10_0000, 0x40_0000, RegionKind::Usable)];
    let image = KernelImage {
        text: (0xFFFF_FFFF_8000_0000, 0xFFFF_FFFF_8000_2000),
        rodata: (0xFFFF_FFFF_8000_2000, 0xFFFF_FFFF_8000_3000),
        data: (0xFFFF_FFFF_8000_3000, 0xFFFF_FFFF_8000_3001),
        phys: 0x20_0000,
        virt: 0xFFFF_FFFF_8000_0000,
    };
    let s = vm::init(&map, UPPER_HALF_START, &image);
    assert_eq!(s.direct.pages.len(), 3);
    assert_eq!(s.direct.pages[2].virt, UPPER_HALF_START + 0x40_0000);
    assert_eq!(s.direct.pages[2].phys, 0x40_0000);
    assert_eq!(s.text.pages.len(), 2);
    assert_eq!(s.text.pages[1].phys, 0x20_1000);
    assert_eq!(s.rodata.pages[0].phys, 0x20_2000);
    assert_eq!(s.data.pages.len(), 1);
    assert_eq!(s.text.flags, PTE_PRESENT);
    assert_eq!(s.rodata.flags, PTE_PRESENT | PTE_NO_EXECUTE);
    for m in [&s.direct, &s.data] {
        assert_eq!(m.flags, PTE_PRESENT | PTE_WRITABLE | PTE_NO_EXECUTE);
    }
}

#[test]
fn regions_out_of_reach_do_not_matter() {
    let map = [
        region(0x10_0000, 0x40_0000, RegionKind::Usable),
        region(u64::MAX - 0xFFF, 0x1000, RegionKind::Other),
    ];
    assert_eq!(vm::hhdm_extent(&map), 0x60_0000);
    assert_eq!(pmm::init(&map).1, 0x40_0000);
}
