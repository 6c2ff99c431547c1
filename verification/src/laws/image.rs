//! Laws of program loading: what a new address space holds, said of the file's headers
//! and bytes and of the plan alone.

use crate::bytes;
use crate::elf::{self, Elf64Phdr, Image};
use crate::load::{self, LoadResult, PageLoad};
use vstd::prelude::*;

verus! {

/// Page `pl` of a plan shows the file's byte of address `va`, or zero where the segment
/// `ph` has memory but no file bytes.
spec fn shows(pl: PageLoad, ph: Elf64Phdr, va: int) -> bool {
    let at = va - pl.virt;
    &&& pl.virt <= va < pl.virt + 4096
    &&& pl.dst_off <= at < pl.dst_off + pl.len <==> va < ph.p_vaddr + ph.p_filesz
    &&& va < ph.p_vaddr + ph.p_filesz ==> pl.src_off + (at - pl.dst_off) == ph.p_offset + (va
        - ph.p_vaddr)
}

/// Page `pl` has the permissions that the segment `ph` asks for.
spec fn permits(pl: PageLoad, ph: Elf64Phdr) -> bool {
    &&& pl.writable == (ph.p_flags & 2 != 0)
    &&& pl.executable == (ph.p_flags & 1 != 0)
}

/// Page `pl` lies where the segment `ph` lies and takes bytes from its part of the file.
spec fn within(pl: PageLoad, ph: Elf64Phdr) -> bool {
    &&& pl.virt % 4096 == 0
    &&& pl.virt + 4096 <= 0x8000_0000_0000
    &&& pl.dst_off + pl.len <= 4096
    &&& pl.virt <= ph.p_vaddr + ph.p_memsz
    &&& ph.p_vaddr < pl.virt + 4096
    &&& pl.len > 0 ==> {
        &&& ph.p_offset <= pl.src_off
        &&& pl.src_off + pl.len <= ph.p_offset + ph.p_filesz
        &&& pl.virt + pl.dst_off - ph.p_vaddr == pl.src_off - ph.p_offset
    }
}

/// Every header of type 1 is in the list of segments to load.
proof fn lemma_header_is_listed(img: Image, h: int, n: int) -> (i: int)
    requires
        0 <= h < n,
        img.phdr(h).p_type == 1,
    ensures
        0 <= i < img.loads_upto(n).len(),
        img.loads_upto(n)[i] == img.phdr(h),
    decreases n,
{
    if h == n - 1 {
        img.loads_upto(n).len() - 1
    } else {
        lemma_header_is_listed(img, h, n - 1)
    }
}

/// Every segment to load is a header of type 1.
proof fn lemma_listed_is_header(img: Image, n: int, i: int) -> (h: int)
    requires
        0 <= n,
        0 <= i < img.loads_upto(n).len(),
    ensures
        0 <= h < n,
        img.phdr(h).p_type == 1,
        img.loads_upto(n)[i] == img.phdr(h),
    decreases n,
{
    if n <= 0 {
        0
    } else if img.phdr(n - 1).p_type == elf::PT_LOAD && i == img.loads_upto(n).len() - 1 {
        n - 1
    } else {
        lemma_listed_is_header(img, n - 1, i)
    }
}

/// Page `i` of segment `s` is in the plan.
proof fn lemma_page_is_planned(segs: Seq<Elf64Phdr>, n: int, s: int, i: int) -> (k: int)
    requires
        0 <= s < n <= segs.len(),
        0 <= i < load::page_count(segs[s]),
    ensures
        0 <= k < load::pages_of(segs, n).len(),
        load::pages_of(segs, n)[k] == load::page_load(segs[s], i),
    decreases n,
{
    if s == n - 1 {
        load::pages_of(segs, n - 1).len() + i
    } else {
        lemma_page_is_planned(segs, n - 1, s, i)
    }
}

/// Every page of the plan is a page of a segment.
proof fn lemma_planned_is_page(segs: Seq<Elf64Phdr>, n: int, k: int) -> (r: (int, int))
    requires
        0 <= n <= segs.len(),
        0 <= k < load::pages_of(segs, n).len(),
    ensures
        0 <= r.0 < n,
        0 <= r.1 < load::page_count(segs[r.0]),
        load::pages_of(segs, n)[k] == load::page_load(segs[r.0], r.1),
    decreases n,
{
    if n <= 0 {
        (0, 0)
    } else {
        let before = load::pages_of(segs, n - 1).len();
        if k >= before {
            (n - 1, k - before)
        } else {
            lemma_planned_is_page(segs, n - 1, k)
        }
    }
}

/// The page of a segment that holds address `va`.
proof fn lemma_page_shows(ph: Elf64Phdr, va: int) -> (i: int)
    requires
        ph.p_vaddr <= va < ph.p_vaddr + ph.p_memsz,
        ph.p_filesz <= ph.p_memsz,
        ph.p_vaddr + ph.p_memsz <= 0x8000_0000_0000,
        ph.p_offset + ph.p_filesz <= u64::MAX,
    ensures
        0 <= i < load::page_count(ph),
        load::page_load(ph, i).virt % 4096 == 0,
        shows(load::page_load(ph, i), ph, va),
        permits(load::page_load(ph, i), ph),
{
    (va - load::first_page(ph)) / 4096
}

/// Where page `i` of a segment lies and what it takes from the file.
proof fn lemma_page_within(ph: Elf64Phdr, i: int)
    requires
        0 <= i < load::page_count(ph),
        ph.p_filesz <= ph.p_memsz,
        ph.p_vaddr + ph.p_memsz <= 0x8000_0000_0000,
        ph.p_offset + ph.p_filesz <= u64::MAX,
    ensures
        within(load::page_load(ph, i), ph),
        permits(load::page_load(ph, i), ph),
{
}

/// For every loadable segment of the file and every address in it, the plan has a page
/// there that is writable just if the header says so, executable just if the header says
/// so, and that shows the file's byte, or zero past the file's part.
pub proof fn law_segment_is_planned(lr: LoadResult, img: Image, rand: u64, h: int, va: int)
    requires
        img.loadable(),
        load::loads_image(lr, img, rand),
        0 <= h < img.phnum,
        img.phdr(h).p_type == 1,
        img.phdr(h).p_vaddr <= va < img.phdr(h).p_vaddr + img.phdr(h).p_memsz,
    ensures
        exists|k: int|
            #![trigger lr.pages@[k]]
            {
                let pl = lr.pages@[k];
                let ph = img.phdr(h);
                let at = va - pl.virt;
                &&& 0 <= k < lr.pages@.len()
                &&& pl.virt % 4096 == 0
                &&& pl.virt <= va < pl.virt + 4096
                &&& pl.writable == (ph.p_flags & 2 != 0)
                &&& pl.executable == (ph.p_flags & 1 != 0)
                &&& pl.dst_off <= at < pl.dst_off + pl.len <==> va < ph.p_vaddr + ph.p_filesz
                &&& va < ph.p_vaddr + ph.p_filesz ==> pl.src_off + (at - pl.dst_off)
                    == ph.p_offset + (va - ph.p_vaddr)
            },
{
    let segs = img.load_list();
    let s = lemma_header_is_listed(img, h, img.phnum as int);
    let ph = img.phdr(h);
    assert(Image::segment_mappable(segs[s]));
    assert(img.segment_in_file(segs[s]));
    assert(img.data@.len() == img.data.len());
    let i = lemma_page_shows(ph, va);
    let k = lemma_page_is_planned(segs, segs.len() as int, s, i);
    assert(shows(lr.pages@[k], ph, va));
}

/// Every page of the plan belongs to a loadable segment of the file: it lies where the
/// segment lies, has the segment's permissions, takes its bytes from the segment's part
/// of the file and puts them where the segment wants them. None is writable and
/// executable, and none is outside the user half.
pub proof fn law_plan_is_from_segments(lr: LoadResult, img: Image, rand: u64, k: int)
    requires
        img.loadable(),
        load::loads_image(lr, img, rand),
        0 <= k < lr.pages@.len(),
    ensures
        ({
            let pl = lr.pages@[k];
            &&& pl.virt % 4096 == 0
            &&& pl.virt + 4096 <= 0x8000_0000_0000
            &&& pl.dst_off + pl.len <= 4096
            &&& !(pl.writable && pl.executable)
        }),
        exists|h: int|
            #![trigger img.phdr(h)]
            {
                let pl = lr.pages@[k];
                let ph = img.phdr(h);
                &&& 0 <= h < img.phnum
                &&& ph.p_type == 1
                &&& pl.writable == (ph.p_flags & 2 != 0)
                &&& pl.executable == (ph.p_flags & 1 != 0)
                &&& pl.virt <= ph.p_vaddr + ph.p_memsz
                &&& ph.p_vaddr < pl.virt + 4096
                &&& pl.len > 0 ==> {
                    &&& ph.p_offset <= pl.src_off
                    &&& pl.src_off + pl.len <= ph.p_offset + ph.p_filesz
                    &&& pl.virt + pl.dst_off - ph.p_vaddr == pl.src_off - ph.p_offset
                }
            },
{
    let segs = img.load_list();
    let (s, i) = lemma_planned_is_page(segs, segs.len() as int, k);
    let h = lemma_listed_is_header(img, img.phnum as int, s);
    let ph = img.phdr(h);
    assert(Image::segment_mappable(segs[s]));
    assert(img.segment_in_file(segs[s]));
    assert(img.data@.len() == img.data.len());
    lemma_page_within(ph, i);
    assert(within(lr.pages@[k], ph) && permits(lr.pages@[k], ph));
}

/// A program starts where its file says, on a stack of 128 pages that ends, page-aligned,
/// as many pages below the top of user memory as the random number says of 512.
pub proof fn law_entry_and_stack(lr: LoadResult, img: Image, file: Seq<u8>, rand: u64)
    requires
        img.loadable(),
        img.describes(file),
        load::loads_image(lr, img, rand),
    ensures
        lr.entry == bytes::le64(file, 24),
        lr.user_rsp == lr.stack_base + 128 * 4096,
        lr.user_rsp % 4096 == 0,
        (0x7FFF_FFFF_0000 - lr.user_rsp) == 4096 * (rand % 512),
        lr.stack_base > 0x7000_0000_0000,
{
}

/// Two random numbers that differ modulo 512 give two stacks that end at different places.
pub proof fn law_stacks_slide(a: LoadResult, b: LoadResult, img: Image, x: u64, y: u64)
    requires
        img.loadable(),
        load::loads_image(a, img, x),
        load::loads_image(b, img, y),
    ensures
        a.user_rsp == b.user_rsp <==> x % 512 == y % 512,
        a.pages@ == b.pages@,
        a.entry == b.entry,
        a.fs_base == b.fs_base,
{
}

/// The header found is the first of type 7.
proof fn lemma_first_tls(img: Image, i: int) -> (h: int)
    requires
        0 <= i,
        img.tls_from(i) is Some,
    ensures
        i <= h < img.phnum,
        img.phdr(h).p_type == 7,
        img.tls_from(i) == Some(img.phdr(h)),
        forall|g: int| i <= g < h ==> (#[trigger] img.phdr(g)).p_type != 7,
    decreases img.phnum - i,
{
    if img.phdr(i).p_type == elf::PT_TLS {
        i
    } else {
        lemma_first_tls(img, i + 1)
    }
}

/// Without a header found there is none of type 7.
proof fn lemma_no_tls(img: Image, i: int)
    requires
        0 <= i,
        img.tls_from(i) is None,
    ensures
        forall|g: int| i <= g < img.phnum ==> (#[trigger] img.phdr(g)).p_type != 7,
    decreases img.phnum - i,
{
    if i < img.phnum {
        lemma_no_tls(img, i + 1);
    }
}

/// A program has thread-local storage just if its file has a header for it. The main
/// thread's block then holds the initialised bytes of the first such header from its
/// bottom up, zeros above them, and at the thread pointer the thread pointer itself; the
/// block's storage ends at the thread pointer, and the next thread's block is a page on.
pub proof fn law_main_thread_storage(lr: LoadResult, img: Image, rand: u64)
    requires
        img.loadable(),
        load::loads_image(lr, img, rand),
    ensures
        lr.main_tls is Some <==> exists|g: int|
            0 <= g < img.phnum && (#[trigger] img.phdr(g)).p_type == 7,
        lr.tls is Some <==> lr.main_tls is Some,
        lr.main_tls is None ==> lr.fs_base == 0,
        lr.main_tls matches Some(t) ==> exists|h: int|
            #![trigger img.phdr(h)]
            {
                let ph = img.phdr(h);
                let size = t.tp - t.vaddr;
                &&& 0 <= h < img.phnum
                &&& ph.p_type == 7
                &&& forall|g: int| 0 <= g < h ==> (#[trigger] img.phdr(g)).p_type != 7
                &&& lr.fs_base == t.tp
                &&& lr.tls_next == t.vaddr + 4096
                &&& t.page@.len() == 4096
                &&& ph.p_memsz <= size
                &&& size + 16 <= 4096
                &&& forall|i: int|
                    0 <= i < ph.p_filesz ==> #[trigger] t.page@[i] == img.data@[ph.p_offset + i]
                &&& forall|i: int| ph.p_filesz <= i < size ==> #[trigger] t.page@[i] == 0
                &&& bytes::le64(t.page@, size) == t.tp
                &&& lr.tls->0.vaddr == ph.p_vaddr
                &&& lr.tls->0.filesz == ph.p_filesz
                &&& lr.tls->0.memsz == ph.p_memsz
                &&& lr.tls->0.align == ph.p_align
            },
{
    if img.tls_from(0) is Some {
        let h = lemma_first_tls(img, 0);
        let ph = img.phdr(h);
        let t = lr.main_tls->0;
        let size = t.tp - t.vaddr;
        assert(img.tls_loadable(ph));
        let a = elf::tls_alignment(ph.p_align);
        let y = (ph.p_memsz + a - 1) as u64;
        let m = (a - 1) as u64;
        assert(y >= m ==> y & !m >= y - m) by (bit_vector);
        bytes::law_le64_round_trip(t.tp);
        assert(t.page@.subrange(size, size + 8) =~= bytes::le64_bytes(t.tp));
        assert forall|j: int| 0 <= j < 8 implies #[trigger] t.page@[size + j]
            == bytes::le64_bytes(t.tp)[j] by {
            assert(t.page@.subrange(size, size + 8)[j] == t.page@[size + j]);
        }
        assert(bytes::le64(t.page@, size) == bytes::le64(bytes::le64_bytes(t.tp), 0));
    } else {
        lemma_no_tls(img, 0);
    }
}

/// A block for thread-local storage is as large as the storage rounded up to its alignment,
/// which is at least eight.
pub proof fn law_block_size(memsz: u64, align: u64)
    requires
        elf::tls_fits(memsz, align),
    ensures
        memsz <= elf::tls_block_size(memsz, align),
        elf::tls_block_size(memsz, align) <= memsz + elf::tls_alignment(align) - 1,
        elf::tls_alignment(align) >= 8,
        elf::tls_alignment(align) >= align,
        elf::tls_alignment(align) == 8 || elf::tls_alignment(align) == align,
        elf::tls_block_size(memsz, align) + 16 <= 4096,
{
    let a = elf::tls_alignment(align);
    let y = (memsz + a - 1) as u64;
    let m = (a - 1) as u64;
    assert(y >= m ==> y & !m >= y - m && y & !m <= y) by (bit_vector);
}

/// The fields of a program header stand at the places the format gives them, each after
/// the one before it.
pub proof fn law_header_fields(b: Seq<u8>, off: int)
    requires
        0 <= off,
        off + 56 <= b.len(),
    ensures
        ({
            let ph = elf::phdr_at(b, off);
            &&& ph.p_type == bytes::le32(b, off)
            &&& ph.p_flags == bytes::le32(b, off + 4)
            &&& ph.p_offset == bytes::le64(b, off + 8)
            &&& ph.p_vaddr == bytes::le64(b, off + 16)
            &&& ph.p_paddr == bytes::le64(b, off + 24)
            &&& ph.p_filesz == bytes::le64(b, off + 32)
            &&& ph.p_memsz == bytes::le64(b, off + 40)
            &&& ph.p_align == bytes::le64(b, off + 48)
        }),
{
}

/// Only a 64-bit little-endian executable for this processor is taken; its entry, and the
/// place, the stride and the number of its program headers, are those of its header.
pub proof fn law_image_is_of_file(img: Image, b: Seq<u8>, i: int)
    requires
        elf::valid_header(b),
        img.describes(b),
    ensures
        b.len() >= 64,
        b[0] == 0x7f && b[1] == 0x45 && b[2] == 0x4c && b[3] == 0x46,
        b[4] == 2 && b[5] == 1,
        bytes::le16(b, 16) == 2,
        bytes::le16(b, 18) == 62,
        img.entry == bytes::le64(b, 24),
        img.phdr_off(i) == bytes::le64(b, 32) + i * bytes::le16(b, 54),
        img.phnum == bytes::le16(b, 56),
        img.phdr(i) == elf::phdr_at(b, img.phdr_off(i)),
{
}

/// An image is loadable only if every header and every segment's bytes are within the file
/// and every segment is within the user half and not both writable and executable.
pub proof fn law_loadable_is_within_file(img: Image, h: int)
    requires
        img.loadable(),
        0 <= h < img.phnum,
    ensures
        img.phdr_off(h) + 56 <= img.data@.len(),
        img.phdr(h).p_type == 1 ==> {
            &&& img.phdr(h).p_offset + img.phdr(h).p_filesz <= img.data@.len()
            &&& img.phdr(h).p_filesz <= img.phdr(h).p_memsz
            &&& img.phdr(h).p_vaddr + img.phdr(h).p_memsz <= 0x8000_0000_0000
            &&& img.phdr(h).p_flags & 2 == 0 || img.phdr(h).p_flags & 1 == 0
        },
{
    if img.phdr(h).p_type == 1 {
        let s = lemma_header_is_listed(img, h, img.phnum as int);
        assert(Image::segment_mappable(img.load_list()[s]));
        assert(img.segment_in_file(img.load_list()[s]));
    }
}

/// An image whose headers and segments are within bounds in that way is loadable: none is
/// refused for another reason.
pub proof fn law_sound_image_is_loadable(img: Image)
    requires
        img.phoff + img.phnum * img.phentsize <= img.data@.len(),
        forall|h: int|
            0 <= h < img.phnum ==> #[trigger] img.phdr_off(h) + 56 <= img.data@.len(),
        forall|h: int|
            0 <= h < img.phnum && (#[trigger] img.phdr(h)).p_type == 1 ==> {
                &&& img.phdr(h).p_offset + img.phdr(h).p_filesz <= img.data@.len()
                &&& img.phdr(h).p_filesz <= img.phdr(h).p_memsz
                &&& img.phdr(h).p_vaddr + img.phdr(h).p_memsz <= 0x8000_0000_0000
                &&& img.phdr(h).p_flags & 2 == 0 || img.phdr(h).p_flags & 1 == 0
            },
        forall|h: int| 0 <= h < img.phnum ==> (#[trigger] img.phdr(h)).p_type != 7,
    ensures
        img.loadable(),
{
    assert forall|i: int| 0 <= i < img.load_list().len() implies img.segment_in_file(
        #[trigger] img.load_list()[i],
    ) && Image::segment_mappable(img.load_list()[i]) by {
        let h = lemma_listed_is_header(img, img.phnum as int, i);
        assert(img.phdr(h).p_type == 1);
    }
    if img.tls_from(0) is Some {
        let h = lemma_first_tls(img, 0);
    }
}

} // verus!
