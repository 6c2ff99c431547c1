//! Loading a program: which pages a new address space gets, and what they hold.
use vstd::prelude::*;
use crate::bytes;
use crate::elf;
use crate::elf::{Elf64Phdr, Image, PF_W, PF_X};
use crate::mm::vm;
use crate::mm::vm::LOWER_HALF_END;
use crate::proc;
use crate::proc::{Procs, TlsTemplate, MAX_PROCS, TLS_REGION_BASE};

verus! {

/// Top of the user stack before it is slid down.
pub const USER_STACK_TOP: u64 = 0x0000_7FFF_FFFF_0000;

/// Pages of a user stack.
pub const USER_STACK_PAGES: u64 = 128;

/// Pages the stack may be slid down by, plus one.
pub const STACK_SLIDES: u64 = 512;

/// One page to map, backed by a fresh zeroed frame into which `len` bytes of the file
/// are copied, from `src_off` in the file to `dst_off` in the page.
#[derive(Clone, Copy, PartialEq, Eq, Debug, Structural)]
pub struct PageLoad {
    pub virt: u64,
    pub writable: bool,
    pub executable: bool,
    pub dst_off: u64,
    pub src_off: u64,
    pub len: u64,
}

/// Address of the first page of a segment.
pub open spec fn first_page(ph: Elf64Phdr) -> int {
    vm::rounded_down(ph.p_vaddr as int, 4096)
}

/// Pages a segment covers, at least in part.
pub open spec fn page_count(ph: Elf64Phdr) -> int {
    (vm::rounded_up(ph.p_vaddr + ph.p_memsz, 4096) - first_page(ph)) / 4096
}

/// The larger of two numbers.
pub open spec fn max_of(a: int, b: int) -> int {
    if a >= b {
        a
    } else {
        b
    }
}

/// The smaller of two numbers.
pub open spec fn min_of(a: int, b: int) -> int {
    if a <= b {
        a
    } else {
        b
    }
}

/// How page `i` of a segment is loaded: it gets the part of the file's bytes whose place
/// is in it.
pub open spec fn page_load(ph: Elf64Phdr, i: int) -> PageLoad {
    let page = first_page(ph) + i * 4096;
    let start = max_of(page, ph.p_vaddr as int);
    let end = min_of(page + 4096, ph.p_vaddr + ph.p_filesz);
    PageLoad {
        virt: page as u64,
        writable: ph.p_flags & PF_W != 0,
        executable: ph.p_flags & PF_X != 0,
        dst_off: if start < end {
            (start - page) as u64
        } else {
            0
        },
        src_off: if start < end {
            (ph.p_offset + (start - ph.p_vaddr)) as u64
        } else {
            0
        },
        len: if start < end {
            (end - start) as u64
        } else {
            0
        },
    }
}

/// The pages of a segment, from the lowest up.
pub open spec fn segment_pages(ph: Elf64Phdr) -> Seq<PageLoad> {
    Seq::new(page_count(ph) as nat, |i: int| page_load(ph, i))
}

/// The pages of the first `n` segments.
pub open spec fn pages_of(segs: Seq<Elf64Phdr>, n: int) -> Seq<PageLoad>
    decreases n,
{
    if n <= 0 {
        Seq::empty()
    } else {
        pages_of(segs, n - 1) + segment_pages(segs[n - 1])
    }
}

/// Byte `j` of a page loaded from the file `data`.
pub open spec fn loaded_byte(data: Seq<u8>, pl: PageLoad, j: int) -> u8 {
    if pl.dst_off <= j < pl.dst_off + pl.len {
        data[pl.src_off + (j - pl.dst_off)]
    } else {
        0
    }
}

/// A loaded segment holds the file's bytes where the header says, and zeros from there
/// to its end.
pub proof fn law_segment_is_loaded(data: Seq<u8>, ph: Elf64Phdr, v: u64)
    requires
        ph.p_vaddr <= v < ph.p_vaddr + ph.p_memsz,
        ph.p_filesz <= ph.p_memsz,
        ph.p_offset + ph.p_filesz <= data.len(),
        data.len() <= u64::MAX,
        ph.p_vaddr + ph.p_memsz <= LOWER_HALF_END,
    ensures
        ({
            let i = (v - first_page(ph)) / 4096;
            let pl = page_load(ph, i);
            &&& 0 <= i < page_count(ph)
            &&& pl.virt <= v < pl.virt + 4096
            &&& loaded_byte(data, pl, v - pl.virt) == (if v < ph.p_vaddr + ph.p_filesz {
                data[ph.p_offset + (v - ph.p_vaddr)]
            } else {
                0
            })
        }),
{
}

/// No page of a program is writable and executable at once.
pub proof fn law_loaded_w_xor_x(img: Image, i: int, p: int)
    requires
        img.loadable(),
        0 <= i < img.load_list().len(),
    ensures
        !(page_load(img.load_list()[i], p).writable && page_load(img.load_list()[i], p).executable),
{
    assert(Image::segment_mappable(img.load_list()[i]));
}

proof fn lemma_page_count(ph: Elf64Phdr)
    requires
        Image::segment_mappable(ph),
    ensures
        0 <= page_count(ph) <= 0x8_0000_0000,
        first_page(ph) + page_count(ph) * 4096 == vm::rounded_up(ph.p_vaddr + ph.p_memsz, 4096),
{
}

/// List the pages of one segment.
fn load_segment(ph: &Elf64Phdr, out: &mut Vec<PageLoad>)
    requires
        Image::segment_mappable(*ph),
        ph.p_filesz <= ph.p_memsz,
        ph.p_offset + ph.p_filesz <= u64::MAX,
    ensures
        final(out)@ == old(out)@ + segment_pages(*ph),
{
    proof {
        lemma_page_count(*ph);
    }
    let v_end: u64 = ph.p_vaddr + ph.p_memsz;
    let file_end: u64 = ph.p_vaddr + ph.p_filesz;
    let end: u64 = vm::align_up_4k(v_end);
    let first: u64 = vm::align_down_4k(ph.p_vaddr);
    let mut page: u64 = first;
    let ghost mut i: int = 0;
    assert(out@ =~= old(out)@ + segment_pages(*ph).subrange(0, 0));
    while page < end
        invariant
            0 <= i <= page_count(*ph),
            page == first_page(*ph) + i * 4096,
            end == first_page(*ph) + page_count(*ph) * 4096,
            end <= LOWER_HALF_END,
            file_end == ph.p_vaddr + ph.p_filesz,
            ph.p_filesz <= ph.p_memsz,
            ph.p_offset + ph.p_filesz <= u64::MAX,
            out@ == old(out)@ + segment_pages(*ph).subrange(0, i),
        decreases end - page,
    {
        let start: u64 = if page >= ph.p_vaddr {
            page
        } else {
            ph.p_vaddr
        };
        let stop: u64 = if page + 4096 <= file_end {
            page + 4096
        } else {
            file_end
        };
        let writable = ph.p_flags & PF_W != 0;
        let executable = ph.p_flags & PF_X != 0;
        let pl = if stop > start {
            PageLoad {
                virt: page,
                writable,
                executable,
                dst_off: start - page,
                src_off: ph.p_offset + (start - ph.p_vaddr),
                len: stop - start,
            }
        } else {
            PageLoad { virt: page, writable, executable, dst_off: 0, src_off: 0, len: 0 }
        };
        assert(pl == page_load(*ph, i));
        out.push(pl);
        page += 4096;
        proof {
            i = i + 1;
            assert(out@ =~= old(out)@ + segment_pages(*ph).subrange(0, i));
        }
    }
    assert(segment_pages(*ph).subrange(0, i) =~= segment_pages(*ph));
}

/// The page of a thread-local block: the initialised storage at the bottom, zeros, and
/// at `size` the thread pointer itself.
pub open spec fn tls_page(tdata: Seq<u8>, size: int, tp: u64) -> Seq<u8> {
    Seq::new(
        4096,
        |i: int|
            if i < tdata.len() {
                tdata[i]
            } else if size <= i < size + 8 {
                bytes::le64_byte(tp, i - size)
            } else {
                0
            },
    )
}

/// A template whose blocks fit a page.
pub open spec fn template_ok(t: TlsTemplate) -> bool {
    elf::tls_fits(t.memsz, t.align) && t.filesz <= t.memsz
}

/// Build the thread-local block that is to stand at `vaddr`, with `tdata` as its
/// initialised storage. Returns the page and the thread pointer. The static storage
/// ends where the thread pointer points, and the thread pointer points at itself.
pub fn build_tls_block(vaddr: u64, t: &TlsTemplate, tdata: &[u8]) -> (r: (Vec<u8>, u64))
    requires
        template_ok(*t),
        tdata@.len() == t.filesz,
        vaddr <= LOWER_HALF_END,
    ensures
        r.1 == vaddr + elf::tls_block_size(t.memsz, t.align),
        r.0@ == tls_page(tdata@, elf::tls_block_size(t.memsz, t.align) as int, r.1),
{
    let size: u64 = elf::tls_size(t.memsz, t.align);
    let tp: u64 = vaddr + size;
    let word = bytes::to_le64(tp);
    let n: usize = tdata.len();
    let at: usize = size as usize;
    let mut page: Vec<u8> = Vec::new();
    let mut i: usize = 0;
    while i < 4096
        invariant
            i <= 4096,
            n == tdata@.len(),
            at == size,
            n <= at <= 4080,
            word@ == bytes::le64_bytes(tp),
            page@ =~= tls_page(tdata@, size as int, tp).subrange(0, i as int),
        decreases 4096 - i,
    {
        let b: u8 = if i < n {
            tdata[i]
        } else if i >= at && i < at + 8 {
            word[i - at]
        } else {
            0
        };
        page.push(b);
        i += 1;
    }
    assert(page@ =~= tls_page(tdata@, size as int, tp));
    (page, tp)
}

/// A thread finds its thread pointer where it points, and its initialised storage right
/// below at the offsets the program was linked for.
pub proof fn law_tls_block(vaddr: u64, t: TlsTemplate, tdata: Seq<u8>, s: int)
    requires
        template_ok(t),
        tdata.len() == t.filesz,
        vaddr <= LOWER_HALF_END,
        0 <= s < t.filesz,
    ensures
        ({
            let size = elf::tls_block_size(t.memsz, t.align) as int;
            let tp = (vaddr + size) as u64;
            let page = tls_page(tdata, size, tp);
            &&& page[s] == tdata[s]
            &&& page.subrange(size, size + 8) == bytes::le64_bytes(tp)
        }),
{
    lemma_tls_holds(t.memsz, t.align);
    let size = elf::tls_block_size(t.memsz, t.align) as int;
    let tp = (vaddr + size) as u64;
    assert(tls_page(tdata, size, tp).subrange(size, size + 8) =~= bytes::le64_bytes(tp));
}

proof fn lemma_tls_holds(memsz: u64, align: u64)
    requires
        elf::tls_fits(memsz, align),
    ensures
        memsz <= elf::tls_block_size(memsz, align),
{
    let a = elf::tls_alignment(align);
    let y = (memsz + a - 1) as u64;
    let m = (a - 1) as u64;
    assert(y >= m ==> y & !m >= y - m) by (bit_vector);
}

/// The thread-local block a new thread of a process is to get.
pub struct TlsPage {
    pub vaddr: u64,
    pub page: Vec<u8>,
    pub tp: u64,
}

/// Build the block of a new thread of process `id`, with `tdata` the initialised storage
/// as it is in the process's memory, and move on to the next block's place. `None` if the
/// process has no thread-local storage.
pub fn build_thread_tls(procs: &mut Procs, id: usize, tdata: &[u8]) -> (r: Option<TlsPage>)
    requires
        old(procs).wf(),
        id < MAX_PROCS,
        ({
            let p = old(procs).v@[id as int];
            p.tls is Some ==> template_ok(p.tls->0) && tdata@.len() == p.tls->0.filesz
                && p.tls_next <= LOWER_HALF_END
        }),
    ensures
        final(procs).wf(),
        ({
            let p = old(procs).v@[id as int];
            match r {
                Some(b) => {
                    &&& p.tls is Some
                    &&& b.vaddr == p.tls_next
                    &&& b.tp == p.tls_next + elf::tls_block_size(p.tls->0.memsz, p.tls->0.align)
                    &&& b.page@ == tls_page(tdata@, b.tp - b.vaddr, b.tp)
                    &&& proc::proc_becomes(
                        *old(procs),
                        *final(procs),
                        id as int,
                        proc::Process { tls_next: (p.tls_next + 4096) as u64, ..p },
                    )
                },
                None => p.tls is None && *final(procs) == *old(procs),
            }
        }),
{
    match procs.v[id].tls {
        None => None,
        Some(t) => {
            let vaddr: u64 = procs.v[id].tls_next;
            let (page, tp) = build_tls_block(vaddr, &t, tdata);
            procs.v[id].tls_next = vaddr + 4096;
            Some(TlsPage { vaddr, page, tp })
        },
    }
}

/// Everything a new address space needs to run a program.
pub struct LoadResult {
    pub pages: Vec<PageLoad>,
    pub entry: u64,
    pub stack_base: u64,
    pub user_rsp: u64,
    pub tls: Option<TlsTemplate>,
    /// The main thread's block, if the program has thread-local storage.
    pub main_tls: Option<TlsPage>,
    pub tls_next: u64,
    pub fs_base: u64,
}

/// The template a thread-local storage header describes.
pub open spec fn template_of(ph: Elf64Phdr) -> TlsTemplate {
    TlsTemplate { vaddr: ph.p_vaddr, filesz: ph.p_filesz, memsz: ph.p_memsz, align: ph.p_align }
}

/// Where the stack ends for the random number `rand`: slid down by a whole number of
/// pages.
pub open spec fn stack_top(rand: u64) -> int {
    USER_STACK_TOP - (rand % STACK_SLIDES) * 4096
}

/// `lr` is how image `img` is loaded with the random number `rand`.
pub open spec fn loads_image(lr: LoadResult, img: Image, rand: u64) -> bool {
    &&& lr.pages@ == pages_of(img.load_list(), img.load_list().len() as int)
    &&& lr.entry == img.entry
    &&& lr.user_rsp == stack_top(rand)
    &&& lr.stack_base == stack_top(rand) - USER_STACK_PAGES * 4096
    &&& match img.tls_from(0) {
        Some(ph) => {
            let t = template_of(ph);
            &&& lr.tls == Some(t)
            &&& lr.tls_next == TLS_REGION_BASE + 4096
            &&& lr.fs_base == TLS_REGION_BASE + elf::tls_block_size(t.memsz, t.align)
            &&& lr.main_tls is Some
            &&& lr.main_tls->0.vaddr == TLS_REGION_BASE
            &&& lr.main_tls->0.tp == lr.fs_base
            &&& lr.main_tls->0.page@ == tls_page(
                img.data@.subrange(ph.p_offset as int, ph.p_offset + ph.p_filesz),
                lr.fs_base - TLS_REGION_BASE,
                lr.fs_base,
            )
        },
        None => {
            &&& lr.tls is None
            &&& lr.main_tls is None
            &&& lr.tls_next == TLS_REGION_BASE
            &&& lr.fs_base == 0
        },
    }
}

/// Work out how an image is loaded: the pages of its segments, a stack at a random
/// distance from the top, and the main thread's thread-local block.
pub fn load_into(img: &Image, rand: u64) -> (lr: LoadResult)
    requires
        img.loadable(),
    ensures
        loads_image(lr, *img, rand),
{
    let segs = img.loads();
    let data: &[u8] = img.bytes();
    let len: usize = data.len();
    let mut pages: Vec<PageLoad> = Vec::new();
    let mut n: usize = 0;
    while n < segs.len()
        invariant
            n <= segs@.len(),
            segs@ == img.load_list(),
            img.loadable(),
            len == img.data@.len(),
            pages@ == pages_of(segs@, n as int),
        decreases segs@.len() - n,
    {
        assert(Image::segment_mappable(img.load_list()[n as int]));
        assert(img.segment_in_file(img.load_list()[n as int]));
        load_segment(&segs[n], &mut pages);
        n += 1;
    }
    let slide: u64 = (rand % STACK_SLIDES) * 4096;
    let user_rsp: u64 = USER_STACK_TOP - slide;
    let stack_base: u64 = user_rsp - USER_STACK_PAGES * 4096;
    match img.tls() {
        Some(ph) => {
            let t = TlsTemplate {
                vaddr: ph.p_vaddr,
                filesz: ph.p_filesz,
                memsz: ph.p_memsz,
                align: ph.p_align,
            };
            let tdata = vstd::slice::slice_subrange(
                data,
                ph.p_offset as usize,
                (ph.p_offset + ph.p_filesz) as usize,
            );
            let (page, tp) = build_tls_block(TLS_REGION_BASE, &t, tdata);
            LoadResult {
                pages,
                entry: img.entry,
                stack_base,
                user_rsp,
                tls: Some(t),
                main_tls: Some(TlsPage { vaddr: TLS_REGION_BASE, page, tp }),
                tls_next: TLS_REGION_BASE + 4096,
                fs_base: tp,
            }
        },
        None => LoadResult {
            pages,
            entry: img.entry,
            stack_base,
            user_rsp,
            tls: None,
            main_tls: None,
            tls_next: TLS_REGION_BASE,
            fs_base: 0,
        },
    }
}

/// Every stack ends on a page, within the two megabytes below the top, above the
/// thread-local blocks and within the user half.
pub proof fn law_stack_window(rand: u64)
    ensures
        stack_top(rand) % 4096 == 0,
        USER_STACK_TOP - 0x20_0000 < stack_top(rand) <= USER_STACK_TOP,
        stack_top(rand) - USER_STACK_PAGES * 4096 > TLS_REGION_BASE,
        stack_top(rand) <= LOWER_HALF_END,
{
}

/// Pages of the first `n` segments.
pub open spec fn load_pages(segs: Seq<Elf64Phdr>, n: int) -> int
    decreases n,
{
    if n <= 0 {
        0
    } else {
        load_pages(segs, n - 1) + page_count(segs[n - 1])
    }
}

/// Pages that loading an image takes for its segments.
pub fn spawn_load_pages(img: &Image) -> (n: u64)
    requires
        img.loadable(),
    ensures
        n == load_pages(img.load_list(), img.load_list().len() as int),
        n <= 0x8_0000_0000 * 0x1_0000,
{
    let segs = img.loads();
    let mut pages: u64 = 0;
    let mut n: usize = 0;
    proof {
        lemma_few_segments(*img, img.phnum as int);
    }
    while n < segs.len()
        invariant
            n <= segs@.len(),
            segs@.len() <= 0xffff,
            segs@ == img.load_list(),
            img.loadable(),
            pages == load_pages(segs@, n as int),
            pages <= n * 0x8_0000_0000,
        decreases segs@.len() - n,
    {
        let ph = segs[n];
        assert(Image::segment_mappable(img.load_list()[n as int]));
        proof {
            lemma_page_count(ph);
        }
        let start: u64 = vm::align_down_4k(ph.p_vaddr);
        let end: u64 = vm::align_up_4k(ph.p_vaddr + ph.p_memsz);
        pages += (end - start) / 4096;
        n += 1;
    }
    pages
}

/// Pages of a program besides its segments: the stack, and the main thread's thread-local
/// block if it has one.
pub open spec fn other_pages(img: Image) -> int {
    USER_STACK_PAGES + if img.tls_from(0) is Some {
        1int
    } else {
        0
    }
}

/// Pages that a program takes when it is loaded.
pub open spec fn program_pages(img: Image) -> int {
    load_pages(img.load_list(), img.load_list().len() as int) + other_pages(img)
}

/// Pages that a program takes when it is loaded.
pub fn count_pages(img: &Image) -> (n: u64)
    requires
        img.loadable(),
    ensures
        n == program_pages(*img),
        n <= 0x8_0000_0000 * 0x1_0000 + USER_STACK_PAGES + 1,
{
    let segments: u64 = spawn_load_pages(img);
    match img.tls() {
        Some(_) => segments + USER_STACK_PAGES + 1,
        None => segments + USER_STACK_PAGES,
    }
}

/// Pages that a load plan maps.
pub open spec fn planned_pages(lr: LoadResult) -> int {
    lr.pages@.len() + (lr.user_rsp - lr.stack_base) / 4096 + if lr.main_tls is Some {
        1int
    } else {
        0
    }
}

/// A load plan maps just the pages that were counted, its stack and thread-local block
/// among them.
pub proof fn law_plan_is_counted(lr: LoadResult, img: Image, rand: u64)
    requires
        img.loadable(),
        loads_image(lr, img, rand),
    ensures
        planned_pages(lr) == program_pages(img),
{
    assert forall|i: int| 0 <= i < img.load_list().len() implies Image::segment_mappable(
        #[trigger] img.load_list()[i],
    ) by {}
    law_pages_are_paid(img.load_list(), img.load_list().len() as int);
}

proof fn lemma_few_segments(img: Image, n: int)
    requires
        0 <= n,
    ensures
        img.loads_upto(n).len() <= n,
    decreases n,
{
    if n > 0 {
        lemma_few_segments(img, n - 1);
    }
}

/// What is paid for is what is loaded: the page count is the number of pages listed.
pub proof fn law_pages_are_paid(segs: Seq<Elf64Phdr>, n: int)
    requires
        0 <= n <= segs.len(),
        forall|i: int| 0 <= i < segs.len() ==> Image::segment_mappable(#[trigger] segs[i]),
    ensures
        pages_of(segs, n).len() == load_pages(segs, n),
    decreases n,
{
    if n > 0 {
        law_pages_are_paid(segs, n - 1);
        assert(Image::segment_mappable(segs[n - 1]));
        lemma_page_count(segs[n - 1]);
    }
}

/// The argument page of a program: the arguments, and zeros to the end.
pub fn argv_page(args: &[u8]) -> (page: Vec<u8>)
    requires
        args@.len() <= 4095,
    ensures
        page@ == bytes::padded(args@, 4096),
{
    let mut page: Vec<u8> = Vec::new();
    let mut i: usize = 0;
    while i < 4096
        invariant
            i <= 4096,
            args@.len() <= 4095,
            page@ =~= bytes::padded(args@, 4096).subrange(0, i as int),
        decreases 4096 - i,
    {
        if i < args.len() {
            page.push(args[i]);
        } else {
            page.push(0);
        }
        i += 1;
    }
    assert(page@ =~= bytes::padded(args@, 4096));
    page
}

/// A program reads back the arguments it was given, up to the first NUL if they hold
/// one.
pub proof fn law_arguments_arrive(args: Seq<u8>)
    requires
        args.len() <= 4095,
    ensures
        bytes::until_nul(bytes::padded(args, 4096)) == bytes::until_nul(args),
{
    let page = bytes::padded(args, 4096);
    bytes::lemma_nul_index(args);
    bytes::lemma_nul_index(page);
    let i = bytes::nul_index(args);
    let j = bytes::nul_index(page);
    if i < j {
        assert(page[i] != 0);
        if i < args.len() {
            assert(args[i] == 0);
        }
    }
    if j < i {
        assert(args[j] != 0);
        assert(page[j] == args[j]);
    }
    assert(bytes::until_nul(page) =~= bytes::until_nul(args));
}

} // verus!
