//! ELF64 program images: header validation and the segments to load.
use vstd::prelude::*;
use crate::abi::SysError;
use crate::bytes;
use crate::bytes::{read_le16, read_le32, read_le64};
use crate::mm::vm::LOWER_HALF_END;

verus! {

pub const EHDR_SIZE: usize = 64;
pub const PHDR_SIZE: usize = 56;
pub const ET_EXEC: u16 = 2;
pub const EM_X86_64: u16 = 62;
pub const PT_LOAD: u32 = 1;
pub const PT_TLS: u32 = 7;
pub const PF_X: u32 = 1;
pub const PF_W: u32 = 2;
pub const PF_R: u32 = 4;

/// A program header.
#[derive(Clone, Copy)]
pub struct Elf64Phdr {
    pub p_type: u32,
    pub p_flags: u32,
    pub p_offset: u64,
    pub p_vaddr: u64,
    pub p_paddr: u64,
    pub p_filesz: u64,
    pub p_memsz: u64,
    pub p_align: u64,
}

/// A validated image: its entry point and where its program headers are.
pub struct Image<'a> {
    pub entry: u64,
    pub data: &'a [u8],
    pub phoff: u64,
    pub phentsize: u16,
    pub phnum: u16,
}

/// The bytes start with the header of a 64-bit little-endian x86-64 executable.
pub open spec fn valid_header(b: Seq<u8>) -> bool {
    &&& b.len() >= EHDR_SIZE
    &&& b[0] == 0x7f && b[1] == 0x45 && b[2] == 0x4c && b[3] == 0x46
    &&& b[4] == 2
    &&& b[5] == 1
    &&& bytes::le16(b, 16) == ET_EXEC
    &&& bytes::le16(b, 18) == EM_X86_64
}

/// The program header in the 56 bytes of `b` at `off`.
pub open spec fn phdr_at(b: Seq<u8>, off: int) -> Elf64Phdr {
    Elf64Phdr {
        p_type: bytes::le32(b, off) as u32,
        p_flags: bytes::le32(b, off + 4) as u32,
        p_offset: bytes::le64(b, off + 8) as u64,
        p_vaddr: bytes::le64(b, off + 16) as u64,
        p_paddr: bytes::le64(b, off + 24) as u64,
        p_filesz: bytes::le64(b, off + 32) as u64,
        p_memsz: bytes::le64(b, off + 40) as u64,
        p_align: bytes::le64(b, off + 48) as u64,
    }
}

impl<'a> Image<'a> {
    /// Where program header `i` begins.
    pub open spec fn phdr_off(&self, i: int) -> int {
        self.phoff + i * self.phentsize
    }

    /// Program header `i`.
    pub open spec fn phdr(&self, i: int) -> Elf64Phdr {
        phdr_at(self.data@, self.phdr_off(i))
    }

    /// Every program header can be read.
    pub open spec fn readable(&self) -> bool {
        forall|i: int| 0 <= i < self.phnum ==> #[trigger] self.phdr_off(i) + PHDR_SIZE
            <= self.data@.len()
    }

    /// The loadable segments among the first `n` program headers.
    pub open spec fn loads_upto(&self, n: int) -> Seq<Elf64Phdr>
        decreases n,
    {
        if n <= 0 {
            Seq::empty()
        } else if self.phdr(n - 1).p_type == PT_LOAD {
            self.loads_upto(n - 1).push(self.phdr(n - 1))
        } else {
            self.loads_upto(n - 1)
        }
    }

    /// The loadable segments, in file order.
    pub open spec fn load_list(&self) -> Seq<Elf64Phdr> {
        self.loads_upto(self.phnum as int)
    }

    /// The first thread-local storage header from `i` up.
    pub open spec fn tls_from(&self, i: int) -> Option<Elf64Phdr>
        decreases self.phnum - i,
    {
        if i >= self.phnum {
            None
        } else if self.phdr(i).p_type == PT_TLS {
            Some(self.phdr(i))
        } else {
            self.tls_from(i + 1)
        }
    }

    /// This image is what the header of `b` describes.
    pub open spec fn describes(&self, b: Seq<u8>) -> bool {
        &&& self.data@ == b
        &&& self.entry == bytes::le64(b, 24)
        &&& self.phoff == bytes::le64(b, 32)
        &&& self.phentsize == bytes::le16(b, 54)
        &&& self.phnum == bytes::le16(b, 56)
    }

    /// Accept the image of a boot module, whose header must be valid.
    pub fn validate(data: &'a [u8]) -> (img: Image<'a>)
        requires
            valid_header(data@),
        ensures
            img.describes(data@),
    {
        Image {
            entry: read_le64(data, 24),
            data,
            phoff: read_le64(data, 32),
            phentsize: read_le16(data, 54),
            phnum: read_le16(data, 56),
        }
    }

    /// Validate the header of an image from user space.
    pub fn try_validate(data: &'a [u8]) -> (r: Result<Image<'a>, SysError>)
        ensures
            match r {
                Ok(img) => valid_header(data@) && img.describes(data@),
                Err(e) => !valid_header(data@) && e == SysError::Msg,
            },
    {
        if data.len() < EHDR_SIZE {
            return Err(SysError::Msg);
        }
        if data[0] != 0x7f || data[1] != 0x45 || data[2] != 0x4c || data[3] != 0x46 || data[4] != 2
            || data[5] != 1 || read_le16(data, 16) != ET_EXEC || read_le16(data, 18) != EM_X86_64 {
            return Err(SysError::Msg);
        }
        Ok(Self::validate(data))
    }

    /// Read program header `i`.
    fn read_phdr(&self, i: usize) -> (ph: Elf64Phdr)
        requires
            i < self.phnum,
            self.readable(),
        ensures
            ph == self.phdr(i as int),
    {
        assert(self.phdr_off(i as int) + PHDR_SIZE <= self.data.len());
        assert(i * self.phentsize <= 0xffff * 0xffff) by (nonlinear_arith)
            requires
                0 <= i <= 0xffff,
                0 <= self.phentsize <= 0xffff,
        ;
        let step: u64 = i as u64 * self.phentsize as u64;
        let off: usize = (self.phoff + step) as usize;
        Elf64Phdr {
            p_type: read_le32(self.data, off),
            p_flags: read_le32(self.data, off + 4),
            p_offset: read_le64(self.data, off + 8),
            p_vaddr: read_le64(self.data, off + 16),
            p_paddr: read_le64(self.data, off + 24),
            p_filesz: read_le64(self.data, off + 32),
            p_memsz: read_le64(self.data, off + 40),
            p_align: read_le64(self.data, off + 48),
        }
    }

    /// The loadable segments, in file order.
    pub fn loads(&self) -> (v: Vec<Elf64Phdr>)
        requires
            self.readable(),
        ensures
            v@ == self.load_list(),
    {
        let mut v: Vec<Elf64Phdr> = Vec::new();
        let mut i: usize = 0;
        while i < self.phnum as usize
            invariant
                self.readable(),
                i <= self.phnum,
                v@ =~= self.loads_upto(i as int),
            decreases self.phnum - i,
        {
            let ph = self.read_phdr(i);
            if ph.p_type == PT_LOAD {
                v.push(ph);
            }
            i += 1;
        }
        v
    }

    /// The thread-local storage header, if there is one.
    pub fn tls(&self) -> (r: Option<Elf64Phdr>)
        requires
            self.readable(),
        ensures
            r == self.tls_from(0),
    {
        let mut i: usize = 0;
        while i < self.phnum as usize
            invariant
                self.readable(),
                i <= self.phnum,
                self.tls_from(0) == self.tls_from(i as int),
            decreases self.phnum - i,
        {
            let ph = self.read_phdr(i);
            if ph.p_type == PT_TLS {
                return Some(ph);
            }
            i += 1;
        }
        None
    }

    /// The raw bytes of the image.
    pub fn bytes(&self) -> (b: &'a [u8])
        ensures
            b@ == self.data@,
    {
        self.data
    }

    /// Segment `ph` takes no more of the file than there is, nor more than it occupies.
    pub open spec fn segment_in_file(&self, ph: Elf64Phdr) -> bool {
        &&& ph.p_filesz <= ph.p_memsz
        &&& ph.p_offset + ph.p_filesz <= self.data@.len()
    }

    /// The header table and every loadable segment's part of the file lie within it.
    pub open spec fn in_bounds(&self) -> bool {
        &&& self.phoff + self.phnum * self.phentsize <= self.data@.len()
        &&& self.readable()
        &&& forall|i: int|
            0 <= i < self.load_list().len() ==> self.segment_in_file(
                #[trigger] self.load_list()[i],
            )
    }

    /// Whether every program header can be read.
    fn headers_readable(&self) -> (ok: bool)
        ensures
            ok == self.readable(),
    {
        let mut i: usize = 0;
        while i < self.phnum as usize
            invariant
                i <= self.phnum,
                forall|k: int| 0 <= k < i ==> #[trigger] self.phdr_off(k) + PHDR_SIZE
                    <= self.data@.len(),
            decreases self.phnum - i,
        {
            assert(i * self.phentsize <= 0xffff * 0xffff) by (nonlinear_arith)
                requires
                    0 <= i <= 0xffff,
                    0 <= self.phentsize <= 0xffff,
            ;
            let end: u128 = self.phoff as u128 + (i as u64 * self.phentsize as u64) as u128
                + PHDR_SIZE as u128;
            assert(end == self.phdr_off(i as int) + PHDR_SIZE);
            if end > self.data.len() as u128 {
                return false;
            }
            i += 1;
        }
        true
    }

    /// Whether the header table and every loadable segment lie within the bytes. An
    /// image that is cut short or forged fails here.
    pub fn segments_in_bounds(&self) -> (ok: bool)
        ensures
            ok == self.in_bounds(),
    {
        assert(self.phnum * self.phentsize <= 0xffff * 0xffff) by (nonlinear_arith)
            requires
                0 <= self.phnum <= 0xffff,
                0 <= self.phentsize <= 0xffff,
        ;
        let len: usize = self.data.len();
        let table: u64 = self.phnum as u64 * self.phentsize as u64;
        let phdr_end: u64 = match self.phoff.checked_add(table) {
            Some(e) => e,
            None => {
                return false;
            },
        };
        if phdr_end > len as u64 {
            return false;
        }
        if !self.headers_readable() {
            return false;
        }
        let segs = self.loads();
        let mut i: usize = 0;
        while i < segs.len()
            invariant
                i <= segs@.len(),
                len == self.data.len(),
                segs@ == self.load_list(),
                forall|k: int|
                    0 <= k < i ==> self.segment_in_file(#[trigger] self.load_list()[k]),
            decreases segs@.len() - i,
        {
            let ph = segs[i];
            assert(ph == self.load_list()[i as int]);
            if ph.p_filesz > ph.p_memsz {
                return false;
            }
            match ph.p_offset.checked_add(ph.p_filesz) {
                Some(e) => {
                    if e > len as u64 {
                        return false;
                    }
                },
                None => {
                    return false;
                },
            }
            i += 1;
        }
        true
    }

    /// Segment `ph` can be mapped: not writable and executable at once, and entirely in
    /// the user half.
    pub open spec fn segment_mappable(ph: Elf64Phdr) -> bool {
        &&& !(ph.p_flags & PF_W != 0 && ph.p_flags & PF_X != 0)
        &&& ph.p_vaddr + ph.p_memsz <= LOWER_HALF_END
    }

    /// The image can be loaded: everything is in bounds, every segment can be mapped, and
    /// its thread-local storage, if any, fits a page.
    pub open spec fn loadable(&self) -> bool {
        &&& self.in_bounds()
        &&& forall|i: int|
            0 <= i < self.load_list().len() ==> Self::segment_mappable(
                #[trigger] self.load_list()[i],
            )
        &&& self.tls_from(0) is Some ==> self.tls_loadable(self.tls_from(0)->0)
    }

    /// The initialised part of the thread-local storage lies within the file, and a block
    /// with its thread control word fits a page.
    pub open spec fn tls_loadable(&self, ph: Elf64Phdr) -> bool {
        &&& self.segment_in_file(ph)
        &&& tls_fits(ph.p_memsz, ph.p_align)
    }

    /// Whether the image can be loaded.
    pub fn is_loadable(&self) -> (ok: bool)
        ensures
            ok == self.loadable(),
    {
        if !self.segments_in_bounds() {
            return false;
        }
        let len: usize = self.data.len();
        let segs = self.loads();
        let mut i: usize = 0;
        while i < segs.len()
            invariant
                i <= segs@.len(),
                segs@ == self.load_list(),
                forall|k: int|
                    0 <= k < i ==> Self::segment_mappable(#[trigger] self.load_list()[k]),
            decreases segs@.len() - i,
        {
            let ph = segs[i];
            assert(ph == self.load_list()[i as int]);
            if ph.p_flags & PF_W != 0 && ph.p_flags & PF_X != 0 {
                return false;
            }
            if ph.p_vaddr > LOWER_HALF_END || ph.p_memsz > LOWER_HALF_END - ph.p_vaddr {
                return false;
            }
            i += 1;
        }
        match self.tls() {
            Some(ph) => {
                if ph.p_filesz > ph.p_memsz {
                    return false;
                }
                let in_file = match ph.p_offset.checked_add(ph.p_filesz) {
                    Some(e) => e <= len as u64,
                    None => false,
                };
                in_file && fits_tls(ph.p_memsz, ph.p_align)
            },
            None => true,
        }
    }
}

/// The alignment of a thread-local block: at least a word.
pub open spec fn tls_alignment(align: u64) -> u64 {
    if align < 8 {
        8
    } else {
        align
    }
}

/// Bytes of the static part of a thread-local block: the storage rounded up to its
/// alignment.
pub open spec fn tls_block_size(memsz: u64, align: u64) -> u64 {
    let a = tls_alignment(align);
    ((memsz + a - 1) as u64) & !((a - 1) as u64)
}

/// A block of that size with its thread control words fits a page.
pub open spec fn tls_fits(memsz: u64, align: u64) -> bool {
    &&& memsz + tls_alignment(align) - 1 <= u64::MAX
    &&& tls_block_size(memsz, align) + 16 <= 4096
}

/// Bytes of the static part of a thread-local block; it holds the whole storage.
pub fn tls_size(memsz: u64, align: u64) -> (n: u64)
    requires
        memsz + tls_alignment(align) - 1 <= u64::MAX,
    ensures
        n == tls_block_size(memsz, align),
        memsz <= n,
{
    let a: u64 = if align < 8 {
        8
    } else {
        align
    };
    let y: u64 = memsz + (a - 1);
    let m: u64 = a - 1;
    assert(y >= m ==> y & !m >= y - m) by (bit_vector);
    y & !m
}

/// A block's thread pointer is aligned as the storage asks, when that is a power of two
/// no larger than a page and the block starts on a page.
pub proof fn law_tls_aligned(vaddr: u64, memsz: u64, align: u64)
    requires
        tls_fits(memsz, align),
        tls_alignment(align) <= 4096,
        tls_alignment(align) & ((tls_alignment(align) - 1) as u64) == 0,
        vaddr & 0xfff == 0,
        vaddr <= LOWER_HALF_END,
    ensures
        ((vaddr + tls_block_size(memsz, align)) as u64) & ((tls_alignment(align) - 1) as u64) == 0,
{
    let a = tls_alignment(align);
    let y = (memsz + a - 1) as u64;
    let m = (a - 1) as u64;
    let n = y & !m;
    let t = (vaddr + n) as u64;
    assert(t & m == 0) by (bit_vector)
        requires
            8 <= a <= 4096,
            a & m == 0,
            m == a - 1,
            vaddr & 0xfff == 0,
            vaddr <= 0x8000_0000_0000u64,
            n == y & !m,
            n <= 4096,
            t == vaddr + n,
    ;
}

fn fits_tls(memsz: u64, align: u64) -> (ok: bool)
    ensures
        ok == tls_fits(memsz, align),
{
    let a: u64 = if align < 8 {
        8
    } else {
        align
    };
    if memsz > u64::MAX - (a - 1) {
        return false;
    }
    tls_size(memsz, align) <= 4080
}

/// The letters for a segment's permissions.
pub open spec fn perm_letters(flags: u32) -> Seq<char> {
    let r = flags & PF_R != 0;
    let w = flags & PF_W != 0;
    let x = flags & PF_X != 0;
    if r && !w && x {
        "r-x"@
    } else if r && w && !x {
        "rw-"@
    } else if r && !w && !x {
        "r--"@
    } else {
        "???"@
    }
}

/// The letters for a segment's permissions.
pub fn perm_str(flags: u32) -> (s: &'static str)
    ensures
        s@ == perm_letters(flags),
{
    let r = flags & PF_R != 0;
    let w = flags & PF_W != 0;
    let x = flags & PF_X != 0;
    if r && !w && x {
        "r-x"
    } else if r && w && !x {
        "rw-"
    } else if r && !w && !x {
        "r--"
    } else {
        "???"
    }
}

} // verus!
