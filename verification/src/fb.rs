//! The linear framebuffer.
use vstd::prelude::*;
use crate::mm::vm;

verus! {

/// Where the framebuffer is and how it is laid out.
#[derive(Clone, Copy)]
pub struct FbInfo {
    /// Kernel address.
    pub virt: u64,
    /// Physical address.
    pub phys: u64,
    pub width: u32,
    pub height: u32,
    /// Bytes per line.
    pub pitch: u32,
    pub bpp: u16,
}

impl FbInfo {
    /// All of it lies in physical memory.
    pub open spec fn wf(&self) -> bool {
        self.phys + self.bytes() <= 0x10_0000_0000_0000
    }

    /// Pixels are 32 bits wide, the only width in use.
    pub open spec fn usable(&self) -> bool {
        self.bpp == 32
    }

    /// Bytes to map: all lines, rounded up to whole pages.
    pub open spec fn bytes(&self) -> int {
        vm::rounded_up(self.pitch * self.height, 4096)
    }

    /// Bytes to map: all lines, rounded up to whole pages.
    pub fn size_bytes(&self) -> (n: u64)
        ensures
            n == self.bytes(),
            n % 4096 == 0,
    {
        assert(self.pitch * self.height <= 0xffff_ffff * 0xffff_ffff) by (nonlinear_arith)
            requires
                0 <= self.pitch <= 0xffff_ffff,
                0 <= self.height <= 0xffff_ffff,
        ;
        let raw: u64 = self.pitch as u64 * self.height as u64;
        vm::align_up_4k(raw)
    }
}

/// The framebuffer the bootloader set up at kernel address `virt`, when physical memory
/// appears at `hhdm`.
pub fn init(virt: u64, hhdm: u64, width: u32, height: u32, pitch: u32, bpp: u16) -> (fb: FbInfo)
    requires
        hhdm <= virt,
    ensures
        fb == (FbInfo { virt, phys: (virt - hhdm) as u64, width, height, pitch, bpp }),
{
    FbInfo { virt, phys: virt - hhdm, width, height, pitch, bpp }
}

/// The framebuffer, if there is a usable one.
pub fn info(fb: &Option<FbInfo>) -> (r: Option<FbInfo>)
    ensures
        r == (if *fb is Some && (*fb)->0.usable() {
            *fb
        } else {
            None
        }),
{
    match fb {
        Some(f) => {
            if f.bpp == 32 {
                Some(*f)
            } else {
                None
            }
        },
        None => None,
    }
}

/// Kernel address of pixel `(x, y)`; none outside the picture.
pub fn put(fb: &FbInfo, x: u32, y: u32) -> (a: Option<u64>)
    requires
        fb.virt + fb.pitch * fb.height + fb.width * 4 <= u64::MAX,
    ensures
        a == (if x < fb.width && y < fb.height {
            Some((fb.virt + y * fb.pitch + x * 4) as u64)
        } else {
            None
        }),
{
    if x >= fb.width || y >= fb.height {
        return None;
    }
    assert(y * fb.pitch <= fb.pitch * fb.height && 0 <= y * fb.pitch) by (nonlinear_arith)
        requires
            0 <= y < fb.height,
            0 <= fb.pitch,
    ;
    let off: u64 = y as u64 * fb.pitch as u64 + x as u64 * 4;
    Some(fb.virt + off)
}

/// Colour of pixel `(x, y)` of the test picture: red grows to the right, green downwards.
pub open spec fn pattern(w: int, h: int, x: int, y: int) -> int {
    ((x * 255) / w) * 0x1_0000 + ((y * 255) / h) * 0x100 + 0x80
}

/// The test picture, line by line; empty if pixels are not 32 bits wide.
pub fn test_pattern(fb: &FbInfo) -> (px: Vec<u32>)
    requires
        fb.width <= 0x101_0101,
        fb.height <= 0x101_0101,
    ensures
        fb.bpp != 32 ==> px@.len() == 0,
        fb.bpp == 32 ==> px@.len() == fb.width * fb.height,
        fb.bpp == 32 ==> forall|x: int, y: int|
            0 <= x < fb.width && 0 <= y < fb.height ==> #[trigger] px@[y * fb.width + x] == pattern(
                fb.width as int,
                fb.height as int,
                x,
                y,
            ),
{
    let mut px: Vec<u32> = Vec::new();
    if fb.bpp != 32 {
        return px;
    }
    let w: u32 = fb.width;
    let h: u32 = fb.height;
    let mut y: u32 = 0;
    while y < h
        invariant
            y <= h,
            w <= 0x101_0101,
            h <= 0x101_0101,
            px@.len() == y * w,
            forall|i: int, j: int|
                0 <= i < w && 0 <= j < y ==> #[trigger] px@[j * w + i] == pattern(
                    w as int,
                    h as int,
                    i,
                    j,
                ),
        decreases h - y,
    {
        let mut x: u32 = 0;
        while x < w
            invariant
                x <= w,
                y < h,
                w <= 0x101_0101,
                h <= 0x101_0101,
                px@.len() == y * w + x,
                forall|i: int, j: int|
                    0 <= i < w && 0 <= j < y ==> #[trigger] px@[j * w + i] == pattern(
                        w as int,
                        h as int,
                        i,
                        j,
                    ),
                forall|i: int|
                    0 <= i < x ==> #[trigger] px@[y * w + i] == pattern(
                        w as int,
                        h as int,
                        i,
                        y as int,
                    ),
            decreases w - x,
        {
            let r: u32 = x * 255 / w;
            let g: u32 = y * 255 / h;
            assert(r < 256) by (nonlinear_arith)
                requires
                    r == (x * 255) / (w as int),
                    0 <= x < w,
            ;
            assert(g < 256) by (nonlinear_arith)
                requires
                    g == (y * 255) / (h as int),
                    0 <= y < h,
            ;
            let ghost before = px@;
            px.push(r * 0x1_0000 + g * 0x100 + 0x80);
            proof {
                assert forall|i: int, j: int| 0 <= i < w && 0 <= j < y implies #[trigger] px@[j * w
                    + i] == pattern(w as int, h as int, i, j) by {
                    assert(0 <= j * w + i < y * w) by (nonlinear_arith)
                        requires
                            0 <= i < w,
                            0 <= j < y,
                    ;
                    assert(before[j * w + i] == px@[j * w + i]);
                }
                assert forall|i: int| 0 <= i < x + 1 implies #[trigger] px@[y * w + i] == pattern(
                    w as int,
                    h as int,
                    i,
                    y as int,
                ) by {
                    if i < x {
                        assert(before[y * w + i] == px@[y * w + i]);
                    }
                }
            }
            x += 1;
        }
        proof {
            assert((y + 1) * w == y * w + w) by (nonlinear_arith);
            assert forall|i: int, j: int| 0 <= i < w && 0 <= j < y + 1 implies #[trigger] px@[j * w
                + i] == pattern(w as int, h as int, i, j) by {
                if j == y {
                    assert(px@[y * w + i] == pattern(w as int, h as int, i, y as int));
                }
            }
        }
        y += 1;
    }
    assert(h * w == w * h) by (nonlinear_arith);
    px
}

} // verus!
