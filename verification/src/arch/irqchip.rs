//! The interrupt controllers: which registers take which values.
use vstd::prelude::*;

verus! {

pub const PIC1_DATA: u16 = 0x21;
pub const PIC2_DATA: u16 = 0xA1;

/// Vector of line 0 of the first controller.
pub const OFFSET1: u8 = 0x20;

/// Vector of line 0 of the second controller.
pub const OFFSET2: u8 = 0x28;

/// The mask register of a line's controller, and the line's number there.
pub open spec fn pic_line(irq: u8) -> (u16, u8) {
    if irq < 8 {
        (PIC1_DATA, irq)
    } else {
        (PIC2_DATA, (irq - 8) as u8)
    }
}

/// Where the mask bit of a line is.
pub fn pic_place(irq: u8) -> (r: (u16, u8))
    requires
        irq < 16,
    ensures
        r == pic_line(irq),
        r.1 < 8,
{
    if irq < 8 {
        (PIC1_DATA, irq)
    } else {
        (PIC2_DATA, irq - 8)
    }
}

/// A mask register with the line numbered `line` there masked.
pub fn mask(line: u8, reg: u8) -> (m: u8)
    requires
        line < 8,
    ensures
        m == reg | (1u8 << line),
{
    reg | (1u8 << line)
}

/// A mask register with the line numbered `line` there open.
pub fn unmask(line: u8, reg: u8) -> (m: u8)
    requires
        line < 8,
    ensures
        m == reg & !(1u8 << line),
{
    reg & !(1u8 << line)
}

/// Masking and opening a line touches no other, and each undoes the other.
pub proof fn law_mask_bits(reg: u8, line: u8, other: u8)
    requires
        line < 8,
        other < 8,
        line != other,
    ensures
        (reg | (1u8 << line)) & (1u8 << line) != 0,
        (reg & !(1u8 << line)) & (1u8 << line) == 0,
        (reg | (1u8 << line)) & (1u8 << other) == reg & (1u8 << other),
        (reg & !(1u8 << line)) & (1u8 << other) == reg & (1u8 << other),
        (reg | (1u8 << line)) & !(1u8 << line) == reg & !(1u8 << line),
{
    assert((reg | (1u8 << line)) & (1u8 << line) != 0 && (reg & !(1u8 << line)) & (1u8 << line) == 0
        && (reg | (1u8 << line)) & (1u8 << other) == reg & (1u8 << other) && (reg & !(1u8 << line))
        & (1u8 << other) == reg & (1u8 << other) && (reg | (1u8 << line)) & !(1u8 << line) == reg
        & !(1u8 << line)) by (bit_vector)
        requires
            line < 8,
            other < 8,
            line != other,
    ;
}

/// Whether the end of an interrupt on `irq` must be told to the second controller too.
pub fn eoi_both(irq: u8) -> (b: bool)
    ensures
        b == (irq >= 8),
{
    irq >= 8
}

/// The mask bit of a redirection entry.
pub const REDIR_MASK: u32 = 0x1_0000;

/// The register of the low half of a redirection entry; the high half follows it.
pub fn redir_lo(gsi: u8) -> (r: u32)
    ensures
        r == 0x10 + 2 * gsi,
{
    0x10 + 2 * gsi as u32
}

/// The two halves of a redirection entry that delivers `vector` to one processor, still
/// masked.
pub fn route(vector: u8, dest_lapic: u8) -> (r: (u32, u32))
    ensures
        r.0 == vector as u32 | REDIR_MASK,
        r.1 == dest_lapic * 0x100_0000,
{
    (vector as u32 | REDIR_MASK, dest_lapic as u32 * 0x100_0000)
}

/// The lines that come through the redirection table, with their vectors: each keeps the
/// one it has at the first controllers.
pub fn isa_routes() -> (r: [(u8, u8); 3])
    ensures
        r@ == seq![(1u8, 0x21u8), (4u8, 0x24u8), (12u8, 0x2Cu8)],
        forall|i: int| 0 <= i < 3 ==> (#[trigger] r@[i]).1 == OFFSET1 + r@[i].0,
{
    let r: [(u8, u8); 3] = [(1, 0x21), (4, 0x24), (12, 0x2C)];
    assert(r@ =~= seq![(1u8, 0x21u8), (4u8, 0x24u8), (12u8, 0x2Cu8)]);
    r
}

/// Whether a line comes through the redirection table: keyboard, serial and mouse do.
pub fn routed(line: u8) -> (b: bool)
    ensures
        b == (line == 1 || line == 4 || line == 12),
{
    line == 1 || line == 4 || line == 12
}

/// Vector of a processor's own timer.
pub const TIMER_VECTOR: u8 = 0x30;

/// Vector of the interrupts of a processor that were none.
pub const SPURIOUS_VECTOR: u8 = 0xFF;

/// What an interrupt asks for.
#[derive(Clone, Copy, PartialEq, Eq, Structural, Debug)]
pub enum Interrupt {
    /// The interval timer: tell the controllers, keep time, give up the turn.
    Clock,
    /// The processor's own timer: tell the processor, keep time, give up the turn.
    LocalClock,
    /// Was none, and wants no answer.
    Spurious,
    /// Was none on the second controller: the first is told all the same.
    SecondSpurious,
    /// A line of the redirection table: tell the processor, signal the line. It is not
    /// masked, for its device holds it until it is drained.
    Direct(u8),
    /// A line of the controllers: mask it until it is acknowledged, tell the controllers,
    /// signal the line.
    Masked(u8),
    /// A line that is always masked, or a vector of no device.
    Unexpected,
}

/// What the interrupt `vector` asks for.
pub open spec fn interrupt_at(vector: u8) -> Interrupt {
    if vector == TIMER_VECTOR {
        Interrupt::LocalClock
    } else if vector == SPURIOUS_VECTOR {
        Interrupt::Spurious
    } else if vector < OFFSET1 || vector >= OFFSET1 + 16 {
        Interrupt::Unexpected
    } else {
        let line = (vector - OFFSET1) as u8;
        if line == 0 {
            Interrupt::Clock
        } else if line == 7 {
            Interrupt::Spurious
        } else if line == 15 {
            Interrupt::SecondSpurious
        } else if line == 1 || line == 4 || line == 12 {
            Interrupt::Direct(line)
        } else if line == 5 || line == 9 || line == 10 || line == 11 {
            Interrupt::Masked(line)
        } else {
            Interrupt::Unexpected
        }
    }
}

/// What the interrupt `vector` asks for.
pub fn interrupt(vector: u8) -> (i: Interrupt)
    ensures
        i == interrupt_at(vector),
{
    if vector == TIMER_VECTOR {
        return Interrupt::LocalClock;
    }
    if vector == SPURIOUS_VECTOR {
        return Interrupt::Spurious;
    }
    if vector < OFFSET1 || vector >= OFFSET1 + 16 {
        return Interrupt::Unexpected;
    }
    let line: u8 = vector - OFFSET1;
    if line == 0 {
        Interrupt::Clock
    } else if line == 7 {
        Interrupt::Spurious
    } else if line == 15 {
        Interrupt::SecondSpurious
    } else if routed(line) {
        Interrupt::Direct(line)
    } else if line == 5 || line == 9 || line == 10 || line == 11 {
        Interrupt::Masked(line)
    } else {
        Interrupt::Unexpected
    }
}

/// An interrupt signals no line but the one whose vector it came on.
pub proof fn law_vector_names_line(vector: u8, line: u8)
    requires
        interrupt_at(vector) == Interrupt::Direct(line) || interrupt_at(vector)
            == Interrupt::Masked(line),
    ensures
        vector == OFFSET1 + line,
        line < 16,
{
}

/// Clock of the interval timer, in Hertz.
pub const PIT_HZ: u32 = 1_193_182;

/// The divisor that gives `freq_hz` ticks a second, as near as the register allows.
pub fn pit_divisor(freq_hz: u32) -> (d: u16)
    requires
        freq_hz > 0,
    ensures
        ({
            let q = PIT_HZ as int / freq_hz as int;
            d == (if q < 1 {
                1
            } else if q > 0xFFFF {
                0xFFFF
            } else {
                q
            })
        }),
{
    let q: u32 = PIT_HZ / freq_hz;
    if q < 1 {
        1
    } else if q > 0xFFFF {
        0xFFFF
    } else {
        q as u16
    }
}

/// The initial count for `hz` ticks a second, from the count that gives a hundred: at
/// least one, and no more than the register's width of it.
pub fn timer_count(count_100hz: u32, hz: u32) -> (c: u32)
    ensures
        ({
            let q = (count_100hz * 100 / (if hz == 0 {
                1
            } else {
                hz as int
            })) % 0x1_0000_0000;
            c == (if q < 1 {
                1
            } else {
                q
            })
        }),
{
    let h: u64 = if hz == 0 {
        1
    } else {
        hz as u64
    };
    let q: u64 = ((count_100hz as u64 * 100) / h) % 0x1_0000_0000;
    if q < 1 {
        1
    } else {
        q as u32
    }
}

/// Top of the stack of processor `cpu`, in an array of stacks of `size` bytes at `base`.
pub fn kernel_stack_top_of(base: u64, size: u64, cpu: usize) -> (top: u64)
    requires
        base + (cpu + 1) * size <= u64::MAX,
    ensures
        top == base + (cpu + 1) * size,
{
    assert((cpu + 1) * size <= u64::MAX - base);
    assert(cpu + 1 <= (cpu + 1) * size || size == 0) by (nonlinear_arith)
        requires
            size >= 0,
            cpu >= 0,
    ;
    if size == 0 {
        assert((cpu + 1) * size == 0) by (nonlinear_arith)
            requires
                size == 0,
        ;
        return base;
    }
    base + (cpu as u64 + 1) * size
}

} // verus!
