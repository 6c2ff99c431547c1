//! What is done on a processor fault: a program's fault ends the program, the
//! kernel's stops the machine. Either is reported on the serial line.
use crate::arch::serial;
use crate::arch::serial::raw_hex;
use vstd::prelude::*;
use vstd::string::*;

verus! {

/// Processors whose place is reported.
pub const REPORTED_CPUS: usize = 8;

/// The bit of a page fault's error code that says it came from a program.
pub const PF_USER: u64 = 4;

/// Whether a fault came from a program, by the code segment it happened in.
pub fn from_program(cs: u16) -> (b: bool)
    ensures
        b == (cs as int % 4 == 3),
{
    cs % 4 == 3
}

/// Whether a page fault came from a program, by its error code.
pub fn page_fault_from_program(err: u64) -> (b: bool)
    ensures
        b == (err & PF_USER != 0),
{
    err & PF_USER != 0
}

/// A number in hexadecimal, with its prefix and all sixteen digits.
pub open spec fn hex_text(v: u64) -> Seq<u8> {
    Seq::new(
        18,
        |i: int|
            if i == 0 {
                48u8
            } else if i == 1 {
                120u8
            } else {
                serial::hex_digit(serial::digit_of(v, 17 - i)) as u8
            },
    )
}

/// Append a text.
fn add_text(out: &mut Vec<u8>, s: &str)
    ensures
        final(out)@ == old(out)@ + s.spec_bytes(),
{
    let b = s.as_bytes();
    let ghost before = out@;
    let mut i: usize = 0;
    while i < b.len()
        invariant
            i <= b.len(),
            out@ =~= before + b@.subrange(0, i as int),
        decreases b.len() - i,
    {
        out.push(b[i]);
        i += 1;
    }
    assert(b@.subrange(0, b@.len() as int) =~= b@);
}

/// Append a number in hexadecimal.
fn add_hex(out: &mut Vec<u8>, v: u64)
    ensures
        final(out)@ == old(out)@ + hex_text(v),
{
    let h = raw_hex(v);
    let ghost before = out@;
    proof {
        assert forall|k: int| 2 <= k < 18 implies h@[k] == hex_text(v)[k] by {
            assert(h@[17 - (17 - k)] == serial::hex_digit(serial::digit_of(v, 17 - k)));
        }
        assert(h@ =~= hex_text(v));
    }
    let mut i: usize = 0;
    while i < 18
        invariant
            i <= 18,
            h@ == hex_text(v),
            out@ =~= before + h@.subrange(0, i as int),
        decreases 18 - i,
    {
        out.push(h[i]);
        i += 1;
    }
    assert(h@.subrange(0, 18) =~= h@);
}

/// The report of a program's fault.
pub open spec fn trap_text(
    name: Seq<u8>,
    first: Seq<u8>,
    a: u64,
    second: Seq<u8>,
    b: u64,
    tid: u64,
) -> Seq<u8> {
    "[trap] ".spec_bytes() + name + " user ".spec_bytes() + first + hex_text(a) + second + hex_text(
        b,
    ) + " -- killing tcb ".spec_bytes() + hex_text(tid) + seq![10u8]
}

/// Report a program's fault: which, two named numbers of it, and the thread that
/// ends.
pub fn trap_report(name: &str, first: &str, a: u64, second: &str, b: u64, tid: u64) -> (out: Vec<
    u8,
>)
    ensures
        out@ == trap_text(
            name.spec_bytes(),
            first.spec_bytes(),
            a,
            second.spec_bytes(),
            b,
            tid,
        ),
{
    let mut out: Vec<u8> = Vec::new();
    add_text(&mut out, "[trap] ");
    add_text(&mut out, name);
    add_text(&mut out, " user ");
    add_text(&mut out, first);
    add_hex(&mut out, a);
    add_text(&mut out, second);
    add_hex(&mut out, b);
    add_text(&mut out, " -- killing tcb ");
    add_hex(&mut out, tid);
    out.push(10);
    assert(out@ =~= trap_text(
        name.spec_bytes(),
        first.spec_bytes(),
        a,
        second.spec_bytes(),
        b,
        tid,
    ));
    out
}

/// A fault of the kernel.
#[derive(Clone, Copy, PartialEq, Eq, Structural, Debug)]
pub struct Fault {
    pub ring: u64,
    pub rip: u64,
    pub cr2: u64,
    pub err: u64,
    pub tid: u64,
}

/// The first line of a report of the kernel's fault.
pub open spec fn fault_text(name: Seq<u8>, f: Fault) -> Seq<u8> {
    "\n[FAULT] ".spec_bytes() + name + " ring=".spec_bytes() + hex_text(f.ring)
        + " rip=".spec_bytes() + hex_text(f.rip) + " cr2=".spec_bytes() + hex_text(f.cr2)
        + " err=".spec_bytes() + hex_text(f.err) + " tcb=".spec_bytes() + hex_text(f.tid)
        + seq![10u8]
}

/// Where the first `n` processors were stopped, a line each; none for one that
/// was not.
pub open spec fn stopped_text(stopped: Seq<u64>, n: int) -> Seq<u8>
    decreases n,
{
    if n <= 0 {
        Seq::empty()
    } else if stopped[n - 1] == 0 {
        stopped_text(stopped, n - 1)
    } else {
        stopped_text(stopped, n - 1) + "  cpu ".spec_bytes() + hex_text((n - 1) as u64)
            + " at ".spec_bytes() + hex_text(stopped[n - 1]) + seq![10u8]
    }
}

/// Report a fault of the kernel, and where the other processors were stopped.
pub fn fault_report(name: &str, f: Fault, stopped: &[u64; REPORTED_CPUS]) -> (out: Vec<u8>)
    ensures
        out@ == fault_text(name.spec_bytes(), f) + stopped_text(stopped@, REPORTED_CPUS as int),
{
    let mut out: Vec<u8> = Vec::new();
    add_text(&mut out, "\n[FAULT] ");
    add_text(&mut out, name);
    add_text(&mut out, " ring=");
    add_hex(&mut out, f.ring);
    add_text(&mut out, " rip=");
    add_hex(&mut out, f.rip);
    add_text(&mut out, " cr2=");
    add_hex(&mut out, f.cr2);
    add_text(&mut out, " err=");
    add_hex(&mut out, f.err);
    add_text(&mut out, " tcb=");
    add_hex(&mut out, f.tid);
    out.push(10);
    let ghost head = fault_text(name.spec_bytes(), f);
    assert(out@ =~= head);
    let mut c: usize = 0;
    assert(out@ =~= head + stopped_text(stopped@, 0));
    while c < REPORTED_CPUS
        invariant
            c <= REPORTED_CPUS,
            out@ == head + stopped_text(stopped@, c as int),
        decreases REPORTED_CPUS - c,
    {
        let ghost before = out@;
        let r: u64 = stopped[c];
        if r != 0 {
            add_text(&mut out, "  cpu ");
            add_hex(&mut out, c as u64);
            add_text(&mut out, " at ");
            add_hex(&mut out, r);
            out.push(10);
            assert(out@ =~= head + stopped_text(stopped@, c + 1));
        } else {
            assert(out@ =~= head + stopped_text(stopped@, c + 1));
        }
        c += 1;
    }
    out
}

} // verus!
