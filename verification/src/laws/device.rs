//! Laws of the terminal and of the machine: keys, clocks, interrupt lines, reports and
//! screens.

use crate::arch::fault::{self, Fault};
use crate::arch::irqchip::{self, Interrupt};
use crate::arch::rtc::{self, RtcRegs};
use crate::arch::serial;
use crate::arch::{self, QemuExit};
use crate::fb::{self, FbInfo};
use crate::kernel::Kernel;
use crate::libc::number;
use crate::pci;
use crate::pty::{self, Discipline, Key, Pty, ReadOut, Termios};
use crate::thread::{self, State};
use vstd::prelude::*;
use vstd::string::*;

verus! {

/// Output goes to the terminal as it is, but with a carriage return before each new line
/// where both flags for it are set.
pub proof fn law_output_mapping(t: Termios, src: Seq<u8>, c: u8)
    ensures
        t.oflag & 1 == 0 || t.oflag & 4 == 0 ==> pty::map_output(t, src) == src,
        t.oflag & 1 != 0 && t.oflag & 4 != 0 ==> {
            &&& pty::map_output(t, Seq::empty()) == Seq::<u8>::empty()
            &&& c != 10 ==> pty::map_output(t, src.push(c)) == pty::map_output(t, src).push(c)
            &&& c == 10 ==> pty::map_output(t, src.push(c)) == pty::map_output(t, src).push(
                13,
            ).push(10)
        },
{
    assert(src.push(c).drop_last() =~= src);
    if t.oflag & 1 != 0 && t.oflag & 4 != 0 {
        assert(pty::map_output(t, src) + seq![13u8, 10u8] =~= pty::map_output(t, src).push(
            13,
        ).push(10));
        assert(pty::map_output(t, Seq::empty()) =~= Seq::<u8>::empty());
    }
}

/// A carriage return typed is a new line where that is set, and a new line a carriage return
/// where that is; every other key is itself.
pub proof fn law_input_mapping(t: Termios, c: u8)
    ensures
        c == 13 && t.iflag & 0x100 != 0 ==> pty::map_input(t, c) == 10,
        c == 13 && t.iflag & 0x100 == 0 ==> pty::map_input(t, c) == 13,
        c == 10 && t.iflag & 0x40 != 0 ==> pty::map_input(t, c) == 13,
        c == 10 && t.iflag & 0x40 == 0 ==> pty::map_input(t, c) == 10,
        c != 10 && c != 13 ==> pty::map_input(t, c) == c,
{
}

/// The keys of a new terminal: Ctrl-C interrupts, Ctrl-\ quits, delete erases, Ctrl-U kills
/// the line, Ctrl-D ends it, and everything else is text.
pub proof fn law_cooked_keys(t: Termios, c: u8)
    requires
        pty::is_cooked(t),
    ensures
        c == 3 ==> pty::classify(t, c) == Key::Interrupt,
        c == 0x1c ==> pty::classify(t, c) == Key::Quit,
        c == 0x7f ==> pty::classify(t, c) == Key::Erase,
        c == 0x15 ==> pty::classify(t, c) == Key::Kill,
        c == 4 ==> pty::classify(t, c) == Key::EndOfFile,
        c == 10 ==> pty::classify(t, c) == Key::Newline,
        c != 3 && c != 0x1c && c != 0x7f && c != 0x15 && c != 4 && c != 10 ==> pty::classify(t, c)
            == Key::Text,
        t.lflag & 8 != 0,
        t.lflag & 0x10 != 0,
        t.lflag & 0x20 != 0,
        t.iflag & 0x100 != 0,
        t.oflag & 1 != 0 && t.oflag & 4 != 0,
{
    assert(forall|f: u32|
        #![trigger f & 1]
        f == 1u32 | 2 | 8 | 0x10 | 0x20 ==> f & 1 != 0 && f & 2 != 0 && f & 8 != 0 && f & 0x10 != 0
            && f & 0x20 != 0) by (bit_vector);
    assert((1u32 | 4) & 1 != 0 && (1u32 | 4) & 4 != 0 && 0x100u32 & 0x100 != 0) by (bit_vector);
    let f = t.lflag;
    assert(f & 1 != 0);
}

/// A stream takes as much as it has room for, behind what is there.
pub proof fn law_terminal_takes_what_fits(stream: Seq<u8>, bytes: Seq<u8>)
    requires
        stream.len() <= 4096,
    ensures
        ({
            let r = pty::offer(stream, bytes);
            &&& r.len() <= 4096
            &&& r.len() == stream.len() + bytes.len() || r.len() == 4096
            &&& r.len() <= stream.len() + bytes.len()
            &&& forall|i: int| 0 <= i < stream.len() ==> #[trigger] r[i] == stream[i]
            &&& forall|i: int|
                stream.len() <= i < r.len() ==> #[trigger] r[i] == bytes[i - stream.len()]
        }),
{
}

/// Text joins the line that is edited and shows on the terminal where echo is on; nothing
/// goes to the program before the line is done.
pub proof fn law_text_key(t: Termios, s: Discipline, raw: u8)
    requires
        pty::classify(t, pty::map_input(t, raw)) == Key::Text,
        s.to_master.len() < 4096,
    ensures
        ({
            let r = pty::step(t, s, raw);
            let c = pty::map_input(t, raw);
            &&& r.to_slave == s.to_slave
            &&& r.sig == s.sig
            &&& r.eof == s.eof
            &&& s.line.len() < 255 ==> r.line == s.line.push(c)
            &&& s.line.len() >= 255 ==> r == s
            &&& s.line.len() < 255 && t.lflag & 8 != 0 ==> r.to_master == s.to_master.push(c)
                && r.echoed
            &&& t.lflag & 8 == 0 ==> r.to_master == s.to_master && r.echoed == s.echoed
        }),
{
    let c = pty::map_input(t, raw);
    assert(seq![c].subrange(0, 1) =~= seq![c]);
    assert(s.to_master + seq![c] =~= s.to_master.push(c));
}

/// Enter sends the line and a new line to the program and starts a new one.
pub proof fn law_newline_key(t: Termios, s: Discipline, raw: u8)
    requires
        pty::classify(t, pty::map_input(t, raw)) == Key::Newline,
        s.to_slave.len() + s.line.len() < 4096,
        s.to_master.len() + 2 <= 4096,
    ensures
        ({
            let r = pty::step(t, s, raw);
            &&& r.line.len() == 0
            &&& r.to_slave == s.to_slave + s.line.push(10)
            &&& r.released
            &&& r.sig == s.sig
            &&& t.lflag & 8 != 0 || t.lflag & 0x40 != 0 ==> r.to_master == s.to_master.push(
                13,
            ).push(10)
            &&& t.lflag & 8 == 0 && t.lflag & 0x40 == 0 ==> r.to_master == s.to_master
        }),
{
    assert(s.line.push(10).subrange(0, s.line.len() as int + 1) =~= s.line.push(10));
    assert(seq![13u8, 10u8].subrange(0, 2) =~= seq![13u8, 10u8]);
    assert(s.to_master + seq![13u8, 10u8] =~= s.to_master.push(13).push(10));
}

/// The end-of-file key sends what was typed without a new line, or, on an empty line, tells
/// the program of the end.
pub proof fn law_end_key(t: Termios, s: Discipline, raw: u8)
    requires
        pty::classify(t, pty::map_input(t, raw)) == Key::EndOfFile,
        s.to_slave.len() + s.line.len() <= 4096,
    ensures
        ({
            let r = pty::step(t, s, raw);
            &&& r.line.len() == 0
            &&& r.released
            &&& r.to_slave == s.to_slave + s.line
            &&& r.to_master == s.to_master
            &&& s.line.len() == 0 ==> r.eof
            &&& s.line.len() > 0 ==> r.eof == s.eof
        }),
{
    assert(s.line.subrange(0, s.line.len() as int) =~= s.line);
    if s.line.len() == 0 {
        assert(s.to_slave + s.line =~= s.to_slave);
    }
}

/// The erase key takes the last character of the line away, and where that is shown it is
/// overwritten; the kill key does so for all of them.
pub proof fn law_erase_and_kill_keys(t: Termios, s: Discipline, raw: u8)
    requires
        s.to_master.len() + 3 * s.line.len() + 3 <= 4096,
    ensures
        pty::classify(t, pty::map_input(t, raw)) == Key::Erase ==> {
            let r = pty::step(t, s, raw);
            &&& r.to_slave == s.to_slave && r.sig == s.sig
            &&& s.line.len() == 0 ==> r == s
            &&& s.line.len() > 0 ==> r.line == s.line.drop_last()
            &&& s.line.len() > 0 && t.lflag & 8 != 0 && t.lflag & 0x10 != 0 ==> r.to_master
                == s.to_master + seq![8u8, 32u8, 8u8]
            &&& t.lflag & 8 == 0 || t.lflag & 0x10 == 0 ==> r.to_master == s.to_master
        },
        pty::classify(t, pty::map_input(t, raw)) == Key::Kill ==> {
            let r = pty::step(t, s, raw);
            &&& r.to_slave == s.to_slave && r.sig == s.sig
            &&& r.line.len() == 0
            &&& t.lflag & 8 != 0 && t.lflag & 0x20 != 0 ==> {
                &&& r.to_master.len() == s.to_master.len() + 3 * s.line.len()
                &&& forall|k: int|
                    s.to_master.len() <= k < r.to_master.len() ==> #[trigger] r.to_master[k] == (
                    if (k - s.to_master.len()) % 3 == 1 {
                        32u8
                    } else {
                        8
                    })
            }
            &&& t.lflag & 8 == 0 || t.lflag & 0x20 == 0 ==> r.to_master == s.to_master
        },
{
    assert(pty::wipe(1) =~= seq![8u8, 32u8, 8u8]);
    assert(pty::wipe(1).subrange(0, 3) =~= pty::wipe(1));
    let w = pty::wipe(s.line.len());
    assert(w.subrange(0, w.len() as int) =~= w);
}

/// The keys that raise signals raise those, send nothing on and show nothing; the interrupt
/// key also drops the line.
pub proof fn law_signal_key_numbers(t: Termios, s: Discipline, raw: u8)
    ensures
        pty::classify(t, pty::map_input(t, raw)) == Key::Interrupt ==> {
            let r = pty::step(t, s, raw);
            r.sig == 2 && r.line.len() == 0 && r.to_slave == s.to_slave && r.to_master
                == s.to_master
        },
        pty::classify(t, pty::map_input(t, raw)) == Key::Quit ==> {
            let r = pty::step(t, s, raw);
            r.sig == 3 && r.line == s.line && r.to_slave == s.to_slave && r.to_master
                == s.to_master
        },
{
}

/// A read at either end of a terminal gives what there is, up to what was asked for; with
/// nothing there it waits, or is told of the end once the other side is gone. A program is
/// also told of an end that was typed.
pub proof fn law_terminal_reads(p: Pty, want: nat)
    requires
        p.wf(),
        p.in_use,
    ensures
        p.to_master@.len() > 0 ==> (pty::master_read_outcome(p, want) matches ReadOut::Data(n) && n
            <= want && n <= p.to_master@.len() && (n == want || n == p.to_master@.len())),
        p.to_master@.len() == 0 && p.slave_closed ==> pty::master_read_outcome(p, want) is Eof,
        p.to_master@.len() == 0 && !p.slave_closed ==> pty::master_read_outcome(p, want)
            is WouldBlock,
        p.to_slave@.len() > 0 ==> (pty::slave_read_outcome(p, want) matches ReadOut::Data(n) && n
            <= want && n <= p.to_slave@.len() && (n == want || n == p.to_slave@.len())),
        p.to_slave@.len() == 0 && (p.eof_pending || p.master_closed) ==> pty::slave_read_outcome(
            p,
            want,
        ) is Eof,
        p.to_slave@.len() == 0 && !p.eof_pending && !p.master_closed ==> pty::slave_read_outcome(
            p,
            want,
        ) is WouldBlock,
{
}

/// Parking a reader changes just that queue of that terminal.
pub proof fn law_terminal_parking(a: Seq<Pty>, b: Seq<Pty>, i: int, q: Seq<usize>)
    requires
        0 <= i < a.len(),
        pty::master_readers_become(a, b, i, q) || pty::slave_readers_become(a, b, i, q),
    ensures
        pty::master_readers_become(a, b, i, q) ==> b[i].master_readers@ == q && b[i].slave_readers
            == a[i].slave_readers,
        pty::slave_readers_become(a, b, i, q) ==> b[i].slave_readers@ == q && b[i].master_readers
            == a[i].master_readers,
        b[i].to_master == a[i].to_master,
        b[i].to_slave == a[i].to_slave,
        b[i].termios == a[i].termios,
        b[i].child == a[i].child,
        forall|j: int| 0 <= j < a.len() && j != i ==> b[j] == a[j],
{
}

/// A new terminal is empty, has 24 lines of 80 characters, and no process yet.
pub proof fn law_new_terminal(p: Pty)
    requires
        pty::fresh(p),
    ensures
        p.in_use && !p.master_closed && !p.slave_closed && !p.eof_pending,
        p.rows == 24 && p.cols == 80 && p.child == 0,
        p.discipline().line.len() == 0,
        p.discipline().to_master.len() == 0,
        p.discipline().to_slave.len() == 0,
        p.discipline().sig == 0,
        !p.discipline().echoed && !p.discipline().released,
{
}

/// `v` with its last `k` digits in base sixteen cut off.
spec fn cut(v: int, k: int) -> int
    decreases k,
{
    if k <= 0 {
        v
    } else {
        cut(v / 16, k - 1)
    }
}

proof fn lemma_cut_digit(v: u64, k: int)
    requires
        0 <= k,
    ensures
        serial::digit_of(v, k) == cut(v as int, k) % 16,
        cut(v as int, k) >= 0,
        cut(v as int, k + 1) == cut(v as int, k) / 16,
    decreases k,
{
    if k > 0 {
        lemma_cut_digit((v / 16) as u64, k - 1);
    } else {
        assert(cut(v as int, 1) == cut(v as int / 16, 0));
    }
}

proof fn lemma_cut_all(v: u64)
    ensures
        cut(v as int, 16) == 0,
{
    lemma_cut_digit(v, 0);
    lemma_cut_digit(v, 1);
    lemma_cut_digit(v, 2);
    lemma_cut_digit(v, 3);
    lemma_cut_digit(v, 4);
    lemma_cut_digit(v, 5);
    lemma_cut_digit(v, 6);
    lemma_cut_digit(v, 7);
    lemma_cut_digit(v, 8);
    lemma_cut_digit(v, 9);
    lemma_cut_digit(v, 10);
    lemma_cut_digit(v, 11);
    lemma_cut_digit(v, 12);
    lemma_cut_digit(v, 13);
    lemma_cut_digit(v, 14);
    lemma_cut_digit(v, 15);
}

proof fn lemma_hex_prefix(v: u64, n: int)
    requires
        0 <= n <= 16,
    ensures
        number::value_of(fault::hex_text(v).subrange(2, 2 + n), 16) == cut(v as int, 16 - n),
    decreases n,
{
    let t = fault::hex_text(v);
    if n == 0 {
        lemma_cut_all(v);
        assert(t.subrange(2, 2).len() == 0);
    } else {
        lemma_hex_prefix(v, n - 1);
        let s = t.subrange(2, 2 + n);
        assert(s.drop_last() =~= t.subrange(2, 1 + n));
        lemma_cut_digit(v, 16 - n);
        let d = serial::digit_of(v, 16 - n);
        assert(s.last() == t[1 + n]);
        assert(number::digit_of(s.last()) == d);
    }
}

/// A number in a report is `0x` and sixteen digits that stand for it.
pub proof fn law_reported_number_reads_back(v: u64)
    ensures
        fault::hex_text(v).len() == 18,
        fault::hex_text(v)[0] == 0x30 && fault::hex_text(v)[1] == 0x78,
        number::value_of(fault::hex_text(v).subrange(2, 18), 16) == v,
{
    lemma_hex_prefix(v, 16);
}

/// A digit in base sixteen, as a character, stands for it.
pub proof fn law_hex_digit(n: int)
    requires
        0 <= n < 16,
    ensures
        number::digit_of(serial::hex_digit(n) as u8) == n,
{
}

/// The report of a fault that stops the system tells the five numbers apart: two faults that
/// differ in any of them are reported differently.
#[verifier::spinoff_prover]
pub proof fn law_fault_report_tells(name: Seq<u8>, f: Fault, g: Fault)
    requires
        fault::fault_text(name, f) == fault::fault_text(name, g),
    ensures
        f.ring == g.ring,
        f.rip == g.rip,
        f.cr2 == g.cr2,
        f.err == g.err,
        f.tid == g.tid,
{
    let a = "\n[FAULT] ".spec_bytes() + name + " ring=".spec_bytes();
    let b = " rip=".spec_bytes();
    let c = " cr2=".spec_bytes();
    let d = " err=".spec_bytes();
    let e = " tcb=".spec_bytes();
    let x = fault::fault_text(name, f);
    let y = fault::fault_text(name, g);
    let p1 = a.len() as int;
    let p2 = p1 + 18 + b.len();
    let p3 = p2 + 18 + c.len();
    let p4 = p3 + 18 + d.len();
    let p5 = p4 + 18 + e.len();
    assert(x.subrange(p1, p1 + 18) =~= fault::hex_text(f.ring));
    assert(y.subrange(p1, p1 + 18) =~= fault::hex_text(g.ring));
    assert(x.subrange(p2, p2 + 18) =~= fault::hex_text(f.rip));
    assert(y.subrange(p2, p2 + 18) =~= fault::hex_text(g.rip));
    assert(x.subrange(p3, p3 + 18) =~= fault::hex_text(f.cr2));
    assert(y.subrange(p3, p3 + 18) =~= fault::hex_text(g.cr2));
    assert(x.subrange(p4, p4 + 18) =~= fault::hex_text(f.err));
    assert(y.subrange(p4, p4 + 18) =~= fault::hex_text(g.err));
    assert(x.subrange(p5, p5 + 18) =~= fault::hex_text(f.tid));
    assert(y.subrange(p5, p5 + 18) =~= fault::hex_text(g.tid));
    law_reported_number_reads_back(f.ring);
    law_reported_number_reads_back(g.ring);
    law_reported_number_reads_back(f.rip);
    law_reported_number_reads_back(g.rip);
    law_reported_number_reads_back(f.cr2);
    law_reported_number_reads_back(g.cr2);
    law_reported_number_reads_back(f.err);
    law_reported_number_reads_back(g.err);
    law_reported_number_reads_back(f.tid);
    law_reported_number_reads_back(g.tid);
}

/// The report of a process that is killed tells its two numbers and its thread.
pub proof fn law_trap_report_tells(
    name: Seq<u8>,
    first: Seq<u8>,
    second: Seq<u8>,
    a: u64,
    b: u64,
    t: u64,
    c: u64,
    d: u64,
    s: u64,
)
    requires
        fault::trap_text(name, first, a, second, b, t) == fault::trap_text(
            name,
            first,
            c,
            second,
            d,
            s,
        ),
    ensures
        a == c,
        b == d,
        t == s,
{
    let head = "[trap] ".spec_bytes() + name + " user ".spec_bytes() + first;
    let tail = " -- killing tcb ".spec_bytes();
    let x = fault::trap_text(name, first, a, second, b, t);
    let y = fault::trap_text(name, first, c, second, d, s);
    let p1 = head.len() as int;
    let p2 = p1 + 18 + second.len();
    let p3 = p2 + 18 + tail.len();
    assert(x.subrange(p1, p1 + 18) =~= fault::hex_text(a));
    assert(y.subrange(p1, p1 + 18) =~= fault::hex_text(c));
    assert(x.subrange(p2, p2 + 18) =~= fault::hex_text(b));
    assert(y.subrange(p2, p2 + 18) =~= fault::hex_text(d));
    assert(x.subrange(p3, p3 + 18) =~= fault::hex_text(t));
    assert(y.subrange(p3, p3 + 18) =~= fault::hex_text(s));
    law_reported_number_reads_back(a);
    law_reported_number_reads_back(b);
    law_reported_number_reads_back(t);
    law_reported_number_reads_back(c);
    law_reported_number_reads_back(d);
    law_reported_number_reads_back(s);
}

/// A processor is reported as stopped just if it is; processors are reported in order.
pub proof fn law_stopped_processors(stopped: Seq<u64>, n: int)
    requires
        0 <= n < stopped.len(),
    ensures
        stopped[n] == 0 ==> fault::stopped_text(stopped, n + 1) == fault::stopped_text(stopped, n),
        stopped[n] != 0 ==> {
            let t = fault::stopped_text(stopped, n + 1);
            let at = fault::stopped_text(stopped, n).len() + "  cpu ".spec_bytes().len() as int;
            let to = at + 18 + " at ".spec_bytes().len();
            &&& t.len() > fault::stopped_text(stopped, n).len()
            &&& t.subrange(0, fault::stopped_text(stopped, n).len() as int) == fault::stopped_text(
                stopped,
                n,
            )
            &&& t.subrange(at, at + 18) == fault::hex_text(n as u64)
            &&& t.subrange(to, to + 18) == fault::hex_text(stopped[n])
        },
        fault::stopped_text(stopped, 0).len() == 0,
{
    if stopped[n] != 0 {
        let s = fault::stopped_text(stopped, n);
        let t = fault::stopped_text(stopped, n + 1);
        let at = s.len() + "  cpu ".spec_bytes().len() as int;
        let to = at + 18 + " at ".spec_bytes().len();
        assert(t.subrange(0, s.len() as int) =~= s);
        assert(t.subrange(at, at + 18) =~= fault::hex_text(n as u64));
        assert(t.subrange(to, to + 18) =~= fault::hex_text(stopped[n]));
    }
}

/// Each line has a bit of its own on one of the two controllers: the first eight on the
/// first, the others on the second.
pub proof fn law_controller_lines(irq: u8, other: u8)
    requires
        irq < 16,
        other < 16,
    ensures
        irq < 8 ==> irqchip::pic_line(irq).0 == 0x21 && irqchip::pic_line(irq).1 == irq,
        irq >= 8 ==> irqchip::pic_line(irq).0 == 0xA1 && irqchip::pic_line(irq).1 == irq - 8,
        irqchip::pic_line(irq).1 < 8,
        irq != other ==> irqchip::pic_line(irq) != irqchip::pic_line(other),
{
}

/// What a vector stands for: the two clocks, the lines of devices, and what is none.
pub proof fn law_vectors(v: u8)
    ensures
        v == 0x20 ==> irqchip::interrupt_at(v) == Interrupt::Clock,
        v == 0x30 ==> irqchip::interrupt_at(v) == Interrupt::LocalClock,
        v == 0x27 || v == 0xff ==> irqchip::interrupt_at(v) == Interrupt::Spurious,
        v == 0x2f ==> irqchip::interrupt_at(v) == Interrupt::SecondSpurious,
        v == 0x21 ==> irqchip::interrupt_at(v) == Interrupt::Direct(1),
        v == 0x24 ==> irqchip::interrupt_at(v) == Interrupt::Direct(4),
        v == 0x2c ==> irqchip::interrupt_at(v) == Interrupt::Direct(12),
        v == 0x25 ==> irqchip::interrupt_at(v) == Interrupt::Masked(5),
        v == 0x29 ==> irqchip::interrupt_at(v) == Interrupt::Masked(9),
        v == 0x2a ==> irqchip::interrupt_at(v) == Interrupt::Masked(10),
        v == 0x2b ==> irqchip::interrupt_at(v) == Interrupt::Masked(11),
        v < 0x20 || 0x30 < v < 0xff ==> irqchip::interrupt_at(v) == Interrupt::Unexpected,
{
}

/// How the machine is told to stop.
pub proof fn law_exit_status()
    ensures
        arch::exit_status(QemuExit::Success) == 0x21,
        arch::exit_status(QemuExit::Failed) == 0x23,
{
}

/// Every hundredth tick is signalled to who asked for it, and no other; a thread whose
/// deadline has passed is ready after any tick.
pub proof fn law_tick(a: Kernel, b: Kernel, tick: u64, t: int)
    requires
        a.wf(),
        arch::ticked(a, b, tick),
        1 <= t < 256,
    ensures
        tick % 100 != 0 || a.notifs.tick == 0xff ==> b.notifs.pool@ == a.notifs.pool@,
        tick % 100 == 0 && a.notifs.tick != 0xff ==> {
            let n = a.notifs.tick as int;
            &&& a.notifs.pool@[n].waiter is None && a.notifs.pool@[n].count < u64::MAX
                ==> b.notifs.pool@[n].count == a.notifs.pool@[n].count + 1
            &&& forall|j: int| 0 <= j < 24 && j != n ==> b.notifs.pool@[j] == a.notifs.pool@[j]
        },
        a.sched.tcbs@[t].wake_at != 0 && tick >= a.sched.tcbs@[t].wake_at ==> b.sched.tcbs@[t].state
            != State::Blocked,
        tick % 100 != 0 && (a.sched.tcbs@[t].wake_at == 0 || tick < a.sched.tcbs@[t].wake_at)
            ==> b.sched.tcbs@[t] == a.sched.tcbs@[t],
        b.sched.cpus@ == a.sched.cpus@,
{
    assert(a.notifs.tick != 0xff ==> a.notifs.pool@[a.notifs.tick as int].wf());
}

/// A clock register in binary-coded decimal holds two decimal digits; one in binary holds
/// the number.
pub proof fn law_clock_digits(tens: u8, ones: u8, v: u8)
    requires
        tens < 10,
        ones < 10,
    ensures
        rtc::decoded((tens * 16 + ones) as u8, true) == tens * 10 + ones,
        rtc::decoded(v, false) == v,
{
}

/// An hour on a twelve-hour clock: twelve at night is 0, twelve at noon is 12, and after
/// noon twelve is added; on a twenty-four-hour clock it is itself.
pub proof fn law_clock_hours(h: u8)
    requires
        1 <= h <= 12,
    ensures
        rtc::hour_of(h, false, true) == if h == 12 {
            0
        } else {
            h as int
        },
        rtc::hour_of((h + 128) as u8, false, true) == if h == 12 {
            12
        } else {
            h + 12
        },
        rtc::hour_of(h, false, false) == h,
{
}

/// The time is the seconds of the days since the start of 1970 and of the time of day.
pub proof fn law_time_of_day(r: RtcRegs)
    requires
        r.status_b & 4 != 0,
        r.status_b & 2 != 0,
        r.hour < 24,
        r.min < 60,
        r.sec < 60,
    ensures
        rtc::epoch(r) % 86400 == r.hour * 3600 + r.min * 60 + r.sec,
        rtc::epoch(r) / 86400 == rtc::civil_days(2000 + r.year, r.month as int, r.day as int),
        rtc::civil_days(1970, 1, 1) == 0,
        rtc::civil_days(1970, 1, 2) == 1,
        rtc::civil_days(2000, 3, 1) == 11017,
{
}

/// A screen can be used with 32 bits to the pixel, and takes whole pages that hold its lines.
pub proof fn law_screen_size(f: FbInfo)
    ensures
        f.usable() <==> f.bpp == 32,
        f.bytes() % 4096 == 0,
        f.pitch * f.height <= f.bytes() < f.pitch * f.height + 4096,
{
    assert(f.pitch * f.height >= 0) by (nonlinear_arith)
        requires
            f.pitch >= 0,
            f.height >= 0,
    ;
}

/// The test picture grows red to the right and green to the bottom, over half a blue, each
/// between 0 and 255.
pub proof fn law_test_picture(w: int, h: int, x: int, y: int)
    requires
        0 <= x < w,
        0 <= y < h,
    ensures
        ({
            let p = fb::pattern(w, h, x, y);
            &&& p % 0x100 == 0x80
            &&& 0 <= p < 0x100_0000
            &&& p / 0x1_0000 == x * 255 / w
            &&& (p / 0x100) % 0x100 == y * 255 / h
            &&& fb::pattern(w, h, 0, 0) == 0x80
        }),
{
    let r = (x * 255) / w;
    let g = (y * 255) / h;
    assert(0 <= r < 256) by (nonlinear_arith)
        requires
            0 <= x < w,
            r == (x * 255) / w,
    ;
    assert(0 <= g < 256) by (nonlinear_arith)
        requires
            0 <= y < h,
            g == (y * 255) / h,
    ;
    assert((0int * 255) / w == 0 && (0int * 255) / h == 0) by (nonlinear_arith)
        requires
            w > 0,
            h > 0,
    ;
}

/// A device that answers with all ones is none; any other is what its registers say.
pub proof fn law_device_found(bus: u8, dev: u8, func: u8, id: u32, class_reg: u32)
    ensures
        id % 0x1_0000 == 0xffff <==> pci::found(bus, dev, func, id, class_reg) is None,
        pci::found(bus, dev, func, id, class_reg) matches Some(d) ==> {
            &&& d.bus == bus && d.dev == dev && d.func == func
            &&& id == d.device * 0x1_0000 + d.vendor
            &&& class_reg / 0x1_0000 == d.class * 0x100 + d.subclass
        },
{
}

/// A root of page tables may be loaded if it is a page of managed memory that maps the
/// kernel.
pub proof fn law_root_may_be_loaded(cr3: u64, entry256: u64)
    ensures
        thread::cr3_sane(cr3, entry256) <==> cr3 & 0xfff == 0 && cr3 < 0x2000_0000 && entry256 & 1
            != 0,
{
}

} // verus!
