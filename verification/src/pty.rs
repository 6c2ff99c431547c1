//! Pseudo-terminals: two byte streams joined by a line discipline.
use vstd::prelude::*;
use vstd::slice::slice_subrange;
use crate::ring;
use crate::ring::Ring;
use crate::thread::MAX_THREADS;
use crate::waitq;
use crate::waitq::{WaitQ, QCAP};

verus! {

/// Terminals in the pool.
pub const NPTYS: usize = 4;

/// Bytes buffered per direction.
pub const RBUF: usize = 4096;

/// Bytes of the line being edited.
pub const LINE: usize = 256;

// Input flags.
pub const ICRNL: u32 = 0x100;
pub const INLCR: u32 = 0x40;

// Output flags.
pub const OPOST: u32 = 0x1;
pub const ONLCR: u32 = 0x4;

// Local flags.
pub const ISIG: u32 = 0x1;
pub const ICANON: u32 = 0x2;
pub const ECHO: u32 = 0x8;
pub const ECHOE: u32 = 0x10;
pub const ECHOK: u32 = 0x20;
pub const ECHONL: u32 = 0x40;

// Indices of the control characters.
pub const VINTR: usize = 0;
pub const VQUIT: usize = 1;
pub const VERASE: usize = 2;
pub const VKILL: usize = 3;
pub const VEOF: usize = 4;
pub const NCCS: usize = 19;

pub const SIGINT: i32 = 2;
pub const SIGQUIT: i32 = 3;

pub const CR: u8 = 0x0d;
pub const NL: u8 = 0x0a;
pub const BS: u8 = 0x08;
pub const SP: u8 = 0x20;

/// The settings of a terminal.
#[derive(Clone, Copy)]
pub struct Termios {
    pub iflag: u32,
    pub oflag: u32,
    pub lflag: u32,
    pub cc: [u8; NCCS],
}

/// One terminal.
pub struct Pty {
    pub in_use: bool,
    pub master_closed: bool,
    pub slave_closed: bool,
    /// Program output on its way to the terminal.
    pub to_master: Ring<u8>,
    /// Terminal input released to the program.
    pub to_slave: Ring<u8>,
    pub canon: [u8; LINE],
    pub canon_len: usize,
    /// The next read of the empty input reports the end once.
    pub eof_pending: bool,
    pub termios: Termios,
    pub rows: u16,
    pub cols: u16,
    /// Foreground process: the target of keyboard signals.
    pub child: u32,
    pub master_readers: WaitQ,
    pub slave_readers: WaitQ,
}

impl Pty {
    pub open spec fn wf(&self) -> bool {
        &&& self.to_master.wf()
        &&& self.to_master.cap() == RBUF
        &&& self.to_slave.wf()
        &&& self.to_slave.cap() == RBUF
        &&& self.canon_len < LINE
        &&& self.master_readers.wf()
        &&& self.slave_readers.wf()
    }

    /// The line being edited.
    pub open spec fn line(&self) -> Seq<u8> {
        self.canon@.subrange(0, self.canon_len as int)
    }

    /// The state the line discipline works on, before any input.
    pub open spec fn discipline(&self) -> Discipline {
        Discipline {
            line: self.line(),
            to_master: self.to_master@,
            to_slave: self.to_slave@,
            eof: self.eof_pending,
            sig: 0,
            echoed: false,
            released: false,
        }
    }
}

/// The state of the line discipline while it consumes input.
#[verifier::ext_equal]
pub struct Discipline {
    pub line: Seq<u8>,
    pub to_master: Seq<u8>,
    pub to_slave: Seq<u8>,
    pub eof: bool,
    /// The last signal raised, 0 for none.
    pub sig: i32,
    /// Something was echoed.
    pub echoed: bool,
    /// Input was released to the program.
    pub released: bool,
}

/// `bit` is set in `flags`.
pub open spec fn flag(flags: u32, bit: u32) -> bool {
    flags & bit != 0
}

/// A terminal stream after `bytes` were offered to it: what does not fit is dropped.
pub open spec fn offer(stream: Seq<u8>, bytes: Seq<u8>) -> Seq<u8> {
    stream + bytes.subrange(0, ring::min_of(bytes.len(), (RBUF - stream.len()) as nat) as int)
}

/// The echo that wipes `n` characters off the screen.
pub open spec fn wipe(n: nat) -> Seq<u8> {
    Seq::new(3 * n, |i: int| if i % 3 == 1 { SP } else { BS })
}

/// What an input byte becomes under the input flags.
pub open spec fn map_input(t: Termios, raw: u8) -> u8 {
    if raw == CR && flag(t.iflag, ICRNL) {
        NL
    } else if raw == NL && flag(t.iflag, INLCR) {
        CR
    } else {
        raw
    }
}

/// What a (mapped) input byte means.
pub enum Key {
    Interrupt,
    Quit,
    Erase,
    Kill,
    EndOfFile,
    Newline,
    /// A character of the line being edited.
    Text,
    /// A byte handed straight through.
    Raw,
}

/// The meaning of the mapped byte `c` under the settings `t`.
pub open spec fn classify(t: Termios, c: u8) -> Key {
    if flag(t.lflag, ISIG) && c == t.cc@[VINTR as int] {
        Key::Interrupt
    } else if flag(t.lflag, ISIG) && c == t.cc@[VQUIT as int] {
        Key::Quit
    } else if !flag(t.lflag, ICANON) {
        Key::Raw
    } else if c == t.cc@[VERASE as int] {
        Key::Erase
    } else if c == t.cc@[VKILL as int] {
        Key::Kill
    } else if c == t.cc@[VEOF as int] {
        Key::EndOfFile
    } else if c == NL {
        Key::Newline
    } else {
        Key::Text
    }
}

/// `s` after `bytes` were echoed.
pub open spec fn echo(s: Discipline, bytes: Seq<u8>) -> Discipline {
    Discipline { to_master: offer(s.to_master, bytes), echoed: true, ..s }
}

/// `s` after `bytes` were released to the program.
pub open spec fn release(s: Discipline, bytes: Seq<u8>) -> Discipline {
    Discipline { to_slave: offer(s.to_slave, bytes), released: true, ..s }
}

/// The line discipline on one input byte.
pub open spec fn step(t: Termios, s: Discipline, raw: u8) -> Discipline {
    let c = map_input(t, raw);
    let echoing = flag(t.lflag, ECHO);
    match classify(t, c) {
        Key::Interrupt => Discipline { line: Seq::empty(), sig: SIGINT, ..s },
        Key::Quit => Discipline { sig: SIGQUIT, ..s },
        Key::Erase => {
            if s.line.len() == 0 {
                s
            } else {
                let e = Discipline { line: s.line.drop_last(), ..s };
                if echoing && flag(t.lflag, ECHOE) {
                    echo(e, wipe(1))
                } else {
                    e
                }
            }
        },
        Key::Kill => {
            let e = Discipline { line: Seq::empty(), ..s };
            if echoing && flag(t.lflag, ECHOK) {
                echo(e, wipe(s.line.len()))
            } else {
                e
            }
        },
        Key::EndOfFile => {
            if s.line.len() == 0 {
                Discipline { eof: true, released: true, ..s }
            } else {
                Discipline { line: Seq::empty(), ..release(s, s.line) }
            }
        },
        Key::Newline => {
            let e = Discipline { line: Seq::empty(), ..release(s, s.line.push(NL)) };
            if echoing || flag(t.lflag, ECHONL) {
                echo(e, seq![CR, NL])
            } else {
                e
            }
        },
        Key::Text => {
            if s.line.len() < LINE - 1 {
                let e = Discipline { line: s.line.push(c), ..s };
                if echoing {
                    echo(e, seq![c])
                } else {
                    e
                }
            } else {
                s
            }
        },
        Key::Raw => {
            let e = release(s, seq![c]);
            if echoing {
                echo(e, seq![c])
            } else {
                e
            }
        },
    }
}

/// The line discipline on a run of input.
pub open spec fn feed(t: Termios, s: Discipline, input: Seq<u8>) -> Discipline
    decreases input.len(),
{
    if input.len() == 0 {
        s
    } else {
        step(t, feed(t, s, input.drop_last()), input.last())
    }
}

/// What program output becomes under the output flags.
pub open spec fn map_output(t: Termios, src: Seq<u8>) -> Seq<u8>
    decreases src.len(),
{
    if !(flag(t.oflag, OPOST) && flag(t.oflag, ONLCR)) {
        src
    } else if src.len() == 0 {
        Seq::empty()
    } else if src.last() == NL {
        map_output(t, src.drop_last()) + seq![CR, NL]
    } else {
        map_output(t, src.drop_last()).push(src.last())
    }
}

/// Offering two runs one after the other is offering them joined.
pub proof fn lemma_offer_joined(s: Seq<u8>, a: Seq<u8>, b: Seq<u8>)
    requires
        s.len() <= RBUF,
    ensures
        offer(offer(s, a), b) == offer(s, a + b),
        offer(s, a).len() <= RBUF,
{
    assert(offer(offer(s, a), b) =~= offer(s, a + b));
}

/// In line mode nothing reaches the program until the line is ended: only a newline
/// or the end-of-file key releases input, and then the whole line.
pub proof fn law_line_released_whole(t: Termios, s: Discipline, raw: u8)
    requires
        flag(t.lflag, ICANON),
    ensures
        match classify(t, map_input(t, raw)) {
            Key::Newline => {
                &&& step(t, s, raw).to_slave == offer(s.to_slave, s.line.push(NL))
                &&& step(t, s, raw).line.len() == 0
            },
            Key::EndOfFile => {
                &&& s.line.len() > 0 ==> step(t, s, raw).to_slave == offer(s.to_slave, s.line)
                &&& step(t, s, raw).line.len() == 0
            },
            _ => step(t, s, raw).to_slave == s.to_slave,
        },
{
}

/// With line mode off every byte that is not a signal key passes straight through.
pub proof fn law_raw_passes_through(t: Termios, s: Discipline, raw: u8)
    requires
        !flag(t.lflag, ICANON),
        !(classify(t, map_input(t, raw)) is Interrupt),
        !(classify(t, map_input(t, raw)) is Quit),
    ensures
        step(t, s, raw).to_slave == offer(s.to_slave, seq![map_input(t, raw)]),
        step(t, s, raw).line == s.line,
        step(t, s, raw).sig == s.sig,
{
}

/// Signals come from the signal keys alone, and only while signals are enabled; a
/// signal key never reaches the program or the screen.
pub proof fn law_signal_keys(t: Termios, s: Discipline, raw: u8)
    ensures
        ({
            let k = classify(t, map_input(t, raw));
            if k is Interrupt || k is Quit {
                &&& flag(t.lflag, ISIG)
                &&& step(t, s, raw).to_slave == s.to_slave
                &&& step(t, s, raw).to_master == s.to_master
                &&& step(t, s, raw).sig == (if k is Interrupt {
                    SIGINT
                } else {
                    SIGQUIT
                })
            } else {
                step(t, s, raw).sig == s.sig
            }
        }),
{
}

/// Erasing takes back exactly the last character typed.
pub proof fn law_erase_undoes_text(t: Termios, s: Discipline, raw: u8, erase: u8)
    requires
        classify(t, map_input(t, raw)) is Text,
        classify(t, map_input(t, erase)) is Erase,
        s.line.len() < LINE - 1,
    ensures
        step(t, step(t, s, raw), erase).line == s.line,
        step(t, step(t, s, raw), erase).to_slave == s.to_slave,
{
    assert(s.line.push(map_input(t, raw)).drop_last() =~= s.line);
}

/// Typing a line of ordinary characters and ending it hands the program exactly
/// those characters and a newline.
pub proof fn law_typed_line_arrives(t: Termios, s: Discipline, text: Seq<u8>, end: u8)
    requires
        s.line.len() == 0,
        text.len() < LINE,
        forall|i: int|
            0 <= i < text.len() ==> classify(t, map_input(t, #[trigger] text[i])) is Text
                && map_input(t, text[i]) == text[i],
        classify(t, map_input(t, end)) is Newline,
        s.to_slave.len() + text.len() + 1 <= RBUF,
    ensures
        feed(t, s, text.push(end)).to_slave == s.to_slave + text.push(NL),
        feed(t, s, text.push(end)).line.len() == 0,
{
    lemma_text_collects(t, s, text);
    assert(text.push(end).drop_last() =~= text);
    assert(text.push(NL).subrange(0, text.len() as int + 1) =~= text.push(NL));
}

proof fn lemma_text_collects(t: Termios, s: Discipline, text: Seq<u8>)
    requires
        s.line.len() == 0,
        text.len() < LINE,
        forall|i: int|
            0 <= i < text.len() ==> classify(t, map_input(t, #[trigger] text[i])) is Text
                && map_input(t, text[i]) == text[i],
    ensures
        feed(t, s, text).line == text,
        feed(t, s, text).to_slave == s.to_slave,
    decreases text.len(),
{
    if text.len() == 0 {
        assert(s.line =~= text);
    } else {
        let head = text.drop_last();
        assert forall|i: int| 0 <= i < head.len() implies classify(
            t,
            map_input(t, #[trigger] head[i]),
        ) is Text && map_input(t, head[i]) == head[i] by {
            assert(head[i] == text[i]);
        }
        lemma_text_collects(t, s, head);
        assert(text.last() == text[text.len() - 1]);
        assert(head.push(text.last()) =~= text);
    }
}

/// The pool of terminals.
pub struct Ptys {
    pub slots: Vec<Pty>,
}

/// Only slot `i` differs between two pools.
pub open spec fn only_changes(a: Seq<Pty>, b: Seq<Pty>, i: int) -> bool {
    b =~= a.update(i, b[i])
}

/// Slot `i` becomes `p`, and nothing else changes.
pub open spec fn becomes(a: Seq<Pty>, b: Seq<Pty>, i: int, p: Pty) -> bool {
    b =~= a.update(i, p)
}

impl Ptys {
    pub open spec fn wf(&self) -> bool {
        &&& self.slots@.len() == NPTYS
        &&& forall|i: int| 0 <= i < NPTYS ==> (#[trigger] self.slots@[i]).wf()
    }

    /// A pool in which no terminal is in use.
    pub fn new() -> (p: Self)
        ensures
            p.wf(),
            forall|i: int| 0 <= i < NPTYS ==> !(#[trigger] p.slots@[i]).in_use,
    {
        let mut slots: Vec<Pty> = Vec::new();
        let mut i: usize = 0;
        while i < NPTYS
            invariant
                i <= NPTYS,
                slots@.len() == i,
                forall|k: int| 0 <= k < i ==> (#[trigger] slots@[k]).wf() && !slots@[k].in_use,
            decreases NPTYS - i,
        {
            slots.push(
                Pty {
                    in_use: false,
                    master_closed: false,
                    slave_closed: false,
                    to_master: Ring::new(RBUF, 0u8),
                    to_slave: Ring::new(RBUF, 0u8),
                    canon: [0u8; LINE],
                    canon_len: 0,
                    eof_pending: false,
                    termios: Termios { iflag: 0, oflag: 0, lflag: 0, cc: [0u8; NCCS] },
                    rows: 24,
                    cols: 80,
                    child: 0,
                    master_readers: WaitQ::new(),
                    slave_readers: WaitQ::new(),
                },
            );
            i += 1;
        }
        Ptys { slots }
    }
}

/// The outcome of a read attempt.
#[derive(Clone, Copy, PartialEq, Eq, Debug, Structural)]
pub enum ReadOut {
    Data(usize),
    Eof,
    WouldBlock,
}

/// What feeding input to the line discipline leads to: threads to wake on each
/// side, and a signal for the foreground process (0 = none).
pub struct Ldisc {
    pub wake_master: [usize; QCAP],
    pub nwake_master: usize,
    pub wake_slave: [usize; QCAP],
    pub nwake_slave: usize,
    pub sig_pid: u32,
    pub sig: i32,
}

/// The settings of a freshly opened terminal: line editing, echo, signals, and
/// newline mapping both ways.
pub open spec fn is_cooked(t: Termios) -> bool {
    &&& t.iflag == ICRNL
    &&& t.oflag == (OPOST | ONLCR)
    &&& t.lflag == (ISIG | ICANON | ECHO | ECHOE | ECHOK)
    &&& t.cc@ =~= Seq::new(
        NCCS as nat,
        |i: int|
            if i == VINTR {
                0x03u8
            } else if i == VQUIT {
                0x1c
            } else if i == VERASE {
                0x7f
            } else if i == VKILL {
                0x15
            } else if i == VEOF {
                0x04
            } else {
                0
            },
    )
}

impl Pty {
    /// Restore the settings of a freshly opened terminal.
    fn reset_termios(&mut self)
        ensures
            *final(self) == (Pty { termios: final(self).termios, ..*old(self) }),
            is_cooked(final(self).termios),
    {
        let mut cc: [u8; NCCS] = [0u8; NCCS];
        cc[VINTR] = 0x03;
        cc[VQUIT] = 0x1c;
        cc[VERASE] = 0x7f;
        cc[VKILL] = 0x15;
        cc[VEOF] = 0x04;
        self.termios = Termios {
            iflag: ICRNL,
            oflag: OPOST | ONLCR,
            lflag: ISIG | ICANON | ECHO | ECHOE | ECHOK,
            cc,
        };
    }
}

/// A terminal as [`create`] hands it out.
pub open spec fn fresh(p: Pty) -> bool {
    &&& p.wf()
    &&& p.in_use
    &&& !p.master_closed
    &&& !p.slave_closed
    &&& p.to_master@.len() == 0
    &&& p.to_slave@.len() == 0
    &&& p.line().len() == 0
    &&& !p.eof_pending
    &&& is_cooked(p.termios)
    &&& p.rows == 24
    &&& p.cols == 80
    &&& p.child == 0
    &&& p.master_readers@.len() == 0
    &&& p.slave_readers@.len() == 0
}

/// Take the first free terminal.
pub fn create(pool: &mut Ptys) -> (r: Option<u8>)
    requires
        old(pool).wf(),
    ensures
        final(pool).wf(),
        match r {
            Some(i) => {
                &&& i < NPTYS
                &&& !old(pool).slots@[i as int].in_use
                &&& forall|k: int| 0 <= k < i ==> (#[trigger] old(pool).slots@[k]).in_use
                &&& fresh(final(pool).slots@[i as int])
                &&& only_changes(old(pool).slots@, final(pool).slots@, i as int)
            },
            None => {
                &&& *final(pool) == *old(pool)
                &&& forall|k: int| 0 <= k < NPTYS ==> (#[trigger] old(pool).slots@[k]).in_use
            },
        },
{
    let mut i: usize = 0;
    while i < NPTYS
        invariant
            pool.wf(),
            *pool == *old(pool),
            i <= NPTYS,
            forall|k: int| 0 <= k < i ==> (#[trigger] pool.slots@[k]).in_use,
        decreases NPTYS - i,
    {
        if !pool.slots[i].in_use {
            let p = &mut pool.slots[i];
            p.in_use = true;
            p.master_closed = false;
            p.slave_closed = false;
            p.to_master.clear();
            p.to_slave.clear();
            p.canon_len = 0;
            p.eof_pending = false;
            p.rows = 24;
            p.cols = 80;
            p.child = 0;
            p.master_readers = WaitQ::new();
            p.slave_readers = WaitQ::new();
            p.reset_termios();
            return Some(i as u8);
        }
        i += 1;
    }
    None
}

/// Offer `bytes` to a stream.
fn put(stream: &mut Ring<u8>, bytes: &[u8])
    requires
        old(stream).wf(),
        old(stream).cap() == RBUF,
    ensures
        final(stream).wf(),
        final(stream).cap() == RBUF,
        final(stream)@ == offer(old(stream)@, bytes@),
{
    let _ = stream.write_from(bytes);
}

/// Wipe `n` characters off the screen.
fn put_wipe(stream: &mut Ring<u8>, n: usize)
    requires
        old(stream).wf(),
        old(stream).cap() == RBUF,
        n <= LINE,
    ensures
        final(stream).wf(),
        final(stream).cap() == RBUF,
        final(stream)@ == offer(old(stream)@, wipe(n as nat)),
{
    let pat: [u8; 3] = [BS, SP, BS];
    let mut i: usize = 0;
    assert(stream@ =~= offer(old(stream)@, wipe(0)));
    while i < n
        invariant
            i <= n,
            n <= LINE,
            stream.wf(),
            stream.cap() == RBUF,
            old(stream)@.len() <= RBUF,
            pat@ == seq![BS, SP, BS],
            stream@ == offer(old(stream)@, wipe(i as nat)),
        decreases n - i,
    {
        put(stream, pat.as_slice());
        proof {
            lemma_offer_joined(old(stream)@, wipe(i as nat), pat@);
            assert(wipe(i as nat) + pat@ =~= wipe((i + 1) as nat));
        }
        i += 1;
    }
}

/// Everything about `q` that the line discipline leaves alone is as in `p`.
pub open spec fn same_but_input(p: Pty, q: Pty) -> bool {
    q == (Pty {
        to_master: q.to_master,
        to_slave: q.to_slave,
        canon: q.canon,
        canon_len: q.canon_len,
        eof_pending: q.eof_pending,
        ..p
    })
}

/// The effect of one input byte on the terminal: `s` is where the discipline ends up
/// from `p`, and `q` and the three results agree with it.
pub open spec fn reaches(p: Pty, q: Pty, s: Discipline, r: (i32, bool, bool)) -> bool {
    &&& q.wf()
    &&& same_but_input(p, q)
    &&& q.line() =~= s.line
    &&& q.to_master@ =~= s.to_master
    &&& q.to_slave@ =~= s.to_slave
    &&& q.eof_pending == s.eof
    &&& r == (s.sig, s.echoed, s.released)
}

/// The byte that `raw` becomes under the input flags.
fn mapped(t: &Termios, raw: u8) -> (c: u8)
    ensures
        c == map_input(*t, raw),
{
    if raw == CR && (t.iflag & ICRNL) != 0 {
        NL
    } else if raw == NL && (t.iflag & INLCR) != 0 {
        CR
    } else {
        raw
    }
}

/// The meaning of a mapped byte.
fn key_of(t: &Termios, c: u8) -> (k: Key)
    ensures
        k == classify(*t, c),
{
    if (t.lflag & ISIG) != 0 {
        if c == t.cc[VINTR] {
            return Key::Interrupt;
        }
        if c == t.cc[VQUIT] {
            return Key::Quit;
        }
    }
    if (t.lflag & ICANON) == 0 {
        Key::Raw
    } else if c == t.cc[VERASE] {
        Key::Erase
    } else if c == t.cc[VKILL] {
        Key::Kill
    } else if c == t.cc[VEOF] {
        Key::EndOfFile
    } else if c == NL {
        Key::Newline
    } else {
        Key::Text
    }
}

fn erase_key(p: &mut Pty, raw: u8) -> (r: (i32, bool, bool))
    requires
        old(p).wf(),
        classify(old(p).termios, map_input(old(p).termios, raw)) is Erase,
    ensures
        reaches(*old(p), *final(p), step(old(p).termios, old(p).discipline(), raw), r),
{
    let lflag: u32 = p.termios.lflag;
    if p.canon_len > 0 {
        p.canon_len -= 1;
        assert(p.line() =~= old(p).line().drop_last());
        if (lflag & ECHO) != 0 && (lflag & ECHOE) != 0 {
            put_wipe(&mut p.to_master, 1);
            return (0, true, false);
        }
    }
    (0, false, false)
}

fn kill_key(p: &mut Pty, raw: u8) -> (r: (i32, bool, bool))
    requires
        old(p).wf(),
        classify(old(p).termios, map_input(old(p).termios, raw)) is Kill,
    ensures
        reaches(*old(p), *final(p), step(old(p).termios, old(p).discipline(), raw), r),
{
    let lflag: u32 = p.termios.lflag;
    let n: usize = p.canon_len;
    p.canon_len = 0;
    if (lflag & ECHO) != 0 && (lflag & ECHOK) != 0 {
        put_wipe(&mut p.to_master, n);
        return (0, true, false);
    }
    (0, false, false)
}

fn eof_key(p: &mut Pty, raw: u8) -> (r: (i32, bool, bool))
    requires
        old(p).wf(),
        classify(old(p).termios, map_input(old(p).termios, raw)) is EndOfFile,
    ensures
        reaches(*old(p), *final(p), step(old(p).termios, old(p).discipline(), raw), r),
{
    if p.canon_len == 0 {
        p.eof_pending = true;
    } else {
        put(&mut p.to_slave, slice_subrange(p.canon.as_slice(), 0, p.canon_len));
        p.canon_len = 0;
    }
    (0, false, true)
}

fn newline_key(p: &mut Pty, raw: u8) -> (r: (i32, bool, bool))
    requires
        old(p).wf(),
        classify(old(p).termios, map_input(old(p).termios, raw)) is Newline,
    ensures
        reaches(*old(p), *final(p), step(old(p).termios, old(p).discipline(), raw), r),
{
    let lflag: u32 = p.termios.lflag;
    let n: usize = p.canon_len;
    p.canon[n] = NL;
    let line = slice_subrange(p.canon.as_slice(), 0, n + 1);
    assert(line@ =~= old(p).line().push(NL));
    put(&mut p.to_slave, line);
    p.canon_len = 0;
    if (lflag & ECHO) != 0 || (lflag & ECHONL) != 0 {
        let crnl: [u8; 2] = [CR, NL];
        assert(crnl@ =~= seq![CR, NL]);
        put(&mut p.to_master, crnl.as_slice());
        return (0, true, true);
    }
    (0, false, true)
}

fn text_key(p: &mut Pty, raw: u8) -> (r: (i32, bool, bool))
    requires
        old(p).wf(),
        classify(old(p).termios, map_input(old(p).termios, raw)) is Text,
    ensures
        reaches(*old(p), *final(p), step(old(p).termios, old(p).discipline(), raw), r),
{
    let c: u8 = mapped(&p.termios, raw);
    let lflag: u32 = p.termios.lflag;
    if p.canon_len < LINE - 1 {
        p.canon[p.canon_len] = c;
        p.canon_len += 1;
        assert(p.line() =~= old(p).line().push(c));
        if (lflag & ECHO) != 0 {
            let one: [u8; 1] = [c];
            assert(one@ =~= seq![c]);
            put(&mut p.to_master, one.as_slice());
            return (0, true, false);
        }
    }
    (0, false, false)
}

fn raw_key(p: &mut Pty, raw: u8) -> (r: (i32, bool, bool))
    requires
        old(p).wf(),
        classify(old(p).termios, map_input(old(p).termios, raw)) is Raw,
    ensures
        reaches(*old(p), *final(p), step(old(p).termios, old(p).discipline(), raw), r),
{
    let c: u8 = mapped(&p.termios, raw);
    let echoing = (p.termios.lflag & ECHO) != 0;
    let one: [u8; 1] = [c];
    assert(one@ =~= seq![c]);
    put(&mut p.to_slave, one.as_slice());
    if echoing {
        put(&mut p.to_master, one.as_slice());
    }
    (0, echoing, true)
}

/// Run the line discipline on one byte. Returns the signal it raises (0 = none),
/// whether it echoed, and whether it released input.
fn input_byte(p: &mut Pty, raw: u8) -> (r: (i32, bool, bool))
    requires
        old(p).wf(),
    ensures
        reaches(*old(p), *final(p), step(old(p).termios, old(p).discipline(), raw), r),
{
    let c: u8 = mapped(&p.termios, raw);
    match key_of(&p.termios, c) {
        Key::Interrupt => {
            p.canon_len = 0;
            (SIGINT, false, false)
        },
        Key::Quit => (SIGQUIT, false, false),
        Key::Erase => erase_key(p, raw),
        Key::Kill => kill_key(p, raw),
        Key::EndOfFile => eof_key(p, raw),
        Key::Newline => newline_key(p, raw),
        Key::Text => text_key(p, raw),
        Key::Raw => raw_key(p, raw),
    }
}

/// A step depends on what came before only through the streams and the line; the
/// signal and the two marks accumulate.
proof fn lemma_step_accumulates(t: Termios, s: Discipline, raw: u8)
    ensures
        ({
            let z = Discipline { sig: 0, echoed: false, released: false, ..s };
            let a = step(t, s, raw);
            let b = step(t, z, raw);
            &&& a.line == b.line
            &&& a.to_master == b.to_master
            &&& a.to_slave == b.to_slave
            &&& a.eof == b.eof
            &&& a.sig == (if b.sig != 0 {
                b.sig
            } else {
                s.sig
            })
            &&& a.echoed == (s.echoed || b.echoed)
            &&& a.released == (s.released || b.released)
        }),
{
}

/// Feed bytes typed at the terminal to the line discipline of terminal `idx`.
pub fn master_write(pool: &mut Ptys, idx: u8, src: &[u8]) -> (out: Ldisc)
    requires
        old(pool).wf(),
        idx < NPTYS,
    ensures
        final(pool).wf(),
        ({
            let p = old(pool).slots@[idx as int];
            let q = final(pool).slots@[idx as int];
            let s = feed(p.termios, p.discipline(), src@);
            if p.in_use {
                &&& only_changes(old(pool).slots@, final(pool).slots@, idx as int)
                &&& q.line() == s.line
                &&& q.to_master@ == s.to_master
                &&& q.to_slave@ == s.to_slave
                &&& q.eof_pending == s.eof
                &&& out.sig == s.sig
                &&& out.sig_pid == (if s.sig != 0 {
                    p.child
                } else {
                    0
                })
                &&& out.nwake_master == (if s.echoed {
                    p.master_readers@.len()
                } else {
                    0
                })
                &&& out.wake_master@.subrange(0, out.nwake_master as int)
                    == p.master_readers@.subrange(0, out.nwake_master as int)
                &&& q.master_readers@ == (if s.echoed {
                    Seq::empty()
                } else {
                    p.master_readers@
                })
                &&& out.nwake_slave == (if s.released {
                    p.slave_readers@.len()
                } else {
                    0
                })
                &&& out.wake_slave@.subrange(0, out.nwake_slave as int)
                    == p.slave_readers@.subrange(0, out.nwake_slave as int)
                &&& q.slave_readers@ == (if s.released {
                    Seq::empty()
                } else {
                    p.slave_readers@
                })
                &&& q.in_use && q.master_closed == p.master_closed && q.slave_closed
                    == p.slave_closed
                &&& q.termios == p.termios && q.rows == p.rows && q.cols == p.cols && q.child
                    == p.child
            } else {
                &&& *final(pool) == *old(pool)
                &&& out.nwake_master == 0
                &&& out.nwake_slave == 0
                &&& out.sig == 0
                &&& out.sig_pid == 0
            }
        }),
{
    let mut out = Ldisc {
        wake_master: [0usize; QCAP],
        nwake_master: 0,
        wake_slave: [0usize; QCAP],
        nwake_slave: 0,
        sig_pid: 0,
        sig: 0,
    };
    let i: usize = idx as usize;
    if !pool.slots[i].in_use {
        return out;
    }
    let p = &mut pool.slots[i];
    let ghost p0 = *p;
    let mut echoed = false;
    let mut released = false;
    let mut k: usize = 0;
    let mut sig: i32 = 0;
    assert(src@.subrange(0, 0) =~= Seq::<u8>::empty());
    while k < src.len()
        invariant
            k <= src@.len(),
            p.wf(),
            same_but_input(p0, *p),
            ({
                let s = feed(p0.termios, p0.discipline(), src@.subrange(0, k as int));
                &&& p.line() == s.line
                &&& p.to_master@ == s.to_master
                &&& p.to_slave@ == s.to_slave
                &&& p.eof_pending == s.eof
                &&& sig == s.sig
                &&& echoed == s.echoed
                &&& released == s.released
            }),
        decreases src@.len() - k,
    {
        let ghost before = src@.subrange(0, k as int);
        let ghost s = feed(p0.termios, p0.discipline(), before);
        let r = input_byte(p, src[k]);
        if r.0 != 0 {
            sig = r.0;
        }
        echoed = echoed || r.1;
        released = released || r.2;
        proof {
            let now = src@.subrange(0, k + 1);
            assert(now.drop_last() =~= before);
            assert(now.last() == src@[k as int]);
            lemma_step_accumulates(p0.termios, s, src@[k as int]);
        }
        k += 1;
    }
    assert(src@.subrange(0, src@.len() as int) =~= src@);
    if sig != 0 {
        out.sig_pid = p.child;
        out.sig = sig;
    }
    if echoed {
        out.nwake_master = p.master_readers.drain(&mut out.wake_master);
    }
    if released {
        out.nwake_slave = p.slave_readers.drain(&mut out.wake_slave);
    }
    out
}

/// What a read of at most `want` bytes of the program's output reports.
pub open spec fn master_read_outcome(p: Pty, want: nat) -> ReadOut {
    if !p.in_use || (p.to_master@.len() == 0 && p.slave_closed) {
        ReadOut::Eof
    } else if p.to_master@.len() == 0 {
        ReadOut::WouldBlock
    } else {
        ReadOut::Data(ring::min_of(want, p.to_master@.len()) as usize)
    }
}

/// Drain program output; the end comes once the program's side is closed and drained.
pub fn master_read(pool: &mut Ptys, idx: u8, out: &mut [u8]) -> (r: ReadOut)
    requires
        old(pool).wf(),
        idx < NPTYS,
    ensures
        final(pool).wf(),
        r == master_read_outcome(old(pool).slots@[idx as int], old(out)@.len()),
        match r {
            ReadOut::Data(n) => {
                let p = old(pool).slots@[idx as int];
                let q = final(pool).slots@[idx as int];
                &&& becomes(
                    old(pool).slots@,
                    final(pool).slots@,
                    idx as int,
                    Pty { to_master: q.to_master, ..p },
                )
                &&& q.to_master@ == p.to_master@.subrange(n as int, p.to_master@.len() as int)
                &&& final(out)@ == ring::overlay(old(out)@, p.to_master@.subrange(0, n as int))
            },
            _ => *final(pool) == *old(pool) && final(out)@ == old(out)@,
        },
{
    let i: usize = idx as usize;
    if !pool.slots[i].in_use {
        return ReadOut::Eof;
    }
    if pool.slots[i].to_master.len == 0 {
        if pool.slots[i].slave_closed {
            return ReadOut::Eof;
        }
        return ReadOut::WouldBlock;
    }
    let n: usize = pool.slots[i].to_master.read_into(out);
    ReadOut::Data(n)
}

/// Write program output through the output mapping; the waiting terminal readers
/// move to the front of `wake`.
pub fn slave_write(pool: &mut Ptys, idx: u8, src: &[u8], wake: &mut [usize; QCAP]) -> (n: usize)
    requires
        old(pool).wf(),
        idx < NPTYS,
    ensures
        final(pool).wf(),
        ({
            let p = old(pool).slots@[idx as int];
            let q = final(pool).slots@[idx as int];
            if p.in_use {
                &&& becomes(
                    old(pool).slots@,
                    final(pool).slots@,
                    idx as int,
                    Pty { to_master: q.to_master, master_readers: q.master_readers, ..p },
                )
                &&& q.to_master@ == offer(p.to_master@, map_output(p.termios, src@))
                &&& q.master_readers@ == Seq::<usize>::empty()
                &&& n == p.master_readers@.len()
                &&& final(wake)@.subrange(0, n as int) == p.master_readers@
            } else {
                *final(pool) == *old(pool) && n == 0
            }
        }),
{
    let i: usize = idx as usize;
    if !pool.slots[i].in_use {
        return 0;
    }
    let p = &mut pool.slots[i];
    let ghost p0 = *p;
    let t = p.termios;
    if (t.oflag & OPOST) != 0 && (t.oflag & ONLCR) != 0 {
        let crnl: [u8; 2] = [CR, NL];
        let mut k: usize = 0;
        assert(p.to_master@ =~= offer(p0.to_master@, map_output(t, src@.subrange(0, 0))));
        while k < src.len()
            invariant
                k <= src@.len(),
                p.wf(),
                p0.wf(),
                t == p0.termios,
                flag(t.oflag, OPOST) && flag(t.oflag, ONLCR),
                crnl@ == seq![CR, NL],
                *p == (Pty { to_master: p.to_master, ..p0 }),
                p.to_master@ == offer(p0.to_master@, map_output(t, src@.subrange(0, k as int))),
            decreases src@.len() - k,
        {
            let ghost before = src@.subrange(0, k as int);
            let ghost now = src@.subrange(0, k + 1);
            let b: u8 = src[k];
            let one: [u8; 1] = [b];
            if b == NL {
                put(&mut p.to_master, crnl.as_slice());
            } else {
                put(&mut p.to_master, one.as_slice());
            }
            proof {
                assert(now.drop_last() =~= before);
                assert(now.last() == b);
                let done = map_output(t, before);
                lemma_offer_joined(p0.to_master@, done, crnl@);
                lemma_offer_joined(p0.to_master@, done, one@);
                assert(done + one@ =~= done.push(b));
            }
            k += 1;
        }
        assert(src@.subrange(0, src@.len() as int) =~= src@);
    } else {
        put(&mut p.to_master, src);
    }
    p.master_readers.drain(wake)
}

/// What a read of at most `want` bytes of the program's input reports.
pub open spec fn slave_read_outcome(p: Pty, want: nat) -> ReadOut {
    if !p.in_use || (p.to_slave@.len() == 0 && (p.eof_pending || p.master_closed)) {
        ReadOut::Eof
    } else if p.to_slave@.len() == 0 {
        ReadOut::WouldBlock
    } else {
        ReadOut::Data(ring::min_of(want, p.to_slave@.len()) as usize)
    }
}

/// Read released input. A pending end-of-file is reported once, when nothing is
/// buffered; the end also comes once the terminal's side is closed and drained.
pub fn slave_read(pool: &mut Ptys, idx: u8, out: &mut [u8]) -> (r: ReadOut)
    requires
        old(pool).wf(),
        idx < NPTYS,
    ensures
        final(pool).wf(),
        r == slave_read_outcome(old(pool).slots@[idx as int], old(out)@.len()),
        ({
            let p = old(pool).slots@[idx as int];
            let q = final(pool).slots@[idx as int];
            match r {
                ReadOut::Data(n) => {
                    &&& becomes(
                        old(pool).slots@,
                        final(pool).slots@,
                        idx as int,
                        Pty { to_slave: q.to_slave, ..p },
                    )
                    &&& q.to_slave@ == p.to_slave@.subrange(n as int, p.to_slave@.len() as int)
                    &&& final(out)@ == ring::overlay(old(out)@, p.to_slave@.subrange(0, n as int))
                },
                ReadOut::Eof => {
                    &&& becomes(
                        old(pool).slots@,
                        final(pool).slots@,
                        idx as int,
                        Pty { eof_pending: p.eof_pending && !p.in_use, ..p },
                    )
                    &&& final(out)@ == old(out)@
                },
                ReadOut::WouldBlock => *final(pool) == *old(pool) && final(out)@ == old(out)@,
            }
        }),
{
    let i: usize = idx as usize;
    if !pool.slots[i].in_use {
        return ReadOut::Eof;
    }
    if pool.slots[i].to_slave.len == 0 {
        if pool.slots[i].eof_pending {
            pool.slots[i].eof_pending = false;
            return ReadOut::Eof;
        }
        if pool.slots[i].master_closed {
            return ReadOut::Eof;
        }
        return ReadOut::WouldBlock;
    }
    let n: usize = pool.slots[i].to_slave.read_into(out);
    ReadOut::Data(n)
}

/// Whether a terminal read would return at once.
pub fn master_can_read(pool: &Ptys, idx: u8) -> (b: bool)
    requires
        pool.wf(),
        idx < NPTYS,
    ensures
        b == (pool.slots@[idx as int].in_use && !(master_read_outcome(
            pool.slots@[idx as int],
            1,
        ) is WouldBlock)),
{
    let p = &pool.slots[idx as usize];
    p.in_use && (p.to_master.len > 0 || p.slave_closed)
}

/// Whether a program read would return at once.
pub fn slave_can_read(pool: &Ptys, idx: u8) -> (b: bool)
    requires
        pool.wf(),
        idx < NPTYS,
    ensures
        b == (pool.slots@[idx as int].in_use && !(slave_read_outcome(
            pool.slots@[idx as int],
            1,
        ) is WouldBlock)),
{
    let p = &pool.slots[idx as usize];
    p.in_use && (p.to_slave.len > 0 || p.eof_pending || p.master_closed)
}

/// Set the foreground process.
pub fn set_fg(pool: &mut Ptys, idx: u8, pid: u32)
    requires
        old(pool).wf(),
        idx < NPTYS,
    ensures
        final(pool).wf(),
        becomes(
            old(pool).slots@,
            final(pool).slots@,
            idx as int,
            Pty { child: pid, ..old(pool).slots@[idx as int] },
        ),
{
    pool.slots[idx as usize].child = pid;
}

/// The foreground process, 0 for none.
pub fn fg_pid(pool: &Ptys, idx: u8) -> (pid: u32)
    requires
        pool.wf(),
        idx < NPTYS,
    ensures
        pid == pool.slots@[idx as int].child,
{
    pool.slots[idx as usize].child
}

/// The settings, as input, output and local flags and control characters.
pub fn get_termios(pool: &Ptys, idx: u8) -> (r: (u32, u32, u32, [u8; NCCS]))
    requires
        pool.wf(),
        idx < NPTYS,
    ensures
        (Termios { iflag: r.0, oflag: r.1, lflag: r.2, cc: r.3 })
            == pool.slots@[idx as int].termios,
{
    let t = pool.slots[idx as usize].termios;
    (t.iflag, t.oflag, t.lflag, t.cc)
}

/// Replace the settings.
pub fn set_termios(
    pool: &mut Ptys,
    idx: u8,
    iflag: u32,
    oflag: u32,
    lflag: u32,
    cc: [u8; NCCS],
)
    requires
        old(pool).wf(),
        idx < NPTYS,
    ensures
        final(pool).wf(),
        becomes(
            old(pool).slots@,
            final(pool).slots@,
            idx as int,
            Pty {
                termios: Termios { iflag, oflag, lflag, cc },
                ..old(pool).slots@[idx as int]
            },
        ),
{
    pool.slots[idx as usize].termios = Termios { iflag, oflag, lflag, cc };
}

/// The window size, in rows and columns.
pub fn get_winsize(pool: &Ptys, idx: u8) -> (r: (u16, u16))
    requires
        pool.wf(),
        idx < NPTYS,
    ensures
        r == (pool.slots@[idx as int].rows, pool.slots@[idx as int].cols),
{
    let p = &pool.slots[idx as usize];
    (p.rows, p.cols)
}

/// Replace the window size.
pub fn set_winsize(pool: &mut Ptys, idx: u8, rows: u16, cols: u16)
    requires
        old(pool).wf(),
        idx < NPTYS,
    ensures
        final(pool).wf(),
        becomes(
            old(pool).slots@,
            final(pool).slots@,
            idx as int,
            Pty { rows, cols, ..old(pool).slots@[idx as int] },
        ),
{
    pool.slots[idx as usize].rows = rows;
    pool.slots[idx as usize].cols = cols;
}

/// Close the terminal's side; the waiting program readers move to the front of
/// `wake`, and the terminal is free again if the other side is closed too.
pub fn close_master(pool: &mut Ptys, idx: u8, wake: &mut [usize; QCAP]) -> (n: usize)
    requires
        old(pool).wf(),
        idx < NPTYS,
    ensures
        final(pool).wf(),
        ({
            let p = old(pool).slots@[idx as int];
            let q = final(pool).slots@[idx as int];
            &&& becomes(
                old(pool).slots@,
                final(pool).slots@,
                idx as int,
                Pty {
                    master_closed: true,
                    in_use: p.in_use && !p.slave_closed,
                    slave_readers: q.slave_readers,
                    ..p
                },
            )
            &&& q.slave_readers@ == Seq::<usize>::empty()
            &&& n == p.slave_readers@.len()
            &&& final(wake)@.subrange(0, n as int) == p.slave_readers@
        }),
{
    let p = &mut pool.slots[idx as usize];
    p.master_closed = true;
    let n: usize = p.slave_readers.drain(wake);
    if p.slave_closed {
        p.in_use = false;
    }
    n
}

/// Close the program's side; the mirror image of [`close_master`].
pub fn close_slave(pool: &mut Ptys, idx: u8, wake: &mut [usize; QCAP]) -> (n: usize)
    requires
        old(pool).wf(),
        idx < NPTYS,
    ensures
        final(pool).wf(),
        ({
            let p = old(pool).slots@[idx as int];
            let q = final(pool).slots@[idx as int];
            &&& becomes(
                old(pool).slots@,
                final(pool).slots@,
                idx as int,
                Pty {
                    slave_closed: true,
                    in_use: p.in_use && !p.master_closed,
                    master_readers: q.master_readers,
                    ..p
                },
            )
            &&& q.master_readers@ == Seq::<usize>::empty()
            &&& n == p.master_readers@.len()
            &&& final(wake)@.subrange(0, n as int) == p.master_readers@
        }),
{
    let p = &mut pool.slots[idx as usize];
    p.slave_closed = true;
    let n: usize = p.master_readers.drain(wake);
    if p.master_closed {
        p.in_use = false;
    }
    n
}

/// Only the terminal readers of slot `i` differ, and they are now `q`.
pub open spec fn master_readers_become(a: Seq<Pty>, b: Seq<Pty>, i: int, q: Seq<usize>) -> bool {
    &&& becomes(a, b, i, Pty { master_readers: b[i].master_readers, ..a[i] })
    &&& b[i].master_readers@ == q
}

/// Only the program readers of slot `i` differ, and they are now `q`.
pub open spec fn slave_readers_become(a: Seq<Pty>, b: Seq<Pty>, i: int, q: Seq<usize>) -> bool {
    &&& becomes(a, b, i, Pty { slave_readers: b[i].slave_readers, ..a[i] })
    &&& b[i].slave_readers@ == q
}

/// Park `tid` until there is output to read.
pub fn park_master_reader(pool: &mut Ptys, idx: u8, tid: usize)
    requires
        old(pool).wf(),
        tid < MAX_THREADS,
        idx < NPTYS,
    ensures
        final(pool).wf(),
        master_readers_become(
            old(pool).slots@,
            final(pool).slots@,
            idx as int,
            waitq::q_push(old(pool).slots@[idx as int].master_readers@, tid),
        ),
{
    pool.slots[idx as usize].master_readers.push(tid);
}

/// Park `tid` until there is input to read.
pub fn park_slave_reader(pool: &mut Ptys, idx: u8, tid: usize)
    requires
        old(pool).wf(),
        tid < MAX_THREADS,
        idx < NPTYS,
    ensures
        final(pool).wf(),
        slave_readers_become(
            old(pool).slots@,
            final(pool).slots@,
            idx as int,
            waitq::q_push(old(pool).slots@[idx as int].slave_readers@, tid),
        ),
{
    pool.slots[idx as usize].slave_readers.push(tid);
}

/// Take `tid` off the queue of terminal readers.
pub fn unpark_master_reader(pool: &mut Ptys, idx: u8, tid: usize)
    requires
        old(pool).wf(),
        idx < NPTYS,
    ensures
        final(pool).wf(),
        master_readers_become(
            old(pool).slots@,
            final(pool).slots@,
            idx as int,
            waitq::q_remove(old(pool).slots@[idx as int].master_readers@, tid),
        ),
{
    pool.slots[idx as usize].master_readers.remove(tid);
}

/// Take `tid` off the queue of program readers.
pub fn unpark_slave_reader(pool: &mut Ptys, idx: u8, tid: usize)
    requires
        old(pool).wf(),
        idx < NPTYS,
    ensures
        final(pool).wf(),
        slave_readers_become(
            old(pool).slots@,
            final(pool).slots@,
            idx as int,
            waitq::q_remove(old(pool).slots@[idx as int].slave_readers@, tid),
        ),
{
    pool.slots[idx as usize].slave_readers.remove(tid);
}

} // verus!
