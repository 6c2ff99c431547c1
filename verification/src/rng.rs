//! The kernel's random number generator: ChaCha20 with fast key erasure.
use vstd::prelude::*;
use crate::bytes;

verus! {

pub const CHACHA0: u32 = 0x6170_7865;
pub const CHACHA1: u32 = 0x3320_646e;
pub const CHACHA2: u32 = 0x7962_2d32;
pub const CHACHA3: u32 = 0x6b20_6574;

/// Addition modulo 2^32.
pub open spec fn plus(a: u32, b: u32) -> u32 {
    ((a + b) % 0x1_0000_0000) as u32
}

/// `x` rotated left by `n` bits, for `n` from 1 to 31.
pub open spec fn rotl(x: u32, n: u32) -> u32 {
    (x << n) | (x >> ((32 - n) as u32))
}

/// A ChaCha state: sixteen words.
pub type Words = Seq<u32>;

/// The quarter round on words `a`, `b`, `c` and `d` of a state.
pub open spec fn quarter(s: Words, a: int, b: int, c: int, d: int) -> Words {
    let s1 = s.update(a, plus(s[a], s[b]));
    let s2 = s1.update(d, rotl(s1[d] ^ s1[a], 16));
    let s3 = s2.update(c, plus(s2[c], s2[d]));
    let s4 = s3.update(b, rotl(s3[b] ^ s3[c], 12));
    let s5 = s4.update(a, plus(s4[a], s4[b]));
    let s6 = s5.update(d, rotl(s5[d] ^ s5[a], 8));
    let s7 = s6.update(c, plus(s6[c], s6[d]));
    s7.update(b, rotl(s7[b] ^ s7[c], 7))
}

/// A column round followed by a diagonal round.
pub open spec fn double_round(s: Words) -> Words {
    let s1 = quarter(s, 0, 4, 8, 12);
    let s2 = quarter(s1, 1, 5, 9, 13);
    let s3 = quarter(s2, 2, 6, 10, 14);
    let s4 = quarter(s3, 3, 7, 11, 15);
    let s5 = quarter(s4, 0, 5, 10, 15);
    let s6 = quarter(s5, 1, 6, 11, 12);
    let s7 = quarter(s6, 2, 7, 8, 13);
    quarter(s7, 3, 4, 9, 14)
}

/// `n` double rounds.
pub open spec fn rounds(s: Words, n: int) -> Words
    decreases n,
{
    if n <= 0 {
        s
    } else {
        double_round(rounds(s, n - 1))
    }
}

/// The state a block starts from: the constants, the key, the counter, a zero nonce.
pub open spec fn initial(key: Seq<u32>, counter: u64) -> Words {
    seq![
        CHACHA0,
        CHACHA1,
        CHACHA2,
        CHACHA3,
        key[0],
        key[1],
        key[2],
        key[3],
        key[4],
        key[5],
        key[6],
        key[7],
        (counter % 0x1_0000_0000) as u32,
        (counter / 0x1_0000_0000) as u32,
        0,
        0,
    ]
}

/// The words of a keystream block: ten double rounds, added to where they started.
pub open spec fn keystream(key: Seq<u32>, counter: u64) -> Words {
    let init = initial(key, counter);
    let last = rounds(init, 10);
    Seq::new(16, |i: int| plus(last[i], init[i]))
}

/// Byte `k` of a run of little-endian words.
pub open spec fn word_byte(ws: Words, k: int) -> u8 {
    let w = ws[k / 4] as int;
    (if k % 4 == 0 {
        w % 256
    } else if k % 4 == 1 {
        (w / 256) % 256
    } else if k % 4 == 2 {
        (w / 65536) % 256
    } else {
        w / 16777216
    }) as u8
}

fn add32(a: u32, b: u32) -> (r: u32)
    ensures
        r == plus(a, b),
{
    ((a as u64 + b as u64) % 0x1_0000_0000) as u32
}

fn rot32(x: u32, n: u32) -> (r: u32)
    requires
        0 < n < 32,
    ensures
        r == rotl(x, n),
{
    (x << n) | (x >> (32 - n))
}

/// One quarter round.
fn qr(s: &mut [u32; 16], a: usize, b: usize, c: usize, d: usize)
    requires
        a < 16,
        b < 16,
        c < 16,
        d < 16,
    ensures
        final(s)@ == quarter(old(s)@, a as int, b as int, c as int, d as int),
{
    s[a] = add32(s[a], s[b]);
    s[d] = rot32(s[d] ^ s[a], 16);
    s[c] = add32(s[c], s[d]);
    s[b] = rot32(s[b] ^ s[c], 12);
    s[a] = add32(s[a], s[b]);
    s[d] = rot32(s[d] ^ s[a], 8);
    s[c] = add32(s[c], s[d]);
    s[b] = rot32(s[b] ^ s[c], 7);
    assert(s@ =~= quarter(old(s)@, a as int, b as int, c as int, d as int));
}

/// The keystream block for `key` and `counter`, as words.
pub fn block(key: &[u32; 8], counter: u64) -> (out: [u32; 16])
    ensures
        out@ == keystream(key@, counter),
{
    let init: [u32; 16] = [
        CHACHA0,
        CHACHA1,
        CHACHA2,
        CHACHA3,
        key[0],
        key[1],
        key[2],
        key[3],
        key[4],
        key[5],
        key[6],
        key[7],
        (counter % 0x1_0000_0000) as u32,
        (counter / 0x1_0000_0000) as u32,
        0,
        0,
    ];
    assert(init@ =~= initial(key@, counter));
    let mut s: [u32; 16] = init;
    let mut n: usize = 0;
    while n < 10
        invariant
            n <= 10,
            s@ == rounds(init@, n as int),
        decreases 10 - n,
    {
        qr(&mut s, 0, 4, 8, 12);
        qr(&mut s, 1, 5, 9, 13);
        qr(&mut s, 2, 6, 10, 14);
        qr(&mut s, 3, 7, 11, 15);
        qr(&mut s, 0, 5, 10, 15);
        qr(&mut s, 1, 6, 11, 12);
        qr(&mut s, 2, 7, 8, 13);
        qr(&mut s, 3, 4, 9, 14);
        n += 1;
    }
    let mut out: [u32; 16] = [0u32; 16];
    let mut i: usize = 0;
    while i < 16
        invariant
            i <= 16,
            s@ == rounds(init@, 10),
            init@ == initial(key@, counter),
            forall|k: int| 0 <= k < i ==> out@[k] == keystream(key@, counter)[k],
        decreases 16 - i,
    {
        out[i] = add32(s[i], init[i]);
        i += 1;
    }
    assert(out@ =~= keystream(key@, counter));
    out
}

/// Byte `k` of a keystream block.
fn block_byte(blk: &[u32; 16], k: usize) -> (b: u8)
    requires
        k < 64,
    ensures
        b == word_byte(blk@, k as int),
{
    let w: u32 = blk[k / 4];
    let r: usize = k % 4;
    if r == 0 {
        (w % 256) as u8
    } else if r == 1 {
        ((w / 256) % 256) as u8
    } else if r == 2 {
        ((w / 65536) % 256) as u8
    } else {
        (w / 16777216) as u8
    }
}

/// One word of seed material from two time stamps and, if the processor has one, a
/// hardware random number.
pub open spec fn seed_mix(i: int, t1: u64, hw: Option<u64>, t2: u64) -> u32 {
    let r = if i == 0 {
        t1
    } else {
        (t1 << ((7 * i) as u64)) | (t1 >> ((64 - 7 * i) as u64))
    };
    let v = match hw {
        Some(x) => r ^ x ^ t2,
        None => r ^ t2,
    };
    ((v ^ (v >> 32)) & 0xffff_ffff) as u32
}

/// One word of seed material; see [`seed_mix`].
pub fn hw_seed(i: u32, t1: u64, hw: Option<u64>, t2: u64) -> (w: u32)
    requires
        i < 8,
    ensures
        w == seed_mix(i as int, t1, hw, t2),
{
    let r: u64 = if i == 0 {
        t1
    } else {
        (t1 << ((7 * i) as u64)) | (t1 >> ((64 - 7 * i) as u64))
    };
    let v: u64 = match hw {
        Some(x) => r ^ x ^ t2,
        None => r ^ t2,
    };
    let f: u64 = (v ^ (v >> 32)) & 0xffff_ffff;
    assert(f <= 0xffff_ffff) by (bit_vector)
        requires
            f == (v ^ (v >> 32)) & 0xffff_ffff,
    ;
    f as u32
}

/// The generator.
pub struct Csprng {
    pub key: [u32; 8],
    pub counter: u64,
    pub seeded: bool,
}

/// The key and counter of a generator.
#[verifier::ext_equal]
pub struct RngState {
    pub key: Seq<u32>,
    pub counter: u64,
}

/// One step: the first half of the block becomes the key, so that what was put out
/// before cannot be computed from what is kept.
pub open spec fn advanced(s: RngState) -> RngState {
    RngState {
        key: keystream(s.key, s.counter).subrange(0, 8),
        counter: if s.counter == u64::MAX {
            0
        } else {
            (s.counter + 1) as u64
        },
    }
}

/// `n` steps.
pub open spec fn after_steps(s: RngState, n: int) -> RngState
    decreases n,
{
    if n <= 0 {
        s
    } else {
        advanced(after_steps(s, n - 1))
    }
}

/// Byte `k` of the output: the second halves of the blocks, one after the other.
pub open spec fn output_byte(s: RngState, k: int) -> u8 {
    let t = after_steps(s, k / 32);
    word_byte(keystream(t.key, t.counter), 32 + k % 32)
}

impl Csprng {
    pub open spec fn view(&self) -> RngState {
        RngState { key: self.key@, counter: self.counter }
    }

    /// A generator that has not been seeded.
    pub fn new() -> (r: Self)
        ensures
            !r.seeded,
            r.counter == 0,
            r.key@ == Seq::new(8, |i: int| 0u32),
    {
        let r = Csprng { key: [0u32; 8], counter: 0, seeded: false };
        assert(r.key@ =~= Seq::new(8, |i: int| 0u32));
        r
    }

    /// Mix seed material into the key.
    pub fn reseed(&mut self, s: &[u32; 8])
        ensures
            final(self).seeded,
            final(self).counter == old(self).counter,
            final(self).key@ == Seq::new(8, |i: int| old(self).key@[i] ^ s@[i]),
    {
        let mut i: usize = 0;
        while i < 8
            invariant
                i <= 8,
                self.counter == old(self).counter,
                forall|k: int| 0 <= k < i ==> self.key@[k] == old(self).key@[k] ^ s@[k],
                forall|k: int| i <= k < 8 ==> self.key@[k] == old(self).key@[k],
            decreases 8 - i,
        {
            self.key[i] = self.key[i] ^ s[i];
            i += 1;
        }
        self.seeded = true;
        assert(self.key@ =~= Seq::new(8, |i: int| old(self).key@[i] ^ s@[i]));
    }

    /// Fill `buf` with output, a block for every 32 bytes or part of them.
    pub fn fill(&mut self, buf: &mut [u8])
        requires
            old(self).seeded,
        ensures
            final(self).seeded,
            final(self)@ == after_steps(old(self)@, (old(buf)@.len() as int + 31) / 32),
            final(buf)@ == Seq::new(old(buf)@.len(), |k: int| output_byte(old(self)@, k)),
    {
        let len: usize = buf.len();
        let mut off: usize = 0;
        let ghost mut steps: int = 0;
        while off < len
            invariant
                self.seeded,
                off <= len,
                len == buf@.len(),
                len == old(buf)@.len(),
                steps >= 0,
                off < len ==> off == 32 * steps,
                off == len ==> steps == (len + 31) / 32,
                self@ == after_steps(old(self)@, steps),
                forall|k: int| 0 <= k < off ==> buf@[k] == output_byte(old(self)@, k),
            decreases len - off,
        {
            let ghost st = self@;
            let blk = block(&self.key, self.counter);
            self.counter = self.counter.wrapping_add(1);
            let mut i: usize = 0;
            while i < 8
                invariant
                    i <= 8,
                    blk@.len() == 16,
                    self.seeded,
                    self.counter == advanced(st).counter,
                    forall|k: int| 0 <= k < i ==> self.key@[k] == blk@[k],
                decreases 8 - i,
            {
                self.key[i] = blk[i];
                i += 1;
            }
            proof {
                assert(self.key@ =~= blk@.subrange(0, 8));
                assert(self@ =~= advanced(st));
            }
            let n: usize = if len - off < 32 {
                len - off
            } else {
                32
            };
            let mut j: usize = 0;
            while j < n
                invariant
                    j <= n,
                    n <= 32,
                    off + n <= len,
                    len == buf@.len(),
                    off == 32 * steps,
                    steps >= 0,
                    st == after_steps(old(self)@, steps),
                    blk@ == keystream(st.key, st.counter),
                    forall|k: int| 0 <= k < off + j ==> buf@[k] == output_byte(old(self)@, k),
                decreases n - j,
            {
                buf[off + j] = block_byte(&blk, 32 + j);
                proof {
                    let k = off + j;
                    assert(k / 32 == steps && k % 32 == j);
                }
                j += 1;
            }
            off += n;
            proof {
                steps = steps + 1;
            }
        }
        assert(buf@ =~= Seq::new(old(buf)@.len(), |k: int| output_byte(old(self)@, k)));
    }
}

/// Fill `buf` with random bytes.
pub fn fill_bytes(rng: &mut Csprng, buf: &mut [u8])
    requires
        old(rng).seeded,
    ensures
        final(rng).seeded,
        final(rng)@ == after_steps(old(rng)@, (old(buf)@.len() as int + 31) / 32),
        final(buf)@ == Seq::new(old(buf)@.len(), |k: int| output_byte(old(rng)@, k)),
{
    rng.fill(buf);
}

/// The number the generator gives next: eight bytes of output, little endian.
pub open spec fn next_value(s: RngState) -> u64 {
    bytes::le64(Seq::new(8, |k: int| output_byte(s, k)), 0) as u64
}

/// A random number.
pub fn next_u64(rng: &mut Csprng) -> (v: u64)
    requires
        old(rng).seeded,
    ensures
        final(rng).seeded,
        final(rng)@ == after_steps(old(rng)@, 1),
        v == next_value(old(rng)@),
{
    let mut b: [u8; 8] = [0u8; 8];
    let s: &mut [u8] = vstd::array::ref_mut_array_unsizing_coercion(&mut b);
    fill_bytes(rng, s);
    bytes::read_le64(b.as_slice(), 0)
}

/// What a step puts out and what it keeps as the new key are different halves of one
/// block: no part of a key is ever put out.
pub proof fn law_key_is_never_output(s: RngState, k: int)
    requires
        0 <= k < 32,
    ensures
        advanced(s).key == keystream(s.key, s.counter).subrange(0, 8),
        output_byte(s, k) == word_byte(keystream(s.key, s.counter).subrange(8, 16), k),
{
    let ks = keystream(s.key, s.counter);
    assert(ks.subrange(8, 16)[k / 4] == ks[(32 + k) / 4]);
}

} // verus!
