//! The SHAKE256 sponge: absorbs an arbitrary byte stream into the 25-lane
//! Keccak state at a rate of 136 bytes per block, applies the SHAKE
//! domain-separated padding on finalization, and squeezes an output stream
//! of any requested length.

use vstd::prelude::*;
use crate::permutation::keccak_f;
use crate::permutation::keccak_permute;

verus! {

/// Bytes of state exposed to input and output per block. With the hidden
/// capacity below it always splits the 200-byte state: RATE + CAPACITY == 200.
pub const RATE: usize = 136;

/// Bytes of state never exposed; SHAKE256's security margin.
pub const CAPACITY: usize = 64;

/// The all-zero initial state.
pub open spec fn zero_state() -> Seq<u64> {
    Seq::new(25, |i: int| 0u64)
}

/// Byte `k` (little-endian, 0 <= k < 8) of a 64-bit lane, given the shift
/// amount `sh == 8 * k`.
pub open spec fn lane_byte(x: u64, sh: u64) -> u8
    recommends
        sh < 64,
{
    (x >> sh) as u8
}

/// The 200 bytes of the state, little-endian within each lane.
pub open spec fn state_bytes(s: Seq<u64>) -> Seq<u8>
    recommends
        s.len() == 25,
{
    Seq::new(200, |i: int| lane_byte(s[i / 8], (8 * (i % 8)) as u64))
}

/// A 64-bit lane read from 8 bytes, little-endian.
pub open spec fn le_word(b: Seq<u8>) -> u64
    recommends
        b.len() == 8,
{
    (b[0] as u64) | ((b[1] as u64) << 8u64) | ((b[2] as u64) << 16u64)
        | ((b[3] as u64) << 24u64) | ((b[4] as u64) << 32u64) | ((b[5] as u64) << 40u64)
        | ((b[6] as u64) << 48u64) | ((b[7] as u64) << 56u64)
}

/// The state after XORing one rate-sized block into its first 17 lanes.
pub open spec fn xor_block(s: Seq<u64>, block: Seq<u8>) -> Seq<u64>
    recommends
        s.len() == 25,
        block.len() == RATE,
{
    Seq::new(
        25,
        |i: int| if i < 17 {
            s[i] ^ le_word(block.subrange(8 * i, 8 * i + 8))
        } else {
            s[i]
        },
    )
}

/// Absorbs `input`, whose length must be a multiple of the rate, block by
/// block: XOR a block into the state, then permute.
pub open spec fn absorb_blocks(s: Seq<u64>, input: Seq<u8>) -> Seq<u64>
    recommends
        s.len() == 25,
        (input.len() as int) % (RATE as int) == 0,
    decreases input.len(),
{
    if input.len() < RATE {
        s
    } else {
        absorb_blocks(
            keccak_f(xor_block(s, input.take(RATE as int))),
            input.skip(RATE as int),
        )
    }
}

/// The SHAKE padding suffix for an input of length `len`: the domain byte
/// 0x1f, zero fill, and a final 0x80, in a suffix that brings the length to
/// the next multiple of the rate. When only one byte is free the two ends
/// of the padding share it: 0x1f | 0x80 == 0x9f.
pub open spec fn pad_suffix(len: nat) -> Seq<u8> {
    let p = (RATE as int) - (len as int) % (RATE as int);
    Seq::new(
        p as nat,
        |i: int| (if i == 0 { 0x1fu8 } else { 0u8 }) | (if i == p - 1 { 0x80u8 } else { 0u8 }),
    )
}

/// The state once all of `input`, followed by the padding, is absorbed.
pub open spec fn absorbed_state(input: Seq<u8>) -> Seq<u64> {
    absorb_blocks(zero_state(), input + pad_suffix(input.len()))
}

/// The state after `p` further permutations of the squeeze phase.
pub open spec fn squeeze_state(input: Seq<u8>, p: nat) -> Seq<u64>
    decreases p,
{
    if p == 0 {
        absorbed_state(input)
    } else {
        keccak_f(squeeze_state(input, (p - 1) as nat))
    }
}

/// The next `n` output bytes squeezed from state `s` with `c` bytes of the
/// current rate-sized window already consumed.
pub open spec fn squeeze_at(s: Seq<u64>, c: nat, n: nat) -> Seq<u8>
    recommends
        s.len() == 25,
        c <= RATE,
    decreases n, c,
{
    if n <= RATE - c {
        state_bytes(s).subrange(c as int, (c + n) as int)
    } else if c < RATE {
        state_bytes(s).subrange(c as int, RATE as int)
            + squeeze_at(keccak_f(s), 0, (n - (RATE - c)) as nat)
    } else {
        squeeze_at(keccak_f(s), 0, n)
    }
}

/// The SHAKE256 output of length `n` for `input`: absorb, pad, squeeze.
pub open spec fn shake256(input: Seq<u8>, n: nat) -> Seq<u8> {
    squeeze_at(absorbed_state(input), 0, n)
}

/// Absorbing a single full block XORs it in and permutes once.
pub(crate) proof fn lemma_absorb_one_block(s: Seq<u64>, b: Seq<u8>)
    requires
        b.len() == RATE,
    ensures
        absorb_blocks(s, b) == keccak_f(xor_block(s, b)),
{
    assert(b.take(RATE as int) =~= b);
    assert(absorb_blocks(s, b) == absorb_blocks(
        keccak_f(xor_block(s, b.take(RATE as int))),
        b.skip(RATE as int),
    ));
    assert(b.skip(RATE as int).len() == 0);
    assert(absorb_blocks(keccak_f(xor_block(s, b)), b.skip(RATE as int)) == keccak_f(
        xor_block(s, b),
    ));
}

/// Absorption splits over concatenation at any block boundary.
pub(crate) proof fn lemma_absorb_blocks_concat(s: Seq<u64>, a: Seq<u8>, b: Seq<u8>)
    requires
        (a.len() as int) % (RATE as int) == 0,
    ensures
        absorb_blocks(s, a + b) == absorb_blocks(absorb_blocks(s, a), b),
    decreases a.len(),
{
    if a.len() == 0 {
        assert(a + b =~= b);
    } else {
        assert(a.len() >= RATE);
        assert((a + b).take(RATE as int) =~= a.take(RATE as int));
        assert((a + b).skip(RATE as int) =~= a.skip(RATE as int) + b);
        assert((a.skip(RATE as int).len() as int) % (RATE as int) == 0);
        lemma_absorb_blocks_concat(
            keccak_f(xor_block(s, a.take(RATE as int))),
            a.skip(RATE as int),
            b,
        );
    }
}

/// One 64-bit lane read from 8 consecutive bytes of `b`, little-endian.
fn load_le_word(b: &Vec<u8>, off: usize) -> (w: u64)
    requires
        b@.len() == RATE,
        off + 8 <= RATE,
    ensures
        w == le_word(b@.subrange(off as int, off as int + 8)),
{
    let w = (b[off] as u64) | ((b[off + 1] as u64) << 8u64) | ((b[off + 2] as u64) << 16u64)
        | ((b[off + 3] as u64) << 24u64) | ((b[off + 4] as u64) << 32u64)
        | ((b[off + 5] as u64) << 40u64) | ((b[off + 6] as u64) << 48u64)
        | ((b[off + 7] as u64) << 56u64);
    proof {
        let sub = b@.subrange(off as int, off as int + 8);
        assert(forall|k: int| 0 <= k < 8 ==> sub[k] == b@[off + k]);
    }
    w
}

/// XORs one rate-sized block into the state and runs the permutation.
fn absorb_into_state(state: &mut Vec<u64>, block: &Vec<u8>)
    requires
        old(state)@.len() == 25,
        block@.len() == RATE,
    ensures
        final(state)@.len() == 25,
        final(state)@ == keccak_f(xor_block(old(state)@, block@)),
{
    let mut i: usize = 0;
    while i < 17
        invariant
            i <= 17,
            state@.len() == 25,
            block@.len() == RATE,
            forall|k: int| 0 <= k < i ==> state@[k] == xor_block(old(state)@, block@)[k],
            forall|k: int| i <= k < 25 ==> state@[k] == old(state)@[k],
        decreases 17 - i,
    {
        let w = load_le_word(block, 8 * i);
        let v = state[i] ^ w;
        state[i] = v;
        i += 1;
    }
    assert(state@ =~= xor_block(old(state)@, block@));
    keccak_permute(state);
}

/// The two phases of a sponge's life: absorbing input, then squeezing
/// output. The transition happens exactly once, at `finalize_xof`.
pub enum Phase {
    Absorbing,
    Squeezing,
}

/// A SHAKE256 sponge engine. One instance serves one hash computation:
/// feed input with `update`, switch phases with `finalize_xof`, then draw
/// any number of output bytes with `read`.
pub struct Shake256 {
    state: Vec<u64>,
    buf: Vec<u8>,
    phase: Phase,
    cursor: usize,
    absorbed: Ghost<Seq<u8>>,
    perms: Ghost<nat>,
}

impl Shake256 {
    /// All input bytes fed to the engine so far.
    pub closed spec fn input(self) -> Seq<u8> {
        self.absorbed@
    }

    /// Whether the engine still accepts input.
    pub closed spec fn in_absorb_phase(self) -> bool {
        self.phase is Absorbing
    }

    /// How many output bytes have been drawn since `finalize_xof`.
    pub closed spec fn offset(self) -> nat {
        (RATE as nat) * self.perms@ + (self.cursor as nat)
    }

    /// The engine's invariant: the concrete state, buffer and cursor agree
    /// with the sponge's mathematical model of the bytes absorbed so far
    /// (and, once squeezing, of the permutations run since finalization).
    pub closed spec fn wf(self) -> bool {
        &&& self.state@.len() == 25
        &&& match self.phase {
            Phase::Absorbing => {
                &&& self.buf@.len() < RATE
                &&& self.buf@.len() <= self.absorbed@.len()
                &&& ((self.absorbed@.len() - self.buf@.len()) as int) % (RATE as int) == 0
                &&& self.buf@ == self.absorbed@.skip(self.absorbed@.len() - self.buf@.len())
                &&& self.state@ == absorb_blocks(
                    zero_state(),
                    self.absorbed@.take(self.absorbed@.len() - self.buf@.len()),
                )
            },
            Phase::Squeezing => {
                &&& self.cursor <= RATE
                &&& self.state@ == squeeze_state(self.absorbed@, self.perms@)
            },
        }
    }

    /// A fresh engine: zeroed state, empty buffer, absorbing.
    pub fn new() -> (e: Shake256)
        ensures
            e.wf(),
            e.in_absorb_phase(),
            e.input() == Seq::<u8>::empty(),
    {
        let mut state: Vec<u64> = Vec::new();
        let mut i: usize = 0;
        while i < 25
            invariant
                i <= 25,
                state@.len() == i,
                forall|k: int| 0 <= k < i ==> state@[k] == 0u64,
            decreases 25 - i,
        {
            state.push(0);
            i += 1;
        }
        assert(state@ =~= zero_state());
        let e = Shake256 {
            state,
            buf: Vec::new(),
            phase: Phase::Absorbing,
            cursor: 0,
            absorbed: Ghost(Seq::empty()),
            perms: Ghost(0),
        };
        proof {
            assert(e.absorbed@.take(0) =~= Seq::<u8>::empty());
            assert(e.buf@ =~= e.absorbed@.skip(0));
            assert(absorb_blocks(zero_state(), Seq::<u8>::empty()) == zero_state());
        }
        e
    }

    /// Whether `update` may still be called, as executable code.
    pub fn is_absorbing(&self) -> (r: bool)
        ensures
            r == self.in_absorb_phase(),
    {
        match self.phase {
            Phase::Absorbing => true,
            Phase::Squeezing => false,
        }
    }

    /// Absorbs `data`: the engine's input grows by exactly these bytes, and
    /// the hash will depend only on the concatenation of all input — not on
    /// how it was split across `update` calls.
    pub fn update(&mut self, data: &[u8])
        requires
            old(self).wf(),
            old(self).in_absorb_phase(),
        ensures
            final(self).wf(),
            final(self).in_absorb_phase(),
            final(self).input() == old(self).input() + data@,
    {
        let mut i: usize = 0;
        let n = data.len();
        while i < n
            invariant
                i <= n,
                n == data@.len(),
                self.wf(),
                self.in_absorb_phase(),
                self.input() == old(self).input() + data@.take(i as int),
            decreases n - i,
        {
            let b = data[i];
            let ghost pre = *self;
            self.buf.push(b);
            proof {
                self.absorbed@ = self.absorbed@ + seq![b];
            }
            proof {
                let k = pre.absorbed@.len() - pre.buf@.len();
                assert(self.absorbed@.take(k) =~= pre.absorbed@.take(k));
                assert(self.absorbed@.skip(k) =~= pre.absorbed@.skip(k) + seq![b]);
                assert(self.buf@ =~= pre.buf@ + seq![b]);
                assert(self.input() == old(self).input() + data@.take(i + 1)) by {
                    assert(data@.take(i + 1) =~= data@.take(i as int) + seq![data@[i as int]]);
                }
            }
            if self.buf.len() == RATE {
                let ghost k = self.absorbed@.len() - RATE;
                proof {
                    assert(self.absorbed@.take(self.absorbed@.len() as int) =~= self.absorbed@);
                    assert(self.absorbed@ =~= self.absorbed@.take(k) + self.buf@);
                    lemma_absorb_blocks_concat(zero_state(), self.absorbed@.take(k), self.buf@);
                    lemma_absorb_one_block(
                        absorb_blocks(zero_state(), self.absorbed@.take(k)),
                        self.buf@,
                    );
                }
                absorb_into_state(&mut self.state, &self.buf);
                self.buf.clear();
                proof {
                    assert(self.buf@ =~= self.absorbed@.skip(self.absorbed@.len() as int));
                }
            }
            i += 1;
        }
        proof {
            assert(data@.take(n as int) =~= data@);
        }
    }

    /// Pads the buffered remainder with the SHAKE domain-separation byte
    /// 0x1f, zero fill and a final 0x80 bit, absorbs that last block, and
    /// moves to the squeeze phase. The output cursor starts at zero.
    pub fn finalize_xof(&mut self)
        requires
            old(self).wf(),
            old(self).in_absorb_phase(),
        ensures
            final(self).wf(),
            !final(self).in_absorb_phase(),
            final(self).input() == old(self).input(),
            final(self).offset() == 0,
    {
        let bl = self.buf.len();
        proof {
            let len = self.absorbed@.len() as int;
            assert(len % (RATE as int) == (bl as int) % (RATE as int));
            assert((bl as int) % (RATE as int) == bl as int);
            assert(pad_suffix(self.absorbed@.len()).len() == RATE - bl);
        }
        let mut block: Vec<u8> = Vec::new();
        let mut i: usize = 0;
        while i < RATE
            invariant
                i <= RATE,
                *self == *old(self),
                self.wf(),
                self.in_absorb_phase(),
                bl == self.buf@.len(),
                bl < RATE,
                pad_suffix(self.absorbed@.len()).len() == RATE - bl,
                block@.len() == i,
                forall|k: int|
                    0 <= k < i ==> block@[k] == (self.buf@ + pad_suffix(self.absorbed@.len()))[k],
            decreases RATE - i,
        {
            let byte: u8;
            if i < bl {
                byte = self.buf[i];
            } else {
                let a: u8 = if i == bl {
                    0x1f
                } else {
                    0
                };
                let b2: u8 = if i == RATE - 1 {
                    0x80
                } else {
                    0
                };
                byte = a | b2;
                proof {
                    let pad = pad_suffix(self.absorbed@.len());
                    let r = i - bl;
                    assert(pad[r] == (if r == 0 {
                        0x1fu8
                    } else {
                        0u8
                    }) | (if r == (RATE - bl) - 1 {
                        0x80u8
                    } else {
                        0u8
                    }));
                }
            }
            block.push(byte);
            i += 1;
        }
        proof {
            assert(block@ =~= self.buf@ + pad_suffix(self.absorbed@.len()));
            let k = self.absorbed@.len() - bl;
            assert(self.absorbed@ + pad_suffix(self.absorbed@.len()) =~= self.absorbed@.take(k)
                + block@);
            lemma_absorb_blocks_concat(zero_state(), self.absorbed@.take(k), block@);
            lemma_absorb_one_block(absorb_blocks(zero_state(), self.absorbed@.take(k)), block@);
        }
        absorb_into_state(&mut self.state, &block);
        self.buf.clear();
        self.phase = Phase::Squeezing;
        self.cursor = 0;
        proof {
            self.perms@ = 0;
        }
    }

    /// Draws the next `n` bytes of the output stream. The stream is a fixed
    /// function of the absorbed input: a read of `n` bytes at offset `k`
    /// returns bytes `k .. k + n` of `shake256(input, ..)`, however the
    /// total is split across calls. A read of zero bytes leaves the engine
    /// untouched.
    pub fn read(&mut self, n: usize) -> (out: Vec<u8>)
        requires
            old(self).wf(),
            !old(self).in_absorb_phase(),
        ensures
            final(self).wf(),
            !final(self).in_absorb_phase(),
            final(self).input() == old(self).input(),
            final(self).offset() == old(self).offset() + n,
            out@.len() == n,
            out@ == shake256(old(self).input(), (old(self).offset() + n) as nat).skip(
                old(self).offset() as int,
            ),
            n == 0 ==> *final(self) == *old(self),
    {
        let ghost start = old(self).offset();
        let mut out: Vec<u8> = Vec::new();
        let mut done: usize = 0;
        proof {
            lemma_shake256_len(old(self).input(), start);
            assert(Seq::<u8>::empty() =~= shake256(old(self).input(), start).skip(start as int));
        }
        while done < n
            invariant
                done <= n,
                out@.len() == done,
                self.wf(),
                !self.in_absorb_phase(),
                self.input() == old(self).input(),
                self.offset() == start + done,
                out@ == shake256(self.input(), (start + done) as nat).skip(start as int),
                n == 0 ==> *self == *old(self),
            decreases n - done,
        {
            if self.cursor == RATE {
                keccak_permute(&mut self.state);
                self.cursor = 0;
                proof {
                    self.perms@ = self.perms@ + 1;
                    assert((RATE as nat) * self.perms@ == (RATE as nat) * (self.perms@ - 1)
                        + RATE);
                }
            }
            let j = self.cursor;
            let sh: u64 = 8 * ((j as u64) % 8);
            let lane = self.state[j / 8];
            let b = (lane >> sh) as u8;
            proof {
                assert(sh == (8 * ((j as int) % 8)) as u64);
                assert(b == state_bytes(self.state@)[j as int]);
                lemma_xof_next(self.input(), self.perms@, j as nat);
                lemma_shake256_len(self.input(), (start + done) as nat);
                assert(shake256(self.input(), (start + done + 1) as nat).skip(start as int) =~= out@
                    + seq![b]);
            }
            out.push(b);
            self.cursor = j + 1;
            done += 1;
        }
        out
    }
}

/// SHAKE256 of `data` in one call: absorb everything, finalize, and squeeze
/// `out_len` bytes.
pub fn shake256_hash(data: &Vec<u8>, out_len: usize) -> (r: Vec<u8>)
    ensures
        r@.len() == out_len,
        r@ == shake256(data@, out_len as nat),
{
    let mut e = Shake256::new();
    e.update(data.as_slice());
    e.finalize_xof();
    let out = e.read(out_len);
    proof {
        assert(Seq::<u8>::empty() + data@ =~= data@);
        lemma_shake256_len(data@, out_len as nat);
        assert(shake256(data@, out_len as nat).skip(0) =~= shake256(data@, out_len as nat));
    }
    out
}

/// The squeezed stream has exactly the requested number of bytes.
pub(crate) proof fn lemma_squeeze_at_len(s: Seq<u64>, c: nat, n: nat)
    ensures
        squeeze_at(s, c, n).len() == n,
    decreases n, c,
{
    if n <= RATE - c {
    } else if c < RATE {
        lemma_squeeze_at_len(keccak_f(s), 0, (n - (RATE - c)) as nat);
    } else {
        lemma_squeeze_at_len(keccak_f(s), 0, n);
    }
}

/// The output stream has exactly the requested length.
pub proof fn lemma_shake256_len(input: Seq<u8>, n: nat)
    ensures
        shake256(input, n).len() == n,
{
    lemma_squeeze_at_len(absorbed_state(input), 0, n);
}

/// A shorter squeeze is a prefix of any longer one from the same point.
pub(crate) proof fn lemma_squeeze_at_prefix(s: Seq<u64>, c: nat, m: nat, n: nat)
    requires
        m <= n,
    ensures
        squeeze_at(s, c, m) == squeeze_at(s, c, n).take(m as int),
    decreases n, c,
{
    lemma_squeeze_at_len(s, c, n);
    if n <= RATE - c {
        assert(squeeze_at(s, c, m) =~= squeeze_at(s, c, n).take(m as int));
    } else if c < RATE {
        let avail = (RATE - c) as nat;
        if m <= avail {
            assert(squeeze_at(s, c, m) =~= squeeze_at(s, c, n).take(m as int));
        } else {
            lemma_squeeze_at_prefix(keccak_f(s), 0, (m - avail) as nat, (n - avail) as nat);
            lemma_squeeze_at_len(keccak_f(s), 0, (m - avail) as nat);
            lemma_squeeze_at_len(keccak_f(s), 0, (n - avail) as nat);
            assert(squeeze_at(s, c, m) =~= squeeze_at(s, c, n).take(m as int));
        }
    } else {
        lemma_squeeze_at_prefix(keccak_f(s), 0, m, n);
        lemma_squeeze_at_len(keccak_f(s), 0, m);
        assert(squeeze_at(s, c, m) =~= squeeze_at(s, c, n).take(m as int));
    }
}

/// Squeezing from cursor `c` yields the tail of a squeeze from cursor 0.
pub(crate) proof fn lemma_squeeze_at_cursor(s: Seq<u64>, c: nat, n: nat)
    requires
        c <= RATE,
    ensures
        squeeze_at(s, c, n) == squeeze_at(s, 0, (c + n) as nat).skip(c as int),
{
    lemma_squeeze_at_len(s, 0, (c + n) as nat);
    if c + n <= RATE {
        assert(squeeze_at(s, c, n) =~= squeeze_at(s, 0, (c + n) as nat).skip(c as int));
    } else if c < RATE {
        lemma_squeeze_at_len(keccak_f(s), 0, ((c + n) - RATE) as nat);
        assert((n - (RATE - c)) as nat == ((c + n) - RATE) as nat);
        assert(squeeze_at(s, c, n) =~= squeeze_at(s, 0, (c + n) as nat).skip(c as int));
    } else {
        lemma_squeeze_at_len(keccak_f(s), 0, n);
        assert(squeeze_at(s, c, n) == squeeze_at(keccak_f(s), 0, n));
        assert(squeeze_at(s, c, n) =~= squeeze_at(s, 0, (c + n) as nat).skip(c as int));
    }
}

/// Squeezing after `p` extra permutations yields the stream at offset
/// `RATE * p`.
pub(crate) proof fn lemma_squeeze_state_shift(input: Seq<u8>, p: nat, n: nat)
    ensures
        squeeze_at(squeeze_state(input, p), 0, n) == shake256(
            input,
            ((RATE as nat) * p + n) as nat,
        ).skip((RATE as int) * (p as int)),
    decreases p,
{
    lemma_shake256_len(input, ((RATE as nat) * p + n) as nat);
    if p == 0 {
        assert(squeeze_at(squeeze_state(input, 0), 0, n) =~= shake256(input, n).skip(0));
    } else {
        let prev = squeeze_state(input, (p - 1) as nat);
        lemma_squeeze_state_shift(input, (p - 1) as nat, (RATE + n) as nat);
        lemma_squeeze_at_len(prev, 0, (RATE + n) as nat);
        lemma_squeeze_at_len(squeeze_state(input, p), 0, n);
        if n == 0 {
            assert(squeeze_at(squeeze_state(input, p), 0, 0) =~= shake256(
                input,
                ((RATE as nat) * p) as nat,
            ).skip((RATE as int) * (p as int)));
        } else {
            assert(squeeze_at(prev, 0, (RATE + n) as nat) == state_bytes(prev).subrange(
                0,
                RATE as int,
            ) + squeeze_at(keccak_f(prev), 0, n));
            assert(keccak_f(prev) == squeeze_state(input, p));
            assert(squeeze_at(squeeze_state(input, p), 0, n) =~= squeeze_at(
                prev,
                0,
                (RATE + n) as nat,
            ).skip(RATE as int));
            assert((RATE as nat) * ((p - 1) as nat) + (RATE + n) == (RATE as nat) * p + n);
            assert(squeeze_at(prev, 0, (RATE + n) as nat).skip(RATE as int) =~= shake256(
                input,
                ((RATE as nat) * p + n) as nat,
            ).skip((RATE as int) * (p as int)));
        }
    }
}

/// The bytes squeezed from permutation count `p` and cursor `c` are the
/// output stream's bytes at offset `RATE * p + c`.
pub(crate) proof fn lemma_xof_at(input: Seq<u8>, p: nat, c: nat, n: nat)
    requires
        c <= RATE,
    ensures
        squeeze_at(squeeze_state(input, p), c, n) == shake256(
            input,
            ((RATE as nat) * p + c + n) as nat,
        ).skip(((RATE as nat) * p + c) as int),
{
    lemma_squeeze_at_cursor(squeeze_state(input, p), c, n);
    lemma_squeeze_state_shift(input, p, (c + n) as nat);
    lemma_shake256_len(input, ((RATE as nat) * p + c + n) as nat);
    assert(shake256(input, ((RATE as nat) * p + c + n) as nat).skip(
        (RATE as int) * (p as int),
    ).skip(c as int) =~= shake256(input, ((RATE as nat) * p + c + n) as nat).skip(
        ((RATE as nat) * p + c) as int,
    ));
}

/// One more output byte extends the stream by exactly the state byte under
/// the cursor.
pub(crate) proof fn lemma_xof_next(input: Seq<u8>, p: nat, c: nat)
    requires
        c < RATE,
    ensures
        shake256(input, ((RATE as nat) * p + c + 1) as nat) == shake256(
            input,
            ((RATE as nat) * p + c) as nat,
        ) + seq![state_bytes(squeeze_state(input, p))[c as int]],
{
    let off = (RATE as nat) * p + c;
    lemma_shake256_len(input, (off + 1) as nat);
    lemma_shake256_len(input, off);
    lemma_squeeze_at_prefix(absorbed_state(input), 0, off, (off + 1) as nat);
    lemma_xof_at(input, p, c, 1);
    assert(squeeze_at(squeeze_state(input, p), c, 1) =~= seq![
        state_bytes(squeeze_state(input, p))[c as int],
    ]);
    assert(shake256(input, (off + 1) as nat) =~= shake256(input, off) + seq![
        state_bytes(squeeze_state(input, p))[c as int],
    ]);
}

} // verus!
