//! Byte sources and sinks, and the MSB-first bit reader layered on a source.
//!
//! A byte source hands out exactly the requested bytes or fails without
//! consuming anything; a byte sink accepts bytes up to its room and silently
//! truncates the rest.  The bit reader consumes 0 to 16 bits at a time,
//! MSB-first across byte boundaries, with one byte of look-ahead buffering.

use vstd::prelude::*;

use vstd::arithmetic::power2::pow2;

verus! {

/// The error a byte source or sink reports: underflow or overflow.
pub type ByteError = ();

/// A pull byte source.  `remaining()` is the sequence of bytes it can still
/// produce; a read consumes exactly the requested prefix or fails without
/// consuming anything.
pub trait ByteInput: Sized {
    spec fn remaining(&self) -> Seq<u8>;

    /// Read exactly `n` bytes, or fail (leaving the source unchanged) when
    /// fewer than `n` remain.
    fn read(&mut self, n: usize) -> (result: Result<Vec<u8>, ByteError>)
        ensures
            result is Ok <==> n <= old(self).remaining().len(),
            result matches Ok(v) ==> v@ == old(self).remaining().take(n as int)
                && final(self).remaining() == old(self).remaining().skip(n as int),
            result is Err ==> final(self).remaining() == old(self).remaining(),
    ;

    /// Read a single byte, or fail (leaving the source unchanged) when none remain.
    fn read_u8(&mut self) -> (result: Result<u8, ByteError>)
        ensures
            result is Ok <==> old(self).remaining().len() >= 1,
            result matches Ok(b) ==> old(self).remaining().len() >= 1
                && b == old(self).remaining()[0]
                && final(self).remaining() == old(self).remaining().skip(1),
            result is Err ==> final(self).remaining() == old(self).remaining(),
    ;
}

/// A push byte sink with limited room.  `written()` is the sequence of bytes
/// accepted so far; a write appends as much of the data as the room allows
/// and silently drops the rest.
pub trait ByteOutput: Sized {
    spec fn written(&self) -> Seq<u8>;

    spec fn room(&self) -> nat;

    /// Write `data`, truncating silently if the sink has insufficient room.
    fn write(&mut self, data: &[u8]) -> (result: Result<(), ByteError>)
        ensures
            result is Ok ==> final(self).written() == old(self).written() + data@.take(
                vstd::math::min(data@.len() as int, old(self).room() as int),
            ) && final(self).room() == old(self).room() - vstd::math::min(
                data@.len() as int,
                old(self).room() as int,
            ),
            result is Err ==> final(self).written() == old(self).written() && final(self).room()
                == old(self).room(),
    ;
}

/// A byte source over an owned buffer: hands out `data[pos..]`.
pub struct ByteCursor {
    data: Vec<u8>,
    pos: usize,
}

impl ByteCursor {
    /// The bytes not yet consumed.
    pub closed spec fn spec_remaining(&self) -> Seq<u8> {
        if self.pos <= self.data@.len() {
            self.data@.skip(self.pos as int)
        } else {
            Seq::empty()
        }
    }

    /// Wrap a buffer as a byte source positioned at its start.
    pub fn new(data: Vec<u8>) -> (result: ByteCursor)
        ensures
            result.remaining() == data@,
    {
        let ghost d = data@;
        let c = ByteCursor { data, pos: 0 };
        proof {
            assert(c.spec_remaining() =~= d);
        }
        c
    }
}

impl ByteInput for ByteCursor {
    closed spec fn remaining(&self) -> Seq<u8> {
        self.spec_remaining()
    }

    fn read(&mut self, n: usize) -> (result: Result<Vec<u8>, ByteError>) {
        if n == 0 {
            proof {
                assert(self.remaining().take(0) =~= Seq::<u8>::empty());
                assert(self.remaining().skip(0) =~= self.remaining());
            }
            return Ok(Vec::new());
        }
        if self.pos > self.data.len() || n > self.data.len() - self.pos {
            assert(n > self.remaining().len());
            return Err(());
        }
        let start = self.pos;
        let len = self.data.len();
        let mut v: Vec<u8> = Vec::new();
        let mut i: usize = 0;
        while i < n
            invariant
                i <= n,
                start + n <= len,
                len == self.data@.len(),
                start == self.pos,
                v@ =~= self.data@.subrange(start as int, start + i as int),
            decreases n - i,
        {
            v.push(self.data[start + i]);
            i = i + 1;
        }
        self.pos = self.pos + n;
        proof {
            assert(v@ =~= old(self).remaining().take(n as int));
            assert(self.remaining() =~= old(self).remaining().skip(n as int));
        }
        Ok(v)
    }

    fn read_u8(&mut self) -> (result: Result<u8, ByteError>) {
        if self.pos >= self.data.len() {
            assert(self.remaining().len() == 0);
            return Err(());
        }
        let b = self.data[self.pos];
        self.pos = self.pos + 1;
        proof {
            assert(self.remaining() =~= old(self).remaining().skip(1));
        }
        Ok(b)
    }
}

/// A byte sink over a growable buffer with fixed room: accepts bytes until
/// the room is exhausted and silently drops the rest.
pub struct ByteSink {
    data: Vec<u8>,
    left: usize,
}

impl ByteSink {
    /// An empty sink with room for `room` bytes.
    pub fn new(room: usize) -> (result: ByteSink)
        ensures
            result.written() == Seq::<u8>::empty(),
            result.room() == room,
    {
        ByteSink { data: Vec::new(), left: room }
    }

    /// The bytes the sink has accepted, in order.
    pub fn into_bytes(self) -> (result: Vec<u8>)
        ensures
            result@ == self.written(),
    {
        self.data
    }
}

impl ByteOutput for ByteSink {
    closed spec fn written(&self) -> Seq<u8> {
        self.data@
    }

    closed spec fn room(&self) -> nat {
        self.left as nat
    }

    fn write(&mut self, data: &[u8]) -> (result: Result<(), ByteError>)
        // Truncation is silent and non-fatal: this sink always succeeds.
        ensures
            result is Ok,
    {
        let n = if data.len() < self.left {
            data.len()
        } else {
            self.left
        };
        let mut i: usize = 0;
        while i < n
            invariant
                i <= n,
                n <= data@.len(),
                self.data@ =~= old(self).data@ + data@.take(i as int),
                self.left == old(self).left,
            decreases n - i,
        {
            let b = *vstd::slice::slice_index_get(data, i);
            self.data.push(b);
            i = i + 1;
        }
        self.left = self.left - n;
        proof {
            assert(self.written() =~= old(self).written() + data@.take(
                vstd::math::min(data@.len() as int, old(self).room() as int),
            ));
        }
        Ok(())
    }
}

/// An MSB-first bit reader over a byte source: `b` is the look-ahead byte,
/// of which the low `o` bits have not yet been consumed.
pub struct BitInput {
    pub b: u8,
    pub o: usize,
}

impl BitInput {
    /// The reader never holds more than seven unconsumed bits.
    pub open spec fn wf(self) -> bool {
        self.o < 8
    }

    /// The value of the unconsumed buffered bits (the low `o` bits of `b`).
    pub open spec fn buffered(self) -> nat {
        (self.b as nat) % pow2(self.o as nat)
    }

    /// The number of bits the reader can still produce from `rem`.
    pub open spec fn avail(self, rem: Seq<u8>) -> nat {
        self.o as nat + 8 * rem.len()
    }

    /// A fresh reader with an empty buffer.
    pub fn new() -> (result: BitInput)
        ensures
            result.wf(),
            result == (BitInput { b: 0, o: 0 }),
            result.buffered() == 0,
    {
        proof {
            vstd::arithmetic::power2::lemma2_to64();
        }
        BitInput { b: 0, o: 0 }
    }
}

/// Result and next state of reading the next `n` bits (MSB-first) from the
/// reader state `bi` over the bytes `rem`: the bits read as a number, the
/// new reader state, and the bytes left; `None` when fewer than `n` bits
/// remain.  Defined for `n` up to `bi.o + 16`.
pub open spec fn spec_read_bits(bi: BitInput, rem: Seq<u8>, n: nat) -> Option<
    (nat, BitInput, Seq<u8>),
>
    recommends
        bi.wf(),
{
    if n <= bi.o {
        Some(
            (
                bi.buffered() / pow2((bi.o - n) as nat),
                BitInput { b: bi.b, o: (bi.o - n) as usize },
                rem,
            ),
        )
    } else if n <= bi.o + 8 {
        if rem.len() >= 1 {
            Some(
                (
                    bi.buffered() * pow2((n - bi.o) as nat) + (rem[0] as nat) / pow2(
                        (8 - (n - bi.o)) as nat,
                    ),
                    BitInput { b: rem[0], o: (bi.o + 8 - n) as usize },
                    rem.skip(1),
                ),
            )
        } else {
            None
        }
    } else if n <= bi.o + 16 {
        if rem.len() >= 2 {
            Some(
                (
                    bi.buffered() * pow2((n - bi.o) as nat) + (rem[0] as nat) * pow2(
                        (n - bi.o - 8) as nat,
                    ) + (rem[1] as nat) / pow2((16 - (n - bi.o)) as nat),
                    BitInput { b: rem[1], o: (bi.o + 16 - n) as usize },
                    rem.skip(2),
                ),
            )
        } else {
            None
        }
    } else {
        None
    }
}

proof fn lemma_read8_within_buffer(b: u8, o: usize, n: usize, s: usize)
    by (bit_vector)
    requires
        o < 8,
        1 <= n <= o,
        s == o - n,
    ensures
        ((b >> s) & (0xFFu8 >> ((8 - n) as usize))) == (b % (1u8 << o)) / (1u8 << s),
        ((b >> s) & (0xFFu8 >> ((8 - n) as usize))) < (1u8 << n),
{
}

proof fn lemma_read8_across_byte(b: u8, b2: u8, o: usize, n: usize, s: usize)
    by (bit_vector)
    requires
        o < 8,
        o < n,
        n <= 8,
        s == o + 8 - n,
    ensures
        ((((b as u16) << ((8 - s) as usize)) | ((b2 as u16) >> s)) & (0xFFu16 >> ((8 - n) as usize)))
            == ((b as u16) % (1u16 << o)) * (1u16 << ((n - o) as usize)) + (b2 as u16) / (1u16 << s),
        ((((b as u16) << ((8 - s) as usize)) | ((b2 as u16) >> s)) & (0xFFu16 >> ((8 - n) as usize)))
            < 256,
{
}

proof fn lemma_read16_within_buffer(b: u8, o: usize, n: usize, s: usize)
    by (bit_vector)
    requires
        o < 8,
        1 <= n <= o,
        s == o - n,
    ensures
        (((b as u16) >> s) & (0xFFFFu16 >> ((16 - n) as usize))) == ((b as u16) % (1u16 << o)) / (
        1u16 << s),
{
}

proof fn lemma_read16_one_byte(b: u8, b2: u8, o: usize, n: usize, s: usize)
    by (bit_vector)
    requires
        o < 8,
        o < n,
        n <= o + 8,
        n <= 16,
        s == o + 16 - n,
        8 <= s,
    ensures
        ((((b as u16) << ((16 - s) as usize)) | ((b2 as u16) >> ((s - 8) as usize))) & (0xFFFFu16
            >> ((16 - n) as usize))) == ((b as u16) % (1u16 << o)) * (1u16 << ((n - o) as usize))
            + (b2 as u16) / (1u16 << ((s - 8) as usize)),
{
}

proof fn lemma_read16_two_bytes(b: u8, d0: u8, d1: u8, o: usize, n: usize, s: usize)
    by (bit_vector)
    requires
        o < 8,
        o + 8 < n,
        n <= 16,
        s == o + 16 - n,
    ensures
        ((((b as u32) << ((16 - s) as usize)) | ((d0 as u32) << ((8 - s) as usize)) | ((d1 as u32)
            >> s)) & (0xFFFFu32 >> ((16 - n) as usize))) == ((b as u32) % (1u32 << o)) * (1u32 << ((
        n - o) as usize)) + (d0 as u32) * (1u32 << ((n - o - 8) as usize)) + (d1 as u32) / (1u32
            << s),
        ((((b as u32) << ((16 - s) as usize)) | ((d0 as u32) << ((8 - s) as usize)) | ((d1 as u32)
            >> s)) & (0xFFFFu32 >> ((16 - n) as usize))) < 65536,
{
}

proof fn lemma_pow2_shifts()
    ensures
        forall|k: nat| k < 8 ==> (1u8 << k) == pow2(k),
        forall|k: nat| k < 16 ==> (1u16 << k) == pow2(k),
        forall|k: nat| k < 32 ==> (1u32 << k) == pow2(k),
{
    assert forall|k: nat| k < 8 implies (1u8 << k) == pow2(k) by {
        vstd::arithmetic::power2::lemma_pow2_pos(k);
        vstd::arithmetic::power2::lemma2_to64();
        vstd::bits::lemma_u8_shl_is_mul(1u8, k as u8);
    }
    assert forall|k: nat| k < 16 implies (1u16 << k) == pow2(k) by {
        vstd::arithmetic::power2::lemma_pow2_pos(k);
        vstd::arithmetic::power2::lemma2_to64();
        vstd::bits::lemma_u16_shl_is_mul(1u16, k as u16);
    }
    assert forall|k: nat| k < 32 implies (1u32 << k) == pow2(k) by {
        vstd::arithmetic::power2::lemma_pow2_pos(k);
        vstd::arithmetic::power2::lemma2_to64();
        vstd::bits::lemma_u32_shl_is_mul(1u32, k as u32);
    }
}

impl BitInput {
    /// Read `n` bits (0 to 8), MSB-first, refilling the look-ahead byte from
    /// `input` when the buffered bits run out.  Zero-bit reads return 0
    /// without consuming anything; `n > 8` is rejected outright.
    pub fn read_u8<B: ByteInput>(&mut self, input: &mut B, n: usize) -> (result: Result<
        u8,
        ByteError,
    >)
        requires
            old(self).wf(),
        ensures
            final(self).wf(),
            n > 8 ==> result is Err && *final(self) == *old(self) && final(input).remaining() == old(input).remaining(),
            n <= 8 ==> match spec_read_bits(*old(self), old(input).remaining(), n as nat) {
                Some(t) => result matches Ok(r) && final(self).wf() && r as nat == t.0 && *final(self) == t.1 && final(input).remaining() == t.2,
                None => result is Err && final(input).remaining() == old(input).remaining(),
            },
            n <= 8 ==> (result is Ok <==> n as nat <= old(self).avail(old(input).remaining())),
    {
        proof {
            lemma_pow2_shifts();
            vstd::arithmetic::power2::lemma_pow2_pos((8 - n) as nat);
            vstd::arithmetic::power2::lemma_pow2_pos(self.o as nat);
        }
        if n > 8 {
            return Err(());
        }
        if n == 0 {
            proof {
                vstd::arithmetic::div_mod::lemma_mod_bound(
                    self.b as int,
                    pow2(self.o as nat) as int,
                );
                vstd::arithmetic::div_mod::lemma_basic_div(
                    self.buffered() as int,
                    pow2(self.o as nat) as int,
                );
            }
            return Ok(0);
        }
        let s = self.o + 8 - n;
        if s >= 8 {
            let sh = s - 8;
            proof {
                lemma_read8_within_buffer(self.b, self.o, n, sh);
            }
            self.o = sh;
            Ok((self.b >> sh) & (0xFF >> (8 - n)))
        } else {
            proof {
                lemma_read8_across_byte(
                    self.b,
                    old(input).remaining()[0],
                    self.o,
                    n,
                    s,
                );
            }
            self.o = s;
            let b = self.b;
            let b2 = match input.read_u8() {
                Ok(x) => x,
                Err(e) => {
                    return Err(e);
                },
            };
            self.b = b2;
            let wide = (((b as u16) << (8 - s)) | ((b2 as u16) >> s)) & (0xFFFF >> (16 - n));
            proof {
                assert((0xFFFFu16 >> ((16 - n) as usize)) & 0xFFu16 == (0xFFu16 >> ((8
                    - n) as usize)) && ((((b as u16) << ((8 - s) as usize)) | ((b2 as u16) >> s)) & (
                0xFFFFu16 >> ((16 - n) as usize))) == ((((b as u16) << ((8 - s) as usize)) | ((
                b2 as u16) >> s)) & (0xFFu16 >> ((8 - n) as usize)))) by (bit_vector)
                    requires
                        1 <= n <= 8,
                        s < 8,
                ;
            }
            Ok(wide as u8)
        }
    }

    /// Read `n` bits (0 to 16), MSB-first, refilling the look-ahead byte
    /// from `input` as needed.  Zero-bit reads return 0 without consuming
    /// anything; `n > 16` is rejected outright.
    pub fn read_u16<B: ByteInput>(&mut self, input: &mut B, n: usize) -> (result: Result<
        u16,
        ByteError,
    >)
        requires
            old(self).wf(),
        ensures
            final(self).wf(),
            n > 16 ==> result is Err && *final(self) == *old(self) && final(input).remaining()
                == old(input).remaining(),
            n <= 16 ==> match spec_read_bits(*old(self), old(input).remaining(), n as nat) {
                Some(t) => result matches Ok(r) && final(self).wf() && r as nat == t.0 && *final(self) == t.1 && final(input).remaining() == t.2,
                None => result is Err && final(input).remaining() == old(input).remaining(),
            },
            n <= 16 ==> (result is Ok <==> n as nat <= old(self).avail(old(input).remaining())),
    {
        proof {
            lemma_pow2_shifts();
            vstd::arithmetic::power2::lemma_pow2_pos(self.o as nat);
        }
        if n > 16 {
            return Err(());
        }
        if n == 0 {
            proof {
                vstd::arithmetic::div_mod::lemma_mod_bound(
                    self.b as int,
                    pow2(self.o as nat) as int,
                );
                vstd::arithmetic::div_mod::lemma_basic_div(
                    self.buffered() as int,
                    pow2(self.o as nat) as int,
                );
            }
            return Ok(0);
        }
        let s = self.o + 16 - n;
        if s >= 16 {
            let sh = s - 16;
            proof {
                lemma_read16_within_buffer(self.b, self.o, n, sh);
            }
            self.o = sh;
            Ok(((self.b as u16) >> sh) & (0xFFFF >> (16 - n)))
        } else if s >= 8 {
            proof {
                lemma_read16_one_byte(self.b, old(input).remaining()[0], self.o, n, s);
            }
            self.o = s - 8;
            let b = self.b;
            let b2 = match input.read_u8() {
                Ok(x) => x,
                Err(e) => {
                    return Err(e);
                },
            };
            self.b = b2;
            Ok((((b as u16) << (16 - s)) | ((b2 as u16) >> (s - 8))) & (0xFFFF >> (16 - n)))
        } else {
            proof {
                if old(input).remaining().len() >= 2 {
                    lemma_read16_two_bytes(
                        self.b,
                        old(input).remaining()[0],
                        old(input).remaining()[1],
                        self.o,
                        n,
                        s,
                    );
                }
            }
            self.o = s;
            let b = self.b;
            let d = match input.read(2) {
                Ok(v) => v,
                Err(e) => {
                    return Err(e);
                },
            };
            let d0 = d[0];
            let d1 = d[1];
            self.b = d1;
            let wide = (((b as u32) << (16 - s)) | ((d0 as u32) << (8 - s)) | ((d1 as u32) >> s))
                & (0xFFFF >> (16 - n));
            Ok(wide as u16)
        }
    }
}


/// A successful `n`-bit read yields a value below `2^n`.
pub proof fn lemma_read_bits_bound(bi: BitInput, rem: Seq<u8>, n: nat)
    requires
        bi.wf(),
    ensures
        spec_read_bits(bi, rem, n) matches Some(t) ==> t.0 < pow2(n),
{
    let o = bi.o as nat;
    vstd::arithmetic::power2::lemma_pow2_pos(o);
    vstd::arithmetic::div_mod::lemma_mod_bound(bi.b as int, pow2(o) as int);
    if n <= o {
        vstd::arithmetic::power2::lemma_pow2_pos((o - n) as nat);
        vstd::arithmetic::power2::lemma_pow2_adds(n, (o - n) as nat);
        vstd::arithmetic::power2::lemma_pow2_pos(n);
        vstd::arithmetic::div_mod::lemma_multiply_divide_lt(
            bi.buffered() as int,
            pow2((o - n) as nat) as int,
            pow2(n) as int,
        );
    } else if n <= o + 8 && rem.len() >= 1 {
        let k = (n - o) as nat;
        vstd::arithmetic::power2::lemma_pow2_pos(k);
        vstd::arithmetic::power2::lemma_pow2_pos((8 - k) as nat);
        vstd::arithmetic::power2::lemma_pow2_adds(o, k);
        vstd::arithmetic::power2::lemma_pow2_adds(k, (8 - k) as nat);
        assert(pow2(8) == 256) by {
            vstd::arithmetic::power2::lemma2_to64();
        }
        assert(pow2((8 - k) as nat) * pow2(k) == 256) by (nonlinear_arith)
            requires
                pow2(k) * pow2((8 - k) as nat) == pow2(8),
                pow2(8) == 256,
        ;
        assert((rem[0] as int) < pow2((8 - k) as nat) * pow2(k));
        vstd::arithmetic::div_mod::lemma_multiply_divide_lt(rem[0] as int, pow2((8 - k) as nat) as int, pow2(k) as int);
        assert(bi.buffered() * pow2(k) <= (pow2(o) - 1) * pow2(k)) by (nonlinear_arith)
            requires
                bi.buffered() <= pow2(o) - 1,
                pow2(k) > 0,
        ;
        assert((pow2(o) - 1) * pow2(k) == pow2(o) * pow2(k) - pow2(k)) by (nonlinear_arith);
    } else if n <= o + 16 && rem.len() >= 2 {
        let k = (n - o) as nat;
        vstd::arithmetic::power2::lemma_pow2_pos(k);
        vstd::arithmetic::power2::lemma_pow2_pos((k - 8) as nat);
        vstd::arithmetic::power2::lemma_pow2_pos((16 - k) as nat);
        vstd::arithmetic::power2::lemma_pow2_adds(o, k);
        vstd::arithmetic::power2::lemma_pow2_adds((k - 8) as nat, (16 - k) as nat);
        assert(pow2(8) == 256) by {
            vstd::arithmetic::power2::lemma2_to64();
        }
        assert(pow2((16 - k) as nat) * pow2((k - 8) as nat) == 256) by (nonlinear_arith)
            requires
                pow2((k - 8) as nat) * pow2((16 - k) as nat) == pow2(8),
                pow2(8) == 256,
        ;
        assert((rem[1] as int) < pow2((16 - k) as nat) * pow2((k - 8) as nat));
        vstd::arithmetic::div_mod::lemma_multiply_divide_lt(rem[1] as int, pow2((16 - k) as nat) as int, pow2((k - 8) as nat) as int);
        assert(bi.buffered() * pow2(k) <= (pow2(o) - 1) * pow2(k)) by (nonlinear_arith)
            requires
                bi.buffered() <= pow2(o) - 1,
                pow2(k) > 0,
        ;
        assert((pow2(o) - 1) * pow2(k) == pow2(o) * pow2(k) - pow2(k)) by (nonlinear_arith);
        assert((rem[0] as int) * pow2((k - 8) as nat) <= 255 * pow2((k - 8) as nat)) by (
        nonlinear_arith)
            requires
                rem[0] as int <= 255,
                pow2((k - 8) as nat) > 0,
        ;
        assert(256 * pow2((k - 8) as nat) == pow2(k)) by {
            vstd::arithmetic::power2::lemma_pow2_adds(8, (k - 8) as nat);
        }
        assert(255 * pow2((k - 8) as nat) == pow2(k) - pow2((k - 8) as nat)) by (nonlinear_arith)
            requires
                256 * pow2((k - 8) as nat) == pow2(k),
        ;
    }
}

} // verus!
