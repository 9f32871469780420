//! Bit-granular CRC-8 with polynomial 0x1D, used to validate frame integrity.
//!
//! The checksum covers a byte range extended to an arbitrary *bit* length:
//! full bytes are folded 8 bits at a time, and a trailing partial byte is
//! folded one bit at a time over its used high bits only.

use vstd::prelude::*;

verus! {

/// The CRC-8 generator polynomial (x^8 + x^4 + x^3 + x^2 + 1, top term implicit).
pub const CRC_POLY: u8 = 0x1D;

/// One step of polynomial division: shift the register left by one bit and
/// fold the generator back in when a one falls out.
pub open spec fn crc_step(crc: u8) -> u8 {
    if crc & 0x80 != 0 {
        (crc << 1) ^ CRC_POLY
    } else {
        crc << 1
    }
}

/// `n` polynomial-division steps applied to the register.
pub open spec fn crc_steps(crc: u8, n: nat) -> u8
    decreases n,
{
    if n == 0 {
        crc
    } else {
        crc_step(crc_steps(crc, (n - 1) as nat))
    }
}

/// Fold one whole byte into the register.
pub open spec fn crc_fold_byte(crc: u8, b: u8) -> u8 {
    crc_steps(crc ^ b, 8)
}

/// Fold a sequence of whole bytes into the register, first byte first.
pub open spec fn crc_fold_bytes(crc: u8, data: Seq<u8>) -> u8
    decreases data.len(),
{
    if data.len() == 0 {
        crc
    } else {
        crc_fold_byte(crc_fold_bytes(crc, data.drop_last()), data.last())
    }
}

/// CRC-8 over the first `bits` bits of `data` (MSB-first), started from `init`:
/// whole bytes are folded, then the used high bits of the trailing partial byte.
pub open spec fn spec_crc8(init: u8, data: Seq<u8>, bits: nat) -> u8
    recommends
        bits <= data.len() * 8,
{
    let crc = crc_fold_bytes(init, data.take((bits / 8) as int));
    let tail = bits % 8;
    if tail == 0 {
        crc
    } else {
        crc_steps(crc ^ (data[(bits / 8) as int] & ((0xFFu8 << (8 - tail) as u8) as u8)), tail)
    }
}

/// One polynomial-division step of the CRC register.
fn crc_shift(crc: u8) -> (result: u8)
    ensures
        result == crc_step(crc),
{
    if crc & 0x80 != 0 {
        (crc << 1u8) ^ CRC_POLY
    } else {
        crc << 1u8
    }
}

/// Fold `n` bits (1 to 8) of the register.
fn crc_run_steps(crc: u8, n: usize) -> (result: u8)
    requires
        n <= 8,
    ensures
        result == crc_steps(crc, n as nat),
{
    let mut acc = crc;
    let mut i: usize = 0;
    while i < n
        invariant
            i <= n,
            acc == crc_steps(crc, i as nat),
        decreases n - i,
    {
        acc = crc_shift(acc);
        i = i + 1;
    }
    acc
}

/// CRC-8 with polynomial 0x1D over the first `bits` bits of `data`, MSB-first,
/// starting from the register value `init`.
pub fn crc8(init: u8, data: &[u8], bits: usize) -> (result: u8)
    requires
        bits <= data@.len() * 8,
    ensures
        result == spec_crc8(init, data@, bits as nat),
{
    let mut crc = init;
    let full: usize = bits / 8;
    let mut i: usize = 0;
    while i < full
        invariant
            i <= full,
            full <= data@.len(),
            crc == crc_fold_bytes(init, data@.take(i as int)),
        decreases full - i,
    {
        let ghost pre = data@.take(i as int);
        let b = data[i];
        crc = crc_run_steps(crc ^ b, 8);
        i = i + 1;
        proof {
            assert(data@.take(i as int).drop_last() =~= pre);
            assert(data@.take(i as int).last() == b);
        }
    }
    let tail = bits % 8;
    if tail != 0 {
        let masked = data[full] & (0xFF << (8 - tail));
        crc = crc_run_steps(crc ^ masked, tail);
    }
    crc
}


proof fn lemma_step_linear(a: u8, b: u8)
    by (bit_vector)
    ensures
        crc_step(a ^ b) == crc_step(a) ^ crc_step(b),
{
}

proof fn lemma_step_nonzero(a: u8)
    by (bit_vector)
    requires
        a != 0,
    ensures
        crc_step(a) != 0,
{
}

proof fn lemma_xor_facts(x: u8, y: u8, m: u8)
    by (bit_vector)
    ensures
        x ^ x == 0,
        x ^ (x ^ m) == m,
        (x ^ y) & m == (x & m) ^ (y & m),
        x ^ 0 == x,
        (x ^ y == 0) == (x == y),
{
}

/// Polynomial division is linear: the steps of a sum are the sum of the steps.
proof fn lemma_steps_linear(a: u8, b: u8, n: nat)
    ensures
        crc_steps(a ^ b, n) == crc_steps(a, n) ^ crc_steps(b, n),
    decreases n,
{
    if n > 0 {
        lemma_steps_linear(a, b, (n - 1) as nat);
        lemma_step_linear(crc_steps(a, (n - 1) as nat), crc_steps(b, (n - 1) as nat));
    }
}

/// A nonzero register stays nonzero under polynomial division: the
/// generator has a nonzero constant term, so no step can cancel it.
proof fn lemma_steps_nonzero(a: u8, n: nat)
    requires
        a != 0,
    ensures
        crc_steps(a, n) != 0,
    decreases n,
{
    if n > 0 {
        lemma_steps_nonzero(a, (n - 1) as nat);
        lemma_step_nonzero(crc_steps(a, (n - 1) as nat));
    }
}

/// A zero register stays zero.
proof fn lemma_steps_zero(n: nat)
    ensures
        crc_steps(0, n) == 0,
    decreases n,
{
    if n > 0 {
        lemma_steps_zero((n - 1) as nat);
        lemma_step_linear(0, 0);
        lemma_xor_facts(crc_step(0), 0, 0);
        assert(crc_step(0u8 ^ 0u8) == crc_step(0) ^ crc_step(0));
        assert(0u8 ^ 0u8 == 0) by (bit_vector);
    }
}

/// The bytewise fold is jointly linear in the register and the data.
proof fn lemma_fold_bytes_linear(c1: u8, c2: u8, s1: Seq<u8>, s2: Seq<u8>)
    requires
        s1.len() == s2.len(),
    ensures
        crc_fold_bytes(c1 ^ c2, Seq::new(s1.len(), |i: int| s1[i] ^ s2[i])) == crc_fold_bytes(
            c1,
            s1,
        ) ^ crc_fold_bytes(c2, s2),
    decreases s1.len(),
{
    let x = Seq::new(s1.len(), |i: int| s1[i] ^ s2[i]);
    if s1.len() == 0 {
    } else {
        lemma_fold_bytes_linear(c1, c2, s1.drop_last(), s2.drop_last());
        assert(x.drop_last() =~= Seq::new(
            s1.drop_last().len(),
            |i: int| s1.drop_last()[i] ^ s2.drop_last()[i],
        ));
        let f1 = crc_fold_bytes(c1, s1.drop_last());
        let f2 = crc_fold_bytes(c2, s2.drop_last());
        let l1 = s1.last();
        let l2 = s2.last();
        assert((f1 ^ f2) ^ (l1 ^ l2) == (f1 ^ l1) ^ (f2 ^ l2)) by (bit_vector);
        lemma_steps_linear(f1 ^ l1, f2 ^ l2, 8);
    }
}

/// Folding zero bytes into a zero register leaves it zero.
proof fn lemma_fold_zeros(s: Seq<u8>)
    requires
        forall|i: int| 0 <= i < s.len() ==> #[trigger] s[i] == 0,
    ensures
        crc_fold_bytes(0, s) == 0,
    decreases s.len(),
{
    if s.len() > 0 {
        lemma_fold_zeros(s.drop_last());
        assert(0u8 ^ 0u8 == 0) by (bit_vector);
        lemma_steps_zero(8);
    }
}

/// Folding zero bytes into a nonzero register keeps it nonzero.
proof fn lemma_fold_zeros_nonzero(c: u8, s: Seq<u8>)
    requires
        c != 0,
        forall|i: int| 0 <= i < s.len() ==> #[trigger] s[i] == 0,
    ensures
        crc_fold_bytes(c, s) != 0,
    decreases s.len(),
{
    if s.len() > 0 {
        lemma_fold_zeros_nonzero(c, s.drop_last());
        let f = crc_fold_bytes(c, s.drop_last());
        lemma_xor_facts(f, 0, 0);
        lemma_steps_nonzero(f, 8);
    }
}

/// The fold of a concatenation is the fold of the second part from the
/// fold of the first.
proof fn lemma_fold_split(c: u8, s1: Seq<u8>, s2: Seq<u8>)
    ensures
        crc_fold_bytes(c, s1 + s2) == crc_fold_bytes(crc_fold_bytes(c, s1), s2),
    decreases s2.len(),
{
    if s2.len() == 0 {
        assert(s1 + s2 =~= s1);
    } else {
        lemma_fold_split(c, s1, s2.drop_last());
        assert((s1 + s2).drop_last() =~= s1 + s2.drop_last());
        assert((s1 + s2).last() == s2.last());
    }
}

/// The checksum of a lone single-bit error pattern is never zero.
proof fn lemma_delta_crc_nonzero(delta: Seq<u8>, bits: nat, j: nat)
    requires
        j < bits,
        bits <= delta.len() * 8,
        forall|i: int|
            0 <= i < delta.len() && i != j / 8 ==> #[trigger] delta[i] == 0,
        delta[(j / 8) as int] == (0x80u8 >> ((j % 8) as u8)),
    ensures
        spec_crc8(0, delta, bits) != 0,
{
    let full = (bits / 8) as int;
    let fb = (j / 8) as int;
    let mask = (0x80u8 >> ((j % 8) as u8));
    let tail = bits % 8;
    let r = (j % 8) as u8;
    let t = tail as u8;
    let s8 = (8 - tail) as u8;
    let hm = ((0xFFu8 << (8 - tail) as u8) as u8);
    assert(mask != 0) by (bit_vector)
        requires
            mask == (0x80u8 >> r),
            r < 8,
    ;
    vstd::arithmetic::div_mod::lemma_fundamental_div_mod(bits as int, 8);
    vstd::arithmetic::div_mod::lemma_fundamental_div_mod(j as int, 8);
    vstd::arithmetic::div_mod::lemma_mod_bound(j as int, 8);
    vstd::arithmetic::div_mod::lemma_mod_bound(bits as int, 8);
    assert(fb <= full);
    if fb < full {
        // The flipped bit lies in a fully folded byte.
        let pre = delta.take(full).take(fb);
        let at = delta.take(full).take(fb + 1);
        assert(forall|i: int| 0 <= i < pre.len() ==> #[trigger] pre[i] == 0);
        lemma_fold_zeros(pre);
        assert(at.drop_last() =~= pre);
        assert(at.last() == mask);
        assert(0u8 ^ mask == mask) by (bit_vector);
        lemma_steps_nonzero(mask, 8);
        assert(crc_fold_bytes(0, at) == crc_steps(mask, 8));
        let rest = delta.take(full).skip(fb + 1);
        assert(forall|i: int| 0 <= i < rest.len() ==> #[trigger] rest[i] == 0);
        assert(at + rest =~= delta.take(full));
        lemma_fold_split(0, at, rest);
        lemma_fold_zeros_nonzero(crc_fold_bytes(0, at), rest);
        let c = crc_fold_bytes(0, delta.take(full));
        assert(c != 0);
        if tail == 0 {
        } else {
            assert(delta[full] == 0);
            assert(c ^ (0u8 & hm) == c) by (bit_vector);
            lemma_steps_nonzero(c, tail);
        }
    } else {
        // The flipped bit lies among the used high bits of the tail byte.
        assert(tail != 0);
        assert(j % 8 < tail);
        let pre = delta.take(full);
        assert(forall|i: int| 0 <= i < pre.len() ==> #[trigger] pre[i] == 0);
        lemma_fold_zeros(pre);
        assert(delta[full] == mask);
        assert(0u8 ^ (mask & hm) == mask) by (bit_vector)
            requires
                mask == (0x80u8 >> r),
                hm == (0xFFu8 << s8),
                s8 == 8 - t,
                r < t,
                t < 8,
        ;
        lemma_steps_nonzero(mask, tail);
    }
}

/// The whole checksum is jointly linear in its seed and data.
proof fn lemma_crc8_linear(i1: u8, i2: u8, d1: Seq<u8>, d2: Seq<u8>, bits: nat)
    requires
        d1.len() == d2.len(),
        bits <= d1.len() * 8,
    ensures
        spec_crc8(i1 ^ i2, Seq::new(d1.len(), |i: int| d1[i] ^ d2[i]), bits) == spec_crc8(
            i1,
            d1,
            bits,
        ) ^ spec_crc8(i2, d2, bits),
{
    let x = Seq::new(d1.len(), |i: int| d1[i] ^ d2[i]);
    let full = (bits / 8) as int;
    vstd::arithmetic::div_mod::lemma_fundamental_div_mod(bits as int, 8);
    vstd::arithmetic::div_mod::lemma_mod_bound(bits as int, 8);
    assert(x.take(full) =~= Seq::new(
        d1.take(full).len(),
        |i: int| d1.take(full)[i] ^ d2.take(full)[i],
    ));
    lemma_fold_bytes_linear(i1, i2, d1.take(full), d2.take(full));
    let c1 = crc_fold_bytes(i1, d1.take(full));
    let c2 = crc_fold_bytes(i2, d2.take(full));
    let tail = bits % 8;
    if tail != 0 {
        let m = ((0xFFu8 << (8 - tail) as u8) as u8);
        let b1 = d1[full];
        let b2 = d2[full];
        assert((c1 ^ c2) ^ ((b1 ^ b2) & m) == (c1 ^ (b1 & m)) ^ (c2 ^ (b2 & m))) by (bit_vector);
        lemma_steps_linear(c1 ^ (b1 & m), c2 ^ (b2 & m), tail);
    }
}

/// Corrupting any single bit within the checksummed range changes the
/// checksum: a single-bit error is always detected.
pub proof fn lemma_crc8_single_bit_flip(init: u8, data: Seq<u8>, bits: nat, j: nat)
    requires
        j < bits,
        bits <= data.len() * 8,
    ensures
        spec_crc8(
            init,
            data.update((j / 8) as int, data[(j / 8) as int] ^ (0x80u8 >> ((j % 8) as u8))),
            bits,
        ) != spec_crc8(init, data, bits),
{
    let fb = (j / 8) as int;
    let mask = (0x80u8 >> ((j % 8) as u8));
    let d2 = data.update(fb, data[fb] ^ mask);
    vstd::arithmetic::div_mod::lemma_fundamental_div_mod(j as int, 8);
    vstd::arithmetic::div_mod::lemma_mod_bound(j as int, 8);
    vstd::arithmetic::div_mod::lemma_fundamental_div_mod(bits as int, 8);
    vstd::arithmetic::div_mod::lemma_mod_bound(bits as int, 8);
    assert(0 <= fb < data.len());
    let delta = Seq::new(data.len(), |i: int| data[i] ^ d2[i]);
    assert forall|i: int| 0 <= i < delta.len() && i != fb implies #[trigger] delta[i] == 0 by {
        lemma_xor_facts(data[i], 0, 0);
    }
    assert(delta[fb] == mask) by {
        lemma_xor_facts(data[fb], 0, mask);
    }
    lemma_crc8_linear(init, init, data, d2, bits);
    lemma_xor_facts(init, 0, 0);
    lemma_delta_crc_nonzero(delta, bits, j);
    let a = spec_crc8(init, data, bits);
    let b = spec_crc8(init, d2, bits);
    assert(spec_crc8(init ^ init, delta, bits) == a ^ b);
    assert(init ^ init == 0) by (bit_vector);
    lemma_xor_facts(a, b, 0);
    assert((a ^ b == 0) == (a == b)) by (bit_vector);
}


/// Distinct register states stay distinct through any shared remainder of
/// the message: folding the same bits never merges two different
/// checksums.  With the single-bit lemma above, a bit flip early in the
/// checksummed region still changes the final frame checksum after the
/// rest of the side information is folded in.
pub proof fn lemma_crc8_register_injective(i1: u8, i2: u8, data: Seq<u8>, bits: nat)
    requires
        i1 != i2,
        bits <= data.len() * 8,
    ensures
        spec_crc8(i1, data, bits) != spec_crc8(i2, data, bits),
{
    lemma_crc8_linear(i1, i2, data, data, bits);
    let x = Seq::new(data.len(), |i: int| data[i] ^ data[i]);
    assert forall|i: int| 0 <= i < x.len() implies #[trigger] x[i] == 0 by {
        lemma_xor_facts(data[i], 0, 0);
    }
    let full = (bits / 8) as int;
    vstd::arithmetic::div_mod::lemma_fundamental_div_mod(bits as int, 8);
    vstd::arithmetic::div_mod::lemma_mod_bound(bits as int, 8);
    let d = (i1 ^ i2);
    assert(d != 0) by (bit_vector)
        requires
            d == i1 ^ i2,
            i1 != i2,
    ;
    lemma_fold_zeros_nonzero(d, x.take(full));
    let c = crc_fold_bytes(d, x.take(full));
    let tail = bits % 8;
    if tail != 0 {
        let hm = ((0xFFu8 << (8 - tail) as u8) as u8);
        assert(c ^ (0u8 & hm) == c) by (bit_vector);
        lemma_steps_nonzero(c, tail);
    }
    let a = spec_crc8(i1, data, bits);
    let b = spec_crc8(i2, data, bits);
    assert(spec_crc8(i1 ^ i2, x, bits) == a ^ b);
    assert((a ^ b == 0) == (a == b)) by (bit_vector);
}

} // verus!
