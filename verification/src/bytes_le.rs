//! Little-endian integer codecs and buffer splicing.
//!
//! Every integer on the wire is little-endian. The codecs here are
//! specified against `le_bytes` and `from_le`, mathematical views of
//! the encoding, and the two are proved inverse to each other.
use vstd::prelude::*;

verus! {

/// 256 to the power `n`.
pub open spec fn pow256(n: nat) -> nat
    decreases n,
{
    if n == 0 {
        1
    } else {
        256 * pow256((n - 1) as nat)
    }
}

/// The `n`-byte little-endian encoding of `v` (`v` taken modulo 256^n).
pub open spec fn le_bytes(v: nat, n: nat) -> Seq<u8> {
    Seq::new(n, |i: int| ((v / pow256(i as nat)) % 256) as u8)
}

/// The value a little-endian byte string stands for.
pub open spec fn from_le(s: Seq<u8>) -> nat
    decreases s.len(),
{
    if s.len() == 0 {
        0
    } else {
        (s[0] + 256 * from_le(s.drop_first())) as nat
    }
}

pub proof fn lemma_pow256_pos(n: nat)
    ensures
        pow256(n) >= 1,
    decreases n,
{
    if n > 0 {
        lemma_pow256_pos((n - 1) as nat);
    }
}

/// Dividing twice is dividing by the product: v / 256^(i+1) == (v / 256^i) / 256.
pub proof fn lemma_pow256_div(v: nat, i: nat)
    ensures
        v / pow256((i + 1) as nat) == (v / pow256(i)) / 256,
{
    lemma_pow256_pos(i);
    vstd::arithmetic::div_mod::lemma_div_denominator(v as int, pow256(i) as int, 256);
    assert(pow256((i + 1) as nat) == 256 * pow256(i));
}

/// Peeling one byte off the front of an encoding.
pub proof fn lemma_le_bytes_step(v: nat, n: nat)
    requires
        n >= 1,
    ensures
        le_bytes(v, n).drop_first() =~= le_bytes(v / 256, (n - 1) as nat),
        le_bytes(v, n)[0] == v % 256,
{
    assert forall|i: int| 0 <= i < n - 1 implies le_bytes(v, n).drop_first()[i] == le_bytes(
        v / 256,
        (n - 1) as nat,
    )[i] by {
        lemma_pow256_pos(i as nat);
        vstd::arithmetic::div_mod::lemma_div_denominator(v as int, 256, pow256(i as nat) as int);
        assert(pow256((i + 1) as nat) == 256 * pow256(i as nat));
        assert(le_bytes(v, n).drop_first()[i] == le_bytes(v, n)[i + 1]);
        assert(le_bytes(v, n)[i + 1] == ((v / pow256((i + 1) as nat)) % 256) as u8);
        assert(le_bytes(v / 256, (n - 1) as nat)[i] == (((v / 256) / pow256(i as nat)) % 256) as u8);
    }
    assert(pow256(0) == 1);
    assert(le_bytes(v, n)[0] == ((v / 1) % 256) as u8);
}

/// A value below 256^n round-trips through its n-byte encoding.
pub proof fn lemma_le_round_trip(v: nat, n: nat)
    requires
        v < pow256(n),
    ensures
        from_le(le_bytes(v, n)) == v,
    decreases n,
{
    if n == 0 {
        assert(pow256(0) == 1);
    } else {
        lemma_le_bytes_step(v, n);
        assert(v / 256 < pow256((n - 1) as nat)) by {
            lemma_pow256_pos((n - 1) as nat);
            vstd::arithmetic::div_mod::lemma_div_is_ordered(v as int, pow256(n) as int, 256);
            assert(pow256(n) / 256 == pow256((n - 1) as nat)) by {
                vstd::arithmetic::div_mod::lemma_div_multiples_vanish(
                    pow256((n - 1) as nat) as int,
                    256,
                );
            }
        }
        lemma_le_round_trip(v / 256, (n - 1) as nat);
        assert(from_le(le_bytes(v, n)) == v % 256 + 256 * (v / 256));
        vstd::arithmetic::div_mod::lemma_fundamental_div_mod(v as int, 256);
    }
}

/// Every decoded value is below 256^len.
pub proof fn lemma_from_le_bound(s: Seq<u8>)
    ensures
        from_le(s) < pow256(s.len()),
    decreases s.len(),
{
    if s.len() > 0 {
        lemma_from_le_bound(s.drop_first());
        assert(pow256(s.len()) == 256 * pow256((s.len() - 1) as nat));
    }
}

/// Writes the `width`-byte little-endian encoding of `v`.
pub fn le_write(v: u128, width: usize) -> (r: Vec<u8>)
    ensures
        r@.len() == width,
        r@ =~= le_bytes(v as nat, width as nat),
{
    let mut r: Vec<u8> = Vec::new();
    let mut x: u128 = v;
    let mut i: usize = 0;
    proof {
        assert(pow256(0) == 1);
        assert(v as nat / 1 == v as nat);
    }
    while i < width
        invariant
            i <= width,
            r@.len() == i,
            x == v as nat / pow256(i as nat),
            forall|j: int|
                0 <= j < i ==> r@[j] == ((v as nat / pow256(j as nat)) % 256) as u8,
        decreases width - i,
    {
        r.push((x % 256) as u8);
        proof {
            lemma_pow256_div(v as nat, i as nat);
        }
        x = x / 256;
        i = i + 1;
    }
    assert forall|j: int| 0 <= j < width implies r@[j] == le_bytes(v as nat, width as nat)[j] by {}
    r
}

/// Reads a `width`-byte little-endian value out of `bytes` at `at`.
pub fn le_read(bytes: &[u8], at: usize, width: usize) -> (r: u128)
    requires
        at + width <= bytes@.len(),
        width <= 16,
    ensures
        r == from_le(bytes@.subrange(at as int, at + width)),
{
    let ghost s = bytes@.subrange(at as int, at + width);
    let blen = bytes.len();
    let mut r: u128 = 0;
    let mut i: usize = width;
    proof {
        assert(s.subrange(width as int, width as int) =~= Seq::<u8>::empty());
    }
    while i > 0
        invariant
            i <= width,
            width <= 16,
            at + width <= blen,
            blen == bytes@.len(),
            s == bytes@.subrange(at as int, at + width),
            r == from_le(s.subrange(i as int, width as int)),
            r < pow256((width - i) as nat),
        decreases i,
    {
        i = i - 1;
        let b = *vstd::slice::slice_index_get(bytes, at + i);
        proof {
            assert(s.subrange(i as int, width as int).drop_first() =~= s.subrange(
                i + 1,
                width as int,
            ));
            assert(s.subrange(i as int, width as int)[0] == bytes@[at + i]);
            assert(pow256(((width - i) as nat)) == 256 * pow256((width - i - 1) as nat));
            lemma_pow256_le16();
            lemma_pow256_mono((width - i) as nat, 16);
        }
        r = r * 256 + (b as u128);
    }
    proof {
        assert(s.subrange(0, width as int) =~= s);
    }
    r
}

/// The small powers of 256 that the wire formats use.
pub proof fn lemma_pow256_values()
    ensures
        pow256(1) == 0x100,
        pow256(2) == 0x10000,
        pow256(3) == 0x1000000,
        pow256(4) == 0x100000000,
{
    assert(pow256(0) == 1);
    assert(pow256(1) == 0x100);
    assert(pow256(2) == 0x10000);
    assert(pow256(3) == 0x1000000);
    assert(pow256(4) == 0x100000000);
}

/// Larger exponents give larger powers.
pub proof fn lemma_pow256_mono(a: nat, b: nat)
    requires
        a <= b,
    ensures
        pow256(a) <= pow256(b),
    decreases b,
{
    if a < b {
        lemma_pow256_mono(a, (b - 1) as nat);
        lemma_pow256_pos((b - 1) as nat);
    }
}

/// 256^16 equals 2^128, so any 16-byte value fits in u128.
pub proof fn lemma_pow256_le16()
    ensures
        pow256(16) == 0x100000000000000000000000000000000,
{
    assert(pow256(0) == 1);
    assert(pow256(1) == 0x100);
    assert(pow256(2) == 0x10000);
    assert(pow256(3) == 0x1000000);
    assert(pow256(4) == 0x100000000);
    assert(pow256(5) == 0x10000000000);
    assert(pow256(6) == 0x1000000000000);
    assert(pow256(7) == 0x100000000000000);
    assert(pow256(8) == 0x10000000000000000);
    assert(pow256(9) == 0x1000000000000000000);
    assert(pow256(10) == 0x100000000000000000000);
    assert(pow256(11) == 0x10000000000000000000000);
    assert(pow256(12) == 0x1000000000000000000000000);
    assert(pow256(13) == 0x100000000000000000000000000);
    assert(pow256(14) == 0x10000000000000000000000000000);
    assert(pow256(15) == 0x1000000000000000000000000000000);
    assert(pow256(16) == 0x100000000000000000000000000000000);
}

/// Overwrites `buf[at .. at + data.len()]` with `data`, leaving the rest.
pub fn splice(buf: &mut Vec<u8>, at: usize, data: &[u8])
    requires
        at + data@.len() <= old(buf)@.len(),
    ensures
        final(buf)@.len() == old(buf)@.len(),
        final(buf)@ =~= old(buf)@.subrange(0, at as int) + data@ + old(buf)@.subrange(
            at + data@.len(),
            old(buf)@.len() as int,
        ),
{
    let dlen = data.len();
    let blen = buf.len();
    let mut i: usize = 0;
    while i < dlen
        invariant
            i <= dlen,
            dlen == data@.len(),
            blen == buf@.len(),
            at + data@.len() <= buf@.len(),
            buf@.len() == old(buf)@.len(),
            forall|j: int| 0 <= j < i ==> buf@[at + j] == data@[j],
            forall|j: int| 0 <= j < at ==> buf@[j] == old(buf)@[j],
            forall|j: int|
                at + data@.len() <= j < buf@.len() ==> buf@[j] == old(buf)@[j],
        decreases data@.len() - i,
    {
        let b = *vstd::slice::slice_index_get(data, i);
        buf.set(at + i, b);
        i = i + 1;
    }
}

} // verus!
