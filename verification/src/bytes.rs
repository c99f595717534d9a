//! Big-endian integer encoding over byte sequences.
use vstd::prelude::*;

verus! {

/// Big-endian bytes of a 16-bit value.
pub open spec fn be16(v: u16) -> Seq<u8> {
    seq![(v / 256) as u8, (v % 256) as u8]
}

/// Big-endian bytes of a 32-bit value.
pub open spec fn be32(v: u32) -> Seq<u8> {
    seq![(v / 0x100_0000) as u8, ((v / 0x1_0000) % 256) as u8, ((v / 256) % 256) as u8, (v % 256) as u8]
}

/// Big-endian bytes of a 64-bit value.
pub open spec fn be64(v: u64) -> Seq<u8> {
    be32((v / 0x1_0000_0000) as u32) + be32((v % 0x1_0000_0000) as u32)
}

/// The 16-bit value whose big-endian bytes are `hi`, `lo`.
pub open spec fn from_be16(hi: u8, lo: u8) -> u16 {
    (hi as int * 256 + lo as int) as u16
}

/// The 32-bit value whose big-endian bytes are `b0` .. `b3`.
pub open spec fn from_be32(b0: u8, b1: u8, b2: u8, b3: u8) -> u32 {
    (b0 as int * 0x100_0000 + b1 as int * 0x1_0000 + b2 as int * 256 + b3 as int) as u32
}

/// The four big-endian bytes of `v`.
pub fn octets(v: u32) -> (r: [u8; 4])
    ensures
        r@ == be32(v),
{
    let r = [(v / 0x100_0000) as u8, ((v / 0x1_0000) % 256) as u8, ((v / 256) % 256) as u8, (v % 256) as u8];
    assert(r@ =~= be32(v));
    r
}

/// `n` zero bytes.
pub open spec fn zeros(n: nat) -> Seq<u8> {
    Seq::new(n, |i: int| 0u8)
}

/// A length that saturates at `u16::MAX`.
pub open spec fn sat_u16(n: int) -> u16 {
    if n <= 65535 { n as u16 } else { 65535u16 }
}

/// Zero bytes needed to bring a length of `n` up to a multiple of eight.
pub open spec fn pad_to_8(n: int) -> nat {
    ((8 - n % 8) % 8) as nat
}

/// The byte sequences of `s`, one after the other.
pub open spec fn concat_all(s: Seq<Seq<u8>>) -> Seq<u8>
    decreases s.len(),
{
    if s.len() == 0 {
        Seq::empty()
    } else {
        concat_all(s.drop_last()) + s.last()
    }
}

/// The contents of each vector of `s`.
pub open spec fn vec_views(s: Seq<Vec<u8>>) -> Seq<Seq<u8>> {
    s.map_values(|v: Vec<u8>| v@)
}

/// Decoding the big-endian bytes of a 16-bit value gives the value back.
pub proof fn lemma_be16_roundtrip(v: u16)
    ensures
        from_be16(be16(v)[0], be16(v)[1]) == v,
{
}

/// Decoding the big-endian bytes of a 32-bit value gives the value back.
pub proof fn lemma_be32_roundtrip(v: u32)
    ensures
        from_be32(be32(v)[0], be32(v)[1], be32(v)[2], be32(v)[3]) == v,
{
}

/// Encoding a decoded 16-bit value gives the same two bytes.
pub proof fn lemma_from_be16_roundtrip(hi: u8, lo: u8)
    ensures
        be16(from_be16(hi, lo)) == seq![hi, lo],
{
    assert(be16(from_be16(hi, lo)) =~= seq![hi, lo]);
}

/// Encoding a decoded 32-bit value gives the same four bytes.
pub proof fn lemma_from_be32_roundtrip(b0: u8, b1: u8, b2: u8, b3: u8)
    ensures
        be32(from_be32(b0, b1, b2, b3)) == seq![b0, b1, b2, b3],
{
    let v = b0 as int * 0x100_0000 + b1 as int * 0x1_0000 + b2 as int * 256 + b3 as int;
    assert(0 <= v < 0x1_0000_0000) by (nonlinear_arith)
        requires
            v == b0 as int * 0x100_0000 + b1 as int * 0x1_0000 + b2 as int * 256 + b3 as int,
            0 <= b0 < 256,
            0 <= b1 < 256,
            0 <= b2 < 256,
            0 <= b3 < 256,
    ;
    assert(v / 0x100_0000 == b0 && (v / 0x1_0000) % 256 == b1 && (v / 256) % 256 == b2 && v % 256
        == b3) by (nonlinear_arith)
        requires
            v == b0 as int * 0x100_0000 + b1 as int * 0x1_0000 + b2 as int * 256 + b3 as int,
            0 <= b0 < 256,
            0 <= b1 < 256,
            0 <= b2 < 256,
            0 <= b3 < 256,
    ;
    assert(be32(from_be32(b0, b1, b2, b3)) =~= seq![b0, b1, b2, b3]);
}

/// Appends the big-endian bytes of `v`.
pub fn push_u16_be(out: &mut Vec<u8>, v: u16)
    ensures
        final(out)@ == old(out)@ + be16(v),
{
    out.push((v / 256) as u8);
    out.push((v % 256) as u8);
    assert(final(out)@ =~= old(out)@ + be16(v));
}

/// Appends the big-endian bytes of `v`.
pub fn push_u32_be(out: &mut Vec<u8>, v: u32)
    ensures
        final(out)@ == old(out)@ + be32(v),
{
    out.push((v / 0x100_0000) as u8);
    out.push(((v / 0x1_0000) % 256) as u8);
    out.push(((v / 256) % 256) as u8);
    out.push((v % 256) as u8);
    assert(final(out)@ =~= old(out)@ + be32(v));
}

/// Appends the big-endian bytes of `v`.
pub fn push_u64_be(out: &mut Vec<u8>, v: u64)
    ensures
        final(out)@ == old(out)@ + be64(v),
{
    let ghost start = out@;
    push_u32_be(out, (v / 0x1_0000_0000) as u32);
    push_u32_be(out, (v % 0x1_0000_0000) as u32);
    assert(out@ =~= start + be64(v));
}

/// Appends `n` zero bytes.
pub fn push_zeros(out: &mut Vec<u8>, n: usize)
    ensures
        final(out)@ == old(out)@ + zeros(n as nat),
{
    let ghost start = out@;
    let mut i: usize = 0;
    while i < n
        invariant
            i <= n,
            out@ == start + zeros(i as nat),
        decreases n - i,
    {
        out.push(0u8);
        i = i + 1;
        assert(out@ =~= start + zeros(i as nat));
    }
}

/// Appends every byte of `src`.
pub fn push_all(out: &mut Vec<u8>, src: &[u8])
    ensures
        final(out)@ == old(out)@ + src@,
{
    let ghost start = out@;
    let mut i: usize = 0;
    while i < src.len()
        invariant
            i <= src.len(),
            out@ == start + src@.take(i as int),
        decreases src.len() - i,
    {
        out.push(src[i]);
        i = i + 1;
        assert(out@ =~= start + src@.take(i as int));
    }
    assert(src@.take(src@.len() as int) =~= src@);
}

/// The saturated 16-bit form of a length.
pub fn sat_len_u16(n: usize) -> (r: u16)
    ensures
        r == sat_u16(n as int),
{
    if n <= 65535 { n as u16 } else { 65535 }
}

/// Appends zero bytes until the length of `out` is a multiple of eight.
pub fn pad_out_to_8(out: &mut Vec<u8>)
    ensures
        final(out)@ == old(out)@ + zeros(pad_to_8(old(out)@.len() as int)),
{
    let pad = (8 - out.len() % 8) % 8;
    push_zeros(out, pad);
}

/// Overwrites the two bytes at `at` with the big-endian bytes of `v`.
pub fn patch_u16_be(out: &mut Vec<u8>, at: usize, v: u16)
    requires
        at + 2 <= old(out)@.len(),
    ensures
        final(out)@ == old(out)@.take(at as int) + be16(v) + old(out)@.skip(at + 2),
{
    let n = out.len();
    assert(at + 1 < n);
    out.set(at, (v / 256) as u8);
    out.set(at + 1, (v % 256) as u8);
    assert(final(out)@ =~= old(out)@.take(at as int) + be16(v) + old(out)@.skip(at + 2));
}

/// Appends every byte vector of `parts`, in order.
pub fn push_all_vecs(out: &mut Vec<u8>, parts: &Vec<Vec<u8>>)
    ensures
        final(out)@ == old(out)@ + concat_all(vec_views(parts@)),
{
    let ghost start = out@;
    let mut i: usize = 0;
    while i < parts.len()
        invariant
            i <= parts@.len(),
            out@ == start + concat_all(vec_views(parts@.take(i as int))),
        decreases parts@.len() - i,
    {
        push_all(out, parts[i].as_slice());
        proof {
            let t = vec_views(parts@.take(i + 1));
            assert(t.drop_last() =~= vec_views(parts@.take(i as int)));
            assert(t.last() == parts@[i as int]@);
        }
        i = i + 1;
        assert(out@ =~= start + concat_all(vec_views(parts@.take(i as int))));
    }
    assert(parts@.take(parts@.len() as int) =~= parts@);
}

/// Reads the big-endian 16-bit value at `i`.
pub fn read_u16_be(buf: &[u8], i: usize) -> (r: u16)
    requires
        i + 2 <= buf@.len(),
    ensures
        r == from_be16(buf@[i as int], buf@[i + 1]),
{
    (buf[i] as u16) * 256 + (buf[i + 1] as u16)
}

/// Reads the big-endian 32-bit value at `i`.
pub fn read_u32_be(buf: &[u8], i: usize) -> (r: u32)
    requires
        i + 4 <= buf@.len(),
    ensures
        r == from_be32(buf@[i as int], buf@[i + 1], buf@[i + 2], buf@[i + 3]),
{
    (buf[i] as u32) * 0x100_0000 + (buf[i + 1] as u32) * 0x1_0000 + (buf[i + 2] as u32) * 256
        + (buf[i + 3] as u32)
}

/// `b` written over `f` from offset `at` on.
pub open spec fn put(f: Seq<u8>, at: int, b: Seq<u8>) -> Seq<u8> {
    f.take(at) + b + f.skip(at + b.len())
}

/// Overwrites `out[at..at + src.len()]` with `src`.
pub fn write_bytes(out: &mut Vec<u8>, at: usize, src: &[u8])
    requires
        at + src@.len() <= old(out)@.len(),
    ensures
        final(out)@ == put(old(out)@, at as int, src@),
{
    let ghost orig = out@;
    let mut i: usize = 0;
    while i < src.len()
        invariant
            at + src@.len() <= orig.len(),
            orig.len() == old(out)@.len(),
            i <= src@.len(),
            out@.len() == orig.len(),
            forall|k: int| 0 <= k < at ==> out@[k] == orig[k],
            forall|k: int| at <= k < at + i ==> out@[k] == src@[k - at],
            forall|k: int| at + i <= k < orig.len() ==> out@[k] == orig[k],
        decreases src@.len() - i,
    {
        let n = out.len();
        assert(at + i < n);
        out.set(at + i, src[i]);
        i = i + 1;
    }
    assert(out@ =~= put(orig, at as int, src@));
}

/// The six bytes of `buf` from offset `at` on.
pub fn read_mac(buf: &[u8], at: usize) -> (r: [u8; 6])
    requires
        at + 6 <= buf@.len(),
    ensures
        r@ == buf@.subrange(at as int, at + 6),
{
    let r = [buf[at], buf[at + 1], buf[at + 2], buf[at + 3], buf[at + 4], buf[at + 5]];
    assert(r@ =~= buf@.subrange(at as int, at + 6));
    r
}

/// The number whose big-endian bytes are `b`, most significant first.
pub open spec fn read_be(b: Seq<u8>) -> nat
    decreases b.len(),
{
    if b.len() == 0 {
        0
    } else {
        read_be(b.drop_last()) * 256 + b.last() as nat
    }
}

/// The two bytes `be16` writes read back as the value.
pub proof fn lemma_read_be16(v: u16)
    ensures
        read_be(be16(v)) == v,
{
    reveal_with_fuel(read_be, 3);
    assert(be16(v).drop_last() =~= seq![(v / 256) as u8]);
    assert(seq![(v / 256) as u8].drop_last() =~= Seq::<u8>::empty());
}

proof fn lemma_read_be_4(b0: u8, b1: u8, b2: u8, b3: u8)
    ensures
        read_be(seq![b0, b1, b2, b3]) == b0 as nat * 0x100_0000 + b1 as nat * 0x1_0000 + b2 as nat * 256 + b3 as nat,
{
    let s1 = seq![b0];
    let s2 = seq![b0, b1];
    let s3 = seq![b0, b1, b2];
    let s4 = seq![b0, b1, b2, b3];
    assert(s1.drop_last() =~= Seq::<u8>::empty());
    assert(s2.drop_last() =~= s1);
    assert(s3.drop_last() =~= s2);
    assert(s4.drop_last() =~= s3);
    assert(read_be(Seq::<u8>::empty()) == 0);
    assert(s1.last() == b0);
    assert(read_be(s1) == b0 as nat);
    assert(read_be(s2) == b0 as nat * 256 + b1 as nat);
    assert(read_be(s3) == read_be(s2) * 256 + b2 as nat);
    assert(read_be(s4) == read_be(s3) * 256 + b3 as nat);
}

/// The four bytes `be32` writes read back as the value.
pub proof fn lemma_read_be32(v: u32)
    ensures
        read_be(be32(v)) == v,
{
    lemma_read_be_4(
        (v / 0x100_0000) as u8,
        ((v / 0x1_0000) % 256) as u8,
        ((v / 256) % 256) as u8,
        (v % 256) as u8,
    );
    assert(be32(v) =~= seq![
        (v / 0x100_0000) as u8,
        ((v / 0x1_0000) % 256) as u8,
        ((v / 256) % 256) as u8,
        (v % 256) as u8,
    ]);
}

/// `read_be` of two pieces: the first, shifted by the second's bytes, plus
/// the second.
pub proof fn lemma_read_be_concat(a: Seq<u8>, b: Seq<u8>)
    ensures
        read_be(a + b) == read_be(a) * pow256(b.len()) + read_be(b),
    decreases b.len(),
{
    if b.len() == 0 {
        assert(a + b =~= a);
        assert(pow256(0) == 1);
        assert(read_be(b) == 0);
    } else {
        assert((a + b).drop_last() =~= a + b.drop_last());
        assert((a + b).last() == b.last());
        assert(read_be(a + b) == read_be(a + b.drop_last()) * 256 + b.last() as nat);
        assert(read_be(b) == read_be(b.drop_last()) * 256 + b.last() as nat);
        lemma_read_be_concat(a, b.drop_last());
        assert(pow256(b.len()) == pow256(b.drop_last().len()) * 256);
        assert((read_be(a) * pow256(b.drop_last().len()) + read_be(b.drop_last())) * 256 + b.last() as nat
            == read_be(a) * (pow256(b.drop_last().len()) * 256) + (read_be(b.drop_last()) * 256 + b.last() as nat))
            by (nonlinear_arith);
    }
}

/// 256 to the power `n`.
pub open spec fn pow256(n: nat) -> nat
    decreases n,
{
    if n == 0 {
        1
    } else {
        pow256((n - 1) as nat) * 256
    }
}

/// The eight bytes `be64` writes read back as the value.
pub proof fn lemma_read_be64(v: u64)
    ensures
        read_be(be64(v)) == v,
{
    let hi = (v / 0x1_0000_0000) as u32;
    let lo = (v % 0x1_0000_0000) as u32;
    lemma_read_be32(hi);
    lemma_read_be32(lo);
    lemma_read_be_concat(be32(hi), be32(lo));
    assert(pow256(0) == 1);
    assert(pow256(1) == 256);
    assert(pow256(2) == 0x1_0000);
    assert(pow256(3) == 0x100_0000);
    assert(pow256(4) == 0x1_0000_0000);
    assert(be32(hi).len() == 4);
    assert(read_be(be64(v)) == hi as nat * 0x1_0000_0000 + lo as nat);
}

} // verus!
