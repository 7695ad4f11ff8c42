//! Integer codecs over byte sequences: big- and little-endian fields of any width,
//! 24-bit lengths and the 28-bit "synchsafe" size of an ID3 header.
use vstd::prelude::*;

verus! {

/// The value of `s` read as a big-endian unsigned integer.
pub open spec fn be_val(s: Seq<u8>) -> nat
    decreases s.len(),
{
    if s.len() == 0 {
        0
    } else {
        be_val(s.drop_last()) * 256 + s.last() as nat
    }
}

/// The `len` low bytes of `n`, most significant first.
pub open spec fn be_seq(n: nat, len: nat) -> Seq<u8>
    decreases len,
{
    if len == 0 {
        Seq::empty()
    } else {
        be_seq(n / 256, (len - 1) as nat).push((n % 256) as u8)
    }
}

/// The value of `s` read as a little-endian unsigned integer.
pub open spec fn le_val(s: Seq<u8>) -> nat
    decreases s.len(),
{
    if s.len() == 0 {
        0
    } else {
        s[0] as nat + 256 * le_val(s.drop_first())
    }
}

/// The `len` low bytes of `n`, least significant first.
pub open spec fn le_seq(n: nat, len: nat) -> Seq<u8>
    decreases len,
{
    if len == 0 {
        Seq::empty()
    } else {
        seq![(n % 256) as u8] + le_seq(n / 256, (len - 1) as nat)
    }
}

pub open spec fn pow256(len: nat) -> nat
    decreases len,
{
    if len == 0 {
        1
    } else {
        256 * pow256((len - 1) as nat)
    }
}

pub proof fn lemma_be_seq_len(n: nat, len: nat)
    ensures
        be_seq(n, len).len() == len,
    decreases len,
{
    if len > 0 {
        lemma_be_seq_len(n / 256, (len - 1) as nat);
    }
}

pub proof fn lemma_le_seq_len(n: nat, len: nat)
    ensures
        le_seq(n, len).len() == len,
    decreases len,
{
    if len > 0 {
        lemma_le_seq_len(n / 256, (len - 1) as nat);
    }
}

pub proof fn lemma_be_val_bound(s: Seq<u8>)
    ensures
        be_val(s) < pow256(s.len()),
    decreases s.len(),
{
    if s.len() > 0 {
        lemma_be_val_bound(s.drop_last());
        assert(be_val(s.drop_last()) + 1 <= pow256((s.len() - 1) as nat));
        assert((be_val(s.drop_last()) + 1) * 256 <= pow256((s.len() - 1) as nat) * 256)
            by (nonlinear_arith)
            requires
                be_val(s.drop_last()) + 1 <= pow256((s.len() - 1) as nat),
        ;
    }
}

pub proof fn lemma_le_val_bound(s: Seq<u8>)
    ensures
        le_val(s) < pow256(s.len()),
    decreases s.len(),
{
    if s.len() > 0 {
        lemma_le_val_bound(s.drop_first());
        assert(le_val(s.drop_first()) + 1 <= pow256((s.len() - 1) as nat));
        assert(256 * (le_val(s.drop_first()) + 1) <= 256 * pow256((s.len() - 1) as nat))
            by (nonlinear_arith)
            requires
                le_val(s.drop_first()) + 1 <= pow256((s.len() - 1) as nat),
        ;
    }
}

/// Writing a value in big-endian form and reading it back gives the value.
pub proof fn lemma_be_val_seq(n: nat, len: nat)
    requires
        n < pow256(len),
    ensures
        be_val(be_seq(n, len)) == n,
    decreases len,
{
    if len > 0 {
        let l1 = (len - 1) as nat;
        assert(n / 256 < pow256(l1)) by (nonlinear_arith)
            requires
                n < 256 * pow256(l1),
        ;
        lemma_be_val_seq(n / 256, l1);
        let s = be_seq(n, len);
        assert(s.drop_last() =~= be_seq(n / 256, l1));
    }
}

/// Reading bytes as a big-endian value and writing it back gives the bytes.
pub proof fn lemma_be_seq_val(s: Seq<u8>)
    ensures
        be_seq(be_val(s), s.len()) == s,
    decreases s.len(),
{
    if s.len() > 0 {
        lemma_be_seq_val(s.drop_last());
        let v = be_val(s.drop_last());
        assert((v * 256 + s.last() as nat) / 256 == v) by (nonlinear_arith)
            requires
                s.last() < 256,
        ;
        assert((v * 256 + s.last() as nat) % 256 == s.last() as nat) by (nonlinear_arith)
            requires
                s.last() < 256,
        ;
        assert(be_seq(be_val(s), s.len()) =~= s);
    }
}

/// Writing a value in little-endian form and reading it back gives the value.
pub proof fn lemma_le_val_seq(n: nat, len: nat)
    requires
        n < pow256(len),
    ensures
        le_val(le_seq(n, len)) == n,
    decreases len,
{
    if len > 0 {
        let l1 = (len - 1) as nat;
        assert(n / 256 < pow256(l1)) by (nonlinear_arith)
            requires
                n < 256 * pow256(l1),
        ;
        lemma_le_val_seq(n / 256, l1);
        let s = le_seq(n, len);
        assert(s.drop_first() =~= le_seq(n / 256, l1));
    }
}

/// Reading bytes as a little-endian value and writing it back gives the bytes.
pub proof fn lemma_le_seq_val(s: Seq<u8>)
    ensures
        le_seq(le_val(s), s.len()) == s,
    decreases s.len(),
{
    if s.len() > 0 {
        lemma_le_seq_val(s.drop_first());
        let v = le_val(s.drop_first());
        assert((s[0] as nat + 256 * v) / 256 == v) by (nonlinear_arith)
            requires
                s[0] < 256,
        ;
        assert((s[0] as nat + 256 * v) % 256 == s[0] as nat) by (nonlinear_arith)
            requires
                s[0] < 256,
        ;
        assert(le_seq(le_val(s), s.len()) =~= s);
    }
}

proof fn lemma_pow256_facts()
    ensures
        pow256(1) == 0x100,
        pow256(2) == 0x1_0000,
        pow256(3) == 0x100_0000,
        pow256(4) == 0x1_0000_0000,
        pow256(8) == 0x1_0000_0000_0000_0000,
{
    reveal_with_fuel(pow256, 9);
}

/// Reads `len` bytes at `pos` as a big-endian integer, or `None` when fewer remain.
pub fn read_be(buf: &[u8], pos: usize, len: usize) -> (r: Option<u64>)
    requires
        len <= 8,
    ensures
        pos + len <= buf@.len() ==> r == Some(be_val(buf@.subrange(pos as int, pos + len)) as u64),
        pos + len > buf@.len() ==> r is None,
        r matches Some(v) ==> v as nat == be_val(buf@.subrange(pos as int, pos + len)),
{
    if len > buf.len() || pos > buf.len() - len {
        return None;
    }
    let mut acc: u64 = 0;
    let mut i: usize = 0;
    proof {
        lemma_pow256_facts();
    }
    while i < len
        invariant
            i <= len,
            len <= 8,
            pos + len <= buf@.len(),
            buf@.len() == buf.len(),
            acc as nat == be_val(buf@.subrange(pos as int, pos + i)),
            pow256(8) == 0x1_0000_0000_0000_0000,
        decreases len - i,
    {
        let ghost prev = buf@.subrange(pos as int, pos + i);
        let ghost next = buf@.subrange(pos as int, pos + i + 1);
        proof {
            assert(next.drop_last() =~= prev);
            lemma_be_val_bound(next);
            lemma_pow_mono((i + 1) as nat, 8);
        }
        acc = acc * 256 + buf[pos + i] as u64;
        i = i + 1;
    }
    proof {
        lemma_be_val_bound(buf@.subrange(pos as int, pos + len));
    }
    Some(acc)
}

pub proof fn lemma_pow_mono(a: nat, b: nat)
    requires
        a <= b,
    ensures
        pow256(a) <= pow256(b),
    decreases b,
{
    if a < b {
        lemma_pow_mono(a, (b - 1) as nat);
    }
}

/// Appends the `len` low bytes of `n`, most significant first.
pub fn write_be(out: &mut Vec<u8>, n: u64, len: usize)
    ensures
        final(out)@ == old(out)@ + be_seq(n as nat, len as nat),
    decreases len,
{
    if len == 0 {
        assert(old(out)@ + be_seq(n as nat, 0) =~= old(out)@);
        return ;
    }
    write_be(out, n / 256, len - 1);
    out.push((n % 256) as u8);
    assert(out@ =~= old(out)@ + be_seq(n as nat, len as nat));
}

/// Appends the `len` low bytes of `n`, least significant first.
pub fn write_le(out: &mut Vec<u8>, n: u64, len: usize)
    ensures
        final(out)@ == old(out)@ + le_seq(n as nat, len as nat),
    decreases len,
{
    if len == 0 {
        assert(old(out)@ + le_seq(n as nat, 0) =~= old(out)@);
        return ;
    }
    out.push((n % 256) as u8);
    write_le(out, n / 256, len - 1);
    assert(out@ =~= old(out)@ + le_seq(n as nat, len as nat));
}

/// Reads `len` bytes at `pos` as a little-endian integer, or `None` when fewer remain.
pub fn read_le(buf: &[u8], pos: usize, len: usize) -> (r: Option<u64>)
    requires
        len <= 8,
    ensures
        pos + len <= buf@.len() ==> r == Some(le_val(buf@.subrange(pos as int, pos + len)) as u64),
        pos + len > buf@.len() ==> r is None,
        r matches Some(v) ==> v as nat == le_val(buf@.subrange(pos as int, pos + len)),
    decreases len,
{
    if len > buf.len() || pos > buf.len() - len {
        return None;
    }
    proof {
        lemma_pow256_facts();
        lemma_le_val_bound(buf@.subrange(pos as int, pos + len));
        lemma_pow_mono(len as nat, 8);
    }
    if len == 0 {
        return Some(0);
    }
    let rest = read_le(buf, pos + 1, len - 1);
    let ghost s = buf@.subrange(pos as int, pos + len);
    assert(s.drop_first() =~= buf@.subrange(pos + 1, pos + 1 + (len - 1)));
    let v = rest.unwrap();
    Some(buf[pos] as u64 + 256 * v)
}

/// The synchsafe form of `x`: its low 28 bits spread over four bytes of seven bits each.
pub open spec fn synchsafe_spec(x: u32) -> u32 {
    (x & 0x7f) | (((x >> 7) & 0x7f) << 8) | (((x >> 14) & 0x7f) << 16) | (((x >> 21) & 0x7f) << 24)
}

/// The value held by a synchsafe integer: the low seven bits of each of its four bytes.
pub open spec fn unsynchsafe_spec(y: u32) -> u32 {
    (y & 0x7f) | (((y >> 8) & 0x7f) << 7) | (((y >> 16) & 0x7f) << 14) | (((y >> 24) & 0x7f) << 21)
}

/// Encodes the low 28 bits of `x` as a synchsafe integer (the top bit of every byte is 0).
pub fn synchsafe(x: u32) -> (r: u32)
    ensures
        r == synchsafe_spec(x),
        r & 0x8080_8080 == 0,
{
    let r = (x & 0x7f) | (((x >> 7) & 0x7f) << 8) | (((x >> 14) & 0x7f) << 16) | (((x >> 21)
        & 0x7f) << 24);
    assert(r & 0x8080_8080 == 0) by (bit_vector)
        requires
            r == (x & 0x7f) | (((x >> 7) & 0x7f) << 8) | (((x >> 14) & 0x7f) << 16) | (((x >> 21)
                & 0x7f) << 24),
    ;
    r
}

/// Decodes a synchsafe integer, ignoring the top bit of each byte.
pub fn unsynchsafe(y: u32) -> (r: u32)
    ensures
        r == unsynchsafe_spec(y),
        r < 0x1000_0000,
{
    let r = (y & 0x7f) | (((y >> 8) & 0x7f) << 7) | (((y >> 16) & 0x7f) << 14) | (((y >> 24)
        & 0x7f) << 21);
    assert(r < 0x1000_0000) by (bit_vector)
        requires
            r == (y & 0x7f) | (((y >> 8) & 0x7f) << 7) | (((y >> 16) & 0x7f) << 14) | (((y >> 24)
                & 0x7f) << 21),
    ;
    r
}

/// Every 28-bit value survives a trip through the synchsafe form.
pub proof fn lemma_synchsafe_round_trip(x: u32)
    requires
        x < 0x1000_0000,
    ensures
        unsynchsafe_spec(synchsafe_spec(x)) == x,
{
    assert(unsynchsafe_spec(synchsafe_spec(x)) == x) by (bit_vector)
        requires
            x < 0x1000_0000,
    ;
}

/// Every synchsafe integer survives a trip through its value.
pub proof fn lemma_unsynchsafe_round_trip(y: u32)
    requires
        y & 0x8080_8080 == 0,
    ensures
        synchsafe_spec(unsynchsafe_spec(y)) == y,
{
    assert(synchsafe_spec(unsynchsafe_spec(y)) == y) by (bit_vector)
        requires
            y & 0x8080_8080 == 0,
    ;
}

/// The three bytes of a 24-bit length, most significant first; bits above 24 are dropped.
pub fn encode_u24(n: u32) -> (r: [u8; 3])
    ensures
        r@ == be_seq(n as nat % 0x100_0000, 3),
{
    let mut v: Vec<u8> = Vec::new();
    write_be(&mut v, (n % 0x100_0000) as u64, 3);
    proof {
        lemma_be_seq_len(n as nat % 0x100_0000, 3);
        assert(v@ =~= be_seq(n as nat % 0x100_0000, 3));
    }
    let r = [v[0], v[1], v[2]];
    assert(r@ =~= v@);
    r
}

/// Reads a 24-bit big-endian length.
pub fn decode_u24(b: [u8; 3]) -> (r: u32)
    ensures
        r as nat == be_val(b@),
        r < 0x100_0000,
{
    proof {
        reveal_with_fuel(be_val, 4);
    }
    (b[0] as u32) * 0x1_0000 + (b[1] as u32) * 0x100 + b[2] as u32
}

/// Every value below 2^24 survives a trip through its three bytes.
pub proof fn lemma_u24_round_trip(n: u32)
    requires
        n < 0x100_0000,
    ensures
        be_val(be_seq(n as nat % 0x100_0000, 3)) == n,
{
    lemma_pow256_facts();
    lemma_be_val_seq(n as nat, 3);
}

} // verus!
