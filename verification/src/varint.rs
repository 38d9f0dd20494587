//! The protocol's arbitrary-length signed integer: big-endian two's
//! complement over however many bytes the cell carries. This codec supports
//! widths of one to eight bytes, widening every value to a signed 64-bit
//! integer; wider cells are reported as unsupported rather than misread.

use vstd::prelude::*;

use crate::bytes_be::{as_i64, be64, i64_bytes, read_i64, u64_bytes, wrap64};
use crate::types::Error;

verus! {

/// 256 raised to `k`: the number of values `k` bytes can carry.
pub open spec fn pow256(k: nat) -> int
    decreases k,
{
    if k == 0 {
        1
    } else {
        0x100 * pow256((k - 1) as nat)
    }
}

/// The unsigned big-endian value of a byte sequence of any length.
pub open spec fn be_nat(b: Seq<u8>) -> int
    decreases b.len(),
{
    if b.len() == 0 {
        0
    } else {
        b[0] * pow256((b.len() - 1) as nat) + be_nat(b.drop_first())
    }
}

/// The signed value of a byte sequence read as big-endian two's complement:
/// negative exactly when the top bit of the first byte is set.
pub open spec fn varint_val(b: Seq<u8>) -> int
    recommends
        b.len() >= 1,
{
    if b[0] < 0x80 {
        be_nat(b)
    } else {
        be_nat(b) - pow256(b.len())
    }
}

/// Powers of 256 multiply along addition of exponents.
pub proof fn lemma_pow256_add(a: nat, b: nat)
    ensures
        pow256(a + b) == pow256(a) * pow256(b),
    decreases a,
{
    if a == 0 {
        assert(pow256(0) == 1);
    } else {
        lemma_pow256_add((a - 1) as nat, b);
        assert(pow256(a + b) == 0x100 * pow256((a + b - 1) as nat));
        assert(0x100 * (pow256((a - 1) as nat) * pow256(b)) == (0x100 * pow256((a - 1) as nat))
            * pow256(b)) by (nonlinear_arith);
    }
}

/// Powers of 256 are positive.
pub proof fn lemma_pow256_pos(k: nat)
    ensures
        pow256(k) >= 1,
    decreases k,
{
    if k > 0 {
        lemma_pow256_pos((k - 1) as nat);
    }
}

/// A big-endian value occupies the range its width allows.
pub proof fn lemma_be_nat_bounds(b: Seq<u8>)
    ensures
        0 <= be_nat(b) < pow256(b.len()),
    decreases b.len(),
{
    if b.len() == 0 {
    } else {
        lemma_be_nat_bounds(b.drop_first());
        lemma_pow256_pos((b.len() - 1) as nat);
        assert(b[0] * pow256((b.len() - 1) as nat) <= 0xFF * pow256((b.len() - 1) as nat))
            by (nonlinear_arith)
            requires
                0 <= b[0] <= 0xFF,
                pow256((b.len() - 1) as nat) >= 1,
        ;
        assert(0xFF * pow256((b.len() - 1) as nat) + pow256((b.len() - 1) as nat) == 0x100
            * pow256((b.len() - 1) as nat));
        assert(b[0] * pow256((b.len() - 1) as nat) >= 0) by (nonlinear_arith)
            requires
                b[0] >= 0,
                pow256((b.len() - 1) as nat) >= 1,
        ;
    }
}

/// Concatenation shifts the left part by the width of the right part.
pub proof fn lemma_be_nat_append(a: Seq<u8>, b: Seq<u8>)
    ensures
        be_nat(a + b) == be_nat(a) * pow256(b.len()) + be_nat(b),
    decreases a.len(),
{
    if a.len() == 0 {
        assert(a + b =~= b);
    } else {
        lemma_be_nat_append(a.drop_first(), b);
        assert((a + b).drop_first() =~= a.drop_first() + b);
        assert((a + b)[0] == a[0]);
        lemma_pow256_add((a.len() - 1) as nat, b.len());
        assert(be_nat(a + b) == a[0] * pow256((a.len() + b.len() - 1) as nat) + be_nat(
            a.drop_first() + b,
        ));
        assert(a[0] * (pow256((a.len() - 1) as nat) * pow256(b.len())) == (a[0] * pow256((a.len()
            - 1) as nat)) * pow256(b.len())) by (nonlinear_arith);
        assert((a[0] * pow256((a.len() - 1) as nat)) * pow256(b.len()) + be_nat(a.drop_first())
            * pow256(b.len()) == (a[0] * pow256((a.len() - 1) as nat) + be_nat(a.drop_first()))
            * pow256(b.len())) by (nonlinear_arith);
    }
}

/// A run of `0xFF` bytes reads as the largest value of its width.
proof fn lemma_be_nat_all_ff(b: Seq<u8>)
    requires
        forall|i: int| 0 <= i < b.len() ==> b[i] == 0xFFu8,
    ensures
        be_nat(b) == pow256(b.len()) - 1,
    decreases b.len(),
{
    if b.len() > 0 {
        lemma_be_nat_all_ff(b.drop_first());
        assert(0xFF * pow256((b.len() - 1) as nat) + pow256((b.len() - 1) as nat) == 0x100
            * pow256((b.len() - 1) as nat));
    }
}

/// A run of zero bytes reads as zero.
proof fn lemma_be_nat_all_zero(b: Seq<u8>)
    requires
        forall|i: int| 0 <= i < b.len() ==> b[i] == 0u8,
    ensures
        be_nat(b) == 0,
    decreases b.len(),
{
    if b.len() > 0 {
        lemma_be_nat_all_zero(b.drop_first());
    }
}

/// On exactly eight bytes the general reading agrees with the fixed-width one.
proof fn lemma_be_nat_is_be64(b: Seq<u8>)
    requires
        b.len() == 8,
    ensures
        be_nat(b) == be64(b),
{
    reveal_with_fuel(be_nat, 9);
    reveal_with_fuel(pow256, 9);
    assert(be_nat(b) == b[0] * 0x100000000000000 + b[1] * 0x1000000000000 + b[2] * 0x10000000000
        + b[3] * 0x100000000 + b[4] * 0x1000000 + b[5] * 0x10000 + b[6] * 0x100 + b[7]);
}

/// The eight-byte two's-complement encoding of a signed 64-bit value reads
/// back as that value: the varint codec round-trips.
pub proof fn lemma_varint_round_trip(n: i64)
    ensures
        i64_bytes(n).len() == 8,
        varint_val(i64_bytes(n)) == n,
{
    let u: u64 = wrap64(n as int) as u64;
    let b = u64_bytes(u);
    crate::bytes_be::lemma_be64_of_u64(u);
    lemma_be_nat_is_be64(b);
    reveal_with_fuel(pow256, 9);
    assert(b[0] == u / 0x100000000000000);
    if n >= 0 {
        assert(u < 0x8000000000000000);
        assert(b[0] < 0x80);
    } else {
        assert(u >= 0x8000000000000000);
        assert(b[0] >= 0x80);
    }
}

/// Sign-extending a value to eight bytes preserves its two's-complement
/// reading: the widened buffer reads as the original varint.
proof fn lemma_varint_extend(head: Seq<u8>, v: Seq<u8>)
    requires
        head.len() + v.len() == 8,
        1 <= v.len(),
        v[0] >= 0x80 ==> forall|i: int| 0 <= i < head.len() ==> head[i] == 0xFFu8,
        v[0] < 0x80 ==> forall|i: int| 0 <= i < head.len() ==> head[i] == 0u8,
    ensures
        as_i64(be64(head + v)) == varint_val(v),
{
    let w = head + v;
    let len = v.len() as int;
    lemma_be_nat_append(head, v);
    lemma_be_nat_is_be64(w);
    lemma_be_nat_bounds(v);
    reveal_with_fuel(pow256, 9);
    let first = v.subrange(0, 1);
    let rest = v.subrange(1, len);
    assert(v =~= first + rest);
    lemma_be_nat_append(first, rest);
    lemma_be_nat_bounds(rest);
    assert(be_nat(first) == v[0]) by {
        reveal_with_fuel(be_nat, 3);
        assert(first.drop_first().len() == 0);
    }
    lemma_pow256_pos((len - 1) as nat);
    if v[0] >= 0x80 {
        lemma_be_nat_all_ff(head);
        assert(be_nat(w) == (pow256((8 - len) as nat) - 1) * pow256(len as nat) + be_nat(v));
        assert((pow256((8 - len) as nat) - 1) * pow256(len as nat) == pow256((8 - len) as nat)
            * pow256(len as nat) - pow256(len as nat)) by (nonlinear_arith);
        lemma_pow256_add((8 - len) as nat, len as nat);
        assert(be_nat(w) == 0x10000000000000000 - pow256(len as nat) + be_nat(v));
        assert(be_nat(v) >= 0x80 * pow256((len - 1) as nat)) by {
            assert(be_nat(first) * pow256((len - 1) as nat) >= 0x80 * pow256((len - 1) as nat))
                by (nonlinear_arith)
                requires
                    be_nat(first) >= 0x80,
                    pow256((len - 1) as nat) >= 1,
            ;
        }
        assert(pow256(len as nat) == 0x100 * pow256((len - 1) as nat));
        assert(pow256(len as nat) <= 0x10000000000000000);
        assert(0x100 * pow256((len - 1) as nat) <= 0x100 * 0x100000000000000) by (nonlinear_arith)
            requires
                pow256((len - 1) as nat) <= 0x100000000000000,
        ;
        assert(be_nat(w) >= 0x10000000000000000 - pow256(len as nat) + 0x80 * pow256(
            (len - 1) as nat,
        ));
        assert(0x80 * pow256((len - 1) as nat) * 2 == pow256(len as nat)) by (nonlinear_arith)
            requires
                pow256(len as nat) == 0x100 * pow256((len - 1) as nat),
        ;
        assert(0x80 * pow256((len - 1) as nat) <= 0x8000000000000000) by (nonlinear_arith)
            requires
                pow256((len - 1) as nat) <= 0x100000000000000,
        ;
        assert(be_nat(w) >= 0x8000000000000000);
    } else {
        lemma_be_nat_all_zero(head);
        assert(be_nat(w) == be_nat(v));
        assert(be_nat(v) < 0x80 * pow256((len - 1) as nat)) by {
            assert(be_nat(first) * pow256((len - 1) as nat) <= 0x7F * pow256((len - 1) as nat))
                by (nonlinear_arith)
                requires
                    be_nat(first) <= 0x7F,
                    pow256((len - 1) as nat) >= 1,
            ;
            assert(0x7F * pow256((len - 1) as nat) + pow256((len - 1) as nat) == 0x80 * pow256(
                (len - 1) as nat,
            ));
        }
        assert(0x80 * pow256((len - 1) as nat) <= 0x8000000000000000) by (nonlinear_arith)
            requires
                pow256((len - 1) as nat) <= 0x100000000000000,
        ;
        assert(be_nat(w) < 0x8000000000000000);
    }
}

/// Interprets one to eight bytes as a signed big-endian two's-complement
/// integer, widening to 64 bits.
pub fn parse_varint(v: &[u8]) -> (r: i64)
    requires
        1 <= v@.len() <= 8,
    ensures
        r == varint_val(v@),
{
    let len = v.len();
    let negative = v[0] >= 0x80;
    let mut w: Vec<u8> = Vec::new();
    let fill: u8 = if negative {
        0xFF
    } else {
        0x00
    };
    let mut k = len;
    while k < 8
        invariant
            len <= k <= 8,
            w@.len() == k - len,
            forall|i: int| 0 <= i < w@.len() ==> w@[i] == fill,
        decreases 8 - k,
    {
        w.push(fill);
        k = k + 1;
    }
    let mut j: usize = 0;
    while j < len
        invariant
            0 <= j <= len,
            len == v@.len() <= 8,
            w@.len() == 8 - len + j,
            forall|i: int| 0 <= i < 8 - len ==> w@[i] == fill,
            forall|i: int| 8 - len <= i < w@.len() ==> w@[i] == v@[i - (8 - len)],
        decreases len - j,
    {
        w.push(v[j]);
        j = j + 1;
    }
    let ghost head = w@.subrange(0, 8 - len as int);
    let ghost tail = w@.subrange(8 - len as int, 8);
    proof {
        assert(tail =~= v@);
        assert(w@ =~= head + v@);
        lemma_varint_extend(head, v@);
    }
    let r = match read_i64(w.as_slice(), 0) {
        Ok((x, _)) => x,
        Err(_) => 0,
    };
    proof {
        assert(w@.subrange(0, 8) =~= w@);
    }
    r
}

/// Encodes a signed 64-bit value in the varint wire form this codec emits:
/// the full eight-byte big-endian two's complement.
pub fn encode_varint(n: i64) -> (r: Vec<u8>)
    ensures
        r@ == i64_bytes(n),
        r@.len() == 8,
        varint_val(r@) == n,
{
    let mut out: Vec<u8> = Vec::new();
    crate::bytes_be::write_i64(&mut out, n);
    proof {
        lemma_varint_round_trip(n);
        assert(out@ =~= i64_bytes(n));
    }
    out
}

/// Reads a varint cell of `len` bytes at `pos`. Empty cells violate the
/// protocol; cells wider than eight bytes exceed what this codec represents.
pub fn read_varint(buf: &[u8], pos: usize, len: usize) -> (r: Result<(i64, usize), Error>)
    ensures
        len == 0 ==> r == Err::<(i64, usize), _>(Error::Protocol),
        len > 8 ==> r == Err::<(i64, usize), _>(Error::Unimplemented),
        1 <= len <= 8 && pos + len > buf@.len() ==> r == Err::<(i64, usize), _>(
            Error::UnexpectedEOF,
        ),
        1 <= len <= 8 && pos + len <= buf@.len() ==> (r matches Ok((v, p)) && v == varint_val(
            buf@.subrange(pos as int, pos + len),
        ) && p == pos + len),
{
    if len == 0 {
        return Err(Error::Protocol);
    }
    if len > 8 {
        return Err(Error::Unimplemented);
    }
    if pos >= buf.len() || len > buf.len() - pos {
        return Err(Error::UnexpectedEOF);
    }
    let window = vstd::slice::slice_subrange(buf, pos, pos + len);
    let v = parse_varint(window);
    Ok((v, pos + len))
}

} // verus!
