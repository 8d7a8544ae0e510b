//! Fixed-width little-endian integers and the byte-level helpers on which the
//! canonical encoding and the script machine are built.

use vstd::prelude::*;

verus! {

/// The number that `bytes` spell in base 256, least significant byte first.
pub open spec fn le_nat(bytes: Seq<u8>) -> nat
    decreases bytes.len(),
{
    if bytes.len() == 0 {
        0
    } else {
        bytes[0] as nat + 256 * le_nat(bytes.skip(1))
    }
}

/// The `width` low bytes of `value`, least significant first.
pub open spec fn le_bytes(value: nat, width: nat) -> Seq<u8>
    decreases width,
{
    if width == 0 {
        Seq::empty()
    } else {
        seq![(value % 256) as u8] + le_bytes(value / 256, (width - 1) as nat)
    }
}

/// 256 to the power `width`.
pub open spec fn pow256(width: nat) -> nat
    decreases width,
{
    if width == 0 {
        1
    } else {
        256 * pow256((width - 1) as nat)
    }
}

/// The encoding has the requested width.
pub proof fn lemma_le_bytes_len(value: nat, width: nat)
    ensures
        le_bytes(value, width).len() == width,
    decreases width,
{
    if width > 0 {
        lemma_le_bytes_len(value / 256, (width - 1) as nat);
    }
}

/// A byte string spells a number below 256 to the power of its length.
pub proof fn lemma_le_nat_bound(bytes: Seq<u8>)
    ensures
        le_nat(bytes) < pow256(bytes.len()),
    decreases bytes.len(),
{
    if bytes.len() > 0 {
        lemma_le_nat_bound(bytes.skip(1));
        let rest = le_nat(bytes.skip(1));
        let p = pow256((bytes.len() - 1) as nat);
        assert(bytes[0] as nat + 256 * rest < 256 * p) by (nonlinear_arith)
            requires
                rest < p,
                (bytes[0] as nat) < 256,
        ;
    }
}

/// Decoding undoes encoding for every value that fits the width.
pub proof fn lemma_le_nat_of_bytes(value: nat, width: nat)
    requires
        value < pow256(width),
    ensures
        le_nat(le_bytes(value, width)) == value,
    decreases width,
{
    if width > 0 {
        let rest = le_bytes(value / 256, (width - 1) as nat);
        let all = le_bytes(value, width);
        assert(value / 256 < pow256((width - 1) as nat)) by (nonlinear_arith)
            requires
                value < 256 * pow256((width - 1) as nat),
        ;
        lemma_le_nat_of_bytes(value / 256, (width - 1) as nat);
        assert(all.skip(1) =~= rest);
        assert(all[0] == (value % 256) as u8);
        assert(value == value % 256 + 256 * (value / 256)) by (nonlinear_arith);
    }
}

/// A byte string is the little-endian encoding of the number that it
/// spells.
pub proof fn lemma_le_bytes_of_nat(bytes: Seq<u8>)
    ensures
        le_bytes(le_nat(bytes), bytes.len()) == bytes,
    decreases bytes.len(),
{
    if bytes.len() > 0 {
        let rest = le_nat(bytes.skip(1));
        let value = le_nat(bytes);
        lemma_le_bytes_of_nat(bytes.skip(1));
        assert(value % 256 == bytes[0] as nat && value / 256 == rest) by (nonlinear_arith)
            requires
                value == bytes[0] as nat + 256 * rest,
                (bytes[0] as nat) < 256,
        ;
        assert(le_bytes(value, bytes.len()) =~= bytes);
    } else {
        assert(le_bytes(le_nat(bytes), 0) =~= bytes);
    }
}

/// The powers of 256 that bound the integer widths in use.
pub proof fn lemma_pow256_values()
    ensures
        pow256(4) == 0x1_0000_0000,
        pow256(8) == 0x1_0000_0000_0000_0000,
{
    reveal_with_fuel(pow256, 9);
}

/// Appends the four bytes of `value`, least significant first.
pub fn push_u32(out: &mut Vec<u8>, value: u32)
    ensures
        final(out)@ == old(out)@ + le_bytes(value as nat, 4),
{
    let mut rest: u32 = value;
    let mut i: usize = 0;
    while i < 4
        invariant
            i <= 4,
            out@ + le_bytes(rest as nat, (4 - i) as nat) == old(out)@ + le_bytes(value as nat, 4),
        decreases 4 - i,
    {
        let ghost before = out@;
        out.push((rest % 256) as u8);
        proof {
            let tail = le_bytes((rest / 256) as nat, (4 - i - 1) as nat);
            assert(le_bytes(rest as nat, (4 - i) as nat) == seq![(rest % 256) as u8] + tail);
            assert(before.push((rest % 256) as u8) + tail =~= before + (seq![(rest % 256) as u8]
                + tail));
        }
        rest = rest / 256;
        i += 1;
    }
    assert(out@ + le_bytes(rest as nat, 0) =~= out@);
}

/// Appends the eight bytes of `value`, least significant first.
pub fn push_u64(out: &mut Vec<u8>, value: u64)
    ensures
        final(out)@ == old(out)@ + le_bytes(value as nat, 8),
{
    let mut rest: u64 = value;
    let mut i: usize = 0;
    while i < 8
        invariant
            i <= 8,
            out@ + le_bytes(rest as nat, (8 - i) as nat) == old(out)@ + le_bytes(value as nat, 8),
        decreases 8 - i,
    {
        let ghost before = out@;
        out.push((rest % 256) as u8);
        proof {
            let tail = le_bytes((rest / 256) as nat, (8 - i - 1) as nat);
            assert(le_bytes(rest as nat, (8 - i) as nat) == seq![(rest % 256) as u8] + tail);
            assert(before.push((rest % 256) as u8) + tail =~= before + (seq![(rest % 256) as u8]
                + tail));
        }
        rest = rest / 256;
        i += 1;
    }
    assert(out@ + le_bytes(rest as nat, 0) =~= out@);
}

/// Appends every byte of `data`.
pub fn push_bytes(out: &mut Vec<u8>, data: &[u8])
    ensures
        final(out)@ == old(out)@ + data@,
{
    let mut i: usize = 0;
    while i < data.len()
        invariant
            i <= data@.len(),
            out@ == old(out)@ + data@.subrange(0, i as int),
        decreases data@.len() - i,
    {
        out.push(data[i]);
        assert(old(out)@ + data@.subrange(0, i as int + 1) =~= (old(out)@ + data@.subrange(
            0,
            i as int,
        )).push(data@[i as int]));
        i += 1;
    }
    assert(data@.subrange(0, data@.len() as int) =~= data@);
}

/// The number that up to eight bytes spell, least significant first.
pub fn read_le(data: &[u8], start: usize, width: usize) -> (r: u64)
    requires
        width <= 8,
        start + width <= data@.len(),
    ensures
        r as nat == le_nat(data@.subrange(start as int, start + width)),
{
    let mut value: u64 = 0;
    let mut i: usize = width;
    let total: usize = data.len();
    proof {
        assert(data@.subrange(start + width, start + width).len() == 0);
        lemma_pow256_values();
    }
    while i > 0
        invariant
            i <= width,
            width <= 8,
            start + width <= data@.len(),
            total == data@.len(),
            value as nat == le_nat(data@.subrange(start + i, start + width)),
        decreases i,
    {
        i -= 1;
        proof {
            let tail = data@.subrange(start + i + 1, start + width);
            let here = data@.subrange(start + i, start + width);
            assert(here.skip(1) =~= tail);
            assert(here[0] == data@[start + i]);
            lemma_le_nat_bound(tail);
            lemma_pow_monotone((width - i - 1) as nat, 7);
            reveal_with_fuel(pow256, 8);
        }
        value = value * 256 + data[start + i] as u64;
    }
    value
}

/// The powers of 256 grow with the exponent.
pub proof fn lemma_pow_monotone(a: nat, b: nat)
    requires
        a <= b,
    ensures
        pow256(a) <= pow256(b),
    decreases b,
{
    if a < b {
        lemma_pow_monotone(a, (b - 1) as nat);
    }
}

/// Whether two byte strings hold the same bytes.
pub fn bytes_equal(a: &[u8], b: &[u8]) -> (r: bool)
    ensures
        r == (a@ == b@),
{
    if a.len() != b.len() {
        return false;
    }
    let mut i: usize = 0;
    while i < a.len()
        invariant
            i <= a@.len(),
            a@.len() == b@.len(),
            forall|j: int| 0 <= j < i ==> a@[j] == b@[j],
        decreases a@.len() - i,
    {
        if a[i] != b[i] {
            return false;
        }
        i += 1;
    }
    assert(a@ =~= b@);
    true
}

/// A copy of `data[start..end]`.
pub fn copy_range(data: &[u8], start: usize, end: usize) -> (r: Vec<u8>)
    requires
        start <= end <= data@.len(),
    ensures
        r@ == data@.subrange(start as int, end as int),
{
    let mut out: Vec<u8> = Vec::with_capacity(end - start);
    let mut i: usize = start;
    while i < end
        invariant
            start <= i <= end,
            end <= data@.len(),
            out@ == data@.subrange(start as int, i as int),
        decreases end - i,
    {
        out.push(data[i]);
        assert(data@.subrange(start as int, i as int + 1) =~= data@.subrange(
            start as int,
            i as int,
        ).push(data@[i as int]));
        i += 1;
    }
    out
}

/// The number that `bytes` spell in base 256, most significant byte first.
pub open spec fn be_nat(bytes: Seq<u8>) -> nat
    decreases bytes.len(),
{
    if bytes.len() == 0 {
        0
    } else {
        be_nat(bytes.drop_last()) * 256 + bytes.last() as nat
    }
}

/// A byte string spells, most significant byte first, a number below 256
/// to the power of its length.
pub proof fn lemma_be_nat_bound(bytes: Seq<u8>)
    ensures
        be_nat(bytes) < pow256(bytes.len()),
    decreases bytes.len(),
{
    if bytes.len() > 0 {
        lemma_be_nat_bound(bytes.drop_last());
    }
}

/// Between two byte strings of one length, the order of a pair of prefixes
/// that differ is the order of the whole strings.
pub proof fn lemma_be_prefix_decides(a: Seq<u8>, b: Seq<u8>, k: int)
    requires
        a.len() == b.len(),
        0 <= k <= a.len(),
        be_nat(a.subrange(0, k)) < be_nat(b.subrange(0, k)),
    ensures
        be_nat(a) < be_nat(b),
    decreases a.len() - k,
{
    if k < a.len() {
        let a_next = a.subrange(0, k + 1);
        let b_next = b.subrange(0, k + 1);
        assert(a_next.drop_last() =~= a.subrange(0, k));
        assert(b_next.drop_last() =~= b.subrange(0, k));
        lemma_be_prefix_decides(a, b, k + 1);
    } else {
        assert(a.subrange(0, k) =~= a);
        assert(b.subrange(0, k) =~= b);
    }
}

/// Whether the number that `a` spells, most significant byte first, is at
/// most the one that `b` spells.
pub fn be_less_or_equal(a: &[u8], b: &[u8]) -> (r: bool)
    requires
        a@.len() == b@.len(),
    ensures
        r == (be_nat(a@) <= be_nat(b@)),
{
    let mut i: usize = 0;
    while i < a.len()
        invariant
            i <= a@.len(),
            a@.len() == b@.len(),
            a@.subrange(0, i as int) == b@.subrange(0, i as int),
        decreases a@.len() - i,
    {
        proof {
            let a_next = a@.subrange(0, i as int + 1);
            let b_next = b@.subrange(0, i as int + 1);
            assert(a_next.drop_last() =~= a@.subrange(0, i as int));
            assert(b_next.drop_last() =~= b@.subrange(0, i as int));
            if a@[i as int] < b@[i as int] {
                lemma_be_prefix_decides(a@, b@, i as int + 1);
            } else if a@[i as int] > b@[i as int] {
                lemma_be_prefix_decides(b@, a@, i as int + 1);
            } else {
                assert(a_next =~= b_next);
            }
        }
        if a[i] < b[i] {
            return true;
        }
        if a[i] > b[i] {
            return false;
        }
        i += 1;
    }
    proof {
        assert(a@.subrange(0, a@.len() as int) =~= a@);
        assert(b@.subrange(0, b@.len() as int) =~= b@);
    }
    true
}

/// The `width` low bytes of `value`, most significant first.
pub open spec fn be_bytes(value: nat, width: nat) -> Seq<u8>
    decreases width,
{
    if width == 0 {
        Seq::empty()
    } else {
        be_bytes(value / 256, (width - 1) as nat).push((value % 256) as u8)
    }
}

/// A byte string is the big-endian encoding of the number that it spells.
pub proof fn lemma_be_bytes_of_nat(bytes: Seq<u8>)
    ensures
        be_bytes(be_nat(bytes), bytes.len()) == bytes,
    decreases bytes.len(),
{
    if bytes.len() > 0 {
        let head = be_nat(bytes.drop_last());
        let value = be_nat(bytes);
        lemma_be_bytes_of_nat(bytes.drop_last());
        assert(value % 256 == bytes.last() as nat && value / 256 == head) by (nonlinear_arith)
            requires
                value == head * 256 + bytes.last() as nat,
                (bytes.last() as nat) < 256,
        ;
        assert(be_bytes(value, bytes.len()) =~= bytes);
    } else {
        assert(be_bytes(be_nat(bytes), 0) =~= bytes);
    }
}

/// The first `N` bytes of `data`.
pub fn leading<const N: usize>(data: &[u8]) -> (r: [u8; N])
    requires
        data@.len() >= N,
    ensures
        r@ == data@.subrange(0, N as int),
{
    let mut out = [0u8; N];
    let mut i: usize = 0;
    while i < N
        invariant
            i <= N,
            data@.len() >= N,
            forall|j: int| 0 <= j < i ==> out@[j] == data@[j],
        decreases N - i,
    {
        out[i] = data[i];
        i += 1;
    }
    assert(out@ =~= data@.subrange(0, N as int));
    out
}

} // verus!
