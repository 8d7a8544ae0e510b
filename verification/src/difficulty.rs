//! Arithmetic on proof-of-work targets as 256-bit unsigned numbers, and the
//! retargeting rule built on it.

use crate::encoding::{be_nat, lemma_be_nat_bound, pow256};
use vstd::arithmetic::div_mod::lemma_fundamental_div_mod_converse;
use vstd::prelude::*;

verus! {

/// The largest factor, numerator or denominator, that a target is scaled by.
pub const SCALE_LIMIT: u128 = 0x80_0000_0000_0000_0000_0000_0000_0000;

/// `target` times `num` over `den`, rounded down, and capped at the largest
/// 256-bit number.
pub open spec fn scaled(target: nat, num: nat, den: nat) -> nat {
    let quotient = (target * num) / den;
    if quotient >= pow256(32) {
        (pow256(32) - 1) as nat
    } else {
        quotient
    }
}

/// The number that a byte string spells is that of its first byte, shifted,
/// plus that of the rest.
pub proof fn lemma_be_nat_front(bytes: Seq<u8>)
    requires
        bytes.len() > 0,
    ensures
        be_nat(bytes) == bytes[0] as nat * pow256((bytes.len() - 1) as nat) + be_nat(
            bytes.skip(1),
        ),
    decreases bytes.len(),
{
    if bytes.len() == 1 {
        assert(be_nat(bytes.drop_last()) == 0);
        assert(be_nat(bytes.skip(1)) == 0);
        assert(bytes.last() == bytes[0]);
        let one = pow256(0);
        assert(bytes[0] as nat * one == bytes[0] as nat) by (nonlinear_arith)
            requires
                one == 1,
        ;
    } else {
        let shorter = bytes.drop_last();
        let tail = bytes.skip(1);
        lemma_be_nat_front(shorter);
        assert(shorter.skip(1) =~= tail.drop_last());
        assert(shorter[0] == bytes[0]);
        assert(tail.last() == bytes.last());
        let high = bytes[0] as nat;
        let p = pow256((bytes.len() - 2) as nat);
        let rest = be_nat(shorter.skip(1));
        let last = bytes.last() as nat;
        assert(pow256((bytes.len() - 1) as nat) == 256 * p);
        assert(be_nat(shorter) == high * p + rest);
        assert(be_nat(bytes) == be_nat(shorter) * 256 + last);
        assert(be_nat(tail) == rest * 256 + last);
        let shifted = pow256((bytes.len() - 1) as nat);
        assert((high * p + rest) * 256 == high * shifted + rest * 256) by (nonlinear_arith)
            requires
                shifted == 256 * p,
        ;
    }
}

/// Thirty-two bytes of `0xFF` spell the largest 256-bit number.
pub proof fn lemma_be_nat_all_ones(bytes: Seq<u8>)
    requires
        forall|i: int| 0 <= i < bytes.len() ==> bytes[i] == 0xFFu8,
    ensures
        be_nat(bytes) == pow256(bytes.len()) - 1,
    decreases bytes.len(),
{
    if bytes.len() > 0 {
        lemma_be_nat_all_ones(bytes.drop_last());
    }
}

/// `target` times `num`: the low 32 bytes of the product, and what is
/// above them.
fn multiply(target: &[u8; 32], num: u128) -> (r: ([u8; 32], u128))
    requires
        num < SCALE_LIMIT,
    ensures
        be_nat(r.0@) + r.1 * pow256(32) == be_nat(target@) * num,
        r.1 <= num,
{
    let mut low = [0u8; 32];
    let mut carry: u128 = 0;
    let mut i: usize = 32;
    proof {
        assert(low@.subrange(32, 32).len() == 0);
        assert(target@.subrange(32, 32).len() == 0);
        assert(be_nat(target@.subrange(32, 32)) * num == 0) by (nonlinear_arith)
            requires
                be_nat(target@.subrange(32, 32)) == 0,
        ;
    }
    while i > 0
        invariant
            i <= 32,
            num < SCALE_LIMIT,
            carry <= num,
            be_nat(low@.subrange(i as int, 32)) + carry * pow256((32 - i) as nat) == be_nat(
                target@.subrange(i as int, 32),
            ) * num,
        decreases i,
    {
        let j: usize = i - 1;
        let ghost low_before = low@;
        let ghost carry_before = carry;
        assert(target[j as int] as u128 * num + carry < 256 * SCALE_LIMIT) by (nonlinear_arith)
            requires
                num < SCALE_LIMIT,
                carry <= num,
                target[j as int] <= 255,
        ;
        let product: u128 = target[j] as u128 * num + carry;
        low[j] = (product % 256) as u8;
        carry = product / 256;
        proof {
            let digits = low@.subrange(j as int, 32);
            let source = target@.subrange(j as int, 32);
            lemma_be_nat_front(digits);
            lemma_be_nat_front(source);
            assert(digits.skip(1) =~= low_before.subrange(i as int, 32));
            assert(source.skip(1) =~= target@.subrange(i as int, 32));
            let p = pow256((32 - i) as nat);
            assert(pow256((32 - j) as nat) == 256 * p);
            let tail = be_nat(low_before.subrange(i as int, 32));
            let source_tail = be_nat(target@.subrange(i as int, 32));
            let t = target[j as int] as nat;
            let d = digits[0] as nat;
            assert(d + 256 * carry == product);
            assert(d * p + tail + carry * (256 * p) == (t * p + source_tail) * num)
                by (nonlinear_arith)
                requires
                    d + 256 * carry == t * num + carry_before,
                    tail + carry_before * p == source_tail * num,
            ;
            assert(carry <= num) by (nonlinear_arith)
                requires
                    256 * carry <= t * num + carry_before,
                    carry_before <= num,
                    t <= 255,
            ;
        }
        i = j;
    }
    proof {
        assert(low@.subrange(0, 32) =~= low@);
        assert(target@.subrange(0, 32) =~= target@);
    }
    (low, carry)
}

/// `target` times `num` over `den`, rounded down, and capped at the largest
/// 256-bit number.
pub fn scale_target(target: &[u8; 32], num: u128, den: u128) -> (r: [u8; 32])
    requires
        num < SCALE_LIMIT,
        0 < den < SCALE_LIMIT,
    ensures
        be_nat(r@) == scaled(be_nat(target@), num as nat, den as nat),
{
    let (low, high) = multiply(target, num);
    let ghost product: nat = be_nat(target@) * (num as nat);
    proof {
        lemma_be_nat_bound(low@);
    }
    if high >= den {
        let all_ones = [0xFFu8; 32];
        proof {
            lemma_be_nat_all_ones(all_ones@);
            let p = pow256(32);
            let d = den as nat;
            assert(product >= d * p) by (nonlinear_arith)
                requires
                    product == be_nat(low@) + high * p,
                    high >= d,
                    p > 0,
            ;
            assert(product / d >= p) by (nonlinear_arith)
                requires
                    product >= d * p,
                    d > 0,
            ;
        }
        return all_ones;
    }
    let mut quotient = [0u8; 32];
    let mut rem: u128 = high;
    let mut i: usize = 0;
    proof {
        assert(quotient@.subrange(0, 0).len() == 0);
        assert(low@.subrange(0, 0).len() == 0);
        assert(be_nat(quotient@.subrange(0, 0)) * den == 0) by (nonlinear_arith)
            requires
                be_nat(quotient@.subrange(0, 0)) == 0,
        ;
    }
    while i < 32
        invariant
            i <= 32,
            0 < den < SCALE_LIMIT,
            rem < den,
            be_nat(quotient@.subrange(0, i as int)) * den + rem == high * pow256(i as nat)
                + be_nat(low@.subrange(0, i as int)),
        decreases 32 - i,
    {
        let ghost quotient_before = quotient@;
        let ghost rem_before = rem;
        let current: u128 = rem * 256 + low[i] as u128;
        assert(current / den < 256) by (nonlinear_arith)
            requires
                current == rem * 256 + low[i as int],
                rem < den,
                low[i as int] <= 255,
        ;
        quotient[i] = (current / den) as u8;
        rem = current % den;
        proof {
            let digits = quotient@.subrange(0, i as int + 1);
            let source = low@.subrange(0, i as int + 1);
            assert(digits.drop_last() =~= quotient_before.subrange(0, i as int));
            assert(source.drop_last() =~= low@.subrange(0, i as int));
            let q_head = be_nat(quotient_before.subrange(0, i as int));
            let s_head = be_nat(low@.subrange(0, i as int));
            let p = pow256(i as nat);
            let digit = digits.last() as nat;
            let byte = source.last() as nat;
            assert(digit * den + rem == current) by (nonlinear_arith)
                requires
                    digit == current / den,
                    rem == current % den,
                    den > 0,
            ;
            assert((q_head * 256 + digit) * den + rem == high * (256 * p) + (s_head * 256
                + byte)) by (nonlinear_arith)
                requires
                    digit * den + rem == rem_before * 256 + byte,
                    q_head * den + rem_before == high * p + s_head,
            ;
        }
        i += 1;
    }
    proof {
        assert(quotient@.subrange(0, 32) =~= quotient@);
        assert(low@.subrange(0, 32) =~= low@);
        lemma_be_nat_bound(quotient@);
        lemma_fundamental_div_mod_converse(
            product as int,
            den as int,
            be_nat(quotient@) as int,
            rem as int,
        );
    }
    quotient
}

} // verus!
