//! Reduction of 32-byte values modulo the group order.
use vstd::prelude::*;

use vstd::arithmetic::div_mod::{lemma_fundamental_div_mod_converse, lemma_small_mod};

use crate::crypto::{be_value, group_order};

verus! {

/// `256^k`.
pub open spec fn radix(k: nat) -> nat
    decreases k,
{
    if k == 0 {
        1
    } else {
        256 * radix((k - 1) as nat)
    }
}

/// The `len`-byte big-endian encoding of `v` (its low `len` bytes).
pub open spec fn be_encode(v: nat, len: nat) -> Seq<u8>
    decreases len,
{
    if len == 0 {
        seq![]
    } else {
        be_encode(v / 256, (len - 1) as nat).push((v % 256) as u8)
    }
}

/// The 32-byte big-endian encoding of the group order `n`.
pub open spec fn order_bytes() -> Seq<u8> {
    seq![
        0xffu8, 0xff, 0xff, 0xff, 0xff, 0xff, 0xff, 0xff, 0xff, 0xff, 0xff, 0xff, 0xff, 0xff,
        0xff, 0xfe, 0xba, 0xae, 0xdc, 0xe6, 0xaf, 0x48, 0xa0, 0x3b, 0xbf, 0xd2, 0x5e, 0x8c,
        0xd0, 0x36, 0x41, 0x41,
    ]
}

proof fn lemma_order_bytes()
    ensures
        be_value(order_bytes()) == group_order(),
        order_bytes().len() == 32,
{
    reveal_with_fuel(be_value, 33);
}

proof fn lemma_radix_32()
    ensures
        radix(32) == 115792089237316195423570985008687907853269984665640564039457584007913129639936nat,
{
    reveal_with_fuel(radix, 33);
}

/// The value of a concatenation.
proof fn lemma_be_concat(a: Seq<u8>, b: Seq<u8>)
    ensures
        be_value(a + b) == be_value(a) * radix(b.len()) + be_value(b),
    decreases b.len(),
{
    if b.len() == 0 {
        assert(a + b == a);
        assert(radix(0) == 1);
        assert(be_value(b) == 0);
    } else {
        let b2 = b.drop_last();
        lemma_be_concat(a, b2);
        assert((a + b).drop_last() == a + b2);
        assert((a + b).last() == b.last());
        let va = be_value(a) as int;
        let vb2 = be_value(b2) as int;
        let p = radix(b2.len()) as int;
        let l = b.last() as int;
        assert(be_value(a + b) == be_value(a + b2) * 256 + l);
        assert(be_value(b) == vb2 * 256 + l);
        assert(radix(b.len()) == 256 * p);
        assert((va * p + vb2) * 256 + l == va * (256 * p) + (vb2 * 256 + l)) by (nonlinear_arith);
        assert(be_value(a) * radix(b.len()) == va * (256 * p));
    }
}

/// A byte string's value is below `256^len`.
proof fn lemma_be_bound(s: Seq<u8>)
    ensures
        be_value(s) < radix(s.len()),
    decreases s.len(),
{
    if s.len() > 0 {
        lemma_be_bound(s.drop_last());
        let v = be_value(s.drop_last()) as int;
        let p = radix((s.len() - 1) as nat) as int;
        let l = s.last() as int;
        assert(v * 256 + l < 256 * p) by (nonlinear_arith)
            requires
                v < p,
                0 <= l < 256,
        ;
    }
}

/// A byte string is the encoding of its own value.
proof fn lemma_be_encode(s: Seq<u8>)
    ensures
        be_encode(be_value(s), s.len()) == s,
    decreases s.len(),
{
    if s.len() > 0 {
        let s2 = s.drop_last();
        lemma_be_encode(s2);
        lemma_fundamental_div_mod_converse(
            be_value(s) as int,
            256,
            be_value(s2) as int,
            s.last() as int,
        );
        assert(s == s2.push(s.last()));
    }
}

/// The value of a suffix, one byte longer than the next.
proof fn lemma_be_suffix(x: Seq<u8>, i: int)
    requires
        1 <= i <= x.len(),
    ensures
        be_value(x.subrange(i - 1, x.len() as int)) == x[i - 1] * radix((x.len() - i) as nat)
            + be_value(x.subrange(i, x.len() as int)),
{
    let head = seq![x[i - 1]];
    let tail = x.subrange(i, x.len() as int);
    assert(x.subrange(i - 1, x.len() as int) == head + tail);
    assert(head.drop_last() == Seq::<u8>::empty());
    assert(be_value(Seq::<u8>::empty()) == 0);
    assert(be_value(head) == be_value(head.drop_last()) * 256 + head.last());
    assert(be_value(head) == x[i - 1]);
    lemma_be_concat(head, tail);
}

/// Reduces a 32-byte big-endian value modulo the group order `n`. As
/// `2^256 < 2n`, one conditional subtraction of `n` is enough.
pub fn reduce_mod_order(b: &[u8; 32]) -> (r: [u8; 32])
    ensures
        be_value(r@) == be_value(b@) % group_order(),
        r@ == be_encode(be_value(b@) % group_order(), 32),
{
    let order: [u8; 32] = [
        0xff, 0xff, 0xff, 0xff, 0xff, 0xff, 0xff, 0xff, 0xff, 0xff, 0xff, 0xff, 0xff, 0xff,
        0xff, 0xfe, 0xba, 0xae, 0xdc, 0xe6, 0xaf, 0x48, 0xa0, 0x3b, 0xbf, 0xd2, 0x5e, 0x8c,
        0xd0, 0x36, 0x41, 0x41,
    ];
    proof {
        assert(order@ == order_bytes());
        lemma_order_bytes();
        assert(b@.subrange(32, 32) == Seq::<u8>::empty());
        assert(order@.subrange(32, 32) == Seq::<u8>::empty());
    }
    let mut d: [u8; 32] = [0u8; 32];
    proof {
        assert(d@.subrange(32, 32) == Seq::<u8>::empty());
    }
    let mut borrow: u8 = 0;
    let mut i: usize = 32;
    while i > 0
        invariant
            i <= 32,
            borrow <= 1,
            d@.len() == 32,
            b@.len() == 32,
            order@ == order_bytes(),
            be_value(b@.subrange(i as int, 32)) + borrow * radix((32 - i) as nat) == be_value(
                order@.subrange(i as int, 32),
            ) + be_value(d@.subrange(i as int, 32)),
        decreases i,
    {
        let k = i - 1;
        let need: u16 = order[k] as u16 + borrow as u16;
        let have: u16 = b[k] as u16;
        let digit: u8;
        let next_borrow: u8;
        if have >= need {
            digit = (have - need) as u8;
            next_borrow = 0;
        } else {
            digit = (have + 256 - need) as u8;
            next_borrow = 1;
        }
        let ghost old_d = d@;
        d.set(k, digit);
        proof {
            assert(d@.subrange(i as int, 32) == old_d.subrange(i as int, 32));
            lemma_be_suffix(b@, i as int);
            lemma_be_suffix(order@, i as int);
            lemma_be_suffix(d@, i as int);
            let p = radix((32 - i) as nat) as int;
            assert(radix((32 - k) as nat) == 256 * p);
            let bk = b@[k as int] as int;
            let ok = order@[k as int] as int;
            let dk = digit as int;
            let nb = next_borrow as int;
            assert(bk + 256 * nb == ok + borrow + dk);
            assert(bk * p + nb * (256 * p) == ok * p + dk * p + borrow * p) by (nonlinear_arith)
                requires
                    bk + 256 * nb == ok + borrow + dk,
            ;
        }
        borrow = next_borrow;
        i = k;
    }
    proof {
        assert(b@.subrange(0, 32) == b@);
        assert(order@.subrange(0, 32) == order@);
        assert(d@.subrange(0, 32) == d@);
        lemma_be_bound(b@);
        lemma_be_bound(d@);
        lemma_radix_32();
    }
    let r = if borrow == 0 {
        d
    } else {
        *b
    };
    proof {
        let n = group_order() as int;
        if borrow == 0 {
            lemma_fundamental_div_mod_converse(be_value(b@) as int, n, 1, be_value(d@) as int);
        } else {
            lemma_small_mod(be_value(b@), group_order());
        }
        lemma_be_encode(r@);
    }
    r
}

} // verus!
