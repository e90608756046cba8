//! Compact integer coordinates of a cube state: the base-3 "twist" over the
//! first seven corner orientations and the base-2 "flip" over the first
//! eleven edge orientations. The last orientation of each kind is determined
//! by the solvability invariants, so it is not encoded.

use crate::cube::{seq_sum, Cube, CubeModel};
use vstd::arithmetic::div_mod::{lemma_breakdown, lemma_small_mod};
use vstd::prelude::*;

verus! {

/// `b` to the power `n`.
pub open spec fn base_pow(b: int, n: nat) -> int
    decreases n,
{
    if n == 0 {
        1
    } else {
        b * base_pow(b, (n - 1) as nat)
    }
}

/// The number whose base-`b` digits are `s`, most significant digit first.
pub open spec fn base_encode(s: Seq<u8>, b: int) -> int
    decreases s.len(),
{
    if s.len() == 0 {
        0
    } else {
        b * base_encode(s.drop_last(), b) + s.last()
    }
}

/// The `n` base-`b` digits of `v`, most significant digit first.
pub open spec fn base_decode(v: int, n: nat, b: int) -> Seq<u8>
    decreases n,
{
    if n == 0 {
        Seq::empty()
    } else {
        base_decode(v / b, (n - 1) as nat, b).push((v % b) as u8)
    }
}

/// The twist coordinate of a state: its first seven corner orientations read
/// as a base-3 number.
pub open spec fn twist_of(m: CubeModel) -> int {
    base_encode(m.co.take(7), 3)
}

/// The flip coordinate of a state: its first eleven edge orientations read
/// as a base-2 number.
pub open spec fn flip_of(m: CubeModel) -> int {
    base_encode(m.eo.take(11), 2)
}

/// Powers of a positive base are positive.
pub proof fn lemma_base_pow_pos(b: int, n: nat)
    requires
        b >= 1,
    ensures
        base_pow(b, n) >= 1,
    decreases n,
{
    if n > 0 {
        lemma_base_pow_pos(b, (n - 1) as nat);
        assert(b * base_pow(b, (n - 1) as nat) >= base_pow(b, (n - 1) as nat)) by (nonlinear_arith)
            requires
                b >= 1,
                base_pow(b, (n - 1) as nat) >= 1,
        ;
    }
}

/// Powers of a base of at least one never shrink as the exponent grows.
pub proof fn lemma_base_pow_monotone(b: int, m: nat, n: nat)
    requires
        b >= 1,
        m <= n,
    ensures
        base_pow(b, m) <= base_pow(b, n),
    decreases n,
{
    if m < n {
        lemma_base_pow_monotone(b, m, (n - 1) as nat);
        lemma_base_pow_pos(b, (n - 1) as nat);
        assert(b * base_pow(b, (n - 1) as nat) >= base_pow(b, (n - 1) as nat)) by (nonlinear_arith)
            requires
                b >= 1,
                base_pow(b, (n - 1) as nat) >= 1,
        ;
    }
}

/// A number with digits below `b` stays below `b` to the number of digits.
pub proof fn lemma_base_encode_bound(s: Seq<u8>, b: int)
    requires
        b >= 1,
        forall|i: int| 0 <= i < s.len() ==> s[i] < b,
    ensures
        0 <= base_encode(s, b) < base_pow(b, s.len()),
    decreases s.len(),
{
    if s.len() > 0 {
        lemma_base_encode_bound(s.drop_last(), b);
        let p = base_pow(b, (s.len() - 1) as nat);
        assert(b * base_encode(s.drop_last(), b) + s.last() < b * p) by (nonlinear_arith)
            requires
                0 <= base_encode(s.drop_last(), b) <= p - 1,
                s.last() < b,
                b >= 1,
        ;
    }
}

/// Reading back the digits of `v` recovers `v` modulo the range of the
/// encoding.
pub proof fn lemma_encode_decode(v: int, n: nat, b: int)
    requires
        2 <= b <= 256,
        v >= 0,
    ensures
        base_encode(base_decode(v, n, b), b) == v % base_pow(b, n),
    decreases n,
{
    if n == 0 {
        lemma_small_mod(0, 1);
        assert(v % 1 == 0) by {
            vstd::arithmetic::div_mod::lemma_mod_self_0(1);
            vstd::arithmetic::div_mod::lemma_mod_multiples_basic(v, 1);
        }
    } else {
        let m = (n - 1) as nat;
        lemma_encode_decode(v / b, m, b);
        lemma_base_pow_pos(b, m);
        let s = base_decode(v / b, m, b);
        assert(0 <= v % b < b) by {
            vstd::arithmetic::div_mod::lemma_mod_division_less_than_divisor(v, b);
        }
        let d = (v % b) as u8;
        assert(s.push(d).drop_last() =~= s);
        assert(s.push(d).last() == d);
        assert(base_encode(base_decode(v, n, b), b) == b * base_encode(s, b) + d);
        lemma_breakdown(v, b, base_pow(b, m));
        assert(base_pow(b, n) == b * base_pow(b, m));
        assert(v % (b * base_pow(b, m)) == b * ((v / b) % base_pow(b, m)) + v % b);
    }
}

/// A sequence of zero digits encodes the number zero.
pub proof fn lemma_base_encode_zero(s: Seq<u8>, b: int)
    requires
        forall|i: int| 0 <= i < s.len() ==> s[i] == 0,
    ensures
        base_encode(s, b) == 0,
    decreases s.len(),
{
    if s.len() > 0 {
        lemma_base_encode_zero(s.drop_last(), b);
    }
}

/// Prepending a digit adds it to the sum.
pub proof fn lemma_seq_sum_prepend(d: u8, s: Seq<u8>)
    ensures
        seq_sum(seq![d].add(s)) == d + seq_sum(s),
    decreases s.len(),
{
    if s.len() == 0 {
        assert(seq![d].add(s) =~= seq![d]);
        assert(seq![d].drop_last() =~= Seq::<u8>::empty());
        assert(seq![d].last() == d);
        assert(seq_sum(seq![d]) == seq_sum(seq![d].drop_last()) + d);
    } else {
        assert(seq![d].add(s).drop_last() =~= seq![d].add(s.drop_last()));
        assert(seq![d].add(s).last() == s.last());
        assert(seq_sum(seq![d].add(s)) == seq_sum(seq![d].add(s.drop_last())) + s.last());
        lemma_seq_sum_prepend(d, s.drop_last());
    }
}

impl Cube {
    /// The twist coordinate: the first seven corner orientations as a base-3
    /// number in `[0, 2186]`.
    #[verifier::loop_isolation(false)]
    pub fn get_twist(self) -> (r: u16)
        requires
            self@.wf(),
        ensures
            r == twist_of(self@),
            r < 2187,
    {
        let mut ret: u16 = 0;
        let mut i: usize = 0;
        while i < 7
            invariant
                i <= 7,
                ret == base_encode(self@.co.take(i as int), 3),
                ret < base_pow(3, i as nat),
            decreases 7 - i,
        {
            proof {
                lemma_base_pow_monotone(3, i as nat, 6);
                reveal_with_fuel(base_pow, 8);
                assert(base_pow(3, 6) == 729);
                assert(self@.co.take(i + 1).drop_last() =~= self@.co.take(i as int));
            }
            ret = 3 * ret + (self.co[i] as u16);
            i = i + 1;
        }
        proof {
            reveal_with_fuel(base_pow, 9);
            assert(base_pow(3, 7) == 2187);
        }
        ret
    }

    /// The flip coordinate: the first eleven edge orientations as a base-2
    /// number in `[0, 2047]`.
    #[verifier::loop_isolation(false)]
    pub fn get_flip(self) -> (r: u16)
        requires
            self@.wf(),
        ensures
            r == flip_of(self@),
            r < 2048,
    {
        let mut ret: u16 = 0;
        let mut i: usize = 0;
        while i < 11
            invariant
                i <= 11,
                ret == base_encode(self@.eo.take(i as int), 2),
                ret < base_pow(2, i as nat),
            decreases 11 - i,
        {
            proof {
                lemma_base_pow_monotone(2, i as nat, 10);
                reveal_with_fuel(base_pow, 12);
                assert(base_pow(2, 10) == 1024);
                assert(self@.eo.take(i + 1).drop_last() =~= self@.eo.take(i as int));
            }
            ret = 2 * ret + (self.eo[i] as u16);
            i = i + 1;
        }
        proof {
            reveal_with_fuel(base_pow, 13);
            assert(base_pow(2, 11) == 2048);
        }
        ret
    }

    /// Set the corner orientations so that the twist coordinate becomes
    /// `twist`: the first seven slots take its base-3 digits and the eighth
    /// restores the sum-of-twists invariant.
    #[verifier::loop_isolation(false)]
    pub fn set_twist(&mut self, twist: u16)
        requires
            old(self)@.wf(),
            twist < 2187,
        ensures
            final(self)@.cp == old(self)@.cp,
            final(self)@.ep == old(self)@.ep,
            final(self)@.eo == old(self)@.eo,
            final(self)@.wf(),
            final(self)@.co.take(7) == base_decode(twist as int, 7, 3),
            twist_of(final(self)@) == twist,
            seq_sum(final(self)@.co) % 3 == 0,
    {
        let mut t: u16 = twist;
        let mut parity: u16 = 0;
        let mut i: usize = 7;
        while i > 0
            invariant
                i <= 7,
                t >= 0,
                base_decode(t as int, i as nat, 3).add(self@.co.subrange(i as int, 7))
                    =~= base_decode(twist as int, 7, 3),
                parity == seq_sum(self@.co.subrange(i as int, 7)),
                parity <= 2 * (7 - i),
                forall|j: int| i <= j < 8 ==> self@.co[j] < 3,
                self@.cp == old(self)@.cp,
                self@.ep == old(self)@.ep,
                self@.eo == old(self)@.eo,
            decreases i,
        {
            let ghost pre = self@.co;
            let ghost t0 = t as int;
            let d = (t % 3) as u8;
            i = i - 1;
            self.co[i] = d;
            parity = parity + (t % 3);
            t = t / 3;
            proof {
                assert(self@.co.subrange(i as int, 7) =~= seq![d].add(
                    pre.subrange(i + 1, 7),
                ));
                assert(base_decode(t as int, i as nat, 3).push(d) =~= base_decode(
                    t0,
                    (i + 1) as nat,
                    3,
                ));
                assert(base_decode(t as int, i as nat, 3).add(self@.co.subrange(i as int, 7))
                    =~= base_decode(t0, (i + 1) as nat, 3).add(pre.subrange(i + 1, 7)));
                lemma_seq_sum_prepend(d, pre.subrange(i + 1, 7));
            }
        }
        let last = ((3 - parity % 3) % 3) as u8;
        let ghost sub7 = self@.co.subrange(0, 7);
        self.co[7] = last;
        proof {
            assert(base_decode(twist as int, 7, 3) =~= sub7);
            assert(self@.co.take(7) =~= sub7);
            lemma_encode_decode(twist as int, 7, 3);
            reveal_with_fuel(base_pow, 9);
            assert(base_pow(3, 7) == 2187);
            lemma_small_mod(twist as nat, 2187);
            assert(self@.co.drop_last() =~= sub7);
            assert(seq_sum(self@.co) == parity + last);
            assert((parity + (3 - parity % 3) % 3) % 3 == 0) by (nonlinear_arith);
        }
    }

    /// Set the edge orientations so that the flip coordinate becomes `flip`:
    /// the first eleven slots take its base-2 digits and the twelfth restores
    /// the sum-of-flips invariant.
    #[verifier::loop_isolation(false)]
    pub fn set_flip(&mut self, flip: u16)
        requires
            old(self)@.wf(),
            flip < 2048,
        ensures
            final(self)@.cp == old(self)@.cp,
            final(self)@.co == old(self)@.co,
            final(self)@.ep == old(self)@.ep,
            final(self)@.wf(),
            final(self)@.eo.take(11) == base_decode(flip as int, 11, 2),
            flip_of(final(self)@) == flip,
            seq_sum(final(self)@.eo) % 2 == 0,
    {
        let mut t: u16 = flip;
        let mut parity: u16 = 0;
        let mut i: usize = 11;
        while i > 0
            invariant
                i <= 11,
                base_decode(t as int, i as nat, 2).add(self@.eo.subrange(i as int, 11))
                    =~= base_decode(flip as int, 11, 2),
                parity == seq_sum(self@.eo.subrange(i as int, 11)),
                parity <= 11 - i,
                forall|j: int| i <= j < 12 ==> self@.eo[j] < 2,
                self@.cp == old(self)@.cp,
                self@.co == old(self)@.co,
                self@.ep == old(self)@.ep,
            decreases i,
        {
            let ghost pre = self@.eo;
            let ghost t0 = t as int;
            let d = (t % 2) as u8;
            i = i - 1;
            self.eo[i] = d;
            parity = parity + (t % 2);
            t = t / 2;
            proof {
                assert(self@.eo.subrange(i as int, 11) =~= seq![d].add(
                    pre.subrange(i + 1, 11),
                ));
                assert(base_decode(t as int, i as nat, 2).push(d) =~= base_decode(
                    t0,
                    (i + 1) as nat,
                    2,
                ));
                assert(base_decode(t as int, i as nat, 2).add(self@.eo.subrange(i as int, 11))
                    =~= base_decode(t0, (i + 1) as nat, 2).add(pre.subrange(i + 1, 11)));
                lemma_seq_sum_prepend(d, pre.subrange(i + 1, 11));
            }
        }
        let last = ((2 - parity % 2) % 2) as u8;
        let ghost sub11 = self@.eo.subrange(0, 11);
        self.eo[11] = last;
        proof {
            assert(base_decode(flip as int, 11, 2) =~= sub11);
            assert(self@.eo.take(11) =~= sub11);
            lemma_encode_decode(flip as int, 11, 2);
            reveal_with_fuel(base_pow, 13);
            assert(base_pow(2, 11) == 2048);
            lemma_small_mod(flip as nat, 2048);
            assert(self@.eo.drop_last() =~= sub11);
            assert(seq_sum(self@.eo) == parity + last);
            assert((parity + (2 - parity % 2) % 2) % 2 == 0) by (nonlinear_arith);
        }
    }
}

/// Round trip law of the twist coordinate: a state whose first seven corner
/// orientations are the base-3 digits of `v` — as `set_twist` writes them —
/// reads back as twist `v`.
pub proof fn lemma_twist_round_trip(m: CubeModel, v: int)
    requires
        0 <= v < 2187,
        m.co.take(7) == base_decode(v, 7, 3),
    ensures
        twist_of(m) == v,
{
    lemma_encode_decode(v, 7, 3);
    reveal_with_fuel(base_pow, 9);
    assert(base_pow(3, 7) == 2187);
    lemma_small_mod(v as nat, 2187);
}

/// Round trip law of the flip coordinate: a state whose first eleven edge
/// orientations are the base-2 digits of `v` — as `set_flip` writes them —
/// reads back as flip `v`.
pub proof fn lemma_flip_round_trip(m: CubeModel, v: int)
    requires
        0 <= v < 2048,
        m.eo.take(11) == base_decode(v, 11, 2),
    ensures
        flip_of(m) == v,
{
    lemma_encode_decode(v, 11, 2);
    reveal_with_fuel(base_pow, 13);
    assert(base_pow(2, 11) == 2048);
    lemma_small_mod(v as nat, 2048);
}

} // verus!
