//! The group laws of the move algebra: composition preserves
//! well-formedness, is associative, has the solved state as its identity,
//! every face turn has order four, and a move sequence followed by its
//! move-by-move inverse returns to where it started.

use crate::cube::{id_model, mult, CubeModel};
use crate::moves::{
    apply_moves, base_model, inverse_seq, lemma_base_model_wf, move_b_model, move_d_model,
    move_f_model, move_l_model, move_model, move_r_model, move_u_model, pow_model, Move,
};
use vstd::arithmetic::div_mod::{lemma_add_mod_noop, lemma_mod_division_less_than_divisor};
use vstd::prelude::*;

verus! {

/// The solved state is structurally well-formed.
pub proof fn lemma_id_wf()
    ensures
        id_model().wf(),
{
}

/// Composition of well-formed states is well-formed.
pub proof fn lemma_mult_wf(a: CubeModel, b: CubeModel)
    requires
        a.wf(),
        b.wf(),
    ensures
        mult(a, b).wf(),
{
    assert forall|i: int| 0 <= i < 8 implies mult(a, b).cp[i] < 8 && mult(a, b).co[i] < 3 by {
        lemma_mod_division_less_than_divisor(a.co[b.cp[i] as int] + b.co[i], 3);
    }
    assert forall|i: int| 0 <= i < 12 implies mult(a, b).ep[i] < 12 && mult(a, b).eo[i] < 2 by {
        lemma_mod_division_less_than_divisor(a.eo[b.ep[i] as int] + b.eo[i], 2);
    }
}

/// The solved state is a right identity of composition.
pub proof fn lemma_mult_id_right(a: CubeModel)
    requires
        a.wf(),
    ensures
        mult(a, id_model()) == a,
{
    assert(mult(a, id_model()).cp =~= a.cp);
    assert(mult(a, id_model()).co =~= a.co);
    assert(mult(a, id_model()).ep =~= a.ep);
    assert(mult(a, id_model()).eo =~= a.eo);
    assert(mult(a, id_model()) =~= a);
}

/// The solved state is a left identity of composition.
pub proof fn lemma_mult_id_left(a: CubeModel)
    requires
        a.wf(),
    ensures
        mult(id_model(), a) == a,
{
    assert(mult(id_model(), a).cp =~= a.cp);
    assert(mult(id_model(), a).co =~= a.co);
    assert(mult(id_model(), a).ep =~= a.ep);
    assert(mult(id_model(), a).eo =~= a.eo);
    assert(mult(id_model(), a) =~= a);
}

/// Composition of cube states is associative.
pub proof fn lemma_mult_assoc(a: CubeModel, b: CubeModel, c: CubeModel)
    requires
        a.wf(),
        b.wf(),
        c.wf(),
    ensures
        mult(mult(a, b), c) == mult(a, mult(b, c)),
{
    let l = mult(mult(a, b), c);
    let r = mult(a, mult(b, c));
    assert(l.cp =~= r.cp);
    assert(l.ep =~= r.ep);
    assert forall|i: int| 0 <= i < 8 implies l.co[i] == r.co[i] by {
        let x = a.co[b.cp[c.cp[i] as int] as int] as int;
        let y = b.co[c.cp[i] as int] as int;
        let z = c.co[i] as int;
        assert((x % 3 + (y + z) % 3) % 3 == (x + y + z) % 3) by {
            lemma_add_mod_noop(x, y + z, 3);
        }
        assert(((x + y) % 3 + z % 3) % 3 == (x + y + z) % 3) by {
            lemma_add_mod_noop(x + y, z, 3);
        }
        assert(x % 3 == x && z % 3 == z);
    }
    assert forall|i: int| 0 <= i < 12 implies l.eo[i] == r.eo[i] by {
        let x = a.eo[b.ep[c.ep[i] as int] as int] as int;
        let y = b.eo[c.ep[i] as int] as int;
        let z = c.eo[i] as int;
        assert((x % 2 + (y + z) % 2) % 2 == (x + y + z) % 2) by {
            lemma_add_mod_noop(x, y + z, 2);
        }
        assert(((x + y) % 2 + z % 2) % 2 == (x + y + z) % 2) by {
            lemma_add_mod_noop(x + y, z, 2);
        }
        assert(x % 2 == x && z % 2 == z);
    }
    assert(l.co =~= r.co);
    assert(l.eo =~= r.eo);
    assert(l =~= r);
}

/// Iterated application of a well-formed move stays well-formed.
pub proof fn lemma_pow_wf(b: CubeModel, n: nat)
    requires
        b.wf(),
    ensures
        pow_model(b, n).wf(),
    decreases n,
{
    if n == 0 {
        lemma_id_wf();
    } else {
        lemma_pow_wf(b, (n - 1) as nat);
        lemma_mult_wf(pow_model(b, (n - 1) as nat), b);
    }
}

/// Applying a move `m + n` times is applying it `m` times, then `n` times.
pub proof fn lemma_pow_add(b: CubeModel, m: nat, n: nat)
    requires
        b.wf(),
    ensures
        pow_model(b, m + n) == mult(pow_model(b, m), pow_model(b, n)),
    decreases n,
{
    lemma_pow_wf(b, m);
    if n == 0 {
        lemma_mult_id_right(pow_model(b, m));
    } else {
        let k = (n - 1) as nat;
        lemma_pow_add(b, m, k);
        lemma_pow_wf(b, k);
        lemma_mult_assoc(pow_model(b, m), pow_model(b, k), b);
        assert(pow_model(b, (m + n) as nat) == mult(pow_model(b, m + k), b));
    }
}

/// Iterating an iterated move multiplies the exponents.
pub proof fn lemma_pow_mul(b: CubeModel, t: nat, k: nat)
    requires
        b.wf(),
    ensures
        pow_model(pow_model(b, t), k) == pow_model(b, t * k),
    decreases k,
{
    if k == 0 {
        assert(t * 0 == 0) by (nonlinear_arith);
    } else {
        let j = (k - 1) as nat;
        lemma_pow_mul(b, t, j);
        lemma_pow_add(b, t * j, t);
        assert(t * j + t == t * k) by (nonlinear_arith)
            requires
                k >= 1,
                j == k - 1,
        ;
    }
}

/// Four quarter turns of the U face restore the solved state.
#[verifier::rlimit(100)]
proof fn lemma_base_order_u()
    ensures
        pow_model(move_u_model(), 4) == id_model(),
{
    reveal_with_fuel(pow_model, 6);
    let p = pow_model(move_u_model(), 4);
    assert(p.cp =~= id_model().cp);
    assert(p.co =~= id_model().co);
    assert(p.ep =~= id_model().ep);
    assert(p.eo =~= id_model().eo);
    assert(p =~= id_model());
}

/// Four quarter turns of the R face restore the solved state.
#[verifier::rlimit(100)]
proof fn lemma_base_order_r()
    ensures
        pow_model(move_r_model(), 4) == id_model(),
{
    reveal_with_fuel(pow_model, 6);
    let p = pow_model(move_r_model(), 4);
    assert(p.cp =~= id_model().cp);
    assert(p.co =~= id_model().co);
    assert(p.ep =~= id_model().ep);
    assert(p.eo =~= id_model().eo);
    assert(p =~= id_model());
}

/// Four quarter turns of the F face restore the solved state.
#[verifier::rlimit(100)]
proof fn lemma_base_order_f()
    ensures
        pow_model(move_f_model(), 4) == id_model(),
{
    reveal_with_fuel(pow_model, 6);
    let p = pow_model(move_f_model(), 4);
    assert(p.cp =~= id_model().cp);
    assert(p.co =~= id_model().co);
    assert(p.ep =~= id_model().ep);
    assert(p.eo =~= id_model().eo);
    assert(p =~= id_model());
}

/// Four quarter turns of the D face restore the solved state.
#[verifier::rlimit(100)]
proof fn lemma_base_order_d()
    ensures
        pow_model(move_d_model(), 4) == id_model(),
{
    reveal_with_fuel(pow_model, 6);
    let p = pow_model(move_d_model(), 4);
    assert(p.cp =~= id_model().cp);
    assert(p.co =~= id_model().co);
    assert(p.ep =~= id_model().ep);
    assert(p.eo =~= id_model().eo);
    assert(p =~= id_model());
}

/// Four quarter turns of the L face restore the solved state.
#[verifier::rlimit(100)]
proof fn lemma_base_order_l()
    ensures
        pow_model(move_l_model(), 4) == id_model(),
{
    reveal_with_fuel(pow_model, 6);
    let p = pow_model(move_l_model(), 4);
    assert(p.cp =~= id_model().cp);
    assert(p.co =~= id_model().co);
    assert(p.ep =~= id_model().ep);
    assert(p.eo =~= id_model().eo);
    assert(p =~= id_model());
}

/// Four quarter turns of the B face restore the solved state.
#[verifier::rlimit(100)]
proof fn lemma_base_order_b()
    ensures
        pow_model(move_b_model(), 4) == id_model(),
{
    reveal_with_fuel(pow_model, 6);
    let p = pow_model(move_b_model(), 4);
    assert(p.cp =~= id_model().cp);
    assert(p.co =~= id_model().co);
    assert(p.ep =~= id_model().ep);
    assert(p.eo =~= id_model().eo);
    assert(p =~= id_model());
}

/// Four quarter turns of any face restore the solved state.
pub proof fn lemma_base_order(f: int)
    ensures
        pow_model(base_model(f), 4) == id_model(),
{
    if f == 0 {
        lemma_base_order_u();
    } else if f == 1 {
        lemma_base_order_r();
    } else if f == 2 {
        lemma_base_order_f();
    } else if f == 3 {
        lemma_base_order_d();
    } else if f == 4 {
        lemma_base_order_l();
    } else {
        lemma_base_order_b();
    }
}

/// The cube state of every move is well-formed.
pub proof fn lemma_move_model_wf(m: Move)
    ensures
        move_model(m).wf(),
{
    lemma_base_model_wf(m.face());
    lemma_pow_wf(base_model(m.face()), m.turns() as nat);
}

/// Every move returns the cube to the solved state after four applications;
/// a half turn already after two.
pub proof fn lemma_move_order(m: Move)
    ensures
        pow_model(move_model(m), 4) == id_model(),
        m.turns() == 2 ==> pow_model(move_model(m), 2) == id_model(),
{
    let b = base_model(m.face());
    let t = m.turns() as nat;
    lemma_base_model_wf(m.face());
    lemma_base_order(m.face());
    lemma_id_wf();
    lemma_pow_mul(b, t, 4);
    assert(t * 4 == 4 * t) by (nonlinear_arith);
    if t == 1 {
        assert(pow_model(b, 4) == id_model());
    } else if t == 2 {
        lemma_pow_add(b, 4, 4);
        lemma_mult_id_right(id_model());
        assert(pow_model(b, 8) == id_model());
        lemma_pow_mul(b, 2, 2);
    } else {
        lemma_pow_add(b, 4, 4);
        lemma_mult_id_right(id_model());
        assert(pow_model(b, 8) == id_model());
        lemma_pow_add(b, 8, 4);
        assert(pow_model(b, 12) == id_model());
    }
}

/// A move composed with its inverse is no move at all.
pub proof fn lemma_move_inverse_cancel(m: Move)
    ensures
        mult(move_model(m), move_model(m.inverse())) == id_model(),
{
    let b = base_model(m.face());
    lemma_base_model_wf(m.face());
    assert(m.inverse().face() == m.face());
    assert(m.inverse().turns() == 4 - m.turns());
    lemma_pow_add(b, m.turns() as nat, m.inverse().turns() as nat);
    lemma_base_order(m.face());
}

/// Splitting a move sequence splits its application.
pub proof fn lemma_apply_moves_add(s: CubeModel, xs: Seq<Move>, ys: Seq<Move>)
    ensures
        apply_moves(s, xs.add(ys)) == apply_moves(apply_moves(s, xs), ys),
    decreases xs.len(),
{
    if xs.len() == 0 {
        assert(xs.add(ys) =~= ys);
    } else {
        assert(xs.add(ys).drop_first() =~= xs.drop_first().add(ys));
        assert(xs.add(ys)[0] == xs[0]);
        lemma_apply_moves_add(mult(s, move_model(xs[0])), xs.drop_first(), ys);
    }
}

/// Applying a single move is one composition.
pub proof fn lemma_apply_one(s: CubeModel, m: Move)
    ensures
        apply_moves(s, seq![m]) == mult(s, move_model(m)),
{
    assert(seq![m].drop_first() =~= Seq::<Move>::empty());
    assert(apply_moves(mult(s, move_model(seq![m][0])), seq![m].drop_first()) == mult(
        s,
        move_model(m),
    ));
}

/// Applying moves to a well-formed state keeps it well-formed.
pub proof fn lemma_apply_moves_wf(s: CubeModel, ms: Seq<Move>)
    requires
        s.wf(),
    ensures
        apply_moves(s, ms).wf(),
    decreases ms.len(),
{
    if ms.len() > 0 {
        lemma_move_model_wf(ms[0]);
        lemma_mult_wf(s, move_model(ms[0]));
        lemma_apply_moves_wf(mult(s, move_model(ms[0])), ms.drop_first());
    }
}

/// A sequence of moves followed by its move-by-move inverse (reversed order,
/// each move inverted) returns every well-formed state to itself.
pub proof fn lemma_inverse_sequence(s: CubeModel, ms: Seq<Move>)
    requires
        s.wf(),
    ensures
        apply_moves(apply_moves(s, ms), inverse_seq(ms)) == s,
    decreases ms.len(),
{
    if ms.len() == 0 {
        assert(inverse_seq(ms) =~= Seq::<Move>::empty());
    } else {
        let last = ms.last();
        let front = ms.drop_last();
        let a = apply_moves(s, front);
        assert(ms =~= front.push(last));
        assert(front.push(last) =~= front.add(seq![last]));
        lemma_apply_moves_add(s, front, seq![last]);
        lemma_apply_one(a, last);
        assert(apply_moves(s, ms) == mult(a, move_model(last)));
        assert(inverse_seq(ms) =~= seq![last.inverse()].add(inverse_seq(front)));
        lemma_apply_moves_add(apply_moves(s, ms), seq![last.inverse()], inverse_seq(front));
        lemma_apply_one(mult(a, move_model(last)), last.inverse());
        lemma_apply_moves_wf(s, front);
        lemma_move_model_wf(last);
        lemma_move_model_wf(last.inverse());
        lemma_mult_assoc(a, move_model(last), move_model(last.inverse()));
        lemma_move_inverse_cancel(last);
        lemma_mult_id_right(a);
        assert(apply_moves(apply_moves(s, ms), seq![last.inverse()]) == a);
        lemma_inverse_sequence(s, front);
        assert(apply_moves(a, inverse_seq(front)) == s);
    }
}

} // verus!
