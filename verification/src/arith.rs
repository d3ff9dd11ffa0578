use vstd::prelude::*;

use crate::ast::{
    spec_and, spec_app2, spec_desugar, ite_of, spec_mult, spec_not, spec_or, spec_plus,
    spec_plus_step, rec_of, svar, AST,
};
use crate::step::{
    is_normal, law_normal_form_of_reduct, law_step_preserves_normal_form,
    lemma_normal_form_of_normal, lemma_normal_form_unique, lemma_run_normal, normal_form,
    normalizes, run, spec_step, spec_whnf,
};
use crate::term::{
    free_in, lemma_subst_nat, lemma_subst_not_free, spec_app, spec_lam, spec_nat, spec_subst,
    SpecTerm,
};

verus! {

// ---------------------------------------------------------------------------
// Reduction under successors
// ---------------------------------------------------------------------------

/// `Succ^a(t)`
pub open spec fn succs(a: nat, t: SpecTerm) -> SpecTerm
    decreases a,
{
    if a == 0 {
        t
    } else {
        SpecTerm::Succ(Box::new(succs((a - 1) as nat, t)))
    }
}

proof fn lemma_succs_nat(a: nat, b: nat)
    ensures
        succs(a, spec_nat(b)) == spec_nat((a + b) as nat),
    decreases a,
{
    if a > 0 {
        lemma_succs_nat((a - 1) as nat, b);
        assert((a - 1) as nat + b == (a + b - 1) as nat);
    }
}

/// Numerals are normal.
pub proof fn lemma_nat_normal(k: nat)
    ensures
        is_normal(spec_nat(k)),
    decreases k,
{
    if k > 0 {
        lemma_nat_normal((k - 1) as nat);
    }
}

proof fn lemma_run_succ(t: SpecTerm, j: nat)
    ensures
        run(SpecTerm::Succ(Box::new(t)), j) == SpecTerm::Succ(Box::new(run(t, j))),
    decreases j,
{
    if j > 0 {
        match spec_step(t) {
            Some(u) => {
                lemma_run_succ(u, (j - 1) as nat);
            },
            None => {},
        }
    }
}

proof fn lemma_run_succs(a: nat, t: SpecTerm, j: nat)
    ensures
        run(succs(a, t), j) == succs(a, run(t, j)),
    decreases a,
{
    if a > 0 {
        lemma_run_succ(succs((a - 1) as nat, t), j);
        lemma_run_succs((a - 1) as nat, t, j);
    }
}

/// One step, then `k` more.
pub(crate) proof fn lemma_run_step(t: SpecTerm, u: SpecTerm, k: nat)
    requires
        spec_step(t) == Some(u),
    ensures
        run(t, k + 1) == run(u, k),
{
}

// ---------------------------------------------------------------------------
// Addition
// ---------------------------------------------------------------------------

/// `rec a x (\pred. \ih. succ ih)`: what `plus a x` becomes after one step.
pub open spec fn plus_rec(a: nat, x: SpecTerm) -> SpecTerm {
    rec_of(spec_nat(a), x, spec_plus_step())
}

pub(crate) proof fn lemma_names_distinct()
    ensures
        "n"@ != "m"@,
        "n"@ != "pred"@,
        "n"@ != "ih"@,
        "m"@ != "pred"@,
        "m"@ != "ih"@,
        "pred"@ != "ih"@,
{
    reveal_strlit("n");
    reveal_strlit("m");
    reveal_strlit("pred");
    reveal_strlit("ih");
    assert("n"@.len() == 1);
    assert("m"@.len() == 1);
    assert("pred"@.len() == 4);
    assert("ih"@.len() == 2);
    assert("n"@[0] != "m"@[0]);
}

/// `\pred. \ih. succ ih` is closed.
proof fn lemma_subst_plus_step(x: Seq<char>, v: SpecTerm)
    ensures
        spec_subst(spec_plus_step(), x, v) == spec_plus_step(),
{
    let ih = svar("ih"@);
    let s = SpecTerm::Succ(Box::new(ih));
    let inner = spec_lam("ih"@, s);
    if x != "ih"@ {
        assert(spec_subst(ih, x, v) == ih);
        assert(spec_subst(s, x, v) == s);
    }
    assert(spec_subst(inner, x, v) == inner);
}

/// `plus` is closed.
proof fn lemma_subst_plus(x: Seq<char>, v: SpecTerm)
    ensures
        spec_subst(spec_plus(), x, v) == spec_plus(),
{
    lemma_names_distinct();
    lemma_subst_plus_step(x, v);
    let body = rec_of(svar("n"@), svar("m"@), spec_plus_step());
    let inner = spec_lam("m"@, body);
    if x != "n"@ && x != "m"@ {
        assert(spec_subst(svar("n"@), x, v) == svar("n"@));
        assert(spec_subst(svar("m"@), x, v) == svar("m"@));
        assert(spec_subst(body, x, v) == body);
    }
    if x != "n"@ {
        assert(spec_subst(inner, x, v) == inner);
    }
}

/// `plus a x` steps to `rec a x (\pred. \ih. succ ih)`.
proof fn lemma_plus_unfold(a: nat, x: SpecTerm)
    ensures
        spec_step(spec_app2(spec_plus(), spec_nat(a), x)) == Some(plus_rec(a, x)),
{
    lemma_names_distinct();
    lemma_subst_nat(a, "m"@, x);
    lemma_subst_plus_step("n"@, spec_nat(a));
    lemma_subst_plus_step("m"@, x);
    let body = rec_of(svar("n"@), svar("m"@), spec_plus_step());
    let body_a = rec_of(spec_nat(a), svar("m"@), spec_plus_step());
    assert(spec_subst(svar("n"@), "n"@, spec_nat(a)) == spec_nat(a));
    assert(spec_subst(svar("m"@), "n"@, spec_nat(a)) == svar("m"@));
    assert(spec_subst(body, "n"@, spec_nat(a)) == body_a);
    assert(spec_subst(spec_lam("m"@, body), "n"@, spec_nat(a)) == spec_lam("m"@, body_a));
    assert(spec_whnf(spec_plus()) == spec_plus());
    assert(spec_whnf(spec_app(spec_plus(), spec_nat(a))) == spec_lam("m"@, body_a));
    assert(spec_subst(svar("m"@), "m"@, x) == x);
    assert(spec_subst(body_a, "m"@, x) == plus_rec(a, x));
}

/// `rec a x (\pred. \ih. succ ih)` reduces, in `2a + 1` steps, to `Succ^a(x)`,
/// and then reduces inside the successors as `x` does.
proof fn lemma_plus_rec_runs(a: nat, x: SpecTerm, j: nat)
    ensures
        run(plus_rec(a, x), 2 * a + 1 + j) == succs(a, run(x, j)),
    decreases a,
{
    if a == 0 {
        lemma_run_step(plus_rec(a, x), x, j);
    } else {
        lemma_names_distinct();
        let prev = plus_rec((a - 1) as nat, x);
        let unfolded = spec_app(
            spec_app(spec_plus_step(), spec_nat((a - 1) as nat)),
            prev,
        );
        let next = SpecTerm::Succ(Box::new(prev));
        assert(spec_step(plus_rec(a, x)) == Some(unfolded));
        let ih_body = SpecTerm::Succ(Box::new(svar("ih"@)));
        assert(spec_subst(svar("ih"@), "pred"@, spec_nat((a - 1) as nat)) == svar("ih"@));
        assert(spec_subst(ih_body, "pred"@, spec_nat((a - 1) as nat)) == ih_body);
        assert(spec_subst(spec_lam("ih"@, ih_body), "pred"@, spec_nat((a - 1) as nat))
            == spec_lam("ih"@, ih_body));
        assert(spec_subst(svar("ih"@), "ih"@, prev) == prev);
        assert(spec_subst(ih_body, "ih"@, prev) == next);
        assert(spec_whnf(spec_plus_step()) == spec_plus_step());
        assert(spec_whnf(spec_app(spec_plus_step(), spec_nat((a - 1) as nat))) == spec_lam(
            "ih"@,
            ih_body,
        ));
        assert(spec_step(unfolded) == Some(next));
        let k: nat = (2 * (a - 1) + 1 + j) as nat;
        lemma_run_step(unfolded, next, k);
        lemma_run_step(plus_rec(a, x), unfolded, (k + 1) as nat);
        assert(2 * a + 1 + j == (k + 1) + 1);
        lemma_run_succ(prev, k);
        lemma_plus_rec_runs((a - 1) as nat, x, j);
    }
}

/// `plus` adds: applied to the numerals for `n` and `m` it normalizes to the
/// numeral for `n + m`.
pub proof fn law_plus_adds(n: nat, m: nat)
    ensures
        normalizes(spec_app2(spec_plus(), spec_nat(n), spec_nat(m))),
        normal_form(spec_app2(spec_plus(), spec_nat(n), spec_nat(m))) == spec_nat(n + m),
{
    let t = spec_app2(spec_plus(), spec_nat(n), spec_nat(m));
    lemma_plus_unfold(n, spec_nat(m));
    lemma_plus_rec_runs(n, spec_nat(m), 0);
    lemma_run_step(t, plus_rec(n, spec_nat(m)), 2 * n + 1);
    lemma_succs_nat(n, m);
    lemma_nat_normal(n + m);
    lemma_normal_form_unique(t, 2 * n + 2);
}

/// `a + b` on two literals evaluates to their sum, in any module.
pub proof fn law_add_evaluates(a: u64, b: u64, env: Seq<(Seq<char>, SpecTerm)>)
    ensures
        normalizes(spec_desugar(AST::Add(Box::new(AST::Nat(a)), Box::new(AST::Nat(b))), env)),
        normal_form(spec_desugar(AST::Add(Box::new(AST::Nat(a)), Box::new(AST::Nat(b))), env))
            == spec_nat((a + b) as nat),
{
    let e = AST::Add(Box::new(AST::Nat(a)), Box::new(AST::Nat(b)));
    assert(spec_desugar(AST::Nat(a), env) == spec_nat(a as nat));
    assert(spec_desugar(AST::Nat(b), env) == spec_nat(b as nat));
    assert(spec_desugar(e, env) == spec_app2(spec_plus(), spec_nat(a as nat), spec_nat(b as nat)));
    law_plus_adds(a as nat, b as nat);
}

// ---------------------------------------------------------------------------
// Multiplication
// ---------------------------------------------------------------------------

/// `\pred. \ih. plus arg ih`
pub open spec fn mult_step_with(arg: SpecTerm) -> SpecTerm {
    spec_lam("pred"@, spec_lam("ih"@, spec_app2(spec_plus(), arg, svar("ih"@))))
}

/// `rec k 0 (\pred. \ih. plus m ih)`: what `mult k m` becomes after one step.
pub open spec fn mult_rec(k: nat, m: nat) -> SpecTerm {
    rec_of(spec_nat(k), SpecTerm::Zero, mult_step_with(spec_nat(m)))
}

/// The number of steps `mult_rec(k, m)` takes to reach its normal form.
pub open spec fn mult_steps(k: nat, m: nat) -> nat
    decreases k,
{
    if k == 0 {
        1
    } else {
        2 * m + 4 + mult_steps((k - 1) as nat, m)
    }
}

proof fn lemma_subst_mult_step(arg: SpecTerm, x: Seq<char>, v: SpecTerm)
    requires
        x != "pred"@,
        x != "ih"@,
    ensures
        spec_subst(mult_step_with(arg), x, v) == mult_step_with(spec_subst(arg, x, v)),
{
    lemma_subst_plus(x, v);
    let ih = svar("ih"@);
    assert(spec_subst(ih, x, v) == ih);
    assert(spec_subst(spec_app(spec_plus(), arg), x, v) == spec_app(
        spec_plus(),
        spec_subst(arg, x, v),
    ));
    let body = spec_app2(spec_plus(), arg, ih);
    assert(spec_subst(body, x, v) == spec_app2(spec_plus(), spec_subst(arg, x, v), ih));
    assert(spec_subst(spec_lam("ih"@, body), x, v) == spec_lam(
        "ih"@,
        spec_app2(spec_plus(), spec_subst(arg, x, v), ih),
    ));
}

/// `mult n m` steps to `rec n 0 (\pred. \ih. plus m ih)`.
proof fn lemma_mult_unfold(n: nat, m: nat)
    ensures
        spec_step(spec_app2(spec_mult(), spec_nat(n), spec_nat(m))) == Some(mult_rec(n, m)),
{
    lemma_names_distinct();
    lemma_subst_nat(n, "m"@, spec_nat(m));
    lemma_subst_mult_step(svar("m"@), "n"@, spec_nat(n));
    lemma_subst_mult_step(svar("m"@), "m"@, spec_nat(m));
    assert(spec_subst(svar("m"@), "n"@, spec_nat(n)) == svar("m"@));
    assert(spec_subst(svar("m"@), "m"@, spec_nat(m)) == spec_nat(m));
    let ms = mult_step_with(svar("m"@));
    let body = rec_of(svar("n"@), SpecTerm::Zero, ms);
    let body_n = rec_of(spec_nat(n), SpecTerm::Zero, ms);
    assert(spec_subst(svar("n"@), "n"@, spec_nat(n)) == spec_nat(n));
    assert(spec_subst(ms, "n"@, spec_nat(n)) == ms);
    assert(spec_subst(SpecTerm::Zero, "n"@, spec_nat(n)) == SpecTerm::Zero);
    assert(spec_subst(body, "n"@, spec_nat(n)) == body_n);
    assert(spec_subst(spec_lam("m"@, body), "n"@, spec_nat(n)) == spec_lam("m"@, body_n));
    assert(spec_whnf(spec_mult()) == spec_mult());
    assert(spec_whnf(spec_app(spec_mult(), spec_nat(n))) == spec_lam("m"@, body_n));
    assert(spec_subst(ms, "m"@, spec_nat(m)) == mult_step_with(spec_nat(m)));
    assert(spec_subst(SpecTerm::Zero, "m"@, spec_nat(m)) == SpecTerm::Zero);
    assert(spec_subst(body_n, "m"@, spec_nat(m)) == mult_rec(n, m));
}

/// `rec k 0 (\pred. \ih. plus m ih)` reduces to the numeral for `m * k`.
proof fn lemma_mult_rec_runs(k: nat, m: nat)
    ensures
        run(mult_rec(k, m), mult_steps(k, m)) == spec_nat(m * k),
    decreases k,
{
    if k == 0 {
        assert(spec_step(mult_rec(k, m)) == Some(SpecTerm::Zero));
        lemma_run_step(mult_rec(k, m), SpecTerm::Zero, 0);
        assert(m * k == 0) by (nonlinear_arith)
            requires
                k == 0,
        ;
    } else {
        lemma_names_distinct();
        let q = mult_rec((k - 1) as nat, m);
        let step_m = mult_step_with(spec_nat(m));
        let a = spec_app(spec_app(step_m, spec_nat((k - 1) as nat)), q);
        let b = spec_app2(spec_plus(), spec_nat(m), q);
        assert(spec_step(mult_rec(k, m)) == Some(a));
        // `(\pred. \ih. plus m ih) (k - 1) q` steps to `plus m q`
        let ih = svar("ih"@);
        let inner = spec_app2(spec_plus(), spec_nat(m), ih);
        lemma_subst_plus("pred"@, spec_nat((k - 1) as nat));
        lemma_subst_plus("ih"@, q);
        lemma_subst_nat(m, "pred"@, spec_nat((k - 1) as nat));
        lemma_subst_nat(m, "ih"@, q);
        assert(spec_subst(ih, "pred"@, spec_nat((k - 1) as nat)) == ih);
        assert(spec_subst(spec_app(spec_plus(), spec_nat(m)), "pred"@, spec_nat((k - 1) as nat))
            == spec_app(spec_plus(), spec_nat(m)));
        assert(spec_subst(inner, "pred"@, spec_nat((k - 1) as nat)) == inner);
        assert(spec_subst(spec_lam("ih"@, inner), "pred"@, spec_nat((k - 1) as nat)) == spec_lam(
            "ih"@,
            inner,
        ));
        assert(spec_whnf(step_m) == step_m);
        assert(spec_whnf(spec_app(step_m, spec_nat((k - 1) as nat))) == spec_lam("ih"@, inner));
        assert(spec_subst(ih, "ih"@, q) == q);
        assert(spec_subst(spec_app(spec_plus(), spec_nat(m)), "ih"@, q) == spec_app(
            spec_plus(),
            spec_nat(m),
        ));
        assert(spec_subst(inner, "ih"@, q) == b);
        assert(spec_step(a) == Some(b));
        lemma_plus_unfold(m, q);
        let c = mult_steps((k - 1) as nat, m);
        lemma_mult_rec_runs((k - 1) as nat, m);
        lemma_plus_rec_runs(m, q, c);
        let rest: nat = 2 * m + 1 + c;
        lemma_run_step(b, plus_rec(m, q), rest);
        lemma_run_step(a, b, rest + 1);
        lemma_run_step(mult_rec(k, m), a, rest + 2);
        assert(mult_steps(k, m) == rest + 3);
        lemma_succs_nat(m, (m * (k - 1)) as nat);
        assert(m + m * (k - 1) == m * k) by (nonlinear_arith)
            requires
                k >= 1,
        ;
    }
}

/// `mult` multiplies: applied to the numerals for `n` and `m` it normalizes
/// to the numeral for `n * m`.
pub proof fn law_mult_multiplies(n: nat, m: nat)
    ensures
        normalizes(spec_app2(spec_mult(), spec_nat(n), spec_nat(m))),
        normal_form(spec_app2(spec_mult(), spec_nat(n), spec_nat(m))) == spec_nat(n * m),
{
    let t = spec_app2(spec_mult(), spec_nat(n), spec_nat(m));
    lemma_mult_unfold(n, m);
    lemma_mult_rec_runs(n, m);
    lemma_run_step(t, mult_rec(n, m), mult_steps(n, m));
    assert(m * n == n * m) by (nonlinear_arith);
    lemma_nat_normal(n * m);
    lemma_normal_form_unique(t, mult_steps(n, m) + 1);
}

/// `a * b` on two literals evaluates to their product, in any module.
pub proof fn law_mul_evaluates(a: u64, b: u64, env: Seq<(Seq<char>, SpecTerm)>)
    ensures
        normalizes(spec_desugar(AST::Mul(Box::new(AST::Nat(a)), Box::new(AST::Nat(b))), env)),
        normal_form(spec_desugar(AST::Mul(Box::new(AST::Nat(a)), Box::new(AST::Nat(b))), env))
            == spec_nat((a * b) as nat),
{
    let e = AST::Mul(Box::new(AST::Nat(a)), Box::new(AST::Nat(b)));
    assert(spec_desugar(AST::Nat(a), env) == spec_nat(a as nat));
    assert(spec_desugar(AST::Nat(b), env) == spec_nat(b as nat));
    assert(spec_desugar(e, env) == spec_app2(spec_mult(), spec_nat(a as nat), spec_nat(b as nat)));
    law_mult_multiplies(a as nat, b as nat);
}

// ---------------------------------------------------------------------------
// Booleans
// ---------------------------------------------------------------------------

/// The boolean literal for `b`.
pub open spec fn spec_bool(b: bool) -> SpecTerm {
    if b {
        SpecTerm::True
    } else {
        SpecTerm::False
    }
}

proof fn lemma_bool_names_distinct()
    ensures
        "b1"@ != "b2"@,
{
    reveal_strlit("b1");
    reveal_strlit("b2");
    assert("b1"@[1] != "b2"@[1]);
}

/// `and` is conjunction on boolean literals.
pub proof fn law_and(p: bool, q: bool)
    ensures
        normalizes(spec_app2(spec_and(), spec_bool(p), spec_bool(q))),
        normal_form(spec_app2(spec_and(), spec_bool(p), spec_bool(q))) == spec_bool(p && q),
{
    lemma_bool_names_distinct();
    let t = spec_app2(spec_and(), spec_bool(p), spec_bool(q));
    let b1 = svar("b1"@);
    let b2 = svar("b2"@);
    let body = ite_of(b1, b2, SpecTerm::False);
    let body_p = ite_of(spec_bool(p), b2, SpecTerm::False);
    let body_pq = ite_of(spec_bool(p), spec_bool(q), SpecTerm::False);
    assert(spec_subst(b1, "b1"@, spec_bool(p)) == spec_bool(p));
    assert(spec_subst(b2, "b1"@, spec_bool(p)) == b2);
    assert(spec_subst(SpecTerm::False, "b1"@, spec_bool(p)) == SpecTerm::False);
    assert(spec_subst(SpecTerm::True, "b1"@, spec_bool(p)) == SpecTerm::True);
    assert(spec_subst(SpecTerm::False, "b2"@, spec_bool(q)) == SpecTerm::False);
    assert(spec_subst(SpecTerm::True, "b2"@, spec_bool(q)) == SpecTerm::True);
    assert(spec_subst(body, "b1"@, spec_bool(p)) == body_p);
    assert(spec_subst(spec_lam("b2"@, body), "b1"@, spec_bool(p)) == spec_lam("b2"@, body_p));
    assert(spec_whnf(spec_and()) == spec_and());
    assert(spec_whnf(spec_app(spec_and(), spec_bool(p))) == spec_lam("b2"@, body_p));
    assert(spec_subst(spec_bool(p), "b2"@, spec_bool(q)) == spec_bool(p));
    assert(spec_subst(b2, "b2"@, spec_bool(q)) == spec_bool(q));
    assert(spec_subst(body_p, "b2"@, spec_bool(q)) == body_pq);
    assert(spec_step(t) == Some(body_pq));
    assert(spec_step(body_pq) == Some(spec_bool(p && q)));
    lemma_run_step(body_pq, spec_bool(p && q), 0);
    lemma_run_step(t, body_pq, 1);
    lemma_normal_form_unique(t, 2);
}

/// `or` is disjunction on boolean literals.
pub proof fn law_or(p: bool, q: bool)
    ensures
        normalizes(spec_app2(spec_or(), spec_bool(p), spec_bool(q))),
        normal_form(spec_app2(spec_or(), spec_bool(p), spec_bool(q))) == spec_bool(p || q),
{
    lemma_bool_names_distinct();
    let t = spec_app2(spec_or(), spec_bool(p), spec_bool(q));
    let b1 = svar("b1"@);
    let b2 = svar("b2"@);
    let body = ite_of(b1, SpecTerm::True, b2);
    let body_p = ite_of(spec_bool(p), SpecTerm::True, b2);
    let body_pq = ite_of(spec_bool(p), SpecTerm::True, spec_bool(q));
    assert(spec_subst(b1, "b1"@, spec_bool(p)) == spec_bool(p));
    assert(spec_subst(b2, "b1"@, spec_bool(p)) == b2);
    assert(spec_subst(SpecTerm::False, "b1"@, spec_bool(p)) == SpecTerm::False);
    assert(spec_subst(SpecTerm::True, "b1"@, spec_bool(p)) == SpecTerm::True);
    assert(spec_subst(SpecTerm::False, "b2"@, spec_bool(q)) == SpecTerm::False);
    assert(spec_subst(SpecTerm::True, "b2"@, spec_bool(q)) == SpecTerm::True);
    assert(spec_subst(body, "b1"@, spec_bool(p)) == body_p);
    assert(spec_subst(spec_lam("b2"@, body), "b1"@, spec_bool(p)) == spec_lam("b2"@, body_p));
    assert(spec_whnf(spec_or()) == spec_or());
    assert(spec_whnf(spec_app(spec_or(), spec_bool(p))) == spec_lam("b2"@, body_p));
    assert(spec_subst(spec_bool(p), "b2"@, spec_bool(q)) == spec_bool(p));
    assert(spec_subst(b2, "b2"@, spec_bool(q)) == spec_bool(q));
    assert(spec_subst(body_p, "b2"@, spec_bool(q)) == body_pq);
    assert(spec_step(t) == Some(body_pq));
    assert(spec_step(body_pq) == Some(spec_bool(p || q)));
    lemma_run_step(body_pq, spec_bool(p || q), 0);
    lemma_run_step(t, body_pq, 1);
    lemma_normal_form_unique(t, 2);
}

/// `not` is negation on boolean literals.
pub proof fn law_not(p: bool)
    ensures
        normalizes(spec_app(spec_not(), spec_bool(p))),
        normal_form(spec_app(spec_not(), spec_bool(p))) == spec_bool(!p),
{
    let t = spec_app(spec_not(), spec_bool(p));
    let body_p = ite_of(spec_bool(p), SpecTerm::False, SpecTerm::True);
    assert(spec_subst(svar("a"@), "a"@, spec_bool(p)) == spec_bool(p));
    assert(spec_subst(SpecTerm::False, "a"@, spec_bool(p)) == SpecTerm::False);
    assert(spec_subst(SpecTerm::True, "a"@, spec_bool(p)) == SpecTerm::True);
    assert(spec_step(t) == Some(body_p));
    assert(spec_step(body_p) == Some(spec_bool(!p)));
    lemma_run_step(body_p, spec_bool(!p), 0);
    lemma_run_step(t, body_p, 1);
    lemma_normal_form_unique(t, 2);
}

/// The boolean connectives on two literals evaluate to the boolean literal of
/// the connective, in any module.
pub proof fn law_connectives_evaluate(p: bool, q: bool, env: Seq<(Seq<char>, SpecTerm)>)
    ensures
        normal_form(spec_desugar(AST::And(Box::new(bool_ast(p)), Box::new(bool_ast(q))), env))
            == spec_bool(p && q),
        normal_form(spec_desugar(AST::Or(Box::new(bool_ast(p)), Box::new(bool_ast(q))), env))
            == spec_bool(p || q),
        normal_form(spec_desugar(AST::Not(Box::new(bool_ast(p))), env)) == spec_bool(!p),
        normalizes(spec_desugar(AST::And(Box::new(bool_ast(p)), Box::new(bool_ast(q))), env)),
        normalizes(spec_desugar(AST::Or(Box::new(bool_ast(p)), Box::new(bool_ast(q))), env)),
        normalizes(spec_desugar(AST::Not(Box::new(bool_ast(p))), env)),
{
    assert(spec_desugar(bool_ast(p), env) == spec_bool(p));
    assert(spec_desugar(bool_ast(q), env) == spec_bool(q));
    law_and(p, q);
    law_or(p, q);
    law_not(p);
}

/// The literal `true` or `false`.
pub open spec fn bool_ast(b: bool) -> AST {
    if b {
        AST::True
    } else {
        AST::False
    }
}

// ---------------------------------------------------------------------------
// Addition of operands that evaluate to numerals
// ---------------------------------------------------------------------------

/// A term whose head form is a numeral constructor either is that head form
/// or steps to it in one step.
pub proof fn lemma_head_form_of_number(t: SpecTerm)
    requires
        spec_whnf(t) is Zero || spec_whnf(t) is Succ,
    ensures
        t == spec_whnf(t) || spec_step(t) == Some(spec_whnf(t)),
{
}

/// Normalizing under a successor: `Succ t` normalizes exactly when `t` does,
/// to the successor of its normal form.
pub proof fn lemma_normal_form_succ(t: SpecTerm)
    requires
        normalizes(SpecTerm::Succ(Box::new(t))) || normalizes(t),
    ensures
        normalizes(t),
        normalizes(SpecTerm::Succ(Box::new(t))),
        normal_form(SpecTerm::Succ(Box::new(t))) == SpecTerm::Succ(Box::new(normal_form(t))),
{
    let st = SpecTerm::Succ(Box::new(t));
    if normalizes(st) {
        let k = choose|k: nat| is_normal(#[trigger] run(st, k));
        lemma_run_succ(t, k);
        lemma_normal_form_unique(t, k);
        lemma_normal_form_unique(st, k);
    } else {
        let k = choose|k: nat| is_normal(#[trigger] run(t, k));
        lemma_run_succ(t, k);
        lemma_normal_form_unique(t, k);
        lemma_normal_form_unique(st, k);
    }
}

/// `rec x b (\pred. \ih. succ ih)`, where `x` reduces to the numeral for `n`
/// in `k` steps and `b` normalizes to the numeral for `m`, normalizes to the
/// numeral for `n + m`.
proof fn lemma_plus_rec_composes(x: SpecTerm, b: SpecTerm, n: nat, m: nat, k: nat)
    requires
        is_normal(run(x, k)),
        run(x, k) == spec_nat(n),
        normalizes(b),
        normal_form(b) == spec_nat(m),
    ensures
        normalizes(rec_of(x, b, spec_plus_step())),
        normal_form(rec_of(x, b, spec_plus_step())) == spec_nat(n + m),
    decreases n, k,
{
    let r = rec_of(x, b, spec_plus_step());
    lemma_normal_form_unique(x, k);
    if spec_whnf(x) is Zero || spec_whnf(x) is Succ {
        let h = spec_whnf(x);
        lemma_head_form_of_number(x);
        if x != h {
            law_step_preserves_normal_form(x);
        }
        assert(normalizes(h) && normal_form(h) == spec_nat(n));
        if h is Zero {
            lemma_normal_form_of_normal(h);
            assert(n == 0);
            assert(spec_step(r) == Some(b));
            law_normal_form_of_reduct(r);
        } else {
            let p = h->Succ_0;
            let px = *p;
            assert(h == SpecTerm::Succ(Box::new(px)));
            lemma_normal_form_succ(px);
            assert(n > 0);
            assert(spec_nat(n) == SpecTerm::Succ(Box::new(spec_nat((n - 1) as nat))));
            assert(normal_form(px) == spec_nat((n - 1) as nat));
            let kx = choose|kx: nat| is_normal(#[trigger] run(px, kx));
            lemma_normal_form_unique(px, kx);
            let inner = rec_of(px, b, spec_plus_step());
            lemma_plus_rec_composes(px, b, (n - 1) as nat, m, kx);
            // `rec (succ px) b ps` unfolds, then the step adds a successor
            lemma_names_distinct();
            let unfolded = spec_app(spec_app(spec_plus_step(), px), inner);
            let next = SpecTerm::Succ(Box::new(inner));
            assert(spec_step(r) == Some(unfolded));
            let ih_body = SpecTerm::Succ(Box::new(svar("ih"@)));
            assert(spec_subst(svar("ih"@), "pred"@, px) == svar("ih"@));
            assert(spec_subst(ih_body, "pred"@, px) == ih_body);
            assert(spec_subst(spec_lam("ih"@, ih_body), "pred"@, px) == spec_lam("ih"@, ih_body));
            assert(spec_subst(svar("ih"@), "ih"@, inner) == inner);
            assert(spec_subst(ih_body, "ih"@, inner) == next);
            assert(spec_whnf(spec_plus_step()) == spec_plus_step());
            assert(spec_whnf(spec_app(spec_plus_step(), px)) == spec_lam("ih"@, ih_body));
            assert(spec_step(unfolded) == Some(next));
            lemma_normal_form_succ(inner);
            assert((n - 1) as nat + m + 1 == n + m);
            assert(spec_nat(n + m) == SpecTerm::Succ(Box::new(spec_nat((n - 1) as nat + m))));
            law_normal_form_of_reduct(unfolded);
            law_normal_form_of_reduct(r);
        }
    } else {
        if is_normal(x) {
            lemma_run_normal(x, k);
            assert(spec_whnf(spec_nat(n)) == spec_nat(n));
        }
        assert(!is_normal(x));
        assert(k > 0);
        let x2 = spec_step(x).unwrap();
        assert(run(x, k) == run(x2, (k - 1) as nat));
        assert(spec_step(r) == Some(rec_of(x2, b, spec_plus_step())));
        lemma_plus_rec_composes(x2, b, n, m, (k - 1) as nat);
        law_normal_form_of_reduct(r);
    }
}

/// `plus a b` steps to `rec a b (\pred. \ih. succ ih)` when the name `m`
/// does not occur free in `a`.
proof fn lemma_plus_unfold_terms(a: SpecTerm, b: SpecTerm)
    requires
        !free_in("m"@, a),
    ensures
        spec_step(spec_app2(spec_plus(), a, b)) == Some(rec_of(a, b, spec_plus_step())),
{
    lemma_names_distinct();
    lemma_subst_not_free(a, "m"@, b);
    lemma_subst_plus_step("n"@, a);
    lemma_subst_plus_step("m"@, b);
    let body = rec_of(svar("n"@), svar("m"@), spec_plus_step());
    let body_a = rec_of(a, svar("m"@), spec_plus_step());
    assert(spec_subst(svar("n"@), "n"@, a) == a);
    assert(spec_subst(svar("m"@), "n"@, a) == svar("m"@));
    assert(spec_subst(body, "n"@, a) == body_a);
    assert(spec_subst(spec_lam("m"@, body), "n"@, a) == spec_lam("m"@, body_a));
    assert(spec_whnf(spec_plus()) == spec_plus());
    assert(spec_whnf(spec_app(spec_plus(), a)) == spec_lam("m"@, body_a));
    assert(spec_subst(svar("m"@), "m"@, b) == b);
    assert(spec_subst(body_a, "m"@, b) == rec_of(a, b, spec_plus_step()));
}

/// `plus` adds whatever its operands evaluate to: if `a` normalizes to the
/// numeral for `n` and `b` to the numeral for `m`, `plus a b` normalizes to
/// the numeral for `n + m` (provided the name `m` does not occur free in `a`,
/// where substitution would capture it).
pub proof fn law_plus_composes(a: SpecTerm, b: SpecTerm, n: nat, m: nat)
    requires
        normalizes(a),
        normal_form(a) == spec_nat(n),
        normalizes(b),
        normal_form(b) == spec_nat(m),
        !free_in("m"@, a),
    ensures
        normalizes(spec_app2(spec_plus(), a, b)),
        normal_form(spec_app2(spec_plus(), a, b)) == spec_nat(n + m),
{
    lemma_plus_unfold_terms(a, b);
    let k = choose|k: nat| is_normal(#[trigger] run(a, k));
    lemma_nat_normal(n);
    lemma_plus_rec_composes(a, b, n, m, k);
    law_normal_form_of_reduct(spec_app2(spec_plus(), a, b));
}

/// `e1 + e2` evaluates to the sum of what its operands evaluate to, in any
/// module (provided the name `m` does not occur free in the first operand).
pub proof fn law_add_composes(
    e1: AST,
    e2: AST,
    env: Seq<(Seq<char>, SpecTerm)>,
    n: nat,
    m: nat,
)
    requires
        normalizes(spec_desugar(e1, env)),
        normal_form(spec_desugar(e1, env)) == spec_nat(n),
        normalizes(spec_desugar(e2, env)),
        normal_form(spec_desugar(e2, env)) == spec_nat(m),
        !free_in("m"@, spec_desugar(e1, env)),
    ensures
        normalizes(spec_desugar(AST::Add(Box::new(e1), Box::new(e2)), env)),
        normal_form(spec_desugar(AST::Add(Box::new(e1), Box::new(e2)), env)) == spec_nat(n + m),
{
    law_plus_composes(spec_desugar(e1, env), spec_desugar(e2, env), n, m);
}

/// `rec x 0 (\pred. \ih. plus b ih)`, where `x` reduces to the numeral for
/// `n` in `k` steps and `b` normalizes to the numeral for `m`, normalizes to
/// the numeral for `n * m`.
proof fn lemma_mult_rec_composes(x: SpecTerm, b: SpecTerm, n: nat, m: nat, k: nat)
    requires
        is_normal(run(x, k)),
        run(x, k) == spec_nat(n),
        normalizes(b),
        normal_form(b) == spec_nat(m),
        !free_in("m"@, b),
        !free_in("pred"@, b),
        !free_in("ih"@, b),
    ensures
        normalizes(rec_of(x, SpecTerm::Zero, mult_step_with(b))),
        normal_form(rec_of(x, SpecTerm::Zero, mult_step_with(b))) == spec_nat(n * m),
    decreases n, k,
{
    let r = rec_of(x, SpecTerm::Zero, mult_step_with(b));
    lemma_normal_form_unique(x, k);
    if spec_whnf(x) is Zero || spec_whnf(x) is Succ {
        let h = spec_whnf(x);
        lemma_head_form_of_number(x);
        if x != h {
            law_step_preserves_normal_form(x);
        }
        assert(normalizes(h) && normal_form(h) == spec_nat(n));
        if h is Zero {
            lemma_normal_form_of_normal(h);
            assert(n == 0);
            assert(n * m == 0) by (nonlinear_arith)
                requires
                    n == 0,
            ;
            assert(spec_step(r) == Some(SpecTerm::Zero));
            lemma_normal_form_of_normal(SpecTerm::Zero);
            law_normal_form_of_reduct(r);
        } else {
            let px = *(h->Succ_0);
            assert(h == SpecTerm::Succ(Box::new(px)));
            lemma_normal_form_succ(px);
            assert(n > 0);
            assert(spec_nat(n) == SpecTerm::Succ(Box::new(spec_nat((n - 1) as nat))));
            assert(normal_form(px) == spec_nat((n - 1) as nat));
            let kx = choose|kx: nat| is_normal(#[trigger] run(px, kx));
            lemma_normal_form_unique(px, kx);
            let q = rec_of(px, SpecTerm::Zero, mult_step_with(b));
            lemma_mult_rec_composes(px, b, (n - 1) as nat, m, kx);
            // `rec (succ px) 0 ms` unfolds to `ms px q`, which steps to `plus b q`
            lemma_names_distinct();
            let ms = mult_step_with(b);
            let unfolded = spec_app(spec_app(ms, px), q);
            assert(spec_step(r) == Some(unfolded));
            let ih = svar("ih"@);
            let inner = spec_app2(spec_plus(), b, ih);
            let next = spec_app2(spec_plus(), b, q);
            lemma_subst_plus("pred"@, px);
            lemma_subst_plus("ih"@, q);
            lemma_subst_not_free(b, "pred"@, px);
            lemma_subst_not_free(b, "ih"@, q);
            assert(spec_subst(ih, "pred"@, px) == ih);
            assert(spec_subst(spec_app(spec_plus(), b), "pred"@, px) == spec_app(spec_plus(), b));
            assert(spec_subst(inner, "pred"@, px) == inner);
            assert(spec_subst(spec_lam("ih"@, inner), "pred"@, px) == spec_lam("ih"@, inner));
            assert(spec_whnf(ms) == ms);
            assert(spec_whnf(spec_app(ms, px)) == spec_lam("ih"@, inner));
            assert(spec_subst(ih, "ih"@, q) == q);
            assert(spec_subst(spec_app(spec_plus(), b), "ih"@, q) == spec_app(spec_plus(), b));
            assert(spec_subst(inner, "ih"@, q) == next);
            assert(spec_step(unfolded) == Some(next));
            law_plus_composes(b, q, m, ((n - 1) as nat * m) as nat);
            assert(m + (n - 1) as nat * m == n * m) by (nonlinear_arith)
                requires
                    n > 0,
            ;
            law_normal_form_of_reduct(unfolded);
            law_normal_form_of_reduct(r);
        }
    } else {
        if is_normal(x) {
            lemma_run_normal(x, k);
            assert(spec_whnf(spec_nat(n)) == spec_nat(n));
        }
        assert(!is_normal(x));
        assert(k > 0);
        let x2 = spec_step(x).unwrap();
        assert(run(x, k) == run(x2, (k - 1) as nat));
        assert(spec_step(r) == Some(rec_of(x2, SpecTerm::Zero, mult_step_with(b))));
        lemma_mult_rec_composes(x2, b, n, m, (k - 1) as nat);
        law_normal_form_of_reduct(r);
    }
}

/// `mult a b` steps to `rec a 0 (\pred. \ih. plus b ih)` when the name `m`
/// does not occur free in `a`.
proof fn lemma_mult_unfold_terms(a: SpecTerm, b: SpecTerm)
    requires
        !free_in("m"@, a),
    ensures
        spec_step(spec_app2(spec_mult(), a, b)) == Some(
            rec_of(a, SpecTerm::Zero, mult_step_with(b)),
        ),
{
    lemma_names_distinct();
    lemma_subst_not_free(a, "m"@, b);
    lemma_subst_mult_step(svar("m"@), "n"@, a);
    lemma_subst_mult_step(svar("m"@), "m"@, b);
    assert(spec_subst(svar("m"@), "n"@, a) == svar("m"@));
    assert(spec_subst(svar("m"@), "m"@, b) == b);
    let ms = mult_step_with(svar("m"@));
    let body = rec_of(svar("n"@), SpecTerm::Zero, ms);
    let body_a = rec_of(a, SpecTerm::Zero, ms);
    assert(spec_subst(svar("n"@), "n"@, a) == a);
    assert(spec_subst(ms, "n"@, a) == ms);
    assert(spec_subst(SpecTerm::Zero, "n"@, a) == SpecTerm::Zero);
    assert(spec_subst(body, "n"@, a) == body_a);
    assert(spec_subst(spec_lam("m"@, body), "n"@, a) == spec_lam("m"@, body_a));
    assert(spec_whnf(spec_mult()) == spec_mult());
    assert(spec_whnf(spec_app(spec_mult(), a)) == spec_lam("m"@, body_a));
    assert(spec_subst(ms, "m"@, b) == mult_step_with(b));
    assert(spec_subst(SpecTerm::Zero, "m"@, b) == SpecTerm::Zero);
    assert(spec_subst(body_a, "m"@, b) == rec_of(a, SpecTerm::Zero, mult_step_with(b)));
}

/// `mult` multiplies whatever its operands evaluate to: if `a` normalizes to
/// the numeral for `n` and `b` to the numeral for `m`, `mult a b` normalizes
/// to the numeral for `n * m` (provided the names that substitution would
/// capture, `m` in `a` and `m`, `pred`, `ih` in `b`, do not occur free).
pub proof fn law_mult_composes(a: SpecTerm, b: SpecTerm, n: nat, m: nat)
    requires
        normalizes(a),
        normal_form(a) == spec_nat(n),
        normalizes(b),
        normal_form(b) == spec_nat(m),
        !free_in("m"@, a),
        !free_in("m"@, b),
        !free_in("pred"@, b),
        !free_in("ih"@, b),
    ensures
        normalizes(spec_app2(spec_mult(), a, b)),
        normal_form(spec_app2(spec_mult(), a, b)) == spec_nat(n * m),
{
    lemma_mult_unfold_terms(a, b);
    let k = choose|k: nat| is_normal(#[trigger] run(a, k));
    lemma_normal_form_unique(a, k);
    lemma_mult_rec_composes(a, b, n, m, k);
    law_normal_form_of_reduct(spec_app2(spec_mult(), a, b));
}

/// `e1 * e2` evaluates to the product of what its operands evaluate to, in
/// any module (under the conditions of `law_mult_composes`).
pub proof fn law_mul_composes(
    e1: AST,
    e2: AST,
    env: Seq<(Seq<char>, SpecTerm)>,
    n: nat,
    m: nat,
)
    requires
        normalizes(spec_desugar(e1, env)),
        normal_form(spec_desugar(e1, env)) == spec_nat(n),
        normalizes(spec_desugar(e2, env)),
        normal_form(spec_desugar(e2, env)) == spec_nat(m),
        !free_in("m"@, spec_desugar(e1, env)),
        !free_in("m"@, spec_desugar(e2, env)),
        !free_in("pred"@, spec_desugar(e2, env)),
        !free_in("ih"@, spec_desugar(e2, env)),
    ensures
        normalizes(spec_desugar(AST::Mul(Box::new(e1), Box::new(e2)), env)),
        normal_form(spec_desugar(AST::Mul(Box::new(e1), Box::new(e2)), env)) == spec_nat(n * m),
{
    law_mult_composes(spec_desugar(e1, env), spec_desugar(e2, env), n, m);
}

} // verus!
