use vstd::prelude::*;

use crate::arith::{lemma_names_distinct, lemma_nat_normal, spec_bool};
use crate::ast::{
    spec_and, spec_app2, spec_desugar, spec_eq, spec_ge, spec_gt, spec_is_zero, ite_of, spec_le,
    spec_lt, spec_minus, spec_neq, spec_not, spec_pred, rec_of, svar, AST,
};
use crate::step::{
    is_bool, law_normal_form_of_reduct, law_step_preserves_normal_form,
    lemma_normal_form_of_normal, normal_form, normalizes, spec_step, spec_whnf,
};
use crate::term::{lemma_subst_nat, spec_app, spec_lam, spec_nat, spec_subst, SpecTerm};

verus! {

/// Truncated subtraction.
pub open spec fn monus(a: nat, b: nat) -> nat {
    if a >= b {
        (a - b) as nat
    } else {
        0
    }
}

// ---------------------------------------------------------------------------
// Beta steps and closed combinators
// ---------------------------------------------------------------------------

proof fn lemma_beta1(x: Seq<char>, body: SpecTerm, a: SpecTerm)
    ensures
        spec_step(spec_app(spec_lam(x, body), a)) == Some(spec_subst(body, x, a)),
{
}

proof fn lemma_beta2(x: Seq<char>, y: Seq<char>, body: SpecTerm, a: SpecTerm, b: SpecTerm)
    requires
        x != y,
    ensures
        spec_step(spec_app2(spec_lam(x, spec_lam(y, body)), a, b)) == Some(
            spec_subst(spec_subst(body, x, a), y, b),
        ),
{
    let l = spec_lam(x, spec_lam(y, body));
    assert(spec_whnf(l) == l);
    assert(spec_subst(spec_lam(y, body), x, a) == spec_lam(y, spec_subst(body, x, a)));
    assert(spec_whnf(spec_app(l, a)) == spec_lam(y, spec_subst(body, x, a)));
}

proof fn lemma_subst_app2(f: SpecTerm, a: SpecTerm, b: SpecTerm, x: Seq<char>, v: SpecTerm)
    requires
        spec_subst(f, x, v) == f,
    ensures
        spec_subst(spec_app2(f, a, b), x, v) == spec_app2(
            f,
            spec_subst(a, x, v),
            spec_subst(b, x, v),
        ),
{
    assert(spec_subst(spec_app(f, a), x, v) == spec_app(f, spec_subst(a, x, v)));
}

/// `\pred. \ih. pred`
pub open spec fn pred_step() -> SpecTerm {
    spec_lam("pred"@, spec_lam("ih"@, svar("pred"@)))
}

/// `\pred. \ih. false`
pub open spec fn is_zero_step() -> SpecTerm {
    spec_lam("pred"@, spec_lam("ih"@, SpecTerm::False))
}

/// `\pred. \ih. pred_fn ih`, `pred_fn` being the predecessor function.
pub open spec fn minus_step() -> SpecTerm {
    spec_lam("pred"@, spec_lam("ih"@, spec_app(spec_pred(), svar("ih"@))))
}

proof fn lemma_subst_pred_step(x: Seq<char>, v: SpecTerm)
    ensures
        spec_subst(pred_step(), x, v) == pred_step(),
{
    let p = svar("pred"@);
    if x != "pred"@ && x != "ih"@ {
        assert(spec_subst(p, x, v) == p);
    }
    if x != "pred"@ {
        assert(spec_subst(spec_lam("ih"@, p), x, v) == spec_lam("ih"@, p));
    }
}

proof fn lemma_subst_is_zero_step(x: Seq<char>, v: SpecTerm)
    ensures
        spec_subst(is_zero_step(), x, v) == is_zero_step(),
{
    assert(spec_subst(SpecTerm::False, x, v) == SpecTerm::False);
    if x != "pred"@ {
        assert(spec_subst(spec_lam("ih"@, SpecTerm::False), x, v) == spec_lam(
            "ih"@,
            SpecTerm::False,
        ));
    }
}

proof fn lemma_subst_pred(x: Seq<char>, v: SpecTerm)
    ensures
        spec_subst(spec_pred(), x, v) == spec_pred(),
{
    lemma_subst_pred_step(x, v);
    let body = rec_of(svar("n"@), SpecTerm::Zero, pred_step());
    if x != "n"@ {
        assert(spec_subst(svar("n"@), x, v) == svar("n"@));
        assert(spec_subst(SpecTerm::Zero, x, v) == SpecTerm::Zero);
        assert(spec_subst(body, x, v) == body);
    }
}

proof fn lemma_subst_is_zero(x: Seq<char>, v: SpecTerm)
    ensures
        spec_subst(spec_is_zero(), x, v) == spec_is_zero(),
{
    lemma_subst_is_zero_step(x, v);
    let body = rec_of(svar("n"@), SpecTerm::True, is_zero_step());
    if x != "n"@ {
        assert(spec_subst(svar("n"@), x, v) == svar("n"@));
        assert(spec_subst(SpecTerm::True, x, v) == SpecTerm::True);
        assert(spec_subst(body, x, v) == body);
    }
}

proof fn lemma_subst_minus_step(x: Seq<char>, v: SpecTerm)
    ensures
        spec_subst(minus_step(), x, v) == minus_step(),
{
    lemma_subst_pred(x, v);
    let ih = svar("ih"@);
    let inner = spec_app(spec_pred(), ih);
    if x != "pred"@ && x != "ih"@ {
        assert(spec_subst(ih, x, v) == ih);
        assert(spec_subst(inner, x, v) == inner);
    }
    if x != "pred"@ {
        assert(spec_subst(spec_lam("ih"@, inner), x, v) == spec_lam("ih"@, inner));
    }
}

proof fn lemma_subst_minus(x: Seq<char>, v: SpecTerm)
    ensures
        spec_subst(spec_minus(), x, v) == spec_minus(),
{
    lemma_names_distinct();
    lemma_subst_minus_step(x, v);
    let body = rec_of(svar("m"@), svar("n"@), minus_step());
    if x != "n"@ && x != "m"@ {
        assert(spec_subst(svar("n"@), x, v) == svar("n"@));
        assert(spec_subst(svar("m"@), x, v) == svar("m"@));
        assert(spec_subst(body, x, v) == body);
    }
    if x != "n"@ {
        assert(spec_subst(spec_lam("m"@, body), x, v) == spec_lam("m"@, body));
    }
}

proof fn lemma_subst_le(x: Seq<char>, v: SpecTerm)
    ensures
        spec_subst(spec_le(), x, v) == spec_le(),
{
    lemma_names_distinct();
    lemma_subst_minus(x, v);
    lemma_subst_is_zero(x, v);
    let inner = spec_app2(spec_minus(), svar("n"@), svar("m"@));
    let body = spec_app(spec_is_zero(), inner);
    if x != "n"@ && x != "m"@ {
        lemma_subst_app2(spec_minus(), svar("n"@), svar("m"@), x, v);
        assert(spec_subst(svar("n"@), x, v) == svar("n"@));
        assert(spec_subst(svar("m"@), x, v) == svar("m"@));
        assert(spec_subst(body, x, v) == body);
    }
    if x != "n"@ {
        assert(spec_subst(spec_lam("m"@, body), x, v) == spec_lam("m"@, body));
    }
}

proof fn lemma_subst_lt(x: Seq<char>, v: SpecTerm)
    ensures
        spec_subst(spec_lt(), x, v) == spec_lt(),
{
    lemma_names_distinct();
    lemma_subst_le(x, v);
    let sn = SpecTerm::Succ(Box::new(svar("n"@)));
    let body = spec_app2(spec_le(), sn, svar("m"@));
    if x != "n"@ && x != "m"@ {
        lemma_subst_app2(spec_le(), sn, svar("m"@), x, v);
        assert(spec_subst(svar("n"@), x, v) == svar("n"@));
        assert(spec_subst(sn, x, v) == sn);
        assert(spec_subst(svar("m"@), x, v) == svar("m"@));
        assert(spec_subst(body, x, v) == body);
    }
    if x != "n"@ {
        assert(spec_subst(spec_lam("m"@, body), x, v) == spec_lam("m"@, body));
    }
}

// ---------------------------------------------------------------------------
// Evaluation under `rec` scrutinees
// ---------------------------------------------------------------------------

/// `rec x 0 (\pred. \ih. pred)`: the body of the predecessor function.
pub open spec fn pred_rec(x: SpecTerm) -> SpecTerm {
    rec_of(x, SpecTerm::Zero, pred_step())
}

/// `rec x true (\pred. \ih. false)`: the body of the zero test.
pub open spec fn is_zero_rec(x: SpecTerm) -> SpecTerm {
    rec_of(x, SpecTerm::True, is_zero_step())
}

/// `j` nested predecessor bodies around `x`.
pub open spec fn preds(j: nat, x: SpecTerm) -> SpecTerm
    decreases j,
{
    if j == 0 {
        x
    } else {
        pred_rec(preds((j - 1) as nat, x))
    }
}

/// What `pred_rec(w + 1)` unfolds to.
pub open spec fn pred_unfolded(w: nat) -> SpecTerm {
    spec_app(spec_app(pred_step(), spec_nat(w)), pred_rec(spec_nat(w)))
}

/// The head form of `t` is a numeral constructor.
pub open spec fn heads_to_number(t: SpecTerm) -> bool {
    spec_whnf(t) is Zero || spec_whnf(t) is Succ
}

proof fn lemma_preds_shift(j: nat, x: SpecTerm)
    ensures
        preds(j, pred_rec(x)) == preds(j + 1, x),
    decreases j,
{
    if j > 0 {
        let jm = (j - 1) as nat;
        lemma_preds_shift(jm, x);
        assert(jm + 1 == j);
        assert(preds(j, pred_rec(x)) == pred_rec(preds(jm, pred_rec(x))));
        assert(preds(j + 1, x) == pred_rec(preds(j, x)));
    } else {
        assert(preds(1, x) == pred_rec(preds(0, x)));
    }
}

/// A `rec` whose scrutinee is not headed by a numeral reduces its scrutinee.
proof fn lemma_ctx1(x: SpecTerm, z: SpecTerm, p: SpecTerm)
    requires
        !heads_to_number(x),
        spec_step(x) is Some,
    ensures
        spec_step(rec_of(x, z, p)) == Some(rec_of(spec_step(x).unwrap(), z, p)),
{
}

proof fn lemma_ctx(j: nat, x: SpecTerm)
    requires
        !heads_to_number(x),
        spec_step(x) is Some,
    ensures
        spec_step(preds(j, x)) == Some(preds(j, spec_step(x).unwrap())),
        !heads_to_number(preds(j, x)),
    decreases j,
{
    if j > 0 {
        lemma_ctx((j - 1) as nat, x);
        lemma_ctx1(preds((j - 1) as nat, x), SpecTerm::Zero, pred_step());
    }
}

proof fn lemma_whnf_nat(w: nat)
    ensures
        spec_whnf(spec_nat(w)) == spec_nat(w),
{
}

proof fn lemma_pred_unfolded(w: nat)
    ensures
        spec_step(pred_rec(spec_nat(w + 1))) == Some(pred_unfolded(w)),
        spec_whnf(pred_unfolded(w)) == spec_nat(w),
        spec_step(pred_unfolded(w)) == Some(spec_nat(w)),
{
    lemma_names_distinct();
    assert(spec_nat(w + 1) == SpecTerm::Succ(Box::new(spec_nat(w))));
    let p = svar("pred"@);
    assert(spec_subst(p, "pred"@, spec_nat(w)) == spec_nat(w));
    assert(spec_subst(spec_lam("ih"@, p), "pred"@, spec_nat(w)) == spec_lam("ih"@, spec_nat(w)));
    assert(spec_whnf(pred_step()) == pred_step());
    assert(spec_whnf(spec_app(pred_step(), spec_nat(w))) == spec_lam("ih"@, spec_nat(w)));
    lemma_subst_nat(w, "ih"@, pred_rec(spec_nat(w)));
}

/// `rec` sees only the head form of its scrutinee.
proof fn lemma_rec_unfolded_as_nat(w: nat, z: SpecTerm, p: SpecTerm)
    ensures
        spec_step(rec_of(pred_unfolded(w), z, p)) == spec_step(rec_of(spec_nat(w), z, p)),
        spec_step(rec_of(spec_nat(w), z, p)) is Some,
{
    lemma_pred_unfolded(w);
    lemma_whnf_nat(w);
}

/// How the predecessor body steps on a numeral.
proof fn lemma_pred_rec_step(w: nat)
    ensures
        w == 0 ==> spec_step(pred_rec(spec_nat(w))) == Some(SpecTerm::Zero),
        w > 0 ==> spec_step(pred_rec(spec_nat(w))) == Some(pred_unfolded((w - 1) as nat)),
{
    if w > 0 {
        lemma_pred_unfolded((w - 1) as nat);
    }
}

/// A context that, like the scrutinee position of `rec`, reduces inside a term
/// whose head form is not a numeral constructor and sees only the head form
/// of a numeral.
pub open spec fn is_scrutinee_context(wrap: spec_fn(SpecTerm) -> SpecTerm) -> bool {
    &&& forall|x: SpecTerm|
        #![trigger wrap(x)]
        !heads_to_number(x) && spec_step(x) is Some ==> spec_step(wrap(x)) == Some(
            wrap(spec_step(x).unwrap()),
        )
    &&& forall|w: nat|
        #![trigger wrap(pred_unfolded(w))]
        spec_step(wrap(pred_unfolded(w))) == spec_step(wrap(spec_nat(w))) && spec_step(
            wrap(spec_nat(w)),
        ) is Some
}

/// The scrutinee position of a `rec` is such a context.
proof fn lemma_rec_is_scrutinee_context(
    wrap: spec_fn(SpecTerm) -> SpecTerm,
    z: SpecTerm,
    p: SpecTerm,
)
    requires
        forall|x: SpecTerm| #[trigger] wrap(x) == rec_of(x, z, p),
    ensures
        is_scrutinee_context(wrap),
{
    assert forall|x: SpecTerm|
        !heads_to_number(x) && spec_step(x) is Some implies spec_step(#[trigger] wrap(x)) == Some(
            wrap(spec_step(x).unwrap()),
        ) by {
        lemma_ctx1(x, z, p);
    }
    assert forall|w: nat|
        spec_step(#[trigger] wrap(pred_unfolded(w))) == spec_step(wrap(spec_nat(w))) && spec_step(
            wrap(spec_nat(w)),
        ) is Some by {
        lemma_rec_unfolded_as_nat(w, z, p);
    }
}

proof fn lemma_under_preds_zero(j: nat, wrap: spec_fn(SpecTerm) -> SpecTerm)
    requires
        is_scrutinee_context(wrap),
        normalizes(wrap(SpecTerm::Zero)),
    ensures
        normalizes(wrap(preds(j, SpecTerm::Zero))),
        normal_form(wrap(preds(j, SpecTerm::Zero))) == normal_form(wrap(SpecTerm::Zero)),
    decreases j,
{
    if j > 0 {
        let jm = (j - 1) as nat;
        lemma_preds_shift(jm, SpecTerm::Zero);
        assert(jm + 1 == j);
        lemma_pred_rec_step(0);
        lemma_ctx(jm, pred_rec(SpecTerm::Zero));
        assert(spec_step(wrap(preds(j, SpecTerm::Zero))) == Some(wrap(preds(jm, SpecTerm::Zero))));
        lemma_under_preds_zero(jm, wrap);
        law_normal_form_of_reduct(wrap(preds(j, SpecTerm::Zero)));
    }
}

proof fn lemma_under_preds_unfolded(j: nat, w: nat, wrap: spec_fn(SpecTerm) -> SpecTerm)
    requires
        is_scrutinee_context(wrap),
        normalizes(wrap(spec_nat(monus(w, j)))),
    ensures
        normalizes(wrap(preds(j, pred_unfolded(w)))),
        normal_form(wrap(preds(j, pred_unfolded(w)))) == normal_form(wrap(spec_nat(monus(w, j)))),
    decreases j,
{
    let t = wrap(preds(j, pred_unfolded(w)));
    if j == 0 {
        assert(spec_step(wrap(pred_unfolded(w))) == spec_step(wrap(spec_nat(w))));
        law_step_preserves_normal_form(wrap(spec_nat(w)));
        law_normal_form_of_reduct(t);
    } else {
        let jm = (j - 1) as nat;
        lemma_preds_shift(jm, pred_unfolded(w));
        assert(jm + 1 == j);
        lemma_rec_unfolded_as_nat(w, SpecTerm::Zero, pred_step());
        lemma_pred_rec_step(w);
        lemma_ctx(jm, pred_rec(pred_unfolded(w)));
        let next = if w == 0 {
            SpecTerm::Zero
        } else {
            pred_unfolded((w - 1) as nat)
        };
        assert(spec_step(t) == Some(wrap(preds(jm, next))));
        if w == 0 {
            lemma_under_preds_zero(jm, wrap);
        } else {
            lemma_under_preds_unfolded(jm, (w - 1) as nat, wrap);
        }
        law_normal_form_of_reduct(t);
    }
}

proof fn lemma_under_preds_nat(j: nat, v: nat, wrap: spec_fn(SpecTerm) -> SpecTerm)
    requires
        is_scrutinee_context(wrap),
        normalizes(wrap(spec_nat(monus(v, j)))),
    ensures
        normalizes(wrap(preds(j, spec_nat(v)))),
        normal_form(wrap(preds(j, spec_nat(v)))) == normal_form(wrap(spec_nat(monus(v, j)))),
{
    if j > 0 {
        let t = wrap(preds(j, spec_nat(v)));
        let jm = (j - 1) as nat;
        lemma_preds_shift(jm, spec_nat(v));
        assert(jm + 1 == j);
        lemma_pred_rec_step(v);
        lemma_ctx(jm, pred_rec(spec_nat(v)));
        let next = if v == 0 {
            SpecTerm::Zero
        } else {
            pred_unfolded((v - 1) as nat)
        };
        assert(spec_step(t) == Some(wrap(preds(jm, next))));
        if v == 0 {
            lemma_under_preds_zero(jm, wrap);
        } else {
            lemma_under_preds_unfolded(jm, (v - 1) as nat, wrap);
        }
        law_normal_form_of_reduct(t);
    }
}

// ---------------------------------------------------------------------------
// Subtraction
// ---------------------------------------------------------------------------

/// `rec k n (\pred. \ih. pred_fn ih)`: what `minus n k` becomes after one step.
pub open spec fn minus_rec(n: nat, k: nat) -> SpecTerm {
    rec_of(spec_nat(k), spec_nat(n), minus_step())
}

/// What `minus_rec(n, k + 1)` unfolds to.
pub open spec fn minus_unfolded(n: nat, k: nat) -> SpecTerm {
    spec_app(spec_app(minus_step(), spec_nat(k)), minus_rec(n, k))
}

/// `pred_fn (minus_rec n k)`
pub open spec fn minus_pred(n: nat, k: nat) -> SpecTerm {
    spec_app(spec_pred(), minus_rec(n, k))
}

proof fn lemma_minus_steps(n: nat, k: nat)
    ensures
        spec_step(minus_rec(n, 0)) == Some(spec_nat(n)),
        !heads_to_number(minus_rec(n, k)),
        spec_step(minus_rec(n, k + 1)) == Some(minus_unfolded(n, k)),
        !heads_to_number(minus_unfolded(n, k)),
        spec_step(minus_unfolded(n, k)) == Some(minus_pred(n, k)),
        !heads_to_number(minus_pred(n, k)),
        spec_step(minus_pred(n, k)) == Some(pred_rec(minus_rec(n, k))),
{
    lemma_names_distinct();
    assert(spec_nat(k + 1) == SpecTerm::Succ(Box::new(spec_nat(k))));
    let m = minus_rec(n, k);
    let ih = svar("ih"@);
    let inner = spec_app(spec_pred(), ih);
    lemma_subst_pred("pred"@, spec_nat(k));
    lemma_subst_pred("ih"@, m);
    lemma_subst_pred_step("n"@, m);
    assert(spec_subst(ih, "pred"@, spec_nat(k)) == ih);
    assert(spec_subst(inner, "pred"@, spec_nat(k)) == inner);
    assert(spec_subst(spec_lam("ih"@, inner), "pred"@, spec_nat(k)) == spec_lam("ih"@, inner));
    assert(spec_whnf(minus_step()) == minus_step());
    assert(spec_whnf(spec_app(minus_step(), spec_nat(k))) == spec_lam("ih"@, inner));
    assert(spec_subst(ih, "ih"@, m) == m);
    assert(spec_subst(inner, "ih"@, m) == minus_pred(n, k));
    assert(spec_whnf(minus_unfolded(n, k)) == minus_pred(n, k));
    let body = rec_of(svar("n"@), SpecTerm::Zero, pred_step());
    assert(spec_subst(svar("n"@), "n"@, m) == m);
    assert(spec_subst(SpecTerm::Zero, "n"@, m) == SpecTerm::Zero);
    assert(spec_subst(body, "n"@, m) == pred_rec(m));
    assert(spec_whnf(spec_pred()) == spec_pred());
    assert(spec_whnf(minus_pred(n, k)) == pred_rec(m));
}

proof fn lemma_under_preds_minus(n: nat, j: nat, k: nat, wrap: spec_fn(SpecTerm) -> SpecTerm)
    requires
        is_scrutinee_context(wrap),
        normalizes(wrap(spec_nat(monus(n, j + k)))),
    ensures
        normalizes(wrap(preds(j, minus_rec(n, k)))),
        normal_form(wrap(preds(j, minus_rec(n, k)))) == normal_form(
            wrap(spec_nat(monus(n, j + k))),
        ),
    decreases k,
{
    let t0 = wrap(preds(j, minus_rec(n, k)));
    if k == 0 {
        lemma_minus_steps(n, 0);
        lemma_ctx(j, minus_rec(n, 0));
        assert(spec_step(t0) == Some(wrap(preds(j, spec_nat(n)))));
        lemma_under_preds_nat(j, n, wrap);
        law_normal_form_of_reduct(t0);
    } else {
        let km = (k - 1) as nat;
        assert(km + 1 == k);
        lemma_minus_steps(n, km);
        let x1 = preds(j, minus_unfolded(n, km));
        let x2 = preds(j, minus_pred(n, km));
        let x3 = preds(j, pred_rec(minus_rec(n, km)));
        lemma_ctx(j, minus_rec(n, k));
        lemma_ctx(j, minus_unfolded(n, km));
        lemma_ctx(j, minus_pred(n, km));
        assert(spec_step(t0) == Some(wrap(x1)));
        assert(spec_step(wrap(x1)) == Some(wrap(x2)));
        assert(spec_step(wrap(x2)) == Some(wrap(x3)));
        lemma_preds_shift(j, minus_rec(n, km));
        assert(j + 1 + km == j + k);
        lemma_under_preds_minus(n, j + 1, km, wrap);
        law_normal_form_of_reduct(wrap(x2));
        law_normal_form_of_reduct(wrap(x1));
        law_normal_form_of_reduct(t0);
    }
}

/// The predecessor body on a numeral normalizes to the predecessor.
proof fn lemma_pred_rec_nat(v: nat)
    ensures
        normalizes(pred_rec(spec_nat(v))),
        normal_form(pred_rec(spec_nat(v))) == spec_nat(monus(v, 1)),
{
    lemma_pred_rec_step(v);
    lemma_nat_normal(monus(v, 1));
    lemma_normal_form_of_normal(spec_nat(monus(v, 1)));
    if v > 0 {
        lemma_pred_unfolded((v - 1) as nat);
        law_normal_form_of_reduct(pred_unfolded((v - 1) as nat));
    }
    law_normal_form_of_reduct(pred_rec(spec_nat(v)));
}

/// `minus` is truncated subtraction on numerals.
pub proof fn law_minus_subtracts(n: nat, m: nat)
    ensures
        normalizes(spec_app2(spec_minus(), spec_nat(n), spec_nat(m))),
        normal_form(spec_app2(spec_minus(), spec_nat(n), spec_nat(m))) == spec_nat(monus(n, m)),
{
    lemma_names_distinct();
    let t = spec_app2(spec_minus(), spec_nat(n), spec_nat(m));
    let body = rec_of(svar("m"@), svar("n"@), minus_step());
    lemma_beta2("n"@, "m"@, body, spec_nat(n), spec_nat(m));
    lemma_subst_minus_step("n"@, spec_nat(n));
    lemma_subst_minus_step("m"@, spec_nat(m));
    lemma_subst_nat(n, "m"@, spec_nat(m));
    let body_n = rec_of(svar("m"@), spec_nat(n), minus_step());
    assert(spec_subst(svar("m"@), "n"@, spec_nat(n)) == svar("m"@));
    assert(spec_subst(svar("n"@), "n"@, spec_nat(n)) == spec_nat(n));
    assert(spec_subst(body, "n"@, spec_nat(n)) == body_n);
    assert(spec_subst(svar("m"@), "m"@, spec_nat(m)) == spec_nat(m));
    assert(spec_subst(body_n, "m"@, spec_nat(m)) == minus_rec(n, m));
    assert(spec_step(t) == Some(minus_rec(n, m)));
    if m == 0 {
        lemma_minus_steps(n, 0);
        lemma_nat_normal(n);
        lemma_normal_form_of_normal(spec_nat(n));
        law_normal_form_of_reduct(minus_rec(n, 0));
    } else {
        let km = (m - 1) as nat;
        assert(km + 1 == m);
        lemma_minus_steps(n, km);
        lemma_pred_rec_nat(monus(n, km));
        assert(monus(monus(n, km), 1) == monus(n, m));
        assert(preds(0, minus_rec(n, km)) == minus_rec(n, km));
        let wrap = |x: SpecTerm| pred_rec(x);
        lemma_rec_is_scrutinee_context(wrap, SpecTerm::Zero, pred_step());
        lemma_under_preds_minus(n, 0, km, wrap);
        law_normal_form_of_reduct(minus_pred(n, km));
        law_normal_form_of_reduct(minus_unfolded(n, km));
        law_normal_form_of_reduct(minus_rec(n, m));
    }
    law_normal_form_of_reduct(t);
}

// ---------------------------------------------------------------------------
// Comparisons
// ---------------------------------------------------------------------------

/// `minus n m` steps to `minus_rec(n, m)`, which is also its head form.
proof fn lemma_minus_unfold(n: nat, m: nat)
    ensures
        spec_step(spec_app2(spec_minus(), spec_nat(n), spec_nat(m))) == Some(minus_rec(n, m)),
        spec_whnf(spec_app2(spec_minus(), spec_nat(n), spec_nat(m))) == minus_rec(n, m),
{
    lemma_names_distinct();
    let body = rec_of(svar("m"@), svar("n"@), minus_step());
    lemma_beta2("n"@, "m"@, body, spec_nat(n), spec_nat(m));
    lemma_subst_minus_step("n"@, spec_nat(n));
    lemma_subst_minus_step("m"@, spec_nat(m));
    lemma_subst_nat(n, "m"@, spec_nat(m));
    let body_n = rec_of(svar("m"@), spec_nat(n), minus_step());
    assert(spec_subst(svar("m"@), "n"@, spec_nat(n)) == svar("m"@));
    assert(spec_subst(svar("n"@), "n"@, spec_nat(n)) == spec_nat(n));
    assert(spec_subst(body, "n"@, spec_nat(n)) == body_n);
    assert(spec_subst(svar("m"@), "m"@, spec_nat(m)) == spec_nat(m));
    assert(spec_subst(body_n, "m"@, spec_nat(m)) == minus_rec(n, m));
    let l = spec_minus();
    assert(spec_whnf(l) == l);
    assert(spec_subst(spec_lam("m"@, body), "n"@, spec_nat(n)) == spec_lam("m"@, body_n));
    assert(spec_whnf(spec_app(l, spec_nat(n))) == spec_lam("m"@, body_n));
}

/// The zero-test body on a numeral normalizes to whether it is zero.
proof fn lemma_is_zero_rec_nat(v: nat)
    ensures
        normalizes(is_zero_rec(spec_nat(v))),
        normal_form(is_zero_rec(spec_nat(v))) == spec_bool(v == 0),
{
    lemma_names_distinct();
    lemma_normal_form_of_normal(spec_bool(v == 0));
    if v > 0 {
        let w = (v - 1) as nat;
        assert(spec_nat(v) == SpecTerm::Succ(Box::new(spec_nat(w))));
        let u = spec_app(spec_app(is_zero_step(), spec_nat(w)), is_zero_rec(spec_nat(w)));
        assert(spec_step(is_zero_rec(spec_nat(v))) == Some(u));
        assert(spec_subst(SpecTerm::False, "pred"@, spec_nat(w)) == SpecTerm::False);
        assert(spec_subst(spec_lam("ih"@, SpecTerm::False), "pred"@, spec_nat(w)) == spec_lam(
            "ih"@,
            SpecTerm::False,
        ));
        assert(spec_whnf(is_zero_step()) == is_zero_step());
        assert(spec_whnf(spec_app(is_zero_step(), spec_nat(w))) == spec_lam(
            "ih"@,
            SpecTerm::False,
        ));
        assert(spec_subst(SpecTerm::False, "ih"@, is_zero_rec(spec_nat(w))) == SpecTerm::False);
        assert(spec_step(u) == Some(SpecTerm::False));
        law_normal_form_of_reduct(u);
    }
    law_normal_form_of_reduct(is_zero_rec(spec_nat(v)));
}

/// `is_zero` tests a numeral for zero.
pub proof fn law_is_zero(k: nat)
    ensures
        normalizes(spec_app(spec_is_zero(), spec_nat(k))),
        normal_form(spec_app(spec_is_zero(), spec_nat(k))) == spec_bool(k == 0),
{
    let t = spec_app(spec_is_zero(), spec_nat(k));
    let izb = rec_of(svar("n"@), SpecTerm::True, is_zero_step());
    lemma_beta1("n"@, izb, spec_nat(k));
    lemma_subst_is_zero_step("n"@, spec_nat(k));
    assert(spec_subst(svar("n"@), "n"@, spec_nat(k)) == spec_nat(k));
    assert(spec_subst(SpecTerm::True, "n"@, spec_nat(k)) == SpecTerm::True);
    assert(spec_subst(izb, "n"@, spec_nat(k)) == is_zero_rec(spec_nat(k)));
    lemma_is_zero_rec_nat(k);
    law_normal_form_of_reduct(t);
}

/// `pred` is the predecessor on numerals, with `pred 0 = 0`.
pub proof fn law_pred(k: nat)
    ensures
        normalizes(spec_app(spec_pred(), spec_nat(k))),
        normal_form(spec_app(spec_pred(), spec_nat(k))) == spec_nat(monus(k, 1)),
{
    let t = spec_app(spec_pred(), spec_nat(k));
    let pb = rec_of(svar("n"@), SpecTerm::Zero, pred_step());
    lemma_beta1("n"@, pb, spec_nat(k));
    lemma_subst_pred_step("n"@, spec_nat(k));
    assert(spec_subst(svar("n"@), "n"@, spec_nat(k)) == spec_nat(k));
    assert(spec_subst(SpecTerm::Zero, "n"@, spec_nat(k)) == SpecTerm::Zero);
    assert(spec_subst(pb, "n"@, spec_nat(k)) == pred_rec(spec_nat(k)));
    lemma_pred_rec_nat(k);
    law_normal_form_of_reduct(t);
}

/// `le n m` steps to `is_zero (minus n m)`, which is also its head form.
proof fn lemma_le_unfold(n: nat, m: nat)
    ensures
        spec_step(spec_app2(spec_le(), spec_nat(n), spec_nat(m))) == Some(
            spec_app(spec_is_zero(), spec_app2(spec_minus(), spec_nat(n), spec_nat(m))),
        ),
        spec_whnf(spec_app2(spec_le(), spec_nat(n), spec_nat(m))) == spec_app(
            spec_is_zero(),
            spec_app2(spec_minus(), spec_nat(n), spec_nat(m)),
        ),
{
    lemma_names_distinct();
    let t = spec_app2(spec_le(), spec_nat(n), spec_nat(m));
    let x = spec_app2(spec_minus(), spec_nat(n), spec_nat(m));
    let xn = spec_app2(spec_minus(), spec_nat(n), svar("m"@));
    let xv = spec_app2(spec_minus(), svar("n"@), svar("m"@));
    let body = spec_app(spec_is_zero(), xv);
    let body_n = spec_app(spec_is_zero(), xn);
    let a = spec_app(spec_is_zero(), x);
    lemma_beta2("n"@, "m"@, body, spec_nat(n), spec_nat(m));
    lemma_subst_is_zero("n"@, spec_nat(n));
    lemma_subst_is_zero("m"@, spec_nat(m));
    lemma_subst_minus("n"@, spec_nat(n));
    lemma_subst_minus("m"@, spec_nat(m));
    lemma_subst_app2(spec_minus(), svar("n"@), svar("m"@), "n"@, spec_nat(n));
    lemma_subst_app2(spec_minus(), spec_nat(n), svar("m"@), "m"@, spec_nat(m));
    lemma_subst_nat(n, "m"@, spec_nat(m));
    assert(spec_subst(svar("n"@), "n"@, spec_nat(n)) == spec_nat(n));
    assert(spec_subst(svar("m"@), "n"@, spec_nat(n)) == svar("m"@));
    assert(spec_subst(svar("m"@), "m"@, spec_nat(m)) == spec_nat(m));
    assert(spec_subst(body, "n"@, spec_nat(n)) == body_n);
    assert(spec_subst(body_n, "m"@, spec_nat(m)) == a);
    let l = spec_le();
    assert(spec_whnf(l) == l);
    assert(spec_subst(spec_lam("m"@, body), "n"@, spec_nat(n)) == spec_lam("m"@, body_n));
    assert(spec_whnf(spec_app(l, spec_nat(n))) == spec_lam("m"@, body_n));
}

/// `le` compares numerals.
pub proof fn law_le_compares(n: nat, m: nat)
    ensures
        normalizes(spec_app2(spec_le(), spec_nat(n), spec_nat(m))),
        normal_form(spec_app2(spec_le(), spec_nat(n), spec_nat(m))) == spec_bool(n <= m),
{
    lemma_names_distinct();
    let t = spec_app2(spec_le(), spec_nat(n), spec_nat(m));
    let x = spec_app2(spec_minus(), spec_nat(n), spec_nat(m));
    let a = spec_app(spec_is_zero(), x);
    lemma_le_unfold(n, m);
    // the zero test's body around the (unevaluated) difference
    let izb = rec_of(svar("n"@), SpecTerm::True, is_zero_step());
    lemma_beta1("n"@, izb, x);
    lemma_subst_is_zero_step("n"@, x);
    assert(spec_subst(svar("n"@), "n"@, x) == x);
    assert(spec_subst(SpecTerm::True, "n"@, x) == SpecTerm::True);
    assert(spec_subst(izb, "n"@, x) == is_zero_rec(x));
    assert(spec_step(a) == Some(is_zero_rec(x)));
    lemma_minus_unfold(n, m);
    lemma_ctx1(x, SpecTerm::True, is_zero_step());
    lemma_is_zero_rec_nat(monus(n, m));
    assert(preds(0, minus_rec(n, m)) == minus_rec(n, m));
    assert(0 + m == m);
    let wrap = |x: SpecTerm| is_zero_rec(x);
    lemma_rec_is_scrutinee_context(wrap, SpecTerm::True, is_zero_step());
    lemma_under_preds_minus(n, 0, m, wrap);
    law_normal_form_of_reduct(is_zero_rec(x));
    law_normal_form_of_reduct(a);
    law_normal_form_of_reduct(t);
}

/// `lt` compares numerals strictly.
pub proof fn law_lt_compares(n: nat, m: nat)
    ensures
        normalizes(spec_app2(spec_lt(), spec_nat(n), spec_nat(m))),
        normal_form(spec_app2(spec_lt(), spec_nat(n), spec_nat(m))) == spec_bool(n < m),
{
    lemma_names_distinct();
    let t = spec_app2(spec_lt(), spec_nat(n), spec_nat(m));
    let sv = SpecTerm::Succ(Box::new(svar("n"@)));
    let body = spec_app2(spec_le(), sv, svar("m"@));
    let body_n = spec_app2(spec_le(), spec_nat(n + 1), svar("m"@));
    let u = spec_app2(spec_le(), spec_nat(n + 1), spec_nat(m));
    lemma_beta2("n"@, "m"@, body, spec_nat(n), spec_nat(m));
    lemma_subst_le("n"@, spec_nat(n));
    lemma_subst_le("m"@, spec_nat(m));
    lemma_subst_app2(spec_le(), sv, svar("m"@), "n"@, spec_nat(n));
    lemma_subst_app2(spec_le(), spec_nat(n + 1), svar("m"@), "m"@, spec_nat(m));
    lemma_subst_nat(n + 1, "m"@, spec_nat(m));
    assert(spec_nat(n + 1) == SpecTerm::Succ(Box::new(spec_nat(n))));
    assert(spec_subst(svar("n"@), "n"@, spec_nat(n)) == spec_nat(n));
    assert(spec_subst(sv, "n"@, spec_nat(n)) == spec_nat(n + 1));
    assert(spec_subst(svar("m"@), "n"@, spec_nat(n)) == svar("m"@));
    assert(spec_subst(svar("m"@), "m"@, spec_nat(m)) == spec_nat(m));
    assert(spec_subst(body, "n"@, spec_nat(n)) == body_n);
    assert(spec_subst(body_n, "m"@, spec_nat(m)) == u);
    assert(spec_step(t) == Some(u));
    law_le_compares(n + 1, m);
    law_normal_form_of_reduct(t);
}

/// `ge` compares numerals.
pub proof fn law_ge_compares(n: nat, m: nat)
    ensures
        normalizes(spec_app2(spec_ge(), spec_nat(n), spec_nat(m))),
        normal_form(spec_app2(spec_ge(), spec_nat(n), spec_nat(m))) == spec_bool(n >= m),
{
    lemma_names_distinct();
    let t = spec_app2(spec_ge(), spec_nat(n), spec_nat(m));
    let body = spec_app2(spec_le(), svar("m"@), svar("n"@));
    let body_n = spec_app2(spec_le(), svar("m"@), spec_nat(n));
    let u = spec_app2(spec_le(), spec_nat(m), spec_nat(n));
    lemma_beta2("n"@, "m"@, body, spec_nat(n), spec_nat(m));
    lemma_subst_le("n"@, spec_nat(n));
    lemma_subst_le("m"@, spec_nat(m));
    lemma_subst_app2(spec_le(), svar("m"@), svar("n"@), "n"@, spec_nat(n));
    lemma_subst_app2(spec_le(), svar("m"@), spec_nat(n), "m"@, spec_nat(m));
    lemma_subst_nat(n, "m"@, spec_nat(m));
    assert(spec_subst(svar("n"@), "n"@, spec_nat(n)) == spec_nat(n));
    assert(spec_subst(svar("m"@), "n"@, spec_nat(n)) == svar("m"@));
    assert(spec_subst(svar("m"@), "m"@, spec_nat(m)) == spec_nat(m));
    assert(spec_subst(body, "n"@, spec_nat(n)) == body_n);
    assert(spec_subst(body_n, "m"@, spec_nat(m)) == u);
    assert(spec_step(t) == Some(u));
    law_le_compares(m, n);
    law_normal_form_of_reduct(t);
}

/// `gt` compares numerals strictly.
pub proof fn law_gt_compares(n: nat, m: nat)
    ensures
        normalizes(spec_app2(spec_gt(), spec_nat(n), spec_nat(m))),
        normal_form(spec_app2(spec_gt(), spec_nat(n), spec_nat(m))) == spec_bool(n > m),
{
    lemma_names_distinct();
    let t = spec_app2(spec_gt(), spec_nat(n), spec_nat(m));
    let body = spec_app2(spec_lt(), svar("m"@), svar("n"@));
    let body_n = spec_app2(spec_lt(), svar("m"@), spec_nat(n));
    let u = spec_app2(spec_lt(), spec_nat(m), spec_nat(n));
    lemma_beta2("n"@, "m"@, body, spec_nat(n), spec_nat(m));
    lemma_subst_lt("n"@, spec_nat(n));
    lemma_subst_lt("m"@, spec_nat(m));
    lemma_subst_app2(spec_lt(), svar("m"@), svar("n"@), "n"@, spec_nat(n));
    lemma_subst_app2(spec_lt(), svar("m"@), spec_nat(n), "m"@, spec_nat(m));
    lemma_subst_nat(n, "m"@, spec_nat(m));
    assert(spec_subst(svar("n"@), "n"@, spec_nat(n)) == spec_nat(n));
    assert(spec_subst(svar("m"@), "n"@, spec_nat(n)) == svar("m"@));
    assert(spec_subst(svar("m"@), "m"@, spec_nat(m)) == spec_nat(m));
    assert(spec_subst(body, "n"@, spec_nat(n)) == body_n);
    assert(spec_subst(body_n, "m"@, spec_nat(m)) == u);
    assert(spec_step(t) == Some(u));
    law_lt_compares(m, n);
    law_normal_form_of_reduct(t);
}

// ---------------------------------------------------------------------------
// Equality tests
// ---------------------------------------------------------------------------

proof fn lemma_more_names_distinct()
    ensures
        "b1"@ != "b2"@,
        "b1"@ != "n"@,
        "b1"@ != "m"@,
        "b2"@ != "n"@,
        "b2"@ != "m"@,
        "a"@ != "n"@,
        "a"@ != "m"@,
{
    reveal_strlit("b1");
    reveal_strlit("b2");
    reveal_strlit("a");
    reveal_strlit("n");
    reveal_strlit("m");
    assert("b1"@.len() == 2);
    assert("b2"@.len() == 2);
    assert("n"@.len() == 1);
    assert("m"@.len() == 1);
    assert("b1"@[1] != "b2"@[1]);
    assert("a"@[0] != "n"@[0]);
    assert("a"@[0] != "m"@[0]);
}

proof fn lemma_subst_and(x: Seq<char>, v: SpecTerm)
    ensures
        spec_subst(spec_and(), x, v) == spec_and(),
{
    let body = ite_of(svar("b1"@), svar("b2"@), SpecTerm::False);
    if x != "b1"@ && x != "b2"@ {
        assert(spec_subst(svar("b1"@), x, v) == svar("b1"@));
        assert(spec_subst(svar("b2"@), x, v) == svar("b2"@));
        assert(spec_subst(SpecTerm::False, x, v) == SpecTerm::False);
        assert(spec_subst(body, x, v) == body);
    }
    if x != "b1"@ {
        assert(spec_subst(spec_lam("b2"@, body), x, v) == spec_lam("b2"@, body));
    }
}

proof fn lemma_subst_not(x: Seq<char>, v: SpecTerm)
    ensures
        spec_subst(spec_not(), x, v) == spec_not(),
{
    let body = ite_of(svar("a"@), SpecTerm::False, SpecTerm::True);
    if x != "a"@ {
        assert(spec_subst(svar("a"@), x, v) == svar("a"@));
        assert(spec_subst(SpecTerm::False, x, v) == SpecTerm::False);
        assert(spec_subst(SpecTerm::True, x, v) == SpecTerm::True);
        assert(spec_subst(body, x, v) == body);
    }
}

proof fn lemma_subst_eq(x: Seq<char>, v: SpecTerm)
    ensures
        spec_subst(spec_eq(), x, v) == spec_eq(),
{
    lemma_names_distinct();
    lemma_subst_and(x, v);
    lemma_subst_le(x, v);
    let l1 = spec_app2(spec_le(), svar("n"@), svar("m"@));
    let l2 = spec_app2(spec_le(), svar("m"@), svar("n"@));
    let body = spec_app2(spec_and(), l1, l2);
    if x != "n"@ && x != "m"@ {
        assert(spec_subst(svar("n"@), x, v) == svar("n"@));
        assert(spec_subst(svar("m"@), x, v) == svar("m"@));
        lemma_subst_app2(spec_le(), svar("n"@), svar("m"@), x, v);
        lemma_subst_app2(spec_le(), svar("m"@), svar("n"@), x, v);
        lemma_subst_app2(spec_and(), l1, l2, x, v);
        assert(spec_subst(body, x, v) == body);
    }
    if x != "n"@ {
        assert(spec_subst(spec_lam("m"@, body), x, v) == spec_lam("m"@, body));
    }
}

/// A conditional whose condition is not headed by a boolean reduces its condition.
proof fn lemma_ite_ctx(c: SpecTerm, t: SpecTerm, f: SpecTerm)
    requires
        !is_bool(spec_whnf(c)),
        spec_step(c) is Some,
    ensures
        spec_step(ite_of(c, t, f)) == Some(ite_of(spec_step(c).unwrap(), t, f)),
        !is_bool(spec_whnf(ite_of(c, t, f))),
{
}

/// The condition position of a conditional, around a context that never
/// heads to a boolean, is again a scrutinee context.
proof fn lemma_ite_of_context(
    inner: spec_fn(SpecTerm) -> SpecTerm,
    wrap: spec_fn(SpecTerm) -> SpecTerm,
    t: SpecTerm,
    f: SpecTerm,
)
    requires
        is_scrutinee_context(inner),
        forall|x: SpecTerm| !is_bool(spec_whnf(#[trigger] inner(x))),
        forall|x: SpecTerm| #[trigger] wrap(x) == ite_of(inner(x), t, f),
    ensures
        is_scrutinee_context(wrap),
        forall|x: SpecTerm| !is_bool(spec_whnf(#[trigger] wrap(x))),
{
    assert forall|x: SpecTerm|
        !heads_to_number(x) && spec_step(x) is Some implies spec_step(#[trigger] wrap(x)) == Some(
            wrap(spec_step(x).unwrap()),
        ) by {
        assert(spec_step(inner(x)) == Some(inner(spec_step(x).unwrap())));
        lemma_ite_ctx(inner(x), t, f);
    }
    assert forall|w: nat|
        spec_step(#[trigger] wrap(pred_unfolded(w))) == spec_step(wrap(spec_nat(w))) && spec_step(
            wrap(spec_nat(w)),
        ) is Some by {
        assert(spec_step(inner(pred_unfolded(w))) == spec_step(inner(spec_nat(w))));
        lemma_ite_ctx(inner(pred_unfolded(w)), t, f);
        lemma_ite_ctx(inner(spec_nat(w)), t, f);
    }
    assert forall|x: SpecTerm| !is_bool(spec_whnf(#[trigger] wrap(x))) by {
        assert(!is_bool(spec_whnf(inner(x))));
    }
}

/// The zero-test body, as a context.
proof fn lemma_is_zero_context(wrap: spec_fn(SpecTerm) -> SpecTerm)
    requires
        forall|x: SpecTerm| #[trigger] wrap(x) == is_zero_rec(x),
    ensures
        is_scrutinee_context(wrap),
        forall|x: SpecTerm| !is_bool(spec_whnf(#[trigger] wrap(x))),
{
    lemma_rec_is_scrutinee_context(wrap, SpecTerm::True, is_zero_step());
}

/// How the zero-test body steps on a positive numeral.
proof fn lemma_is_zero_rec_succ(w: nat)
    ensures
        spec_step(is_zero_rec(spec_nat(w + 1))) == Some(
            spec_app(spec_app(is_zero_step(), spec_nat(w)), is_zero_rec(spec_nat(w))),
        ),
        spec_whnf(spec_app(spec_app(is_zero_step(), spec_nat(w)), is_zero_rec(spec_nat(w))))
            == SpecTerm::False,
{
    lemma_names_distinct();
    assert(spec_nat(w + 1) == SpecTerm::Succ(Box::new(spec_nat(w))));
    assert(spec_subst(SpecTerm::False, "pred"@, spec_nat(w)) == SpecTerm::False);
    assert(spec_subst(spec_lam("ih"@, SpecTerm::False), "pred"@, spec_nat(w)) == spec_lam(
        "ih"@,
        SpecTerm::False,
    ));
    assert(spec_whnf(is_zero_step()) == is_zero_step());
    assert(spec_whnf(spec_app(is_zero_step(), spec_nat(w))) == spec_lam("ih"@, SpecTerm::False));
    assert(spec_subst(SpecTerm::False, "ih"@, is_zero_rec(spec_nat(w))) == SpecTerm::False);
}

/// `if le n m then t else f` takes the branch that the comparison selects.
proof fn lemma_le_in_ite(n: nat, m: nat, t: SpecTerm, f: SpecTerm)
    requires
        normalizes(t),
        normalizes(f),
    ensures
        normalizes(ite_of(spec_app2(spec_le(), spec_nat(n), spec_nat(m)), t, f)),
        normal_form(ite_of(spec_app2(spec_le(), spec_nat(n), spec_nat(m)), t, f)) == if n
            <= m {
            normal_form(t)
        } else {
            normal_form(f)
        },
{
    lemma_names_distinct();
    let c0 = spec_app2(spec_le(), spec_nat(n), spec_nat(m));
    let x = spec_app2(spec_minus(), spec_nat(n), spec_nat(m));
    let a = spec_app(spec_is_zero(), x);
    lemma_le_unfold(n, m);
    lemma_minus_unfold(n, m);
    let izb = rec_of(svar("n"@), SpecTerm::True, is_zero_step());
    lemma_subst_is_zero_step("n"@, x);
    assert(spec_subst(svar("n"@), "n"@, x) == x);
    assert(spec_subst(SpecTerm::True, "n"@, x) == SpecTerm::True);
    assert(spec_subst(izb, "n"@, x) == is_zero_rec(x));
    assert(spec_whnf(spec_is_zero()) == spec_is_zero());
    assert(spec_whnf(a) == is_zero_rec(x));
    assert(spec_step(a) == Some(is_zero_rec(x)));
    lemma_ite_ctx(c0, t, f);
    lemma_ite_ctx(a, t, f);
    let wiz = |y: SpecTerm| is_zero_rec(y);
    let wrap = |y: SpecTerm| ite_of(is_zero_rec(y), t, f);
    lemma_is_zero_context(wiz);
    lemma_ite_of_context(wiz, wrap, t, f);
    assert(spec_step(wrap(x)) == Some(wrap(minus_rec(n, m))));
    assert(preds(0, minus_rec(n, m)) == minus_rec(n, m));
    assert(0 + m == m);
    // the branch chosen once the difference is a numeral
    let v = monus(n, m);
    let tv = wrap(spec_nat(v));
    if v == 0 {
        assert(spec_step(is_zero_rec(SpecTerm::Zero)) == Some(SpecTerm::True));
        lemma_ite_ctx(is_zero_rec(SpecTerm::Zero), t, f);
        let u = ite_of(SpecTerm::True, t, f);
        assert(spec_step(u) == Some(t));
        law_normal_form_of_reduct(u);
        law_normal_form_of_reduct(tv);
    } else {
        let w = (v - 1) as nat;
        assert(w + 1 == v);
        lemma_is_zero_rec_succ(w);
        let y = spec_app(spec_app(is_zero_step(), spec_nat(w)), is_zero_rec(spec_nat(w)));
        lemma_ite_ctx(is_zero_rec(spec_nat(v)), t, f);
        let u = ite_of(y, t, f);
        assert(spec_step(u) == Some(f));
        law_normal_form_of_reduct(u);
        law_normal_form_of_reduct(tv);
    }
    lemma_under_preds_minus(n, 0, m, wrap);
    law_normal_form_of_reduct(wrap(x));
    law_normal_form_of_reduct(ite_of(a, t, f));
    law_normal_form_of_reduct(ite_of(c0, t, f));
}

/// `eq n m` steps, in two steps, to `if le n m then le m n else false`.
proof fn lemma_eq_unfold(n: nat, m: nat)
    ensures
        spec_step(spec_app2(spec_eq(), spec_nat(n), spec_nat(m))) == Some(
            spec_app2(
                spec_and(),
                spec_app2(spec_le(), spec_nat(n), spec_nat(m)),
                spec_app2(spec_le(), spec_nat(m), spec_nat(n)),
            ),
        ),
        spec_whnf(spec_app2(spec_eq(), spec_nat(n), spec_nat(m))) == spec_app2(
            spec_and(),
            spec_app2(spec_le(), spec_nat(n), spec_nat(m)),
            spec_app2(spec_le(), spec_nat(m), spec_nat(n)),
        ),
        spec_step(
            spec_app2(
                spec_and(),
                spec_app2(spec_le(), spec_nat(n), spec_nat(m)),
                spec_app2(spec_le(), spec_nat(m), spec_nat(n)),
            ),
        ) == Some(
            ite_of(
                spec_app2(spec_le(), spec_nat(n), spec_nat(m)),
                spec_app2(spec_le(), spec_nat(m), spec_nat(n)),
                SpecTerm::False,
            ),
        ),
        spec_whnf(
            spec_app2(
                spec_and(),
                spec_app2(spec_le(), spec_nat(n), spec_nat(m)),
                spec_app2(spec_le(), spec_nat(m), spec_nat(n)),
            ),
        ) == ite_of(
            spec_app2(spec_le(), spec_nat(n), spec_nat(m)),
            spec_app2(spec_le(), spec_nat(m), spec_nat(n)),
            SpecTerm::False,
        ),
{
    lemma_names_distinct();
    lemma_more_names_distinct();
    let nn = spec_nat(n);
    let nm = spec_nat(m);
    let l1v = spec_app2(spec_le(), svar("n"@), svar("m"@));
    let l2v = spec_app2(spec_le(), svar("m"@), svar("n"@));
    let l1n = spec_app2(spec_le(), nn, svar("m"@));
    let l2n = spec_app2(spec_le(), svar("m"@), nn);
    let l1 = spec_app2(spec_le(), nn, nm);
    let l2 = spec_app2(spec_le(), nm, nn);
    let body = spec_app2(spec_and(), l1v, l2v);
    let body_n = spec_app2(spec_and(), l1n, l2n);
    let e = spec_app2(spec_and(), l1, l2);
    lemma_beta2("n"@, "m"@, body, nn, nm);
    lemma_subst_and("n"@, nn);
    lemma_subst_and("m"@, nm);
    lemma_subst_le("n"@, nn);
    lemma_subst_le("m"@, nm);
    lemma_subst_nat(n, "m"@, nm);
    assert(spec_subst(svar("n"@), "n"@, nn) == nn);
    assert(spec_subst(svar("m"@), "n"@, nn) == svar("m"@));
    assert(spec_subst(svar("m"@), "m"@, nm) == nm);
    lemma_subst_app2(spec_le(), svar("n"@), svar("m"@), "n"@, nn);
    lemma_subst_app2(spec_le(), svar("m"@), svar("n"@), "n"@, nn);
    lemma_subst_app2(spec_and(), l1v, l2v, "n"@, nn);
    lemma_subst_app2(spec_le(), nn, svar("m"@), "m"@, nm);
    lemma_subst_app2(spec_le(), svar("m"@), nn, "m"@, nm);
    lemma_subst_app2(spec_and(), l1n, l2n, "m"@, nm);
    assert(spec_subst(body, "n"@, nn) == body_n);
    assert(spec_subst(body_n, "m"@, nm) == e);
    let q = spec_eq();
    assert(spec_whnf(q) == q);
    assert(spec_subst(spec_lam("m"@, body), "n"@, nn) == spec_lam("m"@, body_n));
    assert(spec_whnf(spec_app(q, nn)) == spec_lam("m"@, body_n));
    // `and l1 l2`
    let ab = ite_of(svar("b1"@), svar("b2"@), SpecTerm::False);
    let ab1 = ite_of(l1, svar("b2"@), SpecTerm::False);
    lemma_beta2("b1"@, "b2"@, ab, l1, l2);
    lemma_subst_le("b2"@, l2);
    lemma_subst_nat(n, "b2"@, l2);
    lemma_subst_nat(m, "b2"@, l2);
    lemma_subst_app2(spec_le(), nn, nm, "b2"@, l2);
    assert(spec_subst(svar("b1"@), "b1"@, l1) == l1);
    assert(spec_subst(svar("b2"@), "b1"@, l1) == svar("b2"@));
    assert(spec_subst(SpecTerm::False, "b1"@, l1) == SpecTerm::False);
    assert(spec_subst(ab, "b1"@, l1) == ab1);
    assert(spec_subst(svar("b2"@), "b2"@, l2) == l2);
    assert(spec_subst(SpecTerm::False, "b2"@, l2) == SpecTerm::False);
    assert(spec_subst(ab1, "b2"@, l2) == ite_of(l1, l2, SpecTerm::False));
    let d = spec_and();
    assert(spec_whnf(d) == d);
    assert(spec_subst(spec_lam("b2"@, ab), "b1"@, l1) == spec_lam("b2"@, ab1));
    assert(spec_whnf(spec_app(d, l1)) == spec_lam("b2"@, ab1));
}

/// `eq` tests numerals for equality.
pub proof fn law_eq_compares(n: nat, m: nat)
    ensures
        normalizes(spec_app2(spec_eq(), spec_nat(n), spec_nat(m))),
        normal_form(spec_app2(spec_eq(), spec_nat(n), spec_nat(m))) == spec_bool(n == m),
{
    let l1 = spec_app2(spec_le(), spec_nat(n), spec_nat(m));
    let l2 = spec_app2(spec_le(), spec_nat(m), spec_nat(n));
    let e = spec_app2(spec_and(), l1, l2);
    lemma_eq_unfold(n, m);
    law_le_compares(m, n);
    lemma_normal_form_of_normal(SpecTerm::False);
    lemma_le_in_ite(n, m, l2, SpecTerm::False);
    law_normal_form_of_reduct(e);
    law_normal_form_of_reduct(spec_app2(spec_eq(), spec_nat(n), spec_nat(m)));
}

/// `neq` tests numerals for inequality.
pub proof fn law_neq_compares(n: nat, m: nat)
    ensures
        normalizes(spec_app2(spec_neq(), spec_nat(n), spec_nat(m))),
        normal_form(spec_app2(spec_neq(), spec_nat(n), spec_nat(m))) == spec_bool(n != m),
{
    lemma_names_distinct();
    lemma_more_names_distinct();
    let nn = spec_nat(n);
    let nm = spec_nat(m);
    let t = spec_app2(spec_neq(), nn, nm);
    let qv = spec_app2(spec_eq(), svar("n"@), svar("m"@));
    let qn = spec_app2(spec_eq(), nn, svar("m"@));
    let q = spec_app2(spec_eq(), nn, nm);
    let body = spec_app(spec_not(), qv);
    let body_n = spec_app(spec_not(), qn);
    let nq = spec_app(spec_not(), q);
    // `neq n m` steps to `not (eq n m)`, then to `if eq n m then false else true`
    lemma_beta2("n"@, "m"@, body, nn, nm);
    lemma_subst_not("n"@, nn);
    lemma_subst_not("m"@, nm);
    lemma_subst_eq("n"@, nn);
    lemma_subst_eq("m"@, nm);
    lemma_subst_nat(n, "m"@, nm);
    assert(spec_subst(svar("n"@), "n"@, nn) == nn);
    assert(spec_subst(svar("m"@), "n"@, nn) == svar("m"@));
    assert(spec_subst(svar("m"@), "m"@, nm) == nm);
    lemma_subst_app2(spec_eq(), svar("n"@), svar("m"@), "n"@, nn);
    lemma_subst_app2(spec_eq(), nn, svar("m"@), "m"@, nm);
    assert(spec_subst(body, "n"@, nn) == body_n);
    assert(spec_subst(body_n, "m"@, nm) == nq);
    assert(spec_step(t) == Some(nq));
    let nb = ite_of(svar("a"@), SpecTerm::False, SpecTerm::True);
    lemma_beta1("a"@, nb, q);
    assert(spec_subst(svar("a"@), "a"@, q) == q);
    assert(spec_subst(SpecTerm::False, "a"@, q) == SpecTerm::False);
    assert(spec_subst(SpecTerm::True, "a"@, q) == SpecTerm::True);
    let c0 = ite_of(q, SpecTerm::False, SpecTerm::True);
    assert(spec_step(nq) == Some(c0));
    // evaluate the condition
    let l1 = spec_app2(spec_le(), nn, nm);
    let l2 = spec_app2(spec_le(), nm, nn);
    let e = spec_app2(spec_and(), l1, l2);
    let i1 = ite_of(l1, l2, SpecTerm::False);
    let x = spec_app2(spec_minus(), nn, nm);
    let a = spec_app(spec_is_zero(), x);
    lemma_eq_unfold(n, m);
    lemma_le_unfold(n, m);
    lemma_minus_unfold(n, m);
    let izb = rec_of(svar("n"@), SpecTerm::True, is_zero_step());
    lemma_subst_is_zero_step("n"@, x);
    assert(spec_subst(svar("n"@), "n"@, x) == x);
    assert(spec_subst(SpecTerm::True, "n"@, x) == SpecTerm::True);
    assert(spec_subst(izb, "n"@, x) == is_zero_rec(x));
    assert(spec_whnf(spec_is_zero()) == spec_is_zero());
    assert(spec_whnf(a) == is_zero_rec(x));
    assert(spec_step(a) == Some(is_zero_rec(x)));
    lemma_ite_ctx(q, SpecTerm::False, SpecTerm::True);
    lemma_ite_ctx(e, SpecTerm::False, SpecTerm::True);
    lemma_ite_ctx(l1, l2, SpecTerm::False);
    lemma_ite_ctx(i1, SpecTerm::False, SpecTerm::True);
    let i2 = ite_of(a, l2, SpecTerm::False);
    lemma_ite_ctx(a, l2, SpecTerm::False);
    lemma_ite_ctx(i2, SpecTerm::False, SpecTerm::True);
    let wiz = |y: SpecTerm| is_zero_rec(y);
    let w1 = |y: SpecTerm| ite_of(is_zero_rec(y), l2, SpecTerm::False);
    let wrap = |y: SpecTerm|
        ite_of(ite_of(is_zero_rec(y), l2, SpecTerm::False), SpecTerm::False, SpecTerm::True);
    lemma_is_zero_context(wiz);
    lemma_ite_of_context(wiz, w1, l2, SpecTerm::False);
    lemma_ite_of_context(w1, wrap, SpecTerm::False, SpecTerm::True);
    assert(spec_step(ite_of(i2, SpecTerm::False, SpecTerm::True)) == Some(wrap(x)));
    assert(spec_step(wrap(x)) == Some(wrap(minus_rec(n, m))));
    assert(preds(0, minus_rec(n, m)) == minus_rec(n, m));
    assert(0 + m == m);
    // the outcome once the difference is a numeral
    let v = monus(n, m);
    let tv = wrap(spec_nat(v));
    lemma_normal_form_of_normal(SpecTerm::False);
    lemma_normal_form_of_normal(SpecTerm::True);
    if v == 0 {
        assert(spec_step(is_zero_rec(SpecTerm::Zero)) == Some(SpecTerm::True));
        lemma_ite_ctx(is_zero_rec(SpecTerm::Zero), l2, SpecTerm::False);
        let u1 = ite_of(SpecTerm::True, l2, SpecTerm::False);
        lemma_ite_ctx(w1(SpecTerm::Zero), SpecTerm::False, SpecTerm::True);
        assert(spec_step(tv) == Some(ite_of(u1, SpecTerm::False, SpecTerm::True)));
        assert(spec_whnf(u1) == l2);
        lemma_le_unfold(m, n);
        assert(spec_step(u1) == Some(l2));
        lemma_ite_ctx(u1, SpecTerm::False, SpecTerm::True);
        lemma_le_in_ite(m, n, SpecTerm::False, SpecTerm::True);
        law_normal_form_of_reduct(ite_of(u1, SpecTerm::False, SpecTerm::True));
        law_normal_form_of_reduct(tv);
    } else {
        let w = (v - 1) as nat;
        assert(w + 1 == v);
        lemma_is_zero_rec_succ(w);
        let y = spec_app(spec_app(is_zero_step(), spec_nat(w)), is_zero_rec(spec_nat(w)));
        lemma_ite_ctx(is_zero_rec(spec_nat(v)), l2, SpecTerm::False);
        lemma_ite_ctx(w1(spec_nat(v)), SpecTerm::False, SpecTerm::True);
        let u1 = ite_of(y, l2, SpecTerm::False);
        assert(spec_step(tv) == Some(ite_of(u1, SpecTerm::False, SpecTerm::True)));
        assert(spec_whnf(u1) == SpecTerm::False);
        assert(spec_step(ite_of(u1, SpecTerm::False, SpecTerm::True)) == Some(SpecTerm::True));
        law_normal_form_of_reduct(ite_of(u1, SpecTerm::False, SpecTerm::True));
        law_normal_form_of_reduct(tv);
    }
    lemma_under_preds_minus(n, 0, m, wrap);
    law_normal_form_of_reduct(wrap(x));
    law_normal_form_of_reduct(ite_of(i2, SpecTerm::False, SpecTerm::True));
    law_normal_form_of_reduct(ite_of(i1, SpecTerm::False, SpecTerm::True));
    law_normal_form_of_reduct(ite_of(e, SpecTerm::False, SpecTerm::True));
    law_normal_form_of_reduct(c0);
    law_normal_form_of_reduct(nq);
    law_normal_form_of_reduct(t);
}

// ---------------------------------------------------------------------------
// The surface operators on literals
// ---------------------------------------------------------------------------

/// `a - b` on two literals evaluates to their truncated difference, in any module.
pub proof fn law_sub_evaluates(a: u64, b: u64, env: Seq<(Seq<char>, SpecTerm)>)
    ensures
        normalizes(spec_desugar(AST::Sub(Box::new(AST::Nat(a)), Box::new(AST::Nat(b))), env)),
        normal_form(spec_desugar(AST::Sub(Box::new(AST::Nat(a)), Box::new(AST::Nat(b))), env))
            == spec_nat(monus(a as nat, b as nat)),
{
    assert(spec_desugar(AST::Nat(a), env) == spec_nat(a as nat));
    assert(spec_desugar(AST::Nat(b), env) == spec_nat(b as nat));
    law_minus_subtracts(a as nat, b as nat);
}

/// The comparisons `<=`, `<`, `>=`, `>`, `==`, `!=` on two literals evaluate to the
/// boolean literal of the comparison, in any module.
pub proof fn law_comparisons_evaluate(a: u64, b: u64, env: Seq<(Seq<char>, SpecTerm)>)
    ensures
        normal_form(spec_desugar(AST::Le(Box::new(AST::Nat(a)), Box::new(AST::Nat(b))), env))
            == spec_bool(a <= b),
        normal_form(spec_desugar(AST::Lt(Box::new(AST::Nat(a)), Box::new(AST::Nat(b))), env))
            == spec_bool(a < b),
        normal_form(spec_desugar(AST::Ge(Box::new(AST::Nat(a)), Box::new(AST::Nat(b))), env))
            == spec_bool(a >= b),
        normal_form(spec_desugar(AST::Gt(Box::new(AST::Nat(a)), Box::new(AST::Nat(b))), env))
            == spec_bool(a > b),
        normalizes(spec_desugar(AST::Le(Box::new(AST::Nat(a)), Box::new(AST::Nat(b))), env)),
        normalizes(spec_desugar(AST::Lt(Box::new(AST::Nat(a)), Box::new(AST::Nat(b))), env)),
        normalizes(spec_desugar(AST::Ge(Box::new(AST::Nat(a)), Box::new(AST::Nat(b))), env)),
        normalizes(spec_desugar(AST::Gt(Box::new(AST::Nat(a)), Box::new(AST::Nat(b))), env)),
        normal_form(spec_desugar(AST::Eq(Box::new(AST::Nat(a)), Box::new(AST::Nat(b))), env))
            == spec_bool(a == b),
        normal_form(spec_desugar(AST::Neq(Box::new(AST::Nat(a)), Box::new(AST::Nat(b))), env))
            == spec_bool(a != b),
        normalizes(spec_desugar(AST::Eq(Box::new(AST::Nat(a)), Box::new(AST::Nat(b))), env)),
        normalizes(spec_desugar(AST::Neq(Box::new(AST::Nat(a)), Box::new(AST::Nat(b))), env)),
{
    assert(spec_desugar(AST::Nat(a), env) == spec_nat(a as nat));
    assert(spec_desugar(AST::Nat(b), env) == spec_nat(b as nat));
    law_le_compares(a as nat, b as nat);
    law_lt_compares(a as nat, b as nat);
    law_ge_compares(a as nat, b as nat);
    law_gt_compares(a as nat, b as nat);
    law_eq_compares(a as nat, b as nat);
    law_neq_compares(a as nat, b as nat);
}

} // verus!
