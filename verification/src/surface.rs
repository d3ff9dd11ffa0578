use vstd::prelude::*;

use crate::arith::{
    law_and, law_mult_multiplies, law_not, law_or, law_plus_adds, lemma_normal_form_succ, spec_bool,
};
use crate::ast::{
    ite_of, rec_of, spec_and, spec_app2, spec_desugar, spec_eq, spec_ge, spec_gt, spec_is_zero,
    spec_le, spec_lt, spec_minus, spec_mult, spec_neq, spec_not, spec_or, spec_plus, spec_pred,
    AST,
};
use crate::module::{prelude, spec_lookup};
use crate::step::{
    is_bool, is_normal, law_head_form_reached_in_one_step, law_normal_form_of_reduct,
    law_step_conditional, law_step_preserves_normal_form, law_step_recursion,
    lemma_normal_form_of_normal, lemma_normal_form_unique, lemma_run_normal, normal_form,
    normalizes, run, spec_step, spec_whnf,
};
use crate::subtract::{
    law_eq_compares, law_ge_compares, law_gt_compares, law_is_zero, law_le_compares,
    law_lt_compares, law_minus_subtracts, law_neq_compares, law_pred, monus,
};
use crate::ast::{law_decode_numeral, spec_decode_nat};
use crate::term::{free_in, spec_app, spec_lam, spec_nat, spec_subst, SpecTerm};

verus! {

// ---------------------------------------------------------------------------
// Conditionals
// ---------------------------------------------------------------------------

/// A conditional whose condition reduces to the boolean `b` in `k` steps
/// normalizes as the branch that `b` selects.
proof fn lemma_conditional_composes(c: SpecTerm, t: SpecTerm, f: SpecTerm, b: bool, k: nat)
    requires
        is_normal(run(c, k)),
        run(c, k) == spec_bool(b),
        normalizes(if b {
            t
        } else {
            f
        }),
    ensures
        normalizes(ite_of(c, t, f)),
        normal_form(ite_of(c, t, f)) == normal_form(
            if b {
                t
            } else {
                f
            },
        ),
    decreases k,
{
    lemma_normal_form_unique(c, k);
    law_step_conditional(c, t, f);
    if is_bool(spec_whnf(c)) {
        let h = spec_whnf(c);
        law_head_form_reached_in_one_step(c);
        lemma_normal_form_of_normal(h);
        if c != h {
            law_step_preserves_normal_form(c);
        }
        law_normal_form_of_reduct(ite_of(c, t, f));
    } else {
        if is_normal(c) {
            lemma_run_normal(c, k);
        }
        assert(k > 0);
        let c2 = spec_step(c).unwrap();
        assert(run(c, k) == run(c2, (k - 1) as nat));
        lemma_conditional_composes(c2, t, f, b, (k - 1) as nat);
        law_normal_form_of_reduct(ite_of(c, t, f));
    }
}

/// Desugaring keeps both branches of a conditional: when the condition
/// evaluates to `true` the conditional evaluates as its then-branch, and
/// when it evaluates to `false`, as its else-branch.
pub proof fn law_desugar_conditional(
    c: AST,
    t: AST,
    f: AST,
    env: Seq<(Seq<char>, SpecTerm)>,
    b: bool,
)
    requires
        normalizes(spec_desugar(c, env)),
        normal_form(spec_desugar(c, env)) == spec_bool(b),
        normalizes(spec_desugar(if b { t } else { f }, env)),
    ensures
        normalizes(
            spec_desugar(
                AST::Ite { cond: Box::new(c), if_true: Box::new(t), if_false: Box::new(f) },
                env,
            ),
        ),
        normal_form(
            spec_desugar(
                AST::Ite { cond: Box::new(c), if_true: Box::new(t), if_false: Box::new(f) },
                env,
            ),
        ) == normal_form(spec_desugar(if b { t } else { f }, env)),
{
    let dc = spec_desugar(c, env);
    let dt = spec_desugar(t, env);
    let df = spec_desugar(f, env);
    let k = choose|k: nat| is_normal(#[trigger] run(dc, k));
    lemma_normal_form_unique(dc, k);
    lemma_conditional_composes(dc, dt, df, b, k);
}

/// A conditional on a boolean literal steps to the branch it selects.
pub proof fn law_desugar_conditional_on_literal(t: AST, f: AST, env: Seq<(Seq<char>, SpecTerm)>)
    ensures
        spec_step(
            spec_desugar(
                AST::Ite { cond: Box::new(AST::True), if_true: Box::new(t), if_false: Box::new(f) },
                env,
            ),
        ) == Some(spec_desugar(t, env)),
        spec_step(
            spec_desugar(
                AST::Ite { cond: Box::new(AST::False), if_true: Box::new(t), if_false: Box::new(f) },
                env,
            ),
        ) == Some(spec_desugar(f, env)),
{
    let dt = spec_desugar(t, env);
    let df = spec_desugar(f, env);
    assert(spec_desugar(AST::True, env) == SpecTerm::True);
    assert(spec_desugar(AST::False, env) == SpecTerm::False);
    law_step_conditional(SpecTerm::True, dt, df);
    law_step_conditional(SpecTerm::False, dt, df);
}

// ---------------------------------------------------------------------------
// Recursion
// ---------------------------------------------------------------------------

/// Desugaring keeps both cases of `rec`: on a scrutinee headed by zero it
/// steps to the zero case; on one headed by `succ n` it steps to the
/// successor case applied to `n` and to the recursion on `n`.
pub proof fn law_desugar_recursion(s: AST, z: AST, p: AST, env: Seq<(Seq<char>, SpecTerm)>)
    ensures
        spec_whnf(spec_desugar(s, env)) is Zero ==> spec_step(
            spec_desugar(
                AST::Rec { scrutinee: Box::new(s), if_zero: Box::new(z), if_succ: Box::new(p) },
                env,
            ),
        ) == Some(spec_desugar(z, env)),
        spec_whnf(spec_desugar(s, env)) is Succ ==> spec_step(
            spec_desugar(
                AST::Rec { scrutinee: Box::new(s), if_zero: Box::new(z), if_succ: Box::new(p) },
                env,
            ),
        ) == Some(
            spec_app(
                spec_app(spec_desugar(p, env), *spec_whnf(spec_desugar(s, env))->Succ_0),
                rec_of(
                    *spec_whnf(spec_desugar(s, env))->Succ_0,
                    spec_desugar(z, env),
                    spec_desugar(p, env),
                ),
            ),
        ),
{
    law_step_recursion(spec_desugar(s, env), spec_desugar(z, env), spec_desugar(p, env));
}

/// `rec` on a literal: `rec 0 z p` steps to `z`, and `rec (n + 1) z p` steps
/// to `p n (rec n z p)`.
pub proof fn law_desugar_recursion_on_literal(
    n: u64,
    z: AST,
    p: AST,
    env: Seq<(Seq<char>, SpecTerm)>,
)
    requires
        n < u64::MAX,
    ensures
        spec_step(
            spec_desugar(
                AST::Rec { scrutinee: Box::new(AST::Nat(0)), if_zero: Box::new(z), if_succ: Box::new(p) },
                env,
            ),
        ) == Some(spec_desugar(z, env)),
        spec_step(
            spec_desugar(
                AST::Rec {
                    scrutinee: Box::new(AST::Nat((n + 1) as u64)),
                    if_zero: Box::new(z),
                    if_succ: Box::new(p),
                },
                env,
            ),
        ) == Some(
            spec_desugar(
                AST::App(
                    Box::new(AST::App(Box::new(p), Box::new(AST::Nat(n)))),
                    Box::new(
                        AST::Rec {
                            scrutinee: Box::new(AST::Nat(n)),
                            if_zero: Box::new(z),
                            if_succ: Box::new(p),
                        },
                    ),
                ),
                env,
            ),
        ),
{
    assert(spec_desugar(AST::Nat(0), env) == SpecTerm::Zero);
    let m = (n + 1) as u64;
    assert(spec_desugar(AST::Nat(m), env) == spec_nat(m as nat));
    assert(spec_nat(m as nat) == SpecTerm::Succ(Box::new(spec_nat(n as nat))));
    assert(spec_desugar(AST::Nat(n), env) == spec_nat(n as nat));
    let dz = spec_desugar(z, env);
    let dp = spec_desugar(p, env);
    law_step_recursion(SpecTerm::Zero, dz, dp);
    law_step_recursion(spec_nat(m as nat), dz, dp);
    let inner = AST::Rec {
        scrutinee: Box::new(AST::Nat(n)),
        if_zero: Box::new(z),
        if_succ: Box::new(p),
    };
    assert(spec_desugar(inner, env) == rec_of(spec_nat(n as nat), dz, dp));
    let head = AST::App(Box::new(p), Box::new(AST::Nat(n)));
    assert(spec_desugar(head, env) == spec_app(dp, spec_nat(n as nat)));
}

/// A `rec` whose scrutinee reduces to zero in `k` steps normalizes as its
/// zero case.
proof fn lemma_recursion_on_zero(s: SpecTerm, z: SpecTerm, p: SpecTerm, k: nat)
    requires
        is_normal(run(s, k)),
        run(s, k) == SpecTerm::Zero,
        normalizes(z),
    ensures
        normalizes(rec_of(s, z, p)),
        normal_form(rec_of(s, z, p)) == normal_form(z),
    decreases k,
{
    lemma_normal_form_unique(s, k);
    law_step_recursion(s, z, p);
    if spec_whnf(s) is Zero || spec_whnf(s) is Succ {
        let h = spec_whnf(s);
        law_head_form_reached_in_one_step(s);
        if s != h {
            law_step_preserves_normal_form(s);
        }
        if h is Succ {
            lemma_normal_form_succ(*h->Succ_0);
            assert(h == SpecTerm::Succ(Box::new(*h->Succ_0)));
            assert(false);
        }
        lemma_normal_form_of_normal(h);
        law_normal_form_of_reduct(rec_of(s, z, p));
    } else {
        if is_normal(s) {
            lemma_run_normal(s, k);
        }
        assert(k > 0);
        let s2 = spec_step(s).unwrap();
        assert(run(s, k) == run(s2, (k - 1) as nat));
        lemma_recursion_on_zero(s2, z, p, (k - 1) as nat);
        law_normal_form_of_reduct(rec_of(s, z, p));
    }
}

/// A `rec` whose scrutinee evaluates to zero evaluates as its zero case.
pub proof fn law_desugar_recursion_on_zero(s: AST, z: AST, p: AST, env: Seq<(Seq<char>, SpecTerm)>)
    requires
        normalizes(spec_desugar(s, env)),
        normal_form(spec_desugar(s, env)) == SpecTerm::Zero,
        normalizes(spec_desugar(z, env)),
    ensures
        normalizes(
            spec_desugar(
                AST::Rec { scrutinee: Box::new(s), if_zero: Box::new(z), if_succ: Box::new(p) },
                env,
            ),
        ),
        normal_form(
            spec_desugar(
                AST::Rec { scrutinee: Box::new(s), if_zero: Box::new(z), if_succ: Box::new(p) },
                env,
            ),
        ) == normal_form(spec_desugar(z, env)),
{
    let ds = spec_desugar(s, env);
    let k = choose|k: nat| is_normal(#[trigger] run(ds, k));
    lemma_normal_form_unique(ds, k);
    lemma_recursion_on_zero(ds, spec_desugar(z, env), spec_desugar(p, env), k);
}

// ---------------------------------------------------------------------------
// Names and the prelude
// ---------------------------------------------------------------------------

/// A name desugars to the term of its latest declaration.
pub proof fn law_desugar_name(x: String, t: SpecTerm, env: Seq<(Seq<char>, SpecTerm)>)
    ensures
        spec_desugar(AST::Name(x), env.push((x@, t))) == t,
{
    assert(env.push((x@, t)).last() == (x@, t));
}

/// Looking up a name finds the last declaration of it.
proof fn lemma_lookup_at(env: Seq<(Seq<char>, SpecTerm)>, name: Seq<char>, i: int)
    requires
        0 <= i < env.len(),
        env[i].0 == name,
        forall|j: int| i < j < env.len() ==> #[trigger] env[j].0 != name,
    ensures
        spec_lookup(env, name) == Some(env[i].1),
    decreases env.len(),
{
    if i < env.len() - 1 {
        let d = env.drop_last();
        assert forall|j: int| i < j < d.len() implies #[trigger] d[j].0 != name by {
            assert(d[j] == env[j]);
        }
        lemma_lookup_at(d, name, i);
    }
}

/// The prelude's names are pairwise distinct.
proof fn lemma_prelude_names_distinct()
    ensures
        forall|i: int, j: int|
            0 <= i < j < prelude().len() ==> #[trigger] prelude()[i].0 != #[trigger] prelude()[j].0,
{
    reveal_strlit("and");
    reveal_strlit("or");
    reveal_strlit("not");
    reveal_strlit("pred");
    reveal_strlit("plus");
    reveal_strlit("mult");
    reveal_strlit("minus");
    reveal_strlit("is_zero");
    reveal_strlit("eq");
    reveal_strlit("neq");
    reveal_strlit("le");
    reveal_strlit("lt");
    reveal_strlit("ge");
    reveal_strlit("gt");
    assert("and"@[0] != "not"@[0] && "and"@[0] != "neq"@[0]);
    assert("or"@[0] != "eq"@[0] && "or"@[0] != "le"@[0] && "or"@[0] != "lt"@[0]);
    assert("or"@[0] != "ge"@[0] && "or"@[0] != "gt"@[0]);
    assert("not"@[1] != "neq"@[1]);
    assert("pred"@[1] != "plus"@[1] && "pred"@[0] != "mult"@[0] && "plus"@[0] != "mult"@[0]);
    assert("eq"@[0] != "le"@[0] && "eq"@[0] != "lt"@[0] && "eq"@[0] != "ge"@[0]);
    assert("eq"@[0] != "gt"@[0] && "le"@[1] != "lt"@[1] && "le"@[0] != "ge"@[0]);
    assert("le"@[0] != "gt"@[0] && "lt"@[0] != "ge"@[0] && "lt"@[0] != "gt"@[0]);
    assert("ge"@[1] != "gt"@[1]);
    let e = prelude();
    assert(e[0].0 == "and"@);
    assert(e[1].0 == "or"@);
    assert(e[2].0 == "not"@);
    assert(e[3].0 == "pred"@);
    assert(e[4].0 == "plus"@);
    assert(e[5].0 == "mult"@);
    assert(e[6].0 == "minus"@);
    assert(e[7].0 == "is_zero"@);
    assert(e[8].0 == "eq"@);
    assert(e[9].0 == "neq"@);
    assert(e[10].0 == "le"@);
    assert(e[11].0 == "lt"@);
    assert(e[12].0 == "ge"@);
    assert(e[13].0 == "gt"@);
    assert forall|i: int, j: int| 0 <= i < j < e.len() implies #[trigger] e[i].0 != #[trigger] e[j].0 by {
        assert(e.len() == 14);
    }
}

/// Each name of the prelude is bound to the combinator of that name.
pub proof fn law_prelude_binds_combinators()
    ensures
        spec_lookup(prelude(), "and"@) == Some(spec_and()),
        spec_lookup(prelude(), "or"@) == Some(spec_or()),
        spec_lookup(prelude(), "not"@) == Some(spec_not()),
        spec_lookup(prelude(), "pred"@) == Some(spec_pred()),
        spec_lookup(prelude(), "plus"@) == Some(spec_plus()),
        spec_lookup(prelude(), "mult"@) == Some(spec_mult()),
        spec_lookup(prelude(), "minus"@) == Some(spec_minus()),
        spec_lookup(prelude(), "is_zero"@) == Some(spec_is_zero()),
        spec_lookup(prelude(), "eq"@) == Some(spec_eq()),
        spec_lookup(prelude(), "neq"@) == Some(spec_neq()),
        spec_lookup(prelude(), "le"@) == Some(spec_le()),
        spec_lookup(prelude(), "lt"@) == Some(spec_lt()),
        spec_lookup(prelude(), "ge"@) == Some(spec_ge()),
        spec_lookup(prelude(), "gt"@) == Some(spec_gt()),
{
    lemma_prelude_names_distinct();
    let e = prelude();
    lemma_lookup_at(e, e[0].0, 0);
    lemma_lookup_at(e, e[1].0, 1);
    lemma_lookup_at(e, e[2].0, 2);
    lemma_lookup_at(e, e[3].0, 3);
    lemma_lookup_at(e, e[4].0, 4);
    lemma_lookup_at(e, e[5].0, 5);
    lemma_lookup_at(e, e[6].0, 6);
    lemma_lookup_at(e, e[7].0, 7);
    lemma_lookup_at(e, e[8].0, 8);
    lemma_lookup_at(e, e[9].0, 9);
    lemma_lookup_at(e, e[10].0, 10);
    lemma_lookup_at(e, e[11].0, 11);
    lemma_lookup_at(e, e[12].0, 12);
    lemma_lookup_at(e, e[13].0, 13);
}

/// The prelude's names compute what they are named for: the arithmetic
/// operators on numerals, the comparisons, and the connectives on booleans.
pub proof fn law_prelude_computes(n: nat, m: nat, p: bool, q: bool)
    ensures
        normal_form(spec_app2(spec_lookup(prelude(), "plus"@).unwrap(), spec_nat(n), spec_nat(m)))
            == spec_nat(n + m),
        normal_form(spec_app2(spec_lookup(prelude(), "mult"@).unwrap(), spec_nat(n), spec_nat(m)))
            == spec_nat(n * m),
        normal_form(spec_app2(spec_lookup(prelude(), "minus"@).unwrap(), spec_nat(n), spec_nat(m)))
            == spec_nat(monus(n, m)),
        normal_form(spec_app(spec_lookup(prelude(), "pred"@).unwrap(), spec_nat(n))) == spec_nat(
            monus(n, 1),
        ),
        normal_form(spec_app(spec_lookup(prelude(), "is_zero"@).unwrap(), spec_nat(n)))
            == spec_bool(n == 0),
        normal_form(spec_app2(spec_lookup(prelude(), "le"@).unwrap(), spec_nat(n), spec_nat(m)))
            == spec_bool(n <= m),
        normal_form(spec_app2(spec_lookup(prelude(), "lt"@).unwrap(), spec_nat(n), spec_nat(m)))
            == spec_bool(n < m),
        normal_form(spec_app2(spec_lookup(prelude(), "ge"@).unwrap(), spec_nat(n), spec_nat(m)))
            == spec_bool(n >= m),
        normal_form(spec_app2(spec_lookup(prelude(), "gt"@).unwrap(), spec_nat(n), spec_nat(m)))
            == spec_bool(n > m),
        normal_form(spec_app2(spec_lookup(prelude(), "eq"@).unwrap(), spec_nat(n), spec_nat(m)))
            == spec_bool(n == m),
        normal_form(spec_app2(spec_lookup(prelude(), "neq"@).unwrap(), spec_nat(n), spec_nat(m)))
            == spec_bool(n != m),
        normal_form(spec_app2(spec_lookup(prelude(), "and"@).unwrap(), spec_bool(p), spec_bool(q)))
            == spec_bool(p && q),
        normal_form(spec_app2(spec_lookup(prelude(), "or"@).unwrap(), spec_bool(p), spec_bool(q)))
            == spec_bool(p || q),
        normal_form(spec_app(spec_lookup(prelude(), "not"@).unwrap(), spec_bool(p))) == spec_bool(
            !p,
        ),
{
    law_prelude_binds_combinators();
    law_plus_adds(n, m);
    law_mult_multiplies(n, m);
    law_minus_subtracts(n, m);
    law_pred(n);
    law_is_zero(n);
    law_le_compares(n, m);
    law_lt_compares(n, m);
    law_ge_compares(n, m);
    law_gt_compares(n, m);
    law_eq_compares(n, m);
    law_neq_compares(n, m);
    law_and(p, q);
    law_or(p, q);
    law_not(p);
}

// ---------------------------------------------------------------------------
// Functions, variables and numerals
// ---------------------------------------------------------------------------

/// Applying a desugared abstraction substitutes the desugared argument for
/// its variable in the desugared body, in one step.
pub proof fn law_desugar_beta(x: String, body: AST, arg: AST, env: Seq<(Seq<char>, SpecTerm)>)
    ensures
        spec_step(
            spec_desugar(
                AST::App(Box::new(AST::Abs { var: x, body: Box::new(body) }), Box::new(arg)),
                env,
            ),
        ) == Some(spec_subst(spec_desugar(body, env), x@, spec_desugar(arg, env))),
{
    let f = spec_desugar(AST::Abs { var: x, body: Box::new(body) }, env);
    assert(f == spec_lam(x@, spec_desugar(body, env)));
    assert(spec_whnf(f) == f);
}

/// A variable desugars to a normal term in which it occurs free, so that the
/// identity function desugars to one that returns its argument.
pub proof fn law_desugar_variable(x: String, arg: AST, env: Seq<(Seq<char>, SpecTerm)>)
    ensures
        free_in(x@, spec_desugar(AST::Var(x), env)),
        is_normal(spec_desugar(AST::Var(x), env)),
        spec_step(
            spec_desugar(
                AST::App(
                    Box::new(AST::Abs { var: x, body: Box::new(AST::Var(x)) }),
                    Box::new(arg),
                ),
                env,
            ),
        ) == Some(spec_desugar(arg, env)),
{
    law_desugar_beta(x, AST::Var(x), arg, env);
}

/// Numeric literals desugar to the numerals for their values, zero to the
/// numeral for 0, and a successor to a numeral one larger.
pub proof fn law_desugar_numbers(n: u64, e: AST, env: Seq<(Seq<char>, SpecTerm)>)
    ensures
        spec_decode_nat(spec_desugar(AST::Nat(n), env)) == Some(n as nat),
        spec_decode_nat(spec_desugar(AST::Zero, env)) == Some(0nat),
        spec_decode_nat(spec_desugar(e, env)) matches Some(k) ==> spec_decode_nat(
            spec_desugar(AST::Succ(Box::new(e)), env),
        ) == Some(k + 1),
{
    law_decode_numeral(n as nat);
}

} // verus!
