use vstd::prelude::*;

use crate::ast::{ite_of, rec_of};
use crate::term::{opt_view, spec_app, spec_lam, spec_subst, SpecTerm, Term};

verus! {

// ---------------------------------------------------------------------------
// The reduction relation
// ---------------------------------------------------------------------------

/// Head reduction by one contraction: an application whose function part
/// heads to an abstraction is contracted, and a conditional whose condition
/// heads to a boolean is resolved. Everything else is its own head form.
pub open spec fn spec_whnf(t: SpecTerm) -> SpecTerm
    decreases t,
{
    match t {
        SpecTerm::App(l, r) => match spec_whnf(*l) {
            SpecTerm::Abs { var, body } => spec_subst(*body, var, *r),
            other => SpecTerm::App(Box::new(other), r),
        },
        SpecTerm::Ite { cond, if_true, if_false } => match spec_whnf(*cond) {
            SpecTerm::True => *if_true,
            SpecTerm::False => *if_false,
            other => SpecTerm::Ite { cond: Box::new(other), if_true, if_false },
        },
        _ => t,
    }
}

/// One reduction step, or `None` where no rule applies. Defined by the shape
/// of the term; `law_step_tries_rules_in_order` shows that it is the first
/// rule of the documented list that applies.
pub open spec fn spec_step(t: SpecTerm) -> Option<SpecTerm>
    decreases t,
{
    match t {
        SpecTerm::App(f, a) => match spec_whnf(*f) {
            SpecTerm::Abs { var, body } => Some(spec_subst(*body, var, *a)),
            _ => match spec_step(*f) {
                Some(fs) => Some(SpecTerm::App(Box::new(fs), a)),
                None => match spec_step(*a) {
                    Some(a_s) => Some(SpecTerm::App(f, Box::new(a_s))),
                    None => None,
                },
            },
        },
        SpecTerm::Ite { cond, if_true, if_false } => match spec_whnf(*cond) {
            SpecTerm::True => Some(*if_true),
            SpecTerm::False => Some(*if_false),
            _ => match spec_step(*cond) {
                Some(c) => Some(SpecTerm::Ite { cond: Box::new(c), if_true, if_false }),
                None => match spec_step(*if_true) {
                    Some(x) => Some(SpecTerm::Ite { cond, if_true: Box::new(x), if_false }),
                    None => match spec_step(*if_false) {
                        Some(y) => Some(SpecTerm::Ite { cond, if_true, if_false: Box::new(y) }),
                        None => None,
                    },
                },
            },
        },
        SpecTerm::Rec { scrutinee, if_zero, if_succ } => match spec_whnf(*scrutinee) {
            SpecTerm::Zero => Some(*if_zero),
            SpecTerm::Succ(n) => Some(
                SpecTerm::App(
                    Box::new(SpecTerm::App(if_succ, n)),
                    Box::new(SpecTerm::Rec { scrutinee: n, if_zero, if_succ }),
                ),
            ),
            _ => match spec_step(*scrutinee) {
                Some(s) => Some(SpecTerm::Rec { scrutinee: Box::new(s), if_zero, if_succ }),
                None => None,
            },
        },
        SpecTerm::Succ(n) => match spec_step(*n) {
            Some(m) => Some(SpecTerm::Succ(Box::new(m))),
            None => None,
        },
        SpecTerm::Abs { var, body } => match spec_step(*body) {
            Some(b) => Some(SpecTerm::Abs { var, body: Box::new(b) }),
            None => None,
        },
        _ => None,
    }
}

/// No reduction rule applies.
pub open spec fn is_normal(t: SpecTerm) -> bool {
    spec_step(t) is None
}

pub open spec fn is_bool(t: SpecTerm) -> bool {
    t is True || t is False
}

// ---------------------------------------------------------------------------
// The individual rules
// ---------------------------------------------------------------------------

/// `AppAbs`: `f a` where `f` heads to `\x. b` becomes `b[x := a]`.
pub open spec fn spec_app_abs(t: SpecTerm) -> Option<SpecTerm> {
    match t {
        SpecTerm::App(f, a) => match spec_whnf(*f) {
            SpecTerm::Abs { var, body } => Some(spec_subst(*body, var, *a)),
            _ => None,
        },
        _ => None,
    }
}

/// `App1`: reduce the function part of an application.
pub open spec fn spec_app1(t: SpecTerm) -> Option<SpecTerm> {
    match t {
        SpecTerm::App(f, a) => match spec_step(*f) {
            Some(fs) => Some(SpecTerm::App(Box::new(fs), a)),
            None => None,
        },
        _ => None,
    }
}

/// `App2`: reduce the argument of an application whose function part is normal.
pub open spec fn spec_app2(t: SpecTerm) -> Option<SpecTerm> {
    match t {
        SpecTerm::App(f, a) => if spec_step(*f) is None {
            match spec_step(*a) {
                Some(a_s) => Some(SpecTerm::App(f, Box::new(a_s))),
                None => None,
            }
        } else {
            None
        },
        _ => None,
    }
}

/// `Abs`: reduce under a binder.
pub open spec fn spec_abs(t: SpecTerm) -> Option<SpecTerm> {
    match t {
        SpecTerm::Abs { var, body } => match spec_step(*body) {
            Some(b) => Some(SpecTerm::Abs { var, body: Box::new(b) }),
            None => None,
        },
        _ => None,
    }
}

/// `Ite1`: reduce the condition of a conditional.
pub open spec fn spec_ite1(t: SpecTerm) -> Option<SpecTerm> {
    match t {
        SpecTerm::Ite { cond, if_true, if_false } => match spec_step(*cond) {
            Some(c) => Some(SpecTerm::Ite { cond: Box::new(c), if_true, if_false }),
            None => None,
        },
        _ => None,
    }
}

/// `Ite2`: reduce the first branch when the condition is stuck on a non-boolean.
pub open spec fn spec_ite2(t: SpecTerm) -> Option<SpecTerm> {
    match t {
        SpecTerm::Ite { cond, if_true, if_false } => if is_normal(spec_whnf(*cond)) && !is_bool(
            spec_whnf(*cond),
        ) {
            match spec_step(*if_true) {
                Some(x) => Some(SpecTerm::Ite { cond, if_true: Box::new(x), if_false }),
                None => None,
            }
        } else {
            None
        },
        _ => None,
    }
}

/// `Ite3`: reduce the second branch when the condition is stuck on a
/// non-boolean and the first branch is normal.
pub open spec fn spec_ite3(t: SpecTerm) -> Option<SpecTerm> {
    match t {
        SpecTerm::Ite { cond, if_true, if_false } => if is_normal(spec_whnf(*cond)) && !is_bool(
            spec_whnf(*cond),
        ) && is_normal(*if_true) {
            match spec_step(*if_false) {
                Some(y) => Some(SpecTerm::Ite { cond, if_true, if_false: Box::new(y) }),
                None => None,
            }
        } else {
            None
        },
        _ => None,
    }
}

/// `IteTrue` / `IteFalse`: pick a branch once the condition heads to a boolean.
pub open spec fn spec_ite(t: SpecTerm) -> Option<SpecTerm> {
    match t {
        SpecTerm::Ite { cond, if_true, if_false } => match spec_whnf(*cond) {
            SpecTerm::True => Some(*if_true),
            SpecTerm::False => Some(*if_false),
            _ => None,
        },
        _ => None,
    }
}

/// `Succ1`: reduce under a successor.
pub open spec fn spec_succ1(t: SpecTerm) -> Option<SpecTerm> {
    match t {
        SpecTerm::Succ(n) => match spec_step(*n) {
            Some(m) => Some(SpecTerm::Succ(Box::new(m))),
            None => None,
        },
        _ => None,
    }
}

/// `Rec1`: reduce the scrutinee of a `rec`.
pub open spec fn spec_rec1(t: SpecTerm) -> Option<SpecTerm> {
    match t {
        SpecTerm::Rec { scrutinee, if_zero, if_succ } => match spec_step(*scrutinee) {
            Some(s) => Some(SpecTerm::Rec { scrutinee: Box::new(s), if_zero, if_succ }),
            None => None,
        },
        _ => None,
    }
}

/// The unfolding of `rec` on a successor `Succ n`.
pub open spec fn rec_unfold(n: SpecTerm, if_zero: SpecTerm, if_succ: SpecTerm) -> SpecTerm {
    SpecTerm::App(
        Box::new(SpecTerm::App(Box::new(if_succ), Box::new(n))),
        Box::new(
            SpecTerm::Rec {
                scrutinee: Box::new(n),
                if_zero: Box::new(if_zero),
                if_succ: Box::new(if_succ),
            },
        ),
    )
}

/// `Rec2`: `rec` on a literal zero.
pub open spec fn spec_rec2(t: SpecTerm) -> Option<SpecTerm> {
    match t {
        SpecTerm::Rec { scrutinee, if_zero, if_succ } => match *scrutinee {
            SpecTerm::Zero => Some(*if_zero),
            _ => None,
        },
        _ => None,
    }
}

/// `Rec3`: `rec` on a literal successor.
pub open spec fn spec_rec3(t: SpecTerm) -> Option<SpecTerm> {
    match t {
        SpecTerm::Rec { scrutinee, if_zero, if_succ } => match *scrutinee {
            SpecTerm::Succ(n) => Some(rec_unfold(*n, *if_zero, *if_succ)),
            _ => None,
        },
        _ => None,
    }
}

/// `Rec`: unfold when the scrutinee heads to zero or a successor, else
/// reduce the scrutinee.
pub open spec fn spec_rec(t: SpecTerm) -> Option<SpecTerm> {
    match t {
        SpecTerm::Rec { scrutinee, if_zero, if_succ } => match spec_whnf(*scrutinee) {
            SpecTerm::Zero => Some(*if_zero),
            SpecTerm::Succ(n) => Some(rec_unfold(*n, *if_zero, *if_succ)),
            _ => match spec_step(*scrutinee) {
                Some(s) => Some(SpecTerm::Rec { scrutinee: Box::new(s), if_zero, if_succ }),
                None => None,
            },
        },
        _ => None,
    }
}

/// The rules tried in order, the first that applies giving the step.
pub open spec fn first_applicable_rule(t: SpecTerm) -> Option<SpecTerm> {
    if spec_app_abs(t) is Some {
        spec_app_abs(t)
    } else if spec_ite(t) is Some {
        spec_ite(t)
    } else if spec_rec(t) is Some {
        spec_rec(t)
    } else if spec_app1(t) is Some {
        spec_app1(t)
    } else if spec_ite1(t) is Some {
        spec_ite1(t)
    } else if spec_rec1(t) is Some {
        spec_rec1(t)
    } else if spec_succ1(t) is Some {
        spec_succ1(t)
    } else if spec_app2(t) is Some {
        spec_app2(t)
    } else if spec_ite2(t) is Some {
        spec_ite2(t)
    } else if spec_rec2(t) is Some {
        spec_rec2(t)
    } else if spec_ite3(t) is Some {
        spec_ite3(t)
    } else if spec_rec3(t) is Some {
        spec_rec3(t)
    } else {
        spec_abs(t)
    }
}

/// A normal term is its own head form.
pub proof fn law_whnf_of_normal(t: SpecTerm)
    requires
        is_normal(t),
    ensures
        spec_whnf(t) == t,
    decreases t,
{
    match t {
        SpecTerm::App(l, r) => {
            law_whnf_of_normal(*l);
        },
        SpecTerm::Ite { cond, if_true, if_false } => {
            law_whnf_of_normal(*cond);
        },
        _ => {},
    }
}

/// A step is the first rule, in the documented order (`AppAbs`, `Ite`, `Rec`,
/// `App1`, `Ite1`, `Rec1`, `Succ1`, `App2`, `Ite2`, `Rec2`, `Ite3`, `Rec3`,
/// `Abs`), that applies; where none applies there is no step.
pub proof fn law_step_tries_rules_in_order(t: SpecTerm)
    ensures
        spec_step(t) == first_applicable_rule(t),
{
    match t {
        SpecTerm::Ite { cond, if_true, if_false } => {
            if spec_step(*cond) is None {
                law_whnf_of_normal(*cond);
            }
        },
        SpecTerm::Rec { scrutinee, if_zero, if_succ } => {
            match *scrutinee {
                SpecTerm::Zero => {},
                SpecTerm::Succ(n) => {},
                _ => {},
            }
        },
        _ => {},
    }
}


// ---------------------------------------------------------------------------
// Reduction sequences and normal forms
// ---------------------------------------------------------------------------

/// The term reached after at most `k` steps (reduction stops at a normal term).
pub open spec fn run(t: SpecTerm, k: nat) -> SpecTerm
    decreases k,
{
    if k == 0 {
        t
    } else {
        match spec_step(t) {
            Some(u) => run(u, (k - 1) as nat),
            None => t,
        }
    }
}

/// Reduction from `t` reaches a normal term.
pub open spec fn normalizes(t: SpecTerm) -> bool {
    exists|k: nat| is_normal(#[trigger] run(t, k))
}

/// The normal term that reduction from `t` reaches (meaningful where
/// `normalizes(t)`).
pub open spec fn normal_form(t: SpecTerm) -> SpecTerm {
    run(t, choose|k: nat| is_normal(#[trigger] run(t, k)))
}

/// Reduction does not move past a normal term.
pub proof fn lemma_run_normal(t: SpecTerm, k: nat)
    requires
        is_normal(t),
    ensures
        run(t, k) == t,
    decreases k,
{
}

/// Running `a + b` steps is running `a` steps, then `b` more.
pub proof fn lemma_run_add(t: SpecTerm, a: nat, b: nat)
    ensures
        run(t, a + b) == run(run(t, a), b),
    decreases a,
{
    if a > 0 {
        match spec_step(t) {
            Some(u) => {
                lemma_run_add(u, (a - 1) as nat, b);
                assert((a + b - 1) as nat == (a - 1) as nat + b);
            },
            None => {
                lemma_run_normal(t, b);
                lemma_run_normal(t, a + b);
            },
        }
    }
}

/// Any normal term that reduction from `t` reaches is the normal form of `t`.
pub proof fn lemma_normal_form_unique(t: SpecTerm, k: nat)
    requires
        is_normal(run(t, k)),
    ensures
        normalizes(t),
        normal_form(t) == run(t, k),
{
    let j = choose|j: nat| is_normal(#[trigger] run(t, j));
    if j <= k {
        lemma_run_add(t, j, (k - j) as nat);
        lemma_run_normal(run(t, j), (k - j) as nat);
    } else {
        lemma_run_add(t, k, (j - k) as nat);
        lemma_run_normal(run(t, k), (j - k) as nat);
    }
}

/// A normal term is its own normal form.
pub proof fn lemma_normal_form_of_normal(t: SpecTerm)
    requires
        is_normal(t),
    ensures
        normalizes(t),
        normal_form(t) == t,
{
    lemma_normal_form_unique(t, 0);
}

/// The normal form of a normalizing term is normal, and normalizing it again
/// changes nothing.
pub proof fn law_normal_form_idempotent(t: SpecTerm)
    requires
        normalizes(t),
    ensures
        is_normal(normal_form(t)),
        normalizes(normal_form(t)),
        normal_form(normal_form(t)) == normal_form(t),
{
    lemma_normal_form_of_normal(normal_form(t));
}

/// A reduction step does not change the normal form: a normalizing term is
/// beta-equivalent to its reduct.
pub proof fn law_step_preserves_normal_form(t: SpecTerm)
    requires
        normalizes(t),
        spec_step(t) is Some,
    ensures
        normalizes(spec_step(t).unwrap()),
        normal_form(spec_step(t).unwrap()) == normal_form(t),
{
    let k = choose|k: nat| is_normal(#[trigger] run(t, k));
    let u = spec_step(t).unwrap();
    assert(k > 0);
    assert(run(t, k) == run(u, (k - 1) as nat));
    lemma_normal_form_unique(u, (k - 1) as nat);
}

/// A term whose reduct normalizes normalizes too, to the same normal form.
pub proof fn law_normal_form_of_reduct(t: SpecTerm)
    requires
        spec_step(t) is Some,
        normalizes(spec_step(t).unwrap()),
    ensures
        normalizes(t),
        normal_form(t) == normal_form(spec_step(t).unwrap()),
{
    let u = spec_step(t).unwrap();
    let k = choose|k: nat| is_normal(#[trigger] run(u, k));
    assert(run(t, k + 1) == run(u, k));
    lemma_normal_form_unique(u, k);
    lemma_normal_form_unique(t, k + 1);
}

/// Beta-equivalence of normalizing terms (what `beta_eq` decides) is an
/// equivalence relation.
pub proof fn law_beta_equivalence(a: SpecTerm, b: SpecTerm, c: SpecTerm)
    requires
        normalizes(a),
        normalizes(b),
        normalizes(c),
    ensures
        normal_form(a) == normal_form(a),
        normal_form(a) == normal_form(b) ==> normal_form(b) == normal_form(a),
        normal_form(a) == normal_form(b) && normal_form(b) == normal_form(c) ==> normal_form(a)
            == normal_form(c),
{
}

/// A head form that is neither an application nor a conditional is reached
/// by at most one step: the term is its own head form or steps to it.
pub proof fn law_head_form_reached_in_one_step(t: SpecTerm)
    requires
        !(spec_whnf(t) is App),
        !(spec_whnf(t) is Ite),
    ensures
        t == spec_whnf(t) || spec_step(t) == Some(spec_whnf(t)),
{
}

/// Reduction of an application proceeds inside its function part for as long
/// as that part takes steps without heading to an abstraction.
pub proof fn law_reduce_function_part(f: SpecTerm, a: SpecTerm, k: nat)
    requires
        forall|j: nat| j < k ==> !(spec_whnf(#[trigger] run(f, j)) is Abs) && !is_normal(run(f, j)),
    ensures
        run(spec_app(f, a), k) == spec_app(run(f, k), a),
    decreases k,
{
    if k > 0 {
        assert(!(spec_whnf(run(f, 0)) is Abs) && !is_normal(run(f, 0)));
        let f2 = spec_step(f).unwrap();
        assert forall|j: nat| j < (k - 1) as nat implies !(spec_whnf(#[trigger] run(f2, j)) is Abs)
            && !is_normal(run(f2, j)) by {
            assert(!(spec_whnf(run(f, j + 1)) is Abs) && !is_normal(run(f, j + 1)));
            assert(run(f, j + 1) == run(f2, j));
        }
        law_reduce_function_part(f2, a, (k - 1) as nat);
        assert(run(f, k) == run(f2, (k - 1) as nat));
    }
}

/// Reduction of a conditional proceeds inside its condition for as long as
/// the condition takes steps without heading to a boolean.
pub proof fn law_reduce_condition(c: SpecTerm, t: SpecTerm, f: SpecTerm, k: nat)
    requires
        forall|j: nat| j < k ==> !is_bool(spec_whnf(#[trigger] run(c, j))) && !is_normal(run(c, j)),
    ensures
        run(ite_of(c, t, f), k) == ite_of(run(c, k), t, f),
    decreases k,
{
    if k > 0 {
        assert(!is_bool(spec_whnf(run(c, 0))) && !is_normal(run(c, 0)));
        let c2 = spec_step(c).unwrap();
        assert forall|j: nat| j < (k - 1) as nat implies !is_bool(spec_whnf(#[trigger] run(c2, j)))
            && !is_normal(run(c2, j)) by {
            assert(!is_bool(spec_whnf(run(c, j + 1))) && !is_normal(run(c, j + 1)));
            assert(run(c, j + 1) == run(c2, j));
        }
        law_reduce_condition(c2, t, f, (k - 1) as nat);
        assert(run(c, k) == run(c2, (k - 1) as nat));
    }
}

/// Reduction of a `rec` proceeds inside its scrutinee for as long as the
/// scrutinee takes steps without heading to zero or a successor.
pub proof fn law_reduce_scrutinee(s: SpecTerm, z: SpecTerm, p: SpecTerm, k: nat)
    requires
        forall|j: nat|
            j < k ==> !(spec_whnf(#[trigger] run(s, j)) is Zero) && !(spec_whnf(run(s, j)) is Succ)
                && !is_normal(run(s, j)),
    ensures
        run(rec_of(s, z, p), k) == rec_of(run(s, k), z, p),
    decreases k,
{
    if k > 0 {
        assert(!(spec_whnf(run(s, 0)) is Zero) && !(spec_whnf(run(s, 0)) is Succ) && !is_normal(
            run(s, 0),
        ));
        let s2 = spec_step(s).unwrap();
        assert forall|j: nat| j < (k - 1) as nat implies !(spec_whnf(#[trigger] run(s2, j)) is Zero)
            && !(spec_whnf(run(s2, j)) is Succ) && !is_normal(run(s2, j)) by {
            assert(!(spec_whnf(run(s, j + 1)) is Zero) && !(spec_whnf(run(s, j + 1)) is Succ)
                && !is_normal(run(s, j + 1)));
            assert(run(s, j + 1) == run(s2, j));
        }
        law_reduce_scrutinee(s2, z, p, (k - 1) as nat);
        assert(run(s, k) == run(s2, (k - 1) as nat));
    }
}

/// How one step acts on an application: a function part that heads to
/// `\x. b` is contracted to `b[x := a]`; otherwise the function part is
/// reduced if it can be, else the argument.
pub proof fn law_step_application(f: SpecTerm, a: SpecTerm)
    ensures
        spec_whnf(f) is Abs ==> spec_step(spec_app(f, a)) == Some(
            spec_subst(*spec_whnf(f)->body, spec_whnf(f)->var, a),
        ),
        !(spec_whnf(f) is Abs) && spec_step(f) is Some ==> spec_step(spec_app(f, a)) == Some(
            spec_app(spec_step(f).unwrap(), a),
        ),
        !(spec_whnf(f) is Abs) && spec_step(f) is None && spec_step(a) is Some ==> spec_step(
            spec_app(f, a),
        ) == Some(spec_app(f, spec_step(a).unwrap())),
        !(spec_whnf(f) is Abs) && spec_step(f) is None && spec_step(a) is None ==> spec_step(
            spec_app(f, a),
        ) is None,
{
}

/// How one step acts on a conditional: a condition that heads to `true` or
/// `false` selects that branch; otherwise the condition is reduced if it can
/// be, else the first branch, else the second.
pub proof fn law_step_conditional(c: SpecTerm, t: SpecTerm, f: SpecTerm)
    ensures
        spec_whnf(c) is True ==> spec_step(ite_of(c, t, f)) == Some(t),
        spec_whnf(c) is False ==> spec_step(ite_of(c, t, f)) == Some(f),
        !is_bool(spec_whnf(c)) && spec_step(c) is Some ==> spec_step(ite_of(c, t, f)) == Some(
            ite_of(spec_step(c).unwrap(), t, f),
        ),
        !is_bool(spec_whnf(c)) && spec_step(c) is None && spec_step(t) is Some ==> spec_step(
            ite_of(c, t, f),
        ) == Some(ite_of(c, spec_step(t).unwrap(), f)),
        !is_bool(spec_whnf(c)) && spec_step(c) is None && spec_step(t) is None && spec_step(f) is Some
            ==> spec_step(ite_of(c, t, f)) == Some(ite_of(c, t, spec_step(f).unwrap())),
        !is_bool(spec_whnf(c)) && spec_step(c) is None && spec_step(t) is None && spec_step(f) is None
            ==> spec_step(ite_of(c, t, f)) is None,
{
}

/// How one step acts on `rec s z p`: a scrutinee that heads to zero gives
/// `z`; one that heads to `succ n` gives `p n (rec n z p)`; otherwise the
/// scrutinee is reduced if it can be.
pub proof fn law_step_recursion(s: SpecTerm, z: SpecTerm, p: SpecTerm)
    ensures
        spec_whnf(s) is Zero ==> spec_step(rec_of(s, z, p)) == Some(z),
        spec_whnf(s) is Succ ==> spec_step(rec_of(s, z, p)) == Some(
            spec_app(spec_app(p, *spec_whnf(s)->Succ_0), rec_of(*spec_whnf(s)->Succ_0, z, p)),
        ),
        !(spec_whnf(s) is Zero) && !(spec_whnf(s) is Succ) ==> spec_step(rec_of(s, z, p)) == match spec_step(s) {
            Some(s2) => Some(rec_of(s2, z, p)),
            None => None::<SpecTerm>,
        },
{
}

/// A step reduces under successors and binders, and never applies to
/// variables, booleans or zero.
pub proof fn law_step_other_forms(t: SpecTerm, x: Seq<char>)
    ensures
        spec_step(SpecTerm::Succ(Box::new(t))) == match spec_step(t) {
            Some(u) => Some(SpecTerm::Succ(Box::new(u))),
            None => None::<SpecTerm>,
        },
        spec_step(spec_lam(x, t)) == match spec_step(t) {
            Some(u) => Some(spec_lam(x, u)),
            None => None::<SpecTerm>,
        },
        spec_step(SpecTerm::Var(x)) is None,
        spec_step(SpecTerm::True) is None,
        spec_step(SpecTerm::False) is None,
        spec_step(SpecTerm::Zero) is None,
{
}

// ---------------------------------------------------------------------------
// Executable reduction
// ---------------------------------------------------------------------------

impl Term {
    /// One head contraction (see `spec_whnf`).
    pub fn whnf(t: &Term) -> (res: Term)
        ensures
            res@ == spec_whnf(t@),
        decreases t,
    {
        match t {
            Term::App(l, r) => {
                let l_whnf = Term::whnf(l);
                match l_whnf {
                    Term::Abs { var, body } => body.subst(&var, r),
                    other => Term::App(Box::new(other), Box::new((**r).clone())),
                }
            },
            Term::Var(v) => Term::Var(v.clone()),
            Term::Abs { var, body } => Term::Abs { var: var.clone(), body: Box::new((**body).clone()) },
            Term::Ite { cond, if_true, if_false } => {
                let c_whnf = Term::whnf(cond);
                match c_whnf {
                    Term::True => (**if_true).clone(),
                    Term::False => (**if_false).clone(),
                    other => Term::Ite {
                        cond: Box::new(other),
                        if_true: Box::new((**if_true).clone()),
                        if_false: Box::new((**if_false).clone()),
                    },
                }
            },
            Term::True => Term::True,
            Term::False => Term::False,
            Term::Zero => Term::Zero,
            Term::Succ(t1) => Term::Succ(Box::new((**t1).clone())),
            Term::Rec { scrutinee, if_zero, if_succ } => Term::Rec {
                scrutinee: Box::new((**scrutinee).clone()),
                if_zero: Box::new((**if_zero).clone()),
                if_succ: Box::new((**if_succ).clone()),
            },
        }
    }

    /// Applies the `AppAbs` rule returning None if it doesn't apply.
    pub fn app_abs(&self) -> (res: Option<Term>)
        ensures
            opt_view(res) == spec_app_abs(self@),
    {
        match self {
            Term::App(f, a) => {
                let f_whnf = Term::whnf(f);
                match f_whnf {
                    Term::Abs { var, body } => Some(body.subst(&var, a)),
                    _ => None,
                }
            },
            _ => None,
        }
    }

    /// Applies the `App1` rule returning None if it doesn't apply.
    pub fn app1(&self) -> (res: Option<Term>)
        ensures
            opt_view(res) == spec_app1(self@),
    {
        match self {
            Term::App(f, a) => {
                match f.step() {
                    Some(f_step) => Some(Term::App(Box::new(f_step), Box::new((**a).clone()))),
                    None => None,
                }
            },
            _ => None,
        }
    }

    /// Applies the `App2` rule returning None if it doesn't apply.
    pub fn app2(&self) -> (res: Option<Term>)
        ensures
            opt_view(res) == spec_app2(self@),
    {
        match self {
            Term::App(f, a) => {
                if f.step().is_none() {
                    match a.step() {
                        Some(a_step) => Some(Term::App(Box::new((**f).clone()), Box::new(a_step))),
                        None => None,
                    }
                } else {
                    None
                }
            },
            _ => None,
        }
    }

    /// Applies the `Abs` rule returning None if it doesn't apply.
    pub fn abs(&self) -> (res: Option<Term>)
        ensures
            opt_view(res) == spec_abs(self@),
    {
        match self {
            Term::Abs { var, body } => match body.step() {
                Some(body_step) => Some(Term::Abs { var: var.clone(), body: Box::new(body_step) }),
                None => None,
            },
            _ => None,
        }
    }

    /// Applies the `Ite1` rule returning None if it doesn't apply.
    pub fn ite1(&self) -> (res: Option<Term>)
        ensures
            opt_view(res) == spec_ite1(self@),
    {
        match self {
            Term::Ite { cond, if_true, if_false } => match cond.step() {
                Some(c_step) => Some(
                    Term::Ite {
                        cond: Box::new(c_step),
                        if_true: Box::new((**if_true).clone()),
                        if_false: Box::new((**if_false).clone()),
                    },
                ),
                None => None,
            },
            _ => None,
        }
    }

    /// Applies the `Ite2` rule returning None if it doesn't apply.
    pub fn ite2(&self) -> (res: Option<Term>)
        ensures
            opt_view(res) == spec_ite2(self@),
    {
        match self {
            Term::Ite { cond, if_true, if_false } => {
                let c_whnf = Term::whnf(cond);
                if c_whnf.step().is_none() && !Term::is_boolean(&c_whnf) {
                    match if_true.step() {
                        Some(t_step) => Some(
                            Term::Ite {
                                cond: Box::new((**cond).clone()),
                                if_true: Box::new(t_step),
                                if_false: Box::new((**if_false).clone()),
                            },
                        ),
                        None => None,
                    }
                } else {
                    None
                }
            },
            _ => None,
        }
    }

    /// Applies the `Ite3` rule returning None if it doesn't apply.
    pub fn ite3(&self) -> (res: Option<Term>)
        ensures
            opt_view(res) == spec_ite3(self@),
    {
        match self {
            Term::Ite { cond, if_true, if_false } => {
                let c_whnf = Term::whnf(cond);
                if c_whnf.step().is_none() && !Term::is_boolean(&c_whnf)
                    && if_true.step().is_none() {
                    match if_false.step() {
                        Some(f_step) => Some(
                            Term::Ite {
                                cond: Box::new((**cond).clone()),
                                if_true: Box::new((**if_true).clone()),
                                if_false: Box::new(f_step),
                            },
                        ),
                        None => None,
                    }
                } else {
                    None
                }
            },
            _ => None,
        }
    }

    /// Applies `IteTrue` or `IteFalse` returning None if neither applies.
    pub fn ite(&self) -> (res: Option<Term>)
        ensures
            opt_view(res) == spec_ite(self@),
    {
        match self {
            Term::Ite { cond, if_true, if_false } => {
                match Term::whnf(cond) {
                    Term::True => Some((**if_true).clone()),
                    Term::False => Some((**if_false).clone()),
                    _ => None,
                }
            },
            _ => None,
        }
    }

    /// Applies the `Succ1` rule returning None if it doesn't apply.
    pub fn succ1(&self) -> (res: Option<Term>)
        ensures
            opt_view(res) == spec_succ1(self@),
    {
        match self {
            Term::Succ(t) => match t.step() {
                Some(s) => Some(Term::Succ(Box::new(s))),
                None => None,
            },
            _ => None,
        }
    }

    /// Applies the `Rec1` rule returning None if it doesn't apply.
    pub fn rec1(&self) -> (res: Option<Term>)
        ensures
            opt_view(res) == spec_rec1(self@),
    {
        if let Term::Rec { scrutinee, if_zero, if_succ } = self {
            match scrutinee.step() {
                Some(scrutinee_step) => Some(
                    Term::Rec {
                        scrutinee: Box::new(scrutinee_step),
                        if_zero: Box::new((**if_zero).clone()),
                        if_succ: Box::new((**if_succ).clone()),
                    },
                ),
                None => None,
            }
        } else {
            None
        }
    }

    /// Applies the `Rec2` rule returning None if it doesn't apply.
    pub fn rec2(&self) -> (res: Option<Term>)
        ensures
            opt_view(res) == spec_rec2(self@),
    {
        match self {
            Term::Rec { scrutinee, if_zero, if_succ } => match &**scrutinee {
                Term::Zero => Some((**if_zero).clone()),
                _ => {
                    assert(!(scrutinee@ is Zero));
                    None
                },
            },
            _ => None,
        }
    }

    /// Applies the `Rec3` rule returning None if it doesn't apply.
    pub fn rec3(&self) -> (res: Option<Term>)
        ensures
            opt_view(res) == spec_rec3(self@),
    {
        match self {
            Term::Rec { scrutinee, if_zero, if_succ } => match &**scrutinee {
                Term::Succ(n) => Some(Term::rec_unfolded(n, if_zero, if_succ)),
                _ => {
                    assert(!(scrutinee@ is Succ));
                    None
                },
            },
            _ => None,
        }
    }

    /// `if_succ n (rec n if_zero if_succ)`.
    fn rec_unfolded(n: &Term, if_zero: &Term, if_succ: &Term) -> (res: Term)
        ensures
            res@ == rec_unfold(n@, if_zero@, if_succ@),
    {
        let head = Term::App(Box::new(if_succ.clone()), Box::new(n.clone()));
        let again = Term::Rec {
            scrutinee: Box::new(n.clone()),
            if_zero: Box::new(if_zero.clone()),
            if_succ: Box::new(if_succ.clone()),
        };
        assert(head@ == SpecTerm::App(Box::new(if_succ@), Box::new(n@)));
        assert(again@ == SpecTerm::Rec {
            scrutinee: Box::new(n@),
            if_zero: Box::new(if_zero@),
            if_succ: Box::new(if_succ@),
        });
        Term::App(Box::new(head), Box::new(again))
    }

    /// Applies the `Rec` rule returning None if it doesn't apply.
    pub fn rec(&self) -> (res: Option<Term>)
        ensures
            opt_view(res) == spec_rec(self@),
    {
        if let Term::Rec { scrutinee, if_zero, if_succ } = self {
            match Term::whnf(scrutinee) {
                Term::Zero => Some((**if_zero).clone()),
                Term::Succ(n) => Some(Term::rec_unfolded(&n, if_zero, if_succ)),
                _ => match scrutinee.step() {
                    Some(step) => Some(
                        Term::Rec {
                            scrutinee: Box::new(step),
                            if_zero: Box::new((**if_zero).clone()),
                            if_succ: Box::new((**if_succ).clone()),
                        },
                    ),
                    None => None,
                },
            }
        } else {
            None
        }
    }

    fn is_boolean(t: &Term) -> (res: bool)
        ensures
            res == is_bool(t@),
    {
        match t {
            Term::True => true,
            Term::False => true,
            _ => false,
        }
    }

    /// Does a beta-reduction step returning None if no reduction rule applies.
    /// The rules are tried in the order `AppAbs`, `Ite`, `Rec`, `App1`, `Ite1`,
    /// `Rec1`, `Succ1`, `App2`, `Ite2`, `Rec2`, `Ite3`, `Rec3`, `Abs`
    /// (see `law_step_tries_rules_in_order`).
    pub fn step(&self) -> (res: Option<Term>)
        ensures
            opt_view(res) == spec_step(self@),
        decreases self,
    {
        match self {
            Term::App(f, a) => {
                match Term::whnf(f) {
                    Term::Abs { var, body } => Some(body.subst(&var, a)),
                    _ => match f.step() {
                        Some(f_step) => Some(Term::App(Box::new(f_step), Box::new((**a).clone()))),
                        None => match a.step() {
                            Some(a_step) => Some(
                                Term::App(Box::new((**f).clone()), Box::new(a_step)),
                            ),
                            None => None,
                        },
                    },
                }
            },
            Term::Ite { cond, if_true, if_false } => {
                match Term::whnf(cond) {
                    Term::True => Some((**if_true).clone()),
                    Term::False => Some((**if_false).clone()),
                    _ => match cond.step() {
                        Some(c_step) => Some(
                            Term::Ite {
                                cond: Box::new(c_step),
                                if_true: Box::new((**if_true).clone()),
                                if_false: Box::new((**if_false).clone()),
                            },
                        ),
                        None => match if_true.step() {
                            Some(t_step) => Some(
                                Term::Ite {
                                    cond: Box::new((**cond).clone()),
                                    if_true: Box::new(t_step),
                                    if_false: Box::new((**if_false).clone()),
                                },
                            ),
                            None => match if_false.step() {
                                Some(f_step) => Some(
                                    Term::Ite {
                                        cond: Box::new((**cond).clone()),
                                        if_true: Box::new((**if_true).clone()),
                                        if_false: Box::new(f_step),
                                    },
                                ),
                                None => None,
                            },
                        },
                    },
                }
            },
            Term::Rec { scrutinee, if_zero, if_succ } => {
                match Term::whnf(scrutinee) {
                    Term::Zero => Some((**if_zero).clone()),
                    Term::Succ(n) => Some(Term::rec_unfolded(&n, if_zero, if_succ)),
                    _ => match scrutinee.step() {
                        Some(s_step) => Some(
                            Term::Rec {
                                scrutinee: Box::new(s_step),
                                if_zero: Box::new((**if_zero).clone()),
                                if_succ: Box::new((**if_succ).clone()),
                            },
                        ),
                        None => None,
                    },
                }
            },
            Term::Succ(n) => match n.step() {
                Some(n_step) => Some(Term::Succ(Box::new(n_step))),
                None => None,
            },
            Term::Abs { var, body } => match body.step() {
                Some(body_step) => Some(Term::Abs { var: var.clone(), body: Box::new(body_step) }),
                None => None,
            },
            _ => None,
        }
    }
    /// Does any number of beta-reduction steps.
    /// Returns the final term for which no reduction could be made.
    pub fn multistep(self) -> (res: Term)
        requires
            normalizes(self@),
        ensures
            res@ == normal_form(self@),
            is_normal(res@),
    {
        let ghost start = self@;
        let ghost k = choose|k: nat| is_normal(#[trigger] run(start, k));
        let ghost mut rem: nat = k;
        let mut t = self;
        loop
            invariant
                is_normal(run(t@, rem)),
                run(t@, rem) == run(start, k),
            ensures
                is_normal(t@),
                t@ == run(start, k),
            decreases rem,
        {
            match t.step() {
                Some(next) => {
                    assert(rem > 0);
                    assert(run(t@, rem) == run(next@, (rem - 1) as nat));
                    t = next;
                    proof {
                        rem = (rem - 1) as nat;
                    }
                },
                None => {
                    proof {
                        lemma_run_normal(t@, rem);
                    }
                    break ;
                },
            }
        }
        t
    }

    /// Does beta-reduction steps until no rule applies or `limit` steps have
    /// been taken. Returns the term reached and whether all `limit` steps were
    /// taken (so that the result may not be normal).
    pub fn multistep_bounded(self, limit: u64) -> (res: (Term, bool))
        ensures
            res.0@ == run(self@, limit as nat),
            res.1 == (forall|j: nat| j < limit ==> !is_normal(#[trigger] run(self@, j))),
    {
        let ghost start = self@;
        let mut t = self;
        let mut steps: u64 = 0;
        while steps < limit
            invariant
                start == self@,
                steps <= limit,
                t@ == run(start, steps as nat),
                forall|j: nat| j < steps ==> !is_normal(#[trigger] run(start, j)),
            decreases limit - steps,
        {
            match t.step() {
                Some(next) => {
                    proof {
                        lemma_run_add(start, steps as nat, 1);
                        assert(run(next@, 0) == next@);
                        assert(run(t@, 1) == next@);
                    }
                    t = next;
                    steps = steps + 1;
                },
                None => {
                    proof {
                        lemma_run_add(start, steps as nat, (limit - steps) as nat);
                        lemma_run_normal(t@, (limit - steps) as nat);
                        assert(steps as nat + (limit - steps) as nat == limit as nat);
                        assert(run(start, limit as nat) == t@);
                        assert(is_normal(run(start, steps as nat)));
                        assert(!(forall|j: nat| j < limit ==> !is_normal(#[trigger] run(start, j))));
                    }
                    return (t, false);
                },
            }
        }
        (t, true)
    }

    /// Compares if two normalizing terms are beta-equivalent.
    pub fn beta_eq(&self, other: &Self) -> (res: bool)
        requires
            normalizes(self@),
            normalizes(other@),
        ensures
            res == (normal_form(self@) == normal_form(other@)),
    {
        let n1 = self.clone().multistep();
        let n2 = other.clone().multistep();
        n1 == n2
    }
}

} // verus!
