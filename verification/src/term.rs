use vstd::prelude::*;

verus! {

/// Terms of the core calculus.
#[derive(Debug)]
pub enum Term {
    Var(String),
    Abs { var: String, body: Box<Term> },
    App(Box<Term>, Box<Term>),
    True,
    False,
    Ite { cond: Box<Term>, if_true: Box<Term>, if_false: Box<Term> },
    Zero,
    Succ(Box<Term>),
    Rec { scrutinee: Box<Term>, if_zero: Box<Term>, if_succ: Box<Term> },
}

/// The mathematical model of a term: the same tree, with each name
/// taken as its sequence of characters.
pub enum SpecTerm {
    Var(Seq<char>),
    Abs { var: Seq<char>, body: Box<SpecTerm> },
    App(Box<SpecTerm>, Box<SpecTerm>),
    True,
    False,
    Ite { cond: Box<SpecTerm>, if_true: Box<SpecTerm>, if_false: Box<SpecTerm> },
    Zero,
    Succ(Box<SpecTerm>),
    Rec { scrutinee: Box<SpecTerm>, if_zero: Box<SpecTerm>, if_succ: Box<SpecTerm> },
}

pub open spec fn term_view(t: Term) -> SpecTerm
    decreases t,
{
    match t {
        Term::Var(x) => SpecTerm::Var(x@),
        Term::Abs { var, body } => SpecTerm::Abs { var: var@, body: Box::new(term_view(*body)) },
        Term::App(l, r) => SpecTerm::App(Box::new(term_view(*l)), Box::new(term_view(*r))),
        Term::True => SpecTerm::True,
        Term::False => SpecTerm::False,
        Term::Ite { cond, if_true, if_false } => SpecTerm::Ite {
            cond: Box::new(term_view(*cond)),
            if_true: Box::new(term_view(*if_true)),
            if_false: Box::new(term_view(*if_false)),
        },
        Term::Zero => SpecTerm::Zero,
        Term::Succ(n) => SpecTerm::Succ(Box::new(term_view(*n))),
        Term::Rec { scrutinee, if_zero, if_succ } => SpecTerm::Rec {
            scrutinee: Box::new(term_view(*scrutinee)),
            if_zero: Box::new(term_view(*if_zero)),
            if_succ: Box::new(term_view(*if_succ)),
        },
    }
}

impl View for Term {
    type V = SpecTerm;

    open spec fn view(&self) -> SpecTerm {
        term_view(*self)
    }
}

/// The model of an optional term.
pub open spec fn opt_view(o: Option<Term>) -> Option<SpecTerm> {
    match o {
        Some(t) => Some(t@),
        None => None,
    }
}

/// Capture-naive substitution of `v` for the free occurrences of `x` in `t`:
/// a binder of the same name shadows `x` in its body.
pub open spec fn spec_subst(t: SpecTerm, x: Seq<char>, v: SpecTerm) -> SpecTerm
    decreases t,
{
    match t {
        SpecTerm::Var(y) => if y == x { v } else { t },
        SpecTerm::Abs { var, body } => if var == x {
            t
        } else {
            SpecTerm::Abs { var, body: Box::new(spec_subst(*body, x, v)) }
        },
        SpecTerm::App(l, r) => SpecTerm::App(
            Box::new(spec_subst(*l, x, v)),
            Box::new(spec_subst(*r, x, v)),
        ),
        SpecTerm::Ite { cond, if_true, if_false } => SpecTerm::Ite {
            cond: Box::new(spec_subst(*cond, x, v)),
            if_true: Box::new(spec_subst(*if_true, x, v)),
            if_false: Box::new(spec_subst(*if_false, x, v)),
        },
        SpecTerm::Succ(n) => SpecTerm::Succ(Box::new(spec_subst(*n, x, v))),
        SpecTerm::Rec { scrutinee, if_zero, if_succ } => SpecTerm::Rec {
            scrutinee: Box::new(spec_subst(*scrutinee, x, v)),
            if_zero: Box::new(spec_subst(*if_zero, x, v)),
            if_succ: Box::new(spec_subst(*if_succ, x, v)),
        },
        _ => t,
    }
}

/// The numeral `Succ^n(Zero)`.
pub open spec fn spec_nat(n: nat) -> SpecTerm
    decreases n,
{
    if n == 0 {
        SpecTerm::Zero
    } else {
        SpecTerm::Succ(Box::new(spec_nat((n - 1) as nat)))
    }
}

/// Substituting into a numeral leaves it unchanged: numerals are closed.
pub proof fn lemma_subst_nat(n: nat, x: Seq<char>, v: SpecTerm)
    ensures
        spec_subst(spec_nat(n), x, v) == spec_nat(n),
    decreases n,
{
    if n > 0 {
        lemma_subst_nat((n - 1) as nat, x, v);
    }
}

/// `x` occurs free in `t`.
pub open spec fn free_in(x: Seq<char>, t: SpecTerm) -> bool
    decreases t,
{
    match t {
        SpecTerm::Var(y) => y == x,
        SpecTerm::Abs { var, body } => var != x && free_in(x, *body),
        SpecTerm::App(l, r) => free_in(x, *l) || free_in(x, *r),
        SpecTerm::Ite { cond, if_true, if_false } => free_in(x, *cond) || free_in(x, *if_true)
            || free_in(x, *if_false),
        SpecTerm::Succ(n) => free_in(x, *n),
        SpecTerm::Rec { scrutinee, if_zero, if_succ } => free_in(x, *scrutinee) || free_in(
            x,
            *if_zero,
        ) || free_in(x, *if_succ),
        _ => false,
    }
}

/// Substituting for a variable that does not occur free changes nothing.
pub proof fn lemma_subst_not_free(t: SpecTerm, x: Seq<char>, v: SpecTerm)
    requires
        !free_in(x, t),
    ensures
        spec_subst(t, x, v) == t,
    decreases t,
{
    match t {
        SpecTerm::Abs { var, body } => {
            if var != x {
                lemma_subst_not_free(*body, x, v);
            }
        },
        SpecTerm::App(l, r) => {
            lemma_subst_not_free(*l, x, v);
            lemma_subst_not_free(*r, x, v);
        },
        SpecTerm::Ite { cond, if_true, if_false } => {
            lemma_subst_not_free(*cond, x, v);
            lemma_subst_not_free(*if_true, x, v);
            lemma_subst_not_free(*if_false, x, v);
        },
        SpecTerm::Succ(n) => {
            lemma_subst_not_free(*n, x, v);
        },
        SpecTerm::Rec { scrutinee, if_zero, if_succ } => {
            lemma_subst_not_free(*scrutinee, x, v);
            lemma_subst_not_free(*if_zero, x, v);
            lemma_subst_not_free(*if_succ, x, v);
        },
        _ => {},
    }
}

impl Clone for Term {
    fn clone(&self) -> (res: Self)
        ensures
            res@ == self@,
        decreases self,
    {
        match self {
            Term::Var(x) => Term::Var(x.clone()),
            Term::Abs { var, body } => Term::Abs { var: var.clone(), body: Box::new((**body).clone()) },
            Term::App(l, r) => Term::App(Box::new((**l).clone()), Box::new((**r).clone())),
            Term::True => Term::True,
            Term::False => Term::False,
            Term::Ite { cond, if_true, if_false } => Term::Ite {
                cond: Box::new((**cond).clone()),
                if_true: Box::new((**if_true).clone()),
                if_false: Box::new((**if_false).clone()),
            },
            Term::Zero => Term::Zero,
            Term::Succ(n) => Term::Succ(Box::new((**n).clone())),
            Term::Rec { scrutinee, if_zero, if_succ } => Term::Rec {
                scrutinee: Box::new((**scrutinee).clone()),
                if_zero: Box::new((**if_zero).clone()),
                if_succ: Box::new((**if_succ).clone()),
            },
        }
    }
}

impl Term {
    /// Structural equality of two terms, names compared by their characters.
    pub fn same(&self, other: &Term) -> (res: bool)
        ensures
            res == (self@ == other@),
        decreases self,
    {
        match self {
            Term::Var(x) => match other {
                Term::Var(y) => *x == *y,
                _ => false,
            },
            Term::Abs { var: v1, body: b1 } => match other {
                Term::Abs { var: v2, body: b2 } => *v1 == *v2 && b1.same(b2),
                _ => false,
            },
            Term::App(l1, r1) => match other {
                Term::App(l2, r2) => l1.same(l2) && r1.same(r2),
                _ => false,
            },
            Term::True => match other {
                Term::True => true,
                _ => false,
            },
            Term::False => match other {
                Term::False => true,
                _ => false,
            },
            Term::Ite { cond: c1, if_true: t1, if_false: f1 } => match other {
                Term::Ite { cond: c2, if_true: t2, if_false: f2 } => c1.same(c2) && t1.same(t2)
                    && f1.same(f2),
                _ => false,
            },
            Term::Zero => match other {
                Term::Zero => true,
                _ => false,
            },
            Term::Succ(n1) => match other {
                Term::Succ(n2) => n1.same(n2),
                _ => false,
            },
            Term::Rec { scrutinee: s1, if_zero: z1, if_succ: p1 } => match other {
                Term::Rec { scrutinee: s2, if_zero: z2, if_succ: p2 } => s1.same(s2) && z1.same(z2)
                    && p1.same(p2),
                _ => false,
            },
        }
    }

    /// Substitutes `val` for the free occurrences of `var`.
    pub fn subst(&self, var: &String, val: &Term) -> (res: Term)
        ensures
            res@ == spec_subst(self@, var@, val@),
        decreases self,
    {
        match self {
            Term::Var(y) => if *y == *var {
                val.clone()
            } else {
                Term::Var(y.clone())
            },
            Term::Abs { var: v, body } => if *v == *var {
                self.clone()
            } else {
                Term::Abs { var: v.clone(), body: Box::new(body.subst(var, val)) }
            },
            Term::App(l, r) => Term::App(Box::new(l.subst(var, val)), Box::new(r.subst(var, val))),
            Term::True => Term::True,
            Term::False => Term::False,
            Term::Ite { cond, if_true, if_false } => Term::Ite {
                cond: Box::new(cond.subst(var, val)),
                if_true: Box::new(if_true.subst(var, val)),
                if_false: Box::new(if_false.subst(var, val)),
            },
            Term::Zero => Term::Zero,
            Term::Succ(n) => Term::Succ(Box::new(n.subst(var, val))),
            Term::Rec { scrutinee, if_zero, if_succ } => Term::Rec {
                scrutinee: Box::new(scrutinee.subst(var, val)),
                if_zero: Box::new(if_zero.subst(var, val)),
                if_succ: Box::new(if_succ.subst(var, val)),
            },
        }
    }
}

impl PartialEq for Term {
    fn eq(&self, other: &Self) -> (res: bool) {
        self.same(other)
    }
}

impl vstd::std_specs::cmp::PartialEqSpecImpl for Term {
    open spec fn obeys_eq_spec() -> bool {
        true
    }

    open spec fn eq_spec(&self, other: &Term) -> bool {
        self@ == other@
    }
}

impl Eq for Term {}

/// `f a`
pub open spec fn spec_app(f: SpecTerm, a: SpecTerm) -> SpecTerm {
    SpecTerm::App(Box::new(f), Box::new(a))
}

/// `\x. body`
pub open spec fn spec_lam(x: Seq<char>, body: SpecTerm) -> SpecTerm {
    SpecTerm::Abs { var: x, body: Box::new(body) }
}

/// A variable named by a string.
pub fn var(name: &str) -> (t: Term)
    ensures
        t@ == SpecTerm::Var(name@),
{
    Term::Var(String::from_str(name))
}

/// `\name. body`
pub fn lam(name: &str, body: Term) -> (t: Term)
    ensures
        t@ == spec_lam(name@, body@),
{
    Term::Abs { var: String::from_str(name), body: Box::new(body) }
}

/// `f a`
pub fn app(f: Term, a: Term) -> (t: Term)
    ensures
        t@ == spec_app(f@, a@),
{
    Term::App(Box::new(f), Box::new(a))
}

/// `rec scrutinee if_zero if_succ`
pub fn rec(scrutinee: Term, if_zero: Term, if_succ: Term) -> (t: Term)
    ensures
        t@ == (SpecTerm::Rec {
            scrutinee: Box::new(scrutinee@),
            if_zero: Box::new(if_zero@),
            if_succ: Box::new(if_succ@),
        }),
{
    Term::Rec { scrutinee: Box::new(scrutinee), if_zero: Box::new(if_zero), if_succ: Box::new(if_succ) }
}

/// `if cond then if_true else if_false`
pub fn ite(cond: Term, if_true: Term, if_false: Term) -> (t: Term)
    ensures
        t@ == (SpecTerm::Ite {
            cond: Box::new(cond@),
            if_true: Box::new(if_true@),
            if_false: Box::new(if_false@),
        }),
{
    Term::Ite { cond: Box::new(cond), if_true: Box::new(if_true), if_false: Box::new(if_false) }
}

/// Builds the numeral for `n`.
pub fn numeral(n: u64) -> (t: Term)
    ensures
        t@ == spec_nat(n as nat),
{
    let mut t = Term::Zero;
    let mut i: u64 = 0;
    while i < n
        invariant
            i <= n,
            t@ == spec_nat(i as nat),
        decreases n - i,
    {
        t = Term::Succ(Box::new(t));
        i = i + 1;
    }
    t
}

} // verus!
