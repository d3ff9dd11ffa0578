use vstd::prelude::*;

use crate::module::{spec_lookup, Module};
use crate::term::{
    app, ite, lam, numeral, rec, spec_app, spec_lam, spec_nat, var, SpecTerm, Term,
};

verus! {

/// Surface syntax: the core calculus plus sugar for names, boolean
/// connectives, numerals and arithmetic.
#[derive(Debug, PartialEq, Eq, Hash)]
pub enum AST {
    // Core lambda calculus
    Var(String),
    Abs { var: String, body: Box<AST> },
    App(Box<AST>, Box<AST>),
    // Boolean fragment
    True,
    False,
    Ite { cond: Box<AST>, if_true: Box<AST>, if_false: Box<AST> },
    // Natural number fragment
    Zero,
    Succ(Box<AST>),
    Rec { scrutinee: Box<AST>, if_zero: Box<AST>, if_succ: Box<AST> },
    // Surface syntax sugar
    /// A name in the surrounding module
    Name(String),
    And(Box<AST>, Box<AST>),
    Or(Box<AST>, Box<AST>),
    Not(Box<AST>),
    Nat(u64),
    Add(Box<AST>, Box<AST>),
    Sub(Box<AST>, Box<AST>),
    Mul(Box<AST>, Box<AST>),
    Eq(Box<AST>, Box<AST>),
    Neq(Box<AST>, Box<AST>),
    Le(Box<AST>, Box<AST>),
    Lt(Box<AST>, Box<AST>),
    Ge(Box<AST>, Box<AST>),
    Gt(Box<AST>, Box<AST>),
}

impl Clone for AST {
    fn clone(&self) -> (res: Self)
        ensures
            res == *self,
        decreases self,
    {
        match self {
            AST::Var(x) => AST::Var(x.clone()),
            AST::Abs { var, body } => AST::Abs { var: var.clone(), body: Box::new((**body).clone()) },
            AST::App(t1, t2) => AST::App(Box::new((**t1).clone()), Box::new((**t2).clone())),
            AST::And(t1, t2) => AST::And(Box::new((**t1).clone()), Box::new((**t2).clone())),
            AST::Or(t1, t2) => AST::Or(Box::new((**t1).clone()), Box::new((**t2).clone())),
            AST::Add(t1, t2) => AST::Add(Box::new((**t1).clone()), Box::new((**t2).clone())),
            AST::Sub(t1, t2) => AST::Sub(Box::new((**t1).clone()), Box::new((**t2).clone())),
            AST::Mul(t1, t2) => AST::Mul(Box::new((**t1).clone()), Box::new((**t2).clone())),
            AST::Eq(t1, t2) => AST::Eq(Box::new((**t1).clone()), Box::new((**t2).clone())),
            AST::Neq(t1, t2) => AST::Neq(Box::new((**t1).clone()), Box::new((**t2).clone())),
            AST::Le(t1, t2) => AST::Le(Box::new((**t1).clone()), Box::new((**t2).clone())),
            AST::Lt(t1, t2) => AST::Lt(Box::new((**t1).clone()), Box::new((**t2).clone())),
            AST::Ge(t1, t2) => AST::Ge(Box::new((**t1).clone()), Box::new((**t2).clone())),
            AST::Gt(t1, t2) => AST::Gt(Box::new((**t1).clone()), Box::new((**t2).clone())),
            AST::True => AST::True,
            AST::False => AST::False,
            AST::Ite { cond, if_true, if_false } => AST::Ite {
                cond: Box::new((**cond).clone()),
                if_true: Box::new((**if_true).clone()),
                if_false: Box::new((**if_false).clone()),
            },
            AST::Zero => AST::Zero,
            AST::Succ(t) => AST::Succ(Box::new((**t).clone())),
            AST::Rec { scrutinee, if_zero, if_succ } => AST::Rec {
                scrutinee: Box::new((**scrutinee).clone()),
                if_zero: Box::new((**if_zero).clone()),
                if_succ: Box::new((**if_succ).clone()),
            },
            AST::Name(x) => AST::Name(x.clone()),
            AST::Not(t) => AST::Not(Box::new((**t).clone())),
            AST::Nat(n) => AST::Nat(*n),
        }
    }
}

// ---------------------------------------------------------------------------
// Numerals
// ---------------------------------------------------------------------------

/// The number a term denotes, if it is a numeral `Succ^n(Zero)`.
pub open spec fn spec_decode_nat(t: SpecTerm) -> Option<nat>
    decreases t,
{
    match t {
        SpecTerm::Zero => Some(0),
        SpecTerm::Succ(n) => match spec_decode_nat(*n) {
            Some(k) => Some(k + 1),
            None => None,
        },
        _ => None,
    }
}

/// The number of successors at the head of a term.
pub open spec fn succ_depth(t: SpecTerm) -> nat
    decreases t,
{
    match t {
        SpecTerm::Succ(n) => 1 + succ_depth(*n),
        _ => 0,
    }
}

/// Attempts to decode a natural number term to an integer
pub fn decode_nat(t: &Term) -> (res: Option<u64>)
    requires
        succ_depth(t@) <= u64::MAX,
    ensures
        match spec_decode_nat(t@) {
            Some(k) => res == Some(k as u64),
            None => res is None,
        },
{
    let mut cur: &Term = t;
    let mut n: u64 = 0;
    loop
        invariant
            n + succ_depth(cur@) == succ_depth(t@),
            succ_depth(t@) <= u64::MAX,
            spec_decode_nat(t@) == match spec_decode_nat(cur@) {
                Some(k) => Some((k + n) as nat),
                None => None::<nat>,
            },
        ensures
            !(cur@ is Succ),
            n + succ_depth(cur@) == succ_depth(t@),
            spec_decode_nat(t@) == match spec_decode_nat(cur@) {
                Some(k) => Some((k + n) as nat),
                None => None::<nat>,
            },
        decreases succ_depth(cur@),
    {
        match cur {
            Term::Succ(t1) => {
                cur = &**t1;
                n += 1;
            },
            _ => {
                break ;
            },
        }
    }
    if let Term::Zero = cur {
        Some(n)
    } else {
        None
    }
}

/// Decoding a numeral gives back its number.
pub proof fn law_decode_numeral(n: nat)
    ensures
        spec_decode_nat(spec_nat(n)) == Some(n),
    decreases n,
{
    if n > 0 {
        law_decode_numeral((n - 1) as nat);
    }
}

/// A term decodes to `n` only if it is the numeral for `n`.
pub proof fn law_decode_only_numerals(t: SpecTerm)
    requires
        spec_decode_nat(t) is Some,
    ensures
        t == spec_nat(spec_decode_nat(t).unwrap()),
    decreases t,
{
    if let SpecTerm::Succ(n) = t {
        law_decode_only_numerals(*n);
    }
}

/// The number a numeral denotes is its count of successors.
proof fn lemma_decode_depth(t: SpecTerm)
    ensures
        spec_decode_nat(t) matches Some(k) ==> k == succ_depth(t),
    decreases t,
{
    if let SpecTerm::Succ(n) = t {
        lemma_decode_depth(*n);
    }
}

// ---------------------------------------------------------------------------
// The encodings of the sugar
// ---------------------------------------------------------------------------

pub open spec fn spec_app2(f: SpecTerm, x: SpecTerm, y: SpecTerm) -> SpecTerm {
    spec_app(spec_app(f, x), y)
}

pub open spec fn svar(name: Seq<char>) -> SpecTerm {
    SpecTerm::Var(name)
}

pub open spec fn ite_of(c: SpecTerm, t: SpecTerm, f: SpecTerm) -> SpecTerm {
    SpecTerm::Ite { cond: Box::new(c), if_true: Box::new(t), if_false: Box::new(f) }
}

pub open spec fn rec_of(s: SpecTerm, z: SpecTerm, p: SpecTerm) -> SpecTerm {
    SpecTerm::Rec { scrutinee: Box::new(s), if_zero: Box::new(z), if_succ: Box::new(p) }
}

/// `\b1. \b2. if b1 then b2 else false`
pub open spec fn spec_and() -> SpecTerm {
    spec_lam(
        "b1"@,
        spec_lam("b2"@, ite_of(svar("b1"@), svar("b2"@), SpecTerm::False)),
    )
}

/// `\a. if a then false else true`
pub open spec fn spec_not() -> SpecTerm {
    spec_lam("a"@, ite_of(svar("a"@), SpecTerm::False, SpecTerm::True))
}

/// `\b1. \b2. if b1 then true else b2`
pub open spec fn spec_or() -> SpecTerm {
    spec_lam("b1"@, spec_lam("b2"@, ite_of(svar("b1"@), SpecTerm::True, svar("b2"@))))
}

/// `\n. rec n 0 (\pred. \ih. pred)`
pub open spec fn spec_pred() -> SpecTerm {
    spec_lam(
        "n"@,
        rec_of(svar("n"@), SpecTerm::Zero, spec_lam("pred"@, spec_lam("ih"@, svar("pred"@)))),
    )
}

/// The successor step of addition: `\pred. \ih. succ ih`.
pub open spec fn spec_plus_step() -> SpecTerm {
    spec_lam("pred"@, spec_lam("ih"@, SpecTerm::Succ(Box::new(svar("ih"@)))))
}

/// `\n. \m. rec n m (\pred. \ih. succ ih)`
pub open spec fn spec_plus() -> SpecTerm {
    spec_lam("n"@, spec_lam("m"@, rec_of(svar("n"@), svar("m"@), spec_plus_step())))
}

/// `\n. \m. rec n 0 (\pred. \ih. plus m ih)`
pub open spec fn spec_mult() -> SpecTerm {
    spec_lam(
        "n"@,
        spec_lam(
            "m"@,
            rec_of(
                svar("n"@),
                SpecTerm::Zero,
                spec_lam("pred"@, spec_lam("ih"@, spec_app2(spec_plus(), svar("m"@), svar("ih"@)))),
            ),
        ),
    )
}

/// `\n. \m. rec m n (\pred. \ih. pred ih)`, `pred` being the predecessor function.
pub open spec fn spec_minus() -> SpecTerm {
    spec_lam(
        "n"@,
        spec_lam(
            "m"@,
            rec_of(
                svar("m"@),
                svar("n"@),
                spec_lam("pred"@, spec_lam("ih"@, spec_app(spec_pred(), svar("ih"@)))),
            ),
        ),
    )
}

/// `\n. rec n true (\pred. \ih. false)`
pub open spec fn spec_is_zero() -> SpecTerm {
    spec_lam(
        "n"@,
        rec_of(svar("n"@), SpecTerm::True, spec_lam("pred"@, spec_lam("ih"@, SpecTerm::False))),
    )
}

/// `\n. \m. is_zero (minus n m)`
pub open spec fn spec_le() -> SpecTerm {
    spec_lam(
        "n"@,
        spec_lam("m"@, spec_app(spec_is_zero(), spec_app2(spec_minus(), svar("n"@), svar("m"@)))),
    )
}

/// `\n. \m. and (le n m) (le m n)`
pub open spec fn spec_eq() -> SpecTerm {
    spec_lam(
        "n"@,
        spec_lam(
            "m"@,
            spec_app2(
                spec_and(),
                spec_app2(spec_le(), svar("n"@), svar("m"@)),
                spec_app2(spec_le(), svar("m"@), svar("n"@)),
            ),
        ),
    )
}

/// `\n. \m. not (eq n m)`
pub open spec fn spec_neq() -> SpecTerm {
    spec_lam(
        "n"@,
        spec_lam("m"@, spec_app(spec_not(), spec_app2(spec_eq(), svar("n"@), svar("m"@)))),
    )
}

/// `\n. \m. le (succ n) m`
pub open spec fn spec_lt() -> SpecTerm {
    spec_lam(
        "n"@,
        spec_lam("m"@, spec_app2(spec_le(), SpecTerm::Succ(Box::new(svar("n"@))), svar("m"@))),
    )
}

/// `\n. \m. le m n`
pub open spec fn spec_ge() -> SpecTerm {
    spec_lam("n"@, spec_lam("m"@, spec_app2(spec_le(), svar("m"@), svar("n"@))))
}

/// `\n. \m. lt m n`
pub open spec fn spec_gt() -> SpecTerm {
    spec_lam("n"@, spec_lam("m"@, spec_app2(spec_lt(), svar("m"@), svar("n"@))))
}

fn app2(f: Term, x: Term, y: Term) -> (t: Term)
    ensures
        t@ == spec_app2(f@, x@, y@),
{
    app(app(f, x), y)
}

pub fn and() -> (t: Term)
    ensures
        t@ == spec_and(),
{
    let inner = ite(var("b1"), var("b2"), Term::False);
    lam("b1", lam("b2", inner))
}

pub fn not() -> (t: Term)
    ensures
        t@ == spec_not(),
{
    let inner = ite(var("a"), Term::False, Term::True);
    lam("a", inner)
}

pub fn or() -> (t: Term)
    ensures
        t@ == spec_or(),
{
    let inner = ite(var("b1"), Term::True, var("b2"));
    lam("b1", lam("b2", inner))
}

/// The predecessor function for natural numbers
pub fn pred() -> (t: Term)
    ensures
        t@ == spec_pred(),
{
    let body = rec(var("n"), Term::Zero, lam("pred", lam("ih", var("pred"))));
    lam("n", body)
}

pub fn plus() -> (t: Term)
    ensures
        t@ == spec_plus(),
{
    let body = rec(var("n"), var("m"), lam("pred", lam("ih", Term::Succ(Box::new(var("ih"))))));
    lam("n", lam("m", body))
}

pub fn mult() -> (t: Term)
    ensures
        t@ == spec_mult(),
{
    let body = rec(var("n"), Term::Zero, lam("pred", lam("ih", app2(plus(), var("m"), var("ih")))));
    lam("n", lam("m", body))
}

pub fn minus() -> (t: Term)
    ensures
        t@ == spec_minus(),
{
    let body = rec(var("m"), var("n"), lam("pred", lam("ih", app(pred(), var("ih")))));
    lam("n", lam("m", body))
}

pub fn is_zero() -> (t: Term)
    ensures
        t@ == spec_is_zero(),
{
    let body = rec(var("n"), Term::True, lam("pred", lam("ih", Term::False)));
    lam("n", body)
}

pub fn eq() -> (t: Term)
    ensures
        t@ == spec_eq(),
{
    lam("n", lam("m", app2(and(), app2(le(), var("n"), var("m")), app2(le(), var("m"), var("n")))))
}

pub fn neq() -> (t: Term)
    ensures
        t@ == spec_neq(),
{
    lam("n", lam("m", app(not(), app2(eq(), var("n"), var("m")))))
}

pub fn le() -> (t: Term)
    ensures
        t@ == spec_le(),
{
    lam("n", lam("m", app(is_zero(), app2(minus(), var("n"), var("m")))))
}

pub fn lt() -> (t: Term)
    ensures
        t@ == spec_lt(),
{
    // Note: must use Succ rather than pred as 0 is not < 0
    lam("n", lam("m", app2(le(), Term::Succ(Box::new(var("n"))), var("m"))))
}

pub fn ge() -> (t: Term)
    ensures
        t@ == spec_ge(),
{
    lam("n", lam("m", app2(le(), var("m"), var("n"))))
}

pub fn gt() -> (t: Term)
    ensures
        t@ == spec_gt(),
{
    lam("n", lam("m", app2(lt(), var("m"), var("n"))))
}

// ---------------------------------------------------------------------------
// Desugaring
// ---------------------------------------------------------------------------

/// Every `Name` in the tree is declared in `env`.
pub open spec fn names_bound(a: AST, env: Seq<(Seq<char>, SpecTerm)>) -> bool
    decreases a,
{
    match a {
        AST::Name(name) => spec_lookup(env, name@) is Some,
        AST::Abs { var, body } => names_bound(*body, env),
        AST::Succ(t) => names_bound(*t, env),
        AST::Not(t) => names_bound(*t, env),
        AST::Ite { cond, if_true, if_false } => names_bound(*cond, env) && names_bound(
            *if_true,
            env,
        ) && names_bound(*if_false, env),
        AST::Rec { scrutinee, if_zero, if_succ } => names_bound(*scrutinee, env) && names_bound(
            *if_zero,
            env,
        ) && names_bound(*if_succ, env),
        AST::App(t1, t2) => names_bound(*t1, env) && names_bound(*t2, env),
        AST::And(t1, t2) => names_bound(*t1, env) && names_bound(*t2, env),
        AST::Or(t1, t2) => names_bound(*t1, env) && names_bound(*t2, env),
        AST::Add(t1, t2) => names_bound(*t1, env) && names_bound(*t2, env),
        AST::Sub(t1, t2) => names_bound(*t1, env) && names_bound(*t2, env),
        AST::Mul(t1, t2) => names_bound(*t1, env) && names_bound(*t2, env),
        AST::Eq(t1, t2) => names_bound(*t1, env) && names_bound(*t2, env),
        AST::Neq(t1, t2) => names_bound(*t1, env) && names_bound(*t2, env),
        AST::Le(t1, t2) => names_bound(*t1, env) && names_bound(*t2, env),
        AST::Lt(t1, t2) => names_bound(*t1, env) && names_bound(*t2, env),
        AST::Ge(t1, t2) => names_bound(*t1, env) && names_bound(*t2, env),
        AST::Gt(t1, t2) => names_bound(*t1, env) && names_bound(*t2, env),
        _ => true,
    }
}

/// The core term a surface tree stands for in the module `env`.
pub open spec fn spec_desugar(a: AST, env: Seq<(Seq<char>, SpecTerm)>) -> SpecTerm
    decreases a,
{
    match a {
        AST::Var(x) => SpecTerm::Var(x@),
        AST::Abs { var, body } => spec_lam(var@, spec_desugar(*body, env)),
        AST::App(t1, t2) => spec_app(spec_desugar(*t1, env), spec_desugar(*t2, env)),
        AST::True => SpecTerm::True,
        AST::False => SpecTerm::False,
        AST::And(t1, t2) => spec_app2(spec_and(), spec_desugar(*t1, env), spec_desugar(*t2, env)),
        AST::Or(t1, t2) => spec_app2(spec_or(), spec_desugar(*t1, env), spec_desugar(*t2, env)),
        AST::Not(t) => spec_app(spec_not(), spec_desugar(*t, env)),
        AST::Ite { cond, if_true, if_false } => ite_of(
            spec_desugar(*cond, env),
            spec_desugar(*if_true, env),
            spec_desugar(*if_false, env),
        ),
        AST::Zero => SpecTerm::Zero,
        AST::Succ(t) => SpecTerm::Succ(Box::new(spec_desugar(*t, env))),
        AST::Rec { scrutinee, if_zero, if_succ } => rec_of(
            spec_desugar(*scrutinee, env),
            spec_desugar(*if_zero, env),
            spec_desugar(*if_succ, env),
        ),
        AST::Nat(n) => spec_nat(n as nat),
        AST::Add(t1, t2) => spec_app2(spec_plus(), spec_desugar(*t1, env), spec_desugar(*t2, env)),
        AST::Sub(t1, t2) => spec_app2(spec_minus(), spec_desugar(*t1, env), spec_desugar(*t2, env)),
        AST::Mul(t1, t2) => spec_app2(spec_mult(), spec_desugar(*t1, env), spec_desugar(*t2, env)),
        AST::Le(t1, t2) => spec_app2(spec_le(), spec_desugar(*t1, env), spec_desugar(*t2, env)),
        AST::Eq(t1, t2) => spec_app2(spec_eq(), spec_desugar(*t1, env), spec_desugar(*t2, env)),
        AST::Lt(t1, t2) => spec_app2(spec_lt(), spec_desugar(*t1, env), spec_desugar(*t2, env)),
        AST::Neq(t1, t2) => spec_app2(spec_neq(), spec_desugar(*t1, env), spec_desugar(*t2, env)),
        AST::Ge(t1, t2) => spec_app2(spec_ge(), spec_desugar(*t1, env), spec_desugar(*t2, env)),
        AST::Gt(t1, t2) => spec_app2(spec_gt(), spec_desugar(*t1, env), spec_desugar(*t2, env)),
        AST::Name(name) => spec_lookup(env, name@).unwrap(),
    }
}

impl AST {
    /// Translates the surface tree into a core term, names being looked up
    /// in `env`.
    pub fn desugar(self, env: &Module) -> (res: Term)
        requires
            names_bound(self, env@),
        ensures
            res@ == spec_desugar(self, env@),
        decreases self,
    {
        match self {
            AST::Var(x) => Term::Var(x),
            AST::Abs { var, body } => Term::Abs { var, body: Box::new((*body).desugar(env)) },
            AST::App(t1, t2) => app((*t1).desugar(env), (*t2).desugar(env)),
            AST::True => Term::True,
            AST::False => Term::False,
            AST::And(t1, t2) => app2(and(), (*t1).desugar(env), (*t2).desugar(env)),
            AST::Or(t1, t2) => app2(or(), (*t1).desugar(env), (*t2).desugar(env)),
            AST::Not(t) => app(not(), (*t).desugar(env)),
            AST::Ite { cond, if_true, if_false } => ite(
                (*cond).desugar(env),
                (*if_true).desugar(env),
                (*if_false).desugar(env),
            ),
            AST::Zero => Term::Zero,
            AST::Succ(ast) => Term::Succ(Box::new((*ast).desugar(env))),
            AST::Rec { scrutinee, if_zero, if_succ } => rec(
                (*scrutinee).desugar(env),
                (*if_zero).desugar(env),
                (*if_succ).desugar(env),
            ),
            AST::Nat(n) => numeral(n),
            AST::Add(t1, t2) => app2(plus(), (*t1).desugar(env), (*t2).desugar(env)),
            AST::Sub(t1, t2) => app2(minus(), (*t1).desugar(env), (*t2).desugar(env)),
            AST::Mul(t1, t2) => app2(mult(), (*t1).desugar(env), (*t2).desugar(env)),
            AST::Le(t1, t2) => app2(le(), (*t1).desugar(env), (*t2).desugar(env)),
            AST::Eq(t1, t2) => app2(eq(), (*t1).desugar(env), (*t2).desugar(env)),
            AST::Lt(t1, t2) => app2(lt(), (*t1).desugar(env), (*t2).desugar(env)),
            AST::Neq(t1, t2) => app2(neq(), (*t1).desugar(env), (*t2).desugar(env)),
            AST::Ge(t1, t2) => app2(ge(), (*t1).desugar(env), (*t2).desugar(env)),
            AST::Gt(t1, t2) => app2(gt(), (*t1).desugar(env), (*t2).desugar(env)),
            AST::Name(name) => env.get_term(&name).unwrap(),
        }
    }
}

// ---------------------------------------------------------------------------
// Printing
// ---------------------------------------------------------------------------

pub open spec fn spec_digit(d: nat) -> char {
    if d == 0 {
        '0'
    } else if d == 1 {
        '1'
    } else if d == 2 {
        '2'
    } else if d == 3 {
        '3'
    } else if d == 4 {
        '4'
    } else if d == 5 {
        '5'
    } else if d == 6 {
        '6'
    } else if d == 7 {
        '7'
    } else if d == 8 {
        '8'
    } else {
        '9'
    }
}

/// The decimal digits of `n`, most significant first, without leading zeros.
pub open spec fn spec_decimal(n: nat) -> Seq<char>
    decreases n,
{
    if n < 10 {
        seq![spec_digit(n)]
    } else {
        spec_decimal(n / 10).push(spec_digit(n % 10))
    }
}

/// Every chain of successors in the term is at most `u64::MAX` long.
pub open spec fn numerals_fit(t: SpecTerm) -> bool
    decreases t,
{
    succ_depth(t) <= u64::MAX && match t {
        SpecTerm::Abs { var, body } => numerals_fit(*body),
        SpecTerm::App(l, r) => numerals_fit(*l) && numerals_fit(*r),
        SpecTerm::Ite { cond, if_true, if_false } => numerals_fit(*cond) && numerals_fit(*if_true)
            && numerals_fit(*if_false),
        SpecTerm::Succ(n) => numerals_fit(*n),
        SpecTerm::Rec { scrutinee, if_zero, if_succ } => numerals_fit(*scrutinee) && numerals_fit(
            *if_zero,
        ) && numerals_fit(*if_succ),
        _ => true,
    }
}

/// The printed form of a term: numerals in decimal, booleans as `true` and
/// `false`, other forms fully parenthesised.
pub open spec fn spec_show(t: SpecTerm) -> Seq<char>
    decreases t,
{
    match spec_decode_nat(t) {
        Some(k) => spec_decimal(k),
        None => match t {
            SpecTerm::Var(x) => x,
            SpecTerm::Abs { var, body } => "(fun "@ + var + " => "@ + spec_show(*body) + ")"@,
            SpecTerm::App(l, r) => "("@ + spec_show(*l) + " "@ + spec_show(*r) + ")"@,
            SpecTerm::True => "true"@,
            SpecTerm::False => "false"@,
            SpecTerm::Ite { cond, if_true, if_false } => "(if "@ + spec_show(*cond) + " then "@
                + spec_show(*if_true) + " else "@ + spec_show(*if_false) + ")"@,
            SpecTerm::Succ(n) => "(succ "@ + spec_show(*n) + ")"@,
            SpecTerm::Rec { scrutinee, if_zero, if_succ } => "(rec "@ + spec_show(*scrutinee)
                + " "@ + spec_show(*if_zero) + " "@ + spec_show(*if_succ) + ")"@,
            SpecTerm::Zero => "0"@,
        },
    }
}

/// The number a decimal digit stands for.
pub open spec fn digit_value(c: char) -> int {
    c as int - '0' as int
}

/// `c` is one of `0` to `9`.
pub open spec fn is_digit(c: char) -> bool {
    '0' as int <= c as int <= '9' as int
}

/// The number a string of decimal digits reads as, most significant first.
pub open spec fn decimal_value(s: Seq<char>) -> int
    decreases s.len(),
{
    if s.len() == 0 {
        0
    } else {
        decimal_value(s.drop_last()) * 10 + digit_value(s.last())
    }
}

/// The decimal form of `n` is a non-empty string of digits, without a leading
/// zero unless it is `0` itself, that reads back as `n`.
pub proof fn law_decimal_reads_back(n: nat)
    ensures
        spec_decimal(n).len() > 0,
        forall|i: int| 0 <= i < spec_decimal(n).len() ==> is_digit(#[trigger] spec_decimal(n)[i]),
        decimal_value(spec_decimal(n)) == n,
        n >= 10 ==> spec_decimal(n)[0] != '0',
    decreases n,
{
    if n < 10 {
        assert(digit_value(spec_digit(n)) == n);
        assert(is_digit(spec_digit(n)));
        assert(spec_decimal(n).drop_last() =~= Seq::<char>::empty());
        assert(decimal_value(Seq::<char>::empty()) == 0);
        assert(spec_decimal(n).last() == spec_digit(n));
    } else {
        let q = n / 10;
        let r = n % 10;
        law_decimal_reads_back(q);
        let d = spec_decimal(n);
        assert(d == spec_decimal(q).push(spec_digit(r)));
        assert(d.drop_last() =~= spec_decimal(q));
        assert(digit_value(spec_digit(r)) == r);
        assert(is_digit(spec_digit(r)));
        assert(d.last() == spec_digit(r));
        assert(decimal_value(d) == decimal_value(spec_decimal(q)) * 10 + r);
        assert(q * 10 + r == n) by (nonlinear_arith)
            requires
                q == n / 10,
                r == n % 10,
        ;
        assert(d[0] == spec_decimal(q)[0]);
        if q < 10 {
            assert(q >= 1);
            assert(spec_decimal(q)[0] == spec_digit(q));
        }
        assert forall|i: int| 0 <= i < d.len() implies is_digit(#[trigger] d[i]) by {
            if i < d.len() - 1 {
                assert(d[i] == spec_decimal(q)[i]);
            }
        }
    }
}

/// A numeral prints as the decimal digits of its number.
pub proof fn law_show_numeral(n: nat)
    ensures
        spec_show(spec_nat(n)) == spec_decimal(n),
        decimal_value(spec_show(spec_nat(n))) == n,
{
    law_decode_numeral(n);
    law_decimal_reads_back(n);
}

fn digit_str(d: u64) -> (s: &'static str)
    requires
        d < 10,
    ensures
        s@ == seq![spec_digit(d as nat)],
{
    proof {
        reveal_strlit("0");
        reveal_strlit("1");
        reveal_strlit("2");
        reveal_strlit("3");
        reveal_strlit("4");
        reveal_strlit("5");
        reveal_strlit("6");
        reveal_strlit("7");
        reveal_strlit("8");
        reveal_strlit("9");
    }
    if d == 0 {
        "0"
    } else if d == 1 {
        "1"
    } else if d == 2 {
        "2"
    } else if d == 3 {
        "3"
    } else if d == 4 {
        "4"
    } else if d == 5 {
        "5"
    } else if d == 6 {
        "6"
    } else if d == 7 {
        "7"
    } else if d == 8 {
        "8"
    } else {
        "9"
    }
}

/// The decimal representation of `n`.
pub fn decimal(n: u64) -> (s: String)
    ensures
        s@ == spec_decimal(n as nat),
    decreases n,
{
    if n < 10 {
        String::from_str(digit_str(n))
    } else {
        let mut s = decimal(n / 10);
        s.append(digit_str(n % 10));
        s
    }
}

impl Term {
    /// The printed form of the term (see `spec_show`).
    pub fn to_string(&self) -> (s: String)
        requires
            numerals_fit(self@),
        ensures
            s@ == spec_show(self@),
        decreases self,
    {
        proof {
            lemma_decode_depth(self@);
        }
        if let Some(k) = decode_nat(self) {
            return decimal(k);
        }
        let mut s = String::new();
        match self {
            Term::Var(x) => {
                s.append(x.as_str());
            },
            Term::Abs { var, body } => {
                s.append("(fun ");
                s.append(var.as_str());
                s.append(" => ");
                s.append(body.to_string().as_str());
                s.append(")");
            },
            Term::App(l, r) => {
                s.append("(");
                s.append(l.to_string().as_str());
                s.append(" ");
                s.append(r.to_string().as_str());
                s.append(")");
            },
            Term::True => {
                s.append("true");
            },
            Term::False => {
                s.append("false");
            },
            Term::Ite { cond, if_true, if_false } => {
                s.append("(if ");
                s.append(cond.to_string().as_str());
                s.append(" then ");
                s.append(if_true.to_string().as_str());
                s.append(" else ");
                s.append(if_false.to_string().as_str());
                s.append(")");
            },
            Term::Succ(n) => {
                s.append("(succ ");
                s.append(n.to_string().as_str());
                s.append(")");
            },
            Term::Rec { scrutinee, if_zero, if_succ } => {
                s.append("(rec ");
                s.append(scrutinee.to_string().as_str());
                s.append(" ");
                s.append(if_zero.to_string().as_str());
                s.append(" ");
                s.append(if_succ.to_string().as_str());
                s.append(")");
            },
            Term::Zero => {
                s.append("0");
            },
        }
        assert(s@ =~= spec_show(self@));
        s
    }
}

} // verus!
