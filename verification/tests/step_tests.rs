use programming_language::ast::{mult, plus};
use programming_language::term::{app, ite, lam, numeral, rec, var, Term};

fn id() -> Term {
    lam("x", var("x"))
}

fn rules(t: &Term) -> Vec<Option<Term>> {
    vec![
        t.app_abs(),
        t.ite(),
        t.rec(),
        t.app1(),
        t.ite1(),
        t.rec1(),
        t.succ1(),
        t.app2(),
        t.ite2(),
        t.rec2(),
        t.ite3(),
        t.rec3(),
        t.abs(),
    ]
}

fn first_rule(t: &Term) -> Option<Term> {
    rules(t).into_iter().flatten().next()
}

fn samples() -> Vec<Term> {
    vec![
        app(id(), numeral(1)),
        app(var("f"), app(id(), Term::True)),
        app(app(id(), var("f")), Term::Zero),
        ite(Term::True, numeral(1), numeral(2)),
        ite(Term::False, numeral(1), numeral(2)),
        ite(app(id(), Term::True), numeral(1), numeral(2)),
        ite(var("c"), app(id(), Term::Zero), numeral(2)),
        ite(var("c"), Term::Zero, app(id(), Term::True)),
        ite(var("c"), Term::Zero, Term::True),
        rec(Term::Zero, numeral(7), var("s")),
        rec(numeral(2), numeral(7), var("s")),
        rec(app(id(), Term::Zero), numeral(7), var("s")),
        rec(var("k"), numeral(7), var("s")),
        rec(app(var("f"), app(id(), Term::Zero)), numeral(7), var("s")),
        Term::Succ(Box::new(app(id(), Term::Zero))),
        lam("y", app(id(), var("y"))),
        var("x"),
        Term::True,
        app(app(plus(), numeral(1)), numeral(1)),
        app(app(mult(), numeral(2)), numeral(2)),
    ]
}

#[test]
fn step_is_the_first_applicable_rule() {
    for t in samples() {
        assert_eq!(t.step(), first_rule(&t), "term {}", t.to_string());
    }
}

#[test]
fn app_abs_contracts_a_redex() {
    assert_eq!(app(id(), numeral(1)).app_abs(), Some(numeral(1)));
    assert_eq!(app(app(id(), id()), Term::True).app_abs(), Some(Term::True));
    assert_eq!(app(var("f"), Term::True).app_abs(), None);
    assert_eq!(Term::True.app_abs(), None);
}

#[test]
fn app1_and_app2() {
    let t = app(app(id(), var("f")), Term::Zero);
    assert_eq!(t.app1(), Some(app(var("f"), Term::Zero)));
    assert_eq!(t.app2(), None);
    let u = app(var("f"), app(id(), Term::True));
    assert_eq!(u.app1(), None);
    assert_eq!(u.app2(), Some(app(var("f"), Term::True)));
}

#[test]
fn abs_reduces_under_binder() {
    let t = lam("y", app(id(), var("y")));
    assert_eq!(t.abs(), Some(lam("y", var("y"))));
    assert_eq!(lam("y", var("y")).abs(), None);
}

#[test]
fn ite_rules() {
    assert_eq!(ite(Term::True, numeral(1), numeral(2)).ite(), Some(numeral(1)));
    assert_eq!(ite(Term::False, numeral(1), numeral(2)).ite(), Some(numeral(2)));
    let t = ite(app(id(), Term::True), numeral(1), numeral(2));
    assert_eq!(t.ite(), Some(numeral(1)));
    assert_eq!(t.ite1(), Some(ite(Term::True, numeral(1), numeral(2))));
    let stuck = ite(var("c"), app(id(), Term::Zero), app(id(), Term::True));
    assert_eq!(stuck.ite(), None);
    assert_eq!(stuck.ite1(), None);
    assert_eq!(stuck.ite2(), Some(ite(var("c"), Term::Zero, app(id(), Term::True))));
    assert_eq!(stuck.ite3(), None);
    let stuck2 = ite(var("c"), Term::Zero, app(id(), Term::True));
    assert_eq!(stuck2.ite2(), None);
    assert_eq!(stuck2.ite3(), Some(ite(var("c"), Term::Zero, Term::True)));
}

#[test]
fn rec_rules() {
    let z = rec(Term::Zero, numeral(7), var("s"));
    assert_eq!(z.rec(), Some(numeral(7)));
    assert_eq!(z.rec2(), Some(numeral(7)));
    assert_eq!(z.rec3(), None);
    let s = rec(numeral(1), numeral(7), var("s"));
    let unfolded = app(app(var("s"), Term::Zero), rec(Term::Zero, numeral(7), var("s")));
    assert_eq!(s.rec(), Some(unfolded.clone()));
    assert_eq!(s.rec3(), Some(unfolded));
    assert_eq!(s.rec2(), None);
    let r = rec(app(id(), Term::Zero), numeral(7), var("s"));
    assert_eq!(r.rec(), Some(numeral(7)));
    let r2 = rec(app(var("f"), app(id(), Term::Zero)), numeral(7), var("s"));
    assert_eq!(r2.rec(), Some(rec(app(var("f"), Term::Zero), numeral(7), var("s"))));
    assert_eq!(rec(var("k"), Term::Zero, var("s")).rec(), None);
    assert_eq!(rec(var("k"), Term::Zero, var("s")).rec1(), None);
    // Rec1 steps the scrutinee, whatever its head form
    assert_eq!(r.rec1(), Some(rec(Term::Zero, numeral(7), var("s"))));
    assert_eq!(r2.rec1(), Some(rec(app(var("f"), Term::Zero), numeral(7), var("s"))));
    assert_eq!(s.rec1(), None);
}

#[test]
fn succ_rules() {
    let t = Term::Succ(Box::new(app(id(), Term::Zero)));
    assert_eq!(t.succ1(), Some(numeral(1)));
    assert_eq!(t.rec1(), None);
    assert_eq!(numeral(2).succ1(), None);
}

#[test]
fn whnf_contracts_the_head_once() {
    assert_eq!(Term::whnf(&app(id(), numeral(2))), numeral(2));
    assert_eq!(Term::whnf(&ite(Term::True, Term::Zero, Term::False)), Term::Zero);
    let t = app(var("f"), app(id(), Term::Zero));
    assert_eq!(Term::whnf(&t), t);
    assert_eq!(Term::whnf(&var("x")), var("x"));
}

#[test]
fn normal_terms_do_not_step() {
    for t in [var("x"), Term::True, numeral(3), lam("x", var("x")), app(var("f"), var("x"))] {
        assert_eq!(t.step(), None);
        assert_eq!(Term::whnf(&t), t);
    }
}

#[test]
fn multistep_reaches_a_normal_form_and_is_idempotent() {
    let t = app(app(plus(), numeral(2)), numeral(2));
    let n = t.clone().multistep();
    assert_eq!(n, numeral(4));
    assert_eq!(n.step(), None);
    assert_eq!(n.clone().multistep(), n);
}

#[test]
fn stepping_keeps_the_normal_form() {
    let t = app(app(mult(), numeral(2)), numeral(3));
    let u = t.step().unwrap();
    assert!(t.beta_eq(&u));
    assert_eq!(u.multistep(), numeral(6));
}

#[test]
fn beta_equivalence() {
    let a = app(app(plus(), numeral(1)), numeral(2));
    let b = app(app(mult(), numeral(3)), numeral(1));
    assert!(a.beta_eq(&b));
    assert!(a.beta_eq(&a));
    assert!(!a.beta_eq(&numeral(4)));
    assert!(app(id(), Term::True).beta_eq(&Term::True));
}

#[test]
fn multistep_bounded_stops_at_normal_form_or_limit() {
    let t = app(app(plus(), numeral(2)), numeral(2));
    assert_eq!(t.clone().multistep_bounded(1000), (numeral(4), false));
    let one = t.step().unwrap();
    assert_eq!(t.clone().multistep_bounded(1), (one, true));
    assert_eq!(t.clone().multistep_bounded(0), (t.clone(), true));
    // the normal form is reached in exactly 6 steps
    assert_eq!(t.clone().multistep_bounded(6), (numeral(4), true));
    assert_eq!(t.clone().multistep_bounded(7), (numeral(4), false));
    assert_eq!(numeral(3).multistep_bounded(5), (numeral(3), false));
}
