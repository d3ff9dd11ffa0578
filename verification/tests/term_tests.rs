use programming_language::ast::{
    and, decimal, decode_nat, eq, ge, gt, is_zero, le, lt, minus, mult, neq, not, or, plus, pred,
};
use programming_language::module::Module;
use programming_language::term::{app, lam, numeral, var, Term};
use programming_language::types::Type;

fn app2(f: Term, x: Term, y: Term) -> Term {
    app(app(f, x), y)
}

#[test]
fn numerals_decode_to_their_number() {
    for n in [0u64, 1, 2, 17, 100] {
        assert_eq!(decode_nat(&numeral(n)), Some(n));
    }
}

#[test]
fn non_numerals_do_not_decode() {
    assert_eq!(decode_nat(&Term::True), None);
    assert_eq!(decode_nat(&Term::Succ(Box::new(Term::False))), None);
    assert_eq!(decode_nat(&var("x")), None);
}

#[test]
fn numeral_shape() {
    assert_eq!(numeral(0), Term::Zero);
    assert_eq!(
        numeral(2),
        Term::Succ(Box::new(Term::Succ(Box::new(Term::Zero))))
    );
}

#[test]
fn decimal_digits() {
    assert_eq!(decimal(0), "0");
    assert_eq!(decimal(7), "7");
    assert_eq!(decimal(1234567890), "1234567890");
    assert_eq!(decimal(u64::MAX), "18446744073709551615");
}

#[test]
fn printing() {
    assert_eq!(numeral(7).to_string(), "7");
    assert_eq!(Term::Zero.to_string(), "0");
    assert_eq!(Term::True.to_string(), "true");
    assert_eq!(Term::False.to_string(), "false");
    assert_eq!(var("x").to_string(), "x");
    assert_eq!(lam("x", var("x")).to_string(), "(fun x => x)");
    assert_eq!(app(var("f"), numeral(2)).to_string(), "(f 2)");
    assert_eq!(Term::Succ(Box::new(var("y"))).to_string(), "(succ y)");
    let ite = Term::Ite {
        cond: Box::new(var("c")),
        if_true: Box::new(Term::True),
        if_false: Box::new(numeral(1)),
    };
    assert_eq!(ite.to_string(), "(if c then true else 1)");
    let rec = Term::Rec {
        scrutinee: Box::new(var("n")),
        if_zero: Box::new(Term::Zero),
        if_succ: Box::new(var("s")),
    };
    assert_eq!(rec.to_string(), "(rec n 0 s)");
}

#[test]
fn substitution_replaces_free_occurrences_only() {
    let x = "x".to_string();
    let t = app(var("x"), lam("x", var("x")));
    let r = t.subst(&x, &Term::True);
    assert_eq!(r, app(Term::True, lam("x", var("x"))));
    let u = lam("y", app(var("x"), var("y")));
    assert_eq!(u.subst(&x, &numeral(1)), lam("y", app(numeral(1), var("y"))));
    assert_eq!(var("z").subst(&x, &Term::True), var("z"));
}

#[test]
fn equality_compares_names_by_content() {
    assert_eq!(var("x"), var("x"));
    assert_ne!(var("x"), var("y"));
    assert_ne!(Term::True, Term::False);
    assert_ne!(lam("x", var("x")), lam("y", var("y")));
    assert_eq!(numeral(3).clone(), numeral(3));
}

#[test]
fn plus_adds_numerals() {
    for (n, m) in [(0u64, 0u64), (0, 3), (3, 0), (2, 5)] {
        assert_eq!(app2(plus(), numeral(n), numeral(m)).multistep(), numeral(n + m));
    }
}

#[test]
fn mult_multiplies_numerals() {
    for (n, m) in [(0u64, 4u64), (4, 0), (1, 1), (3, 4)] {
        assert_eq!(app2(mult(), numeral(n), numeral(m)).multistep(), numeral(n * m));
    }
}

#[test]
fn minus_is_truncated_subtraction() {
    assert_eq!(app2(minus(), numeral(5), numeral(2)).multistep(), numeral(3));
    assert_eq!(app2(minus(), numeral(2), numeral(5)).multistep(), numeral(0));
}

#[test]
fn pred_and_is_zero() {
    assert_eq!(app(pred(), numeral(0)).multistep(), numeral(0));
    assert_eq!(app(pred(), numeral(4)).multistep(), numeral(3));
    assert_eq!(app(is_zero(), numeral(0)).multistep(), Term::True);
    assert_eq!(app(is_zero(), numeral(2)).multistep(), Term::False);
}

#[test]
fn boolean_combinators() {
    let b = |v: bool| if v { Term::True } else { Term::False };
    for p in [false, true] {
        assert_eq!(app(not(), b(p)).multistep(), b(!p));
        for q in [false, true] {
            assert_eq!(app2(and(), b(p), b(q)).multistep(), b(p && q));
            assert_eq!(app2(or(), b(p), b(q)).multistep(), b(p || q));
        }
    }
}

#[test]
fn numeric_comparisons() {
    let b = |v: bool| if v { Term::True } else { Term::False };
    for n in 0u64..4 {
        for m in 0u64..4 {
            assert_eq!(app2(le(), numeral(n), numeral(m)).multistep(), b(n <= m));
            assert_eq!(app2(lt(), numeral(n), numeral(m)).multistep(), b(n < m));
            assert_eq!(app2(ge(), numeral(n), numeral(m)).multistep(), b(n >= m));
            assert_eq!(app2(gt(), numeral(n), numeral(m)).multistep(), b(n > m));
            assert_eq!(app2(eq(), numeral(n), numeral(m)).multistep(), b(n == m));
            assert_eq!(app2(neq(), numeral(n), numeral(m)).multistep(), b(n != m));
        }
    }
}

#[test]
fn module_lookup_takes_latest_declaration() {
    let mut m = Module::new();
    let a = "a".to_string();
    assert_eq!(m.get_term(&a), None);
    m.declare("a".to_string(), numeral(1));
    m.declare("b".to_string(), numeral(2));
    assert_eq!(m.get_term(&a), Some(numeral(1)));
    m.declare("a".to_string(), Term::True);
    assert_eq!(m.get_term(&a), Some(Term::True));
    assert_eq!(m.get_term(&"c".to_string()), None);
}

#[test]
fn prelude_declares_the_combinators() {
    let m = Module::new_with_prelude();
    assert_eq!(m.get_term(&"plus".to_string()), Some(plus()));
    assert_eq!(m.get_term(&"gt".to_string()), Some(gt()));
    assert_eq!(m.get_term(&"and".to_string()), Some(and()));
}

#[test]
fn types_clone_and_compare() {
    let t = Type::Func(Box::new(Type::Nat), Box::new(Type::Bool));
    assert_eq!(t.clone(), t);
    assert_ne!(Type::Nat, Type::Bool);
}
