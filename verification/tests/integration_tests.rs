use programming_language::ast::AST;
use programming_language::module::Module;
use programming_language::term::{numeral, Term};

fn eval(ast: AST) -> Term {
    let module = Module::new_with_prelude();
    ast.desugar(&module).multistep()
}

#[test]
fn test_complex_arithmetic() {
    let result = eval(AST::Add(
        Box::new(AST::Mul(Box::new(AST::Nat(2)), Box::new(AST::Nat(3)))),
        Box::new(AST::Nat(1)),
    ));

    assert_eq!(result.to_string(), "7");
}

#[test]
fn test_rec_zero() {
    let rec = AST::Rec {
        scrutinee: Box::new(AST::Nat(0)),
        if_zero: Box::new(AST::Nat(42)),
        if_succ: Box::new(AST::Add(
            Box::new(AST::Nat(1)),
            Box::new(AST::Var("x".to_string())),
        )),
    };
    let term = rec.desugar(&Module::new_with_prelude()).multistep();
    assert_eq!(term, numeral(42));
}

#[test]
fn test_rec_factorial() {
    // factorial 3 using rec(n, 1, fun x acc => n * acc)
    let rec = AST::Rec {
        scrutinee: Box::new(AST::Nat(3)),
        if_zero: Box::new(AST::Nat(1)),
        if_succ: Box::new(AST::Mul(
            Box::new(AST::Var("x".to_string())), // n
            Box::new(AST::Var("y".to_string())), // result of recursive call
        )),
    };
    // For now we just check that evaluation doesn't crash
    let term = rec.desugar(&Module::new_with_prelude()).multistep();
    println!("Rec factorial result: {:?}", term);
}

fn lit(n: u64) -> Box<AST> {
    Box::new(AST::Nat(n))
}

#[test]
fn add_of_literals_is_their_sum() {
    assert_eq!(eval(AST::Add(lit(2), lit(3))), numeral(5));
    assert_eq!(eval(AST::Add(lit(0), lit(4))), numeral(4));
    assert_eq!(eval(AST::Add(lit(4), lit(0))), numeral(4));
}

#[test]
fn mul_of_literals_is_their_product() {
    assert_eq!(eval(AST::Mul(lit(4), lit(3))), numeral(12));
    assert_eq!(eval(AST::Mul(lit(0), lit(5))), numeral(0));
    assert_eq!(eval(AST::Mul(lit(5), lit(0))), numeral(0));
}

#[test]
fn sub_truncates_at_zero() {
    assert_eq!(eval(AST::Sub(lit(5), lit(3))), numeral(2));
    assert_eq!(eval(AST::Sub(lit(3), lit(5))), numeral(0));
}

#[test]
fn comparisons_of_literals() {
    assert_eq!(eval(AST::Le(lit(2), lit(3))), Term::True);
    assert_eq!(eval(AST::Le(lit(3), lit(2))), Term::False);
    assert_eq!(eval(AST::Lt(lit(2), lit(2))), Term::False);
    assert_eq!(eval(AST::Lt(lit(1), lit(2))), Term::True);
    assert_eq!(eval(AST::Ge(lit(2), lit(2))), Term::True);
    assert_eq!(eval(AST::Gt(lit(2), lit(2))), Term::False);
    assert_eq!(eval(AST::Gt(lit(3), lit(2))), Term::True);
    assert_eq!(eval(AST::Eq(lit(2), lit(2))), Term::True);
    assert_eq!(eval(AST::Eq(lit(2), lit(3))), Term::False);
    assert_eq!(eval(AST::Neq(lit(2), lit(3))), Term::True);
    assert_eq!(eval(AST::Neq(lit(3), lit(3))), Term::False);
}

#[test]
fn boolean_connectives_truth_tables() {
    let b = |v: bool| Box::new(if v { AST::True } else { AST::False });
    let t = |v: bool| if v { Term::True } else { Term::False };
    for p in [false, true] {
        assert_eq!(eval(AST::Not(b(p))), t(!p));
        for q in [false, true] {
            assert_eq!(eval(AST::And(b(p), b(q))), t(p && q));
            assert_eq!(eval(AST::Or(b(p), b(q))), t(p || q));
        }
    }
}

#[test]
fn conditional_picks_a_branch() {
    let e = AST::Ite {
        cond: Box::new(AST::Lt(lit(1), lit(2))),
        if_true: lit(10),
        if_false: lit(20),
    };
    assert_eq!(eval(e), numeral(10));
}

#[test]
fn names_are_looked_up_in_the_module() {
    let mut module = Module::new_with_prelude();
    module.declare("three".to_string(), numeral(3));
    let e = AST::App(
        Box::new(AST::App(
            Box::new(AST::Name("plus".to_string())),
            Box::new(AST::Name("three".to_string())),
        )),
        lit(1),
    );
    assert_eq!(e.desugar(&module).multistep(), numeral(4));
}

#[test]
fn lambda_application_evaluates() {
    // (fun x => x + 1) 2
    let f = AST::Abs {
        var: "x".to_string(),
        body: Box::new(AST::Add(Box::new(AST::Var("x".to_string())), lit(1))),
    };
    let e = AST::App(Box::new(f), lit(2));
    assert_eq!(eval(e).to_string(), "3");
}

#[test]
fn desugar_of_literal_and_zero() {
    let module = Module::new();
    assert_eq!(AST::Nat(3).desugar(&module), numeral(3));
    assert_eq!(AST::Zero.desugar(&module), Term::Zero);
    assert_eq!(
        AST::Succ(Box::new(AST::Zero)).desugar(&module),
        Term::Succ(Box::new(Term::Zero))
    );
}
