use vstd::prelude::*;

use crate::ast::{
    and, eq, ge, gt, is_zero, le, lt, minus, mult, neq, not, or, plus, pred, spec_and, spec_eq,
    spec_ge, spec_gt, spec_is_zero, spec_le, spec_lt, spec_minus, spec_mult, spec_neq, spec_not,
    spec_or, spec_plus, spec_pred,
};
use crate::term::{opt_view, SpecTerm, Term};

verus! {

/// The term bound to `name` by the latest declaration of it in `env`.
pub open spec fn spec_lookup(env: Seq<(Seq<char>, SpecTerm)>, name: Seq<char>) -> Option<SpecTerm>
    decreases env.len(),
{
    if env.len() == 0 {
        None
    } else if env.last().0 == name {
        Some(env.last().1)
    } else {
        spec_lookup(env.drop_last(), name)
    }
}

/// A declaration binds its name to its term, shadowing earlier declarations
/// of that name and leaving the other names as they were.
pub proof fn law_lookup_after_declare(
    env: Seq<(Seq<char>, SpecTerm)>,
    name: Seq<char>,
    t: SpecTerm,
    other: Seq<char>,
)
    requires
        other != name,
    ensures
        spec_lookup(env.push((name, t)), name) == Some(t),
        spec_lookup(env.push((name, t)), other) == spec_lookup(env, other),
{
    assert(env.push((name, t)).drop_last() =~= env);
}

/// A module: a sequence of declarations binding names to core terms; a
/// later declaration of a name shadows an earlier one.
pub struct Module {
    entries: Vec<(String, Term)>,
}

impl View for Module {
    type V = Seq<(Seq<char>, SpecTerm)>;

    closed spec fn view(&self) -> Seq<(Seq<char>, SpecTerm)> {
        self.entries@.map_values(|e: (String, Term)| (e.0@, e.1@))
    }
}

impl Module {
    /// The module with no declarations.
    pub fn new() -> (res: Module)
        ensures
            res@ == Seq::<(Seq<char>, SpecTerm)>::empty(),
    {
        let res = Module { entries: Vec::new() };
        assert(res@ =~= Seq::<(Seq<char>, SpecTerm)>::empty());
        res
    }

    /// Adds the declaration `name = term`.
    pub fn declare(&mut self, name: String, term: Term)
        ensures
            final(self)@ == old(self)@.push((name@, term@)),
    {
        let ghost before = self@;
        self.entries.push((name, term));
        assert(self@ =~= before.push((name@, term@)));
    }

    /// The term bound to `name`, if any.
    pub fn get_term(&self, name: &String) -> (res: Option<Term>)
        ensures
            opt_view(res) == spec_lookup(self@, name@),
    {
        let mut i = self.entries.len();
        assert(self@.take(i as int) =~= self@);
        while i > 0
            invariant
                i <= self.entries.len(),
                self@.len() == self.entries@.len(),
                spec_lookup(self@, name@) == spec_lookup(self@.take(i as int), name@),
            decreases i,
        {
            let entry = &self.entries[i - 1];
            assert(self@[i - 1] == (entry.0@, entry.1@));
            assert(self@.take(i as int).drop_last() =~= self@.take(i - 1));
            if entry.0 == *name {
                return Some(entry.1.clone());
            }
            i = i - 1;
        }
        None
    }

    /// The module declaring the boolean and arithmetic combinators under
    /// their names.
    pub fn new_with_prelude() -> (res: Module)
        ensures
            res@ == prelude(),
    {
        let mut m = Module::new();
        m.declare(String::from_str("and"), and());
        m.declare(String::from_str("or"), or());
        m.declare(String::from_str("not"), not());
        m.declare(String::from_str("pred"), pred());
        m.declare(String::from_str("plus"), plus());
        m.declare(String::from_str("mult"), mult());
        m.declare(String::from_str("minus"), minus());
        m.declare(String::from_str("is_zero"), is_zero());
        m.declare(String::from_str("eq"), eq());
        m.declare(String::from_str("neq"), neq());
        m.declare(String::from_str("le"), le());
        m.declare(String::from_str("lt"), lt());
        m.declare(String::from_str("ge"), ge());
        m.declare(String::from_str("gt"), gt());
        m
    }
}

/// The declarations of the prelude module.
pub open spec fn prelude() -> Seq<(Seq<char>, SpecTerm)> {
    seq![
        ("and"@, spec_and()),
        ("or"@, spec_or()),
        ("not"@, spec_not()),
        ("pred"@, spec_pred()),
        ("plus"@, spec_plus()),
        ("mult"@, spec_mult()),
        ("minus"@, spec_minus()),
        ("is_zero"@, spec_is_zero()),
        ("eq"@, spec_eq()),
        ("neq"@, spec_neq()),
        ("le"@, spec_le()),
        ("lt"@, spec_lt()),
        ("ge"@, spec_ge()),
        ("gt"@, spec_gt()),
    ]
}

} // verus!
