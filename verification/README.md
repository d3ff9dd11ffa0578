# programming_language

A small untyped lambda calculus with booleans, natural numbers and primitive
recursion, written in Verus.

- `term` — core terms (`Term`), their mathematical model (`SpecTerm`),
  substitution, numerals, structural equality and cloning.
- `ast` — the surface syntax (`AST`), the encodings of its sugar as core
  combinators (`and`, `plus`, `le`, ...), desugaring, numeral decoding and
  printing.
- `module` — named declarations that `Name` nodes are resolved against.
- `step` — head reduction (`whnf`), the individual reduction rules, the
  one-step strategy (`step`), reduction to normal form (`multistep`) and
  beta-equivalence (`beta_eq`), with the laws relating them.
- `arith`, `subtract` — proofs that the encoded connectives, arithmetic
  operators and comparisons compute what they stand for on literals.
- `types` — the simple types of the language.

Every executable function carries a contract stated over `SpecTerm`, which
Verus proves; `tests/` exercises the library on concrete terms.
