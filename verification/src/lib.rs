//! An EBNF grammar toolkit: a parser that compiles a token stream into a
//! grammar syntax tree, a preprocessor that statically validates the grammar
//! (unique rule names, defined references, no left recursion), and a
//! recognizer that matches input text against a chosen rule by backtracking
//! recursive descent, producing a derivation tree.
//!
//! Every component is specified against a mathematical model of the grammar:
//! the parser against the recursive functions `parser::spec_primary` through
//! `parser::spec_parse`, the validation passes against
//! `preprocessor::spec_preprocess`, and the recognizer against the
//! step-budgeted interpreter `checker::eval_expr`. Proved laws state, among
//! others, that recognition is deterministic, stays within the input, never
//! gives back a greedily consumed repetition, and — for a grammar that passed
//! preprocessing — never encounters an undefined rule.

pub mod ast;
pub mod checker;
pub mod parser;
pub mod preprocessor;
