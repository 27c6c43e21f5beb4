//! The preprocessor: static validation of a parsed grammar. Three passes run
//! in fixed order and fail fast: duplicate rule names, undefined nonterminal
//! references, and left-recursive cycles.

use vstd::prelude::*;
use vstd::seq_lib::seq_to_set_is_finite;

use crate::ast::{
    eq_str, exprs_view, grammar_view, lemma_exprs_view_index, lemma_exprs_view_len, sexpr_view,
    sproduction_view, strings_view, Expression, ExprV, Grammar, GrammarV, Production, Spanned,
};
use crate::checker::{
    eval_alts, eval_expr, eval_factor, eval_prod, eval_repeat, eval_seq, lookup_from, lookup_rule,
    Outcome,
};

verus! {

broadcast use {seq_to_set_is_finite, lemma_exprs_view_len, lemma_exprs_view_index};

/// A validation error, carrying the offending name or left-recursive chain.
#[derive(Debug, PartialEq)]
pub enum PreprocessError {
    /// The name appears as the left-hand side of more than one production.
    MultipleDefinitions(String),
    /// The name is referenced but no production defines it.
    UndefinedRule(String),
    /// The chain of rule names along which the first rule reaches itself
    /// leftmost.
    LeftRecursion(Vec<String>),
}

/// The mathematical value of a validation error.
pub ghost enum PreprocessErrorV {
    MultipleDefinitions(Seq<char>),
    UndefinedRule(Seq<char>),
    LeftRecursion(Seq<Seq<char>>),
}

pub open spec fn preprocess_error_view(e: PreprocessError) -> PreprocessErrorV {
    match e {
        PreprocessError::MultipleDefinitions(s) => PreprocessErrorV::MultipleDefinitions(s@),
        PreprocessError::UndefinedRule(s) => PreprocessErrorV::UndefinedRule(s@),
        PreprocessError::LeftRecursion(vs) => PreprocessErrorV::LeftRecursion(strings_view(vs@)),
    }
}

pub open spec fn spreprocess_error_view(e: Spanned<PreprocessError>) -> Spanned<PreprocessErrorV> {
    Spanned { node: preprocess_error_view(e.node), span: e.span }
}

/// The left-hand-side names of all productions, in grammar order.
pub open spec fn rule_names(g: GrammarV) -> Seq<Seq<char>> {
    Seq::new(g.productions.len(), |i: int| g.productions[i].node.lhs.node)
}

/// How many rule names are not yet on the trace: the measure that shrinks
/// whenever a walk descends into a not-yet-visited production.
pub open spec fn free_rules(g: GrammarV, trace: Seq<Seq<char>>) -> nat {
    rule_names(g).to_set().difference(trace.to_set()).len()
}

pub proof fn lemma_lookup_in_names(g: GrammarV, i: int, name: Seq<char>)
    requires
        lookup_from(g, i, name) is Some,
    ensures
        rule_names(g).to_set().contains(name),
    decreases g.productions.len() - i,
{
    if 0 <= i < g.productions.len() {
        if g.productions[i].node.lhs.node == name {
            assert(rule_names(g)[i] == name);
            assert(rule_names(g).contains(name));
        } else {
            lemma_lookup_in_names(g, i + 1, name);
        }
    }
}

pub proof fn lemma_free_rules_decreases(g: GrammarV, trace: Seq<Seq<char>>, name: Seq<char>)
    requires
        lookup_rule(g, name) is Some,
        !trace.contains(name),
    ensures
        free_rules(g, trace.push(name)) < free_rules(g, trace),
{
    lemma_lookup_in_names(g, 0, name);
    let all = rule_names(g).to_set();
    let before = all.difference(trace.to_set());
    let after = all.difference(trace.push(name).to_set());
    assert forall|x: Seq<char>| trace.push(name).contains(x) implies trace.contains(x) || x
        == name by {
        let i = choose|i: int| 0 <= i < trace.push(name).len() && trace.push(name)[i] == x;
        if i < trace.len() {
            assert(trace[i] == x);
        }
    }
    assert forall|x: Seq<char>| trace.contains(x) implies trace.push(name).contains(x) by {
        let i = choose|i: int| 0 <= i < trace.len() && trace[i] == x;
        assert(trace.push(name)[i] == x);
    }
    assert(trace.push(name).contains(name)) by {
        assert(trace.push(name)[trace.len() as int] == name);
    }
    assert(after =~= before.remove(name));
    assert(before.finite());
    assert(before.contains(name));
    assert(before.remove(name).len() == before.len() - 1);
}

/// May the expression match without consuming input? `true` for constructs
/// that can stand for the empty string. A nonterminal is resolved through its
/// own definition, guarded by the trace; a name already visited, or not
/// defined, counts as consuming.
pub open spec fn spec_is_failing(g: GrammarV, e: Spanned<ExprV>, trace: Seq<Seq<char>>) -> bool
    decreases free_rules(g, trace), e, 0int,
{
    match e.node {
        ExprV::Alternative { first, second, rest } => spec_is_failing(g, *first, trace)
            && spec_is_failing(g, *second, trace) && spec_all_failing(g, rest, 0, trace),
        ExprV::Sequence { first, second, rest } => spec_is_failing(g, *first, trace)
            && spec_is_failing(g, *second, trace) && spec_all_failing(g, rest, 0, trace),
        ExprV::Optional(_) => true,
        ExprV::Repeated(_) => true,
        ExprV::Factor { count, primary } => count.node == 0 || spec_is_failing(g, *primary, trace),
        ExprV::Exception { subject, restriction } => spec_is_failing(g, *subject, trace)
            && spec_is_failing(g, *restriction, trace),
        ExprV::Nonterminal(name) => if !trace.contains(name) {
            match lookup_rule(g, name) {
                Some(rhs) => {
                    proof {
                        lemma_free_rules_decreases(g, trace, name);
                    }
                    spec_is_failing(g, rhs, trace.push(name))
                },
                None => false,
            }
        } else {
            false
        },
        ExprV::Terminal(_) => false,
        ExprV::Special(_) => false,
        ExprV::Empty => true,
    }
}

/// Are all expressions from index `i` on may-match-empty?
pub open spec fn spec_all_failing(g: GrammarV, es: Seq<Spanned<ExprV>>, i: int, trace: Seq<Seq<char>>) -> bool
    decreases free_rules(g, trace), es, es.len() - i,
{
    if i < 0 || i >= es.len() {
        true
    } else {
        spec_is_failing(g, es[i], trace) && spec_all_failing(g, es, i + 1, trace)
    }
}

/// The left-recursion walk over one expression. The trace holds the rule
/// names entered so far, seeded with the production under analysis; reaching
/// the seed again leftmost is left recursion.
pub open spec fn spec_left_rec(g: GrammarV, e: Spanned<ExprV>, trace: Seq<Seq<char>>) -> Result<(), Spanned<PreprocessErrorV>>
    decreases free_rules(g, trace), e, 0int,
{
    match e.node {
        ExprV::Alternative { first, second, rest } => match spec_left_rec(g, *first, trace) {
            Err(err) => Err(err),
            Ok(()) => match spec_left_rec(g, *second, trace) {
                Err(err) => Err(err),
                Ok(()) => spec_left_rec_all(g, rest, 0, trace),
            },
        },
        ExprV::Sequence { first, second, rest } => {
            let seed = seq![trace.last()];
            if !spec_is_failing(g, *first, seed) {
                spec_left_rec(g, *first, trace)
            } else if rest.len() == 0 {
                spec_left_rec(g, *second, trace)
            } else if !spec_is_failing(g, *second, seed) {
                spec_left_rec(g, *second, trace)
            } else {
                spec_left_rec_seq(g, rest, 0, trace)
            }
        },
        ExprV::Optional(inner) => spec_left_rec(g, *inner, trace),
        ExprV::Repeated(inner) => spec_left_rec(g, *inner, trace),
        ExprV::Factor { count, primary } => if count.node == 0 {
            Ok(())
        } else {
            spec_left_rec(g, *primary, trace)
        },
        ExprV::Exception { subject, restriction } => match spec_left_rec(g, *subject, trace) {
            Err(err) => Err(err),
            Ok(()) => spec_left_rec(g, *restriction, trace),
        },
        ExprV::Nonterminal(name) => if trace.len() > 0 && trace[0] == name {
            Err(Spanned { node: PreprocessErrorV::LeftRecursion(trace.push(name)), span: e.span })
        } else if !trace.contains(name) {
            match lookup_rule(g, name) {
                Some(rhs) => {
                    proof {
                        lemma_free_rules_decreases(g, trace, name);
                    }
                    spec_left_rec(g, rhs, trace.push(name))
                },
                None => Ok(()),
            }
        } else {
            Ok(())
        },
        ExprV::Terminal(_) => Ok(()),
        ExprV::Special(_) => Ok(()),
        ExprV::Empty => Ok(()),
    }
}

/// Walks every remaining branch of an alternative, first error wins.
pub open spec fn spec_left_rec_all(g: GrammarV, es: Seq<Spanned<ExprV>>, i: int, trace: Seq<Seq<char>>) -> Result<(), Spanned<PreprocessErrorV>>
    decreases free_rules(g, trace), es, es.len() - i,
{
    if i < 0 || i >= es.len() {
        Ok(())
    } else {
        match spec_left_rec(g, es[i], trace) {
            Err(err) => Err(err),
            Ok(()) => spec_left_rec_all(g, es, i + 1, trace),
        }
    }
}

/// Walks the later members of a sequence: the walk descends into the first
/// member that cannot match empty and stops there, or into the last member if
/// every earlier one may match empty.
pub open spec fn spec_left_rec_seq(g: GrammarV, es: Seq<Spanned<ExprV>>, i: int, trace: Seq<Seq<char>>) -> Result<(), Spanned<PreprocessErrorV>>
    decreases free_rules(g, trace), es, es.len() - i,
{
    if i < 0 || i >= es.len() {
        Ok(())
    } else if i == es.len() - 1 {
        spec_left_rec(g, es[i], trace)
    } else if !spec_is_failing(g, es[i], seq![trace.last()]) {
        spec_left_rec(g, es[i], trace)
    } else {
        spec_left_rec_seq(g, es, i + 1, trace)
    }
}

/// The undefined-reference walk: every nonterminal must name a declared rule.
pub open spec fn spec_check_nonterminals(e: Spanned<ExprV>, names: Seq<Seq<char>>) -> Result<(), Spanned<PreprocessErrorV>>
    decreases e, 0int,
{
    match e.node {
        ExprV::Alternative { first, second, rest } => match spec_check_nonterminals(*first, names) {
            Err(err) => Err(err),
            Ok(()) => match spec_check_nonterminals(*second, names) {
                Err(err) => Err(err),
                Ok(()) => spec_check_nonterminals_all(rest, 0, names),
            },
        },
        ExprV::Sequence { first, second, rest } => match spec_check_nonterminals(*first, names) {
            Err(err) => Err(err),
            Ok(()) => match spec_check_nonterminals(*second, names) {
                Err(err) => Err(err),
                Ok(()) => spec_check_nonterminals_all(rest, 0, names),
            },
        },
        ExprV::Optional(inner) => spec_check_nonterminals(*inner, names),
        ExprV::Repeated(inner) => spec_check_nonterminals(*inner, names),
        ExprV::Factor { count: _, primary } => spec_check_nonterminals(*primary, names),
        ExprV::Exception { subject, restriction } => match spec_check_nonterminals(
            *subject,
            names,
        ) {
            Err(err) => Err(err),
            Ok(()) => spec_check_nonterminals(*restriction, names),
        },
        ExprV::Nonterminal(name) => if !names.contains(name) {
            Err(Spanned { node: PreprocessErrorV::UndefinedRule(name), span: e.span })
        } else {
            Ok(())
        },
        ExprV::Terminal(_) => Ok(()),
        ExprV::Special(_) => Ok(()),
        ExprV::Empty => Ok(()),
    }
}

pub open spec fn spec_check_nonterminals_all(es: Seq<Spanned<ExprV>>, i: int, names: Seq<Seq<char>>) -> Result<(), Spanned<PreprocessErrorV>>
    decreases es, es.len() - i,
{
    if i < 0 || i >= es.len() {
        Ok(())
    } else {
        match spec_check_nonterminals(es[i], names) {
            Err(err) => Err(err),
            Ok(()) => spec_check_nonterminals_all(es, i + 1, names),
        }
    }
}

/// How often `name` occurs among the declared rule names, from index `i` on.
pub open spec fn spec_count_from(names: Seq<Seq<char>>, i: int, name: Seq<char>) -> nat
    decreases names.len() - i,
{
    if i < 0 || i >= names.len() {
        0
    } else {
        (if names[i] == name {
            1nat
        } else {
            0nat
        }) + spec_count_from(names, i + 1, name)
    }
}

/// The first production, in grammar order, whose name is declared more than
/// once.
pub open spec fn spec_first_duplicate_from(g: GrammarV, i: int) -> Result<(), Spanned<PreprocessErrorV>>
    decreases g.productions.len() - i,
{
    if i < 0 || i >= g.productions.len() {
        Ok(())
    } else if spec_count_from(rule_names(g), 0, g.productions[i].node.lhs.node) != 1 {
        Err(
            Spanned {
                node: PreprocessErrorV::MultipleDefinitions(g.productions[i].node.lhs.node),
                span: g.productions[i].node.lhs.span,
            },
        )
    } else {
        spec_first_duplicate_from(g, i + 1)
    }
}

/// The undefined-reference walk over every production, from index `i` on.
pub open spec fn spec_nonterminals_from(g: GrammarV, i: int) -> Result<(), Spanned<PreprocessErrorV>>
    decreases g.productions.len() - i,
{
    if i < 0 || i >= g.productions.len() {
        Ok(())
    } else {
        match spec_check_nonterminals(g.productions[i].node.rhs, rule_names(g)) {
            Err(err) => Err(err),
            Ok(()) => spec_nonterminals_from(g, i + 1),
        }
    }
}

/// The left-recursion walk over every production, from index `i` on, each
/// with a fresh trace holding just that production's name.
pub open spec fn spec_left_recursion_from(g: GrammarV, i: int) -> Result<(), Spanned<PreprocessErrorV>>
    decreases g.productions.len() - i,
{
    if i < 0 || i >= g.productions.len() {
        Ok(())
    } else {
        match spec_left_rec(g, g.productions[i].node.rhs, seq![g.productions[i].node.lhs.node]) {
            Err(err) => Err(err),
            Ok(()) => spec_left_recursion_from(g, i + 1),
        }
    }
}

/// The duplicate-definition pass (with a trailing reference walk, mirroring
/// the fixed pass order).
pub open spec fn spec_validate_repetitions(g: GrammarV) -> Result<(), Spanned<PreprocessErrorV>> {
    match spec_first_duplicate_from(g, 0) {
        Err(err) => Err(err),
        Ok(()) => spec_nonterminals_from(g, 0),
    }
}

pub open spec fn spec_validate_nonterminals(g: GrammarV) -> Result<(), Spanned<PreprocessErrorV>> {
    spec_nonterminals_from(g, 0)
}

pub open spec fn spec_validate_left_recursion(g: GrammarV) -> Result<(), Spanned<PreprocessErrorV>> {
    spec_left_recursion_from(g, 0)
}

/// The full validation: duplicates, then undefined references, then left
/// recursion; the first error wins.
pub open spec fn spec_preprocess(g: GrammarV) -> Result<(), Spanned<PreprocessErrorV>> {
    match spec_validate_repetitions(g) {
        Err(err) => Err(err),
        Ok(()) => match spec_validate_nonterminals(g) {
            Err(err) => Err(err),
            Ok(()) => spec_validate_left_recursion(g),
        },
    }
}

/// Does the list hold a string with exactly these characters?
fn contains_string(vs: &Vec<String>, x: &str) -> (r: bool)
    ensures
        r == strings_view(vs@).contains(x@),
{
    let n = vs.len();
    let mut i: usize = 0;
    while i < n
        invariant
            n == vs@.len(),
            0 <= i <= n,
            forall|j: int| 0 <= j < i ==> strings_view(vs@)[j] != x@,
        decreases n - i,
    {
        if eq_str(vs[i].as_str(), x) {
            assert(strings_view(vs@)[i as int] == x@);
            return true;
        }
        assert(strings_view(vs@)[i as int] == vs@[i as int]@);
        i = i + 1;
    }
    assert(!strings_view(vs@).contains(x@)) by {
        if strings_view(vs@).contains(x@) {
            let j = choose|j: int| 0 <= j < strings_view(vs@).len() && strings_view(vs@)[j] == x@;
        }
    }
    false
}

/// A fresh copy of a list of strings.
fn clone_strings(vs: &Vec<String>) -> (r: Vec<String>)
    ensures
        r@.len() == vs@.len(),
        forall|i: int| 0 <= i < vs@.len() ==> r@[i] == vs@[i],
{
    let n = vs.len();
    let mut r: Vec<String> = Vec::new();
    let mut i: usize = 0;
    while i < n
        invariant
            n == vs@.len(),
            0 <= i <= n,
            r@.len() == i,
            forall|j: int| 0 <= j < i ==> r@[j] == vs@[j],
        decreases n - i,
    {
        r.push(vs[i].clone());
        i = i + 1;
    }
    r
}

/// May the expression match without consuming input? The executable
/// counterpart of `spec_is_failing`; the trace is left as it was found.
fn is_failing(g: &Grammar, e: &Spanned<Expression>, trace: &mut Vec<String>) -> (r: bool)
    ensures
        r == spec_is_failing(grammar_view(*g), sexpr_view(*e), strings_view(old(trace)@)),
        final(trace)@ == old(trace)@,
    decreases free_rules(grammar_view(*g), strings_view(trace@)), *e, 0int,
{
    let ghost gv = grammar_view(*g);
    let ghost tv = strings_view(trace@);
    match &e.node {
        Expression::Alternative { first, second, rest } => {
            let a = is_failing(g, first, trace);
            if !a {
                return false;
            }
            let b = is_failing(g, second, trace);
            if !b {
                return false;
            }
            all_failing(g, rest, 0, trace)
        },
        Expression::Sequence { first, second, rest } => {
            let a = is_failing(g, first, trace);
            if !a {
                return false;
            }
            let b = is_failing(g, second, trace);
            if !b {
                return false;
            }
            all_failing(g, rest, 0, trace)
        },
        Expression::Optional(_) => true,
        Expression::Repeated(_) => true,
        Expression::Factor { count, primary } => {
            if count.node == 0 {
                true
            } else {
                is_failing(g, primary, trace)
            }
        },
        Expression::Exception { subject, restriction } => {
            let a = is_failing(g, subject, trace);
            if !a {
                return false;
            }
            is_failing(g, restriction, trace)
        },
        Expression::Nonterminal(identifier) => {
            if !contains_string(trace, identifier.as_str()) {
                match g.get(identifier.as_str()) {
                    Some(rhs) => {
                        trace.push(identifier.clone());
                        proof {
                            assert(strings_view(trace@) =~= tv.push(identifier@));
                            lemma_free_rules_decreases(gv, tv, identifier@);
                        }
                        let result = is_failing(g, rhs, trace);
                        let _ = trace.pop();
                        proof {
                            assert(trace@ =~= old(trace)@);
                        }
                        result
                    },
                    None => false,
                }
            } else {
                false
            }
        },
        Expression::Terminal(_) => false,
        Expression::Special(_) => false,
        Expression::Empty => true,
    }
}

/// Are all expressions from index `i` on may-match-empty?
fn all_failing(g: &Grammar, es: &Vec<Spanned<Expression>>, i: usize, trace: &mut Vec<String>) -> (r: bool)
    ensures
        r == spec_all_failing(
            grammar_view(*g),
            crate::ast::exprs_view(es@),
            i as int,
            strings_view(old(trace)@),
        ),
        final(trace)@ == old(trace)@,
    decreases free_rules(grammar_view(*g), strings_view(trace@)), es@, es@.len() - i,
{
    if i >= es.len() {
        return true;
    }
    let a = is_failing(g, &es[i], trace);
    if !a {
        return false;
    }
    all_failing(g, es, i + 1, trace)
}

/// The left-recursion walk over one expression: the executable counterpart
/// of `spec_left_rec`. On success the trace is left as it was found.
fn check_expr(g: &Grammar, e: &Spanned<Expression>, trace: &mut Vec<String>) -> (r: Result<(), Spanned<PreprocessError>>)
    requires
        old(trace)@.len() >= 1,
    ensures
        match r {
            Ok(()) => spec_left_rec(grammar_view(*g), sexpr_view(*e), strings_view(old(trace)@))
                == Ok::<(), Spanned<PreprocessErrorV>>(()) && final(trace)@ == old(trace)@,
            Err(err) => spec_left_rec(grammar_view(*g), sexpr_view(*e), strings_view(old(trace)@))
                == Err::<(), Spanned<PreprocessErrorV>>(spreprocess_error_view(err)),
        },
    decreases free_rules(grammar_view(*g), strings_view(trace@)), *e, 0int,
{
    let ghost gv = grammar_view(*g);
    let ghost tv = strings_view(trace@);
    match &e.node {
        Expression::Alternative { first, second, rest } => {
            let r1 = check_expr(g, first, trace);
            if let Err(err) = r1 {
                return Err(err);
            }
            let r2 = check_expr(g, second, trace);
            if let Err(err) = r2 {
                return Err(err);
            }
            check_expr_all(g, rest, 0, trace)
        },
        Expression::Sequence { first, second, rest } => {
            let mut seed: Vec<String> = Vec::new();
            seed.push(trace[trace.len() - 1].clone());
            proof {
                assert(strings_view(seed@) =~= seq![tv.last()]);
            }
            let first_fails = is_failing(g, first, &mut seed);
            if !first_fails {
                return check_expr(g, first, trace);
            }
            if rest.len() == 0 {
                proof {
                    assert(exprs_view(rest@).len() == rest@.len());
                    assert(first_fails == spec_is_failing(gv, sexpr_view(**first), seq![tv.last()]));
                    assert(spec_left_rec(gv, sexpr_view(*e), tv) == spec_left_rec(
                        gv,
                        sexpr_view(**second),
                        tv,
                    ));
                }
                return check_expr(g, second, trace);
            }
            let second_fails = is_failing(g, second, &mut seed);
            if !second_fails {
                return check_expr(g, second, trace);
            }
            check_expr_seq(g, rest, 0, trace, &mut seed)
        },
        Expression::Optional(inner) => check_expr(g, inner, trace),
        Expression::Repeated(inner) => check_expr(g, inner, trace),
        Expression::Factor { count, primary } => {
            if count.node == 0 {
                Ok(())
            } else {
                check_expr(g, primary, trace)
            }
        },
        Expression::Exception { subject, restriction } => {
            let r1 = check_expr(g, subject, trace);
            if let Err(err) = r1 {
                return Err(err);
            }
            check_expr(g, restriction, trace)
        },
        Expression::Nonterminal(identifier) => {
            if eq_str(trace[0].as_str(), identifier.as_str()) {
                let mut chain = clone_strings(trace);
                chain.push(identifier.clone());
                proof {
                    assert(strings_view(chain@) =~= tv.push(identifier@));
                }
                return Err(
                    Spanned {
                        node: PreprocessError::LeftRecursion(chain),
                        span: e.span,
                    },
                );
            }
            if !contains_string(trace, identifier.as_str()) {
                match g.get(identifier.as_str()) {
                    Some(rhs) => {
                        trace.push(identifier.clone());
                        proof {
                            assert(strings_view(trace@) =~= tv.push(identifier@));
                            lemma_free_rules_decreases(gv, tv, identifier@);
                        }
                        let result = check_expr(g, rhs, trace);
                        match result {
                            Ok(()) => {
                                let _ = trace.pop();
                                proof {
                                    assert(trace@ =~= old(trace)@);
                                }
                                Ok(())
                            },
                            Err(err) => Err(err),
                        }
                    },
                    None => Ok(()),
                }
            } else {
                Ok(())
            }
        },
        Expression::Terminal(_) => Ok(()),
        Expression::Special(_) => Ok(()),
        Expression::Empty => Ok(()),
    }
}

/// Walks every remaining branch of an alternative, first error wins.
fn check_expr_all(g: &Grammar, es: &Vec<Spanned<Expression>>, i: usize, trace: &mut Vec<String>) -> (r: Result<(), Spanned<PreprocessError>>)
    requires
        old(trace)@.len() >= 1,
    ensures
        match r {
            Ok(()) => spec_left_rec_all(
                grammar_view(*g),
                crate::ast::exprs_view(es@),
                i as int,
                strings_view(old(trace)@),
            ) == Ok::<(), Spanned<PreprocessErrorV>>(()) && final(trace)@ == old(trace)@,
            Err(err) => spec_left_rec_all(
                grammar_view(*g),
                crate::ast::exprs_view(es@),
                i as int,
                strings_view(old(trace)@),
            ) == Err::<(), Spanned<PreprocessErrorV>>(spreprocess_error_view(err)),
        },
    decreases free_rules(grammar_view(*g), strings_view(trace@)), es@, es@.len() - i,
{
    if i >= es.len() {
        return Ok(());
    }
    let r1 = check_expr(g, &es[i], trace);
    if let Err(err) = r1 {
        return Err(err);
    }
    check_expr_all(g, es, i + 1, trace)
}

/// Walks the later members of a sequence as `spec_left_rec_seq` prescribes.
/// The seed vector holds exactly the production under analysis.
fn check_expr_seq(g: &Grammar, es: &Vec<Spanned<Expression>>, i: usize, trace: &mut Vec<String>, seed: &mut Vec<String>) -> (r: Result<(), Spanned<PreprocessError>>)
    requires
        old(trace)@.len() >= 1,
        i < es@.len(),
        strings_view(old(seed)@) == seq![strings_view(old(trace)@).last()],
    ensures
        match r {
            Ok(()) => spec_left_rec_seq(
                grammar_view(*g),
                crate::ast::exprs_view(es@),
                i as int,
                strings_view(old(trace)@),
            ) == Ok::<(), Spanned<PreprocessErrorV>>(()) && final(trace)@ == old(trace)@,
            Err(err) => spec_left_rec_seq(
                grammar_view(*g),
                crate::ast::exprs_view(es@),
                i as int,
                strings_view(old(trace)@),
            ) == Err::<(), Spanned<PreprocessErrorV>>(spreprocess_error_view(err)),
        },
    decreases free_rules(grammar_view(*g), strings_view(trace@)), es@, es@.len() - i,
{
    if i == es.len() - 1 {
        return check_expr(g, &es[i], trace);
    }
    let fails = is_failing(g, &es[i], seed);
    if !fails {
        return check_expr(g, &es[i], trace);
    }
    check_expr_seq(g, es, i + 1, trace, seed)
}

/// The left-hand-side names of all productions, in order.
fn get_rule_identifiers(rules: &Vec<Spanned<Production>>) -> (r: Vec<String>)
    ensures
        r@.len() == rules@.len(),
        forall|i: int| 0 <= i < rules@.len() ==> r@[i]@ == rules@[i].node.lhs.node@,
{
    let n = rules.len();
    let mut r: Vec<String> = Vec::new();
    let mut i: usize = 0;
    while i < n
        invariant
            n == rules@.len(),
            0 <= i <= n,
            r@.len() == i,
            forall|j: int| 0 <= j < i ==> r@[j]@ == rules@[j].node.lhs.node@,
        decreases n - i,
    {
        r.push(rules[i].node.lhs.node.clone());
        i = i + 1;
    }
    r
}

/// How often `name` occurs in the list.
fn count_occurrences(names: &Vec<String>, name: &str) -> (r: usize)
    ensures
        r as nat == spec_count_from(strings_view(names@), 0, name@),
{
    let ghost nv = strings_view(names@);
    let n = names.len();
    let mut count: usize = 0;
    let mut i: usize = 0;
    while i < n
        invariant
            n == names@.len(),
            nv == strings_view(names@),
            0 <= i <= n,
            count <= i,
            count as nat + spec_count_from(nv, i as int, name@) == spec_count_from(nv, 0, name@),
        decreases n - i,
    {
        assert(nv[i as int] == names@[i as int]@);
        if eq_str(names[i].as_str(), name) {
            count = count + 1;
        }
        i = i + 1;
    }
    count
}

/// The undefined-reference walk: the executable counterpart of
/// `spec_check_nonterminals`.
fn check_nonterminals(e: &Spanned<Expression>, rules: &Vec<String>) -> (r: Result<(), Spanned<PreprocessError>>)
    ensures
        match r {
            Ok(()) => spec_check_nonterminals(sexpr_view(*e), strings_view(rules@))
                == Ok::<(), Spanned<PreprocessErrorV>>(()),
            Err(err) => spec_check_nonterminals(sexpr_view(*e), strings_view(rules@))
                == Err::<(), Spanned<PreprocessErrorV>>(spreprocess_error_view(err)),
        },
    decreases *e, 0int,
{
    match &e.node {
        Expression::Alternative { first, second, rest } => {
            let r1 = check_nonterminals(first, rules);
            if let Err(err) = r1 {
                return Err(err);
            }
            let r2 = check_nonterminals(second, rules);
            if let Err(err) = r2 {
                return Err(err);
            }
            check_nonterminals_all(rest, 0, rules)
        },
        Expression::Sequence { first, second, rest } => {
            let r1 = check_nonterminals(first, rules);
            if let Err(err) = r1 {
                return Err(err);
            }
            let r2 = check_nonterminals(second, rules);
            if let Err(err) = r2 {
                return Err(err);
            }
            check_nonterminals_all(rest, 0, rules)
        },
        Expression::Optional(inner) => check_nonterminals(inner, rules),
        Expression::Repeated(inner) => check_nonterminals(inner, rules),
        Expression::Factor { count: _, primary } => check_nonterminals(primary, rules),
        Expression::Exception { subject, restriction } => {
            let r1 = check_nonterminals(subject, rules);
            if let Err(err) = r1 {
                return Err(err);
            }
            check_nonterminals(restriction, rules)
        },
        Expression::Nonterminal(identifier) => {
            if !contains_string(rules, identifier.as_str()) {
                Err(
                    Spanned {
                        node: PreprocessError::UndefinedRule(identifier.clone()),
                        span: e.span,
                    },
                )
            } else {
                Ok(())
            }
        },
        Expression::Terminal(_) => Ok(()),
        Expression::Special(_) => Ok(()),
        Expression::Empty => Ok(()),
    }
}

/// The duplicate-definition pass, followed by the reference walk, mirroring
/// the fixed pass order.
pub fn validate_repetitions(grammar: &Spanned<Grammar>) -> (r: Result<(), Spanned<PreprocessError>>)
    ensures
        match r {
            Ok(()) => spec_validate_repetitions(grammar_view(grammar.node)) == Ok::<
                (),
                Spanned<PreprocessErrorV>,
            >(()),
            Err(err) => spec_validate_repetitions(grammar_view(grammar.node)) == Err::<
                (),
                Spanned<PreprocessErrorV>,
            >(spreprocess_error_view(err)),
        },
{
    let ghost gv = grammar_view(grammar.node);
    let rules = get_rule_identifiers(&grammar.node.productions);
    proof {
        assert(strings_view(rules@) =~= rule_names(gv));
    }
    let n = grammar.node.productions.len();
    let mut i: usize = 0;
    while i < n
        invariant
            n == grammar.node.productions@.len(),
            gv == grammar_view(grammar.node),
            strings_view(rules@) == rule_names(gv),
            0 <= i <= n,
            spec_first_duplicate_from(gv, 0) == spec_first_duplicate_from(gv, i as int),
        decreases n - i,
    {
        let p = &grammar.node.productions[i];
        proof {
            assert(gv.productions[i as int] == sproduction_view(grammar.node.productions@[i as int]));
        }
        let c = count_occurrences(&rules, p.node.lhs.node.as_str());
        if c != 1 {
            return Err(
                Spanned {
                    node: PreprocessError::MultipleDefinitions(p.node.lhs.node.clone()),
                    span: p.node.lhs.span,
                },
            );
        }
        i = i + 1;
    }
    let mut j: usize = 0;
    while j < n
        invariant
            n == grammar.node.productions@.len(),
            gv == grammar_view(grammar.node),
            strings_view(rules@) == rule_names(gv),
            0 <= j <= n,
            spec_first_duplicate_from(gv, 0) == Ok::<(), Spanned<PreprocessErrorV>>(()),
            spec_nonterminals_from(gv, 0) == spec_nonterminals_from(gv, j as int),
        decreases n - j,
    {
        proof {
            assert(gv.productions[j as int] == sproduction_view(grammar.node.productions@[j as int]));
        }
        let r1 = check_nonterminals(&grammar.node.productions[j].node.rhs, &rules);
        if let Err(err) = r1 {
            return Err(err);
        }
        j = j + 1;
    }
    Ok(())
}

/// The undefined-reference pass over every production.
pub fn validate_nonterminals(grammar: &Spanned<Grammar>) -> (r: Result<(), Spanned<PreprocessError>>)
    ensures
        match r {
            Ok(()) => spec_validate_nonterminals(grammar_view(grammar.node)) == Ok::<
                (),
                Spanned<PreprocessErrorV>,
            >(()),
            Err(err) => spec_validate_nonterminals(grammar_view(grammar.node)) == Err::<
                (),
                Spanned<PreprocessErrorV>,
            >(spreprocess_error_view(err)),
        },
{
    let ghost gv = grammar_view(grammar.node);
    let rules = get_rule_identifiers(&grammar.node.productions);
    proof {
        assert(strings_view(rules@) =~= rule_names(gv));
    }
    let n = grammar.node.productions.len();
    let mut j: usize = 0;
    while j < n
        invariant
            n == grammar.node.productions@.len(),
            gv == grammar_view(grammar.node),
            strings_view(rules@) == rule_names(gv),
            0 <= j <= n,
            spec_nonterminals_from(gv, 0) == spec_nonterminals_from(gv, j as int),
        decreases n - j,
    {
        proof {
            assert(gv.productions[j as int] == sproduction_view(grammar.node.productions@[j as int]));
        }
        let r1 = check_nonterminals(&grammar.node.productions[j].node.rhs, &rules);
        if let Err(err) = r1 {
            return Err(err);
        }
        j = j + 1;
    }
    Ok(())
}

/// The left-recursion pass: every production is traced from a fresh trace
/// holding just its own name, in grammar order.
pub fn validate_left_recursion(grammar: &Spanned<Grammar>) -> (r: Result<(), Spanned<PreprocessError>>)
    ensures
        match r {
            Ok(()) => spec_validate_left_recursion(grammar_view(grammar.node)) == Ok::<
                (),
                Spanned<PreprocessErrorV>,
            >(()),
            Err(err) => spec_validate_left_recursion(grammar_view(grammar.node)) == Err::<
                (),
                Spanned<PreprocessErrorV>,
            >(spreprocess_error_view(err)),
        },
{
    let ghost gv = grammar_view(grammar.node);
    let n = grammar.node.productions.len();
    let mut i: usize = 0;
    while i < n
        invariant
            n == grammar.node.productions@.len(),
            gv == grammar_view(grammar.node),
            0 <= i <= n,
            spec_left_recursion_from(gv, 0) == spec_left_recursion_from(gv, i as int),
        decreases n - i,
    {
        let p = &grammar.node.productions[i];
        proof {
            assert(gv.productions[i as int] == sproduction_view(grammar.node.productions@[i as int]));
        }
        let mut trace: Vec<String> = Vec::new();
        trace.push(p.node.lhs.node.clone());
        proof {
            assert(strings_view(trace@) =~= seq![gv.productions[i as int].node.lhs.node]);
        }
        let r1 = check_expr(&grammar.node, &p.node.rhs, &mut trace);
        if let Err(err) = r1 {
            return Err(err);
        }
        i = i + 1;
    }
    Ok(())
}

/// The full validation: duplicate names, then undefined references, then left
/// recursion, fail-fast; a valid grammar passes through unchanged.
pub fn preprocess(spanned_grammar: Spanned<Grammar>) -> (r: Result<Spanned<Grammar>, Spanned<PreprocessError>>)
    ensures
        match r {
            Ok(out) => spec_preprocess(grammar_view(spanned_grammar.node)) == Ok::<
                (),
                Spanned<PreprocessErrorV>,
            >(()) && out == spanned_grammar,
            Err(err) => spec_preprocess(grammar_view(spanned_grammar.node)) == Err::<
                (),
                Spanned<PreprocessErrorV>,
            >(spreprocess_error_view(err)),
        },
{
    let r1 = validate_repetitions(&spanned_grammar);
    if let Err(err) = r1 {
        return Err(err);
    }
    let r2 = validate_nonterminals(&spanned_grammar);
    if let Err(err) = r2 {
        return Err(err);
    }
    let r3 = validate_left_recursion(&spanned_grammar);
    if let Err(err) = r3 {
        return Err(err);
    }
    Ok(spanned_grammar)
}

fn check_nonterminals_all(es: &Vec<Spanned<Expression>>, i: usize, rules: &Vec<String>) -> (r: Result<(), Spanned<PreprocessError>>)
    ensures
        match r {
            Ok(()) => spec_check_nonterminals_all(
                crate::ast::exprs_view(es@),
                i as int,
                strings_view(rules@),
            ) == Ok::<(), Spanned<PreprocessErrorV>>(()),
            Err(err) => spec_check_nonterminals_all(
                crate::ast::exprs_view(es@),
                i as int,
                strings_view(rules@),
            ) == Err::<(), Spanned<PreprocessErrorV>>(spreprocess_error_view(err)),
        },
    decreases es@, es@.len() - i,
{
    if i >= es.len() {
        return Ok(());
    }
    let r1 = check_nonterminals(&es[i], rules);
    if let Err(err) = r1 {
        return Err(err);
    }
    check_nonterminals_all(es, i + 1, rules)
}


proof fn lemma_contains_implies_lookup(g: GrammarV, i: int, name: Seq<char>)
    requires
        0 <= i,
        exists|j: int| i <= j < g.productions.len() && rule_names(g)[j] == name,
    ensures
        lookup_from(g, i, name) is Some,
    decreases g.productions.len() - i,
{
    let j = choose|j: int| i <= j < g.productions.len() && rule_names(g)[j] == name;
    if g.productions[i].node.lhs.node != name {
        assert(rule_names(g)[i] == g.productions[i].node.lhs.node);
        assert(i + 1 <= j < g.productions.len() && rule_names(g)[j] == name);
        lemma_contains_implies_lookup(g, i + 1, name);
    }
}

proof fn lemma_lookup_names_a_production(g: GrammarV, i: int, name: Seq<char>)
    requires
        lookup_from(g, i, name) is Some,
        0 <= i,
    ensures
        exists|j: int| i <= j < g.productions.len() && lookup_from(g, i, name) == Some(
            g.productions[j].node.rhs,
        ),
    decreases g.productions.len() - i,
{
    if i < g.productions.len() {
        if g.productions[i].node.lhs.node == name {
            assert(lookup_from(g, i, name) == Some(g.productions[i].node.rhs));
        } else {
            lemma_lookup_names_a_production(g, i + 1, name);
        }
    }
}

proof fn lemma_nonterminals_from_covers(g: GrammarV, i: int, j: int)
    requires
        spec_nonterminals_from(g, i) is Ok,
        0 <= i <= j < g.productions.len(),
    ensures
        spec_check_nonterminals(g.productions[j].node.rhs, rule_names(g)) is Ok,
    decreases j - i,
{
    if i < j {
        lemma_nonterminals_from_covers(g, i + 1, j);
    }
}

/// Recognition in a grammar whose references all resolve never reaches an
/// undefined rule, whatever the input, position and budget.
pub proof fn lemma_validated_no_missing_rule(g: GrammarV, e: Spanned<ExprV>, input: Seq<char>, pos: nat, fuel: nat)
    requires
        spec_check_nonterminals(e, rule_names(g)) is Ok,
        spec_validate_nonterminals(g) is Ok,
    ensures
        !(eval_expr(g, e, input, pos, fuel) is MissingRule),
    decreases fuel, 1int,
{
    if fuel == 0 {
        // exhausted budgets abort; there is nothing to show
    } else {
        let f = (fuel - 1) as nat;
        match e.node {
        ExprV::Alternative { first, second, rest } => {
            lemma_validated_no_missing_rule(g, *first, input, pos, f);
            if eval_expr(g, *first, input, pos, f) is NoMatch {
                lemma_validated_no_missing_rule(g, *second, input, pos, f);
                if eval_expr(g, *second, input, pos, f) is NoMatch {
                    lemma_validated_no_missing_rule_alts(g, rest, 0, input, pos, f);
                }
            }
        },
        ExprV::Sequence { first, second, rest } => {
            lemma_validated_no_missing_rule(g, *first, input, pos, f);
            if let Outcome::Matched { pos: p1, children: _ } = eval_expr(g, *first, input, pos, f) {
                lemma_validated_no_missing_rule(g, *second, input, p1, f);
                if let Outcome::Matched { pos: p2, children: _ } = eval_expr(g, *second, input, p1, f) {
                    lemma_validated_no_missing_rule_seq(g, rest, 0, input, p2, f);
                }
            }
        },
        ExprV::Optional(inner) => {
            lemma_validated_no_missing_rule(g, *inner, input, pos, f);
        },
        ExprV::Repeated(inner) => {
            lemma_validated_no_missing_rule_repeat(g, *inner, input, pos, f);
        },
        ExprV::Factor { count, primary } => {
            lemma_validated_no_missing_rule_factor(g, *primary, count.node, input, pos, f);
        },
        ExprV::Exception { subject, restriction } => {
            lemma_validated_no_missing_rule(g, *subject, input, pos, f);
            if let Outcome::Matched { pos: p1, children: _ } = eval_expr(g, *subject, input, pos, f) {
                let consumed = input.subrange(pos as int, p1 as int);
                lemma_validated_no_missing_rule(g, *restriction, consumed, 0, f);
            }
        },
            ExprV::Nonterminal(name) => {
                lemma_validated_no_missing_rule_prod(g, name, input, pos, f);
            },
            ExprV::Terminal(_) => {},
            ExprV::Special(_) => {},
            ExprV::Empty => {},
        }
    }
}

proof fn lemma_validated_no_missing_rule_alts(g: GrammarV, es: Seq<Spanned<ExprV>>, i: int, input: Seq<char>, pos: nat, fuel: nat)
    requires
        spec_check_nonterminals_all(es, i, rule_names(g)) is Ok,
        spec_validate_nonterminals(g) is Ok,
    ensures
        !(eval_alts(g, es, i, input, pos, fuel) is MissingRule),
    decreases fuel, 0int,
{
    let f = (fuel - 1) as nat;
    if fuel > 0 && 0 <= i < es.len() {
        lemma_validated_no_missing_rule(g, es[i], input, pos, f);
        if eval_expr(g, es[i], input, pos, f) is NoMatch {
            lemma_validated_no_missing_rule_alts(g, es, i + 1, input, pos, f);
        }
    }
}

proof fn lemma_validated_no_missing_rule_seq(g: GrammarV, es: Seq<Spanned<ExprV>>, i: int, input: Seq<char>, pos: nat, fuel: nat)
    requires
        spec_check_nonterminals_all(es, i, rule_names(g)) is Ok,
        spec_validate_nonterminals(g) is Ok,
    ensures
        !(eval_seq(g, es, i, input, pos, fuel) is MissingRule),
    decreases fuel, 0int,
{
    let f = (fuel - 1) as nat;
    if fuel > 0 && 0 <= i < es.len() {
        lemma_validated_no_missing_rule(g, es[i], input, pos, f);
        if let Outcome::Matched { pos: p1, children: _ } = eval_expr(g, es[i], input, pos, f) {
            lemma_validated_no_missing_rule_seq(g, es, i + 1, input, p1, f);
        }
    }
}

proof fn lemma_validated_no_missing_rule_repeat(g: GrammarV, inner: Spanned<ExprV>, input: Seq<char>, pos: nat, fuel: nat)
    requires
        spec_check_nonterminals(inner, rule_names(g)) is Ok,
        spec_validate_nonterminals(g) is Ok,
    ensures
        !(eval_repeat(g, inner, input, pos, fuel) is MissingRule),
    decreases fuel, 0int,
{
    let f = (fuel - 1) as nat;
    if fuel > 0 {
        lemma_validated_no_missing_rule(g, inner, input, pos, f);
        if let Outcome::Matched { pos: p1, children: _ } = eval_expr(g, inner, input, pos, f) {
            lemma_validated_no_missing_rule_repeat(g, inner, input, p1, f);
        }
    }
}

proof fn lemma_validated_no_missing_rule_factor(g: GrammarV, primary: Spanned<ExprV>, n: nat, input: Seq<char>, pos: nat, fuel: nat)
    requires
        spec_check_nonterminals(primary, rule_names(g)) is Ok,
        spec_validate_nonterminals(g) is Ok,
    ensures
        !(eval_factor(g, primary, n, input, pos, fuel) is MissingRule),
    decreases fuel, 0int,
{
    let f = (fuel - 1) as nat;
    if fuel > 0 && n > 0 {
        lemma_validated_no_missing_rule(g, primary, input, pos, f);
        if let Outcome::Matched { pos: p1, children: _ } = eval_expr(g, primary, input, pos, f) {
            lemma_validated_no_missing_rule_factor(g, primary, (n - 1) as nat, input, p1, f);
        }
    }
}

proof fn lemma_validated_no_missing_rule_prod(g: GrammarV, name: Seq<char>, input: Seq<char>, pos: nat, fuel: nat)
    requires
        rule_names(g).contains(name),
        spec_validate_nonterminals(g) is Ok,
    ensures
        !(eval_prod(g, name, input, pos, fuel) is MissingRule),
    decreases fuel, 0int,
{
    if fuel > 0 {
        lemma_contains_implies_lookup(g, 0, name);
        lemma_lookup_names_a_production(g, 0, name);
        let j = choose|j: int| 0 <= j < g.productions.len() && lookup_from(g, 0, name) == Some(
            g.productions[j].node.rhs,
        );
        lemma_nonterminals_from_covers(g, 0, j);
        lemma_validated_no_missing_rule(
            g,
            g.productions[j].node.rhs,
            input,
            pos,
            (fuel - 1) as nat,
        );
    }
}

/// What validation buys recognition: for a grammar that passed preprocessing
/// and a declared start rule, the recognizer's interpreter never encounters
/// an undefined rule — it can only match, fail to match, or exhaust its step
/// budget, whatever the input.
pub proof fn lemma_preprocessed_grammar_recognizes_safely(g: GrammarV, rule: Seq<char>, input: Seq<char>, fuel: nat)
    requires
        spec_preprocess(g) is Ok,
        rule_names(g).contains(rule),
    ensures
        !(eval_prod(g, rule, input, 0, fuel) is MissingRule),
{
    lemma_validated_no_missing_rule_prod(g, rule, input, 0, fuel);
}

} // verus!
