//! The recognizer: backtracking recursive-descent matching of input text
//! against a validated grammar, producing a derivation tree.
//!
//! The behaviour is defined by a step-budgeted interpreter over the grammar
//! model (`eval_expr` and its companions): every executable function returns
//! exactly what the interpreter returns. The budget makes every recognition
//! run terminate: a pathological grammar/input pairing that would drive the
//! naive algorithm into unbounded work exhausts the budget and reports no
//! match instead. The call stack remains the machine's own limit, as in any
//! recursive descent.

use vstd::prelude::*;

use crate::ast::{
    eq_str, exprs_view, grammar_view, lemma_exprs_view_index, lemma_exprs_view_len,
    lemma_nodes_view_concat, lemma_nodes_view_index, lemma_nodes_view_len, node_view, nodes_view,
    sexpr_view, sproduction_view, Expression, ExprV, Grammar, GrammarV, Node, NodeV, Span, Spanned,
};

verus! {

broadcast use {lemma_nodes_view_len, lemma_nodes_view_index, lemma_nodes_view_concat,
    lemma_exprs_view_len, lemma_exprs_view_index};

/// The step budget for one call of `check`. Each interpreter step spends one
/// unit, so recognition visits at most this many expression nodes.
pub const CHECK_FUEL: u64 = 50000000;

/// Looks the name up among the productions at index `i` and later; the first
/// match wins.
pub open spec fn lookup_from(g: GrammarV, i: int, name: Seq<char>) -> Option<Spanned<ExprV>>
    decreases g.productions.len() - i,
{
    if i < 0 || i >= g.productions.len() {
        None
    } else if g.productions[i].node.lhs.node == name {
        Some(g.productions[i].node.rhs)
    } else {
        lookup_from(g, i + 1, name)
    }
}

/// The expression a rule name denotes, if the grammar defines it.
pub open spec fn lookup_rule(g: GrammarV, name: Seq<char>) -> Option<Spanned<ExprV>> {
    lookup_from(g, 0, name)
}

/// One outcome of the interpreter: a match ending at `pos` with the
/// derivation nodes it contributed, a plain no-match, an exhausted step
/// budget, or a reference to a rule the grammar does not define (which
/// preprocessing rules out).
pub ghost enum Outcome {
    Matched { pos: nat, children: Seq<NodeV> },
    NoMatch,
    Abort,
    MissingRule,
}

/// Matches `e` against `input` from position `pos`, spending at most `fuel`
/// interpreter steps.
pub open spec fn eval_expr(g: GrammarV, e: Spanned<ExprV>, input: Seq<char>, pos: nat, fuel: nat) -> Outcome
    decreases fuel,
{
    if fuel == 0 {
        Outcome::Abort
    } else {
        let f = (fuel - 1) as nat;
        match e.node {
            ExprV::Alternative { first, second, rest } => match eval_expr(g, *first, input, pos, f) {
                Outcome::NoMatch => match eval_expr(g, *second, input, pos, f) {
                    Outcome::NoMatch => eval_alts(g, rest, 0, input, pos, f),
                    o => o,
                },
                o => o,
            },
            ExprV::Sequence { first, second, rest } => match eval_expr(g, *first, input, pos, f) {
                Outcome::Matched { pos: p1, children: c1 } => match eval_expr(g, *second, input, p1, f) {
                    Outcome::Matched { pos: p2, children: c2 } => match eval_seq(g, rest, 0, input, p2, f) {
                        Outcome::Matched { pos: p3, children: c3 } => Outcome::Matched {
                            pos: p3,
                            children: c1 + c2 + c3,
                        },
                        o => o,
                    },
                    o => o,
                },
                o => o,
            },
            ExprV::Optional(inner) => match eval_expr(g, *inner, input, pos, f) {
                Outcome::NoMatch => Outcome::Matched { pos, children: Seq::empty() },
                o => o,
            },
            ExprV::Repeated(inner) => eval_repeat(g, *inner, input, pos, f),
            ExprV::Factor { count, primary } => eval_factor(g, *primary, count.node, input, pos, f),
            ExprV::Exception { subject, restriction } => match eval_expr(g, *subject, input, pos, f) {
                Outcome::Matched { pos: p1, children: c1 } => {
                    let consumed = input.subrange(pos as int, p1 as int);
                    match eval_expr(g, *restriction, consumed, 0, f) {
                        Outcome::Matched { pos: p2, children: _ } => if p2 == consumed.len() {
                            Outcome::NoMatch
                        } else {
                            Outcome::Matched { pos: p1, children: c1 }
                        },
                        Outcome::NoMatch => Outcome::Matched { pos: p1, children: c1 },
                        o => o,
                    }
                },
                o => o,
            },
            ExprV::Nonterminal(name) => match eval_prod(g, name, input, pos, f) {
                Outcome::Matched { pos: p1, children } => Outcome::Matched {
                    pos: p1,
                    children: seq![NodeV::Nonterminal(name, children)],
                },
                o => o,
            },
            ExprV::Terminal(text) => if pos + text.len() <= input.len() && input.subrange(
                pos as int,
                pos + text.len() as int,
            ) == text {
                Outcome::Matched {
                    pos: (pos + text.len()) as nat,
                    children: seq![NodeV::Terminal(text)],
                }
            } else {
                Outcome::NoMatch
            },
            ExprV::Special(_) => Outcome::NoMatch,
            ExprV::Empty => Outcome::Matched { pos, children: Seq::empty() },
        }
    }
}

/// Tries the remaining branches of an alternative, in order; the first
/// success wins.
pub open spec fn eval_alts(g: GrammarV, rest: Seq<Spanned<ExprV>>, i: int, input: Seq<char>, pos: nat, fuel: nat) -> Outcome
    decreases fuel,
{
    if fuel == 0 {
        Outcome::Abort
    } else {
        let f = (fuel - 1) as nat;
        if i < 0 || i >= rest.len() {
            Outcome::NoMatch
        } else {
            match eval_expr(g, rest[i], input, pos, f) {
                Outcome::NoMatch => eval_alts(g, rest, i + 1, input, pos, f),
                o => o,
            }
        }
    }
}

/// Matches the remaining members of a sequence, left to right, concatenating
/// their children; any member failing fails the whole sequence.
pub open spec fn eval_seq(g: GrammarV, rest: Seq<Spanned<ExprV>>, i: int, input: Seq<char>, pos: nat, fuel: nat) -> Outcome
    decreases fuel,
{
    if fuel == 0 {
        Outcome::Abort
    } else {
        let f = (fuel - 1) as nat;
        if i < 0 || i >= rest.len() {
            Outcome::Matched { pos, children: Seq::empty() }
        } else {
            match eval_expr(g, rest[i], input, pos, f) {
                Outcome::Matched { pos: p1, children: c1 } => match eval_seq(g, rest, i + 1, input, p1, f) {
                    Outcome::Matched { pos: p2, children: c2 } => Outcome::Matched {
                        pos: p2,
                        children: c1 + c2,
                    },
                    o => o,
                },
                o => o,
            }
        }
    }
}

/// Matches the inner expression greedily until it fails; the failing final
/// attempt consumes nothing, and already-consumed iterations are never
/// revisited.
pub open spec fn eval_repeat(g: GrammarV, inner: Spanned<ExprV>, input: Seq<char>, pos: nat, fuel: nat) -> Outcome
    decreases fuel,
{
    if fuel == 0 {
        Outcome::Abort
    } else {
        let f = (fuel - 1) as nat;
        match eval_expr(g, inner, input, pos, f) {
            Outcome::NoMatch => Outcome::Matched { pos, children: Seq::empty() },
            Outcome::Matched { pos: p1, children: c1 } => match eval_repeat(g, inner, input, p1, f) {
                Outcome::Matched { pos: p2, children: c2 } => Outcome::Matched {
                    pos: p2,
                    children: c1 + c2,
                },
                o => o,
            },
            o => o,
        }
    }
}

/// Matches the primary exactly `n` times in strict sequence; any iteration
/// failing fails the whole construct.
pub open spec fn eval_factor(g: GrammarV, primary: Spanned<ExprV>, n: nat, input: Seq<char>, pos: nat, fuel: nat) -> Outcome
    decreases fuel,
{
    if fuel == 0 {
        Outcome::Abort
    } else {
        let f = (fuel - 1) as nat;
        if n == 0 {
            Outcome::Matched { pos, children: Seq::empty() }
        } else {
            match eval_expr(g, primary, input, pos, f) {
                Outcome::Matched { pos: p1, children: c1 } => match eval_factor(g, primary, (n - 1) as nat, input, p1, f) {
                    Outcome::Matched { pos: p2, children: c2 } => Outcome::Matched {
                        pos: p2,
                        children: c1 + c2,
                    },
                    o => o,
                },
                o => o,
            }
        }
    }
}

/// Matches the named production's right-hand side; a name the grammar does
/// not define stops recognition (it cannot occur after preprocessing).
pub open spec fn eval_prod(g: GrammarV, name: Seq<char>, input: Seq<char>, pos: nat, fuel: nat) -> Outcome
    decreases fuel,
{
    if fuel == 0 {
        Outcome::Abort
    } else {
        match lookup_rule(g, name) {
            None => Outcome::MissingRule,
            Some(rhs) => eval_expr(g, rhs, input, pos, (fuel - 1) as nat),
        }
    }
}

/// Whole-input recognition: the rule must match a prefix that consumes the
/// entire input; anything else, including an exhausted step budget, is no
/// match.
pub open spec fn spec_check(g: GrammarV, input: Seq<char>, rule: Seq<char>, fuel: nat) -> Option<NodeV> {
    match eval_prod(g, rule, input, 0, fuel) {
        Outcome::Matched { pos, children } => if pos == input.len() {
            Some(NodeV::Nonterminal(rule, children))
        } else {
            None
        },
        _ => None,
    }
}

/// The executable counterpart of `Outcome`.
pub enum CheckOutcome {
    Matched { pos: usize, children: Vec<Node> },
    NoMatch,
    Abort,
    MissingRule,
}

pub open spec fn outcome_view(o: CheckOutcome) -> Outcome {
    match o {
        CheckOutcome::Matched { pos, children } => Outcome::Matched {
            pos: pos as nat,
            children: nodes_view(children@),
        },
        CheckOutcome::NoMatch => Outcome::NoMatch,
        CheckOutcome::Abort => Outcome::Abort,
        CheckOutcome::MissingRule => Outcome::MissingRule,
    }
}

impl Grammar {
    /// The first production named `name`, if any.
    pub fn get<'a>(&'a self, name: &str) -> (r: Option<&'a Spanned<Expression>>)
        ensures
            match r {
                Some(e) => lookup_rule(grammar_view(*self), name@) == Some(sexpr_view(*e)),
                None => lookup_rule(grammar_view(*self), name@) == None::<Spanned<ExprV>>,
            },
    {
        let ghost gv = grammar_view(*self);
        let n = self.productions.len();
        let mut i: usize = 0;
        while i < n
            invariant
                n == self.productions@.len(),
                0 <= i <= n,
                gv == grammar_view(*self),
                lookup_from(gv, 0, name@) == lookup_from(gv, i as int, name@),
            decreases n - i,
        {
            assert(gv.productions[i as int] == sproduction_view(self.productions@[i as int]));
            if eq_str(self.productions[i].node.lhs.node.as_str(), name) {
                return Some(&self.productions[i].node.rhs);
            }
            i = i + 1;
        }
        None
    }
}

/// Does `text` occur verbatim in `input` at position `pos`?
fn str_matches_at(input: &Vec<char>, pos: usize, text: &str) -> (r: bool)
    requires
        pos <= input@.len(),
    ensures
        r == (pos + text@.len() <= input@.len() && input@.subrange(
            pos as int,
            pos + text@.len(),
        ) == text@),
{
    let tl = text.unicode_len();
    let il = input.len();
    if tl > il - pos {
        return false;
    }
    let mut j: usize = 0;
    while j < tl
        invariant
            tl == text@.len(),
            il == input@.len(),
            pos + tl <= il,
            0 <= j <= tl,
            forall|k: int| 0 <= k < j ==> input@[pos + k] == text@[k],
        decreases tl - j,
    {
        let c = text.get_char(j);
        if input[pos + j] != c {
            assert(input@.subrange(pos as int, pos + text@.len()) != text@) by {
                assert(input@.subrange(pos as int, pos + text@.len())[j as int] == input@[pos + j]);
            }
            return false;
        }
        j = j + 1;
    }
    assert(input@.subrange(pos as int, pos + text@.len()) =~= text@);
    true
}

/// The characters of a string slice, in order.
fn str_to_chars(s: &str) -> (r: Vec<char>)
    ensures
        r@ == s@,
{
    let n = s.unicode_len();
    let mut r: Vec<char> = Vec::new();
    let mut i: usize = 0;
    while i < n
        invariant
            n == s@.len(),
            0 <= i <= n,
            r@ == s@.subrange(0, i as int),
        decreases n - i,
    {
        let c = s.get_char(i);
        r.push(c);
        assert(r@ =~= s@.subrange(0, i + 1));
        i = i + 1;
    }
    assert(r@ =~= s@);
    r
}

/// Matches one expression at `pos`, exactly as the interpreter does.
fn check_expr(g: &Grammar, e: &Spanned<Expression>, input: &Vec<char>, pos: usize, fuel: u64) -> (r: CheckOutcome)
    requires
        pos <= input@.len(),
    ensures
        outcome_view(r) == eval_expr(grammar_view(*g), sexpr_view(*e), input@, pos as nat, fuel as nat),
        r matches CheckOutcome::Matched { pos: p2, .. } ==> pos <= p2 <= input@.len(),
    decreases fuel, 1int,
{
    if fuel == 0 {
        return CheckOutcome::Abort;
    }
    let f = fuel - 1;
    match &e.node {
        Expression::Alternative { first, second, rest } => {
            match check_expr(g, first, input, pos, f) {
                CheckOutcome::NoMatch => {},
                o => {
                    return o;
                },
            }
            match check_expr(g, second, input, pos, f) {
                CheckOutcome::NoMatch => {},
                o => {
                    return o;
                },
            }
            check_alts(g, rest, 0, input, pos, f)
        },
        Expression::Sequence { first, second, rest } => {
            match check_expr(g, first, input, pos, f) {
                CheckOutcome::Matched { pos: p1, children: mut c1 } => {
                    match check_expr(g, second, input, p1, f) {
                        CheckOutcome::Matched { pos: p2, children: mut c2 } => {
                            match check_seq(g, rest, 0, input, p2, f) {
                                CheckOutcome::Matched { pos: p3, children: mut c3 } => {
                                    c1.append(&mut c2);
                                    c1.append(&mut c3);
                                    CheckOutcome::Matched { pos: p3, children: c1 }
                                },
                                o => o,
                            }
                        },
                        o => o,
                    }
                },
                o => o,
            }
        },
        Expression::Optional(inner) => {
            match check_expr(g, inner, input, pos, f) {
                CheckOutcome::NoMatch => CheckOutcome::Matched { pos, children: Vec::new() },
                o => o,
            }
        },
        Expression::Repeated(inner) => check_repeat(g, inner, input, pos, f),
        Expression::Factor { count, primary } => check_factor(g, primary, count.node, input, pos, f),
        Expression::Exception { subject, restriction } => {
            match check_expr(g, subject, input, pos, f) {
                CheckOutcome::Matched { pos: p1, children: c1 } => {
                    let mut consumed: Vec<char> = Vec::new();
                    let mut k: usize = pos;
                    while k < p1
                        invariant
                            pos <= k <= p1 <= input@.len(),
                            consumed@ == input@.subrange(pos as int, k as int),
                        decreases p1 - k,
                    {
                        consumed.push(input[k]);
                        assert(consumed@ =~= input@.subrange(pos as int, k + 1));
                        k = k + 1;
                    }
                    assert(consumed@ =~= input@.subrange(pos as int, p1 as int));
                    match check_expr(g, restriction, &consumed, 0, f) {
                        CheckOutcome::Matched { pos: p2, children: _ } => if p2 == consumed.len() {
                            CheckOutcome::NoMatch
                        } else {
                            CheckOutcome::Matched { pos: p1, children: c1 }
                        },
                        CheckOutcome::NoMatch => CheckOutcome::Matched { pos: p1, children: c1 },
                        o => o,
                    }
                },
                o => o,
            }
        },
        Expression::Nonterminal(identifier) => {
            match check_prod(g, identifier.as_str(), input, pos, f) {
                CheckOutcome::Matched { pos: p1, children } => {
                    let name = identifier.clone();
                    let node = Node::Nonterminal(name, children);
                    let mut one: Vec<Node> = Vec::new();
                    one.push(node);
                    assert(nodes_view(one@) =~= seq![node_view(one@[0])]);
                    CheckOutcome::Matched { pos: p1, children: one }
                },
                o => o,
            }
        },
        Expression::Terminal(content) => {
            if str_matches_at(input, pos, content.as_str()) {
                let node = Node::Terminal(content.clone());
                let mut one: Vec<Node> = Vec::new();
                one.push(node);
                assert(nodes_view(one@) =~= seq![node_view(one@[0])]);
                let len = content.as_str().unicode_len();
                let il = input.len();
                assert(pos + len <= il);
                CheckOutcome::Matched { pos: pos + len, children: one }
            } else {
                CheckOutcome::NoMatch
            }
        },
        Expression::Special(_) => CheckOutcome::NoMatch,
        Expression::Empty => CheckOutcome::Matched { pos, children: Vec::new() },
    }
}

/// Tries the remaining branches of an alternative from index `i` on.
fn check_alts(g: &Grammar, rest: &Vec<Spanned<Expression>>, i: usize, input: &Vec<char>, pos: usize, fuel: u64) -> (r: CheckOutcome)
    requires
        pos <= input@.len(),
    ensures
        outcome_view(r) == eval_alts(grammar_view(*g), exprs_view(rest@), i as int, input@, pos as nat, fuel as nat),
        r matches CheckOutcome::Matched { pos: p2, .. } ==> pos <= p2 <= input@.len(),
    decreases fuel, 0int,
{
    if fuel == 0 {
        return CheckOutcome::Abort;
    }
    let f = fuel - 1;
    if i >= rest.len() {
        return CheckOutcome::NoMatch;
    }
    match check_expr(g, &rest[i], input, pos, f) {
        CheckOutcome::NoMatch => check_alts(g, rest, i + 1, input, pos, f),
        o => o,
    }
}

/// Matches the remaining members of a sequence from index `i` on.
fn check_seq(g: &Grammar, rest: &Vec<Spanned<Expression>>, i: usize, input: &Vec<char>, pos: usize, fuel: u64) -> (r: CheckOutcome)
    requires
        pos <= input@.len(),
    ensures
        outcome_view(r) == eval_seq(grammar_view(*g), exprs_view(rest@), i as int, input@, pos as nat, fuel as nat),
        r matches CheckOutcome::Matched { pos: p2, .. } ==> pos <= p2 <= input@.len(),
    decreases fuel, 0int,
{
    if fuel == 0 {
        return CheckOutcome::Abort;
    }
    let f = fuel - 1;
    if i >= rest.len() {
        return CheckOutcome::Matched { pos, children: Vec::new() };
    }
    match check_expr(g, &rest[i], input, pos, f) {
        CheckOutcome::Matched { pos: p1, children: mut c1 } => {
            match check_seq(g, rest, i + 1, input, p1, f) {
                CheckOutcome::Matched { pos: p2, children: mut c2 } => {
                    c1.append(&mut c2);
                    CheckOutcome::Matched { pos: p2, children: c1 }
                },
                o => o,
            }
        },
        o => o,
    }
}

/// Repeats the inner expression greedily from `pos`.
fn check_repeat(g: &Grammar, inner: &Spanned<Expression>, input: &Vec<char>, pos: usize, fuel: u64) -> (r: CheckOutcome)
    requires
        pos <= input@.len(),
    ensures
        outcome_view(r) == eval_repeat(grammar_view(*g), sexpr_view(*inner), input@, pos as nat, fuel as nat),
        r matches CheckOutcome::Matched { pos: p2, .. } ==> pos <= p2 <= input@.len(),
    decreases fuel, 0int,
{
    if fuel == 0 {
        return CheckOutcome::Abort;
    }
    let f = fuel - 1;
    match check_expr(g, inner, input, pos, f) {
        CheckOutcome::NoMatch => CheckOutcome::Matched { pos, children: Vec::new() },
        CheckOutcome::Matched { pos: p1, children: mut c1 } => {
            match check_repeat(g, inner, input, p1, f) {
                CheckOutcome::Matched { pos: p2, children: mut c2 } => {
                    c1.append(&mut c2);
                    CheckOutcome::Matched { pos: p2, children: c1 }
                },
                o => o,
            }
        },
        o => o,
    }
}

/// Matches the primary exactly `n` times from `pos`.
fn check_factor(g: &Grammar, primary: &Spanned<Expression>, n: usize, input: &Vec<char>, pos: usize, fuel: u64) -> (r: CheckOutcome)
    requires
        pos <= input@.len(),
    ensures
        outcome_view(r) == eval_factor(grammar_view(*g), sexpr_view(*primary), n as nat, input@, pos as nat, fuel as nat),
        r matches CheckOutcome::Matched { pos: p2, .. } ==> pos <= p2 <= input@.len(),
    decreases fuel, 0int,
{
    if fuel == 0 {
        return CheckOutcome::Abort;
    }
    let f = fuel - 1;
    if n == 0 {
        return CheckOutcome::Matched { pos, children: Vec::new() };
    }
    match check_expr(g, primary, input, pos, f) {
        CheckOutcome::Matched { pos: p1, children: mut c1 } => {
            match check_factor(g, primary, n - 1, input, p1, f) {
                CheckOutcome::Matched { pos: p2, children: mut c2 } => {
                    c1.append(&mut c2);
                    CheckOutcome::Matched { pos: p2, children: c1 }
                },
                o => o,
            }
        },
        o => o,
    }
}

/// Matches the named production's right-hand side from `pos`.
fn check_prod(g: &Grammar, initial_rule: &str, input: &Vec<char>, pos: usize, fuel: u64) -> (r: CheckOutcome)
    requires
        pos <= input@.len(),
    ensures
        outcome_view(r) == eval_prod(grammar_view(*g), initial_rule@, input@, pos as nat, fuel as nat),
        r matches CheckOutcome::Matched { pos: p2, .. } ==> pos <= p2 <= input@.len(),
    decreases fuel, 0int,
{
    if fuel == 0 {
        return CheckOutcome::Abort;
    }
    match g.get(initial_rule) {
        None => CheckOutcome::MissingRule,
        Some(rhs) => check_expr(g, rhs, input, pos, fuel - 1),
    }
}

pub open spec fn check_result_view(r: Option<Node>) -> Option<NodeV> {
    match r {
        Some(n) => Some(node_view(n)),
        None => None,
    }
}

/// Whole-input recognition: succeeds only if `initial_rule` matches a prefix
/// that consumes the entire input, and then returns the derivation tree.
pub fn check(input: &str, grammar: &Grammar, initial_rule: &str) -> (r: Option<Node>)
    ensures
        check_result_view(r) == spec_check(grammar_view(*grammar), input@, initial_rule@, CHECK_FUEL as nat),
{
    let chars = str_to_chars(input);
    match check_prod(grammar, initial_rule, &chars, 0, CHECK_FUEL) {
        CheckOutcome::Matched { pos, children } => {
            if pos == chars.len() {
                let name = String::from_str(initial_rule);
                Some(Node::Nonterminal(name, children))
            } else {
                None
            }
        },
        _ => None,
    }
}

/// Recognition stays within the input: a match that starts at `pos` ends at
/// a position between `pos` and the end of the input, so matching is
/// non-destructive and a failed sibling can always retry from `pos`.
pub proof fn lemma_eval_expr_in_bounds(g: GrammarV, e: Spanned<ExprV>, input: Seq<char>, pos: nat, fuel: nat, p2: nat, c: Seq<NodeV>)
    requires
        pos <= input.len(),
        eval_expr(g, e, input, pos, fuel) == (Outcome::Matched { pos: p2, children: c }),
    ensures
        pos <= p2 <= input.len(),
    decreases fuel, 1int,
{
    let f = (fuel - 1) as nat;
    match e.node {
        ExprV::Alternative { first, second, rest } => {
            match eval_expr(g, *first, input, pos, f) {
                Outcome::Matched { pos: q, children: cq } => {
                    lemma_eval_expr_in_bounds(g, *first, input, pos, f, q, cq);
                },
                Outcome::NoMatch => match eval_expr(g, *second, input, pos, f) {
                    Outcome::Matched { pos: q, children: cq } => {
                        lemma_eval_expr_in_bounds(g, *second, input, pos, f, q, cq);
                    },
                    Outcome::NoMatch => {
                        lemma_eval_alts_in_bounds(g, rest, 0, input, pos, f, p2, c);
                    },
                    _ => {},
                },
                _ => {},
            }
        },
        ExprV::Sequence { first, second, rest } => {
            if let Outcome::Matched { pos: q1, children: c1 } = eval_expr(g, *first, input, pos, f) {
                lemma_eval_expr_in_bounds(g, *first, input, pos, f, q1, c1);
                if let Outcome::Matched { pos: q2, children: cs2 } = eval_expr(g, *second, input, q1, f) {
                    lemma_eval_expr_in_bounds(g, *second, input, q1, f, q2, cs2);
                    if let Outcome::Matched { pos: q3, children: c3 } = eval_seq(g, rest, 0, input, q2, f) {
                        lemma_eval_seq_in_bounds(g, rest, 0, input, q2, f, q3, c3);
                    }
                }
            }
        },
        ExprV::Optional(inner) => {
            if let Outcome::Matched { pos: q, children: cq } = eval_expr(g, *inner, input, pos, f) {
                lemma_eval_expr_in_bounds(g, *inner, input, pos, f, q, cq);
            }
        },
        ExprV::Repeated(inner) => {
            lemma_eval_repeat_in_bounds(g, *inner, input, pos, f, p2, c);
        },
        ExprV::Factor { count, primary } => {
            lemma_eval_factor_in_bounds(g, *primary, count.node, input, pos, f, p2, c);
        },
        ExprV::Exception { subject, restriction } => {
            if let Outcome::Matched { pos: q, children: cq } = eval_expr(g, *subject, input, pos, f) {
                lemma_eval_expr_in_bounds(g, *subject, input, pos, f, q, cq);
            }
        },
        ExprV::Nonterminal(name) => {
            if let Outcome::Matched { pos: q, children: cq } = eval_prod(g, name, input, pos, f) {
                lemma_eval_prod_in_bounds(g, name, input, pos, f, q, cq);
            }
        },
        ExprV::Terminal(_) => {},
        ExprV::Special(_) => {},
        ExprV::Empty => {},
    }
}

proof fn lemma_eval_alts_in_bounds(g: GrammarV, rest: Seq<Spanned<ExprV>>, i: int, input: Seq<char>, pos: nat, fuel: nat, p2: nat, c: Seq<NodeV>)
    requires
        pos <= input.len(),
        eval_alts(g, rest, i, input, pos, fuel) == (Outcome::Matched { pos: p2, children: c }),
    ensures
        pos <= p2 <= input.len(),
    decreases fuel, 0int,
{
    let f = (fuel - 1) as nat;
    if 0 <= i < rest.len() {
        match eval_expr(g, rest[i], input, pos, f) {
            Outcome::Matched { pos: q, children: cq } => {
                lemma_eval_expr_in_bounds(g, rest[i], input, pos, f, q, cq);
            },
            Outcome::NoMatch => {
                lemma_eval_alts_in_bounds(g, rest, i + 1, input, pos, f, p2, c);
            },
            _ => {},
        }
    }
}

proof fn lemma_eval_seq_in_bounds(g: GrammarV, rest: Seq<Spanned<ExprV>>, i: int, input: Seq<char>, pos: nat, fuel: nat, p2: nat, c: Seq<NodeV>)
    requires
        pos <= input.len(),
        eval_seq(g, rest, i, input, pos, fuel) == (Outcome::Matched { pos: p2, children: c }),
    ensures
        pos <= p2 <= input.len(),
    decreases fuel, 0int,
{
    let f = (fuel - 1) as nat;
    if 0 <= i < rest.len() {
        if let Outcome::Matched { pos: q1, children: c1 } = eval_expr(g, rest[i], input, pos, f) {
            lemma_eval_expr_in_bounds(g, rest[i], input, pos, f, q1, c1);
            if let Outcome::Matched { pos: q2, children: c2 } = eval_seq(g, rest, i + 1, input, q1, f) {
                lemma_eval_seq_in_bounds(g, rest, i + 1, input, q1, f, q2, c2);
            }
        }
    }
}

proof fn lemma_eval_repeat_in_bounds(g: GrammarV, inner: Spanned<ExprV>, input: Seq<char>, pos: nat, fuel: nat, p2: nat, c: Seq<NodeV>)
    requires
        pos <= input.len(),
        eval_repeat(g, inner, input, pos, fuel) == (Outcome::Matched { pos: p2, children: c }),
    ensures
        pos <= p2 <= input.len(),
    decreases fuel, 0int,
{
    let f = (fuel - 1) as nat;
    if let Outcome::Matched { pos: q1, children: c1 } = eval_expr(g, inner, input, pos, f) {
        lemma_eval_expr_in_bounds(g, inner, input, pos, f, q1, c1);
        if let Outcome::Matched { pos: q2, children: c2 } = eval_repeat(g, inner, input, q1, f) {
            lemma_eval_repeat_in_bounds(g, inner, input, q1, f, q2, c2);
        }
    }
}

proof fn lemma_eval_factor_in_bounds(g: GrammarV, primary: Spanned<ExprV>, n: nat, input: Seq<char>, pos: nat, fuel: nat, p2: nat, c: Seq<NodeV>)
    requires
        pos <= input.len(),
        eval_factor(g, primary, n, input, pos, fuel) == (Outcome::Matched { pos: p2, children: c }),
    ensures
        pos <= p2 <= input.len(),
    decreases fuel, 0int,
{
    let f = (fuel - 1) as nat;
    if n > 0 {
        if let Outcome::Matched { pos: q1, children: c1 } = eval_expr(g, primary, input, pos, f) {
            lemma_eval_expr_in_bounds(g, primary, input, pos, f, q1, c1);
            if let Outcome::Matched { pos: q2, children: c2 } = eval_factor(g, primary, (n - 1) as nat, input, q1, f) {
                lemma_eval_factor_in_bounds(g, primary, (n - 1) as nat, input, q1, f, q2, c2);
            }
        }
    }
}

proof fn lemma_eval_prod_in_bounds(g: GrammarV, name: Seq<char>, input: Seq<char>, pos: nat, fuel: nat, p2: nat, c: Seq<NodeV>)
    requires
        pos <= input.len(),
        eval_prod(g, name, input, pos, fuel) == (Outcome::Matched { pos: p2, children: c }),
    ensures
        pos <= p2 <= input.len(),
    decreases fuel, 0int,
{
    if let Some(rhs) = lookup_rule(g, name) {
        lemma_eval_expr_in_bounds(g, rhs, input, pos, (fuel - 1) as nat, p2, c);
    }
}

/// A step budget never changes an answer: an evaluation that completes
/// within `f1` steps returns the same outcome under any larger budget `f2`.
pub proof fn lemma_eval_expr_fuel_mono(g: GrammarV, e: Spanned<ExprV>, input: Seq<char>, pos: nat, f1: nat, f2: nat)
    requires
        f1 <= f2,
        !(eval_expr(g, e, input, pos, f1) is Abort),
    ensures
        eval_expr(g, e, input, pos, f2) == eval_expr(g, e, input, pos, f1),
    decreases f1,
{
    let fa = (f1 - 1) as nat;
    let fb = (f2 - 1) as nat;
    match e.node {
        ExprV::Alternative { first, second, rest } => {
            lemma_eval_expr_fuel_mono(g, *first, input, pos, fa, fb);
            if eval_expr(g, *first, input, pos, fa) is NoMatch {
                lemma_eval_expr_fuel_mono(g, *second, input, pos, fa, fb);
                if eval_expr(g, *second, input, pos, fa) is NoMatch {
                    lemma_eval_alts_fuel_mono(g, rest, 0, input, pos, fa, fb);
                }
            }
        },
        ExprV::Sequence { first, second, rest } => {
            lemma_eval_expr_fuel_mono(g, *first, input, pos, fa, fb);
            if let Outcome::Matched { pos: p1, children: _ } = eval_expr(g, *first, input, pos, fa) {
                lemma_eval_expr_fuel_mono(g, *second, input, p1, fa, fb);
                if let Outcome::Matched { pos: p2, children: _ } = eval_expr(g, *second, input, p1, fa) {
                    lemma_eval_seq_fuel_mono(g, rest, 0, input, p2, fa, fb);
                }
            }
        },
        ExprV::Optional(inner) => {
            lemma_eval_expr_fuel_mono(g, *inner, input, pos, fa, fb);
        },
        ExprV::Repeated(inner) => {
            lemma_eval_repeat_fuel_mono(g, *inner, input, pos, fa, fb);
        },
        ExprV::Factor { count, primary } => {
            lemma_eval_factor_fuel_mono(g, *primary, count.node, input, pos, fa, fb);
        },
        ExprV::Exception { subject, restriction } => {
            lemma_eval_expr_fuel_mono(g, *subject, input, pos, fa, fb);
            if let Outcome::Matched { pos: p1, children: _ } = eval_expr(g, *subject, input, pos, fa) {
                let consumed = input.subrange(pos as int, p1 as int);
                lemma_eval_expr_fuel_mono(g, *restriction, consumed, 0, fa, fb);
            }
        },
        ExprV::Nonterminal(name) => {
            lemma_eval_prod_fuel_mono(g, name, input, pos, fa, fb);
        },
        ExprV::Terminal(_) => {},
        ExprV::Special(_) => {},
        ExprV::Empty => {},
    }
}

pub proof fn lemma_eval_alts_fuel_mono(g: GrammarV, rest: Seq<Spanned<ExprV>>, i: int, input: Seq<char>, pos: nat, f1: nat, f2: nat)
    requires
        f1 <= f2,
        !(eval_alts(g, rest, i, input, pos, f1) is Abort),
    ensures
        eval_alts(g, rest, i, input, pos, f2) == eval_alts(g, rest, i, input, pos, f1),
    decreases f1,
{
    let fa = (f1 - 1) as nat;
    let fb = (f2 - 1) as nat;
    if 0 <= i < rest.len() {
        lemma_eval_expr_fuel_mono(g, rest[i], input, pos, fa, fb);
        if eval_expr(g, rest[i], input, pos, fa) is NoMatch {
            lemma_eval_alts_fuel_mono(g, rest, i + 1, input, pos, fa, fb);
        }
    }
}

pub proof fn lemma_eval_seq_fuel_mono(g: GrammarV, rest: Seq<Spanned<ExprV>>, i: int, input: Seq<char>, pos: nat, f1: nat, f2: nat)
    requires
        f1 <= f2,
        !(eval_seq(g, rest, i, input, pos, f1) is Abort),
    ensures
        eval_seq(g, rest, i, input, pos, f2) == eval_seq(g, rest, i, input, pos, f1),
    decreases f1,
{
    let fa = (f1 - 1) as nat;
    let fb = (f2 - 1) as nat;
    if 0 <= i < rest.len() {
        lemma_eval_expr_fuel_mono(g, rest[i], input, pos, fa, fb);
        if let Outcome::Matched { pos: p1, children: _ } = eval_expr(g, rest[i], input, pos, fa) {
            lemma_eval_seq_fuel_mono(g, rest, i + 1, input, p1, fa, fb);
        }
    }
}

pub proof fn lemma_eval_repeat_fuel_mono(g: GrammarV, inner: Spanned<ExprV>, input: Seq<char>, pos: nat, f1: nat, f2: nat)
    requires
        f1 <= f2,
        !(eval_repeat(g, inner, input, pos, f1) is Abort),
    ensures
        eval_repeat(g, inner, input, pos, f2) == eval_repeat(g, inner, input, pos, f1),
    decreases f1,
{
    let fa = (f1 - 1) as nat;
    let fb = (f2 - 1) as nat;
    lemma_eval_expr_fuel_mono(g, inner, input, pos, fa, fb);
    if let Outcome::Matched { pos: p1, children: _ } = eval_expr(g, inner, input, pos, fa) {
        lemma_eval_repeat_fuel_mono(g, inner, input, p1, fa, fb);
    }
}

pub proof fn lemma_eval_factor_fuel_mono(g: GrammarV, primary: Spanned<ExprV>, n: nat, input: Seq<char>, pos: nat, f1: nat, f2: nat)
    requires
        f1 <= f2,
        !(eval_factor(g, primary, n, input, pos, f1) is Abort),
    ensures
        eval_factor(g, primary, n, input, pos, f2) == eval_factor(g, primary, n, input, pos, f1),
    decreases f1,
{
    let fa = (f1 - 1) as nat;
    let fb = (f2 - 1) as nat;
    if n > 0 {
        lemma_eval_expr_fuel_mono(g, primary, input, pos, fa, fb);
        if let Outcome::Matched { pos: p1, children: _ } = eval_expr(g, primary, input, pos, fa) {
            lemma_eval_factor_fuel_mono(g, primary, (n - 1) as nat, input, p1, fa, fb);
        }
    }
}

pub proof fn lemma_eval_prod_fuel_mono(g: GrammarV, name: Seq<char>, input: Seq<char>, pos: nat, f1: nat, f2: nat)
    requires
        f1 <= f2,
        !(eval_prod(g, name, input, pos, f1) is Abort),
    ensures
        eval_prod(g, name, input, pos, f2) == eval_prod(g, name, input, pos, f1),
    decreases f1,
{
    if let Some(rhs) = lookup_rule(g, name) {
        lemma_eval_expr_fuel_mono(g, rhs, input, pos, (f1 - 1) as nat, (f2 - 1) as nat);
    }
}

/// The step budget never withholds one answer to give another: a recognition
/// that completes within some budget yields the same result under any larger
/// one.
pub proof fn lemma_check_fuel_mono(g: GrammarV, input: Seq<char>, rule: Seq<char>, f1: nat, f2: nat)
    requires
        f1 <= f2,
        !(eval_prod(g, rule, input, 0, f1) is Abort),
    ensures
        spec_check(g, input, rule, f2) == spec_check(g, input, rule, f1),
{
    lemma_eval_prod_fuel_mono(g, rule, input, 0, f1, f2);
}

/// Recognition is deterministic: on one and the same input, grammar, rule and
/// step budget, any two results agree.
pub proof fn lemma_check_deterministic(g: GrammarV, input: Seq<char>, rule: Seq<char>, fuel: nat, r1: Option<NodeV>, r2: Option<NodeV>)
    requires
        r1 == spec_check(g, input, rule, fuel),
        r2 == spec_check(g, input, rule, fuel),
    ensures
        r1 == r2,
{
}

/// The empty expression always matches, consumes nothing, and contributes no
/// children, wherever it stands.
pub proof fn lemma_empty_consumes_nothing(g: GrammarV, span: Span, input: Seq<char>, pos: nat, fuel: nat)
    requires
        fuel >= 1,
    ensures
        eval_expr(g, Spanned { node: ExprV::Empty, span }, input, pos, fuel) == (Outcome::Matched {
            pos,
            children: Seq::<NodeV>::empty(),
        }),
{
}

/// A rule defined as the empty expression matches exactly the empty input:
/// recognition of any other input fails, and recognition of the empty input
/// yields the bare nonterminal node with no children.
pub proof fn lemma_empty_production_matches_only_empty(g: GrammarV, rule: Seq<char>, input: Seq<char>, fuel: nat)
    requires
        fuel >= 2,
        lookup_rule(g, rule) matches Some(rhs) && rhs.node is Empty,
    ensures
        spec_check(g, input, rule, fuel) == if input.len() == 0 {
            Some(NodeV::Nonterminal(rule, Seq::<NodeV>::empty()))
        } else {
            None::<NodeV>
        },
{
}

/// Repetition is greedy and never backs off: where a repetition reports a
/// match ending at `p2`, the inner expression no longer matches at `p2` —
/// the repetition stopped only because the next attempt failed, and no
/// consumed iteration was given back.
pub proof fn lemma_repeat_stops_at_failure(g: GrammarV, inner: Spanned<ExprV>, input: Seq<char>, pos: nat, fuel: nat, p2: nat, c2: Seq<NodeV>)
    requires
        eval_repeat(g, inner, input, pos, fuel) == (Outcome::Matched { pos: p2, children: c2 }),
    ensures
        eval_expr(g, inner, input, p2, fuel) is NoMatch,
    decreases fuel,
{
    let f = (fuel - 1) as nat;
    match eval_expr(g, inner, input, pos, f) {
        Outcome::NoMatch => {
            lemma_eval_expr_fuel_mono(g, inner, input, pos, f, fuel);
        },
        Outcome::Matched { pos: p1, children: c1 } => {
            match eval_repeat(g, inner, input, p1, f) {
                Outcome::Matched { pos: q, children: cq } => {
                    lemma_repeat_stops_at_failure(g, inner, input, p1, f, q, cq);
                    lemma_eval_expr_fuel_mono(g, inner, input, p2, f, fuel);
                },
                _ => {},
            }
        },
        _ => {},
    }
}

/// Ordered choice is committed: when the first branch of an alternative
/// matches, that match is the alternative's result, whatever the later
/// branches would do.
pub proof fn lemma_alternative_first_wins(g: GrammarV, e: Spanned<ExprV>, input: Seq<char>, pos: nat, fuel: nat, p2: nat, c: Seq<NodeV>)
    requires
        fuel >= 1,
        e.node matches ExprV::Alternative { first, .. } && eval_expr(g, *first, input, pos, (fuel - 1) as nat)
            == (Outcome::Matched { pos: p2, children: c }),
    ensures
        eval_expr(g, e, input, pos, fuel) == (Outcome::Matched { pos: p2, children: c }),
{
}

} // verus!
