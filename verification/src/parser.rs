//! The grammar parser: recursive descent from a spanned token stream to a
//! grammar syntax tree. A grammar is one or more productions; a production is
//! `identifier = alternative ;`; an alternative is sequences separated by
//! `|`; a sequence is terms separated by `,`; a term is a factor with an
//! optional `- factor` exception; a factor is a primary with an optional
//! `integer *` prefix; a primary is an optional, repeated or grouped
//! alternative in brackets, a nonterminal, a terminal, a special sequence, or
//! the empty branch.
//!
//! The functions `spec_primary` through `spec_parse` are the definition; each
//! executable function returns exactly what its specification counterpart
//! does. A bracketed construct whose closing bracket is missing is abandoned
//! and the branch reads as empty, so the stray opening bracket surfaces later
//! as an invalid token; an empty terminal is a hard error that aborts the
//! whole parse. Tokens after the last well-formed production are ignored.

use vstd::prelude::*;
use vstd::slice::slice_index_get;

use crate::ast::{
    grammar_view, lemma_exprs_view_index, lemma_exprs_view_len, sexpr_view, tokens_view,
    Expression, ExprV, Grammar, GrammarV, Production, ProductionV, Span, Spanned, TokenKind,
    TokenV,
};

verus! {

broadcast use {lemma_exprs_view_len, lemma_exprs_view_index};

/// A parse error; the span tells where it was found.
#[derive(Clone, Copy, Debug, PartialEq, Eq, Structural)]
pub enum ParseError {
    /// A special sequence is missing its closing `?` (reported by the token
    /// stream's producer).
    UnterminatedSpecial,
    /// A comment is missing its closing delimiter (reported by the token
    /// stream's producer).
    UnterminatedComment,
    /// A quoted literal is missing its closing quote (reported by the token
    /// stream's producer).
    UnterminatedTerminal,
    /// A quoted literal with no content.
    EmptyTerminal,
    /// A rule name was expected.
    NonterminalExpected,
    /// A quoted literal was expected.
    TerminalExpected,
    /// A special sequence was expected.
    SpecialExpected,
    /// A repetition count was expected.
    IntegerExpected,
    /// The token cannot stand here in any valid construct.
    InvalidToken,
    /// An alternative's branch list could not be parsed at all.
    DefinitionExpected,
}

/// The span of the most recently consumed token: before anything is consumed
/// it is the first token's span, and the empty span on an empty stream.
pub open spec fn last_span_at(toks: Seq<Spanned<TokenV>>, pos: int) -> Span {
    if 0 < pos <= toks.len() {
        toks[pos - 1].span
    } else if toks.len() > 0 {
        toks[0].span
    } else {
        Span { start: 0, end: 0 }
    }
}

/// The zero-width span where an empty branch is read: at the end of the most
/// recently consumed token.
pub open spec fn empty_span_at(toks: Seq<Spanned<TokenV>>, pos: int) -> Span {
    Span { start: last_span_at(toks, pos).end, end: last_span_at(toks, pos).end }
}

/// Where an error at `pos` is reported: at that token, or at the most
/// recently consumed one when the stream has ended.
pub open spec fn err_span_at(toks: Seq<Spanned<TokenV>>, pos: int) -> Span {
    if 0 <= pos < toks.len() {
        toks[pos].span
    } else {
        last_span_at(toks, pos)
    }
}

/// The empty branch read at `pos`, consuming nothing.
pub open spec fn empty_at(toks: Seq<Spanned<TokenV>>, pos: int) -> Spanned<ExprV> {
    Spanned { node: ExprV::Empty, span: empty_span_at(toks, pos) }
}

/// The tokens not yet consumed: the termination measure of the parser. A
/// position past the end counts as nothing left.
pub open spec fn remaining(toks: Seq<Spanned<TokenV>>, pos: int) -> int {
    if pos <= toks.len() {
        toks.len() - pos
    } else {
        0
    }
}

/// A primary: a bracketed alternative, a nonterminal, a terminal, a special
/// sequence, or the empty branch. The result pairs the number of consumed
/// tokens with the expression read.
pub open spec fn spec_primary(toks: Seq<Spanned<TokenV>>, pos: int) -> Result<(nat, Spanned<ExprV>), Spanned<ParseError>>
    decreases remaining(toks, pos), 1int,
{
    if pos < 0 || pos >= toks.len() {
        Ok((0, empty_at(toks, pos)))
    } else {
        let t = toks[pos];
        match t.node {
            TokenV::OptionStart => match spec_alternative(toks, pos + 1) {
                Err(e) => Err(e),
                Ok((k, inner)) => if pos + 1 + k < toks.len() && toks[pos + 1 + k].node
                    is OptionEnd {
                    Ok(
                        (
                            k + 2,
                            Spanned {
                                node: ExprV::Optional(Box::new(inner)),
                                span: Span { start: t.span.start, end: toks[pos + 1 + k].span.end },
                            },
                        ),
                    )
                } else {
                    Ok((0, empty_at(toks, pos)))
                },
            },
            TokenV::RepeatStart => match spec_alternative(toks, pos + 1) {
                Err(e) => Err(e),
                Ok((k, inner)) => if pos + 1 + k < toks.len() && toks[pos + 1 + k].node
                    is RepeatEnd {
                    Ok(
                        (
                            k + 2,
                            Spanned {
                                node: ExprV::Repeated(Box::new(inner)),
                                span: Span { start: t.span.start, end: toks[pos + 1 + k].span.end },
                            },
                        ),
                    )
                } else {
                    Ok((0, empty_at(toks, pos)))
                },
            },
            TokenV::GroupStart => match spec_alternative(toks, pos + 1) {
                Err(e) => Err(e),
                Ok((k, inner)) => if pos + 1 + k < toks.len() && toks[pos + 1 + k].node
                    is GroupEnd {
                    Ok(
                        (
                            k + 2,
                            Spanned {
                                node: inner.node,
                                span: Span { start: t.span.start, end: toks[pos + 1 + k].span.end },
                            },
                        ),
                    )
                } else {
                    Ok((0, empty_at(toks, pos)))
                },
            },
            TokenV::Identifier(name) => Ok(
                (1, Spanned { node: ExprV::Nonterminal(name), span: t.span }),
            ),
            TokenV::Terminal(text) => if text.len() == 0 {
                Err(Spanned { node: ParseError::EmptyTerminal, span: t.span })
            } else {
                Ok((1, Spanned { node: ExprV::Terminal(text), span: t.span }))
            },
            TokenV::Special(text) => Ok(
                (1, Spanned { node: ExprV::Special(text), span: t.span }),
            ),
            _ => Ok((0, empty_at(toks, pos))),
        }
    }
}

/// A factor: a primary with an optional `integer *` prefix; a count of zero
/// collapses to the empty expression over the same span.
pub open spec fn spec_factor(toks: Seq<Spanned<TokenV>>, pos: int) -> Result<(nat, Spanned<ExprV>), Spanned<ParseError>>
    decreases remaining(toks, pos), 2int,
{
    if 0 <= pos && pos + 1 < toks.len() {
        match (toks[pos].node, toks[pos + 1].node) {
            (TokenV::Integer(n), TokenV::Repetition) => match spec_primary(toks, pos + 2) {
                Err(e) => Err(e),
                Ok((k, prim)) => if n == 0 {
                    Ok(
                        (
                            k + 2,
                            Spanned {
                                node: ExprV::Empty,
                                span: Span { start: toks[pos].span.start, end: prim.span.end },
                            },
                        ),
                    )
                } else {
                    Ok(
                        (
                            k + 2,
                            Spanned {
                                node: ExprV::Factor {
                                    count: Spanned { node: n, span: toks[pos].span },
                                    primary: Box::new(prim),
                                },
                                span: Span { start: toks[pos].span.start, end: prim.span.end },
                            },
                        ),
                    )
                },
            },
            _ => spec_primary(toks, pos),
        }
    } else {
        spec_primary(toks, pos)
    }
}

/// A term: a factor, optionally excluding a second factor after `-`.
pub open spec fn spec_term(toks: Seq<Spanned<TokenV>>, pos: int) -> Result<(nat, Spanned<ExprV>), Spanned<ParseError>>
    decreases remaining(toks, pos), 3int,
{
    match spec_factor(toks, pos) {
        Err(e) => Err(e),
        Ok((k1, subject)) => if 0 <= pos + k1 < toks.len() && toks[pos + k1].node is Exception {
            match spec_factor(toks, pos + k1 + 1) {
                Err(e) => Err(e),
                Ok((k2, restriction)) => Ok(
                    (
                        k1 + 1 + k2,
                        Spanned {
                            node: ExprV::Exception {
                                subject: Box::new(subject),
                                restriction: Box::new(restriction),
                            },
                            span: Span { start: subject.span.start, end: restriction.span.end },
                        },
                    ),
                ),
            }
        } else {
            Ok((k1, subject))
        },
    }
}

/// The terms a `,` separator still adds to a sequence.
pub open spec fn spec_seq_rest(toks: Seq<Spanned<TokenV>>, pos: int) -> Result<(nat, Seq<Spanned<ExprV>>), Spanned<ParseError>>
    decreases remaining(toks, pos), 4int,
{
    if 0 <= pos < toks.len() && toks[pos].node is Concatenation {
        match spec_term(toks, pos + 1) {
            Err(e) => Err(e),
            Ok((k, e1)) => match spec_seq_rest(toks, pos + 1 + k) {
                Err(e) => Err(e),
                Ok((k2, rest)) => Ok(((1 + k + k2) as nat, seq![e1] + rest)),
            },
        }
    } else {
        Ok((0, Seq::empty()))
    }
}

/// A sequence: one or more terms separated by `,`; a single term stands for
/// itself, more become a `Sequence` spanning them all.
pub open spec fn spec_sequence(toks: Seq<Spanned<TokenV>>, pos: int) -> Result<(nat, Spanned<ExprV>), Spanned<ParseError>>
    decreases remaining(toks, pos), 5int,
{
    match spec_term(toks, pos) {
        Err(e) => Err(e),
        Ok((k1, e1)) => match spec_seq_rest(toks, pos + k1) {
            Err(e) => Err(e),
            Ok((k2, others)) => if others.len() == 0 {
                Ok((k1, e1))
            } else {
                Ok(
                    (
                        k1 + k2,
                        Spanned {
                            node: ExprV::Sequence {
                                first: Box::new(e1),
                                second: Box::new(others[0]),
                                rest: others.drop_first(),
                            },
                            span: Span { start: e1.span.start, end: others.last().span.end },
                        },
                    ),
                )
            },
        },
    }
}

/// The sequences a `|` separator still adds to an alternative.
pub open spec fn spec_alt_rest(toks: Seq<Spanned<TokenV>>, pos: int) -> Result<(nat, Seq<Spanned<ExprV>>), Spanned<ParseError>>
    decreases remaining(toks, pos), 6int,
{
    if 0 <= pos < toks.len() && toks[pos].node is Alternation {
        match spec_sequence(toks, pos + 1) {
            Err(e) => Err(e),
            Ok((k, e1)) => match spec_alt_rest(toks, pos + 1 + k) {
                Err(e) => Err(e),
                Ok((k2, rest)) => Ok(((1 + k + k2) as nat, seq![e1] + rest)),
            },
        }
    } else {
        Ok((0, Seq::empty()))
    }
}

/// An alternative: one or more sequences separated by `|`, tried in source
/// order; a single branch stands for itself.
pub open spec fn spec_alternative(toks: Seq<Spanned<TokenV>>, pos: int) -> Result<(nat, Spanned<ExprV>), Spanned<ParseError>>
    decreases remaining(toks, pos), 7int,
{
    match spec_sequence(toks, pos) {
        Err(e) => Err(e),
        Ok((k1, e1)) => match spec_alt_rest(toks, pos + k1) {
            Err(e) => Err(e),
            Ok((k2, others)) => if others.len() == 0 {
                Ok((k1, e1))
            } else {
                Ok(
                    (
                        k1 + k2,
                        Spanned {
                            node: ExprV::Alternative {
                                first: Box::new(e1),
                                second: Box::new(others[0]),
                                rest: others.drop_first(),
                            },
                            span: Span { start: e1.span.start, end: others.last().span.end },
                        },
                    ),
                )
            },
        },
    }
}

/// A production: `identifier = alternative ;`, spanning from the name to the
/// terminator.
pub open spec fn spec_production(toks: Seq<Spanned<TokenV>>, pos: int) -> Result<(nat, Spanned<ProductionV>), Spanned<ParseError>>
    decreases remaining(toks, pos), 8int,
{
    if pos < 0 || pos >= toks.len() {
        Err(Spanned { node: ParseError::NonterminalExpected, span: err_span_at(toks, pos) })
    } else {
        match toks[pos].node {
            TokenV::Identifier(name) => if pos + 1 < toks.len() && toks[pos + 1].node
                is Definition {
                match spec_alternative(toks, pos + 2) {
                    Err(e) => Err(e),
                    Ok((k, rhs)) => if pos + 2 + k < toks.len() && toks[pos + 2 + k].node
                        is Terminator {
                        Ok(
                            (
                                k + 3,
                                Spanned {
                                    node: ProductionV {
                                        lhs: Spanned { node: name, span: toks[pos].span },
                                        rhs,
                                    },
                                    span: Span {
                                        start: toks[pos].span.start,
                                        end: toks[pos + 2 + k].span.end,
                                    },
                                },
                            ),
                        )
                    } else {
                        Err(
                            Spanned {
                                node: ParseError::InvalidToken,
                                span: err_span_at(toks, pos + 2 + k),
                            },
                        )
                    },
                }
            } else {
                Err(Spanned { node: ParseError::InvalidToken, span: err_span_at(toks, pos + 1) })
            },
            _ => Err(Spanned { node: ParseError::NonterminalExpected, span: err_span_at(toks, pos) }),
        }
    }
}

/// The productions that follow the first one: collecting stops at the first
/// production that does not parse, except that an empty terminal aborts the
/// whole parse.
pub open spec fn spec_syntax_rest(toks: Seq<Spanned<TokenV>>, pos: int) -> Result<(nat, Seq<Spanned<ProductionV>>), Spanned<ParseError>>
    decreases remaining(toks, pos), 9int,
{
    match spec_production(toks, pos) {
        Err(e) => if e.node is EmptyTerminal {
            Err(e)
        } else {
            Ok((0, Seq::empty()))
        },
        Ok((k, prod)) => if k == 0 {
            // a production always consumes tokens; this branch only keeps the
            // measure decreasing
            Ok((0, seq![prod]))
        } else {
            match spec_syntax_rest(toks, pos + k) {
                Err(e) => Err(e),
                Ok((k2, rest)) => Ok((k + k2, seq![prod] + rest)),
            }
        },
    }
}

/// Does the executable expression result `r` return exactly what the
/// specification result `s` prescribes, as positions instead of counts?
pub open spec fn exec_expr_matches(s: Result<(nat, Spanned<ExprV>), Spanned<ParseError>>, r: Result<(usize, Spanned<Expression>), Spanned<ParseError>>, pos: int, len: int) -> bool {
    match r {
        Ok((p2, e)) => pos <= p2 <= len && s == Ok::<(nat, Spanned<ExprV>), Spanned<ParseError>>(
            (((p2 - pos) as nat), sexpr_view(e)),
        ),
        Err(err) => s == Err::<(nat, Spanned<ExprV>), Spanned<ParseError>>(err),
    }
}

/// The same, for the list results of the separator walks.
pub open spec fn exec_list_matches(s: Result<(nat, Seq<Spanned<ExprV>>), Spanned<ParseError>>, r: Result<(usize, Vec<Spanned<Expression>>), Spanned<ParseError>>, pos: int, len: int) -> bool {
    match r {
        Ok((p2, v)) => pos <= p2 <= len && s == Ok::<
            (nat, Seq<Spanned<ExprV>>),
            Spanned<ParseError>,
        >((((p2 - pos) as nat), crate::ast::exprs_view(v@))),
        Err(err) => s == Err::<(nat, Seq<Spanned<ExprV>>), Spanned<ParseError>>(err),
    }
}

/// The same, for a production.
pub open spec fn exec_prod_matches(s: Result<(nat, Spanned<ProductionV>), Spanned<ParseError>>, r: Result<(usize, Spanned<Production>), Spanned<ParseError>>, pos: int, len: int) -> bool {
    match r {
        Ok((p2, p)) => pos <= p2 <= len && s == Ok::<
            (nat, Spanned<ProductionV>),
            Spanned<ParseError>,
        >((((p2 - pos) as nat), crate::ast::sproduction_view(p))),
        Err(err) => s == Err::<(nat, Spanned<ProductionV>), Spanned<ParseError>>(err),
    }
}

/// The same, for the trailing production list.
pub open spec fn exec_prods_matches(s: Result<(nat, Seq<Spanned<ProductionV>>), Spanned<ParseError>>, r: Result<(usize, Vec<Spanned<Production>>), Spanned<ParseError>>, pos: int, len: int) -> bool {
    match r {
        Ok((p2, v)) => pos <= p2 <= len && s == Ok::<
            (nat, Seq<Spanned<ProductionV>>),
            Spanned<ParseError>,
        >((((p2 - pos) as nat), crate::ast::productions_view(v@))),
        Err(err) => s == Err::<(nat, Seq<Spanned<ProductionV>>), Spanned<ParseError>>(err),
    }
}

/// The whole grammar: one or more productions; tokens after the last
/// well-formed production are ignored.
pub open spec fn spec_parse(toks: Seq<Spanned<TokenV>>) -> Result<Spanned<GrammarV>, Spanned<ParseError>> {
    match spec_production(toks, 0) {
        Err(e) => Err(e),
        Ok((k, p1)) => match spec_syntax_rest(toks, k as int) {
            Err(e) => Err(e),
            Ok((_, rest)) => {
                let prods = seq![p1] + rest;
                Ok(
                    Spanned {
                        node: GrammarV { productions: prods },
                        span: Span { start: prods[0].span.start, end: prods.last().span.end },
                    },
                )
            },
        },
    }
}


/// A cursor over a spanned token stream, remembering the span of the most
/// recently consumed token for diagnostics.
pub struct Tokens<'a> {
    pub inner: &'a [Spanned<TokenKind>],
    pub last_span: Span,
}

impl<'a> Tokens<'a> {
    /// Wraps a token stream; before anything is consumed the remembered span
    /// is the first token's span (the empty span on an empty stream).
    pub fn new(tokens: &'a [Spanned<TokenKind>]) -> (r: Tokens<'a>)
        ensures
            r.inner@ == tokens@,
            r.last_span == last_span_at(tokens_view(tokens@), 0),
    {
        let first_span = if tokens.len() > 0 {
            slice_index_get(tokens, 0).span
        } else {
            Span::new()
        };
        Tokens { inner: tokens, last_span: first_span }
    }

    /// The span of the most recently consumed token.
    pub fn last_span(&self) -> (s: Span)
        ensures
            s == self.last_span,
    {
        self.last_span
    }
}

/// The span of the most recently consumed token, computed from the position.
fn last_span_of(toks: &Tokens<'_>, pos: usize) -> (s: Span)
    requires
        pos <= toks.inner@.len(),
    ensures
        s == last_span_at(tokens_view(toks.inner@), pos as int),
{
    let n = toks.inner.len();
    if pos > 0 {
        slice_index_get(toks.inner, pos - 1).span
    } else if n > 0 {
        slice_index_get(toks.inner, 0).span
    } else {
        Span::new()
    }
}

/// Where an error at `pos` is reported.
fn err_span_of(toks: &Tokens<'_>, pos: usize) -> (s: Span)
    requires
        pos <= toks.inner@.len(),
    ensures
        s == err_span_at(tokens_view(toks.inner@), pos as int),
{
    let n = toks.inner.len();
    if pos < n {
        slice_index_get(toks.inner, pos).span
    } else {
        last_span_of(toks, pos)
    }
}

/// The empty branch read at `pos`.
fn empty_node(toks: &Tokens<'_>, pos: usize) -> (r: Spanned<Expression>)
    requires
        pos <= toks.inner@.len(),
    ensures
        sexpr_view(r) == empty_at(tokens_view(toks.inner@), pos as int),
{
    let l = last_span_of(toks, pos);
    Spanned { node: Expression::Empty, span: Span { start: l.end, end: l.end } }
}

proof fn lemma_exprs_view_prepend(o: Seq<Spanned<Expression>>, x: Spanned<Expression>)
    ensures
        crate::ast::exprs_view(o.insert(0, x)) == seq![sexpr_view(x)] + crate::ast::exprs_view(o),
{
    o.insert_ensures(0, x);
    assert(crate::ast::exprs_view(o.insert(0, x)) =~= seq![sexpr_view(x)]
        + crate::ast::exprs_view(o)) by {
        assert forall|i: int| 0 <= i < o.len() + 1 implies crate::ast::exprs_view(o.insert(0, x))[i]
            == (seq![sexpr_view(x)] + crate::ast::exprs_view(o))[i] by {
            lemma_exprs_view_index(o.insert(0, x), i);
            if i > 0 {
                lemma_exprs_view_index(o, i - 1);
            }
        }
    }
}

/// A primary.
/// A primary that begins with an opening bracket at `pos`: an optional,
/// repeated or grouped alternative. A missing closing bracket abandons the
/// construct and the branch reads as empty.
#[verifier::rlimit(100)]
fn primary_bracketed(toks: &Tokens<'_>, pos: usize) -> (r: Result<(usize, Spanned<Expression>), Spanned<ParseError>>)
    requires
        pos < toks.inner@.len(),
        tokens_view(toks.inner@)[pos as int].node is OptionStart || tokens_view(toks.inner@)[
            pos as int
        ].node is RepeatStart || tokens_view(toks.inner@)[pos as int].node is GroupStart,
    ensures
        exec_expr_matches(
            spec_primary(tokens_view(toks.inner@), pos as int),
            r,
            pos as int,
            toks.inner@.len() as int,
        ),
    decreases toks.inner@.len() - pos, 0int,
{
    let n = toks.inner.len();
    let t = slice_index_get(toks.inner, pos);
    match alternative(toks, pos + 1) {
        Err(e) => Err(e),
        Ok((p, inner)) => {
            if p < n {
                let close = slice_index_get(toks.inner, p);
                match (&t.node, &close.node) {
                    (TokenKind::OptionStart, TokenKind::OptionEnd) => {
                        return Ok(
                            (
                                p + 1,
                                Spanned {
                                    node: Expression::Optional(Box::new(inner)),
                                    span: Span { start: t.span.start, end: close.span.end },
                                },
                            ),
                        );
                    },
                    (TokenKind::RepeatStart, TokenKind::RepeatEnd) => {
                        return Ok(
                            (
                                p + 1,
                                Spanned {
                                    node: Expression::Repeated(Box::new(inner)),
                                    span: Span { start: t.span.start, end: close.span.end },
                                },
                            ),
                        );
                    },
                    (TokenKind::GroupStart, TokenKind::GroupEnd) => {
                        return Ok(
                            (
                                p + 1,
                                Spanned {
                                    node: inner.node,
                                    span: Span { start: t.span.start, end: close.span.end },
                                },
                            ),
                        );
                    },
                    _ => {},
                }
            }
            Ok((pos, empty_node(toks, pos)))
        },
    }
}

/// A primary.
#[verifier::rlimit(100)]
fn primary(toks: &Tokens<'_>, pos: usize) -> (r: Result<(usize, Spanned<Expression>), Spanned<ParseError>>)
    requires
        pos <= toks.inner@.len(),
    ensures
        exec_expr_matches(
            spec_primary(tokens_view(toks.inner@), pos as int),
            r,
            pos as int,
            toks.inner@.len() as int,
        ),
    decreases toks.inner@.len() - pos, 1int,
{
    let n = toks.inner.len();
    if pos >= n {
        return Ok((pos, empty_node(toks, pos)));
    }
    let t = slice_index_get(toks.inner, pos);
    match &t.node {
        TokenKind::OptionStart => primary_bracketed(toks, pos),
        TokenKind::RepeatStart => primary_bracketed(toks, pos),
        TokenKind::GroupStart => primary_bracketed(toks, pos),
        TokenKind::Identifier(name) => Ok(
            (
                pos + 1,
                Spanned { node: Expression::Nonterminal(name.clone()), span: t.span },
            ),
        ),
        TokenKind::Terminal(text) => {
            if text.as_str().unicode_len() == 0 {
                Err(Spanned { node: ParseError::EmptyTerminal, span: t.span })
            } else {
                Ok(
                    (
                        pos + 1,
                        Spanned { node: Expression::Terminal(text.clone()), span: t.span },
                    ),
                )
            }
        },
        TokenKind::Special(text) => Ok(
            (
                pos + 1,
                Spanned { node: Expression::Special(text.clone()), span: t.span },
            ),
        ),
        _ => Ok((pos, empty_node(toks, pos))),
    }
}

/// A factor.
#[verifier::rlimit(100)]
fn factor(toks: &Tokens<'_>, pos: usize) -> (r: Result<(usize, Spanned<Expression>), Spanned<ParseError>>)
    requires
        pos <= toks.inner@.len(),
    ensures
        exec_expr_matches(
            spec_factor(tokens_view(toks.inner@), pos as int),
            r,
            pos as int,
            toks.inner@.len() as int,
        ),
    decreases toks.inner@.len() - pos, 2int,
{
    let n = toks.inner.len();
    if pos < n && pos + 1 < n {
        let t0 = slice_index_get(toks.inner, pos);
        let t1 = slice_index_get(toks.inner, pos + 1);
        match (&t0.node, &t1.node) {
            (TokenKind::Integer(count), TokenKind::Repetition) => {
                return match primary(toks, pos + 2) {
                    Err(e) => Err(e),
                    Ok((p, prim)) => {
                        let span = Span { start: t0.span.start, end: prim.span.end };
                        if *count == 0 {
                            Ok((p, Spanned { node: Expression::Empty, span }))
                        } else {
                            Ok(
                                (
                                    p,
                                    Spanned {
                                        node: Expression::Factor {
                                            count: Spanned { node: *count, span: t0.span },
                                            primary: Box::new(prim),
                                        },
                                        span,
                                    },
                                ),
                            )
                        }
                    },
                };
            },
            _ => {},
        }
    }
    primary(toks, pos)
}

/// A term.
#[verifier::rlimit(100)]
fn term(toks: &Tokens<'_>, pos: usize) -> (r: Result<(usize, Spanned<Expression>), Spanned<ParseError>>)
    requires
        pos <= toks.inner@.len(),
    ensures
        exec_expr_matches(
            spec_term(tokens_view(toks.inner@), pos as int),
            r,
            pos as int,
            toks.inner@.len() as int,
        ),
    decreases toks.inner@.len() - pos, 3int,
{
    let n = toks.inner.len();
    match factor(toks, pos) {
        Err(e) => Err(e),
        Ok((p, subject)) => {
            if p < n && matches!(&slice_index_get(toks.inner, p).node, TokenKind::Exception) {
                match factor(toks, p + 1) {
                    Err(e) => Err(e),
                    Ok((p2, restriction)) => {
                        let span = Span { start: subject.span.start, end: restriction.span.end };
                        Ok(
                            (
                                p2,
                                Spanned {
                                    node: Expression::Exception {
                                        subject: Box::new(subject),
                                        restriction: Box::new(restriction),
                                    },
                                    span,
                                },
                            ),
                        )
                    },
                }
            } else {
                Ok((p, subject))
            }
        },
    }
}

/// The terms a `,` separator still adds to a sequence.
fn seq_rest(toks: &Tokens<'_>, pos: usize) -> (r: Result<(usize, Vec<Spanned<Expression>>), Spanned<ParseError>>)
    requires
        pos <= toks.inner@.len(),
    ensures
        exec_list_matches(
            spec_seq_rest(tokens_view(toks.inner@), pos as int),
            r,
            pos as int,
            toks.inner@.len() as int,
        ),
    decreases toks.inner@.len() - pos, 4int,
{
    let n = toks.inner.len();
    if pos < n && matches!(&slice_index_get(toks.inner, pos).node, TokenKind::Concatenation) {
        match term(toks, pos + 1) {
            Err(e) => Err(e),
            Ok((p, e1)) => match seq_rest(toks, p) {
                Err(e) => Err(e),
                Ok((p2, mut rest)) => {
                    proof {
                        lemma_exprs_view_prepend(rest@, e1);
                    }
                    rest.insert(0, e1);
                    Ok((p2, rest))
                },
            },
        }
    } else {
        let out: Vec<Spanned<Expression>> = Vec::new();
        proof {
            assert(crate::ast::exprs_view(out@) =~= Seq::<Spanned<ExprV>>::empty());
        }
        Ok((pos, out))
    }
}

/// A sequence.
#[verifier::rlimit(100)]
fn sequence(toks: &Tokens<'_>, pos: usize) -> (r: Result<(usize, Spanned<Expression>), Spanned<ParseError>>)
    requires
        pos <= toks.inner@.len(),
    ensures
        exec_expr_matches(
            spec_sequence(tokens_view(toks.inner@), pos as int),
            r,
            pos as int,
            toks.inner@.len() as int,
        ),
    decreases toks.inner@.len() - pos, 5int,
{
    match term(toks, pos) {
        Err(e) => Err(e),
        Ok((p1, e1)) => match seq_rest(toks, p1) {
            Err(e) => Err(e),
            Ok((p2, mut others)) => {
                if others.len() == 0 {
                    Ok((p1, e1))
                } else {
                    let start = e1.span.start;
                    let end = others[others.len() - 1].span.end;
                    proof {
                        assert(crate::ast::exprs_view(others@).drop_first() =~= crate::ast::exprs_view(
                            others@.drop_first(),
                        ));
                        assert(others@.remove(0) =~= others@.drop_first());
                    }
                    let second = others.remove(0);
                    Ok(
                        (
                            p2,
                            Spanned {
                                node: Expression::Sequence {
                                    first: Box::new(e1),
                                    second: Box::new(second),
                                    rest: others,
                                },
                                span: Span { start, end },
                            },
                        ),
                    )
                }
            },
        },
    }
}

/// The sequences a `|` separator still adds to an alternative.
fn alt_rest(toks: &Tokens<'_>, pos: usize) -> (r: Result<(usize, Vec<Spanned<Expression>>), Spanned<ParseError>>)
    requires
        pos <= toks.inner@.len(),
    ensures
        exec_list_matches(
            spec_alt_rest(tokens_view(toks.inner@), pos as int),
            r,
            pos as int,
            toks.inner@.len() as int,
        ),
    decreases toks.inner@.len() - pos, 6int,
{
    let n = toks.inner.len();
    if pos < n && matches!(&slice_index_get(toks.inner, pos).node, TokenKind::Alternation) {
        match sequence(toks, pos + 1) {
            Err(e) => Err(e),
            Ok((p, e1)) => match alt_rest(toks, p) {
                Err(e) => Err(e),
                Ok((p2, mut rest)) => {
                    proof {
                        lemma_exprs_view_prepend(rest@, e1);
                    }
                    rest.insert(0, e1);
                    Ok((p2, rest))
                },
            },
        }
    } else {
        let out: Vec<Spanned<Expression>> = Vec::new();
        proof {
            assert(crate::ast::exprs_view(out@) =~= Seq::<Spanned<ExprV>>::empty());
        }
        Ok((pos, out))
    }
}

/// An alternative.
#[verifier::rlimit(100)]
fn alternative(toks: &Tokens<'_>, pos: usize) -> (r: Result<(usize, Spanned<Expression>), Spanned<ParseError>>)
    requires
        pos <= toks.inner@.len(),
    ensures
        exec_expr_matches(
            spec_alternative(tokens_view(toks.inner@), pos as int),
            r,
            pos as int,
            toks.inner@.len() as int,
        ),
    decreases toks.inner@.len() - pos, 7int,
{
    match sequence(toks, pos) {
        Err(e) => Err(e),
        Ok((p1, e1)) => match alt_rest(toks, p1) {
            Err(e) => Err(e),
            Ok((p2, mut others)) => {
                if others.len() == 0 {
                    Ok((p1, e1))
                } else {
                    let start = e1.span.start;
                    let end = others[others.len() - 1].span.end;
                    proof {
                        assert(crate::ast::exprs_view(others@).drop_first() =~= crate::ast::exprs_view(
                            others@.drop_first(),
                        ));
                        assert(others@.remove(0) =~= others@.drop_first());
                    }
                    let second = others.remove(0);
                    Ok(
                        (
                            p2,
                            Spanned {
                                node: Expression::Alternative {
                                    first: Box::new(e1),
                                    second: Box::new(second),
                                    rest: others,
                                },
                                span: Span { start, end },
                            },
                        ),
                    )
                }
            },
        },
    }
}

/// A production.
#[verifier::rlimit(100)]
fn production(toks: &Tokens<'_>, pos: usize) -> (r: Result<(usize, Spanned<Production>), Spanned<ParseError>>)
    requires
        pos <= toks.inner@.len(),
    ensures
        exec_prod_matches(
            spec_production(tokens_view(toks.inner@), pos as int),
            r,
            pos as int,
            toks.inner@.len() as int,
        ),
    decreases toks.inner@.len() - pos, 8int,
{
    let n = toks.inner.len();
    if pos >= n {
        return Err(Spanned { node: ParseError::NonterminalExpected, span: err_span_of(toks, pos) });
    }
    let t = slice_index_get(toks.inner, pos);
    match &t.node {
        TokenKind::Identifier(name) => {
            if pos + 1 < n && matches!(
                &slice_index_get(toks.inner, pos + 1).node,
                TokenKind::Definition,
            ) {
                match alternative(toks, pos + 2) {
                    Err(e) => Err(e),
                    Ok((p, rhs)) => {
                        if p < n && matches!(
                            &slice_index_get(toks.inner, p).node,
                            TokenKind::Terminator,
                        ) {
                            let close_end = slice_index_get(toks.inner, p).span.end;
                            Ok(
                                (
                                    p + 1,
                                    Spanned {
                                        node: Production {
                                            lhs: Spanned { node: name.clone(), span: t.span },
                                            rhs,
                                        },
                                        span: Span { start: t.span.start, end: close_end },
                                    },
                                ),
                            )
                        } else {
                            Err(
                                Spanned {
                                    node: ParseError::InvalidToken,
                                    span: err_span_of(toks, p),
                                },
                            )
                        }
                    },
                }
            } else {
                Err(
                    Spanned {
                        node: ParseError::InvalidToken,
                        span: err_span_of(toks, pos + 1),
                    },
                )
            }
        },
        _ => Err(Spanned { node: ParseError::NonterminalExpected, span: err_span_of(toks, pos) }),
    }
}

proof fn lemma_productions_view_prepend(o: Seq<Spanned<Production>>, x: Spanned<Production>)
    ensures
        crate::ast::productions_view(o.insert(0, x)) == seq![crate::ast::sproduction_view(x)]
            + crate::ast::productions_view(o),
{
    o.insert_ensures(0, x);
    assert(crate::ast::productions_view(o.insert(0, x)) =~= seq![crate::ast::sproduction_view(x)]
        + crate::ast::productions_view(o));
}

/// The productions that follow the first one.
#[verifier::rlimit(100)]
fn syntax_rest(toks: &Tokens<'_>, pos: usize) -> (r: Result<(usize, Vec<Spanned<Production>>), Spanned<ParseError>>)
    requires
        pos <= toks.inner@.len(),
    ensures
        exec_prods_matches(
            spec_syntax_rest(tokens_view(toks.inner@), pos as int),
            r,
            pos as int,
            toks.inner@.len() as int,
        ),
    decreases toks.inner@.len() - pos, 9int,
{
    match production(toks, pos) {
        Err(e) => {
            if matches!(e.node, ParseError::EmptyTerminal) {
                Err(e)
            } else {
                let out: Vec<Spanned<Production>> = Vec::new();
                proof {
                    assert(crate::ast::productions_view(out@) =~= Seq::<Spanned<ProductionV>>::empty());
                }
                Ok((pos, out))
            }
        },
        Ok((p, prod)) => {
            proof {
                // a production consumes at least its name, the `=` and the `;`
                assert(p > pos);
            }
            match syntax_rest(toks, p) {
                Err(e) => Err(e),
                Ok((p2, mut rest)) => {
                    proof {
                        lemma_productions_view_prepend(rest@, prod);
                    }
                    rest.insert(0, prod);
                    Ok((p2, rest))
                },
            }
        },
    }
}

/// Compiles a token stream into a grammar syntax tree: one or more
/// productions; tokens after the last well-formed production are ignored.
pub fn parse(tokens: &[Spanned<TokenKind>]) -> (r: Result<Spanned<Grammar>, Spanned<ParseError>>)
    ensures
        match r {
            Ok(g) => spec_parse(tokens_view(tokens@)) == Ok::<
                Spanned<GrammarV>,
                Spanned<ParseError>,
            >(Spanned { node: grammar_view(g.node), span: g.span }),
            Err(err) => spec_parse(tokens_view(tokens@)) == Err::<
                Spanned<GrammarV>,
                Spanned<ParseError>,
            >(err),
        },
{
    let toks = Tokens::new(tokens);
    match production(&toks, 0) {
        Err(e) => Err(e),
        Ok((p, p1)) => match syntax_rest(&toks, p) {
            Err(e) => Err(e),
            Ok((_, mut rest)) => {
                proof {
                    lemma_productions_view_prepend(rest@, p1);
                }
                rest.insert(0, p1);
                let start = rest[0].span.start;
                let end = rest[rest.len() - 1].span.end;
                Ok(Spanned { node: Grammar { productions: rest }, span: Span { start, end } })
            },
        },
    }
}

} // verus!
