use ebnf::ast::{Expression, Span, Spanned, TokenKind};
use ebnf::parser::{parse, ParseError, Tokens};

fn toks(kinds: Vec<TokenKind>) -> Vec<Spanned<TokenKind>> {
    kinds
        .into_iter()
        .enumerate()
        .map(|(i, node)| Spanned { node, span: Span { start: i, end: i + 1 } })
        .collect()
}

fn ident(s: &str) -> TokenKind {
    TokenKind::Identifier(s.to_string())
}

fn term(s: &str) -> TokenKind {
    TokenKind::Terminal(s.to_string())
}

#[test]
fn tokens_new_remembers_first_span() {
    let ts = toks(vec![ident("a"), TokenKind::Definition]);
    let cursor = Tokens::new(&ts);
    assert_eq!(cursor.last_span(), Span { start: 0, end: 1 });
}

#[test]
fn tokens_new_on_empty_stream() {
    let ts: Vec<Spanned<TokenKind>> = Vec::new();
    let cursor = Tokens::new(&ts);
    assert_eq!(cursor.last_span(), Span { start: 0, end: 0 });
}

#[test]
fn parses_single_terminal_production() {
    // a = "x" ;
    let ts = toks(vec![ident("a"), TokenKind::Definition, term("x"), TokenKind::Terminator]);
    let g = parse(&ts).unwrap();
    assert_eq!(g.node.productions.len(), 1);
    let p = &g.node.productions[0];
    assert_eq!(p.node.lhs.node, "a");
    assert_eq!(p.node.rhs.node, Expression::Terminal("x".to_string()));
    assert_eq!(p.span, Span { start: 0, end: 4 });
}

#[test]
fn parses_ordered_alternative() {
    // a = "a" | "ab" ;
    let ts = toks(vec![
        ident("a"),
        TokenKind::Definition,
        term("a"),
        TokenKind::Alternation,
        term("ab"),
        TokenKind::Terminator,
    ]);
    let g = parse(&ts).unwrap();
    match &g.node.productions[0].node.rhs.node {
        Expression::Alternative { first, second, rest } => {
            assert_eq!(first.node, Expression::Terminal("a".to_string()));
            assert_eq!(second.node, Expression::Terminal("ab".to_string()));
            assert!(rest.is_empty());
        }
        other => panic!("expected an alternative, got {:?}", other),
    }
}

#[test]
fn parses_sequence_with_three_members() {
    // a = "x" , "y" , "z" ;
    let ts = toks(vec![
        ident("a"),
        TokenKind::Definition,
        term("x"),
        TokenKind::Concatenation,
        term("y"),
        TokenKind::Concatenation,
        term("z"),
        TokenKind::Terminator,
    ]);
    let g = parse(&ts).unwrap();
    match &g.node.productions[0].node.rhs.node {
        Expression::Sequence { first, second, rest } => {
            assert_eq!(first.node, Expression::Terminal("x".to_string()));
            assert_eq!(second.node, Expression::Terminal("y".to_string()));
            assert_eq!(rest.len(), 1);
            assert_eq!(rest[0].node, Expression::Terminal("z".to_string()));
        }
        other => panic!("expected a sequence, got {:?}", other),
    }
}

#[test]
fn grouping_is_transparent_and_respanned() {
    // a = ( "x" ) ;
    let ts = toks(vec![
        ident("a"),
        TokenKind::Definition,
        TokenKind::GroupStart,
        term("x"),
        TokenKind::GroupEnd,
        TokenKind::Terminator,
    ]);
    let g = parse(&ts).unwrap();
    let rhs = &g.node.productions[0].node.rhs;
    assert_eq!(rhs.node, Expression::Terminal("x".to_string()));
    assert_eq!(rhs.span, Span { start: 2, end: 5 });
}

#[test]
fn factor_with_zero_count_collapses_to_empty() {
    // a = 0 * "x" ;
    let ts = toks(vec![
        ident("a"),
        TokenKind::Definition,
        TokenKind::Integer(0),
        TokenKind::Repetition,
        term("x"),
        TokenKind::Terminator,
    ]);
    let g = parse(&ts).unwrap();
    let rhs = &g.node.productions[0].node.rhs;
    assert_eq!(rhs.node, Expression::Empty);
    assert_eq!(rhs.span, Span { start: 2, end: 5 });
}

#[test]
fn factor_keeps_positive_count() {
    // a = 3 * "x" ;
    let ts = toks(vec![
        ident("a"),
        TokenKind::Definition,
        TokenKind::Integer(3),
        TokenKind::Repetition,
        term("x"),
        TokenKind::Terminator,
    ]);
    let g = parse(&ts).unwrap();
    match &g.node.productions[0].node.rhs.node {
        Expression::Factor { count, primary } => {
            assert_eq!(count.node, 3);
            assert_eq!(primary.node, Expression::Terminal("x".to_string()));
        }
        other => panic!("expected a factor, got {:?}", other),
    }
}

#[test]
fn exception_binds_subject_and_restriction() {
    // a = "x" - "y" ;
    let ts = toks(vec![
        ident("a"),
        TokenKind::Definition,
        term("x"),
        TokenKind::Exception,
        term("y"),
        TokenKind::Terminator,
    ]);
    let g = parse(&ts).unwrap();
    match &g.node.productions[0].node.rhs.node {
        Expression::Exception { subject, restriction } => {
            assert_eq!(subject.node, Expression::Terminal("x".to_string()));
            assert_eq!(restriction.node, Expression::Terminal("y".to_string()));
        }
        other => panic!("expected an exception, got {:?}", other),
    }
}

#[test]
fn empty_production_parses_to_empty() {
    // a = ;
    let ts = toks(vec![ident("a"), TokenKind::Definition, TokenKind::Terminator]);
    let g = parse(&ts).unwrap();
    let rhs = &g.node.productions[0].node.rhs;
    assert_eq!(rhs.node, Expression::Empty);
    // a zero-width span at the end of the most recently consumed token, `=`
    assert_eq!(rhs.span, Span { start: 2, end: 2 });
}

#[test]
fn empty_terminal_is_a_hard_error() {
    // a = "" ;
    let ts = toks(vec![ident("a"), TokenKind::Definition, term(""), TokenKind::Terminator]);
    let err = parse(&ts).unwrap_err();
    assert_eq!(err.node, ParseError::EmptyTerminal);
    assert_eq!(err.span, Span { start: 2, end: 3 });
}

#[test]
fn empty_terminal_inside_brackets_aborts_parse() {
    // a = [ "" ] ;
    let ts = toks(vec![
        ident("a"),
        TokenKind::Definition,
        TokenKind::OptionStart,
        term(""),
        TokenKind::OptionEnd,
        TokenKind::Terminator,
    ]);
    let err = parse(&ts).unwrap_err();
    assert_eq!(err.node, ParseError::EmptyTerminal);
}

#[test]
fn missing_identifier_is_reported() {
    // = "x" ;
    let ts = toks(vec![TokenKind::Definition, term("x"), TokenKind::Terminator]);
    let err = parse(&ts).unwrap_err();
    assert_eq!(err.node, ParseError::NonterminalExpected);
    assert_eq!(err.span, Span { start: 0, end: 1 });
}

#[test]
fn missing_terminator_is_an_invalid_token() {
    // a = "x"
    let ts = toks(vec![ident("a"), TokenKind::Definition, term("x")]);
    let err = parse(&ts).unwrap_err();
    assert_eq!(err.node, ParseError::InvalidToken);
    // reported at the most recently consumed token
    assert_eq!(err.span, Span { start: 2, end: 3 });
}

#[test]
fn unclosed_bracket_surfaces_as_invalid_token() {
    // a = [ "x" ;    -- the bracketed branch is abandoned, `[` cannot stand
    let ts = toks(vec![
        ident("a"),
        TokenKind::Definition,
        TokenKind::OptionStart,
        term("x"),
        TokenKind::Terminator,
    ]);
    let err = parse(&ts).unwrap_err();
    assert_eq!(err.node, ParseError::InvalidToken);
    assert_eq!(err.span, Span { start: 2, end: 3 });
}

#[test]
fn tokens_after_last_production_are_ignored() {
    // a = "x" ; b b
    let ts = toks(vec![
        ident("a"),
        TokenKind::Definition,
        term("x"),
        TokenKind::Terminator,
        ident("b"),
        ident("b"),
    ]);
    let g = parse(&ts).unwrap();
    assert_eq!(g.node.productions.len(), 1);
}

#[test]
fn parses_two_productions() {
    // a = b ; b = "x" ;
    let ts = toks(vec![
        ident("a"),
        TokenKind::Definition,
        ident("b"),
        TokenKind::Terminator,
        ident("b"),
        TokenKind::Definition,
        term("x"),
        TokenKind::Terminator,
    ]);
    let g = parse(&ts).unwrap();
    assert_eq!(g.node.productions.len(), 2);
    assert_eq!(g.node.productions[0].node.lhs.node, "a");
    assert_eq!(
        g.node.productions[0].node.rhs.node,
        Expression::Nonterminal("b".to_string())
    );
    assert_eq!(g.node.productions[1].node.lhs.node, "b");
    assert_eq!(g.span, Span { start: 0, end: 8 });
}

#[test]
fn empty_branch_in_alternative() {
    // a = "x" | ;
    let ts = toks(vec![
        ident("a"),
        TokenKind::Definition,
        term("x"),
        TokenKind::Alternation,
        TokenKind::Terminator,
    ]);
    let g = parse(&ts).unwrap();
    match &g.node.productions[0].node.rhs.node {
        Expression::Alternative { first, second, rest } => {
            assert_eq!(first.node, Expression::Terminal("x".to_string()));
            assert_eq!(second.node, Expression::Empty);
            assert!(rest.is_empty());
        }
        other => panic!("expected an alternative, got {:?}", other),
    }
}
