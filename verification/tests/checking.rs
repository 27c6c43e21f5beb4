use ebnf::ast::{Grammar, Node, Span, Spanned, TokenKind};
use ebnf::checker::check;
use ebnf::parser::parse;
use ebnf::preprocessor::{preprocess, PreprocessError};

fn toks(kinds: Vec<TokenKind>) -> Vec<Spanned<TokenKind>> {
    kinds
        .into_iter()
        .enumerate()
        .map(|(i, node)| Spanned { node, span: Span { start: i, end: i + 1 } })
        .collect()
}

fn ident(s: &str) -> TokenKind {
    TokenKind::Identifier(s.to_string())
}

fn term(s: &str) -> TokenKind {
    TokenKind::Terminal(s.to_string())
}

/// Parses and validates a grammar given as a token list.
fn grammar(kinds: Vec<TokenKind>) -> Grammar {
    let g = parse(&toks(kinds)).expect("the grammar should parse");
    preprocess(g).expect("the grammar should validate").node
}

#[test]
fn check_is_deterministic() {
    // a = "a" | "ab" ;
    let g = grammar(vec![
        ident("a"),
        TokenKind::Definition,
        term("a"),
        TokenKind::Alternation,
        term("ab"),
        TokenKind::Terminator,
    ]);
    let first = check("ab", &g, "a");
    let second = check("ab", &g, "a");
    assert_eq!(first, second);
    let third = check("a", &g, "a");
    let fourth = check("a", &g, "a");
    assert_eq!(third, fourth);
}

#[test]
fn ordered_choice_takes_the_first_match() {
    // a = "a" | "ab" ;  -- branch one matches the prefix "a" and wins, so the
    // whole-input requirement rejects "ab" even though branch two matches it
    let g = grammar(vec![
        ident("a"),
        TokenKind::Definition,
        term("a"),
        TokenKind::Alternation,
        term("ab"),
        TokenKind::Terminator,
    ]);
    assert!(check("a", &g, "a").is_some());
    assert!(check("ab", &g, "a").is_none());
}

#[test]
fn repetition_is_greedy_and_never_backs_off() {
    // a = { "x" } , "x" ;  -- the repetition consumes every "x", leaving
    // nothing for the mandatory trailing one
    let g = grammar(vec![
        ident("a"),
        TokenKind::Definition,
        TokenKind::RepeatStart,
        term("x"),
        TokenKind::RepeatEnd,
        TokenKind::Concatenation,
        term("x"),
        TokenKind::Terminator,
    ]);
    assert!(check("xxx", &g, "a").is_none());
    assert!(check("x", &g, "a").is_none());
    assert!(check("", &g, "a").is_none());
}

#[test]
fn factor_matches_an_exact_count() {
    // a = 3 * "x" ;
    let g = grammar(vec![
        ident("a"),
        TokenKind::Definition,
        TokenKind::Integer(3),
        TokenKind::Repetition,
        term("x"),
        TokenKind::Terminator,
    ]);
    assert!(check("xxx", &g, "a").is_some());
    assert!(check("xx", &g, "a").is_none());
    assert!(check("xxxx", &g, "a").is_none());
}

#[test]
fn exception_subtracts_exact_matches() {
    // a = ( "x" | "y" ) - "x" ;
    let g = grammar(vec![
        ident("a"),
        TokenKind::Definition,
        TokenKind::GroupStart,
        term("x"),
        TokenKind::Alternation,
        term("y"),
        TokenKind::GroupEnd,
        TokenKind::Exception,
        term("x"),
        TokenKind::Terminator,
    ]);
    assert!(check("x", &g, "a").is_none());
    assert!(check("y", &g, "a").is_some());
}

#[test]
fn exception_tolerates_a_partial_restriction_match() {
    // a = "xy" - "x" ;  -- the restriction matches only a strict prefix of
    // the consumed span, so the subject's match stands
    let g = grammar(vec![
        ident("a"),
        TokenKind::Definition,
        term("xy"),
        TokenKind::Exception,
        term("x"),
        TokenKind::Terminator,
    ]);
    assert!(check("xy", &g, "a").is_some());
}

#[test]
fn left_recursion_is_rejected() {
    // a = a , "x" ;
    let g = parse(&toks(vec![
        ident("a"),
        TokenKind::Definition,
        ident("a"),
        TokenKind::Concatenation,
        term("x"),
        TokenKind::Terminator,
    ]))
    .unwrap();
    let err = preprocess(g).unwrap_err();
    assert_eq!(
        err.node,
        PreprocessError::LeftRecursion(vec!["a".to_string(), "a".to_string()])
    );
}

#[test]
fn right_recursion_is_accepted() {
    // a = "x" , a ;
    let g = parse(&toks(vec![
        ident("a"),
        TokenKind::Definition,
        term("x"),
        TokenKind::Concatenation,
        ident("a"),
        TokenKind::Terminator,
    ]))
    .unwrap();
    assert!(preprocess(g).is_ok());
}

#[test]
fn right_recursive_list_is_recognized() {
    // a = "x" , a | "x" ;
    let g = grammar(vec![
        ident("a"),
        TokenKind::Definition,
        term("x"),
        TokenKind::Concatenation,
        ident("a"),
        TokenKind::Alternation,
        term("x"),
        TokenKind::Terminator,
    ]);
    assert!(check("xxx", &g, "a").is_some());
    assert!(check("", &g, "a").is_none());
}

#[test]
fn undefined_reference_is_rejected() {
    // a = b ;
    let g = parse(&toks(vec![
        ident("a"),
        TokenKind::Definition,
        ident("b"),
        TokenKind::Terminator,
    ]))
    .unwrap();
    let err = preprocess(g).unwrap_err();
    assert_eq!(err.node, PreprocessError::UndefinedRule("b".to_string()));
    // at the reference's span
    assert_eq!(err.span, Span { start: 2, end: 3 });
}

#[test]
fn duplicate_definition_is_rejected() {
    // a = "x" ; a = "y" ;
    let g = parse(&toks(vec![
        ident("a"),
        TokenKind::Definition,
        term("x"),
        TokenKind::Terminator,
        ident("a"),
        TokenKind::Definition,
        term("y"),
        TokenKind::Terminator,
    ]))
    .unwrap();
    let err = preprocess(g).unwrap_err();
    assert_eq!(err.node, PreprocessError::MultipleDefinitions("a".to_string()));
    // at the first offending production's name
    assert_eq!(err.span, Span { start: 0, end: 1 });
}

#[test]
fn duplicates_win_over_undefined_references() {
    // a = b ; a = "x" ;  -- the duplicate pass runs first
    let g = parse(&toks(vec![
        ident("a"),
        TokenKind::Definition,
        ident("b"),
        TokenKind::Terminator,
        ident("a"),
        TokenKind::Definition,
        term("x"),
        TokenKind::Terminator,
    ]))
    .unwrap();
    let err = preprocess(g).unwrap_err();
    assert_eq!(err.node, PreprocessError::MultipleDefinitions("a".to_string()));
}

#[test]
fn empty_production_matches_only_the_empty_input() {
    // a = ;
    let g = grammar(vec![ident("a"), TokenKind::Definition, TokenKind::Terminator]);
    assert_eq!(
        check("", &g, "a"),
        Some(Node::Nonterminal("a".to_string(), vec![]))
    );
    assert!(check("x", &g, "a").is_none());
}

#[test]
fn empty_production_contributes_nothing_in_a_sequence() {
    // a = ; b = "x" , a , "y" ;
    let g = grammar(vec![
        ident("a"),
        TokenKind::Definition,
        TokenKind::Terminator,
        ident("b"),
        TokenKind::Definition,
        term("x"),
        TokenKind::Concatenation,
        ident("a"),
        TokenKind::Concatenation,
        term("y"),
        TokenKind::Terminator,
    ]);
    assert_eq!(
        check("xy", &g, "b"),
        Some(Node::Nonterminal(
            "b".to_string(),
            vec![
                Node::Terminal("x".to_string()),
                Node::Nonterminal("a".to_string(), vec![]),
                Node::Terminal("y".to_string()),
            ],
        ))
    );
}

#[test]
fn optional_matches_zero_or_one() {
    // a = [ "x" ] ;
    let g = grammar(vec![
        ident("a"),
        TokenKind::Definition,
        TokenKind::OptionStart,
        term("x"),
        TokenKind::OptionEnd,
        TokenKind::Terminator,
    ]);
    assert!(check("", &g, "a").is_some());
    assert!(check("x", &g, "a").is_some());
    assert!(check("xx", &g, "a").is_none());
}

#[test]
fn repeated_matches_any_count() {
    // a = { "x" } ;
    let g = grammar(vec![
        ident("a"),
        TokenKind::Definition,
        TokenKind::RepeatStart,
        term("x"),
        TokenKind::RepeatEnd,
        TokenKind::Terminator,
    ]);
    assert!(check("", &g, "a").is_some());
    assert!(check("x", &g, "a").is_some());
    assert!(check("xxxxx", &g, "a").is_some());
    assert!(check("xxy", &g, "a").is_none());
}

#[test]
fn special_sequences_never_match() {
    // a = ? directive ? ;
    let g = grammar(vec![
        ident("a"),
        TokenKind::Definition,
        TokenKind::Special(" directive ".to_string()),
        TokenKind::Terminator,
    ]);
    assert!(check("", &g, "a").is_none());
    assert!(check("directive", &g, "a").is_none());
}

#[test]
fn derivation_tree_nests_through_nonterminals() {
    // a = b , b ; b = "x" ;
    let g = grammar(vec![
        ident("a"),
        TokenKind::Definition,
        ident("b"),
        TokenKind::Concatenation,
        ident("b"),
        TokenKind::Terminator,
        ident("b"),
        TokenKind::Definition,
        term("x"),
        TokenKind::Terminator,
    ]);
    let b_first = Node::Nonterminal("b".to_string(), vec![Node::Terminal("x".to_string())]);
    let b_second = Node::Nonterminal("b".to_string(), vec![Node::Terminal("x".to_string())]);
    assert_eq!(
        check("xx", &g, "a"),
        Some(Node::Nonterminal("a".to_string(), vec![b_first, b_second]))
    );
}

#[test]
fn factor_collects_one_leaf_per_repetition() {
    // a = 3 * "x" ;
    let g = grammar(vec![
        ident("a"),
        TokenKind::Definition,
        TokenKind::Integer(3),
        TokenKind::Repetition,
        term("x"),
        TokenKind::Terminator,
    ]);
    assert_eq!(
        check("xxx", &g, "a"),
        Some(Node::Nonterminal(
            "a".to_string(),
            vec![
                Node::Terminal("x".to_string()),
                Node::Terminal("x".to_string()),
                Node::Terminal("x".to_string()),
            ],
        ))
    );
}

#[test]
fn unvalidated_grammar_with_dangling_reference_never_matches() {
    // a = b ;  -- handed to the recognizer without preprocessing
    let g = parse(&toks(vec![
        ident("a"),
        TokenKind::Definition,
        ident("b"),
        TokenKind::Terminator,
    ]))
    .unwrap();
    assert!(check("x", &g.node, "a").is_none());
    assert!(check("", &g.node, "a").is_none());
    // an unknown start rule is no match either
    assert!(check("x", &g.node, "z").is_none());
}

#[test]
fn alternative_with_three_branches_tries_them_in_order() {
    // a = "x" | "y" | "z" ;
    let g = grammar(vec![
        ident("a"),
        TokenKind::Definition,
        term("x"),
        TokenKind::Alternation,
        term("y"),
        TokenKind::Alternation,
        term("z"),
        TokenKind::Terminator,
    ]);
    assert!(check("x", &g, "a").is_some());
    assert!(check("y", &g, "a").is_some());
    assert!(check("z", &g, "a").is_some());
    assert!(check("w", &g, "a").is_none());
}

#[test]
fn sequence_with_three_members_concatenates() {
    // a = "x" , "y" , "z" ;
    let g = grammar(vec![
        ident("a"),
        TokenKind::Definition,
        term("x"),
        TokenKind::Concatenation,
        term("y"),
        TokenKind::Concatenation,
        term("z"),
        TokenKind::Terminator,
    ]);
    assert_eq!(
        check("xyz", &g, "a"),
        Some(Node::Nonterminal(
            "a".to_string(),
            vec![
                Node::Terminal("x".to_string()),
                Node::Terminal("y".to_string()),
                Node::Terminal("z".to_string()),
            ],
        ))
    );
    assert!(check("xy", &g, "a").is_none());
}

#[test]
fn factor_over_a_group_repeats_the_whole_group() {
    // a = 2 * ( "x" , "y" ) ;
    let g = grammar(vec![
        ident("a"),
        TokenKind::Definition,
        TokenKind::Integer(2),
        TokenKind::Repetition,
        TokenKind::GroupStart,
        term("x"),
        TokenKind::Concatenation,
        term("y"),
        TokenKind::GroupEnd,
        TokenKind::Terminator,
    ]);
    assert!(check("xyxy", &g, "a").is_some());
    assert!(check("xy", &g, "a").is_none());
    assert!(check("xyxyxy", &g, "a").is_none());
}

#[test]
fn repeated_optional_choice_recognizes_mixed_lists() {
    // a = { "x" | "yz" } ;
    let g = grammar(vec![
        ident("a"),
        TokenKind::Definition,
        TokenKind::RepeatStart,
        term("x"),
        TokenKind::Alternation,
        term("yz"),
        TokenKind::RepeatEnd,
        TokenKind::Terminator,
    ]);
    assert!(check("xyzx", &g, "a").is_some());
    assert!(check("yzyz", &g, "a").is_some());
    assert!(check("xy", &g, "a").is_none());
}

#[test]
fn whole_input_must_be_consumed() {
    // a = "x" ;
    let g = grammar(vec![ident("a"), TokenKind::Definition, term("x"), TokenKind::Terminator]);
    assert!(check("x", &g, "a").is_some());
    assert!(check("xx", &g, "a").is_none());
    assert!(check("", &g, "a").is_none());
    assert!(check("y", &g, "a").is_none());
}
