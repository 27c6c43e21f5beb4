//! The grammar data model: spans, tokens, the `Expression` sum type,
//! productions, grammars, and derivation-tree nodes, together with the
//! mathematical models that the contracts of the parser, preprocessor and
//! recognizer speak about.

use vstd::prelude::*;

verus! {

/// A byte-offset range in grammar source text, used only for diagnostics.
#[derive(Clone, Copy, Debug, PartialEq, Eq, Structural)]
pub struct Span {
    pub start: usize,
    pub end: usize,
}

impl Span {
    /// The empty span at offset zero.
    pub fn new() -> (s: Span)
        ensures
            s == (Span { start: 0, end: 0 }),
    {
        Span { start: 0, end: 0 }
    }
}

/// A value together with the source span it was read from.
#[derive(Debug, PartialEq)]
pub struct Spanned<T> {
    pub node: T,
    pub span: Span,
}

/// A lexical token of the EBNF notation, as an external tokenizer hands it in.
#[derive(Debug, PartialEq)]
pub enum TokenKind {
    /// A rule name.
    Identifier(String),
    /// A non-negative repetition count.
    Integer(usize),
    /// A quoted literal; the text is the content without the quotes.
    Terminal(String),
    /// A special sequence: opaque out-of-band directive text.
    Special(String),
    /// `=`
    Definition,
    /// `;`
    Terminator,
    /// `|`
    Alternation,
    /// `,`
    Concatenation,
    /// `-`
    Exception,
    /// `*`
    Repetition,
    /// `[`
    OptionStart,
    /// `]`
    OptionEnd,
    /// `{`
    RepeatStart,
    /// `}`
    RepeatEnd,
    /// `(`
    GroupStart,
    /// `)`
    GroupEnd,
}

/// The mathematical value of a token: strings become character sequences.
pub ghost enum TokenV {
    Identifier(Seq<char>),
    Integer(nat),
    Terminal(Seq<char>),
    Special(Seq<char>),
    Definition,
    Terminator,
    Alternation,
    Concatenation,
    Exception,
    Repetition,
    OptionStart,
    OptionEnd,
    RepeatStart,
    RepeatEnd,
    GroupStart,
    GroupEnd,
}

pub open spec fn token_view(t: TokenKind) -> TokenV {
    match t {
        TokenKind::Identifier(s) => TokenV::Identifier(s@),
        TokenKind::Integer(n) => TokenV::Integer(n as nat),
        TokenKind::Terminal(s) => TokenV::Terminal(s@),
        TokenKind::Special(s) => TokenV::Special(s@),
        TokenKind::Definition => TokenV::Definition,
        TokenKind::Terminator => TokenV::Terminator,
        TokenKind::Alternation => TokenV::Alternation,
        TokenKind::Concatenation => TokenV::Concatenation,
        TokenKind::Exception => TokenV::Exception,
        TokenKind::Repetition => TokenV::Repetition,
        TokenKind::OptionStart => TokenV::OptionStart,
        TokenKind::OptionEnd => TokenV::OptionEnd,
        TokenKind::RepeatStart => TokenV::RepeatStart,
        TokenKind::RepeatEnd => TokenV::RepeatEnd,
        TokenKind::GroupStart => TokenV::GroupStart,
        TokenKind::GroupEnd => TokenV::GroupEnd,
    }
}

pub open spec fn stoken_view(t: Spanned<TokenKind>) -> Spanned<TokenV> {
    Spanned { node: token_view(t.node), span: t.span }
}

pub open spec fn tokens_view(ts: Seq<Spanned<TokenKind>>) -> Seq<Spanned<TokenV>> {
    Seq::new(ts.len(), |i: int| stoken_view(ts[i]))
}

/// One EBNF construct. The type is recursive: compound constructs hold their
/// sub-expressions behind heap indirection, each with its source span.
#[derive(Debug, PartialEq)]
pub enum Expression {
    /// Ordered choice over two or more branches, tried left to right.
    Alternative {
        first: Box<Spanned<Expression>>,
        second: Box<Spanned<Expression>>,
        rest: Vec<Spanned<Expression>>,
    },
    /// Concatenation of two or more members; all must match in order.
    Sequence {
        first: Box<Spanned<Expression>>,
        second: Box<Spanned<Expression>>,
        rest: Vec<Spanned<Expression>>,
    },
    /// Zero or one of the inner expression.
    Optional(Box<Spanned<Expression>>),
    /// Zero or more of the inner expression, greedy.
    Repeated(Box<Spanned<Expression>>),
    /// Exactly `count` repetitions of the primary.
    Factor { count: Spanned<usize>, primary: Box<Spanned<Expression>> },
    /// The subject, excluding exact matches of the restriction over the same
    /// consumed span.
    Exception { subject: Box<Spanned<Expression>>, restriction: Box<Spanned<Expression>> },
    /// A reference to another production by name.
    Nonterminal(String),
    /// Literal text that must match verbatim.
    Terminal(String),
    /// An opaque directive, not generically matchable.
    Special(String),
    /// Matches the empty string unconditionally.
    Empty,
}

/// The mathematical value of an `Expression`.
pub ghost enum ExprV {
    Alternative {
        first: Box<Spanned<ExprV>>,
        second: Box<Spanned<ExprV>>,
        rest: Seq<Spanned<ExprV>>,
    },
    Sequence {
        first: Box<Spanned<ExprV>>,
        second: Box<Spanned<ExprV>>,
        rest: Seq<Spanned<ExprV>>,
    },
    Optional(Box<Spanned<ExprV>>),
    Repeated(Box<Spanned<ExprV>>),
    Factor { count: Spanned<nat>, primary: Box<Spanned<ExprV>> },
    Exception { subject: Box<Spanned<ExprV>>, restriction: Box<Spanned<ExprV>> },
    Nonterminal(Seq<char>),
    Terminal(Seq<char>),
    Special(Seq<char>),
    Empty,
}

pub open spec fn count_view(c: Spanned<usize>) -> Spanned<nat> {
    Spanned { node: c.node as nat, span: c.span }
}

pub open spec fn expr_view(e: Expression) -> ExprV
    decreases e,
{
    match e {
        Expression::Alternative { first, second, rest } => ExprV::Alternative {
            first: Box::new(sexpr_view(*first)),
            second: Box::new(sexpr_view(*second)),
            rest: exprs_view(rest@),
        },
        Expression::Sequence { first, second, rest } => ExprV::Sequence {
            first: Box::new(sexpr_view(*first)),
            second: Box::new(sexpr_view(*second)),
            rest: exprs_view(rest@),
        },
        Expression::Optional(inner) => ExprV::Optional(Box::new(sexpr_view(*inner))),
        Expression::Repeated(inner) => ExprV::Repeated(Box::new(sexpr_view(*inner))),
        Expression::Factor { count, primary } => ExprV::Factor {
            count: count_view(count),
            primary: Box::new(sexpr_view(*primary)),
        },
        Expression::Exception { subject, restriction } => ExprV::Exception {
            subject: Box::new(sexpr_view(*subject)),
            restriction: Box::new(sexpr_view(*restriction)),
        },
        Expression::Nonterminal(s) => ExprV::Nonterminal(s@),
        Expression::Terminal(s) => ExprV::Terminal(s@),
        Expression::Special(s) => ExprV::Special(s@),
        Expression::Empty => ExprV::Empty,
    }
}

pub open spec fn sexpr_view(e: Spanned<Expression>) -> Spanned<ExprV>
    decreases e,
{
    Spanned { node: expr_view(e.node), span: e.span }
}

pub open spec fn exprs_view(es: Seq<Spanned<Expression>>) -> Seq<Spanned<ExprV>>
    decreases es,
{
    if es.len() == 0 {
        Seq::empty()
    } else {
        seq![sexpr_view(es[0])] + exprs_view(es.drop_first())
    }
}

pub broadcast proof fn lemma_exprs_view_len(es: Seq<Spanned<Expression>>)
    ensures
        #[trigger] exprs_view(es).len() == es.len(),
    decreases es,
{
    if es.len() > 0 {
        lemma_exprs_view_len(es.drop_first());
    }
}

pub broadcast proof fn lemma_exprs_view_index(es: Seq<Spanned<Expression>>, i: int)
    requires
        0 <= i < es.len(),
    ensures
        #[trigger] exprs_view(es)[i] == sexpr_view(es[i]),
    decreases es,
{
    lemma_exprs_view_len(es.drop_first());
    if i > 0 {
        lemma_exprs_view_index(es.drop_first(), i - 1);
    }
}

/// A named rule: `lhs = rhs ;`.
#[derive(Debug, PartialEq)]
pub struct Production {
    pub lhs: Spanned<String>,
    pub rhs: Spanned<Expression>,
}

/// An ordered collection of productions.
#[derive(Debug, PartialEq)]
pub struct Grammar {
    pub productions: Vec<Spanned<Production>>,
}

pub ghost struct ProductionV {
    pub lhs: Spanned<Seq<char>>,
    pub rhs: Spanned<ExprV>,
}

pub ghost struct GrammarV {
    pub productions: Seq<Spanned<ProductionV>>,
}

pub open spec fn production_view(p: Production) -> ProductionV {
    ProductionV {
        lhs: Spanned { node: p.lhs.node@, span: p.lhs.span },
        rhs: sexpr_view(p.rhs),
    }
}

pub open spec fn sproduction_view(p: Spanned<Production>) -> Spanned<ProductionV> {
    Spanned { node: production_view(p.node), span: p.span }
}

pub open spec fn productions_view(ps: Seq<Spanned<Production>>) -> Seq<Spanned<ProductionV>> {
    Seq::new(ps.len(), |i: int| sproduction_view(ps[i]))
}

pub open spec fn grammar_view(g: Grammar) -> GrammarV {
    GrammarV { productions: productions_view(g.productions@) }
}

/// A derivation-tree node: entering a production yields a nonterminal node
/// over its children; a matched literal yields a terminal leaf.
#[derive(Debug, PartialEq)]
pub enum Node {
    Nonterminal(String, Vec<Node>),
    Terminal(String),
}

/// The mathematical value of a derivation-tree node.
pub ghost enum NodeV {
    Nonterminal(Seq<char>, Seq<NodeV>),
    Terminal(Seq<char>),
}

pub open spec fn node_view(n: Node) -> NodeV
    decreases n,
{
    match n {
        Node::Nonterminal(name, children) => NodeV::Nonterminal(name@, nodes_view(children@)),
        Node::Terminal(text) => NodeV::Terminal(text@),
    }
}

pub open spec fn nodes_view(ns: Seq<Node>) -> Seq<NodeV>
    decreases ns,
{
    if ns.len() == 0 {
        Seq::empty()
    } else {
        seq![node_view(ns[0])] + nodes_view(ns.drop_first())
    }
}

pub broadcast proof fn lemma_nodes_view_len(ns: Seq<Node>)
    ensures
        #[trigger] nodes_view(ns).len() == ns.len(),
    decreases ns,
{
    if ns.len() > 0 {
        lemma_nodes_view_len(ns.drop_first());
    }
}

pub broadcast proof fn lemma_nodes_view_index(ns: Seq<Node>, i: int)
    requires
        0 <= i < ns.len(),
    ensures
        #[trigger] nodes_view(ns)[i] == node_view(ns[i]),
    decreases ns,
{
    lemma_nodes_view_len(ns.drop_first());
    if i > 0 {
        lemma_nodes_view_index(ns.drop_first(), i - 1);
    }
}

pub broadcast proof fn lemma_nodes_view_concat(a: Seq<Node>, b: Seq<Node>)
    ensures
        #[trigger] nodes_view(a + b) == nodes_view(a) + nodes_view(b),
{
    lemma_nodes_view_len(a);
    lemma_nodes_view_len(b);
    lemma_nodes_view_len(a + b);
    assert(nodes_view(a + b) =~= nodes_view(a) + nodes_view(b)) by {
        assert forall|i: int| 0 <= i < a.len() + b.len() implies nodes_view(a + b)[i] == (
        nodes_view(a) + nodes_view(b))[i] by {
            lemma_nodes_view_index(a + b, i);
            if i < a.len() {
                lemma_nodes_view_index(a, i);
                assert((a + b)[i] == a[i]);
            } else {
                lemma_nodes_view_index(b, i - a.len());
                assert((a + b)[i] == b[i - a.len()]);
            }
        }
    }
}

/// The character sequences of a list of strings.
pub open spec fn strings_view(ss: Seq<String>) -> Seq<Seq<char>> {
    Seq::new(ss.len(), |i: int| ss[i]@)
}

/// Compares two string slices character by character.
pub fn eq_str(a: &str, b: &str) -> (r: bool)
    ensures
        r == (a@ == b@),
{
    let la = a.unicode_len();
    let lb = b.unicode_len();
    if la != lb {
        assert(a@ != b@) by {
            assert(a@.len() != b@.len());
        }
        return false;
    }
    let mut i: usize = 0;
    while i < la
        invariant
            la == a@.len(),
            la == b@.len(),
            0 <= i <= la,
            forall|j: int| 0 <= j < i ==> a@[j] == b@[j],
        decreases la - i,
    {
        let ca = a.get_char(i);
        let cb = b.get_char(i);
        if ca != cb {
            assert(a@ != b@);
            return false;
        }
        i = i + 1;
    }
    assert(a@ =~= b@);
    true
}

} // verus!
