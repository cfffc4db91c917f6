//! Compiles bytebeat source text into an evaluable tree.
//!
//! The data model lives here: spans, tokens, operators, tree nodes and parse
//! errors. The lexer, the Pratt parser and the evaluator are submodules.
use vstd::prelude::*;

use self::eval::{apply_operator, low_byte, to_sample, tree_at, value, Expr};
use self::lex::{lemma_skip_blank_all, lex_step, start_state};
use self::parse::{
    initial_state, lemma_parse_expr, lemma_saturation_noted, parse_expr, saturations, state_after,
    tokens, Parser,
};
use self::printing::{
    lemma_lexed_numbers, lemma_shaped_expr, lemma_shaped_tree, node_shaped, printable, printed,
    shaped, write_node,
};
use crate::text::string_from_chars;

pub mod chars;
pub mod eval;
pub mod lex;
pub mod parse;
pub mod precedence;
pub mod printing;
pub mod writing;

verus! {

/// Index of a node inside an arena of [`ASTNode`]s.
pub type NodeId = usize;

/// A source position: a line and an inclusive column range on that line.
#[derive(Debug, PartialEq, Eq, Clone, Copy, Structural)]
pub struct Span {
    pub line: usize,
    pub start: usize,
    pub end: usize,
}

impl Span {
    pub fn new(line: usize, start: usize, end: usize) -> (s: Span)
        ensures
            s == (Span { line, start, end }),
    {
        Span { line, start, end }
    }
}

/// A value together with the place in the source it came from.
#[derive(Debug, PartialEq, Eq)]
pub struct Spanned<T> {
    pub node: T,
    pub span: Span,
}

impl<T: Copy> Clone for Spanned<T> {
    fn clone(&self) -> (s: Self)
        ensures
            s == *self,
    {
        *self
    }
}

impl<T: Copy> Copy for Spanned<T> {

}

impl<T> Spanned<T> {
    pub fn new(node: T, span: Span) -> (s: Spanned<T>)
        ensures
            s == (Spanned { node, span }),
    {
        Spanned { node, span }
    }
}

/// The operators of the language, parentheses and the marks of the
/// ternary among them.
#[derive(Debug, PartialEq, Eq, Clone, Copy, Structural)]
pub enum Operator {
    Mul,
    Div,
    Plus,
    Minus,
    Mod,
    Lparen,
    Rparen,
    // Bitwise
    Rsh,
    Lsh,
    And,
    Or,
    BitXor,
    BitNot,
    // Logical
    LogAnd,
    LogOr,
    LogNot,
    // Relational
    Eq,
    Ne,
    Gt,
    Lt,
    Ge,
    Le,
    // Ternary operator
    Question,
    Colon,
}

/// Why the digits of a number literal could not be read.
#[derive(Debug, PartialEq, Eq, Clone, Copy, Structural)]
pub enum NumberErrorKind {
    /// A base prefix with no digit after it.
    Empty,
    /// A digit that the base does not have.
    InvalidDigit,
}

/// Why a piece of source is no token.
#[derive(Debug, PartialEq, Eq, Clone, Copy, Structural)]
pub enum LexErrorKind {
    /// A malformed number literal in the given base.
    ImproperNumber(u32, NumberErrorKind),
    /// A lone `=`: assignment is not part of the language.
    SolitaryEquals,
    /// A character that starts no token.
    UnexpectedChar(char),
}

/// What the lexer reads from the source.
#[derive(Debug, PartialEq, Eq, Clone, Copy, Structural)]
pub enum Token {
    /// The free variable `t`.
    Variable,
    Number(i32),
    Op(Operator),
    LexError(LexErrorKind),
    Eof,
}

/// A node of the tree. Children are named by their index in the arena.
#[derive(Debug, PartialEq, Eq, Clone, Copy, Structural)]
pub enum ASTNode {
    Literal(i32),
    /// The free variable `t`.
    Variable,
    Binary(Operator, NodeId, NodeId),
    Ternary(NodeId, NodeId, NodeId),
    /// Stands where a lexical error was met, so that the rest of the tree
    /// keeps its shape.
    Error(Span),
}

/// Why a source is no expression. Each comes with the span it was met at.
#[derive(Debug, PartialEq, Eq, Clone, Copy, Structural)]
pub enum ParseError {
    UnexpectedEof,
    ExpectedOperator(Token),
    UnmatchedParenthesis,
    UnexpectedPrefix(Operator),
    ExpectedTernaryColon,
    LexError(LexErrorKind),
}

/// What compiling `src` gives: for a source without any token, the empty
/// arena; else the arena and root that the parser builds from an empty
/// arena, if it records no error; else the errors it records.
pub open spec fn compiled(src: Seq<char>) -> Result<(Seq<ASTNode>, NodeId), Seq<
    Spanned<ParseError>,
>> {
    let toks = tokens(src);
    if toks[0].node is Eof {
        Ok((Seq::empty(), 0usize))
    } else {
        let out = parse_expr(toks, initial_state(Seq::empty()), 0);
        if out.state.errors.len() == 0 && out.node is Some {
            Ok((out.state.arena, out.node->0))
        } else {
            Err(out.state.errors)
        }
    }
}

/// The diagnostics of compiling `src`: the spans of the number literals
/// that were too large and were read as `i32::MAX`, among the tokens that
/// the parser came to look at.
pub open spec fn diagnosed(src: Seq<char>) -> Seq<Span> {
    let toks = tokens(src);
    if toks[0].node is Eof {
        saturations(src, 1)
    } else {
        saturations(src, parse_expr(toks, initial_state(Seq::empty()), 0).state.k + 1)
    }
}

/// Number saturation. A source whose first token is a number too large
/// for 32 bits has that number read as `i32::MAX`, and the span of the
/// literal is among the diagnostics of compiling it.
pub proof fn lemma_saturated_literal_is_diagnosed(src: Seq<char>)
    requires
        lex_step(src, start_state()).saturated,
    ensures
        lex_step(src, start_state()).token.node == Token::Number(i32::MAX),
        diagnosed(src).contains(lex_step(src, start_state()).token.span),
{
    let toks = tokens(src);
    let k = if toks[0].node is Eof {
        0nat
    } else {
        parse_expr(toks, initial_state(Seq::empty()), 0).state.k
    };
    assert(state_after(src, start_state(), 0) == start_state());
    lemma_saturation_noted(src, k + 1, 0);
}

/// A source of whitespace alone, the empty source among them, compiles to
/// the silent beat without a diagnostic, and the silent beat gives zero at
/// every sample index.
pub proof fn lemma_blank_source_is_silent(src: Seq<char>, beat: Beat, t: i32)
    requires
        forall|i: int| 0 <= i < src.len() ==> chars::is_space(#[trigger] src[i]),
        compiled(src) == Ok::<_, Seq<Spanned<ParseError>>>((beat.arena(), beat.root_id())),
    ensures
        compiled(src) == Ok::<_, Seq<Spanned<ParseError>>>((Seq::<ASTNode>::empty(), 0usize)),
        diagnosed(src) == Seq::<Span>::empty(),
        beat.sample(t) == 0,
{
    lemma_skip_blank_all(src, start_state());
    assert(lex_step(src, start_state()).token.node is Eof);
    assert(tokens(src)[0] == lex_step(src, start_state()).token);
    assert(saturations(src, 0) =~= Seq::<Span>::empty());
    assert(saturations(src, 1) =~= Seq::<Span>::empty());
}

/// A compiled expression: an arena of nodes and the id of the root.
///
/// Every node is one that source text can stand for: every child stands
/// before its parent, no node is an `Error` and no literal is negative. The
/// silent beat has an empty arena.
#[derive(Debug)]
pub struct Beat {
    nodes: Vec<ASTNode>,
    root: NodeId,
}

impl Beat {
    #[verifier::type_invariant]
    spec fn inv(self) -> bool {
        &&& shaped(self.nodes@)
        &&& if self.nodes.len() == 0 {
            self.root == 0
        } else {
            self.root < self.nodes.len()
        }
    }

    /// The nodes of the beat.
    pub closed spec fn arena(&self) -> Seq<ASTNode> {
        self.nodes@
    }

    /// The id of the root node.
    pub closed spec fn root_id(&self) -> NodeId {
        self.root
    }

    /// The expression as a tree.
    pub open spec fn tree(&self) -> Expr {
        tree_at(self.arena(), self.root_id() as int)
    }

    /// The sample the beat gives at `t`: zero for the silent beat, else the
    /// low byte of the expression's value.
    pub open spec fn sample(&self, t: i32) -> u8 {
        if self.arena().len() == 0 {
            0
        } else {
            low_byte(value(self.tree(), t))
        }
    }

    /// Compiles source text. A source of whitespace alone gives the silent
    /// beat. Any error fails the whole compilation, with every error that
    /// was met.
    pub fn compile(source: &str) -> (r: Result<Beat, Vec<Spanned<ParseError>>>)
        ensures
            match r {
                Ok(beat) => compiled(source@) == Ok::<_, Seq<Spanned<ParseError>>>(
                    (beat.arena(), beat.root_id()),
                ),
                Err(errors) => compiled(source@) == Err::<(Seq<ASTNode>, NodeId), _>(errors@)
                    && errors@.len() > 0,
            },
    {
        Beat::compile_with_diagnostics(source).0
    }

    /// Compiles source text as `compile` does, and gives the diagnostics
    /// besides: the span of each number literal that was too large and was
    /// read as `i32::MAX`. A diagnostic fails nothing.
    pub fn compile_with_diagnostics(source: &str) -> (r: (
        Result<Beat, Vec<Spanned<ParseError>>>,
        Vec<Span>,
    ))
        ensures
            match r.0 {
                Ok(beat) => compiled(source@) == Ok::<_, Seq<Spanned<ParseError>>>(
                    (beat.arena(), beat.root_id()),
                ),
                Err(errors) => compiled(source@) == Err::<(Seq<ASTNode>, NodeId), _>(errors@)
                    && errors@.len() > 0,
            },
            r.1@ == diagnosed(source@),
    {
        let mut parser = Parser::new(source, Vec::new());
        if parser.at_end() {
            let (_, noted) = parser.finish();
            return (Ok(Beat { nodes: Vec::new(), root: 0 }), noted);
        }
        let ghost start = initial_state(Seq::empty());
        proof {
            assert(parser.state().arena =~= Seq::<ASTNode>::empty());
            assert(parser.state() == start);
            lemma_parse_expr(tokens(source@), start, 0);
            lemma_lexed_numbers(source@, start_state());
            lemma_shaped_expr(tokens(source@), start, 0);
        }
        match parser.parse() {
            Ok(root) => {
                let (nodes, noted) = parser.finish();
                assert(shaped(start.arena));
                assert(nodes@.len() == nodes.len());
                (Ok(Beat { nodes, root }), noted)
            },
            Err(errors) => {
                let (_, noted) = parser.finish();
                (Err(errors), noted)
            },
        }
    }

    /// The next sample: the low eight bits of the expression's value at
    /// `t`. The silent beat gives zero.
    pub fn eval(&self, t: i32) -> (sample: u8)
        ensures
            sample == self.sample(t),
    {
        proof {
            use_type_invariant(self);
        }
        if self.nodes.len() == 0 {
            0
        } else {
            to_sample(self.eval_node(self.root, t))
        }
    }

    fn eval_node(&self, id: NodeId, t: i32) -> (v: i32)
        requires
            id < self.arena().len(),
        ensures
            v == value(tree_at(self.arena(), id as int), t),
        decreases id,
    {
        proof {
            use_type_invariant(self);
        }
        assert(node_shaped(self.nodes@, id as int));
        match self.nodes[id] {
            ASTNode::Literal(n) => n,
            ASTNode::Variable => t,
            ASTNode::Binary(op, left, right) => {
                let l = self.eval_node(left, t);
                let r = self.eval_node(right, t);
                apply_operator(op, l, r)
            },
            ASTNode::Ternary(cond, true_branch, false_branch) => {
                let c = self.eval_node(cond, t);
                if c != 0 {
                    self.eval_node(true_branch, t)
                } else {
                    self.eval_node(false_branch, t)
                }
            },
            ASTNode::Error(_) => 0,
        }
    }

    /// Writes the beat out as source text, with every operation in
    /// parentheses. The silent beat is written as the empty text. Compiling
    /// the text gives a beat with the same tree.
    pub fn to_source(&self) -> (source: String)
        ensures
            source@ == printed(self.tree()),
            self.arena().len() > 0 ==> printable(self.tree()),
    {
        proof {
            use_type_invariant(self);
        }
        let mut out: Vec<char> = Vec::new();
        if self.nodes.len() > 0 {
            proof {
                lemma_shaped_tree(self.nodes@, self.root as int);
            }
            write_node(&self.nodes, self.root, &mut out);
            assert(out@ =~= printed(self.tree()));
        } else {
            assert(printed(self.tree()) =~= Seq::<char>::empty());
        }
        string_from_chars(&out)
    }

    /// The nodes of the beat.
    pub fn nodes(&self) -> (nodes: &Vec<ASTNode>)
        ensures
            nodes@ == self.arena(),
    {
        &self.nodes
    }

    /// The id of the root node; zero for the silent beat.
    pub fn root(&self) -> (root: NodeId)
        ensures
            root == self.root_id(),
    {
        self.root
    }
}

impl Clone for Beat {
    fn clone(&self) -> (beat: Beat)
        ensures
            beat.arena() == self.arena(),
            beat.root_id() == self.root_id(),
    {
        proof {
            use_type_invariant(self);
        }
        let mut nodes: Vec<ASTNode> = Vec::new();
        let mut i: usize = 0;
        while i < self.nodes.len()
            invariant
                i <= self.nodes.len(),
                nodes@ == self.nodes@.subrange(0, i as int),
            decreases self.nodes.len() - i,
        {
            nodes.push(self.nodes[i]);
            i += 1;
            assert(nodes@ =~= self.nodes@.subrange(0, i as int));
        }
        assert(nodes@ =~= self.nodes@);
        Beat { nodes, root: self.root }
    }
}

impl Default for Beat {
    /// The silent beat.
    fn default() -> (beat: Beat)
        ensures
            beat.arena().len() == 0,
            beat.root_id() == 0,
    {
        Beat { nodes: Vec::new(), root: 0 }
    }
}

} // verus!
