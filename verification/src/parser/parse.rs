//! A Pratt parser for one expression of the C subset.
//!
//! It reads tokens from a [`Lexer`] one at a time, appends tree nodes to an
//! arena and collects every error it meets instead of stopping at the first.
use vstd::prelude::*;

use super::lex::{
    lemma_lex_step, lemma_spans_monotone, lex_step, place_le, start_state, state_fits, LexState,
    Lexer,
};
use super::{ASTNode, NodeId, Operator, ParseError, Span, Spanned, Token};

verus! {

/// Binding power of every prefix operator: tighter than any infix operator.
pub const PREFIX_POWER: u8 = 99;

/// The tokens of `src` from the state `st` on, up to and with the first
/// `Eof`.
pub open spec fn tokens_from(src: Seq<char>, st: LexState) -> Seq<Spanned<Token>>
    decreases src.len() - st.pos,
{
    let step = lex_step(src, st);
    if step.token.node is Eof || step.next.pos <= st.pos || step.next.pos > src.len() {
        seq![step.token]
    } else {
        seq![step.token] + tokens_from(src, step.next)
    }
}

/// The state of a lexer that has read `n` tokens from the state `st`.
pub open spec fn state_after(src: Seq<char>, st: LexState, n: nat) -> LexState
    decreases n,
{
    if n == 0 {
        st
    } else {
        lex_step(src, state_after(src, st, (n - 1) as nat)).next
    }
}

/// The span of the token read from `st`, if it is a number that was cut
/// down to `i32::MAX`.
pub open spec fn saturation_at(src: Seq<char>, st: LexState) -> Seq<Span> {
    if lex_step(src, st).saturated {
        seq![lex_step(src, st).token.span]
    } else {
        Seq::empty()
    }
}

/// The spans of the numbers cut down to `i32::MAX` among the first `n`
/// tokens of `src`.
pub open spec fn saturations(src: Seq<char>, n: nat) -> Seq<Span>
    decreases n,
{
    if n == 0 {
        Seq::empty()
    } else {
        saturations(src, (n - 1) as nat) + saturation_at(
            src,
            state_after(src, start_state(), (n - 1) as nat),
        )
    }
}

/// A number that was cut down is on record from the token it is read with
/// on: its span is among the saturations of every count of tokens that
/// takes it in.
pub proof fn lemma_saturation_noted(src: Seq<char>, n: nat, j: nat)
    requires
        j < n,
        lex_step(src, state_after(src, start_state(), j)).saturated,
    ensures
        saturations(src, n).contains(
            lex_step(src, state_after(src, start_state(), j)).token.span,
        ),
    decreases n,
{
    let span = lex_step(src, state_after(src, start_state(), j)).token.span;
    let before = saturations(src, (n - 1) as nat);
    let last = saturation_at(src, state_after(src, start_state(), (n - 1) as nat));
    if j == n - 1 {
        assert(last[0] == span);
        assert((before + last)[before.len() as int] == span);
    } else {
        lemma_saturation_noted(src, (n - 1) as nat, j);
        let at = choose|i: int| 0 <= i < before.len() && before[i] == span;
        assert((before + last)[at] == span);
    }
}

/// All tokens of `src`, ending with its `Eof`.
pub open spec fn tokens(src: Seq<char>) -> Seq<Spanned<Token>> {
    tokens_from(src, start_state())
}

/// A token stream as a lexer gives it: not empty, `Eof` last and nowhere
/// else.
pub open spec fn stream_ok(toks: Seq<Spanned<Token>>) -> bool {
    &&& toks.len() > 0
    &&& toks.last().node is Eof
    &&& forall|i: int| 0 <= i < toks.len() - 1 ==> !((#[trigger] toks[i]).node is Eof)
}

/// The tokens from a state on form a stream as a lexer gives it: the token
/// read first, then those read from the state after it.
pub proof fn lemma_tokens_from(src: Seq<char>, st: LexState)
    requires
        state_fits(src, st),
        src.len() <= usize::MAX,
    ensures
        stream_ok(tokens_from(src, st)),
        tokens_from(src, st)[0] == lex_step(src, st).token,
        !(lex_step(src, st).token.node is Eof) ==> tokens_from(src, st) == seq![
            lex_step(src, st).token,
        ] + tokens_from(src, lex_step(src, st).next),
    decreases src.len() - st.pos,
{
    lemma_lex_step(src, st);
    let step = lex_step(src, st);
    if step.token.node is Eof || step.next.pos <= st.pos || step.next.pos > src.len() {
    } else {
        lemma_tokens_from(src, step.next);
        let rest = tokens_from(src, step.next);
        let all = tokens_from(src, st);
        assert(all.last() == rest.last());
        assert forall|i: int| 0 <= i < all.len() - 1 implies !((#[trigger] all[i]).node is Eof) by {
            if i > 0 {
                assert(all[i] == rest[i - 1]);
            }
        }
    }
}

/// Lexer span monotonicity. Of any two tokens of a source that follow one
/// another, the second starts at or after the start of the first, in
/// reading order: on a later line, or on the same line at no earlier column.
pub proof fn lemma_stream_monotone(src: Seq<char>, st: LexState, i: int)
    requires
        state_fits(src, st),
        src.len() <= usize::MAX,
        0 <= i,
        i + 1 < tokens_from(src, st).len(),
    ensures
        place_le(
            tokens_from(src, st)[i].span.line as int,
            tokens_from(src, st)[i].span.start as int,
            tokens_from(src, st)[i + 1].span.line as int,
            tokens_from(src, st)[i + 1].span.start as int,
        ),
    decreases i,
{
    lemma_lex_step(src, st);
    lemma_tokens_from(src, st);
    let step = lex_step(src, st);
    let all = tokens_from(src, st);
    let rest = tokens_from(src, step.next);
    assert(all == seq![step.token] + rest);
    lemma_tokens_from(src, step.next);
    if i == 0 {
        assert(all[1] == rest[0]);
        lemma_spans_monotone(src, st);
    } else {
        assert(all[i] == rest[i - 1]);
        assert(all[i + 1] == rest[i]);
        lemma_stream_monotone(src, step.next, i - 1);
    }
}

/// The binding powers of an infix operator, left then right; `None` for an
/// operator that joins no two operands. All of them associate to the left.
pub open spec fn binding_power_of(op: Operator) -> Option<(u8, u8)> {
    match op {
        Operator::Mul | Operator::Div | Operator::Mod => Some((80u8, 81u8)),
        Operator::Plus | Operator::Minus => Some((70u8, 71u8)),
        Operator::Lsh | Operator::Rsh => Some((60u8, 61u8)),
        Operator::Lt | Operator::Gt | Operator::Le | Operator::Ge => Some((50u8, 51u8)),
        Operator::Eq | Operator::Ne => Some((45u8, 46u8)),
        Operator::And => Some((40u8, 41u8)),
        Operator::BitXor => Some((35u8, 36u8)),
        Operator::Or => Some((30u8, 31u8)),
        Operator::LogAnd => Some((25u8, 26u8)),
        Operator::LogOr => Some((20u8, 21u8)),
        _ => None,
    }
}

/// The binding powers of the ternary `?`, which associates to the right;
/// `(0, 0)` for any other operator.
pub open spec fn infix_binding_power_of(op: Operator) -> (u8, u8) {
    match op {
        Operator::Question => (10u8, 9u8),
        _ => (0u8, 0u8),
    }
}

/// Whether the operator may stand before its one operand.
pub open spec fn is_prefix(op: Operator) -> bool {
    op == Operator::Minus || op == Operator::Plus || op == Operator::LogNot || op
        == Operator::BitNot
}

/// The binding powers of an infix operator, left then right.
pub fn binding_power(op: Operator) -> (bp: Option<(u8, u8)>)
    ensures
        bp == binding_power_of(op),
{
    match op {
        Operator::Mul | Operator::Div | Operator::Mod => Some((80, 81)),
        Operator::Plus | Operator::Minus => Some((70, 71)),
        Operator::Lsh | Operator::Rsh => Some((60, 61)),
        Operator::Lt | Operator::Gt | Operator::Le | Operator::Ge => Some((50, 51)),
        Operator::Eq | Operator::Ne => Some((45, 46)),
        Operator::And => Some((40, 41)),
        Operator::BitXor => Some((35, 36)),
        Operator::Or => Some((30, 31)),
        Operator::LogAnd => Some((25, 26)),
        Operator::LogOr => Some((20, 21)),
        _ => None,
    }
}

/// The binding powers of the ternary `?`.
pub fn infix_binding_power(op: Operator) -> (bp: (u8, u8))
    ensures
        bp == infix_binding_power_of(op),
{
    match op {
        Operator::Question => (10, 9),
        _ => (0, 0),
    }
}

/// What a parse has built so far: the index of the token it looks at, the
/// arena of nodes and the errors it has recorded.
pub struct ParseState {
    pub k: nat,
    pub arena: Seq<ASTNode>,
    pub errors: Seq<Spanned<ParseError>>,
}

/// A state together with the node that the parse produced, if it produced
/// one.
pub struct ParseOutcome {
    pub state: ParseState,
    pub node: Option<NodeId>,
}

/// The state that looks at the next token.
pub open spec fn shift(s: ParseState) -> ParseState {
    ParseState { k: s.k + 1, ..s }
}

/// The state with one more node; the node's id is the arena's old length.
pub open spec fn emit(s: ParseState, node: ASTNode) -> ParseState {
    ParseState { arena: s.arena.push(node), ..s }
}

/// The state with one more error.
pub open spec fn note(s: ParseState, error: ParseError, span: Span) -> ParseState {
    ParseState { errors: s.errors.push(Spanned { node: error, span }), ..s }
}

/// The id that the next node gets.
pub open spec fn next_id(s: ParseState) -> NodeId {
    s.arena.len() as usize
}

/// Ends with the node `id`.
pub open spec fn done(s: ParseState, id: NodeId) -> ParseOutcome {
    ParseOutcome { state: s, node: Some(id) }
}

/// Gives up with one more error and no node.
pub open spec fn stop(s: ParseState, error: ParseError, span: Span) -> ParseOutcome {
    ParseOutcome { state: note(s, error, span), node: None }
}

/// Whether the token at `k` is the operator `op`.
pub open spec fn at_op(toks: Seq<Spanned<Token>>, k: nat, op: Operator) -> bool {
    k < toks.len() && toks[k as int].node == Token::Op(op)
}

/// Parses one expression whose operators all bind at least as tightly as
/// `min_bp`: an operand, then as many infix operators and right operands as
/// bind that tightly.
pub open spec fn parse_expr(toks: Seq<Spanned<Token>>, s: ParseState, min_bp: u8) -> ParseOutcome
    decreases toks.len() - s.k, 2nat,
{
    let head = parse_head(toks, s);
    match head.node {
        Some(left) if s.k < head.state.k < toks.len() => parse_tail(
            toks,
            head.state,
            left,
            min_bp,
        ),
        _ => head,
    }
}

/// Parses an operand: the variable, a number, an expression in parentheses,
/// or a prefix operator and its operand. `-x`, `!x` and `~x` become a binary
/// node whose left child is a literal zero; `+x` is `x` itself. A lexical
/// error stands as an `Error` node, is recorded and passed over.
pub open spec fn parse_head(toks: Seq<Spanned<Token>>, s: ParseState) -> ParseOutcome
    decreases toks.len() - s.k, 1nat,
{
    if s.k >= toks.len() {
        ParseOutcome { state: s, node: None }
    } else {
        let t = toks[s.k as int];
        match t.node {
            Token::Variable => done(emit(shift(s), ASTNode::Variable), next_id(s)),
            Token::Number(n) => done(emit(shift(s), ASTNode::Literal(n)), next_id(s)),
            Token::LexError(kind) => done(
                shift(note(emit(s, ASTNode::Error(t.span)), ParseError::LexError(kind), t.span)),
                next_id(s),
            ),
            Token::Op(Operator::Lparen) => {
                let s1 = shift(s);
                if s1.k >= toks.len() || toks[s1.k as int].node is Eof {
                    stop(s1, ParseError::UnmatchedParenthesis, t.span)
                } else {
                    let inner = parse_expr(toks, s1, 0);
                    match inner.node {
                        None => inner,
                        Some(e) => if at_op(toks, inner.state.k, Operator::Rparen) {
                            done(shift(inner.state), e)
                        } else {
                            stop(inner.state, ParseError::UnmatchedParenthesis, t.span)
                        },
                    }
                }
            },
            Token::Op(op) => if is_prefix(op) {
                let operand = parse_expr(toks, shift(s), PREFIX_POWER);
                match operand.node {
                    None => operand,
                    Some(right) => if op == Operator::Plus {
                        operand
                    } else {
                        let zero = next_id(operand.state);
                        let with_zero = emit(operand.state, ASTNode::Literal(0));
                        done(
                            emit(with_zero, ASTNode::Binary(op, zero, right)),
                            next_id(with_zero),
                        )
                    },
                }
            } else {
                stop(s, ParseError::UnexpectedPrefix(op), t.span)
            },
            Token::Eof => stop(s, ParseError::UnexpectedEof, t.span),
        }
    }
}

/// Goes on after the operand `left`: while an infix operator follows that
/// binds at least as tightly as `min_bp`, parses its right operand and makes
/// the two one node. `? :` takes a whole expression between its marks. A
/// lexical error in operator position is recorded and passed over, and ends
/// the expression with what was built; an operand in operator position is an
/// error that gives up.
pub open spec fn parse_tail(
    toks: Seq<Spanned<Token>>,
    s: ParseState,
    left: NodeId,
    min_bp: u8,
) -> ParseOutcome
    decreases toks.len() - s.k, 1nat,
{
    if s.k >= toks.len() {
        done(s, left)
    } else {
        let t = toks[s.k as int];
        match t.node {
            Token::Eof => done(s, left),
            Token::LexError(kind) => done(shift(note(s, ParseError::LexError(kind), t.span)), left),
            Token::Variable | Token::Number(_) => stop(
                s,
                ParseError::ExpectedOperator(t.node),
                t.span,
            ),
            Token::Op(Operator::Question) => {
                if infix_binding_power_of(Operator::Question).0 < min_bp {
                    done(s, left)
                } else {
                    let then = parse_expr(toks, shift(s), 0);
                    match then.node {
                        None => then,
                        Some(yes) => if s.k < then.state.k && at_op(
                            toks,
                            then.state.k,
                            Operator::Colon,
                        ) {
                            let other = parse_expr(
                                toks,
                                shift(then.state),
                                infix_binding_power_of(Operator::Question).1,
                            );
                            match other.node {
                                None => other,
                                Some(no) => {
                                    let id = next_id(other.state);
                                    let joined = emit(
                                        other.state,
                                        ASTNode::Ternary(left, yes, no),
                                    );
                                    if s.k < joined.k < toks.len() {
                                        parse_tail(toks, joined, id, min_bp)
                                    } else {
                                        done(joined, id)
                                    }
                                },
                            }
                        } else {
                            stop(
                                then.state,
                                ParseError::ExpectedTernaryColon,
                                toks[then.state.k as int].span,
                            )
                        },
                    }
                }
            },
            Token::Op(op) => match binding_power_of(op) {
                None => done(s, left),
                Some((l_bp, r_bp)) => if l_bp < min_bp {
                    done(s, left)
                } else {
                    let operand = parse_expr(toks, shift(s), r_bp);
                    match operand.node {
                        None => operand,
                        Some(right) => {
                            let id = next_id(operand.state);
                            let joined = emit(operand.state, ASTNode::Binary(op, left, right));
                            if s.k < joined.k < toks.len() {
                                parse_tail(toks, joined, id, min_bp)
                            } else {
                                done(joined, id)
                            }
                        },
                    }
                },
            },
        }
    }
}

/// Whether the children of `node`, standing at index `i`, all stand before
/// it.
pub open spec fn node_forward(node: ASTNode, i: int) -> bool {
    match node {
        ASTNode::Binary(_, l, r) => l < i && r < i,
        ASTNode::Ternary(c, a, b) => c < i && a < i && b < i,
        _ => true,
    }
}

/// An arena in which every child stands before its parent.
pub open spec fn forward(arena: Seq<ASTNode>) -> bool {
    forall|i: int| 0 <= i < arena.len() ==> node_forward(#[trigger] arena[i], i)
}

/// No node from index `from` on is an `Error`.
pub open spec fn error_free(arena: Seq<ASTNode>, from: int) -> bool {
    forall|i: int| from <= i < arena.len() ==> !(#[trigger] arena[i] is Error)
}

/// `o` is `s` after more parsing: no token given back, no node and no error
/// changed or dropped.
pub open spec fn grows(s: ParseState, o: ParseState) -> bool {
    &&& s.k <= o.k
    &&& s.arena.len() <= o.arena.len()
    &&& forall|i: int| 0 <= i < s.arena.len() ==> #[trigger] o.arena[i] == s.arena[i]
    &&& s.errors.len() <= o.errors.len()
    &&& forall|i: int| 0 <= i < s.errors.len() ==> #[trigger] o.errors[i] == s.errors[i]
}

/// What holds of every step of a parse from `s` to `out`, where `held` is
/// the operand that the step began with, if it began with one.
pub open spec fn sound(
    toks: Seq<Spanned<Token>>,
    s: ParseState,
    held: Option<NodeId>,
    out: ParseOutcome,
) -> bool {
    &&& grows(s, out.state)
    &&& out.state.k < toks.len()
    &&& out.node is None ==> out.state.errors.len() > s.errors.len()
    &&& out.node is Some && held is None ==> out.state.k > s.k
    &&& out.state.arena.len() <= usize::MAX ==> {
        &&& forward(s.arena) && (held is Some ==> held->0 < s.arena.len()) ==> forward(
            out.state.arena,
        )
        &&& out.node is Some ==> out.node == held || s.arena.len() <= out.node->0
            < out.state.arena.len()
        &&& out.state.errors.len() == s.errors.len() ==> error_free(
            out.state.arena,
            s.arena.len() as int,
        )
    }
}

/// Parsing an expression is sound.
pub proof fn lemma_parse_expr(toks: Seq<Spanned<Token>>, s: ParseState, min_bp: u8)
    requires
        stream_ok(toks),
        s.k < toks.len(),
    ensures
        sound(toks, s, None, parse_expr(toks, s, min_bp)),
    decreases toks.len() - s.k, 2nat,
{
    lemma_parse_head(toks, s);
    let head = parse_head(toks, s);
    if head.node is Some {
        lemma_parse_tail(toks, head.state, head.node->0, min_bp);
    }
}

/// Parsing an operand is sound.
pub proof fn lemma_parse_head(toks: Seq<Spanned<Token>>, s: ParseState)
    requires
        stream_ok(toks),
        s.k < toks.len(),
    ensures
        sound(toks, s, None, parse_head(toks, s)),
    decreases toks.len() - s.k, 1nat,
{
    let t = toks[s.k as int];
    match t.node {
        Token::Op(Operator::Lparen) => {
            let s1 = shift(s);
            if !(toks[s1.k as int].node is Eof) {
                lemma_parse_expr(toks, s1, 0);
            }
        },
        Token::Op(op) => {
            if is_prefix(op) {
                lemma_parse_expr(toks, shift(s), PREFIX_POWER);
            }
        },
        _ => {},
    }
}

/// Going on after an operand is sound.
pub proof fn lemma_parse_tail(
    toks: Seq<Spanned<Token>>,
    s: ParseState,
    left: NodeId,
    min_bp: u8,
)
    requires
        stream_ok(toks),
        s.k < toks.len(),
    ensures
        sound(toks, s, Some(left), parse_tail(toks, s, left, min_bp)),
    decreases toks.len() - s.k, 1nat,
{
    let t = toks[s.k as int];
    match t.node {
        Token::Op(Operator::Question) => {
            if !(infix_binding_power_of(Operator::Question).0 < min_bp) {
                lemma_parse_expr(toks, shift(s), 0);
                let then = parse_expr(toks, shift(s), 0);
                if then.node is Some && at_op(toks, then.state.k, Operator::Colon) {
                    lemma_parse_expr(
                        toks,
                        shift(then.state),
                        infix_binding_power_of(Operator::Question).1,
                    );
                    let other = parse_expr(
                        toks,
                        shift(then.state),
                        infix_binding_power_of(Operator::Question).1,
                    );
                    if other.node is Some {
                        let id = next_id(other.state);
                        let joined = emit(other.state, ASTNode::Ternary(left, then.node->0, other.node->0));
                        lemma_parse_tail(toks, joined, id, min_bp);
                    }
                }
            }
        },
        Token::Op(op) => {
            match binding_power_of(op) {
                None => {},
                Some((l_bp, r_bp)) => {
                    if !(l_bp < min_bp) {
                        lemma_parse_expr(toks, shift(s), r_bp);
                        let operand = parse_expr(toks, shift(s), r_bp);
                        if operand.node is Some {
                            let id = next_id(operand.state);
                            let joined = emit(
                                operand.state,
                                ASTNode::Binary(op, left, operand.node->0),
                            );
                            lemma_parse_tail(toks, joined, id, min_bp);
                        }
                    }
                },
            }
        },
        _ => {},
    }
}

/// The state a parse starts in: at the first token, with the caller's arena
/// and no error.
pub open spec fn initial_state(arena: Seq<ASTNode>) -> ParseState {
    ParseState { k: 0, arena, errors: Seq::empty() }
}

/// Parses one expression from a source into an arena, looking one token
/// ahead.
pub struct Parser {
    lexer: Lexer,
    current_token: Spanned<Token>,
    arena: Vec<ASTNode>,
    errors: Vec<Spanned<ParseError>>,
    /// The index of `current_token` among the tokens of the source.
    k: Ghost<nat>,
}

impl Parser {
    /// The text that is being parsed.
    pub closed spec fn source(&self) -> Seq<char> {
        self.lexer.source()
    }

    /// Where the parse stands: the token looked at, the nodes and the errors
    /// so far.
    pub closed spec fn state(&self) -> ParseState {
        ParseState { k: self.k@, arena: self.arena@, errors: self.errors@ }
    }

    /// The spans of the number literals read so far that were too large and
    /// were cut down to `i32::MAX`.
    pub closed spec fn saturated_spans(&self) -> Seq<Span> {
        self.lexer.saturated_spans()
    }

    /// The parser looks at a token of its source, and its lexer stands right
    /// after that token.
    pub closed spec fn wf(&self) -> bool {
        let toks = tokens(self.source());
        &&& self.lexer.wf()
        &&& self.k@ < toks.len()
        &&& self.current_token == toks[self.k@ as int]
        &&& self.current_token.node is Eof || tokens_from(self.source(), self.lexer.state())
            == toks.skip(self.k@ as int + 1)
        &&& self.lexer.state() == state_after(self.source(), start_state(), self.k@ + 1)
        &&& self.lexer.saturated_spans() == saturations(self.source(), self.k@ + 1)
    }

    /// The saturated numbers on record are those among the tokens read so
    /// far: the token looked at and those before it.
    pub proof fn lemma_saturated(&self)
        requires
            self.wf(),
        ensures
            self.saturated_spans() == saturations(self.source(), self.state().k + 1),
    {
    }

    /// A parser at the first token of `input`, which appends to `arena`.
    pub fn new(input: &str, arena: Vec<ASTNode>) -> (parser: Parser)
        ensures
            parser.wf(),
            parser.source() == input@,
            parser.state() == initial_state(arena@),
            parser.saturated_spans() == saturations(input@, 1),
            stream_ok(tokens(input@)),
            input@.len() <= usize::MAX,
    {
        let mut lexer = Lexer::new(input);
        proof {
            lexer.lemma_wf_fits();
            lemma_tokens_from(lexer.source(), lexer.state());
        }
        let current_token = lexer.next();
        proof {
            assert(saturations(input@, 0) =~= Seq::<Span>::empty());
            assert(saturations(input@, 1) =~= saturation_at(input@, start_state()));
            assert(state_after(input@, start_state(), 0) == start_state());
            let toks = tokens(input@);
            if !(current_token.node is Eof) {
                assert(toks.skip(1) =~= tokens_from(input@, lexer.state()));
            }
        }
        Parser { lexer, current_token, arena, errors: Vec::new(), k: Ghost(0) }
    }

    /// The nodes built so far, after those the arena came with.
    pub fn arena(&self) -> (arena: &Vec<ASTNode>)
        ensures
            arena@ == self.state().arena,
    {
        &self.arena
    }

    /// Gives the arena back.
    pub fn into_arena(self) -> (arena: Vec<ASTNode>)
        ensures
            arena@ == self.state().arena,
    {
        self.arena
    }

    /// Ends the parse and gives the arena back, with the spans of the
    /// number literals that saturated.
    pub fn finish(self) -> (r: (Vec<ASTNode>, Vec<Span>))
        ensures
            r.0@ == self.state().arena,
            r.1@ == self.saturated_spans(),
    {
        (self.arena, self.lexer.into_saturated())
    }

    /// The errors recorded so far.
    pub fn errors(&self) -> (errors: &Vec<Spanned<ParseError>>)
        ensures
            errors@ == self.state().errors,
    {
        &self.errors
    }

    /// The spans of the number literals read so far that saturated.
    pub fn saturated(&self) -> (spans: &Vec<Span>)
        ensures
            spans@ == self.saturated_spans(),
    {
        self.lexer.saturated()
    }

    /// Whether the parser looks at the end of its source.
    pub fn at_end(&self) -> (b: bool)
        requires
            self.wf(),
        ensures
            b == (tokens(self.source())[self.state().k as int].node is Eof),
    {
        match self.current_token.node {
            Token::Eof => true,
            _ => false,
        }
    }

    /// Moves to the next token.
    fn advance(&mut self)
        requires
            old(self).wf(),
            !(tokens(old(self).source())[old(self).state().k as int].node is Eof),
        ensures
            final(self).wf(),
            final(self).source() == old(self).source(),
            final(self).state() == shift(old(self).state()),
    {
        let ghost src = self.source();
        let ghost toks = tokens(src);
        let ghost before = self.lexer.state();
        let ghost rest = tokens_from(src, before);
        let ghost k = self.k@;
        let ghost noted = self.lexer.saturated_spans();
        proof {
            self.lexer.lemma_wf_fits();
            lemma_tokens_from(src, before);
        }
        self.current_token = self.lexer.next();
        self.k = Ghost((k + 1) as nat);
        proof {
            let step = lex_step(src, before);
            assert(rest == toks.skip(k as int + 1));
            assert(rest.len() > 0);
            assert(rest[0] == toks[k as int + 1]);
            assert(self.current_token == toks[k as int + 1]);
            if !(self.current_token.node is Eof) {
                assert(rest.skip(1) =~= tokens_from(src, step.next));
                assert(toks.skip(k as int + 2) =~= rest.skip(1));
            }
            assert(state_after(src, start_state(), (k + 2) as nat) == step.next);
            assert(saturations(src, (k + 2) as nat) == saturations(src, (k + 1) as nat)
                + saturation_at(src, before));
            assert(noted + saturation_at(src, before) =~= self.lexer.saturated_spans());
        }
    }

    /// Appends a node and gives its id.
    fn push_node(&mut self, node: ASTNode) -> (id: NodeId)
        requires
            old(self).wf(),
        ensures
            final(self).wf(),
            final(self).source() == old(self).source(),
            final(self).state() == emit(old(self).state(), node),
            id == next_id(old(self).state()),
    {
        let id = self.arena.len();
        self.arena.push(node);
        id
    }

    /// Records an error.
    fn record(&mut self, error: ParseError, span: Span)
        requires
            old(self).wf(),
        ensures
            final(self).wf(),
            final(self).source() == old(self).source(),
            final(self).state() == note(old(self).state(), error, span),
    {
        self.errors.push(Spanned::new(error, span));
    }

    /// Parses the expression that starts at the current token and gives the
    /// id of its root. The result is `Ok` exactly if no error is on record
    /// when the parse ends; otherwise it is every error on record, in the
    /// order they were met, though nodes may have been built.
    pub fn parse(&mut self) -> (r: Result<NodeId, Vec<Spanned<ParseError>>>)
        requires
            old(self).wf(),
        ensures
            final(self).wf(),
            final(self).source() == old(self).source(),
            final(self).state() == parse_expr(
                tokens(old(self).source()),
                old(self).state(),
                0,
            ).state,
            final(self).saturated_spans() == saturations(
                old(self).source(),
                final(self).state().k + 1,
            ),
            match r {
                Ok(root) => final(self).state().errors.len() == 0 && parse_expr(
                    tokens(old(self).source()),
                    old(self).state(),
                    0,
                ).node == Some(root),
                Err(errors) => errors@ == final(self).state().errors && errors@.len() > 0,
            },
    {
        proof {
            self.lexer.lemma_wf_fits();
            lemma_tokens_from(self.source(), start_state());
            lemma_parse_expr(tokens(self.source()), self.state(), 0);
        }
        let root = self.parse_bp(0);
        match root {
            Some(id) if self.errors.len() == 0 => Ok(id),
            _ => Err(copy_errors(&self.errors)),
        }
    }

    fn parse_bp(&mut self, min_bp: u8) -> (node: Option<NodeId>)
        requires
            old(self).wf(),
        ensures
            final(self).wf(),
            final(self).source() == old(self).source(),
            (ParseOutcome { state: final(self).state(), node }) == parse_expr(
                tokens(old(self).source()),
                old(self).state(),
                min_bp,
            ),
        decreases tokens(old(self).source()).len() - old(self).state().k, 2nat,
    {
        proof {
            self.lexer.lemma_wf_fits();
            lemma_tokens_from(self.source(), start_state());
            lemma_parse_head(tokens(self.source()), self.state());
        }
        match self.parse_head() {
            Some(left) => self.parse_tail(left, min_bp),
            None => None,
        }
    }

    /// Goes on after the operand `first`.
    fn parse_tail(&mut self, first: NodeId, min_bp: u8) -> (node: Option<NodeId>)
        requires
            old(self).wf(),
        ensures
            final(self).wf(),
            final(self).source() == old(self).source(),
            (ParseOutcome { state: final(self).state(), node }) == parse_tail(
                tokens(old(self).source()),
                old(self).state(),
                first,
                min_bp,
            ),
        decreases tokens(old(self).source()).len() - old(self).state().k, 1nat,
    {
        let ghost toks = tokens(self.source());
        let ghost entry = self.state();
        proof {
            self.lexer.lemma_wf_fits();
            lemma_tokens_from(self.source(), start_state());
        }
        let mut left = first;
        loop
            invariant_except_break
                parse_tail(toks, self.state(), left, min_bp) == parse_tail(
                    toks,
                    entry,
                    first,
                    min_bp,
                ),
            invariant
                self.wf(),
                self.source() == old(self).source(),
                toks == tokens(self.source()),
                stream_ok(toks),
                entry == old(self).state(),
                entry.k <= self.state().k < toks.len(),
            ensures
                done(self.state(), left) == parse_tail(toks, entry, first, min_bp),
            decreases toks.len() - self.state().k,
        {
            let ghost s = self.state();
            let ghost held = left;
            let t = self.current_token;
            assert(t == toks[s.k as int]);
            let op = match t.node {
                Token::Op(op) => op,
                Token::Eof => {
                    assert(parse_tail(toks, s, held, min_bp) == done(s, held));
                    break ;
                },
                Token::LexError(kind) => {
                    self.record(ParseError::LexError(kind), t.span);
                    self.advance();
                    assert(parse_tail(toks, s, held, min_bp) == done(self.state(), held));
                    break ;
                },
                _ => {
                    self.record(ParseError::ExpectedOperator(t.node), t.span);
                    assert(parse_tail(toks, s, held, min_bp) == stop(
                        s,
                        ParseError::ExpectedOperator(t.node),
                        t.span,
                    ));
                    return None;
                },
            };
            if let Operator::Question = op {
                let (l_bp, r_bp) = infix_binding_power(op);
                if l_bp < min_bp {
                    assert(parse_tail(toks, s, held, min_bp) == done(s, held));
                    break ;
                }
                self.advance();
                proof {
                    lemma_parse_expr(toks, shift(s), 0);
                }
                let ghost then = parse_expr(toks, shift(s), 0);
                let yes = match self.parse_bp(0) {
                    Some(id) => id,
                    None => {
                        assert(parse_tail(toks, s, held, min_bp) == then);
                        return None;
                    },
                };
                let colon = self.current_token;
                assert(colon == toks[then.state.k as int]);
                if let Token::Op(Operator::Colon) = colon.node {
                    self.advance();
                    proof {
                        lemma_parse_expr(toks, shift(then.state), r_bp);
                    }
                    let ghost other = parse_expr(toks, shift(then.state), r_bp);
                    let no = match self.parse_bp(r_bp) {
                        Some(id) => id,
                        None => {
                            assert(parse_tail(toks, s, held, min_bp) == other);
                            return None;
                        },
                    };
                    left = self.push_node(ASTNode::Ternary(left, yes, no));
                    assert(parse_tail(toks, s, held, min_bp) == parse_tail(
                        toks,
                        self.state(),
                        left,
                        min_bp,
                    ));
                    continue ;
                } else {
                    self.record(ParseError::ExpectedTernaryColon, colon.span);
                    assert(!at_op(toks, then.state.k, Operator::Colon));
                    assert(parse_tail(toks, s, held, min_bp) == stop(
                        then.state,
                        ParseError::ExpectedTernaryColon,
                        colon.span,
                    ));
                    return None;
                }
            }
            if let Some((l_bp, r_bp)) = binding_power(op) {
                if l_bp < min_bp {
                    assert(parse_tail(toks, s, held, min_bp) == done(s, held));
                    break ;
                }
                self.advance();
                proof {
                    lemma_parse_expr(toks, shift(s), r_bp);
                }
                let ghost operand = parse_expr(toks, shift(s), r_bp);
                let right = match self.parse_bp(r_bp) {
                    Some(id) => id,
                    None => {
                        assert(parse_tail(toks, s, held, min_bp) == operand);
                        return None;
                    },
                };
                left = self.push_node(ASTNode::Binary(op, left, right));
                assert(parse_tail(toks, s, held, min_bp) == parse_tail(
                    toks,
                    self.state(),
                    left,
                    min_bp,
                ));
                continue ;
            } else {
                // a closing parenthesis, a colon: whoever opened it goes on
                assert(parse_tail(toks, s, held, min_bp) == done(s, held));
                break ;
            }
        }
        Some(left)
    }

    /// Parses an operand.
    fn parse_head(&mut self) -> (node: Option<NodeId>)
        requires
            old(self).wf(),
        ensures
            final(self).wf(),
            final(self).source() == old(self).source(),
            (ParseOutcome { state: final(self).state(), node }) == parse_head(
                tokens(old(self).source()),
                old(self).state(),
            ),
        decreases tokens(old(self).source()).len() - old(self).state().k, 1nat,
    {
        let ghost toks = tokens(self.source());
        let ghost s = self.state();
        proof {
            self.lexer.lemma_wf_fits();
            lemma_tokens_from(self.source(), start_state());
        }
        let t = self.current_token;
        match t.node {
            Token::Variable => {
                self.advance();
                Some(self.push_node(ASTNode::Variable))
            },
            Token::Number(n) => {
                self.advance();
                Some(self.push_node(ASTNode::Literal(n)))
            },
            Token::LexError(kind) => {
                let id = self.push_node(ASTNode::Error(t.span));
                self.record(ParseError::LexError(kind), t.span);
                self.advance();
                Some(id)
            },
            Token::Op(Operator::Lparen) => {
                self.advance();
                if self.at_end() {
                    self.record(ParseError::UnmatchedParenthesis, t.span);
                    return None;
                }
                proof {
                    lemma_parse_expr(toks, shift(s), 0);
                }
                let inner = match self.parse_bp(0) {
                    Some(id) => id,
                    None => {
                        return None;
                    },
                };
                if let Token::Op(Operator::Rparen) = self.current_token.node {
                    self.advance();
                    Some(inner)
                } else {
                    self.record(ParseError::UnmatchedParenthesis, t.span);
                    None
                }
            },
            Token::Op(op) => {
                match op {
                    Operator::Minus | Operator::Plus | Operator::LogNot | Operator::BitNot => {},
                    _ => {
                        self.record(ParseError::UnexpectedPrefix(op), t.span);
                        return None;
                    },
                }
                self.advance();
                proof {
                    lemma_parse_expr(toks, shift(s), PREFIX_POWER);
                }
                let right = match self.parse_bp(PREFIX_POWER) {
                    Some(id) => id,
                    None => {
                        return None;
                    },
                };
                match op {
                    Operator::Plus => Some(right),
                    _ => {
                        let zero = self.push_node(ASTNode::Literal(0));
                        Some(self.push_node(ASTNode::Binary(op, zero, right)))
                    },
                }
            },
            Token::Eof => {
                self.record(ParseError::UnexpectedEof, t.span);
                None
            },
        }
    }
}

/// A copy of the errors.
fn copy_errors(errors: &Vec<Spanned<ParseError>>) -> (copy: Vec<Spanned<ParseError>>)
    ensures
        copy@ == errors@,
{
    let mut copy: Vec<Spanned<ParseError>> = Vec::new();
    let mut i: usize = 0;
    while i < errors.len()
        invariant
            i <= errors.len(),
            copy@ == errors@.subrange(0, i as int),
        decreases errors.len() - i,
    {
        copy.push(errors[i]);
        i += 1;
        assert(copy@ =~= errors@.subrange(0, i as int));
    }
    assert(errors@.subrange(0, errors.len() as int) =~= errors@);
    copy
}

} // verus!
