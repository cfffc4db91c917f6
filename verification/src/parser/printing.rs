//! Writing an expression back out as source, and reading it in again.
//!
//! The text written for a tree puts every operation in parentheses, so that
//! reading it depends on no precedence. Compiling that text gives the tree
//! back.
use vstd::prelude::*;

use super::eval::{low_byte, tree_at, value, Expr};
use super::lex::{
    digits_number, lemma_lex_step, lemma_skip_blank_all, lex_step, number_token, scan,
    start_state, state_fits, LexState,
};
use super::parse::{
    at_op, binding_power_of, done, emit, infix_binding_power_of, initial_state, is_prefix,
    lemma_parse_expr, lemma_parse_head, lemma_parse_tail, lemma_tokens_from, next_id, parse_expr,
    parse_head, parse_tail, shift, sound, stream_ok, tokens, tokens_from, ParseOutcome,
    ParseState, PREFIX_POWER,
};
use super::writing::{
    all_writable, decimal, digit_char, kinds_of, lemma_lex_text, operator_text, text_of, word,
    writable,
};
use super::{compiled, ASTNode, Beat, NodeId, Operator, ParseError, Spanned, Token};

verus! {

/// Whether the operator joins two operands.
pub open spec fn is_infix(op: Operator) -> bool {
    binding_power_of(op) is Some
}

/// Whether the operator has one operand and is kept as a node of its own.
pub open spec fn is_unary(op: Operator) -> bool {
    op == Operator::LogNot || op == Operator::BitNot
}

/// A tree that source text can stand for: no error in it, no negative
/// literal, an infix operator in every binary node, or else a unary
/// operator whose left child is the literal zero.
pub open spec fn printable(e: Expr) -> bool
    decreases e,
{
    match e {
        Expr::Literal(n) => n >= 0,
        Expr::Variable => true,
        Expr::Binary(op, l, r) => printable(*r) && if is_unary(op) {
            *l == Expr::Literal(0)
        } else {
            is_infix(op) && printable(*l)
        },
        Expr::Ternary(c, a, b) => printable(*c) && printable(*a) && printable(*b),
        Expr::Error => false,
    }
}

/// The tokens written for a tree: an operand as it is, every operation
/// inside one pair of parentheses.
pub open spec fn printed_tokens(e: Expr) -> Seq<Token>
    decreases e,
{
    match e {
        Expr::Literal(n) => seq![Token::Number(n)],
        Expr::Variable => seq![Token::Variable],
        Expr::Binary(op, l, r) => if is_unary(op) {
            seq![Token::Op(Operator::Lparen), Token::Op(op)] + printed_tokens(*r) + seq![
                Token::Op(Operator::Rparen),
            ]
        } else {
            seq![Token::Op(Operator::Lparen)] + printed_tokens(*l) + seq![Token::Op(op)]
                + printed_tokens(*r) + seq![Token::Op(Operator::Rparen)]
        },
        Expr::Ternary(c, a, b) => seq![Token::Op(Operator::Lparen)] + printed_tokens(*c) + seq![
            Token::Op(Operator::Question),
        ] + printed_tokens(*a) + seq![Token::Op(Operator::Colon)] + printed_tokens(*b) + seq![
            Token::Op(Operator::Rparen),
        ],
        Expr::Error => Seq::empty(),
    }
}

/// How many nodes the parser builds for the written tree.
pub open spec fn node_count(e: Expr) -> nat
    decreases e,
{
    match e {
        Expr::Literal(_) => 1,
        Expr::Variable => 1,
        Expr::Binary(op, l, r) => if is_unary(op) {
            node_count(*r) + 2
        } else {
            node_count(*l) + node_count(*r) + 1
        },
        Expr::Ternary(c, a, b) => node_count(*c) + node_count(*a) + node_count(*b) + 1,
        Expr::Error => 0,
    }
}

/// The tokens from index `k` on are of the given kinds, in that order.
pub open spec fn reads(toks: Seq<Spanned<Token>>, k: int, kinds: Seq<Token>) -> bool {
    &&& 0 <= k
    &&& k + kinds.len() <= toks.len()
    &&& forall|i: int| 0 <= i < kinds.len() ==> (#[trigger] toks[k + i]).node == kinds[i]
}

/// `a` is the beginning of `b`.
pub open spec fn starts(a: Seq<ASTNode>, b: Seq<ASTNode>) -> bool {
    a.len() <= b.len() && forall|j: int| 0 <= j < a.len() ==> #[trigger] b[j] == a[j]
}

/// A tree does not change when its arena grows at the end.
pub proof fn lemma_tree_stable(a: Seq<ASTNode>, b: Seq<ASTNode>, id: int)
    requires
        starts(a, b),
        0 <= id < a.len(),
    ensures
        tree_at(a, id) == tree_at(b, id),
    decreases id,
{
    match a[id] {
        ASTNode::Binary(_, l, r) => {
            if l < id && r < id {
                lemma_tree_stable(a, b, l as int);
                lemma_tree_stable(a, b, r as int);
            }
        },
        ASTNode::Ternary(c, x, y) => {
            if c < id && x < id && y < id {
                lemma_tree_stable(a, b, c as int);
                lemma_tree_stable(a, b, x as int);
                lemma_tree_stable(a, b, y as int);
            }
        },
        _ => {},
    }
}

/// Written tokens start with an operand or an opening parenthesis, and
/// there is at least one.
pub proof fn lemma_printed_first(e: Expr)
    requires
        printable(e),
    ensures
        printed_tokens(e).len() >= 1,
        printed_tokens(e)[0] is Number || printed_tokens(e)[0] is Variable || printed_tokens(e)[0]
            == Token::Op(Operator::Lparen),
        node_count(e) >= 1,
{
}

/// What parsing the written tokens of `e` from `s` comes to: `out` stands
/// right after them with no new error, and its node is the root of `e`,
/// built at the end of the arena.
pub open spec fn parsed_as(s: ParseState, e: Expr, out: ParseOutcome) -> bool {
    &&& out.state.k == s.k + printed_tokens(e).len()
    &&& out.state.errors == s.errors
    &&& starts(s.arena, out.state.arena)
    &&& out.state.arena.len() == s.arena.len() + node_count(e)
    &&& out.node == Some((out.state.arena.len() - 1) as usize)
    &&& tree_at(out.state.arena, out.state.arena.len() - 1) == e
}

/// The parser reads the written tokens of a tree as that tree, whatever
/// follows them.
pub proof fn lemma_head_of_printed(toks: Seq<Spanned<Token>>, s: ParseState, e: Expr)
    requires
        printable(e),
        reads(toks, s.k as int, printed_tokens(e)),
        s.k + printed_tokens(e).len() < toks.len(),
        s.arena.len() + node_count(e) <= usize::MAX,
    ensures
        parsed_as(s, e, parse_head(toks, s)),
    decreases e, 1nat,
{
    let kinds = printed_tokens(e);
    lemma_printed_first(e);
    assert(toks[s.k as int + 0].node == kinds[0]);
    match e {
        Expr::Literal(n) => {
            let out = parse_head(toks, s);
            assert(out.state.arena == s.arena.push(ASTNode::Literal(n)));
        },
        Expr::Variable => {
            let out = parse_head(toks, s);
            assert(out.state.arena == s.arena.push(ASTNode::Variable));
        },
        Expr::Binary(op, l, r) => {
            if is_unary(op) {
                lemma_unary_of_printed(toks, s, e, op, *r);
            } else {
                lemma_binary_of_printed(toks, s, e, op, *l, *r);
            }
        },
        Expr::Ternary(c, a, b) => {
            lemma_ternary_of_printed(toks, s, e, *c, *a, *b);
        },
        Expr::Error => {},
    }
}

/// A token that ends an operand: after it the parser goes on with nothing.
pub open spec fn closes(t: Token) -> bool {
    t == Token::Op(Operator::Rparen) || t == Token::Op(Operator::Colon) || t is Eof
}

/// At a closing parenthesis, a colon or the end, what was built is the
/// whole expression.
pub proof fn lemma_tail_stops(toks: Seq<Spanned<Token>>, s: ParseState, left: NodeId, min_bp: u8)
    requires
        s.k < toks.len(),
        closes(toks[s.k as int].node),
    ensures
        parse_tail(toks, s, left, min_bp) == done(s, left),
{
}

/// An expression made of the written tokens of `e` alone, before a token
/// that closes it, is read as `e`.
pub proof fn lemma_expr_of_printed(toks: Seq<Spanned<Token>>, s: ParseState, e: Expr, min_bp: u8)
    requires
        printable(e),
        reads(toks, s.k as int, printed_tokens(e)),
        s.k + printed_tokens(e).len() < toks.len(),
        closes(toks[s.k as int + printed_tokens(e).len() as int].node),
        s.arena.len() + node_count(e) <= usize::MAX,
    ensures
        parsed_as(s, e, parse_expr(toks, s, min_bp)),
    decreases e, 2nat,
{
    lemma_head_of_printed(toks, s, e);
    lemma_printed_first(e);
    let head = parse_head(toks, s);
    lemma_tail_stops(toks, head.state, head.node->0, min_bp);
}

proof fn lemma_unary_of_printed(
    toks: Seq<Spanned<Token>>,
    s: ParseState,
    e: Expr,
    op: Operator,
    r: Expr,
)
    requires
        e == Expr::Binary(op, Box::new(Expr::Literal(0)), Box::new(r)),
        printable(e),
        is_unary(op),
        reads(toks, s.k as int, printed_tokens(e)),
        s.k + printed_tokens(e).len() < toks.len(),
        s.arena.len() + node_count(e) <= usize::MAX,
    ensures
        parsed_as(s, e, parse_head(toks, s)),
    decreases e, 0nat,
{
    let kinds = printed_tokens(e);
    let inner = printed_tokens(r);
    let n = inner.len() as int;
    lemma_printed_first(r);
    assert(kinds.len() == n + 3);
    assert(toks[s.k as int + 0].node == kinds[0]);
    assert(toks[s.k as int + 1].node == kinds[1]);
    assert(toks[s.k as int + (n + 2)].node == kinds[n + 2]);
    let s1 = shift(s);
    let s2 = shift(s1);
    assert(reads(toks, s2.k as int, inner)) by {
        assert forall|i: int| 0 <= i < inner.len() implies (#[trigger] toks[s2.k + i]).node
            == inner[i] by {
            assert(toks[s.k + (i + 2)].node == kinds[i + 2]);
        }
    }
    // the operand, read behind the operator
    lemma_expr_of_printed(toks, s2, r, PREFIX_POWER);
    let operand = parse_expr(toks, s2, PREFIX_POWER);
    let right = operand.node->0;
    let zero = next_id(operand.state);
    let with_zero = emit(operand.state, ASTNode::Literal(0));
    let built = emit(with_zero, ASTNode::Binary(op, zero, right));
    let id = next_id(with_zero);
    // the operator and its operand, read behind the parenthesis
    assert(is_prefix(op));
    assert(parse_head(toks, s1) == done(built, id));
    lemma_tail_stops(toks, built, id, 0);
    assert(parse_expr(toks, s1, 0) == done(built, id));
    assert(at_op(toks, built.k, Operator::Rparen));
    assert(parse_head(toks, s) == done(shift(built), id));
    // the tree of what was built
    lemma_tree_stable(operand.state.arena, built.arena, right as int);
    assert(built.arena[id as int] == ASTNode::Binary(op, zero, right));
    assert(built.arena[zero as int] == ASTNode::Literal(0));
    assert(tree_at(built.arena, zero as int) == Expr::Literal(0));
    assert(tree_at(built.arena, id as int) == e);
}

proof fn lemma_binary_of_printed(
    toks: Seq<Spanned<Token>>,
    s: ParseState,
    e: Expr,
    op: Operator,
    l: Expr,
    r: Expr,
)
    requires
        e == Expr::Binary(op, Box::new(l), Box::new(r)),
        printable(e),
        !is_unary(op),
        reads(toks, s.k as int, printed_tokens(e)),
        s.k + printed_tokens(e).len() < toks.len(),
        s.arena.len() + node_count(e) <= usize::MAX,
    ensures
        parsed_as(s, e, parse_head(toks, s)),
    decreases e, 0nat,
{
    let kinds = printed_tokens(e);
    let lk = printed_tokens(l);
    let rk = printed_tokens(r);
    lemma_printed_first(l);
    lemma_printed_first(r);
    let nl = lk.len() as int;
    let nr = rk.len() as int;
    assert(kinds.len() == nl + nr + 3);
    assert(toks[s.k as int + 0].node == kinds[0]);
    assert(toks[s.k as int + (nl + 1)].node == kinds[nl + 1]);
    assert(toks[s.k as int + (nl + nr + 2)].node == kinds[nl + nr + 2]);
    let s1 = shift(s);
    assert(reads(toks, s1.k as int, lk)) by {
        assert forall|i: int| 0 <= i < lk.len() implies (#[trigger] toks[s1.k + i]).node
            == lk[i] by {
            assert(toks[s.k + (i + 1)].node == kinds[i + 1]);
        }
    }
    assert(toks[s1.k as int + 0].node == lk[0]);
    // the left operand
    lemma_head_of_printed(toks, s1, l);
    let left_out = parse_head(toks, s1);
    let left = left_out.node->0;
    let s2 = shift(left_out.state);
    assert(reads(toks, s2.k as int, rk)) by {
        assert forall|i: int| 0 <= i < rk.len() implies (#[trigger] toks[s2.k + i]).node
            == rk[i] by {
            assert(toks[s.k as int + (i + nl + 2)].node == kinds[i + nl + 2]);
        }
    }
    // the right operand, read behind the operator
    let powers = binding_power_of(op)->0;
    let r_bp = powers.1;
    lemma_expr_of_printed(toks, s2, r, r_bp);
    let operand = parse_expr(toks, s2, r_bp);
    let right = operand.node->0;
    let id = next_id(operand.state);
    let built = emit(operand.state, ASTNode::Binary(op, left, right));
    lemma_tail_stops(toks, built, id, 0);
    assert(toks[left_out.state.k as int].node == Token::Op(op));
    assert(parse_tail(toks, left_out.state, left, 0) == done(built, id));
    assert(parse_expr(toks, s1, 0) == done(built, id));
    assert(at_op(toks, built.k, Operator::Rparen));
    assert(parse_head(toks, s) == done(shift(built), id));
    // the tree of what was built
    lemma_tree_stable(left_out.state.arena, built.arena, left as int);
    lemma_tree_stable(operand.state.arena, built.arena, right as int);
    assert(built.arena[id as int] == ASTNode::Binary(op, left, right));
    assert(tree_at(built.arena, id as int) == e);
}

proof fn lemma_ternary_of_printed(
    toks: Seq<Spanned<Token>>,
    s: ParseState,
    e: Expr,
    c: Expr,
    a: Expr,
    b: Expr,
)
    requires
        e == Expr::Ternary(Box::new(c), Box::new(a), Box::new(b)),
        printable(e),
        reads(toks, s.k as int, printed_tokens(e)),
        s.k + printed_tokens(e).len() < toks.len(),
        s.arena.len() + node_count(e) <= usize::MAX,
    ensures
        parsed_as(s, e, parse_head(toks, s)),
    decreases e, 0nat,
{
    let kinds = printed_tokens(e);
    let ck = printed_tokens(c);
    let ak = printed_tokens(a);
    let bk = printed_tokens(b);
    lemma_printed_first(c);
    lemma_printed_first(a);
    lemma_printed_first(b);
    let nc = ck.len() as int;
    let na = ak.len() as int;
    let nb = bk.len() as int;
    assert(kinds.len() == nc + na + nb + 4);
    assert(toks[s.k as int + 0].node == kinds[0]);
    assert(toks[s.k as int + (nc + 1)].node == kinds[nc + 1]);
    assert(toks[s.k as int + (nc + na + 2)].node == kinds[nc + na + 2]);
    assert(toks[s.k as int + (nc + na + nb + 3)].node == kinds[nc + na + nb + 3]);
    let s1 = shift(s);
    assert(reads(toks, s1.k as int, ck)) by {
        assert forall|i: int| 0 <= i < ck.len() implies (#[trigger] toks[s1.k + i]).node
            == ck[i] by {
            assert(toks[s.k + (i + 1)].node == kinds[i + 1]);
        }
    }
    assert(toks[s1.k as int + 0].node == ck[0]);
    // the condition
    lemma_head_of_printed(toks, s1, c);
    let cond_out = parse_head(toks, s1);
    let cond = cond_out.node->0;
    let s2 = shift(cond_out.state);
    assert(reads(toks, s2.k as int, ak)) by {
        assert forall|i: int| 0 <= i < ak.len() implies (#[trigger] toks[s2.k + i]).node
            == ak[i] by {
            assert(toks[s.k as int + (i + nc + 2)].node == kinds[i + nc + 2]);
        }
    }
    // the branch taken, read up to the colon
    lemma_expr_of_printed(toks, s2, a, 0);
    let then = parse_expr(toks, s2, 0);
    let yes = then.node->0;
    let s3 = shift(then.state);
    assert(reads(toks, s3.k as int, bk)) by {
        assert forall|i: int| 0 <= i < bk.len() implies (#[trigger] toks[s3.k + i]).node
            == bk[i] by {
            assert(toks[s.k as int + (i + nc + na + 3)].node == kinds[i + nc + na + 3]);
        }
    }
    // the other branch, read up to the parenthesis
    let r_bp = infix_binding_power_of(Operator::Question).1;
    lemma_expr_of_printed(toks, s3, b, r_bp);
    let other = parse_expr(toks, s3, r_bp);
    let no = other.node->0;
    let id = next_id(other.state);
    let built = emit(other.state, ASTNode::Ternary(cond, yes, no));
    lemma_tail_stops(toks, built, id, 0);
    assert(toks[cond_out.state.k as int].node == Token::Op(Operator::Question));
    assert(at_op(toks, then.state.k, Operator::Colon));
    assert(parse_tail(toks, cond_out.state, cond, 0) == done(built, id));
    assert(parse_expr(toks, s1, 0) == done(built, id));
    assert(at_op(toks, built.k, Operator::Rparen));
    assert(parse_head(toks, s) == done(shift(built), id));
    // the tree of what was built
    lemma_tree_stable(cond_out.state.arena, built.arena, cond as int);
    lemma_tree_stable(then.state.arena, built.arena, yes as int);
    lemma_tree_stable(other.state.arena, built.arena, no as int);
    assert(built.arena[id as int] == ASTNode::Ternary(cond, yes, no));
    assert(tree_at(built.arena, id as int) == e);
}

/// The source text written for a tree.
pub open spec fn printed(e: Expr) -> Seq<char> {
    text_of(printed_tokens(e))
}

/// Every token written for a printable tree can be written.
pub proof fn lemma_printed_writable(e: Expr)
    requires
        printable(e),
    ensures
        all_writable(printed_tokens(e)),
    decreases e,
{
    match e {
        Expr::Binary(op, l, r) => {
            lemma_printed_writable(*r);
            if !is_unary(op) {
                lemma_printed_writable(*l);
            }
        },
        Expr::Ternary(c, a, b) => {
            lemma_printed_writable(*c);
            lemma_printed_writable(*a);
            lemma_printed_writable(*b);
        },
        _ => {},
    }
}

/// The text written for a printable tree compiles, without an error, to
/// that tree.
pub proof fn lemma_compile_printed(e: Expr)
    requires
        printable(e),
        node_count(e) <= usize::MAX,
    ensures
        compiled(printed(e)) is Ok,
        compiled(printed(e))->Ok_0.0.len() > 0,
        tree_at(compiled(printed(e))->Ok_0.0, compiled(printed(e))->Ok_0.1 as int) == e,
{
    let kinds = printed_tokens(e);
    let src = printed(e);
    let toks = tokens(src);
    lemma_printed_writable(e);
    lemma_printed_first(e);
    assert(src.skip(0) =~= src);
    lemma_lex_text(src, start_state(), kinds);
    let read = kinds.push(Token::Eof);
    assert(kinds_of(toks) == read);
    assert(toks.len() == kinds.len() + 1);
    assert forall|i: int| 0 <= i < toks.len() implies (#[trigger] toks[i]).node == read[i] by {
        assert(kinds_of(toks)[i] == toks[i].node);
    }
    assert(reads(toks, 0, kinds)) by {
        assert forall|i: int| 0 <= i < kinds.len() implies (#[trigger] toks[0 + i]).node
            == kinds[i] by {
            assert(read[i] == kinds[i]);
        }
    }
    assert(toks[kinds.len() as int].node == read[kinds.len() as int]);
    assert(toks[0].node == read[0]);
    let start = initial_state(Seq::empty());
    lemma_expr_of_printed(toks, start, e, 0);
}

/// Every number token is zero or more.
pub open spec fn numbers_ok(toks: Seq<Spanned<Token>>) -> bool {
    forall|i: int|
        0 <= i < toks.len() ==> match (#[trigger] toks[i]).node {
            Token::Number(n) => n >= 0,
            _ => true,
        }
}

/// Whether the node at `i` is one that source text can stand for, with its
/// children before it.
pub open spec fn node_shaped(arena: Seq<ASTNode>, i: int) -> bool {
    match arena[i] {
        ASTNode::Literal(n) => n >= 0,
        ASTNode::Variable => true,
        ASTNode::Binary(op, l, r) => l < i && r < i && if is_unary(op) {
            arena[l as int] == ASTNode::Literal(0)
        } else {
            is_infix(op)
        },
        ASTNode::Ternary(c, a, b) => c < i && a < i && b < i,
        ASTNode::Error(_) => false,
    }
}

/// An arena all of whose nodes are ones that source text can stand for.
pub open spec fn shaped(arena: Seq<ASTNode>) -> bool {
    forall|i: int| 0 <= i < arena.len() ==> #[trigger] node_shaped(arena, i)
}

/// A step of a parse that records no error keeps the arena shaped.
pub open spec fn keeps_shape(s: ParseState, held: Option<NodeId>, out: ParseOutcome) -> bool {
    (out.state.arena.len() <= usize::MAX && out.state.errors.len() == s.errors.len() && shaped(
        s.arena,
    ) && (held is Some ==> held->0 < s.arena.len())) ==> shaped(out.state.arena)
}

proof fn lemma_shape_pushed(arena: Seq<ASTNode>, node: ASTNode)
    requires
        shaped(arena),
        node_shaped(arena.push(node), arena.len() as int),
    ensures
        shaped(arena.push(node)),
{
    let longer = arena.push(node);
    assert forall|i: int| 0 <= i < longer.len() implies #[trigger] node_shaped(longer, i) by {
        if i < arena.len() {
            assert(node_shaped(arena, i));
            assert(longer[i] == arena[i]);
        }
    }
}

/// Parsing an expression without an error keeps the arena shaped.
pub proof fn lemma_shaped_expr(toks: Seq<Spanned<Token>>, s: ParseState, min_bp: u8)
    requires
        stream_ok(toks),
        numbers_ok(toks),
        s.k < toks.len(),
    ensures
        keeps_shape(s, None, parse_expr(toks, s, min_bp)),
    decreases toks.len() - s.k, 2nat,
{
    lemma_parse_head(toks, s);
    lemma_shaped_head(toks, s);
    let head = parse_head(toks, s);
    if head.node is Some {
        lemma_parse_tail(toks, head.state, head.node->0, min_bp);
        lemma_shaped_tail(toks, head.state, head.node->0, min_bp);
    }
}

/// Parsing an operand without an error keeps the arena shaped.
pub proof fn lemma_shaped_head(toks: Seq<Spanned<Token>>, s: ParseState)
    requires
        stream_ok(toks),
        numbers_ok(toks),
        s.k < toks.len(),
    ensures
        keeps_shape(s, None, parse_head(toks, s)),
    decreases toks.len() - s.k, 1nat,
{
    let t = toks[s.k as int];
    let out = parse_head(toks, s);
    if out.state.arena.len() <= usize::MAX && out.state.errors.len() == s.errors.len() && shaped(
        s.arena,
    ) {
        match t.node {
            Token::Variable => {
                lemma_shape_pushed(s.arena, ASTNode::Variable);
            },
            Token::Number(n) => {
                lemma_shape_pushed(s.arena, ASTNode::Literal(n));
            },
            Token::Op(Operator::Lparen) => {
                let s1 = shift(s);
                if !(toks[s1.k as int].node is Eof) {
                    lemma_parse_expr(toks, s1, 0);
                    lemma_shaped_expr(toks, s1, 0);
                }
            },
            Token::Op(op) => {
                if is_prefix(op) {
                    lemma_parse_expr(toks, shift(s), PREFIX_POWER);
                    lemma_shaped_expr(toks, shift(s), PREFIX_POWER);
                    let operand = parse_expr(toks, shift(s), PREFIX_POWER);
                    if operand.node is Some && op != Operator::Plus {
                        let zero = next_id(operand.state);
                        let with_zero = emit(operand.state, ASTNode::Literal(0));
                        lemma_shape_pushed(operand.state.arena, ASTNode::Literal(0));
                        lemma_shape_pushed(
                            with_zero.arena,
                            ASTNode::Binary(op, zero, operand.node->0),
                        );
                    }
                }
            },
            _ => {},
        }
    }
}

/// Going on after an operand without an error keeps the arena shaped.
pub proof fn lemma_shaped_tail(
    toks: Seq<Spanned<Token>>,
    s: ParseState,
    left: NodeId,
    min_bp: u8,
)
    requires
        stream_ok(toks),
        numbers_ok(toks),
        s.k < toks.len(),
    ensures
        keeps_shape(s, Some(left), parse_tail(toks, s, left, min_bp)),
    decreases toks.len() - s.k, 1nat,
{
    let t = toks[s.k as int];
    let out = parse_tail(toks, s, left, min_bp);
    lemma_parse_tail(toks, s, left, min_bp);
    if out.state.arena.len() <= usize::MAX && out.state.errors.len() == s.errors.len() && shaped(
        s.arena,
    ) && left < s.arena.len() {
        match t.node {
            Token::Op(Operator::Question) => {
                if !(infix_binding_power_of(Operator::Question).0 < min_bp) {
                    lemma_parse_expr(toks, shift(s), 0);
                    lemma_shaped_expr(toks, shift(s), 0);
                    let then = parse_expr(toks, shift(s), 0);
                    if then.node is Some && at_op(toks, then.state.k, Operator::Colon) {
                        let r_bp = infix_binding_power_of(Operator::Question).1;
                        lemma_parse_expr(toks, shift(then.state), r_bp);
                        lemma_shaped_expr(toks, shift(then.state), r_bp);
                        let other = parse_expr(toks, shift(then.state), r_bp);
                        if other.node is Some {
                            let id = next_id(other.state);
                            let node = ASTNode::Ternary(left, then.node->0, other.node->0);
                            let joined = emit(other.state, node);
                            lemma_parse_tail(toks, joined, id, min_bp);
                            lemma_shaped_tail(toks, joined, id, min_bp);
                            lemma_shape_pushed(other.state.arena, node);
                        }
                    }
                }
            },
            Token::Op(op) => {
                match binding_power_of(op) {
                    None => {},
                    Some((l_bp, r_bp)) => {
                        if !(l_bp < min_bp) {
                            lemma_parse_expr(toks, shift(s), r_bp);
                            lemma_shaped_expr(toks, shift(s), r_bp);
                            let operand = parse_expr(toks, shift(s), r_bp);
                            if operand.node is Some {
                                let id = next_id(operand.state);
                                let node = ASTNode::Binary(op, left, operand.node->0);
                                let joined = emit(operand.state, node);
                                lemma_parse_tail(toks, joined, id, min_bp);
                                lemma_shaped_tail(toks, joined, id, min_bp);
                                lemma_shape_pushed(operand.state.arena, node);
                            }
                        }
                    },
                }
            },
            _ => {},
        }
    }
}

/// How many nodes the tree of a held operand has; none where none is held.
pub open spec fn held_count(arena: Seq<ASTNode>, held: Option<NodeId>) -> nat {
    match held {
        Some(id) => node_count(tree_at(arena, id as int)),
        None => 0,
    }
}

/// The tree that a step of a parse gives has no more nodes than the step
/// built, and the operand it began with had.
pub open spec fn counts(s: ParseState, held: Option<NodeId>, out: ParseOutcome) -> bool {
    (out.state.arena.len() <= usize::MAX && out.node is Some && (held is Some ==> held->0
        < s.arena.len())) ==> node_count(tree_at(out.state.arena, out.node->0 as int))
        <= out.state.arena.len() - s.arena.len() + held_count(s.arena, held)
}

/// The tree of a parsed expression has no more nodes than were built for
/// it.
pub proof fn lemma_counts_expr(toks: Seq<Spanned<Token>>, s: ParseState, min_bp: u8)
    requires
        stream_ok(toks),
        s.k < toks.len(),
    ensures
        counts(s, None, parse_expr(toks, s, min_bp)),
    decreases toks.len() - s.k, 2nat,
{
    lemma_parse_head(toks, s);
    lemma_counts_head(toks, s);
    let head = parse_head(toks, s);
    if head.node is Some {
        lemma_parse_tail(toks, head.state, head.node->0, min_bp);
        lemma_counts_tail(toks, head.state, head.node->0, min_bp);
    }
}

/// The tree of a parsed operand has no more nodes than were built for it.
pub proof fn lemma_counts_head(toks: Seq<Spanned<Token>>, s: ParseState)
    requires
        stream_ok(toks),
        s.k < toks.len(),
    ensures
        counts(s, None, parse_head(toks, s)),
    decreases toks.len() - s.k, 1nat,
{
    let t = toks[s.k as int];
    let out = parse_head(toks, s);
    if out.state.arena.len() <= usize::MAX && out.node is Some {
        match t.node {
            Token::Variable => {
                assert(out.state.arena[s.arena.len() as int] == ASTNode::Variable);
                assert(tree_at(out.state.arena, s.arena.len() as int) == Expr::Variable);
            },
            Token::Number(n) => {
                assert(out.state.arena[s.arena.len() as int] == ASTNode::Literal(n));
                assert(tree_at(out.state.arena, s.arena.len() as int) == Expr::Literal(n));
            },
            Token::LexError(_) => {
                assert(out.state.arena[s.arena.len() as int] == ASTNode::Error(t.span));
                assert(tree_at(out.state.arena, s.arena.len() as int) == Expr::Error);
            },
            Token::Op(Operator::Lparen) => {
                let s1 = shift(s);
                if !(toks[s1.k as int].node is Eof) {
                    lemma_parse_expr(toks, s1, 0);
                    lemma_counts_expr(toks, s1, 0);
                }
            },
            Token::Op(op) => {
                if is_prefix(op) {
                    lemma_parse_expr(toks, shift(s), PREFIX_POWER);
                    lemma_counts_expr(toks, shift(s), PREFIX_POWER);
                    let operand = parse_expr(toks, shift(s), PREFIX_POWER);
                    if operand.node is Some && op != Operator::Plus {
                        let right = operand.node->0;
                        let zero = next_id(operand.state);
                        let with_zero = emit(operand.state, ASTNode::Literal(0));
                        let built = emit(with_zero, ASTNode::Binary(op, zero, right));
                        let id = next_id(with_zero);
                        lemma_tree_stable(operand.state.arena, built.arena, right as int);
                        assert(built.arena[id as int] == ASTNode::Binary(op, zero, right));
                        assert(built.arena[zero as int] == ASTNode::Literal(0));
                        assert(tree_at(built.arena, zero as int) == Expr::Literal(0));
                        assert(tree_at(built.arena, id as int) == Expr::Binary(
                            op,
                            Box::new(Expr::Literal(0)),
                            Box::new(tree_at(built.arena, right as int)),
                        ));
                        assert(node_count(Expr::Literal(0)) == 1);
                    }
                }
            },
            _ => {},
        }
    }
}

/// The tree that going on after an operand gives has no more nodes than
/// that operand had and were built since.
pub proof fn lemma_counts_tail(
    toks: Seq<Spanned<Token>>,
    s: ParseState,
    left: NodeId,
    min_bp: u8,
)
    requires
        stream_ok(toks),
        s.k < toks.len(),
    ensures
        counts(s, Some(left), parse_tail(toks, s, left, min_bp)),
    decreases toks.len() - s.k, 1nat,
{
    let t = toks[s.k as int];
    let out = parse_tail(toks, s, left, min_bp);
    lemma_parse_tail(toks, s, left, min_bp);
    if out.state.arena.len() <= usize::MAX && out.node is Some && left < s.arena.len() {
        match t.node {
            Token::Op(Operator::Question) => {
                if !(infix_binding_power_of(Operator::Question).0 < min_bp) {
                    lemma_parse_expr(toks, shift(s), 0);
                    lemma_counts_expr(toks, shift(s), 0);
                    let then = parse_expr(toks, shift(s), 0);
                    if then.node is Some && at_op(toks, then.state.k, Operator::Colon) {
                        let r_bp = infix_binding_power_of(Operator::Question).1;
                        lemma_parse_expr(toks, shift(then.state), r_bp);
                        lemma_counts_expr(toks, shift(then.state), r_bp);
                        let other = parse_expr(toks, shift(then.state), r_bp);
                        if other.node is Some {
                            let yes = then.node->0;
                            let no = other.node->0;
                            let id = next_id(other.state);
                            let node = ASTNode::Ternary(left, yes, no);
                            let joined = emit(other.state, node);
                            lemma_parse_tail(toks, joined, id, min_bp);
                            lemma_counts_tail(toks, joined, id, min_bp);
                            lemma_tree_stable(s.arena, joined.arena, left as int);
                            lemma_tree_stable(then.state.arena, joined.arena, yes as int);
                            lemma_tree_stable(other.state.arena, joined.arena, no as int);
                            assert(joined.arena[id as int] == node);
                            assert(tree_at(joined.arena, id as int) == Expr::Ternary(
                                Box::new(tree_at(joined.arena, left as int)),
                                Box::new(tree_at(joined.arena, yes as int)),
                                Box::new(tree_at(joined.arena, no as int)),
                            ));
                        }
                    }
                }
            },
            Token::Op(op) => {
                match binding_power_of(op) {
                    None => {},
                    Some((l_bp, r_bp)) => {
                        if !(l_bp < min_bp) {
                            lemma_parse_expr(toks, shift(s), r_bp);
                            lemma_counts_expr(toks, shift(s), r_bp);
                            let operand = parse_expr(toks, shift(s), r_bp);
                            if operand.node is Some {
                                let right = operand.node->0;
                                let id = next_id(operand.state);
                                let node = ASTNode::Binary(op, left, right);
                                let joined = emit(operand.state, node);
                                lemma_parse_tail(toks, joined, id, min_bp);
                                lemma_counts_tail(toks, joined, id, min_bp);
                                lemma_tree_stable(s.arena, joined.arena, left as int);
                                lemma_tree_stable(
                                    operand.state.arena,
                                    joined.arena,
                                    right as int,
                                );
                                assert(joined.arena[id as int] == node);
                                assert(tree_at(joined.arena, id as int) == Expr::Binary(
                                    op,
                                    Box::new(tree_at(joined.arena, left as int)),
                                    Box::new(tree_at(joined.arena, right as int)),
                                ));
                            }
                        }
                    },
                }
            },
            _ => {},
        }
    }
}

/// In a shaped arena every node is the root of a printable tree.
pub proof fn lemma_shaped_tree(arena: Seq<ASTNode>, id: int)
    requires
        shaped(arena),
        0 <= id < arena.len(),
    ensures
        printable(tree_at(arena, id)),
    decreases id,
{
    assert(node_shaped(arena, id));
    match arena[id] {
        ASTNode::Binary(op, l, r) => {
            lemma_shaped_tree(arena, r as int);
            if is_unary(op) {
                assert(tree_at(arena, l as int) == Expr::Literal(0));
            } else {
                lemma_shaped_tree(arena, l as int);
            }
        },
        ASTNode::Ternary(c, a, b) => {
            lemma_shaped_tree(arena, c as int);
            lemma_shaped_tree(arena, a as int);
            lemma_shaped_tree(arena, b as int);
        },
        _ => {},
    }
}

/// No number among the digits of a literal is negative.
proof fn lemma_digits_number_sign(ds: Seq<char>, base: int)
    requires
        base >= 0,
    ensures
        digits_number(ds, base) >= 0,
    decreases ds.len(),
{
    if ds.len() > 0 {
        lemma_digits_number_sign(ds.drop_last(), base);
        assert(digits_number(ds.drop_last(), base) * base >= 0) by (nonlinear_arith)
            requires
                digits_number(ds.drop_last(), base) >= 0,
                base >= 0,
        ;
    }
}

/// The lexer gives no negative number.
pub proof fn lemma_lexed_numbers(src: Seq<char>, st: LexState)
    requires
        state_fits(src, st),
        src.len() <= usize::MAX,
    ensures
        numbers_ok(tokens_from(src, st)),
    decreases src.len() - st.pos,
{
    lemma_lex_step(src, st);
    lemma_tokens_from(src, st);
    let step = lex_step(src, st);
    let all = tokens_from(src, st);
    assert(match step.token.node {
        Token::Number(n) => n >= 0,
        _ => true,
    }) by {
        assert forall|ds: Seq<char>, base: int| base >= 0 implies match #[trigger] number_token(
            ds,
            base,
        ) {
            Token::Number(n) => n >= 0,
            _ => true,
        } by {
            lemma_digits_number_sign(ds, base);
        }
    }
    if step.token.node is Eof || step.next.pos <= st.pos || step.next.pos > src.len() {
    } else {
        lemma_lexed_numbers(src, step.next);
        let rest = tokens_from(src, step.next);
        assert forall|i: int| 0 <= i < all.len() implies match (#[trigger] all[i]).node {
            Token::Number(n) => n >= 0,
            _ => true,
        } by {
            if i > 0 {
                assert(all[i] == rest[i - 1]);
            }
        }
    }
}

/// Compiling is idempotent through printing. Where a source compiles, the
/// text printed for the tree of its beat compiles to a beat with the very
/// same tree; and unless the beat is silent, its tree is printable.
pub proof fn lemma_round_trip(src: Seq<char>)
    requires
        src.len() <= usize::MAX,
        compiled(src) is Ok,
        compiled(src)->Ok_0.0.len() <= usize::MAX,
    ensures
        ({
            let tree = tree_at(compiled(src)->Ok_0.0, compiled(src)->Ok_0.1 as int);
            let again = compiled(printed(tree));
            &&& compiled(src)->Ok_0.0.len() > 0 ==> printable(tree)
            &&& again is Ok
            &&& tree_at(again->Ok_0.0, again->Ok_0.1 as int) == tree
        }),
{
    let toks = tokens(src);
    let start = initial_state(Seq::empty());
    let arena = compiled(src)->Ok_0.0;
    let root = compiled(src)->Ok_0.1;
    lemma_tokens_from(src, start_state());
    if toks[0].node is Eof {
        // the silent beat: nothing is printed, and nothing compiles to it
        let nothing = Seq::<char>::empty();
        assert(tree_at(arena, root as int) == Expr::Error);
        assert(printed(Expr::Error) =~= nothing);
        lemma_skip_blank_all(nothing, start_state());
        assert(lex_step(nothing, start_state()).token.node is Eof);
        assert(tokens(nothing)[0] == lex_step(nothing, start_state()).token);
    } else {
        lemma_lexed_numbers(src, start_state());
        lemma_parse_expr(toks, start, 0);
        lemma_shaped_expr(toks, start, 0);
        let out = parse_expr(toks, start, 0);
        assert(sound(toks, start, None, out));
        assert(arena == out.state.arena);
        assert(shaped(start.arena));
        lemma_shaped_tree(arena, root as int);
        lemma_counts_expr(toks, start, 0);
        assert(counts(start, None, out));
        lemma_compile_printed(tree_at(arena, root as int));
    }
}

/// The beat compiled from the text of a printable tree gives, at every
/// sample index, the low byte of what the tree is worth there in C's `int`
/// arithmetic.
pub proof fn lemma_printed_sounds(e: Expr, beat: Beat, t: i32)
    requires
        printable(e),
        node_count(e) <= usize::MAX,
        compiled(printed(e)) == Ok::<_, Seq<Spanned<ParseError>>>((beat.arena(), beat.root_id())),
    ensures
        beat.sample(t) == low_byte(value(e, t)),
{
    lemma_compile_printed(e);
}

/// Tokens written one after the other are the text of all of them.
pub proof fn lemma_text_joined(a: Seq<Token>, b: Seq<Token>)
    ensures
        text_of(a + b) == text_of(a) + text_of(b),
    decreases a.len(),
{
    if a.len() == 0 {
        assert(a + b =~= b);
        assert(text_of(a) + text_of(b) =~= text_of(b));
    } else {
        lemma_text_joined(a.drop_first(), b);
        assert((a + b).drop_first() =~= a.drop_first() + b);
        assert((a + b)[0] == a[0]);
        assert(text_of(a + b) =~= text_of(a) + text_of(b));
    }
}

/// One token is written as its word and a blank.
pub proof fn lemma_text_single(t: Token)
    ensures
        text_of(seq![t]) == word(t) + seq![' '],
{
    let one = seq![t];
    assert(one.drop_first() =~= Seq::<Token>::empty());
    assert(text_of(one.drop_first()) =~= Seq::<char>::empty());
    assert(text_of(one) =~= word(t) + seq![' ']);
}

/// Appends the number in decimal.
fn write_decimal(n: u32, out: &mut Vec<char>)
    ensures
        final(out)@ == old(out)@ + decimal(n as nat),
    decreases n,
{
    if n >= 10 {
        write_decimal(n / 10, out);
    }
    let d: u32 = n % 10;
    let c: char = if d == 0 {
        '0'
    } else if d == 1 {
        '1'
    } else if d == 2 {
        '2'
    } else if d == 3 {
        '3'
    } else if d == 4 {
        '4'
    } else if d == 5 {
        '5'
    } else if d == 6 {
        '6'
    } else if d == 7 {
        '7'
    } else if d == 8 {
        '8'
    } else {
        '9'
    };
    out.push(c);
    proof {
        if n < 10 {
            assert(out@ =~= old(out)@ + decimal(n as nat));
        } else {
            assert(decimal(n as nat) == decimal((n / 10) as nat).push(digit_char((n % 10) as int)));
            assert(out@ =~= old(out)@ + decimal(n as nat));
        }
    }
}

/// Appends the operator as written.
fn write_operator(op: Operator, out: &mut Vec<char>)
    ensures
        final(out)@ == old(out)@ + operator_text(op),
{
    match op {
        Operator::Mul => out.push('*'),
        Operator::Div => out.push('/'),
        Operator::Plus => out.push('+'),
        Operator::Minus => out.push('-'),
        Operator::Mod => out.push('%'),
        Operator::Lparen => out.push('('),
        Operator::Rparen => out.push(')'),
        Operator::Rsh => {
            out.push('>');
            out.push('>');
        },
        Operator::Lsh => {
            out.push('<');
            out.push('<');
        },
        Operator::And => out.push('&'),
        Operator::Or => out.push('|'),
        Operator::BitXor => out.push('^'),
        Operator::BitNot => out.push('~'),
        Operator::LogAnd => {
            out.push('&');
            out.push('&');
        },
        Operator::LogOr => {
            out.push('|');
            out.push('|');
        },
        Operator::LogNot => out.push('!'),
        Operator::Eq => {
            out.push('=');
            out.push('=');
        },
        Operator::Ne => {
            out.push('!');
            out.push('=');
        },
        Operator::Gt => out.push('>'),
        Operator::Lt => out.push('<'),
        Operator::Ge => {
            out.push('>');
            out.push('=');
        },
        Operator::Le => {
            out.push('<');
            out.push('=');
        },
        Operator::Question => out.push('?'),
        Operator::Colon => out.push(':'),
    }
    assert(out@ =~= old(out)@ + operator_text(op));
}

/// Appends the token as written, and a blank.
fn write_token(t: Token, out: &mut Vec<char>)
    requires
        writable(t),
    ensures
        final(out)@ == old(out)@ + text_of(seq![t]),
{
    proof {
        lemma_text_single(t);
    }
    match t {
        Token::Variable => {
            out.push('t');
            assert(out@ =~= old(out)@ + word(t));
        },
        Token::Number(n) => {
            write_decimal(n as u32, out);
        },
        Token::Op(op) => {
            write_operator(op, out);
        },
        _ => {},
    }
    out.push(' ');
    assert(out@ =~= old(out)@ + (word(t) + seq![' ']));
}

/// Appends the text printed for the tree below the node `id`.
pub fn write_node(nodes: &Vec<ASTNode>, id: NodeId, out: &mut Vec<char>)
    requires
        shaped(nodes@),
        id < nodes.len(),
    ensures
        final(out)@ == old(out)@ + printed(tree_at(nodes@, id as int)),
    decreases id,
{
    let ghost tree = tree_at(nodes@, id as int);
    let ghost open = seq![Token::Op(Operator::Lparen)];
    let ghost close = seq![Token::Op(Operator::Rparen)];
    assert(node_shaped(nodes@, id as int));
    match nodes[id] {
        ASTNode::Literal(n) => {
            write_token(Token::Number(n), out);
        },
        ASTNode::Variable => {
            write_token(Token::Variable, out);
        },
        ASTNode::Binary(op, l, r) => {
            let ghost right = tree_at(nodes@, r as int);
            write_token(Token::Op(Operator::Lparen), out);
            let unary = match op {
                Operator::LogNot | Operator::BitNot => true,
                _ => false,
            };
            if unary {
                write_token(Token::Op(op), out);
                write_node(nodes, r, out);
                write_token(Token::Op(Operator::Rparen), out);
                proof {
                    let first = seq![Token::Op(Operator::Lparen), Token::Op(op)];
                    assert(first =~= open + seq![Token::Op(op)]);
                    lemma_text_joined(open, seq![Token::Op(op)]);
                    lemma_text_joined(first, printed_tokens(right));
                    lemma_text_joined(first + printed_tokens(right), close);
                    assert(out@ =~= old(out)@ + printed(tree));
                }
            } else {
                let ghost left = tree_at(nodes@, l as int);
                write_node(nodes, l, out);
                write_token(Token::Op(op), out);
                write_node(nodes, r, out);
                write_token(Token::Op(Operator::Rparen), out);
                proof {
                    let a = open + printed_tokens(left);
                    let b = a + seq![Token::Op(op)];
                    let c = b + printed_tokens(right);
                    lemma_text_joined(open, printed_tokens(left));
                    lemma_text_joined(a, seq![Token::Op(op)]);
                    lemma_text_joined(b, printed_tokens(right));
                    lemma_text_joined(c, close);
                    assert(out@ =~= old(out)@ + printed(tree));
                }
            }
        },
        ASTNode::Ternary(c, a, b) => {
            let ghost cond = tree_at(nodes@, c as int);
            let ghost yes = tree_at(nodes@, a as int);
            let ghost no = tree_at(nodes@, b as int);
            write_token(Token::Op(Operator::Lparen), out);
            write_node(nodes, c, out);
            write_token(Token::Op(Operator::Question), out);
            write_node(nodes, a, out);
            write_token(Token::Op(Operator::Colon), out);
            write_node(nodes, b, out);
            write_token(Token::Op(Operator::Rparen), out);
            proof {
                let k1 = open + printed_tokens(cond);
                let k2 = k1 + seq![Token::Op(Operator::Question)];
                let k3 = k2 + printed_tokens(yes);
                let k4 = k3 + seq![Token::Op(Operator::Colon)];
                let k5 = k4 + printed_tokens(no);
                lemma_text_joined(open, printed_tokens(cond));
                lemma_text_joined(k1, seq![Token::Op(Operator::Question)]);
                lemma_text_joined(k2, printed_tokens(yes));
                lemma_text_joined(k3, seq![Token::Op(Operator::Colon)]);
                lemma_text_joined(k4, printed_tokens(no));
                lemma_text_joined(k5, close);
                assert(out@ =~= old(out)@ + printed(tree));
            }
        },
        ASTNode::Error(_) => {},
    }
}

} // verus!
