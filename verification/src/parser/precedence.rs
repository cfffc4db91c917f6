//! What the binding powers mean for the tree: precedence and
//! associativity, stated of operands written with the printer.
use vstd::prelude::*;

use super::eval::{tree_at, Expr};
use super::parse::{
    at_op, binding_power_of, done, emit, infix_binding_power_of, is_prefix, next_id, parse_expr,
    parse_head, parse_tail, shift, ParseState, PREFIX_POWER,
};
use super::printing::{
    closes, is_infix, lemma_head_of_printed, lemma_printed_first, lemma_tail_stops,
    lemma_tree_stable, node_count, printable, printed_tokens, reads,
};
use super::{ASTNode, Operator, Spanned, Token};

verus! {

/// The left binding power of an infix operator.
pub open spec fn level(op: Operator) -> u8 {
    let powers = binding_power_of(op)->0;
    powers.0
}

/// `a op b`.
pub open spec fn binary(op: Operator, a: Expr, b: Expr) -> Expr {
    Expr::Binary(op, Box::new(a), Box::new(b))
}

/// `c ? a : b`.
pub open spec fn ternary(c: Expr, a: Expr, b: Expr) -> Expr {
    Expr::Ternary(Box::new(c), Box::new(a), Box::new(b))
}

/// The index of the token after three operands written from index `k` on
/// with two tokens between them.
pub open spec fn after_three(k: nat, a: Expr, b: Expr, c: Expr) -> int {
    k as int + printed_tokens(a).len() + printed_tokens(b).len() + printed_tokens(c).len() + 2
}

/// An expression is parsed from `s` as the tree `e`, up to the token at
/// index `end`, without an error.
pub open spec fn parses_to(
    toks: Seq<Spanned<Token>>,
    s: ParseState,
    min_bp: u8,
    end: int,
    e: Expr,
) -> bool {
    let out = parse_expr(toks, s, min_bp);
    &&& out.state.k == end
    &&& out.state.errors == s.errors
    &&& out.node is Some
    &&& tree_at(out.state.arena, out.node->0 as int) == e
}

/// Three operands are written from index `k` on, with `op1` between the
/// first two and `op2` between the last two.
pub open spec fn laid_out(
    toks: Seq<Spanned<Token>>,
    k: int,
    a: Expr,
    op1: Operator,
    b: Expr,
    op2: Operator,
    c: Expr,
) -> bool {
    let na = printed_tokens(a).len() as int;
    let nb = printed_tokens(b).len() as int;
    &&& reads(toks, k, printed_tokens(a))
    &&& toks[k + na].node == Token::Op(op1)
    &&& reads(toks, k + na + 1, printed_tokens(b))
    &&& toks[k + na + nb + 1].node == Token::Op(op2)
    &&& reads(toks, k + na + nb + 2, printed_tokens(c))
}

proof fn lemma_laid_out(
    toks: Seq<Spanned<Token>>,
    k: int,
    a: Expr,
    op1: Operator,
    b: Expr,
    op2: Operator,
    c: Expr,
)
    requires
        reads(
            toks,
            k,
            printed_tokens(a) + seq![Token::Op(op1)] + printed_tokens(b) + seq![Token::Op(op2)]
                + printed_tokens(c),
        ),
    ensures
        laid_out(toks, k, a, op1, b, op2, c),
{
    let ak = printed_tokens(a);
    let bk = printed_tokens(b);
    let ck = printed_tokens(c);
    let na = ak.len() as int;
    let nb = bk.len() as int;
    let nc = ck.len() as int;
    let all = ak + seq![Token::Op(op1)] + bk + seq![Token::Op(op2)] + ck;
    assert(all.len() == na + nb + nc + 2);
    assert(reads(toks, k, ak)) by {
        assert forall|i: int| 0 <= i < na implies (#[trigger] toks[k + i]).node == ak[i] by {
            assert(all[i] == ak[i]);
        }
    }
    assert(toks[k + na].node == Token::Op(op1)) by {
        assert(all[na] == Token::Op(op1));
    }
    assert(reads(toks, k + na + 1, bk)) by {
        assert forall|i: int| 0 <= i < nb implies (#[trigger] toks[k + na + 1 + i]).node
            == bk[i] by {
            assert(toks[k + (na + 1 + i)].node == all[na + 1 + i]);
            assert(all[na + 1 + i] == bk[i]);
        }
    }
    assert(toks[k + na + nb + 1].node == Token::Op(op2)) by {
        assert(toks[k + (na + nb + 1)].node == all[na + nb + 1]);
        assert(all[na + nb + 1] == Token::Op(op2));
    }
    assert(reads(toks, k + na + nb + 2, ck)) by {
        assert forall|i: int| 0 <= i < nc implies (#[trigger] toks[k + na + nb + 2 + i]).node
            == ck[i] by {
            assert(toks[k + (na + nb + 2 + i)].node == all[na + nb + 2 + i]);
            assert(all[na + nb + 2 + i] == ck[i]);
        }
    }
}

/// An operand written at `s`, before an infix operator or a token that
/// closes, is read as itself by `parse_head`, which stops right after it.
proof fn lemma_operand(toks: Seq<Spanned<Token>>, s: ParseState, e: Expr)
    requires
        printable(e),
        reads(toks, s.k as int, printed_tokens(e)),
        s.k + printed_tokens(e).len() < toks.len(),
        s.arena.len() + node_count(e) <= usize::MAX,
    ensures
        ({
            let out = parse_head(toks, s);
            &&& out.state.k == s.k + printed_tokens(e).len()
            &&& out.state.errors == s.errors
            &&& out.node == Some((out.state.arena.len() - 1) as usize)
            &&& out.state.arena.len() == s.arena.len() + node_count(e)
            &&& out.state.arena.len() >= 1
            &&& forall|j: int| 0 <= j < s.arena.len() ==> #[trigger] out.state.arena[j] == s.arena[j]
            &&& tree_at(out.state.arena, out.state.arena.len() - 1) == e
            &&& parse_expr(toks, s, 0) == parse_tail(toks, out.state, out.node->0, 0)
        }),
{
    lemma_head_of_printed(toks, s, e);
    lemma_printed_first(e);
}

/// Where a tighter operator follows, it takes the operand before it.
proof fn lemma_second_tighter(
    toks: Seq<Spanned<Token>>,
    s: ParseState,
    a: Expr,
    op1: Operator,
    b: Expr,
    op2: Operator,
    c: Expr,
)
    requires
        printable(a),
        printable(b),
        printable(c),
        is_infix(op1),
        is_infix(op2),
        level(op2) > level(op1),
        laid_out(toks, s.k as int, a, op1, b, op2, c),
        after_three(s.k, a, b, c) < toks.len(),
        closes(toks[after_three(s.k, a, b, c)].node),
        s.arena.len() + node_count(a) + node_count(b) + node_count(c) + 2 <= usize::MAX,
    ensures
        parses_to(toks, s, 0, after_three(s.k, a, b, c), binary(op1, a, binary(op2, b, c))),
{
    let p1 = binding_power_of(op1)->0;
    let p2 = binding_power_of(op2)->0;
    lemma_printed_first(a);
    lemma_printed_first(b);
    lemma_printed_first(c);
    lemma_operand(toks, s, a);
    let first = parse_head(toks, s);
    let left = first.node->0;
    let s2 = shift(first.state);
    lemma_operand(toks, s2, b);
    let second = parse_head(toks, s2);
    let mid = second.node->0;
    let s3 = shift(second.state);
    lemma_operand(toks, s3, c);
    let third = parse_head(toks, s3);
    let right = third.node->0;
    let inner_id = next_id(third.state);
    let inner = emit(third.state, ASTNode::Binary(op2, mid, right));
    let outer_id = next_id(inner);
    let outer = emit(inner, ASTNode::Binary(op1, left, inner_id));
    assert(parse_expr(toks, s3, p2.1) == done(third.state, right)) by {
        lemma_tail_stops(toks, third.state, right, p2.1);
    }
    assert(parse_tail(toks, second.state, mid, p1.1) == done(inner, inner_id)) by {
        lemma_tail_stops(toks, inner, inner_id, p1.1);
    }
    assert(parse_expr(toks, s2, p1.1) == done(inner, inner_id));
    assert(parse_tail(toks, first.state, left, 0) == done(outer, outer_id)) by {
        lemma_tail_stops(toks, outer, outer_id, 0);
    }
    assert(parse_expr(toks, s, 0) == done(outer, outer_id));
    assert(tree_at(outer.arena, outer_id as int) == binary(op1, a, binary(op2, b, c))) by {
        lemma_tree_stable(first.state.arena, outer.arena, left as int);
        lemma_tree_stable(second.state.arena, outer.arena, mid as int);
        lemma_tree_stable(third.state.arena, outer.arena, right as int);
        assert(outer.arena[inner_id as int] == ASTNode::Binary(op2, mid, right));
        assert(outer.arena[outer_id as int] == ASTNode::Binary(op1, left, inner_id));
        assert(tree_at(outer.arena, inner_id as int) == binary(op2, b, c));
    }
}

/// Where an operator follows that binds no tighter, the operator before
/// takes the operand between them.
proof fn lemma_second_no_tighter(
    toks: Seq<Spanned<Token>>,
    s: ParseState,
    a: Expr,
    op1: Operator,
    b: Expr,
    op2: Operator,
    c: Expr,
)
    requires
        printable(a),
        printable(b),
        printable(c),
        is_infix(op1),
        is_infix(op2),
        level(op2) <= level(op1),
        laid_out(toks, s.k as int, a, op1, b, op2, c),
        after_three(s.k, a, b, c) < toks.len(),
        closes(toks[after_three(s.k, a, b, c)].node),
        s.arena.len() + node_count(a) + node_count(b) + node_count(c) + 2 <= usize::MAX,
    ensures
        parses_to(toks, s, 0, after_three(s.k, a, b, c), binary(op2, binary(op1, a, b), c)),
{
    let p1 = binding_power_of(op1)->0;
    let p2 = binding_power_of(op2)->0;
    lemma_printed_first(a);
    lemma_printed_first(b);
    lemma_printed_first(c);
    lemma_operand(toks, s, a);
    let first = parse_head(toks, s);
    let left = first.node->0;
    let s2 = shift(first.state);
    lemma_operand(toks, s2, b);
    let second = parse_head(toks, s2);
    let mid = second.node->0;
    let inner_id = next_id(second.state);
    let inner = emit(second.state, ASTNode::Binary(op1, left, mid));
    lemma_operand(toks, shift(inner), c);
    let third = parse_head(toks, shift(inner));
    let right = third.node->0;
    let outer_id = next_id(third.state);
    let outer = emit(third.state, ASTNode::Binary(op2, inner_id, right));
    // the second operator does not bind tightly enough to go on
    assert(parse_tail(toks, second.state, mid, p1.1) == done(second.state, mid));
    assert(parse_expr(toks, s2, p1.1) == done(second.state, mid));
    assert(parse_expr(toks, shift(inner), p2.1) == done(third.state, right)) by {
        lemma_tail_stops(toks, third.state, right, p2.1);
    }
    assert(parse_tail(toks, inner, inner_id, 0) == done(outer, outer_id)) by {
        lemma_tail_stops(toks, outer, outer_id, 0);
    }
    assert(parse_tail(toks, first.state, left, 0) == done(outer, outer_id));
    assert(parse_expr(toks, s, 0) == done(outer, outer_id));
    assert(tree_at(outer.arena, outer_id as int) == binary(op2, binary(op1, a, b), c)) by {
        lemma_tree_stable(first.state.arena, outer.arena, left as int);
        lemma_tree_stable(second.state.arena, outer.arena, mid as int);
        lemma_tree_stable(third.state.arena, outer.arena, right as int);
        assert(outer.arena[inner_id as int] == ASTNode::Binary(op1, left, mid));
        assert(outer.arena[outer_id as int] == ASTNode::Binary(op2, inner_id, right));
        assert(tree_at(outer.arena, inner_id as int) == binary(op1, a, b));
    }
}

/// Precedence and left associativity. In `a op1 b op2 c`, the operator that
/// binds tighter takes the middle operand; of two that bind alike the left
/// one takes it. So the tree is `a op1 (b op2 c)` if `op2` binds tighter
/// than `op1`, and `(a op1 b) op2 c` if not.
pub proof fn lemma_two_operators(
    toks: Seq<Spanned<Token>>,
    s: ParseState,
    a: Expr,
    op1: Operator,
    b: Expr,
    op2: Operator,
    c: Expr,
)
    requires
        printable(a),
        printable(b),
        printable(c),
        is_infix(op1),
        is_infix(op2),
        reads(
            toks,
            s.k as int,
            printed_tokens(a) + seq![Token::Op(op1)] + printed_tokens(b) + seq![Token::Op(op2)]
                + printed_tokens(c),
        ),
        after_three(s.k, a, b, c) < toks.len(),
        closes(toks[after_three(s.k, a, b, c)].node),
        s.arena.len() + node_count(a) + node_count(b) + node_count(c) + 2 <= usize::MAX,
    ensures
        parses_to(
            toks,
            s,
            0,
            after_three(s.k, a, b, c),
            if level(op2) > level(op1) {
                binary(op1, a, binary(op2, b, c))
            } else {
                binary(op2, binary(op1, a, b), c)
            },
        ),
{
    lemma_laid_out(toks, s.k as int, a, op1, b, op2, c);
    if level(op2) > level(op1) {
        lemma_second_tighter(toks, s, a, op1, b, op2, c);
    } else {
        lemma_second_no_tighter(toks, s, a, op1, b, op2, c);
    }
}

/// How many tokens the operand is written with.
pub open spec fn width(e: Expr) -> int {
    printed_tokens(e).len() as int
}

/// The operand `e` is written from index `k` on.
pub open spec fn operand_at(toks: Seq<Spanned<Token>>, k: int, e: Expr) -> bool {
    printable(e) && reads(toks, k, printed_tokens(e))
}

/// The token at index `k` is the operator `op`.
pub open spec fn operator_at(toks: Seq<Spanned<Token>>, k: int, op: Operator) -> bool {
    0 <= k < toks.len() && toks[k].node == Token::Op(op)
}

/// A token that closes an expression stands at index `k`.
pub open spec fn closed_at(toks: Seq<Spanned<Token>>, k: int) -> bool {
    0 <= k < toks.len() && closes(toks[k].node)
}

/// The ternary associates to the right. `c1 ? a : c2 ? b : d` is
/// `c1 ? a : (c2 ? b : d)`.
pub proof fn lemma_ternary_right(
    toks: Seq<Spanned<Token>>,
    s: ParseState,
    c1: Expr,
    a: Expr,
    c2: Expr,
    b: Expr,
    d: Expr,
)
    requires
        operand_at(toks, s.k as int, c1),
        operator_at(toks, s.k + width(c1), Operator::Question),
        operand_at(toks, s.k + width(c1) + 1, a),
        operator_at(toks, s.k + width(c1) + width(a) + 1, Operator::Colon),
        operand_at(toks, s.k + width(c1) + width(a) + 2, c2),
        operator_at(toks, s.k + width(c1) + width(a) + width(c2) + 2, Operator::Question),
        operand_at(toks, s.k + width(c1) + width(a) + width(c2) + 3, b),
        operator_at(
            toks,
            s.k + width(c1) + width(a) + width(c2) + width(b) + 3,
            Operator::Colon,
        ),
        operand_at(toks, s.k + width(c1) + width(a) + width(c2) + width(b) + 4, d),
        closed_at(toks, s.k + width(c1) + width(a) + width(c2) + width(b) + width(d) + 4),
        s.arena.len() + node_count(c1) + node_count(a) + node_count(c2) + node_count(b)
            + node_count(d) + 2 <= usize::MAX,
    ensures
        parses_to(
            toks,
            s,
            0,
            s.k + width(c1) + width(a) + width(c2) + width(b) + width(d) + 4,
            ternary(c1, a, ternary(c2, b, d)),
        ),
{
    let r_bp = infix_binding_power_of(Operator::Question).1;
    lemma_printed_first(c1);
    lemma_printed_first(a);
    lemma_printed_first(c2);
    lemma_printed_first(b);
    lemma_printed_first(d);
    // the first condition
    lemma_operand(toks, s, c1);
    let h1 = parse_head(toks, s);
    let cond1 = h1.node->0;
    // its branch, read up to the colon
    let s2 = shift(h1.state);
    lemma_operand(toks, s2, a);
    let h2 = parse_head(toks, s2);
    let yes1 = h2.node->0;
    assert(parse_expr(toks, s2, 0) == done(h2.state, yes1)) by {
        lemma_tail_stops(toks, h2.state, yes1, 0);
    }
    // the second condition
    let s3 = shift(h2.state);
    lemma_operand(toks, s3, c2);
    let h3 = parse_head(toks, s3);
    let cond2 = h3.node->0;
    // its branch
    let s4 = shift(h3.state);
    lemma_operand(toks, s4, b);
    let h4 = parse_head(toks, s4);
    let yes2 = h4.node->0;
    assert(parse_expr(toks, s4, 0) == done(h4.state, yes2)) by {
        lemma_tail_stops(toks, h4.state, yes2, 0);
    }
    // the last branch
    let s5 = shift(h4.state);
    lemma_operand(toks, s5, d);
    let h5 = parse_head(toks, s5);
    let no2 = h5.node->0;
    assert(parse_expr(toks, s5, r_bp) == done(h5.state, no2)) by {
        lemma_tail_stops(toks, h5.state, no2, r_bp);
    }
    let inner_id = next_id(h5.state);
    let inner = emit(h5.state, ASTNode::Ternary(cond2, yes2, no2));
    assert(parse_tail(toks, h3.state, cond2, r_bp) == done(inner, inner_id)) by {
        assert(at_op(toks, h4.state.k, Operator::Colon));
        lemma_tail_stops(toks, inner, inner_id, r_bp);
    }
    assert(parse_expr(toks, s3, r_bp) == done(inner, inner_id));
    let outer_id = next_id(inner);
    let outer = emit(inner, ASTNode::Ternary(cond1, yes1, inner_id));
    assert(parse_tail(toks, h1.state, cond1, 0) == done(outer, outer_id)) by {
        assert(at_op(toks, h2.state.k, Operator::Colon));
        lemma_tail_stops(toks, outer, outer_id, 0);
    }
    assert(parse_expr(toks, s, 0) == done(outer, outer_id));
    assert(tree_at(outer.arena, outer_id as int) == ternary(c1, a, ternary(c2, b, d))) by {
        lemma_tree_stable(h1.state.arena, outer.arena, cond1 as int);
        lemma_tree_stable(h2.state.arena, outer.arena, yes1 as int);
        lemma_tree_stable(h3.state.arena, outer.arena, cond2 as int);
        lemma_tree_stable(h4.state.arena, outer.arena, yes2 as int);
        lemma_tree_stable(h5.state.arena, outer.arena, no2 as int);
        assert(outer.arena[inner_id as int] == ASTNode::Ternary(cond2, yes2, no2));
        assert(outer.arena[outer_id as int] == ASTNode::Ternary(cond1, yes1, inner_id));
        assert(tree_at(outer.arena, inner_id as int) == ternary(c2, b, d));
    }
}

/// The ternary binds looser than every infix operator. `a op b ? x : y` is
/// `(a op b) ? x : y`.
pub proof fn lemma_ternary_after_infix(
    toks: Seq<Spanned<Token>>,
    s: ParseState,
    a: Expr,
    op: Operator,
    b: Expr,
    x: Expr,
    y: Expr,
)
    requires
        is_infix(op),
        operand_at(toks, s.k as int, a),
        operator_at(toks, s.k + width(a), op),
        operand_at(toks, s.k + width(a) + 1, b),
        operator_at(toks, s.k + width(a) + width(b) + 1, Operator::Question),
        operand_at(toks, s.k + width(a) + width(b) + 2, x),
        operator_at(toks, s.k + width(a) + width(b) + width(x) + 2, Operator::Colon),
        operand_at(toks, s.k + width(a) + width(b) + width(x) + 3, y),
        closed_at(toks, s.k + width(a) + width(b) + width(x) + width(y) + 3),
        s.arena.len() + node_count(a) + node_count(b) + node_count(x) + node_count(y) + 2
            <= usize::MAX,
    ensures
        parses_to(
            toks,
            s,
            0,
            s.k + width(a) + width(b) + width(x) + width(y) + 3,
            ternary(binary(op, a, b), x, y),
        ),
{
    let powers = binding_power_of(op)->0;
    let r_bp = infix_binding_power_of(Operator::Question).1;
    lemma_printed_first(a);
    lemma_printed_first(b);
    lemma_printed_first(x);
    lemma_printed_first(y);
    lemma_operand(toks, s, a);
    let h1 = parse_head(toks, s);
    let left = h1.node->0;
    let s2 = shift(h1.state);
    lemma_operand(toks, s2, b);
    let h2 = parse_head(toks, s2);
    let right = h2.node->0;
    // the question mark binds too loosely to take the right operand
    assert(parse_tail(toks, h2.state, right, powers.1) == done(h2.state, right));
    assert(parse_expr(toks, s2, powers.1) == done(h2.state, right));
    let cond_id = next_id(h2.state);
    let cond = emit(h2.state, ASTNode::Binary(op, left, right));
    let s3 = shift(cond);
    lemma_operand(toks, s3, x);
    let h3 = parse_head(toks, s3);
    let yes = h3.node->0;
    assert(parse_expr(toks, s3, 0) == done(h3.state, yes)) by {
        lemma_tail_stops(toks, h3.state, yes, 0);
    }
    let s4 = shift(h3.state);
    lemma_operand(toks, s4, y);
    let h4 = parse_head(toks, s4);
    let no = h4.node->0;
    assert(parse_expr(toks, s4, r_bp) == done(h4.state, no)) by {
        lemma_tail_stops(toks, h4.state, no, r_bp);
    }
    let outer_id = next_id(h4.state);
    let outer = emit(h4.state, ASTNode::Ternary(cond_id, yes, no));
    assert(parse_tail(toks, cond, cond_id, 0) == done(outer, outer_id)) by {
        assert(at_op(toks, h3.state.k, Operator::Colon));
        lemma_tail_stops(toks, outer, outer_id, 0);
    }
    assert(parse_tail(toks, h1.state, left, 0) == done(outer, outer_id));
    assert(parse_expr(toks, s, 0) == done(outer, outer_id));
    assert(tree_at(outer.arena, outer_id as int) == ternary(binary(op, a, b), x, y)) by {
        lemma_tree_stable(h1.state.arena, outer.arena, left as int);
        lemma_tree_stable(h2.state.arena, outer.arena, right as int);
        lemma_tree_stable(h3.state.arena, outer.arena, yes as int);
        lemma_tree_stable(h4.state.arena, outer.arena, no as int);
        assert(outer.arena[cond_id as int] == ASTNode::Binary(op, left, right));
        assert(outer.arena[outer_id as int] == ASTNode::Ternary(cond_id, yes, no));
        assert(tree_at(outer.arena, cond_id as int) == binary(op, a, b));
    }
}

/// A prefix operator binds tighter than every infix operator. `-a op b` is
/// `(0 - a) op b`, and likewise for `!` and `~`; `+a op b` is `a op b`.
pub proof fn lemma_prefix_tightest(
    toks: Seq<Spanned<Token>>,
    s: ParseState,
    pre: Operator,
    a: Expr,
    op: Operator,
    b: Expr,
)
    requires
        is_prefix(pre),
        is_infix(op),
        operator_at(toks, s.k as int, pre),
        operand_at(toks, s.k as int + 1, a),
        operator_at(toks, s.k + width(a) + 1, op),
        operand_at(toks, s.k + width(a) + 2, b),
        closed_at(toks, s.k + width(a) + width(b) + 2),
        s.arena.len() + node_count(a) + node_count(b) + 3 <= usize::MAX,
    ensures
        parses_to(
            toks,
            s,
            0,
            s.k + width(a) + width(b) + 2,
            if pre == Operator::Plus {
                binary(op, a, b)
            } else {
                binary(op, binary(pre, Expr::Literal(0), a), b)
            },
        ),
{
    let powers = binding_power_of(op)->0;
    lemma_printed_first(a);
    lemma_printed_first(b);
    let s1 = shift(s);
    lemma_operand(toks, s1, a);
    let h1 = parse_head(toks, s1);
    let inner = h1.node->0;
    // no infix operator binds as tightly as the prefix
    assert(parse_tail(toks, h1.state, inner, PREFIX_POWER) == done(h1.state, inner));
    assert(parse_expr(toks, s1, PREFIX_POWER) == done(h1.state, inner));
    if pre == Operator::Plus {
        assert(parse_head(toks, s) == done(h1.state, inner));
        let s2 = shift(h1.state);
        lemma_operand(toks, s2, b);
        let h2 = parse_head(toks, s2);
        let right = h2.node->0;
        assert(parse_expr(toks, s2, powers.1) == done(h2.state, right)) by {
            lemma_tail_stops(toks, h2.state, right, powers.1);
        }
        let outer_id = next_id(h2.state);
        let outer = emit(h2.state, ASTNode::Binary(op, inner, right));
        assert(parse_tail(toks, h1.state, inner, 0) == done(outer, outer_id)) by {
            lemma_tail_stops(toks, outer, outer_id, 0);
        }
        assert(parse_expr(toks, s, 0) == done(outer, outer_id));
        assert(tree_at(outer.arena, outer_id as int) == binary(op, a, b)) by {
            lemma_tree_stable(h1.state.arena, outer.arena, inner as int);
            lemma_tree_stable(h2.state.arena, outer.arena, right as int);
            assert(outer.arena[outer_id as int] == ASTNode::Binary(op, inner, right));
        }
    } else {
        let zero = next_id(h1.state);
        let with_zero = emit(h1.state, ASTNode::Literal(0));
        let left = next_id(with_zero);
        let signed = emit(with_zero, ASTNode::Binary(pre, zero, inner));
        assert(parse_head(toks, s) == done(signed, left));
        let s2 = shift(signed);
        lemma_operand(toks, s2, b);
        let h2 = parse_head(toks, s2);
        let right = h2.node->0;
        assert(parse_expr(toks, s2, powers.1) == done(h2.state, right)) by {
            lemma_tail_stops(toks, h2.state, right, powers.1);
        }
        let outer_id = next_id(h2.state);
        let outer = emit(h2.state, ASTNode::Binary(op, left, right));
        assert(parse_tail(toks, signed, left, 0) == done(outer, outer_id)) by {
            lemma_tail_stops(toks, outer, outer_id, 0);
        }
        assert(parse_expr(toks, s, 0) == done(outer, outer_id));
        assert(tree_at(outer.arena, outer_id as int) == binary(
            op,
            binary(pre, Expr::Literal(0), a),
            b,
        )) by {
            lemma_tree_stable(h1.state.arena, outer.arena, inner as int);
            lemma_tree_stable(h2.state.arena, outer.arena, right as int);
            assert(outer.arena[zero as int] == ASTNode::Literal(0));
            assert(outer.arena[left as int] == ASTNode::Binary(pre, zero, inner));
            assert(outer.arena[outer_id as int] == ASTNode::Binary(op, left, right));
            assert(tree_at(outer.arena, zero as int) == Expr::Literal(0));
            assert(tree_at(outer.arena, left as int) == binary(pre, Expr::Literal(0), a));
        }
    }
}

} // verus!
