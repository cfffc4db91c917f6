//! What an expression is worth: C's `int` arithmetic on 32-bit two's
//! complement values, with division and remainder by zero defined as zero.
use vstd::prelude::*;

use super::{ASTNode, Operator};

verus! {

/// An expression as a tree, apart from any arena.
pub enum Expr {
    Literal(i32),
    Variable,
    Binary(Operator, Box<Expr>, Box<Expr>),
    Ternary(Box<Expr>, Box<Expr>, Box<Expr>),
    Error,
}

/// The 32-bit two's complement value that agrees with `x` modulo 2^32.
pub open spec fn wrap32(x: int) -> i32 {
    let m = x % 0x1_0000_0000;
    if m >= 0x8000_0000 {
        (m - 0x1_0000_0000) as i32
    } else {
        m as i32
    }
}

/// Wrapping leaves a value at a multiple of 2^32 from where it was.
pub proof fn lemma_wrap32_near(x: int)
    ensures
        (wrap32(x) - x) % 0x1_0000_0000 == 0,
        i32::MIN <= x <= i32::MAX ==> wrap32(x) == x,
{
}

/// Two values a multiple of 2^32 apart wrap to the same.
pub proof fn lemma_wrap32_same(x: int, y: int)
    requires
        (x - y) % 0x1_0000_0000 == 0,
    ensures
        wrap32(x) == wrap32(y),
{
}

/// C's truth value of a condition.
pub open spec fn truth(b: bool) -> i32 {
    if b {
        1
    } else {
        0
    }
}

/// The quotient of `l` by `r` rounded toward zero, for `r` other than zero.
pub open spec fn quotient(l: int, r: int) -> int {
    if l >= 0 {
        if r > 0 {
            l / r
        } else {
            -(l / (-r))
        }
    } else {
        if r > 0 {
            -((-l) / r)
        } else {
            (-l) / (-r)
        }
    }
}

/// By how many bits `r` shifts: `r` read as an unsigned 32-bit number,
/// modulo the width of the value.
pub open spec fn shift_amount(r: i32) -> u32 {
    (r as u32) % 32
}

/// The value of `l op r`. The operators with one operand, `~` and `!`,
/// ignore `l`. An operator that joins no operands is worth zero.
pub open spec fn apply(op: Operator, l: i32, r: i32) -> i32 {
    match op {
        Operator::Plus => wrap32(l + r),
        Operator::Minus => wrap32(l - r),
        Operator::Mul => wrap32(l * r),
        Operator::Div => if r == 0 {
            0
        } else {
            wrap32(quotient(l as int, r as int))
        },
        Operator::Mod => if r == 0 {
            0
        } else {
            wrap32(l - r * quotient(l as int, r as int))
        },
        Operator::And => l & r,
        Operator::Or => l | r,
        Operator::BitXor => l ^ r,
        Operator::BitNot => !r,
        Operator::Lsh => l << shift_amount(r),
        Operator::Rsh => l >> shift_amount(r),
        Operator::LogAnd => truth(l != 0 && r != 0),
        Operator::LogOr => truth(l != 0 || r != 0),
        Operator::LogNot => truth(r == 0),
        Operator::Eq => truth(l == r),
        Operator::Ne => truth(l != r),
        Operator::Gt => truth(l > r),
        Operator::Lt => truth(l < r),
        Operator::Ge => truth(l >= r),
        Operator::Le => truth(l <= r),
        Operator::Lparen | Operator::Rparen | Operator::Question | Operator::Colon => 0,
    }
}

/// The value of the expression at sample `t`. Of a ternary only the chosen
/// branch counts. An `Error` is worth zero.
pub open spec fn value(e: Expr, t: i32) -> i32
    decreases e,
{
    match e {
        Expr::Literal(n) => n,
        Expr::Variable => t,
        Expr::Binary(op, l, r) => apply(op, value(*l, t), value(*r, t)),
        Expr::Ternary(c, a, b) => if value(*c, t) != 0 {
            value(*a, t)
        } else {
            value(*b, t)
        },
        Expr::Error => 0,
    }
}

/// The low eight bits of `v`, as a sample.
pub open spec fn low_byte(v: i32) -> u8 {
    ((v as int) % 256) as u8
}

/// The tree below the node `id` of an arena whose children stand before
/// their parents. An id outside the arena, or a child that does not stand
/// before its parent, reads as `Error`.
pub open spec fn tree_at(nodes: Seq<ASTNode>, id: int) -> Expr
    decreases id,
{
    if 0 <= id < nodes.len() {
        match nodes[id] {
            ASTNode::Literal(n) => Expr::Literal(n),
            ASTNode::Variable => Expr::Variable,
            ASTNode::Binary(op, l, r) => if l < id && r < id {
                Expr::Binary(
                    op,
                    Box::new(tree_at(nodes, l as int)),
                    Box::new(tree_at(nodes, r as int)),
                )
            } else {
                Expr::Error
            },
            ASTNode::Ternary(c, a, b) => if c < id && a < id && b < id {
                Expr::Ternary(
                    Box::new(tree_at(nodes, c as int)),
                    Box::new(tree_at(nodes, a as int)),
                    Box::new(tree_at(nodes, b as int)),
                )
            } else {
                Expr::Error
            },
            ASTNode::Error(_) => Expr::Error,
        }
    } else {
        Expr::Error
    }
}

/// Adds with wraparound.
pub fn add32(l: i32, r: i32) -> (v: i32)
    ensures
        v == wrap32(l + r),
{
    l.wrapping_add(r)
}

/// Subtracts with wraparound.
pub fn sub32(l: i32, r: i32) -> (v: i32)
    ensures
        v == wrap32(l - r),
{
    l.wrapping_sub(r)
}

fn mul32(l: i32, r: i32) -> (v: i32)
    ensures
        v == wrap32(l * r),
{
    l.wrapping_mul(r)
}

fn div32(l: i32, r: i32) -> (v: i32)
    requires
        r != 0,
    ensures
        v == wrap32(quotient(l as int, r as int)),
{
    match l.checked_div(r) {
        Some(q) => q,
        // only the smallest value divided by -1 has no quotient in range
        None => i32::MIN,
    }
}

fn rem32(l: i32, r: i32) -> (v: i32)
    requires
        r != 0,
    ensures
        v == wrap32(l - r * quotient(l as int, r as int)),
{
    proof {
        lemma_remainder(l as int, r as int);
    }
    match l.checked_rem(r) {
        Some(m) => m,
        None => 0,
    }
}

/// Computes `l op r`.
pub fn apply_operator(op: Operator, l: i32, r: i32) -> (v: i32)
    ensures
        v == apply(op, l, r),
{
    match op {
        Operator::Plus => add32(l, r),
        Operator::Minus => sub32(l, r),
        Operator::Mul => mul32(l, r),
        Operator::Div => if r == 0 {
            0
        } else {
            div32(l, r)
        },
        Operator::Mod => if r == 0 {
            0
        } else {
            rem32(l, r)
        },
        Operator::And => l & r,
        Operator::Or => l | r,
        Operator::BitXor => l ^ r,
        Operator::BitNot => !r,
        Operator::Lsh => l.wrapping_shl(#[verifier::truncate] (r as u32)),
        Operator::Rsh => l.wrapping_shr(#[verifier::truncate] (r as u32)),
        Operator::LogAnd => if l != 0 && r != 0 {
            1
        } else {
            0
        },
        Operator::LogOr => if l != 0 || r != 0 {
            1
        } else {
            0
        },
        Operator::LogNot => if r == 0 {
            1
        } else {
            0
        },
        Operator::Eq => if l == r {
            1
        } else {
            0
        },
        Operator::Ne => if l != r {
            1
        } else {
            0
        },
        Operator::Gt => if l > r {
            1
        } else {
            0
        },
        Operator::Lt => if l < r {
            1
        } else {
            0
        },
        Operator::Ge => if l >= r {
            1
        } else {
            0
        },
        Operator::Le => if l <= r {
            1
        } else {
            0
        },
        _ => 0,
    }
}

/// What is left of `l` after taking out `r` times the quotient has the sign
/// of `l` and is smaller than `r` in size.
proof fn lemma_remainder(l: int, r: int)
    requires
        r != 0,
    ensures
        l >= 0 && r > 0 ==> l - r * quotient(l, r) == l % r,
        l >= 0 && r < 0 ==> l - r * quotient(l, r) == l % (-r),
        l < 0 && r > 0 ==> l - r * quotient(l, r) == -((-l) % r),
        l < 0 && r < 0 ==> l - r * quotient(l, r) == -((-l) % (-r)),
{
    if l >= 0 && r > 0 {
        assert(l == r * (l / r) + l % r) by (nonlinear_arith)
            requires
                r != 0,
        ;
    } else if l >= 0 && r < 0 {
        let d = -r;
        assert(l == d * (l / d) + l % d) by (nonlinear_arith)
            requires
                d != 0,
        ;
        assert(r * (-(l / d)) == d * (l / d)) by (nonlinear_arith)
            requires
                d == -r,
        ;
    } else if l < 0 && r > 0 {
        let n = -l;
        assert(n == r * (n / r) + n % r) by (nonlinear_arith)
            requires
                r != 0,
        ;
        assert(r * (-(n / r)) == -(r * (n / r))) by (nonlinear_arith);
    } else {
        let n = -l;
        let d = -r;
        assert(n == d * (n / d) + n % d) by (nonlinear_arith)
            requires
                d != 0,
        ;
        assert(r * (n / d) == -(d * (n / d))) by (nonlinear_arith)
            requires
                d == -r,
        ;
    }
}

/// Cuts a value down to its low eight bits.
pub fn to_sample(v: i32) -> (b: u8)
    ensures
        b == low_byte(v),
{
    assert(#[verifier::truncate] (v as u8) as int == (v as int) % 256) by (bit_vector);
    #[verifier::truncate]
    (v as u8)
}

} // verus!
