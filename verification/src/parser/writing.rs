//! The text of tokens, and reading it back.
//!
//! Tokens are written one after the other, each followed by a blank, and
//! numbers in decimal. Lexing that text gives the same tokens.
use vstd::prelude::*;

use super::chars::{digit_value, is_decimal_digit, is_space};
use super::lex::{
    char_at, digit_run, digits_number, digits_valid, in_run, lex_step, number_token, scan,
    scan_number, scan_radix, skip_blank, step_over, LexState,
};
use super::parse::tokens_from;
use super::{Operator, Spanned, Token};

verus! {

/// The digit `d` as a character.
pub open spec fn digit_char(d: int) -> char {
    if d == 0 {
        '0'
    } else if d == 1 {
        '1'
    } else if d == 2 {
        '2'
    } else if d == 3 {
        '3'
    } else if d == 4 {
        '4'
    } else if d == 5 {
        '5'
    } else if d == 6 {
        '6'
    } else if d == 7 {
        '7'
    } else if d == 8 {
        '8'
    } else {
        '9'
    }
}

/// The number in decimal, without leading zeros.
pub open spec fn decimal(n: nat) -> Seq<char>
    decreases n,
{
    if n < 10 {
        seq![digit_char(n as int)]
    } else {
        decimal(n / 10).push(digit_char((n % 10) as int))
    }
}

/// The operator as written.
pub open spec fn operator_text(op: Operator) -> Seq<char> {
    match op {
        Operator::Mul => seq!['*'],
        Operator::Div => seq!['/'],
        Operator::Plus => seq!['+'],
        Operator::Minus => seq!['-'],
        Operator::Mod => seq!['%'],
        Operator::Lparen => seq!['('],
        Operator::Rparen => seq![')'],
        Operator::Rsh => seq!['>', '>'],
        Operator::Lsh => seq!['<', '<'],
        Operator::And => seq!['&'],
        Operator::Or => seq!['|'],
        Operator::BitXor => seq!['^'],
        Operator::BitNot => seq!['~'],
        Operator::LogAnd => seq!['&', '&'],
        Operator::LogOr => seq!['|', '|'],
        Operator::LogNot => seq!['!'],
        Operator::Eq => seq!['=', '='],
        Operator::Ne => seq!['!', '='],
        Operator::Gt => seq!['>'],
        Operator::Lt => seq!['<'],
        Operator::Ge => seq!['>', '='],
        Operator::Le => seq!['<', '='],
        Operator::Question => seq!['?'],
        Operator::Colon => seq![':'],
    }
}

/// A token that can be written: the variable, a number that is not
/// negative, an operator.
pub open spec fn writable(t: Token) -> bool {
    match t {
        Token::Variable => true,
        Token::Number(n) => n >= 0,
        Token::Op(_) => true,
        _ => false,
    }
}

/// The token as written.
pub open spec fn word(t: Token) -> Seq<char> {
    match t {
        Token::Variable => seq!['t'],
        Token::Number(n) => decimal(n as nat),
        Token::Op(op) => operator_text(op),
        _ => Seq::empty(),
    }
}

/// The tokens as written: each followed by one blank.
pub open spec fn text_of(kinds: Seq<Token>) -> Seq<char>
    decreases kinds.len(),
{
    if kinds.len() == 0 {
        Seq::empty()
    } else {
        word(kinds[0]) + seq![' '] + text_of(kinds.drop_first())
    }
}

/// Every token of the sequence can be written.
pub open spec fn all_writable(kinds: Seq<Token>) -> bool {
    forall|i: int| 0 <= i < kinds.len() ==> writable(#[trigger] kinds[i])
}

/// `w` stands in `src` at index `p`, and a blank follows it.
pub open spec fn stands_at(src: Seq<char>, p: int, w: Seq<char>) -> bool {
    &&& 0 <= p
    &&& p + w.len() < src.len()
    &&& forall|i: int| 0 <= i < w.len() ==> #[trigger] src[p + i] == w[i]
    &&& src[p + w.len()] == ' '
}

/// A number written in decimal is one or more digits, starts with no zero
/// unless it is zero, and reads as itself.
pub proof fn lemma_decimal(n: nat)
    ensures
        decimal(n).len() >= 1,
        forall|i: int| 0 <= i < decimal(n).len() ==> is_decimal_digit(#[trigger] decimal(n)[i]),
        n > 0 ==> decimal(n)[0] != '0',
        n == 0 ==> decimal(n) == seq!['0'],
        digits_valid(decimal(n), 10),
        digits_number(decimal(n), 10) == n,
    decreases n,
{
    if n < 10 {
        let ds = decimal(n);
        assert(ds.drop_last() =~= Seq::<char>::empty());
        assert(digits_number(ds.drop_last(), 10) == 0);
        assert(ds.last() == digit_char(n as int));
        assert(digit_value(digit_char(n as int)) == n);
    } else {
        lemma_decimal(n / 10);
        let ds = decimal(n);
        let front = decimal(n / 10);
        let last = digit_char((n % 10) as int);
        assert(ds.drop_last() =~= front);
        assert(ds.last() == last);
        assert(digit_value(last) == n % 10);
        assert(ds[0] == front[0]);
        assert forall|i: int| 0 <= i < ds.len() implies is_decimal_digit(#[trigger] ds[i]) by {
            if i < front.len() {
                assert(ds[i] == front[i]);
            }
        }
        assert forall|i: int| 0 <= i < ds.len() implies digit_value(#[trigger] ds[i]) < 10 by {
            assert(is_decimal_digit(ds[i]));
        }
    }
}

/// Digits that stand before a character that is no digit are one run.
pub proof fn lemma_digit_run_exact(src: Seq<char>, p: int, len: nat)
    requires
        0 <= p,
        p + len < src.len(),
        forall|i: int| 0 <= i < len ==> is_decimal_digit(#[trigger] src[p + i]),
        !is_decimal_digit(src[p + len]),
    ensures
        digit_run(src, p, false) == len,
    decreases len,
{
    if len > 0 {
        assert(is_decimal_digit(src[p + 0]));
        assert forall|i: int| 0 <= i < len - 1 implies is_decimal_digit(
            #[trigger] src[p + 1 + i],
        ) by {
            assert(src[p + 1 + i] == src[p + (i + 1)]);
        }
        lemma_digit_run_exact(src, p + 1, (len - 1) as nat);
    }
}

/// A written token is read as itself, and takes as many characters as it
/// was written with.
pub proof fn lemma_scan_word(src: Seq<char>, p: int, t: Token)
    requires
        writable(t),
        stands_at(src, p, word(t)),
    ensures
        word(t).len() >= 1,
        !is_space(src[p]),
        scan(src, p).token == t,
        scan(src, p).len == word(t).len(),
{
    let w = word(t);
    match t {
        Token::Number(n) => {
            lemma_decimal(n as nat);
            assert(src[p + 0] == w[0]);
            assert(is_decimal_digit(w[0]));
            if n == 0 {
                assert(src[p + 1] == ' ');
                assert(scan_number(src, p).token == t);
            } else {
                assert forall|i: int| 0 <= i < w.len() implies is_decimal_digit(
                    #[trigger] src[p + i],
                ) by {
                    assert(src[p + i] == w[i]);
                }
                lemma_digit_run_exact(src, p, w.len());
                let ds = src.subrange(p + 0, p + 0 + w.len());
                assert(ds =~= w) by {
                    assert forall|i: int| 0 <= i < w.len() implies ds[i] == w[i] by {
                        assert(src[p + i] == w[i]);
                    }
                }
                assert(scan_radix(src, p, 0, 10).token == number_token(w, 10));
                assert(scan_number(src, p) == scan_radix(src, p, 0, 10));
            }
        },
        Token::Op(op) => {
            assert(src[p + 0] == w[0]);
            if w.len() == 2 {
                assert(src[p + 1] == w[1]);
            } else {
                assert(src[p + 1] == ' ');
            }
        },
        _ => {
            assert(src[p + 0] == w[0]);
        },
    }
}

/// The kinds of the tokens, in order.
pub open spec fn kinds_of(toks: Seq<Spanned<Token>>) -> Seq<Token> {
    Seq::new(toks.len(), |i: int| toks[i].node)
}

/// Lexing may start before a blank or after it.
proof fn lemma_tokens_from_blank(src: Seq<char>, st: LexState)
    requires
        st.pos < src.len(),
        is_space(src[st.pos as int]),
    ensures
        tokens_from(src, st) == tokens_from(src, step_over(st, src[st.pos as int])),
{
    let next = step_over(st, src[st.pos as int]);
    assert(skip_blank(src, st) == skip_blank(src, next));
    assert(lex_step(src, st) == lex_step(src, next));
    lemma_skip_forward(src, next);
}

/// Skipping whitespace never moves back, nor beyond the end.
proof fn lemma_skip_forward(src: Seq<char>, st: LexState)
    requires
        st.pos <= src.len(),
    ensures
        st.pos <= skip_blank(src, st).pos <= src.len(),
    decreases src.len() - st.pos,
{
    if st.pos < src.len() && is_space(src[st.pos as int]) {
        lemma_skip_forward(src, step_over(st, src[st.pos as int]));
    }
}

/// Writing tokens out and lexing the text gives the same tokens, and the
/// end of input after them.
pub proof fn lemma_lex_text(src: Seq<char>, st: LexState, kinds: Seq<Token>)
    requires
        st.pos <= src.len(),
        src.skip(st.pos as int) == text_of(kinds),
        all_writable(kinds),
    ensures
        kinds_of(tokens_from(src, st)) == kinds.push(Token::Eof),
    decreases kinds.len(),
{
    let p = st.pos as int;
    if kinds.len() == 0 {
        assert(src.skip(p).len() == 0);
        assert(lex_step(src, st).token.node is Eof);
        assert(kinds_of(tokens_from(src, st)) =~= kinds.push(Token::Eof));
    } else {
        let t = kinds[0];
        let w = word(t);
        let rest = kinds.drop_first();
        let tail = text_of(rest);
        let text = src.skip(p);
        assert(text == w + seq![' '] + tail);
        assert(stands_at(src, p, w)) by {
            assert(text.len() == w.len() + 1 + tail.len());
            assert forall|i: int| 0 <= i < w.len() implies #[trigger] src[p + i] == w[i] by {
                assert(text[i] == w[i]);
                assert(text[i] == src[p + i]);
            }
            assert(text[w.len() as int] == ' ');
            assert(text[w.len() as int] == src[p + w.len()]);
        }
        assert(writable(t));
        lemma_scan_word(src, p, t);
        let step = lex_step(src, st);
        assert(skip_blank(src, st) == st);
        assert(step.token.node == t);
        assert(step.next.pos == p + w.len());
        let after = step_over(step.next, ' ');
        assert(src[step.next.pos as int] == ' ');
        lemma_tokens_from_blank(src, step.next);
        assert(src.skip(after.pos as int) =~= tail) by {
            assert forall|i: int| 0 <= i < tail.len() implies src.skip(after.pos as int)[i]
                == tail[i] by {
                assert(text[w.len() + 1 + i] == tail[i]);
            }
        }
        assert(all_writable(rest)) by {
            assert forall|i: int| 0 <= i < rest.len() implies writable(#[trigger] rest[i]) by {
                assert(rest[i] == kinds[i + 1]);
            }
        }
        lemma_lex_text(src, after, rest);
        let later = tokens_from(src, step.next);
        assert(tokens_from(src, st) == seq![step.token] + later);
        assert(kinds_of(later) == rest.push(Token::Eof));
        assert(kinds_of(tokens_from(src, st)) =~= kinds.push(Token::Eof)) by {
            let all = tokens_from(src, st);
            assert(all.len() == kinds.len() + 1);
            assert forall|i: int| 0 <= i < all.len() implies kinds_of(all)[i] == kinds.push(
                Token::Eof,
            )[i] by {
                if i > 0 {
                    assert(all[i] == later[i - 1]);
                    assert(kinds_of(later)[i - 1] == rest.push(Token::Eof)[i - 1]);
                }
            }
        }
    }
}

} // verus!
