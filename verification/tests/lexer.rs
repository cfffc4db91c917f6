use bytebeat::parser::lex::Lexer;
use bytebeat::parser::{LexErrorKind, NumberErrorKind, Operator, Span, Token};

fn assert_token(lexer: &mut Lexer, expected_token: Token, start: usize, end: usize) {
    let spanned = lexer.next();
    assert_eq!(
        spanned.node, expected_token,
        "Token mismatch at {}-{}",
        start, end
    );
    assert_eq!(spanned.span.start, start, "Start index mismatch");
    assert_eq!(spanned.span.end, end, "End index mismatch");
}

fn all_tokens(input: &str) -> Vec<(Token, Span)> {
    let mut lexer = Lexer::new(input);
    let mut out = Vec::new();
    loop {
        let t = lexer.next();
        out.push((t.node, t.span));
        if t.node == Token::Eof {
            return out;
        }
    }
}

fn kinds(input: &str) -> Vec<Token> {
    all_tokens(input).into_iter().map(|(t, _)| t).collect()
}

// Entirely 1-char lexemes without whitespace
#[test]
fn test_single_char_no_whitespace() {
    let input = "t+t";
    let mut lexer = Lexer::new(input);

    assert_token(&mut lexer, Token::Variable, 0, 0);
    assert_token(&mut lexer, Token::Op(Operator::Plus), 1, 1);
    assert_token(&mut lexer, Token::Variable, 2, 2);

    assert_token(&mut lexer, Token::Eof, 3, 3);
}

// 1-char lexemes with whitespace
#[test]
fn test_single_char_with_whitespace() {
    let input = "t + t";
    let mut lexer = Lexer::new(input);

    assert_token(&mut lexer, Token::Variable, 0, 0);
    assert_token(&mut lexer, Token::Op(Operator::Plus), 2, 2);
    assert_token(&mut lexer, Token::Variable, 4, 4);

    assert_token(&mut lexer, Token::Eof, 5, 5);
}

// realistic multi-char lexemes with whitespace
#[test]
fn test_multi_char_lexemes() {
    let input = "123 == 45";
    let mut lexer = Lexer::new(input);

    assert_token(&mut lexer, Token::Number(123), 0, 2);
    assert_token(&mut lexer, Token::Op(Operator::Eq), 4, 5);
    assert_token(&mut lexer, Token::Number(45), 7, 8);
    assert_token(&mut lexer, Token::Eof, 9, 9);
}

#[test]
fn test_eof_empty() {
    let input = "";
    let mut lexer = Lexer::new(input);
    assert_token(&mut lexer, Token::Eof, 0, 0);
}

#[test]
fn test_whitespace_only() {
    let input = "   ";
    let mut lexer = Lexer::new(input);
    assert_token(&mut lexer, Token::Eof, 3, 3);
}

#[test]
fn test_error_tokens() {
    let input = "=";
    let mut lexer = Lexer::new(input);
    let token = lexer.next();
    if let Token::LexError(LexErrorKind::SolitaryEquals) = token.node {
    } else {
        panic!("Expected SolitaryEquals, got {:?}", token.node);
    }

    let input = "@";
    let mut lexer = Lexer::new(input);
    let token = lexer.next();
    if let Token::LexError(LexErrorKind::UnexpectedChar('@')) = token.node {
    } else {
        panic!("Expected UnexpectedChar(@), got {:?}", token.node);
    }
}

#[test]
fn eof_is_idempotent() {
    let mut lexer = Lexer::new("t ");
    assert_token(&mut lexer, Token::Variable, 0, 0);
    assert_token(&mut lexer, Token::Eof, 2, 2);
    assert_token(&mut lexer, Token::Eof, 2, 2);
    assert_token(&mut lexer, Token::Eof, 2, 2);
}

#[test]
fn every_operator_is_lexed() {
    let expected: Vec<Token> = [
        Operator::Mul,
        Operator::Div,
        Operator::Plus,
        Operator::Minus,
        Operator::Mod,
        Operator::Lparen,
        Operator::Rparen,
        Operator::Rsh,
        Operator::Lsh,
        Operator::And,
        Operator::Or,
        Operator::BitXor,
        Operator::BitNot,
        Operator::LogAnd,
        Operator::LogOr,
        Operator::LogNot,
        Operator::Eq,
        Operator::Ne,
        Operator::Gt,
        Operator::Lt,
        Operator::Ge,
        Operator::Le,
        Operator::Question,
        Operator::Colon,
    ]
    .into_iter()
    .map(Token::Op)
    .chain([Token::Eof])
    .collect();
    assert_eq!(
        kinds("* / + - % ( ) >> << & | ^ ~ && || ! == != > < >= <= ? :"),
        expected
    );
}

#[test]
fn two_character_operators_are_greedy() {
    assert_eq!(
        kinds("&&&"),
        vec![Token::Op(Operator::LogAnd), Token::Op(Operator::And), Token::Eof]
    );
    assert_eq!(
        kinds("|||"),
        vec![Token::Op(Operator::LogOr), Token::Op(Operator::Or), Token::Eof]
    );
    assert_eq!(
        kinds(">>="),
        vec![
            Token::Op(Operator::Rsh),
            Token::LexError(LexErrorKind::SolitaryEquals),
            Token::Eof
        ]
    );
    assert_eq!(kinds("<<<"), vec![Token::Op(Operator::Lsh), Token::Op(Operator::Lt), Token::Eof]);
    assert_eq!(kinds("!=="), vec![
        Token::Op(Operator::Ne),
        Token::LexError(LexErrorKind::SolitaryEquals),
        Token::Eof
    ]);
    assert_eq!(kinds("!t"), vec![Token::Op(Operator::LogNot), Token::Variable, Token::Eof]);
    assert_eq!(kinds("<t"), vec![Token::Op(Operator::Lt), Token::Variable, Token::Eof]);
    assert_eq!(kinds(">t"), vec![Token::Op(Operator::Gt), Token::Variable, Token::Eof]);
    assert_eq!(kinds("<="), vec![Token::Op(Operator::Le), Token::Eof]);
    assert_eq!(kinds(">="), vec![Token::Op(Operator::Ge), Token::Eof]);
}

#[test]
fn number_bases() {
    assert_eq!(kinds("0x1F"), vec![Token::Number(31), Token::Eof]);
    assert_eq!(kinds("0xff"), vec![Token::Number(255), Token::Eof]);
    assert_eq!(kinds("0b101"), vec![Token::Number(5), Token::Eof]);
    assert_eq!(kinds("017"), vec![Token::Number(15), Token::Eof]);
    assert_eq!(kinds("42"), vec![Token::Number(42), Token::Eof]);
    assert_eq!(kinds("0"), vec![Token::Number(0), Token::Eof]);
    assert_eq!(
        kinds("0+1"),
        vec![
            Token::Number(0),
            Token::Op(Operator::Plus),
            Token::Number(1),
            Token::Eof
        ]
    );
    assert_eq!(kinds("2147483647"), vec![Token::Number(i32::MAX), Token::Eof]);
    assert_eq!(kinds("0x7fffffff"), vec![Token::Number(i32::MAX), Token::Eof]);
    assert_eq!(kinds("00"), vec![Token::Number(0), Token::Eof]);
}

#[test]
fn number_spans_cover_prefix_and_digits() {
    let toks = all_tokens(" 0x1F+017");
    assert_eq!(toks[0], (Token::Number(31), Span::new(0, 1, 4)));
    assert_eq!(toks[1], (Token::Op(Operator::Plus), Span::new(0, 5, 5)));
    assert_eq!(toks[2], (Token::Number(15), Span::new(0, 6, 8)));
    assert_eq!(toks[3], (Token::Eof, Span::new(0, 9, 9)));
}

#[test]
fn improper_numbers() {
    assert_eq!(
        kinds("0x"),
        vec![
            Token::LexError(LexErrorKind::ImproperNumber(16, NumberErrorKind::Empty)),
            Token::Eof
        ]
    );
    assert_eq!(
        kinds("0b"),
        vec![
            Token::LexError(LexErrorKind::ImproperNumber(2, NumberErrorKind::Empty)),
            Token::Eof
        ]
    );
    assert_eq!(
        kinds("0b12"),
        vec![
            Token::LexError(LexErrorKind::ImproperNumber(2, NumberErrorKind::InvalidDigit)),
            Token::Eof
        ]
    );
    assert_eq!(
        kinds("09"),
        vec![
            Token::LexError(LexErrorKind::ImproperNumber(8, NumberErrorKind::InvalidDigit)),
            Token::Eof
        ]
    );
    // a hexadecimal literal ends at the first character that is no digit of it
    assert_eq!(
        kinds("0xg"),
        vec![
            Token::LexError(LexErrorKind::ImproperNumber(16, NumberErrorKind::Empty)),
            Token::LexError(LexErrorKind::UnexpectedChar('g')),
            Token::Eof
        ]
    );
}

#[test]
fn numbers_saturate_with_a_diagnostic() {
    let mut lexer = Lexer::new("2147483648 0xFFFFFFFF 7");
    assert_eq!(lexer.next().node, Token::Number(i32::MAX));
    assert_eq!(lexer.saturated(), &vec![Span::new(0, 0, 9)]);
    assert_eq!(lexer.next().node, Token::Number(i32::MAX));
    assert_eq!(lexer.next().node, Token::Number(7));
    assert_eq!(
        lexer.saturated(),
        &vec![Span::new(0, 0, 9), Span::new(0, 11, 20)]
    );

    let nines = "9".repeat(64);
    let mut lexer = Lexer::new(&nines);
    let t = lexer.next();
    assert_eq!(t.node, Token::Number(i32::MAX));
    assert_eq!(t.span, Span::new(0, 0, 63));
    assert_eq!(lexer.saturated().len(), 1);
    assert_eq!(lexer.next().node, Token::Eof);
}

#[test]
fn numbers_in_range_give_no_diagnostic() {
    let mut lexer = Lexer::new("2147483647 0 12");
    while lexer.next().node != Token::Eof {}
    assert!(lexer.saturated().is_empty());
}

#[test]
fn only_t_is_a_variable() {
    assert_eq!(
        kinds("x"),
        vec![
            Token::LexError(LexErrorKind::UnexpectedChar('x')),
            Token::Eof
        ]
    );
    assert_eq!(
        kinds("T"),
        vec![
            Token::LexError(LexErrorKind::UnexpectedChar('T')),
            Token::Eof
        ]
    );
    assert_eq!(
        kinds("tt"),
        vec![Token::Variable, Token::Variable, Token::Eof]
    );
}

#[test]
fn lines_and_columns() {
    // a line feed opens a new line; a carriage return takes no column
    let toks = all_tokens("t\n +\r\n\tt\r1");
    assert_eq!(toks[0], (Token::Variable, Span::new(0, 0, 0)));
    assert_eq!(toks[1], (Token::Op(Operator::Plus), Span::new(1, 1, 1)));
    assert_eq!(toks[2], (Token::Variable, Span::new(2, 1, 1)));
    assert_eq!(toks[3], (Token::Number(1), Span::new(2, 2, 2)));
    assert_eq!(toks[4], (Token::Eof, Span::new(2, 3, 3)));
}

#[test]
fn unicode_whitespace_is_skipped() {
    assert_eq!(
        kinds("t\u{a0}+\u{2003}t\u{3000}"),
        vec![
            Token::Variable,
            Token::Op(Operator::Plus),
            Token::Variable,
            Token::Eof
        ]
    );
}

#[test]
fn spans_never_go_backwards() {
    for input in [
        "t*(42&t>>10)",
        "  t\n\n  + 0x10\r\n>> 3 @ = \n",
        "((t&32767)>>13==2|(t&65535)>>12==9?1:0)",
        "\n\n\n",
        "0b 0x 09 99999999999",
    ] {
        let toks = all_tokens(input);
        for pair in toks.windows(2) {
            let (a, b) = (pair[0].1, pair[1].1);
            assert!(
                (a.line, a.start) <= (b.line, b.start),
                "{:?} before {:?} in {:?}",
                a,
                b,
                input
            );
            assert!(a.start <= a.end);
        }
    }
}
