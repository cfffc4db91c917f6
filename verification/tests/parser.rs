use bytebeat::parser::parse::{binding_power, infix_binding_power, Parser};
use bytebeat::parser::{
    ASTNode, Beat, LexErrorKind, NumberErrorKind, Operator, ParseError, Span, Spanned, Token,
};

fn shl(l: i32, r: i32) -> i32 {
    l.wrapping_shl(r as u32)
}

fn shr(l: i32, r: i32) -> i32 {
    l.wrapping_shr(r as u32)
}

fn div(l: i32, r: i32) -> i32 {
    if r == 0 {
        0
    } else {
        l.wrapping_div(r)
    }
}

fn rem(l: i32, r: i32) -> i32 {
    if r == 0 {
        0
    } else {
        l.wrapping_rem(r)
    }
}

fn mul(l: i32, r: i32) -> i32 {
    l.wrapping_mul(r)
}

fn add(l: i32, r: i32) -> i32 {
    l.wrapping_add(r)
}

fn neg(r: i32) -> i32 {
    0i32.wrapping_sub(r)
}

fn b(x: bool) -> i32 {
    if x {
        1
    } else {
        0
    }
}

/// Holds the compiled code against the same expression written out by hand
/// with C's `int` arithmetic, for the first 65536 samples.
fn check_parity(code: &str, reference: fn(i32) -> i32) {
    let prog = Beat::compile(code).expect("Failed to compile bytebeat");
    for t in 0..65536 {
        let val = prog.eval(t);
        let expected = reference(t) as u8;
        if val != expected {
            panic!(
                "Mismatch at t={}: expected {}, got {}. Code: {}",
                t, expected, val, code
            );
        }
    }
}

#[test]
fn test_42_melody_parity() {
    check_parity("t*(42&t>>10)", |t| mul(t, 42 & (t >> 10)));
}

#[test]
fn test_neurofunk_parity() {
    check_parity(
        "t*((t&4096?t%65536<59392?7:t&7:16)+(1&t>>14))>>(3&-t>>(t&2048?2:10))|t>>(t&16384?t&4096?10:3:2)",
        |t| {
            let x = if t & 4096 != 0 {
                if b(rem(t, 65536) < 59392) != 0 {
                    7
                } else {
                    t & 7
                }
            } else {
                16
            };
            let x = add(x, 1 & (t >> 14));
            let y = 3 & shr(neg(t), if t & 2048 != 0 { 2 } else { 10 });
            let left = shr(mul(t, x), y);
            let right = shr(
                t,
                if t & 16384 != 0 {
                    if t & 4096 != 0 {
                        10
                    } else {
                        3
                    }
                } else {
                    2
                },
            );
            left | right
        },
    );
}

#[test]
fn test_chip_parity() {
    check_parity(
        "(t&1024||t&16384&&t&2048&&!(t&512))?(t&4096&&!(t&2048)?(t*t*t>>~t*t)+127:t*((t>>11&1)+1)*(1+(t>>16&1)*3))*2:0",
        |t| {
            let cond = (t & 1024 != 0) || ((t & 16384 != 0) && (t & 2048 != 0) && (t & 512 == 0));
            if cond {
                let inner = if (t & 4096 != 0) && (t & 2048 == 0) {
                    add(shr(mul(mul(t, t), t), mul(!t, t)), 127)
                } else {
                    mul(
                        mul(t, add((t >> 11) & 1, 1)),
                        add(1, mul((t >> 16) & 1, 3)),
                    )
                };
                mul(inner, 2)
            } else {
                0
            }
        },
    );
}

#[test]
fn test_bytebreak_parity() {
    check_parity(
        "((t&32767)>>13==2|(t&65535)>>12==9?(t^-(t/8&t>>5)*(t/8&127))&(-(t>>5)&255)*((t&65535)>>12==9?2:1):(t&8191)%((t>>5&255^240)==0?1:t>>5&255^240))/4*3+(t*4/(4+(t>>15&3))&128)*(-t>>11&2)*((t&32767)>>13!=2)/3",
        |t| {
            let cond = b((t & 32767) >> 13 == 2) | b((t & 65535) >> 12 == 9);
            let choice = if cond != 0 {
                let first = t ^ mul(neg(div(t, 8) & (t >> 5)), div(t, 8) & 127);
                let second = mul(
                    neg(t >> 5) & 255,
                    if (t & 65535) >> 12 == 9 { 2 } else { 1 },
                );
                first & second
            } else {
                let m = ((t >> 5) & 255) ^ 240;
                rem(t & 8191, if m == 0 { 1 } else { m })
            };
            let x = mul(div(choice, 4), 3);
            let p = div(mul(t, 4), add(4, (t >> 15) & 3)) & 128;
            let q = shr(neg(t), 11) & 2;
            let r = b((t & 32767) >> 13 != 2);
            let y = div(mul(mul(p, q), r), 3);
            add(x, y)
        },
    );
}

#[test]
fn test_wheezing_modem_parity() {
    check_parity("100*((t<<2|t>>5|t^63)&(t<<10|t>>11))", |t| {
        mul(
            100,
            (shl(t, 2) | shr(t, 5) | (t ^ 63)) & (shl(t, 10) | shr(t, 11)),
        )
    });
}

#[test]
fn test_electrohouse_parity() {
    check_parity(
        "t>>(((t%2?t%((t>>13)%8>=2?((t>>13)%8>=4?41:51):61):t%34)))|(~t>>4)",
        |t| {
            let amount = if rem(t, 2) != 0 {
                let m = if rem(t >> 13, 8) >= 2 {
                    if rem(t >> 13, 8) >= 4 {
                        41
                    } else {
                        51
                    }
                } else {
                    61
                };
                rem(t, m)
            } else {
                rem(t, 34)
            };
            shr(t, amount) | shr(!t, 4)
        },
    );
}

#[test]
fn test_hit_of_the_season_parity() {
    check_parity("(t>0&t<65535?t%32>(t/10000)?t>>4:t>>6:0)&(t>>4)", |t| {
        let choice = if (b(t > 0) & b(t < 65535)) != 0 {
            if rem(t, 32) > div(t, 10000) {
                t >> 4
            } else {
                t >> 6
            }
        } else {
            0
        };
        choice & (t >> 4)
    });
}

#[test]
fn test_basic_arithmetic() {
    let mut p = Parser::new("1 + 2 * 3", Vec::new());
    let root = p.parse().unwrap();
    let arena = p.into_arena();

    // 1 + (2 * 3)
    // Root should be Binary(Plus, 1, Binary(Mul, 2, 3))
    if let ASTNode::Binary(Operator::Plus, l_id, r_id) = &arena[root] {
        assert_eq!(arena[*l_id], ASTNode::Literal(1));
        if let ASTNode::Binary(Operator::Mul, rl_id, rr_id) = &arena[*r_id] {
            assert_eq!(arena[*rl_id], ASTNode::Literal(2));
            assert_eq!(arena[*rr_id], ASTNode::Literal(3));
        } else {
            panic!("Right side structure wrong");
        }
    } else {
        panic!("Top structure wrong");
    }
}

fn eval_one(code: &str, t: i32) -> u8 {
    Beat::compile(code)
        .unwrap_or_else(|e| panic!("{:?} does not compile: {:?}", code, e))
        .eval(t)
}

fn errors_of(code: &str) -> Vec<Spanned<ParseError>> {
    match Beat::compile(code) {
        Ok(_) => panic!("{:?} compiles", code),
        Err(e) => e,
    }
}

fn nodes_of(code: &str) -> (Vec<ASTNode>, usize) {
    let beat = Beat::compile(code).unwrap();
    (beat.nodes().clone(), beat.root())
}

#[test]
fn empty_source_is_silent() {
    for src in ["", "   ", "\n\t\r\n"] {
        let beat = Beat::compile(src).unwrap();
        assert!(beat.nodes().is_empty());
        assert_eq!(beat.root(), 0);
        for t in [0, 1, -1, 255, 65535, i32::MAX, i32::MIN] {
            assert_eq!(beat.eval(t), 0);
        }
    }
    let beat = Beat::default();
    assert!(beat.nodes().is_empty());
    assert_eq!(beat.eval(1234), 0);
}

#[test]
fn division_by_zero_is_zero() {
    let beat = Beat::compile("t/0").unwrap();
    for t in (0..65536).chain([-1, i32::MAX, i32::MIN]) {
        assert_eq!(beat.eval(t), 0);
    }
    let beat = Beat::compile("t%0").unwrap();
    for t in (0..65536).chain([-1, i32::MAX, i32::MIN]) {
        assert_eq!(beat.eval(t), 0);
    }
    assert_eq!(eval_one("7/(t-t)+3", 99), 3);
}

#[test]
fn lone_open_parenthesis() {
    let errors = errors_of("(");
    assert_eq!(
        errors,
        vec![Spanned::new(
            ParseError::UnmatchedParenthesis,
            Span::new(0, 0, 0)
        )]
    );
}

#[test]
fn unclosed_parenthesis_is_reported_at_its_opening() {
    assert_eq!(
        errors_of(" (t+1"),
        vec![Spanned::new(
            ParseError::UnmatchedParenthesis,
            Span::new(0, 1, 1)
        )]
    );
    assert_eq!(
        errors_of("((t)"),
        vec![Spanned::new(
            ParseError::UnmatchedParenthesis,
            Span::new(0, 0, 0)
        )]
    );
}

#[test]
fn lexical_error_in_operand_position() {
    let errors = errors_of("t + @");
    assert_eq!(
        errors,
        vec![Spanned::new(
            ParseError::LexError(LexErrorKind::UnexpectedChar('@')),
            Span::new(0, 4, 4)
        )]
    );

    let mut p = Parser::new("t + @", Vec::new());
    let result = p.parse();
    assert_eq!(result, Err(errors));
    assert_eq!(
        p.arena(),
        &vec![
            ASTNode::Variable,
            ASTNode::Error(Span::new(0, 4, 4)),
            ASTNode::Binary(Operator::Plus, 0, 1),
        ]
    );
}

#[test]
fn lexical_error_in_operator_position() {
    let mut p = Parser::new("t @ 1", Vec::new());
    let result = p.parse();
    assert_eq!(
        result,
        Err(vec![Spanned::new(
            ParseError::LexError(LexErrorKind::UnexpectedChar('@')),
            Span::new(0, 2, 2)
        )])
    );
    // the operand that was built stays
    assert_eq!(p.arena(), &vec![ASTNode::Variable]);

    let mut p = Parser::new("1 + t = 2", Vec::new());
    let result = p.parse();
    assert_eq!(
        result,
        Err(vec![
            Spanned::new(
                ParseError::LexError(LexErrorKind::SolitaryEquals),
                Span::new(0, 6, 6)
            ),
            Spanned::new(
                ParseError::ExpectedOperator(Token::Number(2)),
                Span::new(0, 8, 8)
            ),
        ])
    );
    assert_eq!(p.arena()[..2], [ASTNode::Literal(1), ASTNode::Variable]);
}

#[test]
fn hexadecimal_overflow_saturates() {
    let (nodes, root) = nodes_of("0xFFFFFFFF");
    assert_eq!(nodes, vec![ASTNode::Literal(i32::MAX)]);
    assert_eq!(root, 0);

    let mut p = Parser::new("0xFFFFFFFF", Vec::new());
    assert_eq!(p.parse(), Ok(0));
    assert_eq!(p.saturated(), &vec![Span::new(0, 0, 9)]);
    assert!(p.errors().is_empty());
}

#[test]
fn decimal_overflow_saturates() {
    let nines = "9".repeat(64);
    let (nodes, root) = nodes_of(&nines);
    assert_eq!(nodes, vec![ASTNode::Literal(i32::MAX)]);
    assert_eq!(root, 0);

    let mut p = Parser::new(&nines, Vec::new());
    assert_eq!(p.parse(), Ok(0));
    assert_eq!(p.saturated(), &vec![Span::new(0, 0, 63)]);

    let mut p = Parser::new("t+1", Vec::new());
    assert_eq!(p.parse(), Ok(2));
    assert!(p.saturated().is_empty());
}

#[test]
fn nested_ternary_is_right_associative() {
    let (nodes, root) = nodes_of("t ? t ? 1 : 2 : 0");
    match nodes[root] {
        ASTNode::Ternary(cond, then, other) => {
            assert_eq!(nodes[cond], ASTNode::Variable);
            assert_eq!(nodes[other], ASTNode::Literal(0));
            match nodes[then] {
                ASTNode::Ternary(c, a, b) => {
                    assert_eq!(nodes[c], ASTNode::Variable);
                    assert_eq!(nodes[a], ASTNode::Literal(1));
                    assert_eq!(nodes[b], ASTNode::Literal(2));
                }
                other => panic!("then branch is {:?}", other),
            }
        }
        other => panic!("root is {:?}", other),
    }

    // a ? b : c ? d : e  is  a ? b : (c ? d : e)
    let (nodes, root) = nodes_of("t ? 1 : t ? 2 : 3");
    match nodes[root] {
        ASTNode::Ternary(_, then, other) => {
            assert_eq!(nodes[then], ASTNode::Literal(1));
            assert!(matches!(nodes[other], ASTNode::Ternary(_, _, _)));
        }
        other => panic!("root is {:?}", other),
    }
    assert_eq!(eval_one("t ? 1 : t ? 2 : 3", 0), 3);
    assert_eq!(eval_one("t ? 1 : t ? 2 : 3", 5), 1);
    assert_eq!(eval_one("0 ? 1 : 1 ? 2 : 3", 5), 2);
}

#[test]
fn prefix_operators_are_binary_nodes_with_zero() {
    assert_eq!(
        nodes_of("-t"),
        (
            vec![
                ASTNode::Variable,
                ASTNode::Literal(0),
                ASTNode::Binary(Operator::Minus, 1, 0)
            ],
            2
        )
    );
    assert_eq!(
        nodes_of("!t"),
        (
            vec![
                ASTNode::Variable,
                ASTNode::Literal(0),
                ASTNode::Binary(Operator::LogNot, 1, 0)
            ],
            2
        )
    );
    assert_eq!(
        nodes_of("~t"),
        (
            vec![
                ASTNode::Variable,
                ASTNode::Literal(0),
                ASTNode::Binary(Operator::BitNot, 1, 0)
            ],
            2
        )
    );
    assert_eq!(nodes_of("+t"), (vec![ASTNode::Variable], 0));
    // a prefix operator binds tighter than any infix operator
    assert_eq!(eval_one("-t*2", 3), (-6i32) as u8);
    assert_eq!(eval_one("-2+3", 0), 1);
    assert_eq!(eval_one("!t+1", 0), 2);
    assert_eq!(eval_one("~t&255", 1), 254);
    assert_eq!(eval_one("- - t", 7), 7);
}

#[test]
fn parser_appends_to_the_arena_it_is_given() {
    let mut p = Parser::new("t+1", vec![ASTNode::Literal(9)]);
    assert_eq!(p.parse(), Ok(3));
    assert_eq!(
        p.into_arena(),
        vec![
            ASTNode::Literal(9),
            ASTNode::Variable,
            ASTNode::Literal(1),
            ASTNode::Binary(Operator::Plus, 1, 2),
        ]
    );
}

#[test]
fn children_stand_before_their_parents() {
    for code in [
        "t*(42&t>>10)",
        "(t&1024||t&16384&&t&2048&&!(t&512))?(t&4096&&!(t&2048)?(t*t*t>>~t*t)+127:t*((t>>11&1)+1)*(1+(t>>16&1)*3))*2:0",
        "-(-(-t))",
        "t?t?t?1:2:3:4",
    ] {
        let (nodes, root) = nodes_of(code);
        assert!(root < nodes.len());
        for (i, n) in nodes.iter().enumerate() {
            match *n {
                ASTNode::Binary(_, l, r) => assert!(l < i && r < i),
                ASTNode::Ternary(c, a, b) => assert!(c < i && a < i && b < i),
                ASTNode::Error(_) => panic!("error node in a beat"),
                _ => {}
            }
        }
    }
}

#[test]
fn precedence_follows_c() {
    let cases: [(&str, i32); 22] = [
        ("1+2*3", 7),
        ("(1+2)*3", 9),
        ("10-4-3", 3),
        ("100/10/5", 2),
        ("7%4*2", 6),
        ("1<<2+1", 8),
        ("1+2<<1", 6),
        ("1<2==1", 1),
        ("3&1==1", 1),
        ("6&3^1", 3),
        ("1|2^3", 1),
        ("1^2&3", 3),
        ("0&&1||1", 1),
        ("1||0&&0", 1),
        ("1|0&&0", 0),
        ("2>1>0", 1),
        ("1?2:3+4", 2),
        ("0?2:3+4", 7),
        ("1||0?5:6", 5),
        ("8>>1<4", 0),
        ("5>=5", 1),
        ("4<=3", 0),
    ];
    for (code, expected) in cases {
        assert_eq!(eval_one(code, 0), expected as u8, "{}", code);
    }
    assert_eq!(eval_one("3!=3", 0), 0);
    assert_eq!(eval_one("3!=4", 0), 1);
}

#[test]
fn binding_powers() {
    let table: [(&[Operator], u8); 10] = [
        (&[Operator::LogOr], 20),
        (&[Operator::LogAnd], 25),
        (&[Operator::Or], 30),
        (&[Operator::BitXor], 35),
        (&[Operator::And], 40),
        (&[Operator::Eq, Operator::Ne], 45),
        (
            &[Operator::Lt, Operator::Gt, Operator::Le, Operator::Ge],
            50,
        ),
        (&[Operator::Lsh, Operator::Rsh], 60),
        (&[Operator::Plus, Operator::Minus], 70),
        (&[Operator::Mul, Operator::Div, Operator::Mod], 80),
    ];
    for (ops, level) in table {
        for op in ops {
            assert_eq!(binding_power(*op), Some((level, level + 1)));
        }
    }
    for op in [
        Operator::Lparen,
        Operator::Rparen,
        Operator::BitNot,
        Operator::LogNot,
        Operator::Question,
        Operator::Colon,
    ] {
        assert_eq!(binding_power(op), None);
    }
    assert_eq!(infix_binding_power(Operator::Question), (10, 9));
    assert_eq!(infix_binding_power(Operator::Plus), (0, 0));
}

#[test]
fn arithmetic_wraps() {
    assert_eq!(eval_one("2147483647+t", 1), 0); // i32::MIN's low byte
    assert_eq!(eval_one("(2147483647+1)<0", 0), 1);
    assert_eq!(eval_one("(0-2147483647-2)>0", 0), 1);
    assert_eq!(eval_one("65536*65536", 0), 0);
    assert_eq!(eval_one("(65536*32768)<0", 0), 1);
    // the smallest value divided by -1 wraps to itself, its remainder is zero
    assert_eq!(eval_one("((0-2147483647-1)/(0-1))<0", 0), 1);
    assert_eq!(eval_one("(0-2147483647-1)%(0-1)", 0), 0);
    // division rounds toward zero, the remainder has the dividend's sign
    assert_eq!(eval_one("(0-7)/2+10", 0), 7);
    assert_eq!(eval_one("(0-7)%2+10", 0), 9);
    assert_eq!(eval_one("7/(0-2)+10", 0), 7);
    assert_eq!(eval_one("7%(0-2)", 0), 1);
}

#[test]
fn shifts_wrap_their_amount() {
    assert_eq!(eval_one("1<<32", 0), 1);
    assert_eq!(eval_one("1<<33", 0), 2);
    assert_eq!(eval_one("256>>40", 0), 1);
    assert_eq!(eval_one("1<<(0-31)", 0), 2);
    // right shift keeps the sign
    assert_eq!(eval_one("(0-256)>>4", 0), (-16i32) as u8);
    assert_eq!(eval_one("((0-1)>>31)==(0-1)", 0), 1);
}

#[test]
fn eval_returns_the_low_byte() {
    assert_eq!(eval_one("t", 256), 0);
    assert_eq!(eval_one("t", 257), 1);
    assert_eq!(eval_one("t", -1), 255);
    assert_eq!(eval_one("t", i32::MIN), 0);
    assert_eq!(eval_one("t", i32::MAX), 255);
    assert_eq!(eval_one("0x1234", 0), 0x34);
}

#[test]
fn ternary_evaluates_only_the_chosen_branch() {
    assert_eq!(eval_one("t?7:9", 1), 7);
    assert_eq!(eval_one("t?7:9", 0), 9);
    assert_eq!(eval_one("t?7:9", -5), 7);
}

#[test]
fn each_parse_error() {
    assert_eq!(
        errors_of("t+"),
        vec![Spanned::new(ParseError::UnexpectedEof, Span::new(0, 2, 2))]
    );
    assert_eq!(
        errors_of("t 1"),
        vec![Spanned::new(
            ParseError::ExpectedOperator(Token::Number(1)),
            Span::new(0, 2, 2)
        )]
    );
    assert_eq!(
        errors_of("1 t"),
        vec![Spanned::new(
            ParseError::ExpectedOperator(Token::Variable),
            Span::new(0, 2, 2)
        )]
    );
    assert_eq!(
        errors_of("(t"),
        vec![Spanned::new(
            ParseError::UnmatchedParenthesis,
            Span::new(0, 0, 0)
        )]
    );
    assert_eq!(
        errors_of("*t"),
        vec![Spanned::new(
            ParseError::UnexpectedPrefix(Operator::Mul),
            Span::new(0, 0, 0)
        )]
    );
    assert_eq!(
        errors_of(")"),
        vec![Spanned::new(
            ParseError::UnexpectedPrefix(Operator::Rparen),
            Span::new(0, 0, 0)
        )]
    );
    assert_eq!(
        errors_of("t?1"),
        vec![Spanned::new(
            ParseError::ExpectedTernaryColon,
            Span::new(0, 3, 3)
        )]
    );
    assert_eq!(
        errors_of("t?1)2"),
        vec![Spanned::new(
            ParseError::ExpectedTernaryColon,
            Span::new(0, 3, 3)
        )]
    );
    assert_eq!(
        errors_of("0x + 1"),
        vec![Spanned::new(
            ParseError::LexError(LexErrorKind::ImproperNumber(16, NumberErrorKind::Empty)),
            Span::new(0, 0, 1)
        )]
    );
    assert_eq!(
        errors_of("t = 1"),
        vec![
            Spanned::new(
                ParseError::LexError(LexErrorKind::SolitaryEquals),
                Span::new(0, 2, 2)
            ),
        ]
    );
}

#[test]
fn errors_carry_their_line() {
    assert_eq!(
        errors_of("t +\n  @"),
        vec![Spanned::new(
            ParseError::LexError(LexErrorKind::UnexpectedChar('@')),
            Span::new(1, 2, 2)
        )]
    );
}

#[test]
fn several_errors_are_all_returned() {
    assert_eq!(
        errors_of("@ + # * $"),
        vec![
            Spanned::new(
                ParseError::LexError(LexErrorKind::UnexpectedChar('@')),
                Span::new(0, 0, 0)
            ),
            Spanned::new(
                ParseError::LexError(LexErrorKind::UnexpectedChar('#')),
                Span::new(0, 4, 4)
            ),
            Spanned::new(
                ParseError::LexError(LexErrorKind::UnexpectedChar('$')),
                Span::new(0, 8, 8)
            ),
        ]
    );
}

#[test]
fn what_follows_a_finished_expression_is_left_alone() {
    // a closing parenthesis or a colon that nothing opened ends the expression
    assert_eq!(nodes_of("t) + 1"), (vec![ASTNode::Variable], 0));
    assert_eq!(nodes_of("t : 1"), (vec![ASTNode::Variable], 0));
}

#[test]
fn a_cloned_beat_sounds_the_same() {
    let beat = Beat::compile("t*(42&t>>10)").unwrap();
    let copy = beat.clone();
    assert_eq!(beat.nodes(), copy.nodes());
    assert_eq!(beat.root(), copy.root());
    for t in 0..4096 {
        assert_eq!(beat.eval(t), copy.eval(t));
    }
}

fn tree_of(nodes: &[ASTNode], id: usize) -> String {
    match nodes[id] {
        ASTNode::Literal(n) => format!("{}", n),
        ASTNode::Variable => "t".to_string(),
        ASTNode::Binary(op, l, r) => format!(
            "({:?} {} {})",
            op,
            tree_of(nodes, l),
            tree_of(nodes, r)
        ),
        ASTNode::Ternary(c, a, b) => format!(
            "(? {} {} {})",
            tree_of(nodes, c),
            tree_of(nodes, a),
            tree_of(nodes, b)
        ),
        ASTNode::Error(_) => "error".to_string(),
    }
}

#[test]
fn printing_puts_every_operation_in_parentheses() {
    let print = |code: &str| Beat::compile(code).unwrap().to_source();
    assert_eq!(print(""), "");
    assert_eq!(print("t"), "t ");
    assert_eq!(print("0x10"), "16 ");
    assert_eq!(print("2147483647"), "2147483647 ");
    assert_eq!(print("1+2*3"), "( 1 + ( 2 * 3 ) ) ");
    assert_eq!(print("t*(42&t>>10)"), "( t * ( 42 & ( t >> 10 ) ) ) ");
    assert_eq!(print("-t"), "( 0 - t ) ");
    assert_eq!(print("!t"), "( ! t ) ");
    assert_eq!(print("~t"), "( ~ t ) ");
    assert_eq!(print("+t"), "t ");
    assert_eq!(print("t?1:2"), "( t ? 1 : 2 ) ");
    assert_eq!(
        print("t<=1&&t>=0||t!=3"),
        "( ( ( t <= 1 ) && ( t >= 0 ) ) || ( t != 3 ) ) "
    );
    assert_eq!(print("t==1|t<<2^t%5/3"), "( ( t == 1 ) | ( ( t << 2 ) ^ ( ( t % 5 ) / 3 ) ) ) ");
}

#[test]
fn compiling_what_was_printed_gives_the_same_tree() {
    for code in [
        "",
        "t",
        "0",
        "t*(42&t>>10)",
        "-t + !t - ~t + +t",
        "t ? t ? 1 : 2 : 0",
        "0xFFFFFFFF",
        "t*((t&4096?t%65536<59392?7:t&7:16)+(1&t>>14))>>(3&-t>>(t&2048?2:10))|t>>(t&16384?t&4096?10:3:2)",
        "(t&1024||t&16384&&t&2048&&!(t&512))?(t&4096&&!(t&2048)?(t*t*t>>~t*t)+127:t*((t>>11&1)+1)*(1+(t>>16&1)*3))*2:0",
        "((t&32767)>>13==2|(t&65535)>>12==9?(t^-(t/8&t>>5)*(t/8&127))&(-(t>>5)&255)*((t&65535)>>12==9?2:1):(t&8191)%((t>>5&255^240)==0?1:t>>5&255^240))/4*3+(t*4/(4+(t>>15&3))&128)*(-t>>11&2)*((t&32767)>>13!=2)/3",
    ] {
        let first = Beat::compile(code).unwrap();
        let text = first.to_source();
        let second = Beat::compile(&text).unwrap();
        if first.nodes().is_empty() {
            assert!(second.nodes().is_empty());
        } else {
            assert_eq!(
                tree_of(first.nodes(), first.root()),
                tree_of(second.nodes(), second.root()),
                "{}",
                code
            );
        }
        // printing again changes nothing
        assert_eq!(second.to_source(), text);
        for t in (0..2048).chain([-1, i32::MAX, i32::MIN, 65535]) {
            assert_eq!(first.eval(t), second.eval(t));
        }
    }
}

#[test]
fn diagnostics_name_the_saturated_literals() {
    let (result, noted) = Beat::compile_with_diagnostics("1 + 99999999999 * 0xFFFFFFFF");
    assert_eq!(noted, vec![Span::new(0, 4, 14), Span::new(0, 18, 27)]);
    let beat = result.unwrap();
    assert_eq!(
        beat.nodes(),
        &vec![
            ASTNode::Literal(1),
            ASTNode::Literal(i32::MAX),
            ASTNode::Literal(i32::MAX),
            ASTNode::Binary(Operator::Mul, 1, 2),
            ASTNode::Binary(Operator::Plus, 0, 3),
        ]
    );

    let (result, noted) = Beat::compile_with_diagnostics("t*(42&t>>10)");
    assert!(result.is_ok());
    assert!(noted.is_empty());

    let (result, noted) = Beat::compile_with_diagnostics("");
    assert!(result.unwrap().nodes().is_empty());
    assert!(noted.is_empty());

    // a diagnostic comes with errors too, for what the parser came to see
    let (result, noted) = Beat::compile_with_diagnostics("4294967296 +");
    assert_eq!(
        result.unwrap_err(),
        vec![Spanned::new(ParseError::UnexpectedEof, Span::new(0, 12, 12))]
    );
    assert_eq!(noted, vec![Span::new(0, 0, 9)]);
    let (result, noted) = Beat::compile_with_diagnostics("t 1 4294967296");
    assert!(result.is_err());
    assert!(noted.is_empty());
}
