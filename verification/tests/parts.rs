use bessy::chunk::{Chunk, OpCode};
use bessy::compiler::Compiler;
use bessy::error::BessyError;
use bessy::lexer::Lexer;
use bessy::precedence::{get_rule, Infix, Precedence, Prefix};
use bessy::scanner::{ByteClass, Scanner};
use bessy::strings::{same_bytes, IStrings};
use bessy::token::{Token, TokenType};
use bessy::value::{negate, nan, number_less, numbers_equal, Value};
use bessy::vm::{Reply, Request, VM};

fn kinds(input: &str) -> Vec<TokenType> {
    let mut lexer = Lexer::new(input.as_bytes());
    let mut kinds = Vec::new();
    loop {
        let token = lexer.next_token().unwrap();
        kinds.push(token.kind);
        if token.kind == TokenType::Eof {
            return kinds;
        }
    }
}

fn compile(input: &str) -> Result<Chunk, BessyError> {
    let mut lexer = Lexer::new(input.as_bytes());
    let mut tokens: Vec<Token<'_>> = Vec::new();
    loop {
        match lexer.next_token() {
            Ok(token) => {
                let token = match token.kind {
                    TokenType::Number(_) => {
                        let text = std::str::from_utf8(token.lexeme).unwrap();
                        token.with_number(text.parse::<f64>().unwrap().to_bits())
                    }
                    _ => token,
                };
                tokens.push(token);
                if token.kind == TokenType::Eof {
                    return Compiler::new(tokens, None).compile();
                }
            }
            Err(e) => return Compiler::new(tokens, Some(e)).compile(),
        }
    }
}

#[test]
fn interning_is_canonical() {
    let mut strings = IStrings::new();
    let a = strings.intern(b"alpha");
    let b = strings.intern(b"beta");
    let a2 = strings.intern(b"alpha");
    let empty = strings.intern(b"");
    assert_eq!(a, 0);
    assert_eq!(b, 1);
    assert_eq!(a2, a);
    assert_eq!(empty, 2);
    assert_eq!(strings.intern(b""), 2);
    assert_eq!(strings.len(), 3);
    assert_eq!(strings.lookup(a), b"alpha");
    assert_eq!(strings.lookup(b), b"beta");
    assert_eq!(strings.lookup(empty), b"");
    assert_ne!(strings.intern(b"alph"), a);
    assert_ne!(strings.intern(b"Alpha"), a);
}

#[test]
fn same_bytes_compares_contents() {
    assert!(same_bytes(b"abc", b"abc"));
    assert!(same_bytes(b"", b""));
    assert!(!same_bytes(b"abc", b"abd"));
    assert!(!same_bytes(b"abc", b"ab"));
}

#[test]
fn diagnostics_render_on_one_line() {
    let e = BessyError::Parser(b"Expect expression".to_vec(), 7);
    assert_eq!(e.render(), b"[line 7] Parse error: Expect expression".to_vec());
    let e = BessyError::Lexer(b"Unknown character.".to_vec(), 65535);
    assert_eq!(e.render(), b"[line 65535] Lex error: Unknown character.".to_vec());
    let e = BessyError::Runtime(b"Undefined variable 'x'.".to_vec(), 10);
    assert_eq!(e.render(), b"[line 10] Runtime error: Undefined variable 'x'.".to_vec());
    assert_eq!(e.line(), 10);
    assert_eq!(e.message(), &b"Undefined variable 'x'.".to_vec());
    let copy = e.duplicate();
    assert_eq!(copy.render(), e.render());
    let e = BessyError::Runtime(Vec::new(), 0);
    assert_eq!(e.render(), b"[line 0] Runtime error: ".to_vec());
}

#[test]
fn falseness_is_nil_and_false() {
    assert!(Value::Nil.is_falsey());
    assert!(Value::Bool(false).is_falsey());
    assert!(!Value::Bool(true).is_falsey());
    assert!(!Value::Number(0).is_falsey());
    assert!(!Value::String(0).is_falsey());
}

#[test]
fn values_equal_by_arm_and_payload() {
    let one = 1.0f64.to_bits();
    let nan_bits = f64::NAN.to_bits();
    assert!(Value::Number(one).equal(Value::Number(one)));
    assert!(!Value::Number(one).equal(Value::Number(2.0f64.to_bits())));
    assert!(!Value::Number(nan_bits).equal(Value::Number(nan_bits)));
    assert!(Value::Number(0.0f64.to_bits()).equal(Value::Number((-0.0f64).to_bits())));
    assert!(Value::Bool(true).equal(Value::Bool(true)));
    assert!(!Value::Bool(true).equal(Value::Bool(false)));
    assert!(Value::Nil.equal(Value::Nil));
    assert!(Value::String(3).equal(Value::String(3)));
    assert!(!Value::String(3).equal(Value::String(4)));
    assert!(!Value::String(1).equal(Value::Number(1)));
    assert!(!Value::Nil.equal(Value::Bool(false)));
    assert!(!Value::Number(0).equal(Value::Nil));
}

#[test]
fn bit_patterns_order_as_doubles() {
    let samples: Vec<f64> = vec![
        0.0,
        -0.0,
        1.0,
        -1.0,
        0.5,
        -0.5,
        1e300,
        -1e300,
        5e-324,
        -5e-324,
        f64::INFINITY,
        f64::NEG_INFINITY,
        f64::NAN,
        -f64::NAN,
        f64::MAX,
        f64::MIN,
        f64::MIN_POSITIVE,
        3.25,
        -3.25,
    ];
    for a in &samples {
        assert_eq!(nan(a.to_bits()), a.is_nan());
        assert_eq!(negate(a.to_bits()), (-*a).to_bits());
        for b in &samples {
            assert_eq!(numbers_equal(a.to_bits(), b.to_bits()), a == b);
            assert_eq!(number_less(a.to_bits(), b.to_bits()), a < b);
        }
    }
}

#[test]
fn the_scanner_walks_bytes_and_lines() {
    let mut scanner = Scanner::new(b"ab \n// c\n\td");
    assert!(!scanner.is_at_end());
    assert_eq!(scanner.peek(), Some(b'a'));
    assert_eq!(scanner.double_peek(), Some(b'b'));
    assert_eq!(scanner.advance(), Some(b'a'));
    assert!(!scanner.next_eq(b'x'));
    assert!(scanner.next_eq(b'b'));
    assert_eq!(scanner.slice(0, 0), b"ab");
    assert_eq!(scanner.slice(1, 0), b"b");
    assert_eq!(scanner.slice(0, 1), b"a");
    assert_eq!(scanner.line(), 1);
    scanner.skip_needless();
    assert_eq!(scanner.line(), 3);
    assert_eq!(scanner.peek(), Some(b'd'));
    assert_eq!(scanner.double_peek(), None);
    scanner.mark();
    scanner.eat_while(ByteClass::Word);
    assert_eq!(scanner.slice(0, 0), b"d");
    assert!(scanner.is_at_end());
    assert_eq!(scanner.peek(), None);
    assert_eq!(scanner.advance(), None);
    assert!(scanner.is_at_end());
    assert!(!scanner.next_eq(b'd'));
}

#[test]
fn a_comment_at_the_end_needs_no_line_feed() {
    let mut scanner = Scanner::new(b"  // to the end");
    scanner.skip_needless();
    assert!(scanner.is_at_end());
    assert_eq!(scanner.line(), 1);
    let mut scanner = Scanner::new(b"/ /");
    scanner.skip_needless();
    assert_eq!(scanner.peek(), Some(b'/'));
}

#[test]
fn byte_classes() {
    assert!(ByteClass::Digit.contains(b'0'));
    assert!(ByteClass::Digit.contains(b'9'));
    assert!(!ByteClass::Digit.contains(b'a'));
    assert!(ByteClass::Word.contains(b'_'));
    assert!(ByteClass::Word.contains(b'z'));
    assert!(ByteClass::Word.contains(b'A'));
    assert!(ByteClass::Word.contains(b'5'));
    assert!(!ByteClass::Word.contains(b'-'));
    assert!(ByteClass::Quoted.contains(b'\n'));
    assert!(!ByteClass::Quoted.contains(b'"'));
}

#[test]
fn single_and_double_character_tokens() {
    assert_eq!(
        kinds("(){};,.-+/*"),
        vec![
            TokenType::LeftParen,
            TokenType::RightParen,
            TokenType::LeftBrace,
            TokenType::RightBrace,
            TokenType::Semicolon,
            TokenType::Comma,
            TokenType::Dot,
            TokenType::Minus,
            TokenType::Plus,
            TokenType::Slash,
            TokenType::Star,
            TokenType::Eof,
        ]
    );
    assert_eq!(
        kinds("! != = == < <= > >="),
        vec![
            TokenType::Bang,
            TokenType::BangEqual,
            TokenType::Equal,
            TokenType::EqualEqual,
            TokenType::Less,
            TokenType::LessEqual,
            TokenType::Greater,
            TokenType::GreaterEqual,
            TokenType::Eof,
        ]
    );
    assert_eq!(kinds("!true"), vec![TokenType::Bang, TokenType::True, TokenType::Eof]);
    assert_eq!(
        kinds("a=b"),
        vec![TokenType::Identifier, TokenType::Equal, TokenType::Identifier, TokenType::Eof]
    );
    assert_eq!(kinds("==="), vec![TokenType::EqualEqual, TokenType::Equal, TokenType::Eof]);
}

#[test]
fn keywords_and_identifiers() {
    assert_eq!(
        kinds("and class else false for fun if nil or print return super this true var while"),
        vec![
            TokenType::And,
            TokenType::Class,
            TokenType::Else,
            TokenType::False,
            TokenType::For,
            TokenType::Fun,
            TokenType::If,
            TokenType::Nil,
            TokenType::Or,
            TokenType::Print,
            TokenType::Return,
            TokenType::Super,
            TokenType::This,
            TokenType::True,
            TokenType::Var,
            TokenType::While,
            TokenType::Eof,
        ]
    );
    assert_eq!(kinds("human andy _x x_1 While"), vec![
        TokenType::Identifier,
        TokenType::Identifier,
        TokenType::Identifier,
        TokenType::Identifier,
        TokenType::Identifier,
        TokenType::Eof,
    ]);
    let mut lexer = Lexer::new(b"  human2 ");
    let token = lexer.next_token().unwrap();
    assert_eq!(token.lexeme, b"human2");
    assert_eq!(token.line, 1);
    assert!(!lexer.is_at_end());
    assert_eq!(lexer.next_token().unwrap().kind, TokenType::Eof);
    assert!(lexer.is_at_end());
    assert_eq!(lexer.next_token().unwrap().kind, TokenType::Eof);
}

#[test]
fn number_and_string_lexemes() {
    let mut lexer = Lexer::new(b"123 1.00 7. .5 \"hello\" \"\" \"two\nlines\" 9");
    let token = lexer.next_token().unwrap();
    assert_eq!((token.kind, token.lexeme), (TokenType::Number(0), &b"123"[..]));
    let token = lexer.next_token().unwrap();
    assert_eq!((token.kind, token.lexeme), (TokenType::Number(0), &b"1.00"[..]));
    let token = lexer.next_token().unwrap();
    assert_eq!((token.kind, token.lexeme), (TokenType::Number(0), &b"7"[..]));
    assert_eq!(lexer.next_token().unwrap().kind, TokenType::Dot);
    assert_eq!(lexer.next_token().unwrap().kind, TokenType::Dot);
    let token = lexer.next_token().unwrap();
    assert_eq!((token.kind, token.lexeme), (TokenType::Number(0), &b"5"[..]));
    let token = lexer.next_token().unwrap();
    assert_eq!((token.kind, token.lexeme), (TokenType::StrLit, &b"hello"[..]));
    let token = lexer.next_token().unwrap();
    assert_eq!((token.kind, token.lexeme), (TokenType::StrLit, &b""[..]));
    let token = lexer.next_token().unwrap();
    assert_eq!((token.kind, token.lexeme, token.line), (TokenType::StrLit, &b"two\nlines"[..], 1));
    let token = lexer.next_token().unwrap();
    assert_eq!(token.with_number(42).kind, TokenType::Number(42));
    assert_eq!(lexer.next_token().unwrap().with_number(42).kind, TokenType::Eof);
}

#[test]
fn lex_errors() {
    let mut lexer = Lexer::new(b"\n\"open");
    match lexer.next_token() {
        Err(BessyError::Lexer(message, 2)) => assert_eq!(message, b"Unterminated string.".to_vec()),
        _ => panic!("a lex error was due"),
    }
    let mut lexer = Lexer::new(b"a $ b");
    assert_eq!(lexer.next_token().unwrap().kind, TokenType::Identifier);
    match lexer.next_token() {
        Err(BessyError::Lexer(message, 1)) => assert_eq!(message, b"Unknown character.".to_vec()),
        _ => panic!("a lex error was due"),
    }
    assert_eq!(lexer.next_token().unwrap().lexeme, b"b");
}

#[test]
fn precedence_climbs_by_one() {
    let order = vec![
        Precedence::Lowest,
        Precedence::Assignment,
        Precedence::Or,
        Precedence::And,
        Precedence::Equality,
        Precedence::Comparison,
        Precedence::Term,
        Precedence::Factor,
        Precedence::Unary,
        Precedence::Call,
        Precedence::Primary,
    ];
    for (i, p) in order.iter().enumerate() {
        assert_eq!(p.level() as usize, i);
        assert_eq!(p.next(), order[(i + 1) % order.len()]);
    }
}

#[test]
fn the_parse_table() {
    let rule = get_rule(TokenType::Minus);
    assert_eq!((rule.prefix, rule.infix, rule.precedence), (Some(Prefix::Unary), Some(Infix::Binary), Precedence::Term));
    let rule = get_rule(TokenType::LeftParen);
    assert_eq!((rule.prefix, rule.infix, rule.precedence), (Some(Prefix::Grouping), None, Precedence::Lowest));
    let rule = get_rule(TokenType::Star);
    assert_eq!((rule.prefix, rule.infix, rule.precedence), (None, Some(Infix::Binary), Precedence::Factor));
    let rule = get_rule(TokenType::EqualEqual);
    assert_eq!(rule.precedence, Precedence::Equality);
    let rule = get_rule(TokenType::LessEqual);
    assert_eq!(rule.precedence, Precedence::Comparison);
    let rule = get_rule(TokenType::And);
    assert_eq!((rule.infix, rule.precedence), (Some(Infix::And), Precedence::And));
    let rule = get_rule(TokenType::Or);
    assert_eq!((rule.infix, rule.precedence), (Some(Infix::Or), Precedence::Or));
    let rule = get_rule(TokenType::Number(5));
    assert_eq!(rule.prefix, Some(Prefix::Number));
    let rule = get_rule(TokenType::Identifier);
    assert_eq!(rule.prefix, Some(Prefix::Variable));
    let rule = get_rule(TokenType::StrLit);
    assert_eq!(rule.prefix, Some(Prefix::String));
    let rule = get_rule(TokenType::Nil);
    assert_eq!(rule.prefix, Some(Prefix::Literal));
    let rule = get_rule(TokenType::Semicolon);
    assert_eq!((rule.prefix, rule.infix, rule.precedence), (None, None, Precedence::Lowest));
}

#[test]
fn a_chunk_grows_by_appending() {
    let mut chunk = Chunk::new();
    assert_eq!(chunk.add_constant(Value::Nil), 0);
    assert_eq!(chunk.add_constant(Value::Nil), 1);
    assert_eq!(chunk.emit_byte(OpCode::Nil, 4), 0);
    assert_eq!(chunk.emit_byte(OpCode::Return, 5), 1);
    assert_eq!(chunk.code, vec![OpCode::Nil, OpCode::Return]);
    assert_eq!(chunk.lines, vec![4, 5]);
    assert_eq!(chunk.constants, vec![Value::Nil, Value::Nil]);
}

#[test]
fn emitted_code_of_an_expression() {
    let chunk = compile("print 1 + 2 * 3;").unwrap();
    assert_eq!(
        chunk.code,
        vec![
            OpCode::Constant(0),
            OpCode::Constant(1),
            OpCode::Constant(2),
            OpCode::Multiply,
            OpCode::Add,
            OpCode::Print,
            OpCode::Return
        ]
    );
    assert_eq!(
        chunk.constants,
        vec![
            Value::Number(1.0f64.to_bits()),
            Value::Number(2.0f64.to_bits()),
            Value::Number(3.0f64.to_bits()),
        ]
    );
    assert_eq!(chunk.lines, vec![1; 7]);
}

#[test]
fn emitted_code_of_comparisons() {
    let chunk = compile("1 <= 2; 1 >= 2; 1 != 2; !-1;").unwrap();
    assert_eq!(
        chunk.code,
        vec![
            OpCode::Constant(0),
            OpCode::Constant(1),
            OpCode::Greater,
            OpCode::Not,
            OpCode::Pop,
            OpCode::Constant(2),
            OpCode::Constant(3),
            OpCode::Less,
            OpCode::Not,
            OpCode::Pop,
            OpCode::Constant(4),
            OpCode::Constant(5),
            OpCode::Equal,
            OpCode::Not,
            OpCode::Pop,
            OpCode::Constant(6),
            OpCode::Negate,
            OpCode::Not,
            OpCode::Pop,
            OpCode::Return
        ]
    );
}

#[test]
fn emitted_code_of_globals_and_locals() {
    let chunk = compile("var a = \"x\";\na = a;\n{ var b; b = a; }").unwrap();
    assert_eq!(
        chunk.code,
        vec![
            OpCode::Constant(1),
            OpCode::DefineGlobal(0),
            OpCode::GetGlobal(3),
            OpCode::SetGlobal(2),
            OpCode::Pop,
            OpCode::Nil,
            OpCode::GetGlobal(4),
            OpCode::SetLocal(0),
            OpCode::Pop,
            OpCode::Pop,
            OpCode::Return
        ]
    );
    assert_eq!(
        chunk.constants,
        vec![
            Value::String(0),
            Value::String(1),
            Value::String(0),
            Value::String(0),
            Value::String(0),
        ]
    );
    assert_eq!(chunk.strings.len(), 2);
    assert_eq!(chunk.strings.lookup(0), b"a");
    assert_eq!(chunk.strings.lookup(1), b"x");
    assert_eq!(chunk.lines, vec![1, 1, 2, 2, 2, 3, 3, 3, 3, 3, 3]);
}

#[test]
fn emitted_code_of_control_flow() {
    let chunk = compile("if (true) 1; else 2;").unwrap();
    assert_eq!(
        chunk.code,
        vec![
            OpCode::True,
            OpCode::JumpIfFalse(4),
            OpCode::Pop,
            OpCode::Constant(0),
            OpCode::Pop,
            OpCode::Jump(3),
            OpCode::Pop,
            OpCode::Constant(1),
            OpCode::Pop,
            OpCode::Return
        ]
    );
    let chunk = compile("while (true) 1;").unwrap();
    assert_eq!(
        chunk.code,
        vec![
            OpCode::True,
            OpCode::JumpIfFalse(4),
            OpCode::Pop,
            OpCode::Constant(0),
            OpCode::Pop,
            OpCode::Loop(6),
            OpCode::Pop,
            OpCode::Return
        ]
    );
    let chunk = compile("true and false; nil or 1;").unwrap();
    assert_eq!(
        chunk.code,
        vec![
            OpCode::True,
            OpCode::JumpIfFalse(2),
            OpCode::Pop,
            OpCode::False,
            OpCode::Pop,
            OpCode::Nil,
            OpCode::JumpIfFalse(1),
            OpCode::Jump(2),
            OpCode::Pop,
            OpCode::Constant(0),
            OpCode::Pop,
            OpCode::Return
        ]
    );
}

#[test]
fn emitted_code_of_for() {
    let chunk = compile("for (var i = 0; i < 1; i = 2) print i;").unwrap();
    assert_eq!(
        chunk.code,
        vec![
            OpCode::Constant(0),
            OpCode::GetLocal(0),
            OpCode::Constant(1),
            OpCode::Less,
            OpCode::JumpIfFalse(9),
            OpCode::Pop,
            OpCode::Jump(4),
            OpCode::Constant(2),
            OpCode::SetLocal(0),
            OpCode::Pop,
            OpCode::Loop(10),
            OpCode::GetLocal(0),
            OpCode::Print,
            OpCode::Loop(7),
            OpCode::Pop,
            OpCode::Pop,
            OpCode::Return
        ]
    );
    let chunk = compile("for (;;) {}").unwrap();
    assert_eq!(chunk.code, vec![OpCode::Loop(1), OpCode::Return]);
    let chunk = compile("for (;;) { { } { { } } }").unwrap();
    assert_eq!(chunk.code, vec![OpCode::Loop(1), OpCode::Return]);
    let chunk = compile("for (;;) { 1; }").unwrap();
    assert_eq!(chunk.code, vec![OpCode::Constant(0), OpCode::Pop, OpCode::Loop(3), OpCode::Return]);
    let chunk = compile("for (;true;) {}").unwrap();
    assert_eq!(
        chunk.code,
        vec![
            OpCode::True,
            OpCode::JumpIfFalse(2),
            OpCode::Pop,
            OpCode::Loop(4),
            OpCode::Pop,
            OpCode::Return,
        ]
    );
    let chunk = compile("for (;;1) {}").unwrap();
    assert_eq!(
        chunk.code,
        vec![
            OpCode::Jump(3),
            OpCode::Constant(0),
            OpCode::Pop,
            OpCode::Loop(4),
            OpCode::Loop(4),
            OpCode::Return
        ]
    );
}

#[test]
fn compiled_chunks_are_well_formed() {
    let sources = vec![
        "",
        "print 1 + 2;",
        "var a = \"s\"; { var b = a; if (b) { print b; } else { print a; } }",
        "for (var i = 0; i < 3; i = i + 1) { var j = i; while (j < 3) { j = j + 1; } }",
        "var x; x = 1 and 2 or 3; print x;",
    ];
    for source in sources {
        let chunk = compile(source).unwrap();
        assert_eq!(chunk.code.len(), chunk.lines.len());
        assert_eq!(chunk.code.last(), Some(&OpCode::Return));
        for value in &chunk.constants {
            if let Value::String(id) = value {
                assert!(*id < chunk.strings.len());
            }
        }
        let mut depth: i64 = 0;
        let mut straight = true;
        for (at, op) in chunk.code.iter().enumerate() {
            match op {
                OpCode::Constant(ix) => assert!(*ix < chunk.constants.len()),
                OpCode::DefineGlobal(ix) | OpCode::GetGlobal(ix) | OpCode::SetGlobal(ix) => {
                    assert!(matches!(chunk.constants[*ix], Value::String(_)))
                }
                OpCode::Jump(o) | OpCode::JumpIfFalse(o) => {
                    straight = false;
                    assert!(at + 1 + (*o as usize) < chunk.code.len())
                }
                OpCode::Loop(o) => {
                    straight = false;
                    assert!(2 <= *o && (*o as usize) <= at + 1)
                }
                _ => {}
            }
            depth += match op {
                OpCode::Nil | OpCode::True | OpCode::False | OpCode::Constant(_) => 1,
                OpCode::GetGlobal(_) | OpCode::GetLocal(_) => 1,
                OpCode::Pop | OpCode::Print | OpCode::DefineGlobal(_) => -1,
                OpCode::Add | OpCode::Subtract | OpCode::Multiply | OpCode::Divide => -1,
                OpCode::Equal | OpCode::Greater | OpCode::Less => -1,
                _ => 0,
            };
        }
        if straight {
            assert_eq!(depth, 0);
        }
    }
}

#[test]
fn the_machine_steps_one_instruction() {
    let chunk = compile("print nil;").unwrap();
    let mut vm = VM::new(chunk);
    assert_eq!(vm.chunk().code.len(), 3);
    assert!(vm.step(Reply::Nothing).is_none());
    assert_eq!(vm.depth(), 1);
    match vm.step(Reply::Nothing) {
        Some(Request::Output(bytes)) => assert_eq!(bytes, b"Nil\n".to_vec()),
        _ => panic!("the line was due"),
    }
    assert_eq!(vm.depth(), 0);
    assert!(matches!(vm.step(Reply::Nothing), Some(Request::Finished)));
    assert!(matches!(vm.step(Reply::Nothing), Some(Request::Finished)));
}

#[test]
fn a_failure_leaves_the_machine_where_it_is() {
    let chunk = compile("print 1;\nprint -nil;").unwrap();
    let mut vm = VM::new(chunk);
    let mut failures = 0;
    let mut reply = Reply::Nothing;
    for _ in 0..10 {
        let request = vm.run(reply, 100);
        reply = Reply::Nothing;
        match request {
            Request::Format(_) => reply = Reply::Text(b"1".to_vec()),
            Request::Failed(BessyError::Runtime(message, line)) => {
                assert_eq!(message, b"Operand to '-' should be of type number.".to_vec());
                assert_eq!(line, 2);
                failures += 1;
            }
            _ => {}
        }
    }
    assert!(failures >= 8);
}

#[test]
fn instructions_have_names() {
    assert_eq!(OpCode::Add.name(), b"ADD".to_vec());
    assert_eq!(OpCode::Constant(3).name(), b"CONSTANT(3)".to_vec());
    assert_eq!(OpCode::DefineGlobal(10).name(), b"DEFINE_GLOBAL(10)".to_vec());
    assert_eq!(OpCode::GetGlobal(0).name(), b"GET_GLOBAL(0)".to_vec());
    assert_eq!(OpCode::JumpIfFalse(65535).name(), b"JUMP_IF_FALSE(65535)".to_vec());
    assert_eq!(OpCode::Loop(7).name(), b"LOOP(7)".to_vec());
    assert_eq!(OpCode::Return.name(), b"RETURN".to_vec());
    assert_eq!(OpCode::Add.symbol(), b"+".to_vec());
    assert_eq!(OpCode::Negate.symbol(), b"-".to_vec());
    assert_eq!(OpCode::Subtract.symbol(), b"-".to_vec());
    assert_eq!(OpCode::Greater.symbol(), b"greater".to_vec());
    assert_eq!(OpCode::Constant(12).symbol(), b"12".to_vec());
    assert_eq!(OpCode::Print.symbol(), b"print".to_vec());
}

#[derive(Debug, PartialEq)]
enum Seen {
    Kind(TokenType),
    Number(f64),
    Text(TokenType, Vec<u8>),
}

fn test_runner(src: &str, expected_tokens: &[Seen]) -> bool {
    let mut lexer = Lexer::new(src.as_bytes());
    let mut output = Vec::new();
    loop {
        match lexer.next_token() {
            Ok(token) => match token.kind {
                TokenType::Eof => return output.as_slice() == expected_tokens,
                TokenType::Number(_) => {
                    let text = std::str::from_utf8(token.lexeme).unwrap();
                    output.push(Seen::Number(text.parse::<f64>().unwrap()));
                }
                TokenType::Identifier | TokenType::StrLit => {
                    output.push(Seen::Text(token.kind, token.lexeme.to_vec()))
                }
                kind => output.push(Seen::Kind(kind)),
            },
            Err(_) => return false,
        }
    }
}

#[test]
fn test_single_char() {
    assert!(test_runner(".", &[Seen::Kind(TokenType::Dot)]))
}

#[test]
fn test_double_char() {
    assert!(test_runner("==", &[Seen::Kind(TokenType::EqualEqual)]))
}

#[test]
fn test_keyword() {
    assert!(test_runner(
        "while () {}",
        &[
            Seen::Kind(TokenType::While),
            Seen::Kind(TokenType::LeftParen),
            Seen::Kind(TokenType::RightParen),
            Seen::Kind(TokenType::LeftBrace),
            Seen::Kind(TokenType::RightBrace)
        ]
    ));
}

#[test]
fn test_string() {
    assert!(test_runner("\"hello\"", &[Seen::Text(TokenType::StrLit, "hello".into())]))
}

#[test]
fn test_numbers() {
    assert!(test_runner("1", &[Seen::Number(1.0)]));
    assert!(test_runner("123", &[Seen::Number(123.0)]));
    assert!(test_runner("1.00", &[Seen::Number(1.00)]));
}

#[test]
fn test_bools() {
    assert!(test_runner(
        "false and true",
        &[Seen::Kind(TokenType::False), Seen::Kind(TokenType::And), Seen::Kind(TokenType::True),]
    ));
}

#[test]
fn test_identifier() {
    assert!(test_runner("human", &[Seen::Text(TokenType::Identifier, "human".into())]));
}
