use bessy::compiler::Compiler;
use bessy::error::BessyError;
use bessy::lexer::Lexer;
use bessy::session::{evaluate, Session};
use bessy::token::{Token, TokenType};
use bessy::vm::{Arith, Reply, Request, VM};

fn double_of(lexeme: &[u8]) -> u64 {
    std::str::from_utf8(lexeme).unwrap().parse::<f64>().unwrap().to_bits()
}

fn answer(request: &Request) -> Reply {
    match request {
        Request::Compute(op, left, right) => {
            let (l, r) = (f64::from_bits(*left), f64::from_bits(*right));
            let result = match op {
                Arith::Add => l + r,
                Arith::Subtract => l - r,
                Arith::Multiply => l * r,
                Arith::Divide => l / r,
            };
            Reply::Number(result.to_bits())
        }
        Request::Format(bits) => Reply::Text(format!("{}", f64::from_bits(*bits)).into_bytes()),
        Request::Read(lexeme, _) => Reply::Number(double_of(lexeme)),
        _ => Reply::Nothing,
    }
}

fn tokens_of(input: &str) -> (Vec<Token<'_>>, Option<BessyError>) {
    let mut lexer = Lexer::new(input.as_bytes());
    let mut tokens = Vec::new();
    loop {
        match lexer.next_token() {
            Ok(token) => {
                let token = match token.kind {
                    TokenType::Number(_) => token.with_number(double_of(token.lexeme)),
                    _ => token,
                };
                let last = token.kind == TokenType::Eof;
                tokens.push(token);
                if last {
                    return (tokens, None);
                }
            }
            Err(e) => return (tokens, Some(e)),
        }
    }
}

fn run(input: &str) -> Result<Vec<u8>, BessyError> {
    let (tokens, failure) = tokens_of(input);
    let chunk = Compiler::new(tokens, failure).compile()?;
    let mut vm = VM::new(chunk);
    let mut out = Vec::new();
    let mut reply = Reply::Nothing;
    loop {
        let request = vm.run(reply, 100_000);
        reply = answer(&request);
        match request {
            Request::Finished => {
                assert_eq!(vm.depth(), 0);
                return Ok(out);
            }
            Request::Failed(e) => return Err(e),
            Request::Output(bytes) => out.extend_from_slice(&bytes),
            _ => {}
        }
    }
}

fn test(input: &str, expected: &str) -> bool {
    match run(input) {
        Ok(out) => out == expected.as_bytes(),
        Err(_) => false,
    }
}

fn shown(input: &str) -> String {
    let mut session = Session::new(input.as_bytes());
    let mut out = Vec::new();
    let mut reply = Reply::Nothing;
    loop {
        let (next, request) = evaluate(session, reply, 100_000);
        session = next;
        reply = answer(&request);
        match request {
            Request::Finished => return String::from_utf8(out).unwrap(),
            Request::Failed(_) => panic!("a session hands no failure on"),
            Request::Output(bytes) => out.extend_from_slice(&bytes),
            _ => {}
        }
    }
}

#[test]
fn numbers() {
    assert!(test("print 1;", "1\n"));
    assert!(test("print 10000000;", "10000000\n"));
    assert!(test("100;", ""));
}

#[test]
fn literals() {
    assert!(test("true;", ""));
    assert!(test("false;", ""));
    assert!(test("print true;", "true\n"));
    assert!(test("print false;", "false\n"));
    assert!(test("print nil;", "Nil\n"));
}

#[test]
fn expressions() {
    assert!(test("print 1 + 2;", "3\n"));
    assert!(test("print !(5 - 4 > 3 * 2 == !nil);", "true\n"));
    assert!(test("print !true;", "false\n"));
    assert!(test("1 + 1;", ""));
}

#[test]
fn logical_operators() {
    assert!(test("print true or false;", "true\n"));
    assert!(test("print true and false;", "false\n"));
    assert!(test("print !true or !false;", "true\n"));
    assert!(test("print !true and !false;", "false\n"));
    assert!(test("print 1 and 2;", "2\n"));
    assert!(test("print 1 or 2;", "1\n"));
}

#[test]
fn while_stmts() {
    let output = "0\n1\n2\n3\n4\n5\n6\n7\n8\n9\n";
    let input = "var a = 10; var b = 0; while (b < a) { print b; b = b + 1; }";
    assert!(test(input, output));

    let false_input = "var a = 10; while (false) { print a; }";
    assert!(test(false_input, ""));
}

#[test]
fn for_stmts() {
    let output = "0\n1\n2\n3\n4\n5\n6\n7\n8\n9\n";
    let input = "for (var i = 0; i < 10; i = i + 1) { print i; }";
    assert!(test(input, output));

    let false_input = "for (var i = 0; false; i = i + 1) { print i; }";
    assert!(test(false_input, ""));
}

#[test]
fn strings() {
    assert!(test("print \"Hello, world!\";", "Hello, world!\n"));
    assert!(test("print \"Hello, \" + \"world!\";", "Hello, world!\n"));
    assert!(test("\"billa\";", ""));
}

#[test]
fn local_variables() {
    assert!(test("{ var a = 1; { var b = 2; { var c = 3; print c; } print b; } print a; }", "3\n2\n1\n"));
    assert!(test(
        "var a = \"global\"; print a; { var a = 2; print a; { var a = 3; print a; } var b = 4; print b; } print a;",
        "global\n2\n3\n4\nglobal\n"
    ));
    assert!(!test("var a = 5;{var a = a}", "does not compile"));
}

#[test]
fn global_strings_are_joined() {
    assert!(test("var a = \"Hello, \"; var b = \"world!\"; print a + b;", "Hello, world!\n"));
}

#[test]
fn while_counts_to_three() {
    assert!(test("var i = 0; while (i < 3) { print i; i = i + 1; }", "0\n1\n2\n"));
}

#[test]
fn for_counts_to_three() {
    assert!(test("for (var i = 0; i < 3; i = i + 1) { print i; }", "0\n1\n2\n"));
}

#[test]
fn inner_scopes_shadow_the_global() {
    let input = "var a = \"global\"; print a; { var a = 2; print a; { var a = 3; print a; } print a; } print a;";
    assert!(test(input, "global\n2\n3\n2\nglobal\n"));
}

#[test]
fn local_in_its_own_initializer_is_refused() {
    match run("var a = 5; { var a = a; }") {
        Err(BessyError::Parser(message, line)) => {
            assert_eq!(message, b"Can't read local variable in its own initializer.".to_vec());
            assert_eq!(line, 1);
        }
        _ => panic!("a compile error was due"),
    }
}

#[test]
fn undefined_global_fails_at_run_time() {
    match run("print x;") {
        Err(BessyError::Runtime(message, line)) => {
            assert_eq!(message, b"Undefined variable 'x'.".to_vec());
            assert_eq!(line, 1);
        }
        _ => panic!("a runtime error was due"),
    }
}

#[test]
fn assignment_to_undefined_global_fails() {
    match run("\nx = 1;") {
        Err(BessyError::Runtime(message, line)) => {
            assert_eq!(message, b"Cannot assign to undefined variable".to_vec());
            assert_eq!(line, 2);
        }
        _ => panic!("a runtime error was due"),
    }
}

#[test]
fn and_skips_its_right_side() {
    assert!(test("var a = 1; false and (a = 2); print a;", "1\n"));
    assert!(test("var a = 1; true and (a = 2); print a;", "2\n"));
    assert!(test("print nil and 1;", "Nil\n"));
}

#[test]
fn or_skips_its_right_side() {
    assert!(test("var a = 1; true or (a = 2); print a;", "1\n"));
    assert!(test("var a = 1; false or (a = 2); print a;", "2\n"));
}

#[test]
fn equality_follows_the_arms() {
    assert!(test("print 1 == 1;", "true\n"));
    assert!(test("print 1 == 2;", "false\n"));
    assert!(test("print 1 != 2;", "true\n"));
    assert!(test("print nil == nil;", "true\n"));
    assert!(test("print nil == false;", "false\n"));
    assert!(test("print \"a\" == \"a\";", "true\n"));
    assert!(test("print \"a\" + \"b\" == \"ab\";", "true\n"));
    assert!(test("print \"1\" == 1;", "false\n"));
    assert!(test("print 0/0 == 0/0;", "false\n"));
    assert!(test("print 0 == -0;", "true\n"));
}

#[test]
fn comparisons_order_the_doubles() {
    assert!(test("print 1 < 2;", "true\n"));
    assert!(test("print 2 < 1;", "false\n"));
    assert!(test("print 2 <= 2;", "true\n"));
    assert!(test("print 2 >= 3;", "false\n"));
    assert!(test("print -1 < 1;", "true\n"));
    assert!(test("print -1 > -2;", "true\n"));
    assert!(test("print 0.5 > 0.25;", "true\n"));
    assert!(test("print 0/0 < 1;", "false\n"));
    assert!(test("print 0/0 >= 1;", "true\n"));
}

#[test]
fn arithmetic_is_that_of_doubles() {
    assert!(test("print 7 / 2;", "3.5\n"));
    assert!(test("print 1 / 0;", "inf\n"));
    assert!(test("print -1 / 0;", "-inf\n"));
    assert!(test("print 0 / 0;", "NaN\n"));
    assert!(test("print -(3);", "-3\n"));
    assert!(test("print 1 + 2 * 3 - 4;", "3\n"));
    assert!(test("print (1 + 2) * 3;", "9\n"));
    assert!(test("print 1.00;", "1\n"));
    assert!(test("print 0.1 + 0.2;", "0.30000000000000004\n"));
}

#[test]
fn comments_and_blanks_are_skipped() {
    assert!(test("// nothing\nprint 1; // one\n\t print 2;\r\n", "1\n2\n"));
}

#[test]
fn if_takes_one_branch() {
    assert!(test("if (true) print 1; else print 2;", "1\n"));
    assert!(test("if (false) print 1; else print 2;", "2\n"));
    assert!(test("if (nil) print 1;", ""));
    assert!(test("if (0) { print 1; }", "1\n"));
}

#[test]
fn for_clauses_may_be_missing() {
    assert!(test("var i = 0; for (; i < 2; i = i + 1) print i;", "0\n1\n"));
    assert!(test("var i = 0; for (; i < 2;) { print i; i = i + 1; }", "0\n1\n"));
    assert!(test("var i = 5; for (i = 0; i < 2; i = i + 1) print i; print i;", "0\n1\n2\n"));
}

#[test]
fn type_errors_fail_at_run_time() {
    let cases: Vec<(&str, &str)> = vec![
        ("print -true;", "Operand to '-' should be of type number."),
        ("print 1 + true;", "Operands to '+' should be of type number."),
        ("print nil - 1;", "Operands to '-' should be of type number."),
        ("print true * 1;", "Operands to '*' should be of type number."),
        ("print 1 / nil;", "Operands to '/' should be of type number."),
        ("print 1 < \"a\";", "Operands to 'less' should be of type number."),
        ("print \"a\" > 1;", "Operands to 'greater' should be of type number."),
        ("print \"a\" - \"b\";", "Unsupported operation for Strings."),
        ("print \"a\" < \"b\";", "Unsupported operation for Strings."),
    ];
    for (input, expected) in cases {
        match run(input) {
            Err(BessyError::Runtime(message, 1)) => assert_eq!(message, expected.as_bytes().to_vec()),
            _ => panic!("a runtime error was due"),
        }
    }
}

#[test]
fn compile_errors_name_what_is_missing() {
    let cases: Vec<(&str, &str)> = vec![
        ("print ;", "Expect expression"),
        ("print 1", "Expect ';' after value."),
        ("1 + 2", "Expect ';' after value."),
        ("1 = 2;", "Invalid assignment target"),
        ("var a = 1; var b = 2; a + b = 3;", "Invalid assignment target"),
        ("var 1 = 2;", "Expect variable name."),
        ("var a = 1", "Expect ';' after variable declaration."),
        ("{ var 1 = 2; }", "Expected variable identifier."),
        ("{ var a = 1; var a = 2; }", "Already a variable with this name in this scope."),
        ("{ print 1;", "Expect '}' after block."),
        ("(1 + 2;", "Expect ')' after expression"),
        ("if true) print 1;", "Expect '(' after 'if'."),
        ("if (true print 1;", "Expect ')' after condition."),
        ("while true) print 1;", "Expect '(' after 'while'."),
        ("for var i = 0;;) print 1;", "Expect '(' after 'for'."),
        ("for (;true) print 1;", "Expect ';' after loop condition."),
        ("for (;;1 print 1;", "Expect ')' after for clauses."),
    ];
    for (input, expected) in cases {
        match run(input) {
            Err(BessyError::Parser(message, 1)) => assert_eq!(message, expected.as_bytes().to_vec()),
            _ => panic!("a compile error was due"),
        }
    }
}

#[test]
fn too_many_locals_are_refused() {
    let mut input = String::from("{");
    for i in 0..256 {
        input.push_str(&format!("var v{};", i));
    }
    let fits = format!("{} print v255; }}", input);
    assert!(test(&fits, "Nil\n"));
    let over = format!("{} var w; }}", input);
    match run(&over) {
        Err(BessyError::Parser(message, _)) => assert_eq!(message, b"Too many local variables.".to_vec()),
        _ => panic!("a compile error was due"),
    }
}

#[test]
fn long_jumps_are_refused() {
    let mut body = String::new();
    for _ in 0..33000 {
        body.push_str("1;");
    }
    match run(&format!("if (true) {{ {} }}", body)) {
        Err(BessyError::Parser(message, _)) => assert_eq!(message, b"Too much code to skip over.".to_vec()),
        _ => panic!("a compile error was due"),
    }
    match run(&format!("while (false) {{ {} }}", body)) {
        Err(BessyError::Parser(message, _)) => assert_eq!(message, b"Loop body too large.".to_vec()),
        _ => panic!("a compile error was due"),
    }
    let mut short = String::new();
    for _ in 0..100 {
        short.push_str("1;");
    }
    assert!(test(&format!("if (true) {{ {} }} print 1;", short), "1\n"));
}

#[test]
fn lex_errors_come_up_in_source_order() {
    match run("print 1; print @;") {
        Err(BessyError::Lexer(message, 1)) => assert_eq!(message, b"Unknown character.".to_vec()),
        _ => panic!("a lex error was due"),
    }
    match run("print 1;\nprint \"open") {
        Err(BessyError::Lexer(message, 2)) => assert_eq!(message, b"Unterminated string.".to_vec()),
        _ => panic!("a lex error was due"),
    }
    match run("print ; print @;") {
        Err(BessyError::Parser(message, 1)) => assert_eq!(message, b"Expect expression".to_vec()),
        _ => panic!("a compile error was due"),
    }
}

#[test]
fn a_session_prints_and_reports() {
    assert_eq!(shown("print 1 + 2;"), "3\n");
    assert_eq!(shown("var a = \"Hello, \"; var b = \"world!\"; print a + b;"), "Hello, world!\n");
    assert_eq!(shown("print 1;\nprint x;"), "1\n[line 2] Runtime error: Undefined variable 'x'.");
    assert_eq!(
        shown("var a = 5; { var a = a; }"),
        "[line 1] Parse error: Can't read local variable in its own initializer."
    );
    assert_eq!(shown("\n\n#"), "[line 3] Lex error: Unknown character.");
    assert_eq!(shown(""), "");
}

#[test]
fn a_session_is_a_function_of_its_source() {
    let input = "var i = 0; while (i < 3) { print i; i = i + 1; }";
    assert_eq!(shown(input), shown(input));
    assert_eq!(shown(input), "0\n1\n2\n");
}

#[test]
fn a_small_budget_only_pauses() {
    let (tokens, failure) = tokens_of("var i = 0; while (i < 3) { print i; i = i + 1; }");
    let chunk = Compiler::new(tokens, failure).compile().unwrap();
    let mut vm = VM::new(chunk);
    let mut out = Vec::new();
    let mut reply = Reply::Nothing;
    let mut pauses = 0;
    loop {
        let request = vm.run(reply, 1);
        reply = answer(&request);
        match request {
            Request::Finished => break,
            Request::Output(bytes) => out.extend_from_slice(&bytes),
            Request::Paused => pauses += 1,
            Request::Failed(_) => panic!("the program is sound"),
            _ => {}
        }
    }
    assert_eq!(out, b"0\n1\n2\n".to_vec());
    assert!(pauses > 10);
    assert!(matches!(vm.run(Reply::Nothing, 0), Request::Paused));
    assert!(matches!(vm.run(Reply::Nothing, 5), Request::Finished));
}

#[test]
fn an_unanswered_request_is_repeated() {
    let (tokens, failure) = tokens_of("print 1 + 2;");
    let chunk = Compiler::new(tokens, failure).compile().unwrap();
    let mut vm = VM::new(chunk);
    let one = 1.0f64.to_bits();
    let two = 2.0f64.to_bits();
    assert!(matches!(vm.run(Reply::Nothing, 10), Request::Compute(Arith::Add, l, r) if l == one && r == two));
    assert!(matches!(vm.run(Reply::Nothing, 10), Request::Compute(Arith::Add, l, r) if l == one && r == two));
    assert!(matches!(vm.run(Reply::Text(Vec::new()), 10), Request::Compute(Arith::Add, _, _)));
    let three = 3.0f64.to_bits();
    assert!(matches!(vm.run(Reply::Number(three), 10), Request::Format(bits) if bits == three));
    assert!(matches!(vm.run(Reply::Number(three), 10), Request::Format(bits) if bits == three));
    match vm.run(Reply::Text(b"3".to_vec()), 10) {
        Request::Output(bytes) => assert_eq!(bytes, b"3\n".to_vec()),
        _ => panic!("the line was due"),
    }
    assert!(matches!(vm.run(Reply::Nothing, 10), Request::Finished));
}

#[test]
fn the_stack_is_empty_between_statements() {
    let input = "var a = 1; print a + 2; { var b = a; print b; } if (a) print a; for (var i = 0; i < 2; i = i + 1) print i; print \"s\" + \"t\";";
    let (tokens, failure) = tokens_of(input);
    let chunk = Compiler::new(tokens, failure).compile().unwrap();
    let mut vm = VM::new(chunk);
    let mut reply = Reply::Nothing;
    let mut lines = 0;
    let mut deepest = 0;
    loop {
        let request = match vm.step(reply) {
            Some(request) => request,
            None => {
                deepest = deepest.max(vm.depth());
                reply = Reply::Nothing;
                continue;
            }
        };
        reply = answer(&request);
        match request {
            Request::Finished => break,
            Request::Output(_) => {
                lines += 1;
                if lines == 1 || lines == 3 || lines == 6 {
                    assert_eq!(vm.depth(), 0);
                }
            }
            Request::Failed(_) => panic!("the program is sound"),
            _ => {}
        }
    }
    assert_eq!(lines, 6);
    assert_eq!(vm.depth(), 0);
    assert!(deepest >= 3);
}

#[test]
fn evaluate_is_at_the_root_of_the_crate() {
    let mut session = bessy::Session::new(b"print nil;");
    let mut out = Vec::new();
    loop {
        let (next, request) = bessy::evaluate(session, Reply::Nothing, 10);
        session = next;
        match request {
            Request::Finished => break,
            Request::Output(bytes) => out.extend_from_slice(&bytes),
            _ => panic!("nothing else is asked"),
        }
    }
    assert_eq!(out, b"Nil\n".to_vec());
}

#[test]
fn a_session_asks_for_each_number_in_turn() {
    let mut session = Session::new(b"print 1.5 +\n20;");
    let mut asked: Vec<(Vec<u8>, u16)> = Vec::new();
    let mut out = Vec::new();
    let mut reply = Reply::Nothing;
    let mut unanswered = true;
    loop {
        let (next, request) = evaluate(session, reply, 1000);
        session = next;
        reply = answer(&request);
        match request {
            Request::Finished => break,
            Request::Read(lexeme, line) => {
                if unanswered {
                    unanswered = false;
                    reply = Reply::Text(b"not a number".to_vec());
                } else {
                    asked.push((lexeme, line));
                }
            }
            Request::Output(bytes) => out.extend_from_slice(&bytes),
            Request::Failed(_) => panic!("a session hands no failure on"),
            _ => {}
        }
    }
    assert_eq!(asked, vec![(b"1.5".to_vec(), 1), (b"20".to_vec(), 2)]);
    assert_eq!(out, b"21.5\n".to_vec());
    let (_, request) = evaluate(session, Reply::Nothing, 1000);
    assert!(matches!(request, Request::Finished));
}

#[test]
fn a_session_pauses_and_goes_on() {
    let mut session = Session::new(b"var n = nil; while (!n) { n = true; } print n;");
    let mut pauses = 0;
    let mut out = Vec::new();
    loop {
        let (next, request) = evaluate(session, Reply::Nothing, 2);
        session = next;
        match request {
            Request::Finished => break,
            Request::Paused => pauses += 1,
            Request::Output(bytes) => out.extend_from_slice(&bytes),
            _ => panic!("this program asks for nothing else"),
        }
    }
    assert!(pauses >= 5);
    assert_eq!(out, b"true\n".to_vec());
}
