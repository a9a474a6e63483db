use lox::callable::LoxFunction;
use lox::class::LoxClass;
use lox::environment::Environment;
use lox::instance::LoxInstance;
use lox::exceptions::{ParseError, ParserError, RuntimeErrorKind};
use lox::expr::{Expr, GroupingExpr, ListRef, Literal};
use lox::interpreter::{Action, Event, Interpreter, NumberOp, State};
use lox::load;
use lox::logger::{error, error_token};
use lox::parser::{parse_tokens, Parser};
use lox::resolver::{resolve, ResolveError};
use lox::scanner::{scan, ScanError, Scanner};
use lox::stmt::{ExpressionStmt, Program, Stmt};
use lox::tokens::{LoxObject, Span, Token, TokenType};
use lox::utils::Clock;

fn arithmetic(op: NumberOp, left: u32, right: u32) -> u32 {
    let a = f32::from_bits(left);
    let b = f32::from_bits(right);
    let result = match op {
        NumberOp::Add => a + b,
        NumberOp::Subtract => a - b,
        NumberOp::Multiply => a * b,
        NumberOp::Divide => a / b,
        _ => -a,
    };
    result.to_bits()
}

fn comparison(op: NumberOp, left: u32, right: u32) -> bool {
    let a = f32::from_bits(left);
    let b = f32::from_bits(right);
    match op {
        NumberOp::Less => a < b,
        NumberOp::LessEqual => a <= b,
        NumberOp::Greater => a > b,
        NumberOp::GreaterEqual => a >= b,
        NumberOp::Equal => a == b,
        _ => a != b,
    }
}

/// Steps a machine to its end, doing the arithmetic it asks for. Returns
/// what it printed, or the kind of error that ended it.
fn drive(mut machine: Interpreter) -> Result<String, RuntimeErrorKind> {
    let mut event = Event::Resume;
    loop {
        event = match machine.interpret(event, 1_000) {
            Action::Continue => Event::Resume,
            Action::Arithmetic { op, left, right } => Event::Number(arithmetic(op, left, right)),
            Action::Compare { op, left, right } => Event::Truth(comparison(op, left, right)),
            Action::Parse { lexeme } => {
                let text: String = machine.text[lexeme.start..lexeme.end].iter().collect();
                Event::Number(text.parse::<f32>().unwrap().to_bits())
            }
            Action::Format { number } => {
                Event::Text(format!("{}", f32::from_bits(number)).chars().collect())
            }
            Action::Clock => Event::Number(1234.0f32.to_bits()),
            Action::Finished => return Ok(machine.output.iter().collect()),
            Action::Failed(error) => return Err(error.kind),
        };
    }
}

fn run(source: &str) -> Result<String, RuntimeErrorKind> {
    let loaded = load(source);
    assert!(loaded.resolve_error.is_none(), "{:?}", loaded.resolve_error);
    drive(loaded.interpreter)
}

/// Runs a program without the resolver's pass.
fn run_unresolved(source: &str) -> Result<String, RuntimeErrorKind> {
    let (tokens, _) = scan(source);
    let syntax = parse_tokens(tokens);
    drive(Interpreter::new(source.chars().collect(), syntax.program, &syntax.body))
}

fn printed(source: &str) -> String {
    run(source).unwrap()
}

fn kinds(source: &str) -> Vec<TokenType> {
    scan(source).0.iter().map(|token| token.token_type).collect()
}

fn lexeme(source: &str, token: &Token) -> String {
    source.chars().skip(token.lexeme.start).take(token.lexeme.end - token.lexeme.start).collect()
}

fn first_parse_error(source: &str) -> ParseError {
    let (tokens, _) = scan(source);
    let syntax = parse_tokens(tokens);
    syntax.errors[0].error
}

fn resolve_failure(source: &str) -> Option<ResolveError> {
    load(source).resolve_error
}

#[test]
fn scanner_single_and_double_character_tokens() {
    assert_eq!(
        kinds("(){},.-+;*/ ! != = == < <= > >="),
        vec![
            TokenType::LeftParen,
            TokenType::RightParen,
            TokenType::LeftBrace,
            TokenType::RightBrace,
            TokenType::Comma,
            TokenType::Dot,
            TokenType::Minus,
            TokenType::Plus,
            TokenType::Semicolon,
            TokenType::Star,
            TokenType::Slash,
            TokenType::Bang,
            TokenType::BangEqual,
            TokenType::Equal,
            TokenType::EqualEqual,
            TokenType::Less,
            TokenType::LessEqual,
            TokenType::Greater,
            TokenType::GreaterEqual,
            TokenType::Eof,
        ]
    );
}

#[test]
fn scanner_keywords_and_identifiers() {
    assert_eq!(
        kinds("and break class else false for fun if nil or print return super this true var while"),
        vec![
            TokenType::And,
            TokenType::Break,
            TokenType::Class,
            TokenType::Else,
            TokenType::False,
            TokenType::For,
            TokenType::Fun,
            TokenType::If,
            TokenType::Nil,
            TokenType::Or,
            TokenType::Print,
            TokenType::Return,
            TokenType::Super,
            TokenType::This,
            TokenType::True,
            TokenType::Var,
            TokenType::While,
            TokenType::Eof,
        ]
    );
    assert_eq!(
        kinds("andy _x x1 classy"),
        vec![
            TokenType::Identifier,
            TokenType::Identifier,
            TokenType::Identifier,
            TokenType::Identifier,
            TokenType::Eof
        ]
    );
}

#[test]
fn scanner_empty_source_is_one_eof() {
    let (tokens, errors) = scan("");
    assert_eq!(tokens.len(), 1);
    assert_eq!(tokens[0], Token { token_type: TokenType::Eof, lexeme: Span { start: 0, end: 0 }, line: 1 });
    assert!(errors.is_empty());
}

#[test]
fn scanner_numbers() {
    let source = "12 3.25 4. .5";
    let (tokens, _) = scan(source);
    let texts: Vec<String> = tokens.iter().map(|token| lexeme(source, token)).collect();
    assert_eq!(texts, vec!["12", "3.25", "4", ".", ".", "5", ""]);
    assert_eq!(tokens[0].token_type, TokenType::Number);
    assert_eq!(tokens[1].token_type, TokenType::Number);
    assert_eq!(tokens[2].token_type, TokenType::Number);
    assert_eq!(tokens[3].token_type, TokenType::Dot);
}

#[test]
fn scanner_strings_keep_quotes_in_lexeme_only() {
    let source = "\"a b\" \"\"";
    let (tokens, errors) = scan(source);
    assert!(errors.is_empty());
    assert_eq!(tokens[0].token_type, TokenType::String);
    assert_eq!(tokens[0].lexeme, Span { start: 0, end: 5 });
    assert_eq!(tokens[0].literal(), Span { start: 1, end: 4 });
    assert_eq!(tokens[1].lexeme, Span { start: 6, end: 8 });
    assert_eq!(tokens[1].literal(), Span { start: 7, end: 7 });
}

#[test]
fn scanner_counts_lines_in_strings_and_comments() {
    let source = "a // note\n\"x\ny\"\nb";
    let (tokens, _) = scan(source);
    let lines: Vec<usize> = tokens.iter().map(|token| token.line).collect();
    assert_eq!(kinds(source), vec![
        TokenType::Identifier,
        TokenType::String,
        TokenType::Identifier,
        TokenType::Eof
    ]);
    assert_eq!(lines, vec![1, 3, 4, 4]);
}

#[test]
fn scanner_reports_and_skips_unexpected_characters() {
    let (tokens, errors) = scan("1 @ 2 #\n$");
    assert_eq!(tokens.len(), 3);
    assert_eq!(errors.len(), 3);
    assert_eq!(errors[0].error, ScanError::UnexpectedCharacter);
    assert_eq!(errors[0].line, 1);
    assert_eq!(errors[2].line, 2);
}

#[test]
fn scanner_reports_unterminated_string() {
    let (tokens, errors) = scan("print \"abc\ndef");
    assert_eq!(tokens.len(), 2);
    assert_eq!(errors.len(), 1);
    assert_eq!(errors[0].error, ScanError::UnterminatedString);
    assert_eq!(errors[0].line, 2);
    assert_eq!(ScanError::UnterminatedString.message(), "Unterminated string.");
    assert_eq!(ScanError::UnexpectedCharacter.message(), "Unexpected character.");
}

#[test]
fn scanner_can_be_stepped_by_hand() {
    let mut scanner = Scanner::new("a+b");
    scanner.scan_token();
    assert_eq!(scanner.current, 1);
    assert_eq!(scanner.tokens.len(), 1);
    let tokens = scanner.scan_tokens();
    assert_eq!(tokens.len(), 4);
    assert!(Scanner::is_digit('7') && !Scanner::is_digit('a'));
    assert!(Scanner::is_alpha('_') && Scanner::is_alpha('Z') && !Scanner::is_alpha('1'));
    assert!(Scanner::is_alphanumeric('1') && !Scanner::is_alphanumeric('-'));
}

#[test]
fn span_text_operations() {
    let text: Vec<char> = "hello hello help".chars().collect();
    let a = Span::new(0, 5);
    let b = Span::new(6, 11);
    let c = Span::new(12, 16);
    assert!(a.same_text(&b, &text));
    assert!(!a.same_text(&c, &text));
    assert!(a.is_word(&text, "hello"));
    assert!(!c.is_word(&text, "hello"));
    assert_eq!(c.extract(&text), vec!['h', 'e', 'l', 'p']);
    // A range that does not fit selects nothing.
    assert_eq!(Span::new(10, 99).extract(&text), Vec::<char>::new());
    assert!(Span::new(10, 99).same_text(&Span::new(3, 3), &text));
}

#[test]
fn parser_builds_nodes_in_order() {
    let (tokens, _) = scan("1 + 2 * 3;");
    let syntax = parse_tokens(tokens);
    assert!(syntax.errors.is_empty());
    assert_eq!(syntax.body.len(), 1);
    // 1, 2, 3, 2 * 3, 1 + (2 * 3)
    assert_eq!(syntax.program.exprs.len(), 5);
    match syntax.program.exprs[4] {
        Expr::Binary(binary) => {
            assert_eq!(binary.operator.token_type, TokenType::Plus);
            assert_eq!(binary.left, 0);
            assert_eq!(binary.right, 3);
        }
        other => panic!("{:?}", other),
    }
    match syntax.program.exprs[3] {
        Expr::Binary(binary) => {
            assert_eq!(binary.operator.token_type, TokenType::Star);
            assert_eq!((binary.left, binary.right), (1, 2));
        }
        other => panic!("{:?}", other),
    }
}

#[test]
fn parser_groups_binary_operators_to_the_left() {
    assert_eq!(printed("print 10 - 4 - 3;"), "3\n");
    assert_eq!(printed("print 24 / 4 / 2;"), "3\n");
}

#[test]
fn parser_assignment_is_right_associative() {
    assert_eq!(printed("var a; var b; a = b = 3; print a; print b;"), "3\n3\n");
}

#[test]
fn parser_desugars_for_loops() {
    let (tokens, _) = scan("for (;;) print 1;");
    let syntax = parse_tokens(tokens);
    assert!(syntax.errors.is_empty());
    // The condition defaults to the literal true.
    match syntax.program.stmts[syntax.body[0]] {
        Stmt::While(looped) => match syntax.program.exprs[looped.condition] {
            Expr::Literal(literal) => assert!(matches!(literal.value, Literal::Bool(true))),
            other => panic!("{:?}", other),
        },
        other => panic!("{:?}", other),
    }
    assert_eq!(
        printed("for (var i = 0; i < 2; i = i + 1) {} var i = 7; print i;"),
        "7\n"
    );
}

#[test]
fn parser_chains_calls_and_properties() {
    assert_eq!(
        printed(
            "class A { init() { this.b = this; this.n = 5; } me() { return this; } }
             print A().me().b.me().n;"
        ),
        "5\n"
    );
}

#[test]
fn parser_reports_each_error() {
    let cases = vec![
        ("class 1 {}", ParseError::ExpectClassName),
        ("class A < 1 {}", ParseError::ExpectSuperclassName),
        ("class A;", ParseError::ExpectLeftBraceBeforeClassBody),
        ("class A { f() {} ", ParseError::ExpectRightBraceAfterClassBody),
        ("fun 1() {}", ParseError::ExpectFunctionName),
        ("fun f {}", ParseError::ExpectLeftParenAfterFunctionName),
        ("fun f(1) {}", ParseError::ExpectParameterName),
        ("fun f(a b) {}", ParseError::ExpectRightParenAfterParameters),
        ("fun f() print 1;", ParseError::ExpectLeftBraceBeforeBody),
        ("fun f() { return 1 }", ParseError::ExpectSemicolonAfterReturn),
        ("while (true) { break }", ParseError::ExpectSemicolonAfterBreak),
        ("for var i;", ParseError::ExpectLeftParenAfterFor),
        ("for (;1 2;) {}", ParseError::ExpectSemicolonAfterLoopCondition),
        ("for (;;1 2) {}", ParseError::ExpectRightParenAfterForClauses),
        ("while true {}", ParseError::ExpectLeftParenAfterWhile),
        ("while (true {}", ParseError::ExpectRightParenAfterCondition),
        ("if true {}", ParseError::ExpectLeftParenAfterIf),
        ("if (true {}", ParseError::ExpectRightParenAfterIf),
        ("{ print 1;", ParseError::ExpectRightBraceAfterBody),
        ("print 1", ParseError::ExpectSemicolonAfterValue),
        ("var 1;", ParseError::ExpectVariableName),
        ("var a = 1", ParseError::ExpectSemicolonAfterVariableDeclaration),
        ("var a 1;", ParseError::ExpectSemicolonAfterVariableDeclaration),
        ("1", ParseError::ExpectSemicolonAfterExpression),
        ("1 = 2;", ParseError::InvalidAssignmentTarget),
        ("a.1;", ParseError::ExpectPropertyName),
        ("f(1 2);", ParseError::ExpectRightParenAfterArguments),
        ("(1;", ParseError::ExpectRightParenAfterExpression),
        ("super;", ParseError::ExpectDotAfterSuper),
        ("super.1;", ParseError::ExpectSuperclassMethodName),
        (";", ParseError::InvalidPrimary),
    ];
    for (source, expected) in cases {
        assert_eq!(first_parse_error(source), expected, "{}", source);
    }
}

#[test]
fn parser_error_messages() {
    assert_eq!(ParseError::ExpectSemicolonAfterValue.message(), "Expect ';' after value.");
    assert_eq!(ParseError::InvalidPrimary.message(), "Invalid primary expression");
    assert_eq!(ParseError::ExpectClassName.to_error().msg, "Expect class name.");
    assert_eq!(ParserError::raise("oops".to_string()).msg, "oops");
}

#[test]
fn parser_recovers_at_statement_boundaries() {
    let source = "print 1; print +; print 2; var = 3; print 3;";
    let loaded = load(source);
    assert_eq!(loaded.parse_errors.len(), 2);
    assert_eq!(loaded.parse_errors[0].error, ParseError::InvalidPrimary);
    assert_eq!(loaded.parse_errors[0].token.token_type, TokenType::Plus);
    assert_eq!(loaded.parse_errors[1].error, ParseError::ExpectVariableName);
    assert_eq!(drive(loaded.interpreter).unwrap(), "1\n2\n3\n");
}

#[test]
fn parser_recovery_resumes_at_statement_keyword() {
    let loaded = load("var a = (1 + ; print 4 print 5; print 6;");
    assert_eq!(loaded.parse_errors.len(), 2);
    // The first error skips to after the semicolon. The second statement
    // lacks its semicolon: the parser stands at the second `print`, which
    // recovery skips together with what follows up to the next semicolon.
    assert_eq!(loaded.parse_errors[1].error, ParseError::ExpectSemicolonAfterValue);
    assert_eq!(loaded.parse_errors[1].token.token_type, TokenType::Print);
    assert_eq!(drive(loaded.interpreter).unwrap(), "6\n");
    // Recovery stops before a token that starts a statement.
    let loaded = load("1 + + 2 var b = 7; print b;");
    assert_eq!(loaded.parse_errors.len(), 1);
    assert_eq!(drive(loaded.interpreter).unwrap(), "7\n");
}

#[test]
fn parser_by_hand_from_tokens() {
    let (tokens, _) = scan("var a = 1;");
    let mut parser = Parser::new(tokens);
    let body = parser.parse().unwrap();
    assert_eq!(body, vec![0]);
    assert!(matches!(parser.program.stmts[0], Stmt::Var(_)));
}

#[test]
fn resolver_records_distances() {
    let source = "var a = 1; { var b = 2; { print a; print b; } }";
    let loaded = load(source);
    assert!(loaded.resolve_error.is_none());
    let recorded: Vec<usize> = loaded.interpreter.locals.iter().flatten().cloned().collect();
    // `a` lies two scopes out of the innermost block, `b` one.
    assert_eq!(recorded, vec![2, 1]);
}

#[test]
fn resolver_leaves_globals_unresolved() {
    let loaded = load("print clock;");
    assert!(loaded.interpreter.locals.iter().all(|entry| entry.is_none()));
}

#[test]
fn resolver_rejects_each_error() {
    assert_eq!(resolve_failure("var a = a;"), Some(ResolveError::OwnInitializer));
    assert_eq!(resolve_failure("{ var a = 1; { var a = a; } }"), Some(ResolveError::OwnInitializer));
    assert_eq!(resolve_failure("return 1;"), Some(ResolveError::ReturnOutsideFunction));
    assert_eq!(resolve_failure("return;"), Some(ResolveError::ReturnOutsideFunction));
    assert_eq!(
        resolve_failure("class A { init() { return 1; } }"),
        Some(ResolveError::ReturnFromInitializer)
    );
    assert_eq!(resolve_failure("class A { init() { return; } }"), None);
    assert_eq!(resolve_failure("print this;"), Some(ResolveError::ThisOutsideClass));
    assert_eq!(resolve_failure("fun f() { return this; }"), Some(ResolveError::ThisOutsideClass));
    assert_eq!(resolve_failure("break;"), Some(ResolveError::BreakOutsideLoop));
    assert_eq!(
        resolve_failure("while (true) { fun f() { break; } }"),
        Some(ResolveError::BreakOutsideLoop)
    );
    assert_eq!(resolve_failure("while (true) { if (true) break; }"), None);
    assert_eq!(
        ResolveError::ThisOutsideClass.message(),
        "Can't use 'this' outside of a class."
    );
}

#[test]
fn resolver_rejects_malformed_tables() {
    // An expression that names itself as its operand.
    let mut program = Program::new();
    let looped = program.push_expr(Expr::Grouping(GroupingExpr::new(0)));
    let statement = program.push_stmt(Stmt::Expression(ExpressionStmt::new(looped)));
    let body = vec![statement];
    let mut machine = Interpreter::new(Vec::new(), program, &body);
    assert_eq!(resolve(&mut machine, &body), Some(ResolveError::Malformed));
}

#[test]
fn resolver_fixes_closure_bindings() {
    // The function sees the `a` that was in scope where it was declared,
    // not the one declared later in the block it is called from.
    assert_eq!(
        printed(
            "var a = \"global\";
             {
               fun show() { print a; }
               show();
               var a = \"block\";
               show();
             }"
        ),
        "global\nglobal\n"
    );
}

#[test]
fn arithmetic_and_type_errors() {
    assert_eq!(printed("print 1 + 2 * 3;"), "7\n");
    assert_eq!(printed("print (1 + 2) * 3;"), "9\n");
    assert_eq!(printed("print \"con\" + \"cat\";"), "concat\n");
    assert_eq!(printed("print \"\" + \"\";"), "\n");
    assert_eq!(run("print 1 + \"a\";"), Err(RuntimeErrorKind::OperandsMustBeNumbersOrStrings));
    assert_eq!(run("print \"a\" + 1;"), Err(RuntimeErrorKind::OperandsMustBeNumbersOrStrings));
    assert_eq!(printed("print 7 / 2;"), "3.5\n");
    assert_eq!(printed("print 1 / 0;"), "inf\n");
    assert_eq!(printed("print -(3 - 5);"), "2\n");
}

#[test]
fn truthiness_and_logic() {
    assert_eq!(printed("print !false == true;"), "true\n");
    assert_eq!(printed("print 2 < 1 == true;"), "false\n");
    assert_eq!(printed("print !nil; print !0; print !\"\";"), "true\nfalse\nfalse\n");
    // `and` and `or` yield the operand itself, and skip the right one
    // when the left one decides.
    assert_eq!(printed("print nil or \"b\"; print 1 or 2; print nil and 1; print 1 and 2;"),
        "b\n1\nnil\n2\n");
    assert_eq!(
        printed("var a = 1; fun f() { a = 2; return true; } print true or f(); print a; print false and f(); print a;"),
        "true\n1\nfalse\n1\n"
    );
}

#[test]
fn equality_of_values() {
    assert_eq!(printed("print nil == nil; print nil == false; print 1 == \"1\";"), "true\nfalse\nfalse\n");
    assert_eq!(printed("print \"a\" == \"a\"; print \"a\" != \"b\"; print true == true;"), "true\ntrue\ntrue\n");
    // Functions, classes and instances are never equal, not even to themselves.
    assert_eq!(
        printed("fun f() {} class A {} var a = A(); print f == f; print A == A; print a == a; print f != f;"),
        "false\nfalse\nfalse\ntrue\n"
    );
}

#[test]
fn ordering_of_values() {
    assert_eq!(printed("print \"a\" < \"b\"; print \"b\" < \"a\"; print \"a\" < \"ab\"; print \"a\" <= \"a\";"),
        "true\nfalse\ntrue\ntrue\n");
    assert_eq!(printed("print \"b\" > \"a\"; print \"a\" >= \"b\"; print \"\" < \"a\"; print \"\" < \"\";"),
        "true\nfalse\ntrue\nfalse\n");
    assert_eq!(printed("print false < true; print true <= true; print true > false; print false >= true;"),
        "true\ntrue\ntrue\nfalse\n");
    assert_eq!(run("print 1 < \"a\";"), Err(RuntimeErrorKind::OperandsMustBeComparable));
    assert_eq!(run("print nil < nil;"), Err(RuntimeErrorKind::OperandsMustBeComparable));
    assert_eq!(run("print true < 1;"), Err(RuntimeErrorKind::OperandsMustBeComparable));
}

#[test]
fn runtime_errors() {
    assert_eq!(run("print x;"), Err(RuntimeErrorKind::UndefinedVariable));
    assert_eq!(run("x = 1;"), Err(RuntimeErrorKind::UndefinedVariable));
    assert_eq!(run("class A {} print A().x;"), Err(RuntimeErrorKind::UndefinedProperty));
    assert_eq!(run("\"a\"();"), Err(RuntimeErrorKind::NotCallable));
    assert_eq!(run("nil();"), Err(RuntimeErrorKind::NotCallable));
    assert_eq!(run("fun f(a) {} f();"), Err(RuntimeErrorKind::ArityMismatch));
    assert_eq!(run("fun f(a) {} f(1, 2);"), Err(RuntimeErrorKind::ArityMismatch));
    assert_eq!(run("class A { init(a) {} } A();"), Err(RuntimeErrorKind::ArityMismatch));
    assert_eq!(run("class A {} A(1);"), Err(RuntimeErrorKind::ArityMismatch));
    assert_eq!(run("clock(1);"), Err(RuntimeErrorKind::ArityMismatch));
    assert_eq!(run("print -\"a\";"), Err(RuntimeErrorKind::OperandMustBeNumber));
    assert_eq!(run("print 1 - \"a\";"), Err(RuntimeErrorKind::OperandsMustBeNumbers));
    assert_eq!(run("print nil * 2;"), Err(RuntimeErrorKind::OperandsMustBeNumbers));
    assert_eq!(run("print \"a\" / \"b\";"), Err(RuntimeErrorKind::OperandsMustBeNumbers));
    assert_eq!(run("var a = 1; print a.x;"), Err(RuntimeErrorKind::OnlyInstancesHaveProperties));
    assert_eq!(run("var a = 1; a.x = 2;"), Err(RuntimeErrorKind::OnlyInstancesHaveFields));
    assert_eq!(run("var A = 1; class B < A {}"), Err(RuntimeErrorKind::SuperclassMustBeClass));
    assert_eq!(run_unresolved("return 1;"), Err(RuntimeErrorKind::ReturnOutsideFunction));
    assert_eq!(run_unresolved("break;"), Err(RuntimeErrorKind::BreakOutsideLoop));
    assert_eq!(
        run_unresolved("fun f() { break; } while (true) f();"),
        Err(RuntimeErrorKind::BreakOutsideLoop)
    );
    assert_eq!(RuntimeErrorKind::UndefinedVariable.message(), "Undefined variable.");
}

#[test]
fn runtime_error_stops_the_program_and_keeps_earlier_output() {
    let loaded = load("print 1; print x; print 2;");
    let mut machine = loaded.interpreter;
    let mut event = Event::Resume;
    let failure = loop {
        event = match machine.interpret(event, 100) {
            Action::Parse { lexeme } => {
                let text: String = machine.text[lexeme.start..lexeme.end].iter().collect();
                Event::Number(text.parse::<f32>().unwrap().to_bits())
            }
            Action::Format { number } => {
                Event::Text(format!("{}", f32::from_bits(number)).chars().collect())
            }
            Action::Failed(error) => break error,
            _ => Event::Resume,
        };
    };
    assert_eq!(failure.kind, RuntimeErrorKind::UndefinedVariable);
    assert_eq!(failure.token.unwrap().line, 1);
    assert_eq!(machine.output.iter().collect::<String>(), "1\n");
    // A failed machine stays failed.
    assert!(matches!(machine.step(Event::Resume), Action::Failed(_)));
    assert!(matches!(machine.state, State::Failed(_)));
}

#[test]
fn corrupt_tables_are_reported() {
    // A body that names a statement that does not exist.
    let body = vec![5];
    let machine = Interpreter::new(Vec::new(), Program::new(), &body);
    assert_eq!(drive(machine), Err(RuntimeErrorKind::Corrupt));
    let (tokens, _) = scan("a;");
    let mut syntax = parse_tokens(tokens);
    syntax.program.lists.clear();
    let list = ListRef::new(0, 1);
    assert_eq!(syntax.program.item(list, 0), None);
}

#[test]
fn machine_asks_for_what_it_cannot_do() {
    let loaded = load("print 1 + 2;");
    let mut machine = loaded.interpreter;
    let one = 1.0f32.to_bits();
    let two = 2.0f32.to_bits();
    let three = 3.0f32.to_bits();
    let first = machine.interpret(Event::Resume, 100);
    assert!(matches!(first, Action::Parse { lexeme } if lexeme == Span { start: 6, end: 7 }));
    // An answer of the wrong kind has the question asked again.
    assert!(matches!(machine.step(Event::Truth(true)), Action::Parse { .. }));
    assert!(matches!(machine.step(Event::Resume), Action::Parse { .. }));
    let second = machine.interpret(Event::Number(one), 100);
    assert!(matches!(second, Action::Parse { lexeme } if lexeme == Span { start: 10, end: 11 }));
    let third = machine.interpret(Event::Number(two), 100);
    assert!(matches!(
        third,
        Action::Arithmetic { op: NumberOp::Add, left, right } if left == one && right == two
    ));
    let fourth = machine.interpret(Event::Number(three), 100);
    assert!(matches!(fourth, Action::Format { number } if number == three));
    let last = machine.interpret(Event::Text(vec!['3']), 100);
    assert!(matches!(last, Action::Finished));
    assert_eq!(machine.output, vec!['3', '\n']);
    assert!(matches!(machine.step(Event::Resume), Action::Finished));
}

#[test]
fn machine_asks_for_comparisons_and_negation() {
    let mut machine = load("print -1 < 2;").interpreter;
    let one = 1.0f32.to_bits();
    let minus_one = (-1.0f32).to_bits();
    let two = 2.0f32.to_bits();
    assert!(matches!(machine.interpret(Event::Resume, 100), Action::Parse { .. }));
    assert!(matches!(
        machine.interpret(Event::Number(one), 100),
        Action::Arithmetic { op: NumberOp::Negate, left, .. } if left == one
    ));
    assert!(matches!(machine.interpret(Event::Number(minus_one), 100), Action::Parse { .. }));
    assert!(matches!(
        machine.interpret(Event::Number(two), 100),
        Action::Compare { op: NumberOp::Less, left, right } if left == minus_one && right == two
    ));
    assert!(matches!(machine.interpret(Event::Truth(true), 100), Action::Finished));
    assert_eq!(machine.output.iter().collect::<String>(), "true\n");
}

#[test]
fn machine_budget_bounds_the_steps() {
    let mut machine = load("while (true) {}").interpreter;
    // With no budget one step is taken; the loop never ends by itself.
    assert!(matches!(machine.interpret(Event::Resume, 0), Action::Continue));
    assert!(matches!(machine.interpret(Event::Resume, 5_000), Action::Continue));
    assert!(matches!(machine.step(Event::Resume), Action::Continue));
}

#[test]
fn native_clock_is_asked_from_the_caller() {
    assert_eq!(printed("print clock();"), "1234\n");
    assert_eq!(printed("print clock;"), "<native fn>\n");
    assert_eq!(Clock {}.arity(), 0);
    assert_eq!(Clock {}.to_string(), "<native fn>");
}

#[test]
fn printing_of_values() {
    assert_eq!(printed("fun f() {} print f;"), "<loxFunction>\n");
    assert_eq!(printed("class A { m() {} } print A().m;"), "<loxFunction>\n");
    assert_eq!(printed("print 0.5; print 100; print 1.25;"), "0.5\n100\n1.25\n");
    assert_eq!(printed("var s = \"a\" + \"b\"; print s + s;"), "abab\n");
}

#[test]
fn scoping_shadowing_does_not_touch_outer_binding() {
    assert_eq!(
        printed("var a = \"outer\"; { var a = \"inner\"; print a; } print a;"),
        "inner\nouter\n"
    );
    assert_eq!(
        printed("var a = 1; { a = 2; var a = 3; a = 4; print a; } print a;"),
        "4\n2\n"
    );
}

#[test]
fn closures_share_their_scope() {
    assert_eq!(
        printed(
            "fun makeCounter() {
               var i = 0;
               fun count() { i = i + 1; print i; }
               return count;
             }
             var first = makeCounter();
             var second = makeCounter();
             first(); first(); second(); first();"
        ),
        "1\n2\n1\n3\n"
    );
    assert_eq!(
        printed(
            "fun pair() {
               var n = 0;
               fun up() { n = n + 1; }
               fun show() { print n; }
               up(); show(); up(); show();
             }
             pair();"
        ),
        "1\n2\n"
    );
}

#[test]
fn functions_return_nil_without_return() {
    assert_eq!(printed("fun f() {} print f();"), "nil\n");
    assert_eq!(printed("fun f() { return; } print f();"), "nil\n");
    assert_eq!(
        printed("fun f() { while (true) { { return 3; } } } print f();"),
        "3\n"
    );
}

#[test]
fn classes_initializer_runs_once_and_call_yields_instance() {
    assert_eq!(
        printed(
            "class A { init() { print \"init\"; this.x = 1; return; } }
             var a = A();
             print a;
             print a.x;"
        ),
        "init\n<loxInstance A>\n1\n"
    );
    // Calling `init` again by hand yields the instance as well.
    assert_eq!(
        printed("class A { init() { this.n = 1; } } var a = A(); print a.init();"),
        "<loxInstance A>\n"
    );
}

#[test]
fn classes_fields_and_methods() {
    assert_eq!(
        printed(
            "class P { init(x) { this.x = x; } get() { return this.x; } }
             var p = P(4); p.y = 5; print p.get() + p.y; p.x = 6; print p.get();"
        ),
        "9\n6\n"
    );
    // A field shadows a method of the same name.
    assert_eq!(
        printed("class A { m() { return 1; } } var a = A(); a.m = 2; print a.m;"),
        "2\n"
    );
    // A bound method remembers its instance.
    assert_eq!(
        printed(
            "class A { init(n) { this.n = n; } get() { return this.n; } }
             var m = A(7).get; print m();"
        ),
        "7\n"
    );
}

#[test]
fn classes_inheritance_and_super() {
    assert_eq!(
        printed(
            "class A { name() { return \"A\"; } who() { return this.name(); } }
             class B < A { name() { return \"B\"; } who() { return super.who() + \"!\"; } }
             print B().who(); print A().who();"
        ),
        "B!\nA\n"
    );
    assert_eq!(
        printed(
            "class A { init() { this.x = 1; } }
             class B < A {}
             print B().x;"
        ),
        "1\n"
    );
    assert_eq!(
        run("class A {} class B < A { m() { return super.m(); } } B().m();"),
        Err(RuntimeErrorKind::UndefinedProperty)
    );
}

#[test]
fn classes_can_refer_to_themselves() {
    assert_eq!(
        printed("class A { make() { return A(); } } print A().make();"),
        "<loxInstance A>\n"
    );
}

#[test]
fn rerunning_a_source_prints_the_same() {
    let source = "var a = 0; while (a < 3) { a = a + 1; print a * a; } print \"done\";";
    let first = printed(source);
    let second = printed(source);
    assert_eq!(first, "1\n4\n9\ndone\n");
    assert_eq!(first, second);
}

#[test]
fn while_and_break() {
    assert_eq!(
        printed("var i = 0; while (true) { i = i + 1; if (i > 3) break; } print i;"),
        "4\n"
    );
    assert_eq!(
        printed(
            "for (var i = 0; i < 3; i = i + 1) {
               for (var j = 0; j < 3; j = j + 1) { if (j == 1) break; print i * 10 + j; }
             }"
        ),
        "0\n10\n20\n"
    );
}

#[test]
fn environment_define_get_assign() {
    let text: Vec<char> = "ab a".chars().collect();
    let a = Span::new(0, 1);
    let b = Span::new(1, 2);
    let a_again = Span::new(3, 4);
    let mut scopes = Environment::new();
    let outer = scopes.new_with_enclosing(None);
    let inner = scopes.new_with_enclosing(Some(outer));
    assert_eq!((outer, inner), (0, 1));
    scopes.define(&text, outer, a, LoxObject::Number(1));
    assert!(matches!(scopes.get(&text, inner, a_again), Some(LoxObject::Number(1))));
    assert!(scopes.get(&text, inner, b).is_none());
    assert_eq!(scopes.depth_of(&text, inner, &a), Some(1));
    assert_eq!(scopes.depth_of(&text, inner, &b), None);
    // Assignment goes to the nearest scope that binds the name.
    assert!(scopes.assign(&text, inner, a, LoxObject::Number(2)));
    assert!(matches!(scopes.get(&text, outer, a), Some(LoxObject::Number(2))));
    assert!(!scopes.assign(&text, inner, b, LoxObject::Nil));
    // A definition in the inner scope shadows and leaves the outer alone.
    scopes.define(&text, inner, a, LoxObject::Number(3));
    assert!(matches!(scopes.get(&text, inner, a), Some(LoxObject::Number(3))));
    assert!(matches!(scopes.get(&text, outer, a), Some(LoxObject::Number(2))));
    assert_eq!(scopes.depth_of(&text, inner, &a), Some(0));
    // Defining again in the same scope overwrites.
    scopes.define(&text, inner, a, LoxObject::Number(4));
    assert_eq!(scopes.bindings.len(), 2);
    assert!(matches!(scopes.get_at(&text, inner, 0, a), Some(LoxObject::Number(4))));
    assert!(matches!(scopes.get_at(&text, inner, 1, a), Some(LoxObject::Number(2))));
    assert!(matches!(scopes.get_at(&text, inner, 1, b), Some(LoxObject::Nil)));
    assert!(scopes.get_at(&text, inner, 2, a).is_none());
    assert!(scopes.assign_at(&text, inner, 1, b, LoxObject::Bool(true)));
    assert!(matches!(scopes.get(&text, outer, b), Some(LoxObject::Bool(true))));
    assert!(!scopes.assign_at(&text, inner, 5, b, LoxObject::Nil));
    assert_eq!(scopes.ancestor(inner, 1), Some(outer));
    assert_eq!(scopes.enclosing(outer), None);
    assert_eq!(scopes.lookup_here(&text, outer, &b), Some(2));
    assert_eq!(scopes.bindings[2].scope, outer);
}

#[test]
fn logger_formats_reports() {
    assert_eq!(error(3, "Unexpected character."), "[line 3] Error: Unexpected character.");
    assert_eq!(error(0, ""), "[line 0] Error: ");
    assert_eq!(error(1234567890, "x"), "[line 1234567890] Error: x");
    let source: Vec<char> = "var x".chars().collect();
    let name = Token::new(TokenType::Identifier, Span::new(4, 5), 7);
    assert_eq!(error_token(name, &source, "Bad name."), "[line 7] Error at 'x': Bad name.");
    let end = Token::new(TokenType::Eof, Span::new(5, 5), 9);
    assert_eq!(error_token(end, &source, "Expect ';'."), "[line 9] Error  at end: Expect ';'.");
}

#[test]
fn values_truthiness() {
    assert!(!LoxObject::Nil.is_truthy());
    assert!(!LoxObject::Bool(false).is_truthy());
    assert!(LoxObject::Bool(true).is_truthy());
    assert!(LoxObject::Number(0).is_truthy());
    assert!(LoxObject::String(Span::new(0, 0)).is_truthy());
    assert!(LoxObject::Native(Clock {}).is_truthy());
}

#[test]
fn functions_bind_and_arity() {
    let source = "fun f(a, b) { return this; } 1;";
    let (tokens, _) = scan(source);
    let syntax = parse_tokens(tokens);
    let text: Vec<char> = "this".chars().collect();
    let this = Span::new(0, 4);
    let mut scopes = Environment::new();
    let closure = scopes.new_with_enclosing(None);
    let function = LoxFunction::new(syntax.body[0], closure, false);
    assert_eq!(function.arity(&syntax.program), Some(2));
    // A statement that declares no function has no arity.
    assert_eq!(LoxFunction::new(syntax.body[1], closure, false).arity(&syntax.program), None);
    let first = function.bind(&mut scopes, &text, this, 7);
    let second = function.bind(&mut scopes, &text, this, 7);
    // Each binding closes over a scope of its own inside the closure.
    assert_eq!((first.closure, second.closure), (1, 2));
    assert_eq!(first.declaration, function.declaration);
    assert_eq!(scopes.enclosing(first.closure), Some(closure));
    assert!(matches!(scopes.get(&text, first.closure, this), Some(LoxObject::Instance(7))));
    assert!(scopes.get(&text, closure, this).is_none());
}

#[test]
fn instances_get_and_set() {
    let text: Vec<char> = "this x m".chars().collect();
    let this = Span::new(0, 4);
    let x = Span::new(5, 6);
    let m = Span::new(7, 8);
    let mut scopes = Environment::new();
    let globals = scopes.new_with_enclosing(None);
    let methods = scopes.new_with_enclosing(None);
    let method = LoxFunction::new(0, globals, false);
    scopes.define(&text, methods, m, LoxObject::Callable(method));
    let classes = vec![LoxClass::new(x, None, methods)];
    let fields = scopes.new_with_enclosing(None);
    let instance = LoxInstance::new(0, fields);
    assert!(instance.get(0, &classes, &mut scopes, &text, this, &x).is_none());
    instance.set(&mut scopes, &text, x, LoxObject::Bool(true));
    assert!(matches!(
        instance.get(0, &classes, &mut scopes, &text, this, &x),
        Some(LoxObject::Bool(true))
    ));
    // A method comes back bound to the instance.
    match instance.get(0, &classes, &mut scopes, &text, this, &m) {
        Some(LoxObject::Callable(bound)) => {
            assert!(matches!(scopes.get(&text, bound.closure, this), Some(LoxObject::Instance(0))));
        }
        other => panic!("{:?}", other),
    }
    // Methods are found through the superclass chain, nearest first.
    let own = scopes.new_with_enclosing(None);
    let classes = vec![classes[0], LoxClass::new(m, Some(0), own)];
    assert!(LoxClass::find_methods(&classes, &scopes, &text, 1, &m).is_some());
    scopes.define(&text, own, m, LoxObject::Callable(LoxFunction::new(9, globals, false)));
    assert_eq!(LoxClass::find_methods(&classes, &scopes, &text, 1, &m).unwrap().declaration, 9);
    assert_eq!(LoxClass::find_methods(&classes, &scopes, &text, 0, &m).unwrap().declaration, 0);
    assert!(LoxClass::find_methods(&classes, &scopes, &text, 1, &x).is_none());
    assert!(LoxClass::find_methods(&classes, &scopes, &text, 5, &m).is_none());
}

#[test]
fn program_tables_grow_by_pushes() {
    let mut program = Program::new();
    let paren = Token::new(TokenType::RightParen, Span::new(0, 1), 1);
    let callee = program.push_expr(Expr::Grouping(GroupingExpr::new(0)));
    let call = program.push_call(callee, paren, &vec![callee, callee]);
    assert_eq!(call, 1);
    assert_eq!(program.lists, vec![0, 0]);
    match program.expr(call) {
        Some(Expr::Call(node)) => {
            assert_eq!((node.arguments.start, node.arguments.len), (0, 2));
            assert_eq!(program.item(node.arguments, 1), Some(0));
            assert_eq!(program.item(node.arguments, 2), None);
        }
        other => panic!("{:?}", other),
    }
    let statement = program.push_stmt(Stmt::Expression(ExpressionStmt::new(call)));
    let block = program.push_block(&vec![statement]);
    assert!(matches!(program.stmt(block), Some(Stmt::Block(_))));
    let params = program.push_params(&vec![paren]);
    assert_eq!(program.param(params, 0), Some(paren));
    assert_eq!(program.param(params, 1), None);
    let function = program.push_function(paren, params, &vec![block]);
    let class = program.push_class(paren, None, &vec![function]);
    assert!(matches!(program.stmt(class), Some(Stmt::Class(_))));
    assert!(program.stmt(class + 1).is_none());
    assert!(program.expr(9).is_none());
}

#[test]
fn interpreter_output_and_resolution_table() {
    let mut machine = load("print \"hi\"; var a; a;").interpreter;
    while !matches!(machine.step(Event::Resume), Action::Finished) {}
    assert_eq!(machine.output(), "hi\n");
    let count = machine.locals.len();
    machine.resolve(0, 3);
    assert_eq!(machine.locals[0], Some(3));
    // An expression that does not exist is passed over.
    machine.resolve(count + 5, 1);
    assert_eq!(machine.locals.len(), count);
}

#[test]
fn constructor_yields_instance_whatever_init_returns() {
    assert_eq!(
        printed(
            "class A { init() { if (true) return; print \"unreached\"; } }
             print A();"
        ),
        "<loxInstance A>\n"
    );
    // Without the resolver's check a value returned from `init` is dropped as well.
    assert_eq!(
        run_unresolved("class A { init() { return 1; } } print A();").unwrap(),
        "<loxInstance A>\n"
    );
}

#[test]
fn tokens_lie_inside_the_source() {
    let source = "var a = \"x\ny\"; // end\nprint a + 12.5;\n@";
    let (tokens, _) = scan(source);
    let length = source.chars().count();
    let mut last = 0;
    for token in &tokens {
        assert!(token.lexeme.start <= token.lexeme.end);
        assert!(token.lexeme.end <= length);
        assert!(last <= token.lexeme.start);
        last = token.lexeme.end;
    }
    assert_eq!(tokens.last().unwrap().token_type, TokenType::Eof);
}

#[test]
fn parsed_tables_are_a_tree() {
    let source = "class A < B { m(a, b) { return f(a, b.c).d = -a or !b; } }
                  for (var i = 0; i < 3; i = i + 1) { if (i) print i; else { while (false) break; } }";
    let (tokens, _) = scan(source);
    let syntax = parse_tokens(tokens);
    assert!(syntax.errors.is_empty());
    let program = &syntax.program;
    for (id, expr) in program.exprs.iter().enumerate() {
        let operands: Vec<usize> = match *expr {
            Expr::Grouping(node) => vec![node.expression],
            Expr::Unary(node) => vec![node.right],
            Expr::Binary(node) => vec![node.left, node.right],
            Expr::Logical(node) => vec![node.left, node.right],
            Expr::Assign(node) => vec![node.value],
            Expr::Get(node) => vec![node.object],
            Expr::SetProperty(node) => vec![node.object, node.value],
            Expr::Call(node) => {
                let mut all = vec![node.callee];
                for index in 0..node.arguments.len {
                    all.push(program.item(node.arguments, index).unwrap());
                }
                all
            }
            _ => vec![],
        };
        assert!(operands.iter().all(|operand| *operand < id));
    }
    for (id, stmt) in program.stmts.iter().enumerate() {
        let (parts, list) = match *stmt {
            Stmt::If(node) => {
                let mut parts = vec![node.then_branch];
                parts.extend(node.else_branch);
                (parts, None)
            }
            Stmt::While(node) => (vec![node.body], None),
            Stmt::Block(node) => (vec![], Some(node.statements)),
            Stmt::Fun(node) => (vec![], Some(node.body)),
            Stmt::Class(node) => (vec![], Some(node.methods)),
            _ => (vec![], None),
        };
        assert!(parts.iter().all(|part| *part < id));
        if let Some(list) = list {
            for index in 0..list.len {
                assert!(program.item(list, index).unwrap() < id);
            }
        }
    }
    assert!(syntax.body.iter().all(|statement| *statement < program.stmts.len()));
    assert!(resolve_failure(source).is_none());
}

#[test]
fn if_statements_with_and_without_else() {
    assert_eq!(printed("if (nil) print 1; print 2;"), "2\n");
    assert_eq!(printed("if (1) if (nil) print 1; else print 2;"), "2\n");
    assert_eq!(first_parse_error("if (true) print 1; else"), ParseError::InvalidPrimary);
}

#[test]
fn recorded_distance_without_such_scope_falls_back_to_names() {
    let mut machine = load("var a = 1; a = 2; print a;").interpreter;
    for id in 0..machine.locals.len() {
        if machine.locals[id].is_some() {
            machine.resolve(id, 99);
        }
    }
    assert_eq!(drive(machine).unwrap(), "2\n");
}

#[test]
fn loaded_programs_never_report_inconsistency() {
    let sources = [
        "class A { init(n) { this.n = n; } twice() { return this.n + this.n; } }
         class B < A { twice() { return super.twice() + 1; } }
         var all = 0;
         for (var i = 0; i < 5; i = i + 1) { all = all + B(i).twice(); }
         print all;",
        "fun f(n) { while (true) { if (n > 3) return n; n = n + 1; } }
         print f(0) + f(10);",
        "print undefined_name;",
        "var f = 1; f();",
    ];
    for source in sources {
        match run(source) {
            Err(kind) => assert_ne!(kind, RuntimeErrorKind::Corrupt),
            Ok(_) => {}
        }
    }
    assert_eq!(run(sources[0]).unwrap(), "25\n");
    assert_eq!(run(sources[1]).unwrap(), "14\n");
}
