use six::ast::{Expr, Stmt};
use six::lexer::{Keyword, Lexer, Token, TokenData};
use six::parser::{has_main_block, ParseError, ParseErrorKind, Parser};

fn tokens_without_eof(src: &str) -> Vec<TokenData> {
    let mut lexer = Lexer::new(src);
    let mut tokens = Vec::new();
    loop {
        let data = lexer.next_token();
        if data.token == Token::EOF {
            break;
        }
        tokens.push(data);
    }
    tokens
}

fn parse(src: &str) -> Result<Vec<Stmt>, ParseError> {
    let mut parser = Parser::new(tokens_without_eof(src), src.to_string());
    parser.parse()
}

fn parse_ok(src: &str) -> String {
    match parse(src) {
        Ok(stmts) => format!("{:?}", stmts),
        Err(e) => panic!("unexpected parse error {:?}", e),
    }
}

fn parse_err(src: &str) -> ParseError {
    match parse(src) {
        Ok(stmts) => panic!("unexpected success {:?}", stmts),
        Err(e) => e,
    }
}

#[test]
fn minimal_program() {
    assert_eq!(
        parse_ok("six Demo\n    fn main()\n        put 1 + 2\n    end\nend\n"),
        "[Six(\"Demo\", [FnDecl(\"main\", [], [Put(BinaryOp(Number(\"1\"), \"+\", Number(\"2\")))])])]"
    );
}

#[test]
fn tokens_with_eof_parse_the_same() {
    let src = "six Demo\n fn main()\n put 7\n end\nend";
    let mut lexer = Lexer::new(src);
    let mut parser = Parser::new(lexer.tokenize(), src.to_string());
    let with_eof = format!("{:?}", parser.parse().unwrap());
    assert_eq!(with_eof, parse_ok(src));
}

#[test]
fn readme_example_parses() {
    let src = "six MyProject\n    fn main()\n        try\n            v x: i32 = 500\n            v p = &x\n            *p = 999999\n            put *p\n        end\n    end\nend\n";
    assert_eq!(
        parse_ok(src),
        "[Six(\"MyProject\", [FnDecl(\"main\", [], [Try([VarDecl(\"x\", Some(\"i32\"), Number(\"500\")), VarDecl(\"p\", None, Addr(\"x\")), DerefAssignment(Variable(\"p\"), Number(\"999999\")), Put(Deref(Variable(\"p\")))])])])]"
    );
}

#[test]
fn binary_operators_associate_to_the_left() {
    assert_eq!(
        parse_ok("six D\n fn main()\n put 1 - 2 * 3\n end\nend"),
        "[Six(\"D\", [FnDecl(\"main\", [], [Put(BinaryOp(BinaryOp(Number(\"1\"), \"-\", Number(\"2\")), \"*\", Number(\"3\")))])])]"
    );
}

#[test]
fn casts_calls_and_parentheses() {
    assert_eq!(
        parse_ok("six D\n fn main()\n put (f(1, x) as u8)\n end\nend"),
        "[Six(\"D\", [FnDecl(\"main\", [], [Put(Cast(Call(\"f\", [Number(\"1\"), Variable(\"x\")]), \"u8\"))])])]"
    );
}

#[test]
fn functions_with_typed_parameters() {
    assert_eq!(
        parse_ok("six D\n fn add(a: i32, b)\n ret a + b\n end\n fn main()\n add(1, 2)\n end\nend"),
        "[Six(\"D\", [FnDecl(\"add\", [\"a\", \"b\"], [Return(BinaryOp(Variable(\"a\"), \"+\", Variable(\"b\")))]), FnDecl(\"main\", [], [Expression(Call(\"add\", [Number(\"1\"), Number(\"2\")]))])])]"
    );
}

#[test]
fn assignment_if_else_and_for() {
    let src = "six D\n fn main()\n v x = 0\n x = 5\n if x put x else put 0 end\n for i = 0 .. 3\n put i\n end\n end\nend";
    assert_eq!(
        parse_ok(src),
        "[Six(\"D\", [FnDecl(\"main\", [], [VarDecl(\"x\", None, Number(\"0\")), Assignment(\"x\", Number(\"5\")), If(Variable(\"x\"), [Put(Variable(\"x\"))], Some([Put(Number(\"0\"))])), For(\"i\", Number(\"0\"), Number(\"3\"), [Put(Variable(\"i\"))])])])]"
    );
}

#[test]
fn use_get_leak_report_and_directives() {
    let src = "six D\n use \"io\"\n fn main()\n get name\n leak\n report\n #unroll\n #const K = 4\n end\nend";
    assert_eq!(
        parse_ok(src),
        "[Six(\"D\", [Use(\"io\"), FnDecl(\"main\", [], [Get(\"name\"), Leak, Report, Directive(\"unroll\", []), Directive(\"const\", [Variable(\"K\"), Number(\"4\")])])])]"
    );
}

#[test]
fn if_without_else_across_lines() {
    assert_eq!(
        parse_ok("six D\n fn main()\n if x\n put x\n end\n end\nend"),
        "[Six(\"D\", [FnDecl(\"main\", [], [If(Variable(\"x\"), [Put(Variable(\"x\"))], None)])])]"
    );
}

#[test]
fn else_on_its_own_line_is_an_unexpected_token() {
    let e = parse_err("six D\n fn main()\n if x\n put x\n else\n put 0\n end\n end\nend");
    assert!(matches!(e.kind, ParseErrorKind::UnexpectedToken));
    assert_eq!((e.line, e.col), (5, 2));
}

#[test]
fn deref_assignment_with_at() {
    assert_eq!(
        parse_ok("six D\n fn main()\n @p = 1\n end\nend"),
        "[Six(\"D\", [FnDecl(\"main\", [], [DerefAssignment(Variable(\"p\"), Number(\"1\"))])])]"
    );
}

#[test]
fn missing_main_is_refused() {
    let e = parse_err("six D\n fn helper()\n put 1\n end\nend");
    assert!(matches!(e.kind, ParseErrorKind::MissingMain));
}

#[test]
fn main_in_a_nested_block_does_not_count() {
    let e = parse_err("six D\n six Inner\n fn main()\n end\n end\nend");
    assert!(matches!(e.kind, ParseErrorKind::MissingMain));
}

#[test]
fn program_must_start_with_six() {
    let e = parse_err("\n\nput 1");
    assert!(matches!(e.kind, ParseErrorKind::MissingSixHeader));
    assert_eq!((e.line, e.col), (3, 1));
}

#[test]
fn project_name_required() {
    let e = parse_err("six 5\nend");
    assert!(matches!(e.kind, ParseErrorKind::ExpectedProjectName));
    assert_eq!((e.line, e.col), (1, 5));
}

#[test]
fn variable_declaration_errors() {
    let e = parse_err("six D\n fn main()\n v 5 = 1\n end\nend");
    assert!(matches!(e.kind, ParseErrorKind::ExpectedIdentifierAfterV));
    assert_eq!((e.line, e.col), (3, 4));
    let e = parse_err("six D\n fn main()\n v x: 5 = 1\n end\nend");
    assert!(matches!(e.kind, ParseErrorKind::ExpectedTypeName));
    let e = parse_err("six D\n fn main()\n v x 1\n end\nend");
    match e.kind {
        ParseErrorKind::ExpectedOperator(op) => assert_eq!(op, "="),
        other => panic!("wrong error {:?}", other),
    }
}

#[test]
fn function_declaration_errors() {
    let e = parse_err("six D\n fn 1()\n end\nend");
    assert!(matches!(e.kind, ParseErrorKind::ExpectedFunctionName));
    let e = parse_err("six D\n fn f(1)\n end\nend");
    assert!(matches!(e.kind, ParseErrorKind::ExpectedParameterName));
}

#[test]
fn loop_and_statement_errors() {
    let e = parse_err("six D\n fn main()\n for 1 = 0 .. 2\n end\n end\nend");
    assert!(matches!(e.kind, ParseErrorKind::ExpectedLoopVariable));
    let e = parse_err("six D\n use name\nend");
    assert!(matches!(e.kind, ParseErrorKind::ExpectedStringAfterUse));
    let e = parse_err("six D\n fn main()\n get 1\n end\nend");
    assert!(matches!(e.kind, ParseErrorKind::ExpectedIdentifierAfterGet));
    let e = parse_err("six D\n fn main()\n #5\n end\nend");
    assert!(matches!(e.kind, ParseErrorKind::ExpectedIdentifierAfterHash));
}

#[test]
fn expression_errors() {
    let e = parse_err("six D\n fn main()\n put x as 1\n end\nend");
    assert!(matches!(e.kind, ParseErrorKind::ExpectedTypeAfterAs));
    let e = parse_err("six D\n fn main()\n put 1 + &5\n end\nend");
    assert!(matches!(e.kind, ParseErrorKind::ExpectedIdentifierAfterAmp));
    let e = parse_err("six D\n fn main()\n put )\n end\nend");
    assert!(matches!(e.kind, ParseErrorKind::UnexpectedToken));
    assert_eq!((e.line, e.col), (3, 6));
}

#[test]
fn missing_closers() {
    let e = parse_err("six D\n fn main()\n put (1\n end\nend");
    match e.kind {
        ParseErrorKind::ExpectedToken(t) => assert_eq!(t, Token::RParen),
        other => panic!("wrong error {:?}", other),
    }
    let e = parse_err("six D\n fn main()\n put 1\n end\n");
    match e.kind {
        ParseErrorKind::ExpectedKeyword(k) => assert_eq!(k, Keyword::End),
        other => panic!("wrong error {:?}", other),
    }
    assert_eq!((e.line, e.col), (0, 0));
}

#[test]
fn has_main_block_inspects_top_level_blocks() {
    let with_main = vec![Stmt::Six(
        "D".to_string(),
        vec![Stmt::FnDecl("main".to_string(), vec![], vec![])],
    )];
    assert!(has_main_block(&with_main));
    let without = vec![Stmt::Six(
        "D".to_string(),
        vec![Stmt::Put(Expr::Number("1".to_string()))],
    )];
    assert!(!has_main_block(&without));
    assert!(!has_main_block(&vec![]));
}

#[test]
fn parser_keeps_its_source() {
    let parser = Parser::new(vec![], "six X".to_string());
    assert_eq!(parser.source(), "six X");
}

#[test]
fn tokens_after_the_end_of_input_are_never_read() {
    let src = "six Demo\n fn main()\n put 7\n end\nend";
    let mut tokens = tokens_without_eof(src);
    let plain = format!("{:?}", Parser::new(tokens_without_eof(src), src.to_string()).parse());
    tokens.push(TokenData { token: Token::EOF, line: 9, col: 9 });
    tokens.extend(tokens_without_eof("put )\n junk"));
    let padded = format!("{:?}", Parser::new(tokens, src.to_string()).parse());
    assert_eq!(plain, padded);
    let bad = "six D\n fn main()\n put (1\n end\n";
    let mut tokens = tokens_without_eof(bad);
    let plain = format!("{:?}", Parser::new(tokens_without_eof(bad), bad.to_string()).parse());
    tokens.push(TokenData { token: Token::EOF, line: 9, col: 9 });
    tokens.extend(tokens_without_eof("end end"));
    let padded = format!("{:?}", Parser::new(tokens, bad.to_string()).parse());
    assert_eq!(plain, padded);
}

#[test]
fn parse_error_messages() {
    assert_eq!(
        ParseErrorKind::MissingSixHeader.message(),
        "Every .six project must start with 'six <name>'"
    );
    assert_eq!(ParseErrorKind::ExpectedToken(Token::RParen).message(), "Expected RParen");
    assert_eq!(ParseErrorKind::ExpectedKeyword(Keyword::End).message(), "Expected End");
    assert_eq!(
        ParseErrorKind::ExpectedOperator("=".to_string()).message(),
        "Expected operator '='"
    );
    assert_eq!(
        ParseErrorKind::MissingMain.message(),
        "Missing 'fn main()' in the root 'six' block."
    );
    assert_eq!(
        ParseErrorKind::ExpectedToken(Token::Keyword(Keyword::As)).message(),
        format!("Expected {:?}", Token::Keyword(Keyword::As))
    );
    assert_eq!(
        ParseErrorKind::ExpectedToken(Token::Identifier("x".to_string())).message(),
        format!("Expected {:?}", Token::Identifier("x".to_string()))
    );
    assert_eq!(
        ParseErrorKind::ExpectedToken(Token::Unknown('$')).message(),
        format!("Expected {:?}", Token::Unknown('$'))
    );
}
