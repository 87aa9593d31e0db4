use six::ast::{Expr, Stmt};
use six::compiler::{Compiler, OpCode};
use six::lexer::{Lexer, Token};
use six::parser::Parser;

fn parse(src: &str) -> Vec<Stmt> {
    let mut lexer = Lexer::new(src);
    let mut tokens = Vec::new();
    loop {
        let data = lexer.next_token();
        if data.token == Token::EOF {
            break;
        }
        tokens.push(data);
    }
    let mut parser = Parser::new(tokens, src.to_string());
    parser.parse().expect("program should parse")
}

fn compile(src: &str) -> Vec<String> {
    let mut compiler = Compiler::new();
    compiler
        .compile(parse(src))
        .iter()
        .map(|op| format!("{:?}", op))
        .collect()
}

fn num(n: &str) -> Expr {
    Expr::Number(n.to_string())
}

#[test]
fn straight_line_code() {
    assert_eq!(
        compile("six D\n fn main()\n v x = 2\n put x * 3\n end\nend"),
        vec![
            "PushInt(\"2\")",
            "Store(\"x\")",
            "Load(\"x\")",
            "PushInt(\"3\")",
            "Mul",
            "Put",
            "Ret",
            "Halt",
        ]
    );
}

#[test]
fn for_loop_jumps() {
    assert_eq!(
        compile("six D\n fn main()\n for i = 0 .. 3\n put i\n end\n end\nend"),
        vec![
            "PushInt(\"0\")",
            "Store(\"i\")",
            "Load(\"i\")",
            "PushInt(\"3\")",
            "Sub",
            "JumpIfFalse(13)",
            "Load(\"i\")",
            "Put",
            "Load(\"i\")",
            "PushInt(\"1\")",
            "Add",
            "Store(\"i\")",
            "Jump(2)",
            "Ret",
            "Halt",
        ]
    );
}

#[test]
fn try_blocks_open_and_close_an_arena() {
    assert_eq!(
        compile("six D\n fn main()\n try\n v p = &x\n *p = 9\n put *p\n end\n end\nend"),
        vec![
            "EnterTry",
            "ArenaStart",
            "Addr(\"x\")",
            "Store(\"p\")",
            "PushInt(\"9\")",
            "Load(\"p\")",
            "StoreDeref",
            "Load(\"p\")",
            "Deref",
            "Put",
            "ArenaEnd",
            "ExitTry",
            "Ret",
            "Halt",
        ]
    );
}

#[test]
fn parameters_calls_and_operators() {
    assert_eq!(
        compile("six D\n fn f(a, b)\n ret a ^ b | 1 / 2 - 3 + 4\n end\n fn main()\n f(1, 2)\n end\nend"),
        vec![
            "Store(\"a\")",
            "Store(\"b\")",
            "Load(\"a\")",
            "Load(\"b\")",
            "Xor",
            "PushInt(\"1\")",
            "Or",
            "PushInt(\"2\")",
            "Div",
            "PushInt(\"3\")",
            "Sub",
            "PushInt(\"4\")",
            "Add",
            "Ret",
            "Ret",
            "PushInt(\"1\")",
            "PushInt(\"2\")",
            "Call(\"f\", 2)",
            "Ret",
            "Halt",
        ]
    );
}

#[test]
fn statements_without_code() {
    // Comparison operators, casts, `if`, `use`, `get`, directives, `leak` and
    // `report` produce no instructions of their own.
    assert_eq!(
        compile("six D\n use \"x\"\n fn main()\n get y\n leak\n report\n #unroll\n if 1 put 2 end\n put (5 as u8) < 6\n end\nend"),
        vec!["PushInt(\"5\")", "PushInt(\"6\")", "Put", "Ret", "Halt"]
    );
}

#[test]
fn strings_compile_to_push_str() {
    assert_eq!(
        compile("six D\n fn main()\n put \"hi\"\n end\nend"),
        vec!["PushStr(\"hi\")", "Put", "Ret", "Halt"]
    );
}

#[test]
fn compiling_twice_appends() {
    let mut compiler = Compiler::new();
    let first = compiler.compile(vec![Stmt::Put(num("1"))]);
    assert_eq!(first.len(), 3);
    let second = compiler.compile(vec![Stmt::Put(num("2"))]);
    let shown: Vec<String> = second.iter().map(|op| format!("{:?}", op)).collect();
    assert_eq!(
        shown,
        vec!["PushInt(\"1\")", "Put", "Halt", "PushInt(\"2\")", "Put", "Halt"]
    );
}

#[test]
fn debug_map_records_statement_starts() {
    let mut compiler = Compiler::new();
    let program = vec![
        Stmt::VarDecl("a".to_string(), None, num("1")),
        Stmt::Leak,
        Stmt::Put(Expr::Variable("a".to_string())),
    ];
    let (code, map) = compiler.compile_with_debug(program, "demo.six");
    assert_eq!(code.len(), 5);
    assert_eq!(map.file, "demo.six");
    assert_eq!(map.lines.len(), 2);
    assert_eq!(map.lines.get(&0), Some(&1));
    // The second statement has no code, so the third starts at the same
    // index and replaces its entry.
    assert_eq!(map.lines.get(&2), Some(&3));
    assert!(map.symbols.is_empty());
}

#[test]
fn interface_lists_top_level_functions() {
    let program = parse("six L\n fn add(a, b)\n ret a + b\n end\n fn main()\n end\nend");
    assert_eq!(
        Compiler::generate_interface(&program),
        "// .six Interface Header\n#ifndef SIX_INTERFACE_H\n#define SIX_INTERFACE_H\n\nvoid add(BigInt arg0, BigInt arg1);\nvoid main();\n\n#endif\n"
    );
}

#[test]
fn interface_of_nothing() {
    assert_eq!(
        Compiler::generate_interface(&vec![]),
        "// .six Interface Header\n#ifndef SIX_INTERFACE_H\n#define SIX_INTERFACE_H\n\n\n#endif\n"
    );
}

#[test]
fn obfuscation_renames_in_order() {
    let mut program =
        parse("six L\n fn helper(a)\n v t = a\n ret t\n end\n fn main()\n v x = 1\n x = helper(x)\n for i = 0 .. x\n put &i\n end\n end\nend");
    Compiler::obfuscate_symbols(&mut program);
    assert_eq!(
        format!("{:?}", program),
        "[Six(\"L\", [FnDecl(\"f1\", [\"p2\"], [VarDecl(\"s3\", None, Variable(\"p2\")), Return(Variable(\"s3\"))]), FnDecl(\"main\", [], [VarDecl(\"s4\", None, Number(\"1\")), Assignment(\"s4\", Call(\"f1\", [Variable(\"s4\")])), For(\"i5\", Number(\"0\"), Variable(\"s4\"), [Put(Addr(\"i5\"))])])])]"
    );
}

#[test]
fn obfuscation_leaves_unknown_names() {
    let mut program = vec![Stmt::Put(Expr::Variable("free".to_string()))];
    Compiler::obfuscate_symbols(&mut program);
    assert_eq!(format!("{:?}", program), "[Put(Variable(\"free\"))]");
}

#[test]
fn obfuscated_library_compiles() {
    let mut program = parse("six L\n fn sq(n)\n ret n * n\n end\n fn main()\n end\nend");
    Compiler::obfuscate_symbols(&mut program);
    let header = Compiler::generate_interface(&program);
    assert!(header.contains("void f1(BigInt arg0);\n"));
    assert!(header.contains("void main();\n"));
    let mut compiler = Compiler::new();
    let code: Vec<String> = compiler
        .compile(program)
        .iter()
        .map(|op| format!("{:?}", op))
        .collect();
    assert_eq!(
        code,
        vec![
            "Store(\"p2\")",
            "Load(\"p2\")",
            "Load(\"p2\")",
            "Mul",
            "Ret",
            "Ret",
            "Ret",
            "Halt",
        ]
    );
}

#[test]
fn opcode_duplicate_is_equal() {
    let op = OpCode::Call("f".to_string(), 3);
    assert_eq!(format!("{:?}", op.duplicate()), "Call(\"f\", 3)");
}

#[test]
fn nested_loop_jumps_stay_inside_the_code() {
    let mut compiler = Compiler::new();
    let code = compiler.compile(parse(
        "six D\n fn main()\n for i = 0 .. 2\n for j = 0 .. 2\n put i * j\n end\n try\n v k = i\n end\n end\n end\nend",
    ));
    let mut jumps = 0;
    for op in &code {
        match op {
            OpCode::Jump(t) | OpCode::JumpIfFalse(t) => {
                jumps += 1;
                assert!(*t <= code.len());
            }
            _ => {}
        }
    }
    assert_eq!(jumps, 4);
    assert!(matches!(code[code.len() - 1], OpCode::Halt));
}

#[test]
fn obfuscation_renames_every_use_in_the_readme_example() {
    let mut program = parse("six MyProject\n    fn main()\n        try\n            v x: i32 = 500\n            v p = &x\n            *p = 999999\n            put *p\n        end\n    end\nend\n");
    Compiler::obfuscate_symbols(&mut program);
    assert_eq!(
        format!("{:?}", program),
        "[Six(\"MyProject\", [FnDecl(\"main\", [], [Try([VarDecl(\"s1\", Some(\"i32\"), Number(\"500\")), VarDecl(\"s2\", None, Addr(\"s1\")), DerefAssignment(Variable(\"s2\"), Number(\"999999\")), Put(Deref(Variable(\"s2\")))])])])]"
    );
}

#[test]
fn obfuscation_renames_uses_before_declarations() {
    let mut program = parse(
        "six L\n fn main()\n helper(1)\n get y\n #const K = y\n end\n fn helper(a)\n v y = a\n end\nend",
    );
    Compiler::obfuscate_symbols(&mut program);
    assert_eq!(
        format!("{:?}", program),
        "[Six(\"L\", [FnDecl(\"main\", [], [Expression(Call(\"f1\", [Number(\"1\")])), Get(\"s3\"), Directive(\"const\", [Variable(\"K\"), Variable(\"s3\")])]), FnDecl(\"f1\", [\"p2\"], [VarDecl(\"s3\", None, Variable(\"p2\"))])])]"
    );
}

#[test]
fn obfuscating_twice_changes_nothing_more() {
    let src = "six L\n fn main()\n helper(s1)\n v s2 = 3\n end\n fn helper(a)\n v y = a\n for i = 0 .. y\n put i\n end\n end\nend";
    let mut once = parse(src);
    Compiler::obfuscate_symbols(&mut once);
    let mut twice = parse(src);
    Compiler::obfuscate_symbols(&mut twice);
    Compiler::obfuscate_symbols(&mut twice);
    assert_eq!(format!("{:?}", once), format!("{:?}", twice));
}
