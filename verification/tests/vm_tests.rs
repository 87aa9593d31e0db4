use num_bigint::BigInt;
use six::compiler::{Compiler, OpCode};
use six::lexer::Lexer;
use six::num::Num;
use six::parser::Parser;
use six::vm::{Action, RuntimeError, HEAP_SLOTS, VM};

struct Outcome {
    printed: Vec<String>,
    fault: Option<RuntimeError>,
    halted: bool,
    ip: usize,
}

fn show(n: &Num) -> String {
    BigInt::from_signed_bytes_le(&n.bytes).to_string()
}

fn run(code: &Vec<OpCode>) -> Outcome {
    let mut vm = VM::new();
    let mut printed = Vec::new();
    let mut halted = false;
    let mut fault = None;
    let mut fuel = 10_000;
    while vm.is_running(code) && fuel > 0 {
        fuel -= 1;
        assert!(!vm.step_would_panic(code), "missing operands");
        let r = vm.step(code);
        match r.action {
            Action::Print(n) => printed.push(show(&n)),
            Action::Halted => {
                halted = true;
                break;
            }
            Action::Fault(e) => {
                fault = Some(e);
                break;
            }
            _ => {}
        }
    }
    Outcome { printed, fault, halted, ip: vm.ip() }
}

fn push(n: &str) -> OpCode {
    OpCode::PushInt(n.to_string())
}

fn fault_of(code: Vec<OpCode>) -> String {
    format!("{:?}", run(&code).fault.expect("a fault"))
}

fn run_source(src: &str) -> Outcome {
    let mut lexer = Lexer::new(src);
    let mut parser = Parser::new(lexer.tokenize(), src.to_string());
    let program = parser.parse().expect("program should parse");
    let mut compiler = Compiler::new();
    let code = compiler.compile(program);
    run(&code)
}

#[test]
fn adds_and_prints() {
    let out = run(&vec![push("2"), push("3"), OpCode::Add, OpCode::Put, OpCode::Halt]);
    assert_eq!(out.printed, vec!["5"]);
    assert!(out.halted);
    assert!(out.fault.is_none());
    assert_eq!(out.ip, 4);
}

#[test]
fn big_products_stay_exact() {
    let out = run(&vec![
        push("100000000000000000000"),
        push("10000000000"),
        OpCode::Mul,
        OpCode::Put,
    ]);
    assert_eq!(out.printed, vec!["1000000000000000000000000000000"]);
    assert!(!out.halted);
}

#[test]
fn addition_past_i128_faults() {
    let code = vec![push("170141183460469231731687303715884105727"), push("1"), OpCode::Add, OpCode::Put];
    let out = run(&code);
    assert!(out.printed.is_empty());
    assert_eq!(format!("{:?}", out.fault.unwrap()), "ArithmeticOverflow");
    assert_eq!(out.ip, 2);
}

#[test]
fn subtraction_below_i128_faults() {
    assert_eq!(
        fault_of(vec![push("-170141183460469231731687303715884105728"), push("1"), OpCode::Sub]),
        "ArithmeticOverflow"
    );
    assert_eq!(
        fault_of(vec![push("99999999999999999999"), push("99999999999999999999"), OpCode::Mul]),
        "ArithmeticOverflow"
    );
}

#[test]
fn i128_extremes_are_allowed() {
    let out = run(&vec![
        push("170141183460469231731687303715884105726"),
        push("1"),
        OpCode::Add,
        OpCode::Put,
    ]);
    assert_eq!(out.printed, vec!["170141183460469231731687303715884105727"]);
}

#[test]
fn division_truncates_toward_zero() {
    let out = run(&vec![push("-7"), push("2"), OpCode::Div, OpCode::Put, push("7"), push("-2"), OpCode::Div, OpCode::Put]);
    assert_eq!(out.printed, vec!["-3", "-3"]);
}

#[test]
fn division_by_zero_faults() {
    assert_eq!(fault_of(vec![push("1"), push("0"), OpCode::Div]), "DivisionByZero");
}

#[test]
fn bitwise_operators() {
    let out = run(&vec![push("6"), push("3"), OpCode::Xor, OpCode::Put, push("6"), push("1"), OpCode::Or, OpCode::Put, push("-1"), push("5"), OpCode::Xor, OpCode::Put]);
    assert_eq!(out.printed, vec!["5", "7", "-6"]);
}

#[test]
fn unparsable_numbers_push_zero() {
    let out = run(&vec![push("12x"), OpCode::Put, push("+8"), OpCode::Put]);
    assert_eq!(out.printed, vec!["0", "8"]);
}

#[test]
fn variables_store_and_load() {
    let code = vec![
        push("41"),
        OpCode::Store("x".to_string()),
        OpCode::Load("x".to_string()),
        push("1"),
        OpCode::Add,
        OpCode::Put,
    ];
    assert_eq!(run(&code).printed, vec!["42"]);
}

#[test]
fn undefined_variable_faults() {
    assert_eq!(
        fault_of(vec![OpCode::Load("y".to_string())]),
        "UndefinedVariable(\"y\")"
    );
}

#[test]
fn store_with_an_empty_stack_does_nothing() {
    let out = run(&vec![OpCode::Store("x".to_string()), OpCode::Load("x".to_string())]);
    assert_eq!(format!("{:?}", out.fault.unwrap()), "UndefinedVariable(\"x\")");
    assert_eq!(out.ip, 1);
}

#[test]
fn memory_write_then_read() {
    let code = vec![push("42"), push("7"), OpCode::StoreDeref, push("7"), OpCode::Deref, OpCode::Put, push("8"), OpCode::Deref, OpCode::Put];
    assert_eq!(run(&code).printed, vec!["42", "0"]);
}

#[test]
fn negative_addresses_fault() {
    assert_eq!(fault_of(vec![push("-1"), OpCode::Deref, OpCode::Put]), "SegmentationFaultRead");
    assert_eq!(
        fault_of(vec![push("5"), push("-3"), OpCode::StoreDeref]),
        "SegmentationFaultWrite"
    );
    let out = run(&vec![push("-1"), OpCode::Deref, OpCode::Put, OpCode::Halt]);
    assert!(out.printed.is_empty());
}

#[test]
fn memory_written_in_try_is_cleared_on_exit() {
    let code = vec![
        OpCode::EnterTry,
        OpCode::ArenaStart,
        push("42"),
        push("5"),
        OpCode::StoreDeref,
        OpCode::ArenaEnd,
        OpCode::ExitTry,
        push("5"),
        OpCode::Deref,
        OpCode::Put,
        OpCode::Halt,
    ];
    assert_eq!(run(&code).printed, vec!["0"]);
}

#[test]
fn reads_see_the_last_write_across_other_instructions() {
    let code = vec![
        push("42"),
        push("5"),
        OpCode::StoreDeref,
        push("1"),
        OpCode::Store("x".to_string()),
        push("7"),
        push("6"),
        OpCode::StoreDeref,
        OpCode::EnterTry,
        OpCode::ExitTry,
        push("5"),
        OpCode::Deref,
        OpCode::Put,
    ];
    assert_eq!(run(&code).printed, vec!["42"]);
}

#[test]
fn out_of_bounds_memory_faults() {
    let last = (HEAP_SLOTS - 1).to_string();
    let end = HEAP_SLOTS.to_string();
    assert_eq!(run(&vec![push(&last), OpCode::Deref, OpCode::Put]).printed, vec!["0"]);
    assert_eq!(fault_of(vec![push(&end), OpCode::Deref]), "SegmentationFaultRead");
    assert_eq!(fault_of(vec![push("1"), push(&end), OpCode::StoreDeref]), "SegmentationFaultWrite");
}

#[test]
fn addresses_are_name_lengths() {
    let out = run(&vec![OpCode::Addr("abc".to_string()), OpCode::Put, OpCode::Addr("é".to_string()), OpCode::Put]);
    assert_eq!(out.printed, vec!["3", "2"]);
}

#[test]
fn output_is_refused_inside_try() {
    let code = vec![OpCode::EnterTry, push("1"), OpCode::Put];
    assert_eq!(fault_of(code), "SafetyViolation");
    let code = vec![OpCode::EnterTry, OpCode::ExitTry, push("1"), OpCode::Put];
    assert_eq!(run(&code).printed, vec!["1"]);
}

#[test]
fn frames_are_named_in_order() {
    let code = vec![OpCode::EnterTry, OpCode::EnterTry, OpCode::ExitTry, OpCode::ExitTry, OpCode::ExitTry];
    let mut vm = VM::new();
    assert_eq!(vm.active_frame_name(), None);
    assert!(matches!(vm.step(&code).action, Action::FrameEntered));
    assert_eq!(vm.active_frame_name(), Some("Frame_0".to_string()));
    vm.step(&code);
    assert_eq!(vm.active_frame_name(), Some("Frame_1".to_string()));
    assert!(matches!(vm.step(&code).action, Action::FrameExited));
    assert_eq!(vm.active_frame_name(), Some("Frame_0".to_string()));
    vm.step(&code);
    assert_eq!(vm.active_frame_name(), None);
    assert!(matches!(vm.step(&code).action, Action::Continue));
    assert_eq!(vm.ip(), 5);
}

#[test]
fn conditional_and_plain_jumps() {
    let code = vec![
        push("0"),
        OpCode::JumpIfFalse(4),
        push("1"),
        OpCode::Put,
        push("5"),
        OpCode::JumpIfFalse(8),
        push("2"),
        OpCode::Put,
        OpCode::Jump(10),
        push("3"),
        OpCode::Halt,
    ];
    let out = run(&code);
    assert_eq!(out.printed, vec!["2"]);
    assert!(out.halted);
    assert_eq!(out.ip, 10);
}

#[test]
fn heartbeat_is_due_every_hundred_instructions() {
    let mut code = Vec::new();
    for _ in 0..201 {
        code.push(OpCode::PushStr(String::new()));
    }
    let mut vm = VM::new();
    let mut due = Vec::new();
    while vm.is_running(&code) {
        if vm.step(&code).heartbeat {
            due.push(vm.ip() - 1);
        }
    }
    assert_eq!(due, vec![0, 100, 200]);
}

#[test]
fn halt_stays_put() {
    let code = vec![OpCode::Halt];
    let mut vm = VM::new();
    let r = vm.step(&code);
    assert!(matches!(r.action, Action::Halted));
    assert!(!r.heartbeat);
    assert_eq!(vm.ip(), 0);
}

#[test]
fn arena_end_clears() {
    let code = vec![OpCode::ArenaStart, OpCode::ArenaEnd];
    let mut vm = VM::new();
    assert!(matches!(vm.step(&code).action, Action::Continue));
    assert!(matches!(vm.step(&code).action, Action::ArenaCleared));
}

#[test]
fn missing_operands_are_detected() {
    let code = vec![push("1"), OpCode::Add];
    let mut vm = VM::new();
    assert!(!vm.step_would_panic(&code));
    vm.step(&code);
    assert!(vm.step_would_panic(&code));
}

#[test]
fn compiled_loop_runs() {
    let out = run_source("six D\n fn main()\n for i = 0 .. 3\n put i\n end\n end\nend");
    // The loop test is `i - 3`, so it runs while that is nonzero.
    assert_eq!(out.printed, vec!["0", "1", "2"]);
    assert!(out.halted);
}

#[test]
fn readme_program_refuses_output_in_try() {
    let src = "six MyProject\n    fn main()\n        try\n            v x: i32 = 500\n            v p = &x\n            *p = 999999\n            put *p\n        end\n    end\nend\n";
    let out = run_source(src);
    assert_eq!(format!("{:?}", out.fault.unwrap()), "SafetyViolation");
}
