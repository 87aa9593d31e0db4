use six::report::{caret_line, report_line};
use six::vm::RuntimeError;

#[test]
fn report_shows_the_numbered_line() {
    let src = "six D\n fn main()\n put )\nend";
    assert_eq!(report_line(src, 1), "six D");
    assert_eq!(report_line(src, 3), " put )");
    assert_eq!(report_line(src, 4), "end");
    assert_eq!(report_line(src, 5), "");
}

#[test]
fn line_zero_shows_the_first_line() {
    assert_eq!(report_line("first\nsecond", 0), "first");
    assert_eq!(report_line("", 0), "");
}

#[test]
fn report_lines_drop_carriage_returns() {
    assert_eq!(report_line("a\r\nb\r\n", 1), "a");
    assert_eq!(report_line("a\r\nb\r\n", 2), "b");
    assert_eq!(report_line("a\r\nb\r\n", 3), "");
}

#[test]
fn caret_points_at_the_column() {
    assert_eq!(caret_line(1), "^");
    assert_eq!(caret_line(0), "^");
    assert_eq!(caret_line(6), "     ^");
}

#[test]
fn runtime_error_messages() {
    assert_eq!(
        RuntimeError::UndefinedVariable("count".to_string()).message(),
        "Undefined variable: count"
    );
    assert_eq!(
        RuntimeError::SegmentationFaultRead.message(),
        "Segmentation Fault: Memory out of bounds"
    );
    assert_eq!(
        RuntimeError::SegmentationFaultWrite.message(),
        "Segmentation Fault: Illegal Write"
    );
    assert_eq!(
        RuntimeError::ArithmeticOverflow.message(),
        "Arithmetic Overflow: Operation exceeded safe bounds"
    );
    assert_eq!(RuntimeError::DivisionByZero.message(), "Division by zero");
    assert_eq!(
        RuntimeError::SafetyViolation.message(),
        "Safety Violation: External Write forbidden inside try block"
    );
}
