use lox::interpreter::{Action, Event, NumberOp};
use lox::load;

fn arithmetic(op: NumberOp, left: u32, right: u32) -> u32 {
    let a = f32::from_bits(left);
    let b = f32::from_bits(right);
    let result = match op {
        NumberOp::Add => a + b,
        NumberOp::Subtract => a - b,
        NumberOp::Multiply => a * b,
        NumberOp::Divide => a / b,
        _ => -a,
    };
    result.to_bits()
}

fn comparison(op: NumberOp, left: u32, right: u32) -> bool {
    let a = f32::from_bits(left);
    let b = f32::from_bits(right);
    match op {
        NumberOp::Less => a < b,
        NumberOp::LessEqual => a <= b,
        NumberOp::Greater => a > b,
        NumberOp::GreaterEqual => a >= b,
        NumberOp::Equal => a == b,
        _ => a != b,
    }
}

/// Runs a program to its end, doing the arithmetic it asks for, and
/// returns what it printed.
fn run(source: &str) -> String {
    let loaded = load(source);
    assert!(loaded.resolve_error.is_none(), "{:?}", loaded.resolve_error);
    let mut machine = loaded.interpreter;
    let mut event = Event::Resume;
    loop {
        event = match machine.interpret(event, 10_000) {
            Action::Continue => Event::Resume,
            Action::Arithmetic { op, left, right } => Event::Number(arithmetic(op, left, right)),
            Action::Compare { op, left, right } => Event::Truth(comparison(op, left, right)),
            Action::Parse { lexeme } => {
                let text: String = machine.text[lexeme.start..lexeme.end].iter().collect();
                Event::Number(text.parse::<f32>().unwrap().to_bits())
            }
            Action::Format { number } => {
                Event::Text(format!("{}", f32::from_bits(number)).chars().collect())
            }
            Action::Clock => Event::Number(1234.0f32.to_bits()),
            Action::Finished => return machine.output.iter().collect(),
            Action::Failed(error) => panic!("{:?}", error),
        };
    }
}

fn compare_output(expected: &str, source: &str) {
    assert_eq!(run(source), expected);
}

#[test]
fn test_arithmetic() {
    compare_output("4\n", "print 2 + 2;");
    compare_output("0\n", "print 2 - 2;");
    compare_output("6\n", "print 2 * 3;");
    compare_output("2\n", "print 4 / 2;");
}

#[test]
fn test_grouping() {
    compare_output("7\n", "print (2 + 3) + 2;");
    compare_output("10\n", "print 2 * (3 + 2);");
}

#[test]
fn test_literals() {
    compare_output("true\n", "print true;");
    compare_output("false\n", "print false;");
    compare_output("nil\n", "print nil;");
    compare_output("3.14\n", "print 3.14;");
    compare_output("hello\n", "print \"hello\";");
}

#[test]
fn test_comparison() {
    compare_output("true\n", "print 1 < 2;");
    compare_output("true\n", "print 2 > 1;");
    compare_output("true\n", "print 1 <= 1;");
    compare_output("true\n", "print 1 >= 1;");
    compare_output("true\n", "print 1 == 1;");
    compare_output("false\n", "print 1 != 1;");
}

#[test]
fn test_unary() {
    compare_output("false\n", "print !true;");
    compare_output("true\n", "print !false;");
    compare_output("-1\n", "print -1;");
}

#[test]
fn test_precedence() {
    compare_output("7\n", "print 1 + 2 * 3;");
    compare_output("9\n", "print (1 + 2) * 3;");
    compare_output("true\n", "print !false == true;");
    compare_output("false\n", "print 2 < 1 == true;");
}
