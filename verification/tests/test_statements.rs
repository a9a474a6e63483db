use lox::interpreter::{Action, Event, NumberOp};
use lox::load;

fn arithmetic(op: NumberOp, left: u32, right: u32) -> u32 {
    let a = f32::from_bits(left);
    let b = f32::from_bits(right);
    let result = match op {
        NumberOp::Add => a + b,
        NumberOp::Subtract => a - b,
        NumberOp::Multiply => a * b,
        NumberOp::Divide => a / b,
        _ => -a,
    };
    result.to_bits()
}

fn comparison(op: NumberOp, left: u32, right: u32) -> bool {
    let a = f32::from_bits(left);
    let b = f32::from_bits(right);
    match op {
        NumberOp::Less => a < b,
        NumberOp::LessEqual => a <= b,
        NumberOp::Greater => a > b,
        NumberOp::GreaterEqual => a >= b,
        NumberOp::Equal => a == b,
        _ => a != b,
    }
}

/// Runs a program to its end, doing the arithmetic it asks for, and
/// returns what it printed.
fn run(source: &str) -> String {
    let loaded = load(source);
    assert!(loaded.resolve_error.is_none(), "{:?}", loaded.resolve_error);
    let mut machine = loaded.interpreter;
    let mut event = Event::Resume;
    loop {
        event = match machine.interpret(event, 10_000) {
            Action::Continue => Event::Resume,
            Action::Arithmetic { op, left, right } => Event::Number(arithmetic(op, left, right)),
            Action::Compare { op, left, right } => Event::Truth(comparison(op, left, right)),
            Action::Parse { lexeme } => {
                let text: String = machine.text[lexeme.start..lexeme.end].iter().collect();
                Event::Number(text.parse::<f32>().unwrap().to_bits())
            }
            Action::Format { number } => {
                Event::Text(format!("{}", f32::from_bits(number)).chars().collect())
            }
            Action::Clock => Event::Number(1234.0f32.to_bits()),
            Action::Finished => return machine.output.iter().collect(),
            Action::Failed(error) => panic!("{:?}", error),
        };
    }
}

fn compare_output(expected: &str, source: &str) {
    assert_eq!(run(source), expected);
}

#[test]
fn test_print_statement() {
    compare_output("hello\n", "print \"hello\";");
    compare_output("42\n", "print 42;");
}

#[test]
fn test_variable_declaration() {
    compare_output("42\n", "var a = 42; print a;");
    compare_output("nil\n", "var a; print a;");
    compare_output("hello\n", "var a = \"hello\"; print a;");
}

#[test]
fn test_variable_assignment() {
    compare_output("43\n", "var a = 42; a = 43; print a;");
    compare_output("hello\nworld\n", 
        "var a = \"hello\"; 
         print a; 
         a = \"world\"; 
         print a;");
}

#[test]
fn test_block_scope() {
    compare_output("inner\nouter\n",
        "var a = \"outer\";
         {
            var a = \"inner\";
            print a;
         }
         print a;");
}

#[test]
fn test_if_statement() {
    compare_output("yes\n", 
        "if (true) print \"yes\";");
    compare_output("no\n",
        "if (false) print \"yes\"; else print \"no\";");
}

#[test]
fn test_while_loop() {
    compare_output("0\n1\n2\n",
        "var i = 0;
         while (i < 3) {
            print i;
            i = i + 1;
         }");
}

#[test]
fn test_for_loop() {
    compare_output("0\n1\n2\n",
        "for (var i = 0; i < 3; i = i + 1) {
            print i;
         }");
}

#[test]
fn test_nested_blocks() {
    compare_output("inner\nmiddle\nouter\n",
        "var a = \"outer\";
         {
            var a = \"middle\";
            {
                var a = \"inner\";
                print a;
            }
            print a;
         }
         print a;");
}

#[test]
fn test_if_else_chains() {
    compare_output("second\n",
        "if (false) {
            print \"first\";
         } else if (true) {
            print \"second\";
         } else {
            print \"third\";
         }");
}

#[test]
fn test_while_break() {
    compare_output("0\n1\n",
        "var i = 0;
         while (i < 5) {
            print i;
            i = i + 1;
            if (i == 2) break;
         }");
}
