use lox::interpreter::{Action, Event, NumberOp};
use lox::load;

fn arithmetic(op: NumberOp, left: u32, right: u32) -> u32 {
    let a = f32::from_bits(left);
    let b = f32::from_bits(right);
    let result = match op {
        NumberOp::Add => a + b,
        NumberOp::Subtract => a - b,
        NumberOp::Multiply => a * b,
        NumberOp::Divide => a / b,
        _ => -a,
    };
    result.to_bits()
}

fn comparison(op: NumberOp, left: u32, right: u32) -> bool {
    let a = f32::from_bits(left);
    let b = f32::from_bits(right);
    match op {
        NumberOp::Less => a < b,
        NumberOp::LessEqual => a <= b,
        NumberOp::Greater => a > b,
        NumberOp::GreaterEqual => a >= b,
        NumberOp::Equal => a == b,
        _ => a != b,
    }
}

/// Runs a program to its end, doing the arithmetic it asks for, and
/// returns what it printed.
fn run(source: &str) -> String {
    let loaded = load(source);
    assert!(loaded.resolve_error.is_none(), "{:?}", loaded.resolve_error);
    let mut machine = loaded.interpreter;
    let mut event = Event::Resume;
    loop {
        event = match machine.interpret(event, 10_000) {
            Action::Continue => Event::Resume,
            Action::Arithmetic { op, left, right } => Event::Number(arithmetic(op, left, right)),
            Action::Compare { op, left, right } => Event::Truth(comparison(op, left, right)),
            Action::Parse { lexeme } => {
                let text: String = machine.text[lexeme.start..lexeme.end].iter().collect();
                Event::Number(text.parse::<f32>().unwrap().to_bits())
            }
            Action::Format { number } => {
                Event::Text(format!("{}", f32::from_bits(number)).chars().collect())
            }
            Action::Clock => Event::Number(1234.0f32.to_bits()),
            Action::Finished => return machine.output.iter().collect(),
            Action::Failed(error) => panic!("{:?}", error),
        };
    }
}

fn compare_output(expected: &str, source: &str) {
    assert_eq!(run(source), expected);
}

#[test]
fn test_class_declaration() {
    compare_output(
        "<loxClass Bagel>\n",
        "class Bagel {}
         print Bagel;",
    );
}

#[test]
fn test_class_instantiation() {
    compare_output(
        "<loxInstance Bagel>\n",
        "class Bagel {}
         var bagel = Bagel();
         print bagel;",
    );
}

#[test]
fn test_class_methods() {
    compare_output(
        "hello\n",
        "class Greeter {
            sayHi() {
                print \"hello\";
            }
         }
         var greeter = Greeter();
         greeter.sayHi();",
    );
}

#[test]
fn test_class_this() {
    compare_output(
        "hello world\n",
        "class Greeter {
            init(name) {
                this.name = name;
            }
            sayHi() {
                print \"hello \" + this.name;
            }
         }
         var greeter = Greeter(\"world\");
         greeter.sayHi();",
    );
}

#[test]
fn test_class_init() {
    compare_output(
        "initialized\n",
        "class Foo {
            init() {
                print \"initialized\";
            }
         }
         var foo = Foo();",
    );
}
