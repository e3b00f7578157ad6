use stack_calculator::calculator::arithmetic::{Arithmetic, Operator};
use stack_calculator::calculator::error::ExecError;
use stack_calculator::calculator::value::Value;
use stack_calculator::calculator::{Calculator, MAX_DEPTH};
use stack_calculator::tokenizer::{join_tokens, Token, Tokenizer};

fn literal(text: &str) -> f64 {
    text.parse::<f64>().unwrap_or(f64::NAN)
}

fn binary(op: Operator, a: f64, b: f64) -> f64 {
    match op {
        Operator::Plus => a + b,
        Operator::Minus => a - b,
        Operator::Multiply => a * b,
        Operator::Divide => a / b,
    }
}

fn is_zero(a: f64) -> bool {
    a == 0.0
}

fn floats() -> Arithmetic<fn(&str) -> f64, fn(Operator, f64, f64) -> f64, fn(f64) -> bool> {
    Arithmetic { literal, binary, is_zero }
}

fn run(input: &str) -> Calculator<f64> {
    let mut calculator = Calculator::new(false);
    calculator.execute(input, &floats());
    calculator
}

fn numbers(calculator: &Calculator<f64>) -> Vec<f64> {
    calculator.stack().iter().map(|value| value.as_number().unwrap()).collect()
}

fn tokens(input: &str) -> Vec<Token> {
    Tokenizer::new(input).tokenize()
}

fn name(text: &str) -> String {
    text.to_string()
}

#[test]
fn new_session_is_empty() {
    let calculator: Calculator<f64> = Calculator::new(true);
    assert_eq!(calculator.stack().len(), 0);
    assert!(calculator.variables().names().is_empty());
    assert!(calculator.context_stack().is_empty());
    assert!(calculator.debug_mode());
    let mut calculator = calculator;
    assert!(calculator.take_reports().is_empty());
    assert!(!Calculator::<f64>::new(false).debug_mode());
}

#[test]
fn numbers_are_pushed_in_order() {
    let mut calculator = run("1 2.5 -3 40");
    assert_eq!(numbers(&calculator), vec![1.0, 2.5, -3.0, 40.0]);
    assert_eq!(calculator.stack().top(), Some(&Value::Number(40.0)));
    assert!(calculator.take_reports().is_empty());
    calculator.execute("5 6", &floats());
    assert_eq!(numbers(&calculator), vec![1.0, 2.5, -3.0, 40.0, 5.0, 6.0]);
}

#[test]
fn addition_leaves_the_sum() {
    assert_eq!(numbers(&run("3 4 +")), vec![7.0]);
    assert_eq!(numbers(&run("9 3 4 +")), vec![9.0, 7.0]);
    assert_eq!(numbers(&run("0.5 0.25 +")), vec![0.75]);
}

#[test]
fn subtraction_takes_the_top_from_the_second() {
    assert_eq!(numbers(&run("10 4 -")), vec![6.0]);
    assert_eq!(numbers(&run("4 10 -")), vec![-6.0]);
    assert_eq!(numbers(&run("4 -10 -")), vec![14.0]);
}

#[test]
fn multiplication_leaves_the_product() {
    assert_eq!(numbers(&run("6 7 *")), vec![42.0]);
    assert_eq!(numbers(&run("1.5 -2 *")), vec![-3.0]);
}

#[test]
fn division_divides_the_second_by_the_top() {
    assert_eq!(numbers(&run("8 2 /")), vec![4.0]);
    assert_eq!(numbers(&run("2 8 /")), vec![0.25]);
    assert_eq!(numbers(&run("1 2 3 4 + * /")), vec![1.0 / 14.0]);
}

#[test]
fn division_by_zero_is_reported_and_yields_the_dividend() {
    let mut calculator = run("5 0 /");
    assert_eq!(numbers(&calculator), vec![5.0]);
    assert_eq!(calculator.take_reports(), vec![ExecError::DivisionByZero]);
    let mut calculator = run("7 2 0.0 / +");
    assert_eq!(numbers(&calculator), vec![9.0]);
    assert_eq!(calculator.take_reports(), vec![ExecError::DivisionByZero]);
    let mut calculator = run("0 0 /");
    assert_eq!(numbers(&calculator), vec![0.0]);
    assert_eq!(calculator.take_reports(), vec![ExecError::DivisionByZero]);
}

#[test]
fn operator_without_two_values_reports_stack_underflow() {
    let mut calculator = run("+");
    assert_eq!(calculator.stack().len(), 0);
    assert_eq!(calculator.take_reports(), vec![ExecError::StackUnderflow]);
    let mut calculator = run("1 *");
    assert_eq!(numbers(&calculator), vec![1.0]);
    assert_eq!(calculator.take_reports(), vec![ExecError::StackUnderflow]);
    let mut calculator = run("1 0 / /");
    assert_eq!(numbers(&calculator), vec![1.0]);
    assert_eq!(
        calculator.take_reports(),
        vec![ExecError::DivisionByZero, ExecError::StackUnderflow]
    );
}

#[test]
fn operator_on_a_coroutine_reports_type_mismatch() {
    let mut calculator = run("{ 1 } 2 +");
    assert_eq!(calculator.stack().len(), 2);
    assert_eq!(calculator.stack().get(0), Some(&Value::Coroutine(tokens("1"))));
    assert_eq!(calculator.stack().get(1), Some(&Value::Number(2.0)));
    assert_eq!(calculator.take_reports(), vec![ExecError::TypeMismatch]);
    let mut calculator = run("2 { 1 } /");
    assert_eq!(calculator.stack().get(0), Some(&Value::Number(2.0)));
    assert_eq!(calculator.stack().get(1), Some(&Value::Coroutine(tokens("1"))));
    assert_eq!(calculator.take_reports(), vec![ExecError::TypeMismatch]);
}

#[test]
fn execution_goes_on_after_a_failure() {
    let mut calculator = run("+ 1 y 2 + }");
    assert_eq!(numbers(&calculator), vec![3.0]);
    assert_eq!(
        calculator.take_reports(),
        vec![ExecError::StackUnderflow, ExecError::UnboundVariable, ExecError::UnmatchedBrace]
    );
    assert!(calculator.take_reports().is_empty());
}

#[test]
fn assignment_binds_the_top_value() {
    let calculator = run("1 2 'x");
    assert_eq!(numbers(&calculator), vec![1.0]);
    assert_eq!(calculator.variables().get(&name("x")), Some(&Value::Number(2.0)));
    assert_eq!(calculator.variables().names(), vec![name("x")]);
}

#[test]
fn assignment_overwrites() {
    let calculator = run("1 'x 2 'y 3 'x");
    assert_eq!(calculator.stack().len(), 0);
    assert_eq!(calculator.variables().get(&name("x")), Some(&Value::Number(3.0)));
    assert_eq!(calculator.variables().get(&name("y")), Some(&Value::Number(2.0)));
    assert_eq!(calculator.variables().names(), vec![name("x"), name("y")]);
}

#[test]
fn assignment_on_an_empty_stack_reports_stack_underflow() {
    let mut calculator = run("'x");
    assert_eq!(calculator.variables().get(&name("x")), None);
    assert_eq!(calculator.take_reports(), vec![ExecError::StackUnderflow]);
}

#[test]
fn variable_is_read_twice() {
    let mut calculator = run("1 'x x x +");
    assert_eq!(numbers(&calculator), vec![2.0]);
    assert!(calculator.take_reports().is_empty());
}

#[test]
fn unbound_variable_is_reported() {
    let mut calculator = run("1 y");
    assert_eq!(numbers(&calculator), vec![1.0]);
    assert_eq!(calculator.take_reports(), vec![ExecError::UnboundVariable]);
}

#[test]
fn variables_last_from_line_to_line() {
    let mut calculator = run("4 'n");
    calculator.execute("n n *", &floats());
    assert_eq!(numbers(&calculator), vec![16.0]);
}

#[test]
fn braces_capture_a_coroutine() {
    let mut calculator = run("{ 1 2 + }");
    assert_eq!(calculator.stack().len(), 1);
    assert_eq!(calculator.stack().top(), Some(&Value::Coroutine(tokens("1 2 +"))));
    assert!(calculator.take_reports().is_empty());
    let calculator = run("{ }");
    assert_eq!(calculator.stack().top(), Some(&Value::Coroutine(vec![])));
}

#[test]
fn nested_braces_stay_unexecuted() {
    let mut calculator = run("{ 1 { 2 + } }");
    assert_eq!(calculator.stack().len(), 1);
    assert_eq!(
        calculator.stack().top(),
        Some(&Value::Coroutine(vec![
            Token::Number(name("1")),
            Token::OpenBrace,
            Token::Number(name("2")),
            Token::Plus,
            Token::CloseBrace,
        ]))
    );
    assert!(calculator.take_reports().is_empty());
    let calculator = run("{ 1 { 2 + } } 5");
    assert_eq!(calculator.stack().len(), 2);
    assert_eq!(calculator.stack().top(), Some(&Value::Number(5.0)));
}

#[test]
fn unmatched_open_brace_is_reported_and_pushes_nothing() {
    let mut calculator = run("{ 1 + ");
    assert_eq!(calculator.stack().len(), 0);
    assert_eq!(calculator.take_reports(), vec![ExecError::UnmatchedBrace]);
    let mut calculator = run("7 { { 1 } 2");
    assert_eq!(numbers(&calculator), vec![7.0]);
    assert_eq!(calculator.take_reports(), vec![ExecError::UnmatchedBrace]);
}

#[test]
fn stray_close_brace_is_reported() {
    let mut calculator = run("1 } 2");
    assert_eq!(numbers(&calculator), vec![1.0, 2.0]);
    assert_eq!(calculator.take_reports(), vec![ExecError::UnmatchedBrace]);
}

#[test]
fn exec_runs_a_coroutine() {
    let mut calculator = run("{ 1 2 + } exec");
    assert_eq!(numbers(&calculator), vec![3.0]);
    assert!(calculator.take_reports().is_empty());
    assert!(calculator.context_stack().is_empty());
}

#[test]
fn exec_works_on_the_shared_stack() {
    assert_eq!(numbers(&run("10 20 { + 2 * } exec")), vec![60.0]);
    assert_eq!(numbers(&run("{ { 3 4 * } exec 1 + } exec")), vec![13.0]);
    assert_eq!(numbers(&run("{ 2 * } 'double 5 double exec double exec")), vec![20.0]);
}

#[test]
fn bindings_of_a_coroutine_do_not_leak() {
    let calculator = run("5 'x { 7 'x 9 'y x } exec x");
    assert_eq!(numbers(&calculator), vec![7.0, 5.0]);
    assert_eq!(calculator.variables().get(&name("x")), Some(&Value::Number(5.0)));
    assert_eq!(calculator.variables().get(&name("y")), None);
    assert_eq!(calculator.variables().names(), vec![name("x")]);
}

#[test]
fn a_coroutine_does_not_see_the_variables_around_it() {
    let mut calculator = run("5 'x { x } exec");
    assert_eq!(calculator.stack().len(), 0);
    assert_eq!(calculator.take_reports(), vec![ExecError::UnboundVariable]);
    assert_eq!(calculator.variables().get(&name("x")), Some(&Value::Number(5.0)));
}

#[test]
fn exec_on_a_number_is_reported_and_keeps_the_number() {
    let mut calculator = run("1 2 exec");
    assert_eq!(numbers(&calculator), vec![1.0, 2.0]);
    assert_eq!(calculator.take_reports(), vec![ExecError::ExecOnNonBlock]);
}

#[test]
fn exec_on_an_empty_stack_reports_stack_underflow() {
    let mut calculator = run("exec");
    assert_eq!(calculator.stack().len(), 0);
    assert_eq!(calculator.take_reports(), vec![ExecError::StackUnderflow]);
}

#[test]
fn failures_inside_a_coroutine_are_reported() {
    let mut calculator = run("{ 1 0 / + } exec 2");
    assert_eq!(numbers(&calculator), vec![1.0, 2.0]);
    assert_eq!(
        calculator.take_reports(),
        vec![ExecError::DivisionByZero, ExecError::StackUnderflow]
    );
}

#[test]
fn endless_recursion_stops_at_the_depth_limit() {
    let mut calculator = run("{ 'f f f exec } 'g g g exec");
    let body = tokens("'f f f exec");
    assert_eq!(calculator.stack().len(), 2);
    assert_eq!(calculator.stack().get(0), Some(&Value::Coroutine(body.clone())));
    assert_eq!(calculator.stack().get(1), Some(&Value::Coroutine(body.clone())));
    assert_eq!(calculator.take_reports(), vec![ExecError::RecursionLimit]);
    assert!(calculator.context_stack().is_empty());
    assert_eq!(calculator.variables().names(), vec![name("g")]);
    calculator.execute("1 2 +", &floats());
    assert_eq!(calculator.stack().top(), Some(&Value::Number(3.0)));
}

#[test]
fn nesting_up_to_the_depth_limit_is_executed() {
    let mut deep = String::new();
    for _ in 0..MAX_DEPTH {
        deep.push_str("{ ");
    }
    deep.push('1');
    for _ in 0..MAX_DEPTH {
        deep.push_str(" } exec");
    }
    let mut calculator = run(&deep);
    assert_eq!(numbers(&calculator), vec![1.0]);
    assert!(calculator.take_reports().is_empty());
    let mut calculator = run(&format!("{{ {} }} exec", deep));
    assert_eq!(calculator.stack().len(), 1);
    assert_eq!(calculator.stack().top(), Some(&Value::Coroutine(tokens("1"))));
    assert_eq!(calculator.take_reports(), vec![ExecError::RecursionLimit]);
}

#[test]
fn empty_input_changes_nothing() {
    let mut calculator = run("1 'x 2 { 3 } +");
    let before_stack = calculator.stack().values().clone();
    let before_names = calculator.variables().names();
    calculator.execute("", &floats());
    calculator.execute("  \t ", &floats());
    calculator.execute_tokens(&vec![], &floats());
    assert_eq!(calculator.stack().values(), &before_stack);
    assert_eq!(calculator.variables().names(), before_names);
    assert_eq!(calculator.variables().get(&name("x")), Some(&Value::Number(1.0)));
    assert_eq!(calculator.take_reports(), vec![ExecError::TypeMismatch]);
}

#[test]
fn execute_command_carries_out_one_token() {
    let mut calculator: Calculator<f64> = Calculator::new(false);
    calculator.execute_command(Token::Number(name("2")), &floats());
    calculator.execute_command(Token::Number(name("3")), &floats());
    calculator.execute_command(Token::Multiply, &floats());
    assert_eq!(numbers(&calculator), vec![6.0]);
    calculator.execute_command(Token::Assign(name("six")), &floats());
    calculator.execute_command(Token::Variable(name("six")), &floats());
    assert_eq!(numbers(&calculator), vec![6.0]);
    calculator.execute_command(Token::OpenBrace, &floats());
    calculator.execute_command(Token::CloseBrace, &floats());
    calculator.execute_command(Token::Exec, &floats());
    assert_eq!(numbers(&calculator), vec![6.0]);
    assert_eq!(
        calculator.take_reports(),
        vec![ExecError::UnmatchedBrace, ExecError::UnmatchedBrace, ExecError::ExecOnNonBlock]
    );
}

#[test]
fn executing_the_text_of_a_coroutine_has_the_same_effect() {
    let programs = ["1 2 + 3 *", "4 'x x x * { 1 + } exec", "{ 2 { 3 * } exec } exec 0 /", "9 y +"];
    for program in programs {
        let source = format!("7 {{ {} }}", program);
        let mut direct = run(&source);
        let mut by_text = run(&source);
        let body = match by_text.stack().top() {
            Some(Value::Coroutine(body)) => body.clone(),
            _ => panic!("no coroutine on top"),
        };
        assert_eq!(body, tokens(program));
        direct.execute("exec", &floats());
        by_text.execute("'body", &floats());
        by_text.execute(&join_tokens(&body), &floats());
        let mut literal = run("7");
        literal.execute(program, &floats());
        assert_eq!(by_text.stack().values(), direct.stack().values());
        assert_eq!(literal.stack().values(), direct.stack().values());
        let reports = direct.take_reports();
        assert_eq!(by_text.take_reports(), reports);
        assert_eq!(literal.take_reports(), reports);
    }
}

#[test]
fn arithmetic_is_what_the_program_supplies() {
    let wrapping = Arithmetic {
        literal: |text: &str| text.parse::<u8>().unwrap_or(0),
        binary: |op: Operator, a: u8, b: u8| match op {
            Operator::Plus => a.wrapping_add(b),
            Operator::Minus => a.wrapping_sub(b),
            Operator::Multiply => a.wrapping_mul(b),
            Operator::Divide => a / b,
        },
        is_zero: |a: u8| a == 0,
    };
    let mut calculator: Calculator<u8> = Calculator::new(false);
    calculator.execute("200 100 + 3 4 - 7 0 / 9 2 /", &wrapping);
    let values: Vec<u8> =
        calculator.stack().iter().map(|value| value.as_number().unwrap()).collect();
    assert_eq!(values, vec![44, 255, 7, 4]);
    assert_eq!(calculator.take_reports(), vec![ExecError::DivisionByZero]);
    assert_eq!(wrapping.number("12"), 12);
    assert_eq!(wrapping.apply(Operator::Minus, 5, 3), 2);
    assert!(wrapping.zero(0));
    assert!(!wrapping.zero(1));
}

#[test]
fn two_lines_have_the_effect_of_one() {
    let pairs = [
        ("1 2 +", "3 *"),
        ("{ 1 + } 'inc 4", "inc exec inc exec"),
        ("5 0 / }", "y { 2 } exec +"),
        ("", "1"),
    ];
    for (first, second) in pairs {
        let mut by_lines = run(first);
        by_lines.execute(second, &floats());
        let mut at_once = run(&format!("{} {}", first, second));
        assert_eq!(by_lines.stack().values(), at_once.stack().values());
        assert_eq!(by_lines.variables().names(), at_once.variables().names());
        assert_eq!(by_lines.take_reports(), at_once.take_reports());
    }
}

#[test]
fn an_open_block_does_not_span_two_lines() {
    let mut by_lines = run("{ 1");
    by_lines.execute("2 }", &floats());
    assert_eq!(numbers(&by_lines), vec![2.0]);
    assert_eq!(
        by_lines.take_reports(),
        vec![ExecError::UnmatchedBrace, ExecError::UnmatchedBrace]
    );
    let at_once = run("{ 1 2 }");
    assert_eq!(at_once.stack().top(), Some(&Value::Coroutine(tokens("1 2"))));
}
