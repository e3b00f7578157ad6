use stack_calculator::calculator::environment::Environment;
use stack_calculator::calculator::error::ExecError;
use stack_calculator::calculator::operations::Operations;
use stack_calculator::calculator::stack::Stack;
use stack_calculator::calculator::value::Value;
use stack_calculator::tokenizer::Token;

fn words(texts: &[&str]) -> Vec<String> {
    texts.iter().map(|text| text.to_string()).collect()
}

fn block() -> Vec<Token> {
    vec![Token::Number("1".to_string()), Token::Plus]
}

#[test]
fn value_as_number_and_as_coroutine() {
    let number: Value<f64> = Value::Number(2.5);
    assert_eq!(number.as_number(), Some(2.5));
    assert_eq!(number.as_coroutine(), None);
    let coroutine: Value<f64> = Value::Coroutine(block());
    assert_eq!(coroutine.as_number(), None);
    assert_eq!(coroutine.as_coroutine(), Some(&block()));
}

#[test]
fn value_copies_are_equal() {
    let number: Value<f64> = Value::Number(2.5);
    assert_eq!(number.clone(), number);
    let coroutine: Value<f64> = Value::Coroutine(block());
    assert_eq!(coroutine.clone(), coroutine);
}

#[test]
fn stack_is_last_in_first_out() {
    let mut stack: Stack<f64> = Stack::new();
    assert_eq!(stack.len(), 0);
    assert_eq!(stack.pop(), None);
    stack.push(1.0);
    stack.push_coroutine(block());
    stack.push_value(Value::Number(3.0));
    assert_eq!(stack.len(), 3);
    assert_eq!(stack.top(), Some(&Value::Number(3.0)));
    assert_eq!(stack.get(0), Some(&Value::Number(1.0)));
    assert_eq!(stack.get(1), Some(&Value::Coroutine(block())));
    assert_eq!(stack.get(3), None);
    assert_eq!(
        stack.values(),
        &vec![Value::Number(1.0), Value::Coroutine(block()), Value::Number(3.0)]
    );
    assert_eq!(stack.pop(), Some(Value::Number(3.0)));
    assert_eq!(stack.pop(), Some(Value::Coroutine(block())));
    assert_eq!(stack.pop(), Some(Value::Number(1.0)));
    assert_eq!(stack.pop(), None);
    assert_eq!(stack.top(), None);
}

#[test]
fn stack_iter_goes_from_the_bottom_to_the_top() {
    let mut stack: Stack<f64> = Stack::new();
    assert_eq!(stack.iter().count(), 0);
    stack.push(1.0);
    stack.push(2.0);
    stack.push(3.0);
    let seen: Vec<f64> = stack.iter().map(|value| value.as_number().unwrap()).collect();
    assert_eq!(seen, vec![1.0, 2.0, 3.0]);
}

#[test]
fn dup_copies_the_top() {
    let mut stack: Stack<f64> = Stack::new();
    stack.dup();
    assert_eq!(stack.len(), 0);
    stack.push(4.0);
    stack.dup();
    assert_eq!(stack.values(), &vec![Value::Number(4.0), Value::Number(4.0)]);
    stack.push_coroutine(block());
    stack.dup();
    assert_eq!(stack.len(), 4);
    assert_eq!(stack.pop(), Some(Value::Coroutine(block())));
    assert_eq!(stack.pop(), Some(Value::Coroutine(block())));
}

#[test]
fn peek_operands_reads_the_two_top_numbers() {
    let mut stack: Stack<f64> = Stack::new();
    assert_eq!(stack.peek_operands(), Err(ExecError::StackUnderflow));
    stack.push(1.0);
    assert_eq!(stack.peek_operands(), Err(ExecError::StackUnderflow));
    stack.push(2.0);
    stack.push(3.0);
    assert_eq!(stack.peek_operands(), Ok((2.0, 3.0)));
    assert_eq!(stack.len(), 3);
    stack.push_coroutine(block());
    assert_eq!(stack.peek_operands(), Err(ExecError::TypeMismatch));
    stack.push(5.0);
    assert_eq!(stack.peek_operands(), Err(ExecError::TypeMismatch));
}

#[test]
fn binary_op_replaces_the_operands_by_the_result() {
    let mut stack: Stack<f64> = Stack::new();
    stack.push(9.0);
    stack.push(10.0);
    stack.push(4.0);
    assert_eq!(stack.binary_op(|a, b| a - b), Ok(()));
    assert_eq!(stack.values(), &vec![Value::Number(9.0), Value::Number(6.0)]);
    assert_eq!(Operations::binary_op(&mut stack, |a, b| a / b), Ok(()));
    assert_eq!(stack.values(), &vec![Value::Number(1.5)]);
}

#[test]
fn binary_op_fails_without_changing_the_stack() {
    let mut stack: Stack<f64> = Stack::new();
    assert_eq!(stack.binary_op(|a, b| a + b), Err(ExecError::StackUnderflow));
    stack.push(1.0);
    assert_eq!(Operations::binary_op(&mut stack, |a, b| a + b), Err(ExecError::StackUnderflow));
    assert_eq!(stack.values(), &vec![Value::Number(1.0)]);
    stack.push_coroutine(block());
    assert_eq!(stack.binary_op(|a, b| a + b), Err(ExecError::TypeMismatch));
    assert_eq!(Operations::binary_op(&mut stack, |a, b| a + b), Err(ExecError::TypeMismatch));
    assert_eq!(stack.values(), &vec![Value::Number(1.0), Value::Coroutine(block())]);
    stack.push(2.0);
    assert_eq!(stack.binary_op(|a, b| a + b), Err(ExecError::TypeMismatch));
    assert_eq!(stack.len(), 3);
}

#[test]
fn find_closing_brace_matches_nested_braces() {
    assert_eq!(Operations::find_closing_brace(&words(&["{", "a", "}"])), Some(3));
    assert_eq!(Operations::find_closing_brace(&words(&["{", "}", "x"])), Some(2));
    assert_eq!(
        Operations::find_closing_brace(&words(&["{", "1", "{", "2", "+", "}", "}", "}"])),
        Some(7)
    );
    assert_eq!(Operations::find_closing_brace(&words(&["x", "{", "{", "}", "}", "y"])), Some(5));
}

#[test]
fn find_closing_brace_finds_no_partner() {
    assert_eq!(Operations::find_closing_brace(&words(&[])), None);
    assert_eq!(Operations::find_closing_brace(&words(&["a", "b"])), None);
    assert_eq!(Operations::find_closing_brace(&words(&["{", "1", "+"])), None);
    assert_eq!(Operations::find_closing_brace(&words(&["{", "{", "}"])), None);
    assert_eq!(Operations::find_closing_brace(&words(&["}", "{", "{", "}"])), None);
    assert_eq!(Operations::find_closing_brace(&words(&["{}", "{{", "}x"])), None);
}

#[test]
fn find_block_end_matches_from_the_start_index() {
    let tokens = vec![
        Token::Plus,
        Token::OpenBrace,
        Token::OpenBrace,
        Token::CloseBrace,
        Token::Exec,
        Token::CloseBrace,
        Token::CloseBrace,
    ];
    assert_eq!(Operations::find_block_end(&tokens, 0), Some(6));
    assert_eq!(Operations::find_block_end(&tokens, 1), Some(6));
    assert_eq!(Operations::find_block_end(&tokens, 2), Some(4));
    assert_eq!(Operations::find_block_end(&tokens, 3), None);
    assert_eq!(Operations::find_block_end(&tokens, 4), None);
    assert_eq!(Operations::find_block_end(&tokens, 7), None);
    assert_eq!(Operations::find_block_end(&tokens, 8), None);
    assert_eq!(Operations::find_block_end(&vec![Token::OpenBrace, Token::Plus], 0), None);
}

#[test]
fn environment_binds_and_replaces() {
    let mut environment: Environment<String> = Environment::new();
    assert_eq!(environment.get(&"a".to_string()), None);
    assert!(environment.names().is_empty());
    environment.set("a".to_string(), "1".to_string());
    environment.set("b".to_string(), "2".to_string());
    environment.set("a".to_string(), "3".to_string());
    environment.set("".to_string(), "4".to_string());
    assert_eq!(environment.get(&"a".to_string()), Some(&"3".to_string()));
    assert_eq!(environment.get(&"b".to_string()), Some(&"2".to_string()));
    assert_eq!(environment.get(&"".to_string()), Some(&"4".to_string()));
    assert_eq!(environment.get(&"A".to_string()), None);
    assert_eq!(environment.names(), words(&["a", "b", ""]));
}
