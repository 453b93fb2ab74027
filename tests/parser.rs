use hack_front::command_type::CommandType;
use hack_front::error::TranslationError;
use hack_front::parser::{classify, first_operand, second_operand, Parser};

#[test]
fn has_more_commands_test() {
    let mut dummy_parser = Parser::new("first line");
    assert_eq!(dummy_parser.has_more_commands(), true);
    dummy_parser.advance();
    assert_eq!(dummy_parser.has_more_commands(), false);
}

#[test]
fn advance_test() {
    let mut dummy_parser = Parser::new("first line");
    dummy_parser.advance();
    assert_eq!(dummy_parser.current_command(), Some("first line"));
    dummy_parser.advance();
    assert_eq!(dummy_parser.current_command(), None);
}

#[test]
fn command_type_test() {
    let mut dummy_parser = Parser::new(
        "add\nsub\nneg\neq\ngt\nlt\nand\nor\nnot\n\
        push\npop\nlabel\ngoto\nif-goto\nfunction\ncall\n",
    );
    let compare_list = [
        CommandType::CArithmetic,
        CommandType::CPush,
        CommandType::CPop,
        CommandType::CLabel,
        CommandType::CGoto,
        CommandType::CIf,
        CommandType::CFunction,
        CommandType::CCall,
    ];
    for _ in 0..9_usize {
        dummy_parser.advance();
        assert_eq!(dummy_parser.command_type(), Ok(compare_list[0]));
    }
    for index in 9..16_usize {
        dummy_parser.advance();
        assert_eq!(dummy_parser.command_type(), Ok(compare_list[index - 8]));
    }
}

#[test]
fn arg1_test() {
    let mut dummy_parser = Parser::new(
        "add\nsub\nneg\neq\ngt\nlt\nand\nor\nnot\n\
        push local 2\npop local 2\nlabel Label\ngoto Label\nif-goto Label\ncall Function",
    );
    let compare_list = [
        "add", "sub", "neg", "eq", "gt", "lt", "and", "or", "not", "local", "local", "Label",
        "Label", "Label", "Function",
    ];
    for index in 0..12_usize {
        dummy_parser.advance();
        assert_eq!(dummy_parser.arg1(), Ok(compare_list[index].to_string()));
    }
}

#[test]
fn arg2_test() {
    let mut dummy_parser = Parser::new("push local 1\npop local 2\n");
    let compare_list = [1, 2, 3, 4];
    for index in 0..2_usize {
        dummy_parser.advance();
        assert_eq!(dummy_parser.arg2(), Ok(compare_list[index]));
    }
}

const STREAM: &str = "add\nsub\nneg\neq\ngt\nlt\nand\nor\nnot\npush local 2\npop local 2\n\
    label Label\ngoto Label\nif-goto Label\ncall Function\n";

#[test]
fn command_types_of_full_stream() {
    let mut p = Parser::new(STREAM);
    for _ in 0..9_usize {
        p.advance();
        assert_eq!(p.command_type(), Ok(CommandType::CArithmetic));
    }
    let rest = [
        CommandType::CPush,
        CommandType::CPop,
        CommandType::CLabel,
        CommandType::CGoto,
        CommandType::CIf,
        CommandType::CCall,
    ];
    for k in rest {
        p.advance();
        assert_eq!(p.command_type(), Ok(k));
    }
    assert!(!p.has_more_commands());
}

#[test]
fn first_operands_of_full_stream() {
    let mut p = Parser::new(STREAM);
    let expected = [
        "add", "sub", "neg", "eq", "gt", "lt", "and", "or", "not", "local", "local", "Label",
        "Label", "Label", "Function",
    ];
    for e in expected {
        p.advance();
        assert_eq!(p.arg1(), Ok(e.to_string()));
    }
}

#[test]
fn comment_only_source_has_no_commands() {
    let p = Parser::new("// header\n\n   \n\t// indented comment\r\n/ lone slash\n");
    assert!(!p.has_more_commands());
    let empty = Parser::new("");
    assert!(!empty.has_more_commands());
}

#[test]
fn cleaning_keeps_order_and_trims() {
    let mut p = Parser::new("  push constant 7  \r\n// c\n\n\tadd\t\npop local 0 // trailing\n");
    p.advance();
    assert_eq!(p.current_command(), Some("push constant 7"));
    p.advance();
    assert_eq!(p.current_command(), Some("add"));
    p.advance();
    assert_eq!(p.current_command(), Some("pop local 0 // trailing"));
    assert!(!p.has_more_commands());
    p.advance();
    assert_eq!(p.current_command(), None);
}

#[test]
fn second_operand_on_arithmetic_or_label_is_refused() {
    let mut p = Parser::new("add\nlabel LOOP\ngoto LOOP\n");
    p.advance();
    assert_eq!(p.arg2(), Err(TranslationError::InvalidOperandAccess));
    p.advance();
    assert_eq!(p.arg2(), Err(TranslationError::InvalidOperandAccess));
    p.advance();
    assert_eq!(p.arg2(), Err(TranslationError::InvalidOperandAccess));
}

#[test]
fn first_operand_on_return_is_refused() {
    let mut p = Parser::new("return\n");
    p.advance();
    assert_eq!(p.command_type(), Ok(CommandType::CReturn));
    assert_eq!(p.arg1(), Err(TranslationError::InvalidOperandAccess));
}

#[test]
fn unknown_keyword_is_malformed() {
    let mut p = Parser::new("jump somewhere 3\nAdd\n");
    p.advance();
    assert_eq!(p.command_type(), Err(TranslationError::MalformedCommand));
    assert_eq!(p.arg1(), Err(TranslationError::MalformedCommand));
    assert_eq!(p.arg2(), Err(TranslationError::MalformedCommand));
    p.advance();
    assert_eq!(p.command_type(), Err(TranslationError::MalformedCommand));
}

#[test]
fn no_current_command_is_malformed() {
    let p = Parser::new("push constant 1\n");
    assert_eq!(p.command_type(), Err(TranslationError::MalformedCommand));
    assert_eq!(p.arg1(), Err(TranslationError::MalformedCommand));
    assert_eq!(p.arg2(), Err(TranslationError::MalformedCommand));
}

#[test]
fn function_and_call_operands() {
    let mut p = Parser::new("function Main.fib 2\ncall   Main.fib\t1\n");
    p.advance();
    assert_eq!(p.command_type(), Ok(CommandType::CFunction));
    assert_eq!(p.arg1(), Ok("Main.fib".to_string()));
    assert_eq!(p.arg2(), Ok(2));
    p.advance();
    assert_eq!(p.command_type(), Ok(CommandType::CCall));
    assert_eq!(p.arg1(), Ok("Main.fib".to_string()));
    assert_eq!(p.arg2(), Ok(1));
}

#[test]
fn bad_numeric_operand_is_malformed() {
    assert_eq!(second_operand("push constant x1"), Err(TranslationError::MalformedCommand));
    assert_eq!(second_operand("push constant"), Err(TranslationError::MalformedCommand));
    assert_eq!(second_operand("push constant -1"), Err(TranslationError::MalformedCommand));
    assert_eq!(second_operand("push constant +"), Err(TranslationError::MalformedCommand));
    assert_eq!(second_operand("push constant 4294967296"), Err(TranslationError::MalformedCommand));
    assert_eq!(second_operand("push constant 4294967295"), Ok(4294967295));
    assert_eq!(second_operand("push constant +17"), Ok(17));
    assert_eq!(second_operand("pop temp 007"), Ok(7));
}

#[test]
fn missing_first_operand_is_malformed() {
    assert_eq!(first_operand("push"), Err(TranslationError::MalformedCommand));
    assert_eq!(first_operand("goto"), Err(TranslationError::MalformedCommand));
    assert_eq!(first_operand("not extra"), Ok("not".to_string()));
}

#[test]
fn classify_every_keyword() {
    let cases = [
        ("eq", CommandType::CArithmetic),
        ("push a 1", CommandType::CPush),
        ("pop a 1", CommandType::CPop),
        ("label X", CommandType::CLabel),
        ("goto X", CommandType::CGoto),
        ("if-goto X", CommandType::CIf),
        ("function f 0", CommandType::CFunction),
        ("call f 0", CommandType::CCall),
        ("return", CommandType::CReturn),
    ];
    for (text, kind) in cases {
        assert_eq!(classify(text), Ok(kind));
    }
    assert_eq!(classify(""), Err(TranslationError::MalformedCommand));
    assert_eq!(classify("  "), Err(TranslationError::MalformedCommand));
    assert_eq!(classify("pushx 1"), Err(TranslationError::MalformedCommand));
}
