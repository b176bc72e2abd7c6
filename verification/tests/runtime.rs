use brainfuck::io::{number_output_line, parse_cell_value, strip_carriage_returns, NumParseError};
use brainfuck::parser::parse;
use brainfuck::runner::{execute, ExecError, ExecStatus};
use brainfuck::token::tokenize;

fn run(src: &str, input: &[u8], fuel: u64) -> (Vec<u8>, ExecStatus) {
    let toks = tokenize(src);
    let actions = parse(&toks).expect("source must parse");
    let outcome = execute(&actions, &input.to_vec(), fuel);
    (outcome.output, outcome.status)
}

#[test]
fn add_two_and_five_outputs_seven() {
    // cell 0 gets 2; the loop moves five units from cell 1 into cell 0
    let (output, status) = run("++>+++++[-<+>]<.", &[], 1_000);
    assert_eq!(status, ExecStatus::Finished);
    assert_eq!(output, vec![7u8]);
}

#[test]
fn empty_loop_terminates_with_no_output() {
    let (output, status) = run("[]", &[], 10);
    assert_eq!(status, ExecStatus::Finished);
    assert!(output.is_empty());
}

#[test]
fn echo_one_byte() {
    let (output, status) = run(",.", &[42], 10);
    assert_eq!(status, ExecStatus::Finished);
    assert_eq!(output, vec![42u8]);
}

#[test]
fn input_on_empty_channel_fails_after_partial_output() {
    // the first output byte is written before the input instruction fails
    let (output, status) = run(".,", &[], 10);
    assert_eq!(status, ExecStatus::Failed(ExecError::InputExhausted));
    assert_eq!(output, vec![0u8]);
}

#[test]
fn nonterminating_loop_runs_out_of_fuel() {
    let (_, status) = run("+[]", &[], 1_000);
    assert_eq!(status, ExecStatus::OutOfFuel);
}

#[test]
fn out_of_fuel_keeps_output_written_so_far() {
    let (output, status) = run("+.[]", &[], 100);
    assert_eq!(status, ExecStatus::OutOfFuel);
    assert_eq!(output, vec![1u8]);
}

#[test]
fn wraparound_decrement_then_count_down() {
    // 0 - 1 wraps to 255; the loop counts the cell back down to zero
    let (output, status) = run("-[-].", &[], 1_000);
    assert_eq!(status, ExecStatus::Finished);
    assert_eq!(output, vec![0u8]);
}

#[test]
fn moves_left_of_origin() {
    let (output, status) = run("<++.", &[], 10);
    assert_eq!(status, ExecStatus::Finished);
    assert_eq!(output, vec![2u8]);
}

#[test]
fn hello_style_nested_arithmetic() {
    // 3 * 4 computed with a nested loop body
    let (output, status) = run("+++[>++++<-]>.", &[], 1_000);
    assert_eq!(status, ExecStatus::Finished);
    assert_eq!(output, vec![12u8]);
}

#[test]
fn strip_carriage_returns_drops_only_cr() {
    let input = vec![b'a', b'\r', b'\n', b'b', b'\r'];
    assert_eq!(strip_carriage_returns(&input), vec![b'a', b'\n', b'b']);
    let clean = vec![1u8, 2, 3];
    assert_eq!(strip_carriage_returns(&clean), clean);
    assert_eq!(strip_carriage_returns(&Vec::new()), Vec::<u8>::new());
}

#[test]
fn number_output_lines() {
    assert_eq!(number_output_line(0), "output: 0\n");
    assert_eq!(number_output_line(7), "output: 7\n");
    assert_eq!(number_output_line(255), "output: 255\n");
}

#[test]
fn parse_cell_value_accepts_plain_numbers() {
    assert_eq!(parse_cell_value("0"), Ok(0));
    assert_eq!(parse_cell_value("123"), Ok(123));
    assert_eq!(parse_cell_value("255"), Ok(255));
    assert_eq!(parse_cell_value(" 42 \n"), Ok(42));
    assert_eq!(parse_cell_value("+007"), Ok(7));
}

#[test]
fn parse_cell_value_trims_unicode_whitespace() {
    assert_eq!(parse_cell_value("5\u{00A0}"), Ok(5));
    assert_eq!(parse_cell_value("\u{00A0}\u{2009} 7 \u{3000}\n"), Ok(7));
    assert_eq!(parse_cell_value("\u{1680}42\u{2028}"), Ok(42));
    assert_eq!(parse_cell_value("\u{0085}+19\u{202F}"), Ok(19));
    // white space is trimmed at the ends only, never inside the number
    assert_eq!(parse_cell_value("5\u{00A0}5"), Err(NumParseError::InvalidDigit));
}

#[test]
fn parse_cell_value_classifies_empty() {
    assert_eq!(parse_cell_value(""), Err(NumParseError::Empty));
    assert_eq!(parse_cell_value("   \n"), Err(NumParseError::Empty));
    assert_eq!(parse_cell_value("\u{00A0}\u{2029}"), Err(NumParseError::Empty));
}

#[test]
fn parse_cell_value_classifies_invalid_digits() {
    assert_eq!(parse_cell_value("+"), Err(NumParseError::InvalidDigit));
    assert_eq!(parse_cell_value("12x"), Err(NumParseError::InvalidDigit));
    assert_eq!(parse_cell_value("-1"), Err(NumParseError::InvalidDigit));
    assert_eq!(parse_cell_value("four"), Err(NumParseError::InvalidDigit));
}

#[test]
fn parse_cell_value_classifies_overflow() {
    assert_eq!(parse_cell_value("256"), Err(NumParseError::Overflow));
    assert_eq!(parse_cell_value("1000"), Err(NumParseError::Overflow));
    // overflow is noticed digit by digit, before a later invalid character
    assert_eq!(parse_cell_value("999x"), Err(NumParseError::Overflow));
}
