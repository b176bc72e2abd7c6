use brainfuck::error::{Location, ParseError, ParseErrorKind};
use brainfuck::parser::{parse, Action};
use brainfuck::token::{tokenize, Basic, Token};

#[test]
fn tokenize_all_eight_symbols() {
    let toks = tokenize("><+-.,[]");
    let expected = [
        Token::Basic(Basic::MoveRight),
        Token::Basic(Basic::MoveLeft),
        Token::Basic(Basic::Increment),
        Token::Basic(Basic::Decrement),
        Token::Basic(Basic::Output),
        Token::Basic(Basic::Input),
        Token::StartLoop,
        Token::EndLoop,
    ];
    assert_eq!(toks.len(), 8);
    for (i, (loc, tok)) in toks.iter().enumerate() {
        assert_eq!(*loc, Location { line: 0, col: i });
        assert_eq!(*tok, expected[i]);
    }
}

#[test]
fn tokenize_skips_comments_and_counts_lines() {
    let toks = tokenize("say +\nmore -\n");
    assert_eq!(toks.len(), 2);
    assert_eq!(toks[0], (Location { line: 0, col: 4 }, Token::Basic(Basic::Increment)));
    assert_eq!(toks[1], (Location { line: 1, col: 5 }, Token::Basic(Basic::Decrement)));
}

#[test]
fn tokenize_counts_columns_in_characters() {
    // a two-byte character before the instruction still counts one column
    let toks = tokenize("\u{e9}+");
    assert_eq!(toks.len(), 1);
    assert_eq!(toks[0], (Location { line: 0, col: 1 }, Token::Basic(Basic::Increment)));
}

#[test]
fn tokenize_handles_crlf_line_endings() {
    let toks = tokenize("+\r\n-+");
    assert_eq!(toks.len(), 3);
    assert_eq!(toks[0], (Location { line: 0, col: 0 }, Token::Basic(Basic::Increment)));
    assert_eq!(toks[1], (Location { line: 1, col: 0 }, Token::Basic(Basic::Decrement)));
    assert_eq!(toks[2], (Location { line: 1, col: 1 }, Token::Basic(Basic::Increment)));
}

#[test]
fn tokenize_empty_source() {
    assert!(tokenize("").is_empty());
}

#[test]
fn parse_basic_sequence() {
    let toks = tokenize("+-><");
    let actions = parse(&toks).expect("balanced stream must parse");
    assert_eq!(actions.len(), 4);
    assert!(matches!(actions[0], Action::Basic(Basic::Increment)));
    assert!(matches!(actions[1], Action::Basic(Basic::Decrement)));
    assert!(matches!(actions[2], Action::Basic(Basic::MoveRight)));
    assert!(matches!(actions[3], Action::Basic(Basic::MoveLeft)));
}

#[test]
fn parse_empty_loop() {
    // a zero-iteration loop parses successfully
    let toks = tokenize("[]");
    let actions = parse(&toks).expect("\"[]\" must parse");
    assert_eq!(actions.len(), 1);
    match &actions[0] {
        Action::Loop(body) => assert!(body.is_empty()),
        _ => panic!("expected a loop action"),
    }
}

#[test]
fn parse_nested_loops() {
    let toks = tokenize("+[>[-]<]");
    let actions = parse(&toks).expect("nested loops must parse");
    assert_eq!(actions.len(), 2);
    match &actions[1] {
        Action::Loop(body) => {
            assert_eq!(body.len(), 3);
            match &body[1] {
                Action::Loop(inner) => {
                    assert_eq!(inner.len(), 1);
                    assert!(matches!(inner[0], Action::Basic(Basic::Decrement)));
                },
                _ => panic!("expected the inner loop"),
            }
        },
        _ => panic!("expected the outer loop"),
    }
}

#[test]
fn parse_unmatched_end_at_line_one_column_one() {
    let toks = tokenize("]");
    let err = parse(&toks).unwrap_err();
    assert_eq!(
        err,
        ParseError {
            loc: Location { line: 0, col: 0 },
            kind: ParseErrorKind::UnmatchedLoopEnd,
        }
    );
    assert_eq!(err.loc.describe(), "1:1");
}

#[test]
fn parse_unmatched_start_at_first_bracket() {
    let toks = tokenize("[[]");
    let err = parse(&toks).unwrap_err();
    assert_eq!(
        err,
        ParseError {
            loc: Location { line: 0, col: 0 },
            kind: ParseErrorKind::UnmatchedLoopStart,
        }
    );
}

#[test]
fn parse_reports_innermost_unclosed_start() {
    // the first loop closes; of the two unclosed starts the innermost one
    // is reported, matching the recursive descent's first failure
    let toks = tokenize("[] [[");
    let err = parse(&toks).unwrap_err();
    assert_eq!(
        err,
        ParseError {
            loc: Location { line: 0, col: 4 },
            kind: ParseErrorKind::UnmatchedLoopStart,
        }
    );
}

#[test]
fn parse_end_before_start_reports_end() {
    let toks = tokenize("][");
    let err = parse(&toks).unwrap_err();
    assert_eq!(err.kind, ParseErrorKind::UnmatchedLoopEnd);
    assert_eq!(err.loc, Location { line: 0, col: 0 });
}

#[test]
fn error_descriptions() {
    assert_eq!(ParseErrorKind::UnmatchedLoopStart.describe(), "unmatched loop start");
    assert_eq!(ParseErrorKind::UnmatchedLoopEnd.describe(), "unmatched loop end");
    assert_eq!(Location { line: 12, col: 40 }.describe(), "13:41");
}
