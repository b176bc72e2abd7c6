use brainfuck::assembler::AsmError;
use brainfuck::compiler::{compile, count_loops};
use brainfuck::decimal::dec_string_u64;
use brainfuck::io::IoKind;
use brainfuck::parser::parse;
use brainfuck::token::tokenize;

fn compile_source(src: &str, io: IoKind) -> String {
    let toks = tokenize(src);
    let actions = parse(&toks).expect("source must parse");
    compile(&actions, &io, "PRELUDE")
}

#[test]
fn decimal_rendering() {
    assert_eq!(dec_string_u64(0), "0");
    assert_eq!(dec_string_u64(7), "7");
    assert_eq!(dec_string_u64(10), "10");
    assert_eq!(dec_string_u64(12345), "12345");
    assert_eq!(dec_string_u64(u64::MAX), "18446744073709551615");
}

#[test]
fn compile_basic_actions_std() {
    let out = compile_source("+-><.,", IoKind::Std);
    let expected = "PRELUDE\nsection .text\nrun:\n\
        inc byte [rbx]\n\
        dec byte [rbx]\n\
        inc rbx\n\
        dec rbx\n\
        call output_std\n\
        call input_std\n\
        ret\n";
    assert_eq!(out, expected);
}

#[test]
fn compile_selects_numeric_io_subroutines() {
    let out = compile_source(".,", IoKind::Num);
    let expected = "PRELUDE\nsection .text\nrun:\n\
        call output_num\n\
        call input_num\n\
        ret\n";
    assert_eq!(out, expected);
}

#[test]
fn compile_single_loop() {
    let out = compile_source("[-]", IoKind::Std);
    let expected = "PRELUDE\nsection .text\nrun:\n\
        .loop0_start:\n\
        cmp byte [rbx], 0\n\
        je .loop0_exit\n\
        dec byte [rbx]\n\
        jmp .loop0_start\n\
        .loop0_exit:\n\
        \n\
        ret\n";
    assert_eq!(out, expected);
}

#[test]
fn compile_numbers_nested_loops_depth_first() {
    let out = compile_source("[[][]]", IoKind::Std);
    let expected = "PRELUDE\nsection .text\nrun:\n\
        .loop0_start:\n\
        cmp byte [rbx], 0\n\
        je .loop0_exit\n\
        .loop1_start:\n\
        cmp byte [rbx], 0\n\
        je .loop1_exit\n\
        jmp .loop1_start\n\
        .loop1_exit:\n\
        \n\
        .loop2_start:\n\
        cmp byte [rbx], 0\n\
        je .loop2_exit\n\
        jmp .loop2_start\n\
        .loop2_exit:\n\
        \n\
        jmp .loop0_start\n\
        .loop0_exit:\n\
        \n\
        ret\n";
    assert_eq!(out, expected);
}

#[test]
fn compile_gives_every_loop_a_distinct_label() {
    // five loops at assorted depths: exactly the numbers 0..=4, each once
    let out = compile_source("[[[]]][][]", IoKind::Std);
    for id in 0..5 {
        let start = format!(".loop{id}_start:\n");
        let exit = format!(".loop{id}_exit:\n");
        assert_eq!(out.matches(&start).count(), 1, "one start label for {id}");
        assert_eq!(out.matches(&exit).count(), 1, "one exit label for {id}");
    }
    assert_eq!(out.matches("_start:").count(), 5);
    assert_eq!(out.matches("_exit:").count(), 5);
}

#[test]
fn count_loops_counts_nested_ones() {
    let parse_count = |src: &str| {
        let toks = tokenize(src);
        let actions = parse(&toks).expect("source must parse");
        count_loops(&actions)
    };
    assert_eq!(parse_count(""), 0);
    assert_eq!(parse_count("+-><.,"), 0);
    assert_eq!(parse_count("[]"), 1);
    assert_eq!(parse_count("[[][]]"), 3);
    assert_eq!(parse_count("[[[]]][][]"), 5);
}

#[test]
fn asm_error_reports() {
    let e = AsmError::FileSystem(String::from("no such file"));
    assert_eq!(e.describe(), "filesystem error:\nno such file");
    let e = AsmError::Command("nasm", String::from("not found"));
    assert_eq!(e.describe(), "error executing nasm:\nnot found");
    let e = AsmError::NasmErr(String::from("bad opcode"));
    assert_eq!(e.describe(), "nasm failed with:\nbad opcode");
    let e = AsmError::LinkerErr(String::from("missing symbol"));
    assert_eq!(e.describe(), "linker failed with:\nmissing symbol");
}

#[test]
fn compile_empty_program() {
    let out = compile_source("", IoKind::Std);
    assert_eq!(out, "PRELUDE\nsection .text\nrun:\nret\n");
}
