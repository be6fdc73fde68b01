use bfasm::codegen::to_asm;
use bfasm::compiler::compile;
use bfasm::filter::{chars_of, filter_chars, is_command_char};
use bfasm::parser::{parse, parse_level};
use bfasm::template::{assemble, splice};
use bfasm::token::{recursive_len, ParseError, Token};

#[test]
fn filter_keeps_commands_in_order() {
    assert_eq!(filter_chars("a+b-c[>]<,.x\n y"), "+-[>]<,.");
}

#[test]
fn filter_of_empty_and_comment_only() {
    assert_eq!(filter_chars(""), "");
    assert_eq!(filter_chars("hello world\n"), "");
}

#[test]
fn filter_twice_is_filter_once() {
    let inputs = ["x+y[-]z", "", "no commands", "+-<>,.[]", "é[ü+]ß"];
    for s in inputs {
        let once = filter_chars(s);
        let twice = filter_chars(&once);
        assert_eq!(once, twice);
        assert!(once.chars().all(is_command_char));
    }
}

#[test]
fn command_symbols_recognised() {
    for c in ['>', '<', '+', '-', ',', '.', '[', ']'] {
        assert!(is_command_char(c));
    }
    for c in ['a', ' ', '\n', '{', '(', '0'] {
        assert!(!is_command_char(c));
    }
}

#[test]
fn chars_of_keeps_every_char() {
    assert_eq!(chars_of("aé+"), vec!['a', 'é', '+']);
    assert_eq!(chars_of(""), Vec::<char>::new());
}

#[test]
fn parse_increments_and_output() {
    assert_eq!(
        parse("+++."),
        Ok(vec![Token::IncVal, Token::IncVal, Token::IncVal, Token::PutChar])
    );
}

#[test]
fn parse_every_leaf() {
    assert_eq!(
        parse("><+-,."),
        Ok(vec![
            Token::IncPtr,
            Token::DecPtr,
            Token::IncVal,
            Token::DecVal,
            Token::GetChar,
            Token::PutChar
        ])
    );
}

#[test]
fn parse_simple_loop() {
    assert_eq!(parse("[-]"), Ok(vec![Token::Loop(vec![Token::DecVal])]));
}

#[test]
fn parse_nested_and_sibling_loops() {
    assert_eq!(
        parse("+[>[-]<][]."),
        Ok(vec![
            Token::IncVal,
            Token::Loop(vec![
                Token::IncPtr,
                Token::Loop(vec![Token::DecVal]),
                Token::DecPtr
            ]),
            Token::Loop(vec![]),
            Token::PutChar
        ])
    );
}

#[test]
fn parse_empty() {
    assert_eq!(parse(""), Ok(vec![]));
}

#[test]
fn parse_unclosed_open_bracket() {
    assert_eq!(parse("[+"), Err(ParseError::UnmatchedOpenBracket));
    assert_eq!(parse("[[]"), Err(ParseError::UnmatchedOpenBracket));
}

#[test]
fn parse_stray_close_bracket() {
    assert_eq!(parse("+]"), Err(ParseError::UnmatchedCloseBracket));
    assert_eq!(parse("]["), Err(ParseError::UnmatchedCloseBracket));
    assert_eq!(parse("[]]["), Err(ParseError::UnmatchedCloseBracket));
}

fn render(tokens: &[Token]) -> String {
    let mut s = String::new();
    for t in tokens {
        match t {
            Token::IncPtr => s.push('>'),
            Token::DecPtr => s.push('<'),
            Token::IncVal => s.push('+'),
            Token::DecVal => s.push('-'),
            Token::GetChar => s.push(','),
            Token::PutChar => s.push('.'),
            Token::Loop(body) => {
                s.push('[');
                s.push_str(&render(body));
                s.push(']');
            }
        }
    }
    s
}

#[test]
fn parse_then_render_round_trips() {
    for s in ["", "+", "[]", "[[[]]]", "+[>[-]<][].", ",[.,]", "[-][+][<[>]]"] {
        let tokens = parse(s).unwrap();
        assert_eq!(render(&tokens), s);
    }
}

#[test]
fn nested_level_stops_at_its_bracket() {
    let src: Vec<char> = "[+[-]>]<".chars().collect();
    let body = parse_level(&src, 1, true).unwrap();
    assert_eq!(
        body,
        vec![Token::IncVal, Token::Loop(vec![Token::DecVal]), Token::IncPtr]
    );
    let len = recursive_len(&body);
    assert_eq!(len, 5);
    assert_eq!(src[1 + len], ']');
}

#[test]
fn nested_level_without_close() {
    let src: Vec<char> = "[+[-]".chars().collect();
    assert_eq!(
        parse_level(&src, 1, true),
        Err(ParseError::UnmatchedOpenBracket)
    );
}

#[test]
fn consumed_length_counts_brackets() {
    assert_eq!(recursive_len(&vec![]), 0);
    let tokens = parse("+[>[-]<][].").unwrap();
    assert_eq!(recursive_len(&tokens), 11);
}

#[test]
fn code_for_increments_and_output() {
    let tokens = parse("+++.").unwrap();
    let mut loops: u64 = 0;
    let code = to_asm(&mut loops, &tokens);
    assert_eq!(
        code,
        "    inc byte [buffer + r8]\n    inc byte [buffer + r8]\n    inc byte [buffer + r8]\n    put\n"
    );
    assert_eq!(loops, 0);
}

#[test]
fn code_for_every_leaf() {
    let tokens = parse("><-,").unwrap();
    let mut loops: u64 = 0;
    assert_eq!(
        to_asm(&mut loops, &tokens),
        "    inc r8\n    dec r8\n    dec byte [buffer + r8]\n    get\n"
    );
}

#[test]
fn code_for_simple_loop() {
    let tokens = parse("[-]").unwrap();
    let mut loops: u64 = 0;
    let code = to_asm(&mut loops, &tokens);
    assert_eq!(
        code,
        "    jmp .L2\n.L3:\n    dec byte [buffer + r8]\n.L2:\n    loop_check .L3\n"
    );
    assert_eq!(loops, 2);
}

#[test]
fn nested_and_sibling_loops_get_fresh_labels() {
    let tokens = parse("[[]][]").unwrap();
    let mut loops: u64 = 0;
    let code = to_asm(&mut loops, &tokens);
    assert_eq!(
        code,
        "    jmp .L2\n.L3:\n    jmp .L4\n.L5:\n.L4:\n    loop_check .L5\n.L2:\n    loop_check .L3\n    jmp .L6\n.L7:\n.L6:\n    loop_check .L7\n"
    );
    assert_eq!(loops, 6);
}

#[test]
fn labels_with_several_digits() {
    let tokens = parse("[]").unwrap();
    let mut loops: u64 = 98;
    let code = to_asm(&mut loops, &tokens);
    assert_eq!(code, "    jmp .L100\n.L101:\n.L100:\n    loop_check .L101\n");
    assert_eq!(loops, 100);
}

#[test]
fn labels_are_all_distinct() {
    let tokens = parse("[[][[]]][[]]").unwrap();
    let mut loops: u64 = 0;
    let code = to_asm(&mut loops, &tokens);
    let mut placed: Vec<&str> = code
        .lines()
        .filter(|l| l.starts_with(".L"))
        .collect();
    assert_eq!(placed.len(), 12);
    placed.sort();
    placed.dedup();
    assert_eq!(placed.len(), 12);
    assert_eq!(loops, 12);
}

#[test]
fn assemble_replaces_marker() {
    let template = "section .text\n_start:\n;   code\n    exit\n";
    assert_eq!(
        assemble(template, "    put\n"),
        "section .text\n_start:\n    put\n\n    exit\n"
    );
}

#[test]
fn assemble_without_marker_keeps_template() {
    assert_eq!(assemble("no marker here", "    put\n"), "no marker here");
    assert_eq!(assemble(";  code", "x"), ";  code");
}

#[test]
fn splice_replaces_each_occurrence() {
    assert_eq!(splice("abXYcdXY", "XY", "-"), "ab-cd-");
    assert_eq!(splice("XXX", "XX", "y"), "yX");
    assert_eq!(splice("", "XX", "y"), "");
}

#[test]
fn compile_whole_program() {
    let template = "start\n;   code\nend\n";
    assert_eq!(
        compile("add: ++ loop [ - ] print .", template),
        Ok("start\n    inc byte [buffer + r8]\n    inc byte [buffer + r8]\n    jmp .L2\n.L3:\n    dec byte [buffer + r8]\n.L2:\n    loop_check .L3\n    put\n\nend\n".to_string())
    );
}

#[test]
fn compile_reports_parse_errors() {
    assert_eq!(compile("x [ + y", ";   code"), Err(ParseError::UnmatchedOpenBracket));
    assert_eq!(compile("+ ] x", ";   code"), Err(ParseError::UnmatchedCloseBracket));
}
