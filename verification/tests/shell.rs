use kaguyaos::cc::codegen::emit_return_u64;
use kaguyaos::cc::lexer::Token;
use kaguyaos::cc::parser::parse_return_value;
use kaguyaos::shell::history::History;
use kaguyaos::shell::jit::{
    AsmEnd, AsmStep, asm_message, asm_step, c_message, join_code, split_instructions,
};
use kaguyaos::shell::session::{Shell, ShellTask, shell};

fn typed(s: &mut Shell, line: &str) -> String {
    let (text, _) = s.run(line);
    text
}

#[test]
fn greeting_and_prompt() {
    let (s, greeting) = shell();
    assert_eq!(
        greeting,
        "\n=== Interactive Shell (Fixed Buffer) ===\nType 'help' for commands. Use Arrow Keys for history.\n"
    );
    assert_eq!(s.prompt(), "kaguya> ");
}

#[test]
fn echo_joins_words_with_single_spaces() {
    let mut s = Shell::new();
    assert_eq!(typed(&mut s, "  echo   a \t b  "), "a b\n");
    assert_eq!(typed(&mut s, "echo"), "\n");
    assert_eq!(typed(&mut s, "echo\u{3000}x"), "x\n");
}

#[test]
fn help_names_the_commands() {
    let mut s = Shell::new();
    let text = typed(&mut s, "help");
    assert!(text.starts_with("Commands: help, echo, history, clear, shutdown, asm, c\n"));
    assert!(text.ends_with("  Example: c uint64_t f() { return 42; }\n"));
    assert_eq!(text.lines().count(), 7);
}

#[test]
fn unknown_command_is_named() {
    let mut s = Shell::new();
    assert_eq!(
        typed(&mut s, "frob x"),
        "Unknown command: frob. Type 'help' for available commands.\n"
    );
    // A command has to stand alone or before white space.
    assert_eq!(
        typed(&mut s, "cat"),
        "Unknown command: cat. Type 'help' for available commands.\n"
    );
}

#[test]
fn history_shows_oldest_first_and_drops_the_eleventh() {
    let mut s = Shell::new();
    for i in 0..10 {
        typed(&mut s, &format!("echo {}", i));
    }
    let text = typed(&mut s, "history");
    let lines: Vec<&str> = text.lines().collect();
    assert_eq!(lines.len(), 10);
    assert_eq!(lines[0], "echo 1");
    assert_eq!(lines[8], "echo 9");
    assert_eq!(lines[9], "history");
}

#[test]
fn history_cut_inside_a_character_is_invalid() {
    let mut s = Shell::new();
    let long = format!("echo {}é", "x".repeat(58));
    typed(&mut s, &long);
    assert_eq!(typed(&mut s, "history"), "<invalid utf8>\nhistory\n");
}

#[test]
fn history_without_commands() {
    let s = Shell::new();
    let (text, _) = s.eval("history");
    assert_eq!(text, "No history.\n");
}

#[test]
fn history_ring_keeps_ten() {
    let mut h = History::new();
    assert_eq!(h.len(), 0);
    assert!(h.get_history(0).is_none());
    for i in 0..12u8 {
        h.add_history(&[b'a' + i]);
    }
    assert_eq!(h.len(), 10);
    assert_eq!(h.get_history(0).unwrap(), b"l");
    assert_eq!(h.get_history(9).unwrap(), b"c");
    assert!(h.get_history(10).is_none());
    h.add_history(&[7u8; 100]);
    assert_eq!(h.get_history(0).unwrap().len(), 64);
    assert_eq!(h.get_history(1).unwrap(), b"l");
}

#[test]
fn shutdown_and_clear_are_tasks() {
    let mut s = Shell::new();
    let (text, task) = s.run("shutdown");
    assert_eq!(text, "Bye!\n");
    assert!(matches!(task, ShellTask::Shutdown));
    let (text, task) = s.run("clear now");
    assert_eq!(text, "");
    assert!(matches!(task, ShellTask::Clear));
    let (text, task) = s.run("   ");
    assert_eq!(text, "");
    assert!(matches!(task, ShellTask::Nothing));
}

#[test]
fn inline_asm_and_c() {
    let mut s = Shell::new();
    match s.run("asm mov rax, 1; ret") {
        (text, ShellTask::Assemble(src)) => {
            assert_eq!(text, "");
            assert_eq!(src, "mov rax, 1; ret");
        }
        _ => panic!("not assembled"),
    }
    match s.run("c\tuint64_t f() { return 42; }") {
        (_, ShellTask::Compile(src)) => assert_eq!(src, "uint64_t f() { return 42; }"),
        _ => panic!("not compiled"),
    }
}

#[test]
fn asm_block_is_joined_with_semicolons() {
    let mut s = Shell::new();
    let (text, _) = s.run("asm");
    assert!(text.starts_with("Entering multi-line asm mode."));
    assert_eq!(s.prompt(), "asm> ");
    typed(&mut s, " mov rax, 1 ");
    typed(&mut s, "");
    typed(&mut s, "inc rax");
    match s.run("done") {
        (_, ShellTask::Assemble(src)) => assert_eq!(src, "mov rax, 1;inc rax"),
        _ => panic!("not assembled"),
    }
    assert_eq!(s.prompt(), "kaguya> ");
}

#[test]
fn c_block_is_joined_with_spaces() {
    let mut s = Shell::new();
    typed(&mut s, "c");
    assert_eq!(s.prompt(), "c> ");
    typed(&mut s, "uint64_t f() {");
    typed(&mut s, "return 1; }");
    match s.run("done") {
        (_, ShellTask::Compile(src)) => assert_eq!(src, "uint64_t f() { return 1; }"),
        _ => panic!("not compiled"),
    }
}

#[test]
fn empty_and_cancelled_blocks() {
    let mut s = Shell::new();
    typed(&mut s, "asm");
    assert_eq!(typed(&mut s, "done"), "No instructions entered.\n");
    typed(&mut s, "asm");
    assert_eq!(typed(&mut s, "cancel"), "Asm cancelled.\n");
    typed(&mut s, "c");
    assert_eq!(typed(&mut s, "done"), "No code entered.\n");
    typed(&mut s, "c");
    assert_eq!(typed(&mut s, "cancel"), "C cancelled.\n");
    assert_eq!(s.prompt(), "kaguya> ");
}

#[test]
fn instructions_are_split_and_trimmed() {
    assert_eq!(split_instructions(" a ;; b;c "), vec!["a", "b", "c"]);
    assert!(split_instructions(" ; ").is_empty());
}

#[test]
fn asm_steps() {
    assert!(matches!(asm_step(&vec![]), AsmStep::Nothing));
    assert!(matches!(asm_step(&vec![true, true]), AsmStep::Encode));
    assert!(matches!(asm_step(&vec![true, false, false]), AsmStep::Unparsed(1)));
}

#[test]
fn code_is_joined_in_order_with_one_return() {
    let parts = vec![vec![0x48, 0x31, 0xC0], vec![], vec![0x90]];
    assert_eq!(join_code(&parts, &vec![0xC3]), vec![0x48, 0x31, 0xC0, 0x90, 0xC3]);
    assert_eq!(join_code(&vec![], &vec![0xC3]), vec![0xC3]);
}

#[test]
fn asm_messages() {
    assert_eq!(
        asm_message(&AsmEnd::Unparsed(String::from("frob"))),
        "Failed to parse instruction: frob\n"
    );
    assert_eq!(asm_message(&AsmEnd::Nothing), "No valid instructions found.\n");
    assert_eq!(asm_message(&AsmEnd::Encoding(String::from("bad"))), "Encoding error: bad\n");
    assert_eq!(asm_message(&AsmEnd::NoMemory), "JIT allocation error.\n");
    assert_eq!(asm_message(&AsmEnd::WriteFailed), "JIT write error.\n");
    assert_eq!(asm_message(&AsmEnd::NotExecutable), "JIT make-executable error.\n");
    assert_eq!(asm_message(&AsmEnd::Result(u64::MAX)), "Result: 18446744073709551615\n");
}

#[test]
fn c_messages() {
    assert_eq!(c_message(&Ok(0)), "Result: 0\n");
    assert_eq!(c_message(&Err(String::from("no"))), "C JIT error: no\n");
}

fn function(n: u64) -> Vec<Token> {
    vec![
        Token::Ident(String::from("uint64_t")),
        Token::Ident(String::from("f")),
        Token::LParen,
        Token::RParen,
        Token::LBrace,
        Token::Return,
        Token::Number(n),
        Token::Semicolon,
        Token::RBrace,
    ]
}

#[test]
fn parses_a_return_value() {
    assert_eq!(parse_return_value(&function(42)), Ok(42));
    let mut longer = function(7);
    longer.push(Token::LParen);
    assert_eq!(parse_return_value(&longer), Ok(7));
}

#[test]
fn parse_errors_name_what_was_expected() {
    assert_eq!(
        parse_return_value(&[]),
        Err(String::from("Expected return-type identifier"))
    );
    let tokens = function(1);
    assert_eq!(parse_return_value(&tokens[..1]), Err(String::from("Expected function name")));
    assert_eq!(
        parse_return_value(&tokens[..2]),
        Err(String::from("Expected LParen, got None"))
    );
    assert_eq!(
        parse_return_value(&tokens[..6]),
        Err(String::from("Expected integer literal after 'return'"))
    );
    let mut named = function(1);
    named[2] = Token::Ident(String::from("a\"b"));
    assert_eq!(
        parse_return_value(&named),
        Err(String::from("Expected LParen, got Some(Ident(\"a\\\"b\"))"))
    );
    let mut numbered = function(1);
    numbered[7] = Token::Number(3);
    assert_eq!(
        parse_return_value(&numbered),
        Err(String::from("Expected Semicolon, got Some(Number(3))"))
    );
}

#[test]
fn tokens_describe_themselves() {
    assert_eq!(Token::Ident(String::from("x\n")).describe(), "Ident(\"x\\n\")");
    assert_eq!(Token::Return.describe(), format!("{:?}", Token::Return));
    assert!(Token::Ident(String::from("a")).matches(&Token::Ident(String::from("a"))));
    assert!(!Token::Number(1).matches(&Token::Number(2)));
    assert!(!Token::LParen.matches(&Token::RParen));
}

#[test]
fn return_code_bytes() {
    assert_eq!(
        emit_return_u64(0x1122_3344_5566_7788),
        vec![0x48, 0xB8, 0x88, 0x77, 0x66, 0x55, 0x44, 0x33, 0x22, 0x11, 0xC3]
    );
}
