use brainfuck::compiler::{
    C_DECREASE, C_FOOTER, C_HEADER, C_INCREASE, C_LOOPENDS, C_LOOPSTRT, C_OUTPUTCH,
};
use brainfuck::{
    parse, tokenize, Action, AstNode, BFError, BFErrorCode, KeyCode, KeyStroke, Machine, Tape,
    Token,
};

fn key(c: char) -> KeyStroke {
    KeyStroke { code: KeyCode::Char(c), pressed: true, control: false }
}

/// Runs a program to its end, feeding it the given keystrokes, and returns
/// what it wrote, the dumps it asked for, and how it ended.
fn run(src: &str, comments: bool, keys: &[KeyStroke]) -> (Vec<u8>, Vec<String>, Result<(), BFError>) {
    let tokens = tokenize(src.to_string(), comments).unwrap();
    let ast = parse(tokens).unwrap();
    let mut tape = Tape::new();
    let mut machine = Machine::new(ast);
    let mut out = Vec::new();
    let mut dumps = Vec::new();
    let mut next_key = 0;
    for _ in 0..1_000_000 {
        match machine.step(&mut tape) {
            Ok(Action::Continue) => {}
            Ok(Action::Output(b)) => out.push(b),
            Ok(Action::Dump) => dumps.push(tape.render()),
            Ok(Action::AwaitInput) => {
                let k = keys[next_key];
                next_key += 1;
                if let Err(e) = machine.input(&mut tape, k) {
                    return (out, dumps, Err(e));
                }
            }
            Ok(Action::Finished) => return (out, dumps, Ok(())),
            Err(e) => return (out, dumps, Err(e)),
        }
    }
    panic!("the program did not end");
}

fn tokens_of(src: &str, comments: bool) -> Vec<Token> {
    tokenize(src.to_string(), comments).unwrap()
}

#[test]
fn tokenize_maps_each_instruction() {
    assert_eq!(
        tokens_of("+-<>[],.&?", false),
        vec![
            Token::INC,
            Token::DEC,
            Token::MLT,
            Token::MRT,
            Token::LEN,
            Token::LEX,
            Token::INP,
            Token::OUT,
            Token::END,
            Token::DBG
        ]
    );
}

#[test]
fn tokenize_skips_other_characters() {
    let src = "a+ b\n-é漢";
    let tokens = tokens_of(src, false);
    assert_eq!(tokens, vec![Token::INC, Token::DEC]);
    assert!(tokens.len() <= src.chars().count());
    assert_eq!(tokens_of("", true), vec![]);
}

#[test]
fn tokenize_comment_hides_instructions_until_newline() {
    assert_eq!(
        tokens_of("+ # skip . + -\n-", true),
        vec![Token::INC, Token::DEC]
    );
    assert_eq!(
        tokens_of("+ # skip . + -\n-", false),
        vec![Token::INC, Token::OUT, Token::INC, Token::DEC, Token::DEC]
    );
    assert_eq!(tokens_of("#.\n#.", true), vec![]);
}

#[test]
fn tokenize_comment_example_matches_plain() {
    let plain = tokens_of("+++.", true);
    assert_eq!(tokens_of("+++ # this is ignored\n.", true), plain);
    assert_eq!(tokens_of("+++ # this is ignored\n.", false), plain);
    assert_eq!(tokens_of("+++ # this is . ignored\n.", false).len(), 5);
    assert_eq!(tokens_of("+++ # this is . ignored\n.", true), plain);
}

#[test]
fn parse_lone_close_fails() {
    let e = parse(vec![Token::LEX]).unwrap_err();
    assert_eq!(e.code, BFErrorCode::UnmatchedLoopExit);
    let e = parse(tokens_of("+][", false)).unwrap_err();
    assert_eq!(e.code, BFErrorCode::UnmatchedLoopExit);
}

#[test]
fn parse_lone_open_fails() {
    let e = parse(vec![Token::LEN]).unwrap_err();
    assert_eq!(e.code, BFErrorCode::UnmatchedLoopEnter);
    let e = parse(tokens_of("[[]+", false)).unwrap_err();
    assert_eq!(e.code, BFErrorCode::UnmatchedLoopEnter);
}

#[test]
fn parse_empty_loop() {
    let ast = parse(vec![Token::LEN, Token::LEX]).unwrap();
    assert_eq!(ast.len(), 1);
    match &ast[0] {
        AstNode::LOP(body) => assert!(body.is_empty()),
        other => panic!("expected a loop, got {:?}", other),
    }
}

fn counts(ast: &[AstNode]) -> (usize, usize) {
    let mut leaves = 0;
    let mut loops = 0;
    for n in ast {
        match n {
            AstNode::LOP(b) => {
                let (l, p) = counts(b);
                leaves += l;
                loops += p + 1;
            }
            _ => leaves += 1,
        }
    }
    (leaves, loops)
}

#[test]
fn parse_nests_loops() {
    let ast = parse(tokens_of("+[->[-]<]?", false)).unwrap();
    assert_eq!(ast.len(), 3);
    assert!(matches!(ast[0], AstNode::INC));
    assert!(matches!(ast[2], AstNode::DBG));
    match &ast[1] {
        AstNode::LOP(body) => {
            assert_eq!(body.len(), 4);
            assert!(matches!(body[0], AstNode::DEC));
            assert!(matches!(body[1], AstNode::MRT));
            assert!(matches!(&body[2], AstNode::LOP(inner) if inner.len() == 1));
            assert!(matches!(body[3], AstNode::MLT));
        }
        other => panic!("expected a loop, got {:?}", other),
    }
    assert_eq!(counts(&ast), (6, 2));
}

#[test]
fn parse_flat_program_counts() {
    let ast = parse(tokens_of("+-.,<>&?", false)).unwrap();
    let (leaves, loops) = counts(&ast);
    assert_eq!(leaves + loops, 8);
}

#[test]
fn tape_starts_with_one_zero_cell() {
    let tape = Tape::new();
    assert_eq!(tape.get(), 0);
    assert_eq!(tape.render(), "<[00 ]>");
}

#[test]
fn tape_add_wraps() {
    let mut tape = Tape::new();
    tape.set(255);
    tape.add();
    assert_eq!(tape.get(), 0);
    tape.add();
    assert_eq!(tape.get(), 1);
}

#[test]
fn tape_sub_wraps() {
    let mut tape = Tape::new();
    tape.sub();
    assert_eq!(tape.get(), 255);
    tape.sub();
    assert_eq!(tape.get(), 254);
}

#[test]
fn tape_left_at_origin_stays() {
    let mut tape = Tape::new();
    tape.set(7);
    for _ in 0..5 {
        tape.mlt();
    }
    assert_eq!(tape.get(), 7);
    assert_eq!(tape.render(), "<[07 ]>");
}

#[test]
fn tape_grows_one_cell_per_move_right() {
    let mut tape = Tape::new();
    for _ in 0..3 {
        tape.mrt();
    }
    assert_eq!(tape.render(), format!("<{}[00 ]>", " 00  ".repeat(3)));
    tape.mlt();
    tape.mrt();
    assert_eq!(tape.render(), format!("<{}[00 ]>", " 00  ".repeat(3)));
    tape.mrt();
    assert_eq!(tape.render(), format!("<{}[00 ]>", " 00  ".repeat(4)));
}

#[test]
fn tape_render_shows_hex_and_characters() {
    let mut tape = Tape::new();
    tape.set(0x41);
    tape.mrt();
    tape.set(0xff);
    tape.mrt();
    tape.set(0x7e);
    tape.mlt();
    assert_eq!(tape.render(), "< 41A [FF ] 7E~ >");
}

#[test]
fn run_multiply_loop() {
    let (out, _, end) = run("++++++++[>++++++++<-]>.", false, &[]);
    assert_eq!(out, vec![64]);
    assert!(end.is_ok());
}

#[test]
fn run_outputs_three() {
    let (out, _, end) = run("+++.", false, &[]);
    assert_eq!(out, vec![3]);
    assert!(end.is_ok());
}

#[test]
fn run_end_stops_with_code() {
    let (out, _, end) = run("+++&+.", false, &[]);
    assert!(out.is_empty());
    let e = end.unwrap_err();
    assert_eq!(e.code, BFErrorCode::Exit);
    assert_eq!(e.message, "Program exited with code 3");
}

#[test]
fn run_end_inside_loop_unwinds_everything() {
    let (out, _, end) = run("+[.[&]+.]+.", false, &[]);
    assert_eq!(out, vec![1]);
    let e = end.unwrap_err();
    assert_eq!(e.code, BFErrorCode::Exit);
    assert_eq!(e.message, "Program exited with code 1");
    let (_, _, end) = run("-&", false, &[]);
    assert_eq!(end.unwrap_err().message, "Program exited with code 255");
    let (_, _, end) = run("&", false, &[]);
    assert_eq!(end.unwrap_err().message, "Program exited with code 0");
}

#[test]
fn run_comment_program_matches_plain() {
    let (out, _, end) = run("+++ # this is ignored\n.", true, &[]);
    assert_eq!(out, vec![3]);
    assert!(end.is_ok());
    let (out, _, _) = run("+++ # this is ignored\n.", false, &[]);
    assert_eq!(out, vec![3]);
    let (out, _, _) = run("+++ # not this .\n", true, &[]);
    assert!(out.is_empty());
}

#[test]
fn run_empty_program_finishes() {
    let (out, _, end) = run("", false, &[]);
    assert!(out.is_empty());
    assert!(end.is_ok());
    let (out, _, end) = run("[.]", false, &[]);
    assert!(out.is_empty());
    assert!(end.is_ok());
}

#[test]
fn run_loop_rechecks_after_each_pass() {
    let (out, _, end) = run("+++[.-]", false, &[]);
    assert_eq!(out, vec![3, 2, 1]);
    assert!(end.is_ok());
}

#[test]
fn run_input_stores_keys() {
    let keys = [
        key('A'),
        KeyStroke { code: KeyCode::Enter, pressed: true, control: false },
        key('é'),
    ];
    let (out, _, end) = run(",.,.,.", false, &keys);
    assert_eq!(out, vec![65, 10, 0xe9]);
    assert!(end.is_ok());
}

#[test]
fn run_input_skips_other_events() {
    let keys = [
        KeyStroke { code: KeyCode::Char('x'), pressed: false, control: false },
        KeyStroke { code: KeyCode::Other, pressed: true, control: false },
        KeyStroke { code: KeyCode::Char('d'), pressed: true, control: true },
    ];
    let (out, _, end) = run(",.", false, &keys);
    assert_eq!(out, vec![b'd']);
    assert!(end.is_ok());
}

#[test]
fn input_away_from_input_instruction_changes_nothing() {
    let ast = parse(tokens_of("+.", false)).unwrap();
    let mut tape = Tape::new();
    let mut machine = Machine::new(ast);
    assert!(machine.input(&mut tape, key('z')).is_ok());
    assert_eq!(tape.get(), 0);
    assert_eq!(machine.step(&mut tape).unwrap(), Action::Continue);
    assert_eq!(tape.get(), 1);
    assert_eq!(machine.step(&mut tape).unwrap(), Action::Output(1));
    assert_eq!(machine.step(&mut tape).unwrap(), Action::Finished);
    assert_eq!(machine.step(&mut tape).unwrap(), Action::Finished);
}

#[test]
fn run_ctrl_c_interrupts() {
    let keys = [KeyStroke { code: KeyCode::Char('c'), pressed: true, control: true }];
    let (out, _, end) = run("+.,+.", false, &keys);
    assert_eq!(out, vec![1]);
    assert_eq!(end.unwrap_err().code, BFErrorCode::KeyboardInterrupt);
}

#[test]
fn run_dump_shows_tape() {
    let (_, dumps, end) = run("+>++<?", false, &[]);
    assert!(end.is_ok());
    assert_eq!(dumps, vec!["<[01 ] 02  >".to_string()]);
}

#[test]
fn run_left_at_origin_is_no_op() {
    let (out, _, end) = run("<<<+.>+.<.", false, &[]);
    assert_eq!(out, vec![1, 1, 1]);
    assert!(end.is_ok());
}

#[test]
fn compile_increment_then_output() {
    let ast = parse(tokens_of("+.", false)).unwrap();
    let code = brainfuck::compile_ast_c(&ast);
    let expected = format!("{}{}{}{}", C_HEADER, C_INCREASE, C_OUTPUTCH, C_FOOTER);
    assert_eq!(code, expected);
    assert_eq!(code.matches(C_INCREASE).count(), 1);
    assert_eq!(code.matches(C_OUTPUTCH).count(), 1);
    assert!(code.starts_with("#include <stdio.h>"));
    assert!(code.ends_with("return 0;}"));
}

#[test]
fn compile_loops_and_skips_dump() {
    let ast = parse(tokens_of("[-?]", false)).unwrap();
    let code = brainfuck::compile_ast_c(&ast);
    let expected = format!("{}{}{}{}{}", C_HEADER, C_LOOPSTRT, C_DECREASE, C_LOOPENDS, C_FOOTER);
    assert_eq!(code, expected);
}

#[test]
fn error_new_keeps_fields() {
    let e = BFError::new(BFErrorCode::Exit, "done".to_string());
    assert_eq!(e.code, BFErrorCode::Exit);
    assert_eq!(e.message, "done");
}

#[test]
fn clone_copies_whole_tree() {
    let ast = parse(tokens_of("+[-[>.]<]&", false)).unwrap();
    let copy: Vec<AstNode> = ast.iter().map(|n| n.clone()).collect();
    assert_eq!(format!("{:?}", copy), format!("{:?}", ast));
    assert_eq!(brainfuck::compile_ast_c(&copy), brainfuck::compile_ast_c(&ast));
}

#[test]
fn compile_header_puts_head_in_middle() {
    assert!(C_HEADER.contains("unsigned char tape[10000] = {0};"));
    assert!(C_HEADER.contains("unsigned char *ptr = tape+5000;"));
}
