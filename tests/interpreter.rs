use boolfuck::engine::{Interpreter, RunError};
use boolfuck::tape::Tape;
use boolfuck::{bits_to_bytes, boolfuck, bytes_to_bits, Error, SyntaxError, ToString, ToToken, Token};

#[test]
fn echo_one_byte_bit_by_bit() {
    assert_eq!(boolfuck(",;,;,;,;,;,;,;,;", vec![0x01]), Ok(vec![0x01]));
}

#[test]
fn echo_high_byte_bit_by_bit() {
    assert_eq!(boolfuck(",;,;,;,;,;,;,;,;", vec![0x80]), Ok(vec![0x80]));
    assert_eq!(boolfuck(",;,;,;,;,;,;,;,;", vec![0xa5]), Ok(vec![0xa5]));
}

#[test]
fn end_marker_alone_gives_zero_byte() {
    assert_eq!(boolfuck("\0", vec![]), Ok(vec![0x00]));
    assert_eq!(boolfuck("\0", vec![0xff, 0x12]), Ok(vec![0x00]));
}

#[test]
fn empty_program_gives_zero_byte() {
    assert_eq!(boolfuck("", vec![]), Ok(vec![0x00]));
    assert_eq!(boolfuck("only a comment", vec![0x33]), Ok(vec![0x00]));
}

#[test]
fn far_backward_motion_grows_tape() {
    let mut program = ">".repeat(20000);
    program.push_str("+;");
    assert_eq!(boolfuck(&program, vec![]), Ok(vec![0b0000_0001]));
}

#[test]
fn far_forward_motion_grows_tape() {
    let mut program = "<".repeat(20000);
    program.push_str("+;>;<;");
    assert_eq!(boolfuck(&program, vec![]), Ok(vec![0b0000_0101]));
}

#[test]
fn read_on_empty_input_fails() {
    assert_eq!(boolfuck(",", vec![]), Err(Error::Run(RunError::InputExhausted)));
    assert_eq!(
        boolfuck(",;,;,;,;,;,;,;,;,;", vec![0xff]),
        Err(Error::Run(RunError::InputExhausted))
    );
}

#[test]
fn stray_close_is_rejected() {
    assert_eq!("]".to_token(), Err(SyntaxError::UnmatchedLoopEnd(0)));
    assert_eq!("+ ]".to_token(), Err(SyntaxError::UnmatchedLoopEnd(2)));
    assert_eq!("[]]".to_token(), Err(SyntaxError::UnmatchedLoopEnd(2)));
    assert_eq!("]]".to_token(), Err(SyntaxError::UnmatchedLoopEnd(0)));
    assert_eq!(
        boolfuck("]", vec![]),
        Err(Error::Syntax(SyntaxError::UnmatchedLoopEnd(0)))
    );
}

#[test]
fn unclosed_loops_are_counted() {
    assert_eq!("[[+".to_token(), Err(SyntaxError::UnbalancedLoopStarts(2)));
    assert_eq!("[[]".to_token(), Err(SyntaxError::UnbalancedLoopStarts(1)));
    assert_eq!(
        boolfuck("[", vec![]),
        Err(Error::Syntax(SyntaxError::UnbalancedLoopStarts(1)))
    );
}

#[test]
fn balanced_text_tokenizes_with_one_end_marker() {
    let tokens = "a<b>c[d+e]f,g;h".to_token().unwrap();
    assert_eq!(
        tokens,
        vec![
            Token::MoveLeft,
            Token::MoveRight,
            Token::BracketLeft,
            Token::Flip,
            Token::BracketRight,
            Token::Read,
            Token::Write,
            Token::EOF,
        ]
    );
    let nested = "[[]][]".to_token().unwrap();
    assert_eq!(nested.len(), 7);
    assert_eq!(nested.iter().filter(|t| **t == Token::EOF).count(), 1);
    assert_eq!(nested[6], Token::EOF);
}

#[test]
fn null_character_is_kept_and_end_marker_appended() {
    assert_eq!(
        "+\0+".to_token(),
        Ok(vec![Token::Flip, Token::EOF, Token::Flip, Token::EOF])
    );
    assert_eq!("".to_token(), Ok(vec![Token::EOF]));
}

#[test]
fn tokens_render_to_text() {
    let tokens = "<>[+],;".to_token().unwrap();
    assert_eq!(tokens.to_string(), String::from("<>[+],;\0"));
    assert_eq!(Vec::<Token>::new().to_string(), String::new());
}

#[test]
fn bytes_expand_least_significant_bit_first() {
    assert_eq!(
        bytes_to_bits(&vec![0x05]),
        vec![true, false, true, false, false, false, false, false]
    );
    assert_eq!(
        bytes_to_bits(&vec![0x80]),
        vec![false, false, false, false, false, false, false, true]
    );
    assert_eq!(bytes_to_bits(&vec![]), Vec::<bool>::new());
    assert_eq!(bytes_to_bits(&vec![0xff, 0x00]).len(), 16);
}

#[test]
fn bits_pack_with_zero_padding() {
    assert_eq!(bits_to_bytes(&vec![]), vec![0x00]);
    assert_eq!(bits_to_bytes(&vec![true]), vec![0x01]);
    assert_eq!(bits_to_bytes(&vec![false, true, true]), vec![0x06]);
    let eight = vec![true, false, false, false, false, false, false, true];
    assert_eq!(bits_to_bytes(&eight), vec![0x81]);
    let mut nine = eight.clone();
    nine.push(true);
    assert_eq!(bits_to_bytes(&nine), vec![0x81, 0x01]);
}

#[test]
fn codec_round_trip() {
    let bytes: Vec<u8> = vec![0x00, 0x01, 0x7f, 0x80, 0xff, 0x5a, 0xc3];
    assert_eq!(bits_to_bytes(&bytes_to_bits(&bytes)), bytes);
    for b in 0..=255u8 {
        assert_eq!(bits_to_bytes(&bytes_to_bits(&vec![b])), vec![b]);
    }
}

#[test]
fn runs_are_deterministic() {
    let program = "+[,;]<+>;";
    let input = vec![0x07, 0x99];
    let first = boolfuck(program, input.clone());
    let second = boolfuck(program, input);
    assert_eq!(first, second);
}

#[test]
fn loop_copies_until_zero_bit() {
    // reads and writes bits while the bit just read is one
    assert_eq!(boolfuck("+[,;]", vec![0x07]), Ok(vec![0x07]));
}

#[test]
fn loop_on_zero_bit_is_skipped() {
    assert_eq!(boolfuck("[+;]+;", vec![]), Ok(vec![0x01]));
    assert_eq!(boolfuck("[[+;]+;]+;;", vec![]), Ok(vec![0x03]));
}

#[test]
fn flip_twice_restores_bit() {
    assert_eq!(boolfuck("+;+;++;", vec![]), Ok(vec![0b0000_0001]));
}

#[test]
fn step_budget_stops_endless_loop() {
    let tokens = "+[]".to_token().unwrap();
    let mut interpreter = Interpreter::new(tokens, vec![]);
    assert_eq!(interpreter.run(1000), Err(RunError::StepLimit));
}

#[test]
fn interpreter_steps_one_instruction_at_a_time() {
    let tokens = ",;".to_token().unwrap();
    let mut interpreter = Interpreter::new(tokens, vec![true]);
    assert_eq!(interpreter.step(), Ok(()));
    assert_eq!(interpreter.step(), Ok(()));
    assert_eq!(interpreter.run(10), Ok(vec![true]));
}

#[test]
fn tape_grows_at_both_ends() {
    let mut tape = Tape::new(3);
    assert_eq!(tape.len(), 3);
    tape.set(2, true);
    tape.grow_front();
    assert_eq!(tape.len(), 4);
    assert!(!tape.get(0));
    assert!(tape.get(3));
    tape.set(0, true);
    tape.grow_back();
    assert_eq!(tape.len(), 5);
    assert!(tape.get(0));
    assert!(!tape.get(1));
    assert!(!tape.get(4));
}
