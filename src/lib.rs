//! An interpreter for a bit-tape esoteric language: a tokenizer with bracket
//! validation, a bit-tape execution engine, and a byte/bit codec, all verified.

pub mod codec;
pub mod engine;
pub mod tape;
pub mod token;

pub use codec::{bits_to_bytes, bytes_to_bits};
pub use engine::{Interpreter, RunError};
pub use token::{SyntaxError, ToString, ToToken, Token};

use vstd::prelude::*;
use crate::codec::{bits_of_bytes, packs};
use crate::engine::{initial_state, run_outcome};
use crate::token::{depth, no_unmatched_before, tokenizes_to, tokens_of};

verus! {

/// The number of instructions a run may execute. At any realistic speed this
/// budget outlasts the machine it runs on, so a program that loops forever
/// keeps running.
pub const MAX_STEPS: u64 = 0xffff_ffff_ffff_ffff;

/// Why a program could not be run to its end.
#[derive(PartialEq, Eq, Structural, Copy, Clone, Debug)]
pub enum Error {
    /// The program text is malformed; nothing was run.
    Syntax(SyntaxError),
    /// The run stopped at a failing instruction.
    Run(RunError),
}

/// `r` is what running the program text `code` on the bytes `input` gives: a
/// syntax error exactly as the tokenizer reports it; otherwise the outcome of
/// running the instructions, followed by an end marker, on the input's bits,
/// with the bits written packed into bytes.
pub open spec fn boolfuck_result(code: Seq<char>, input: Seq<u8>, r: Result<Vec<u8>, Error>) -> bool {
    match r {
        Err(Error::Syntax(e)) => tokenizes_to(code, Err::<Vec<Token>, SyntaxError>(e)),
        _ => {
            &&& no_unmatched_before(code, code.len() as int)
            &&& depth(tokens_of(code)) == 0
            &&& match run_outcome(
                tokens_of(code).push(Token::EOF),
                initial_state(bits_of_bytes(input)),
                MAX_STEPS as nat,
            ) {
                Ok(bits) => r is Ok && packs(bits, r->Ok_0@),
                Err(e) => r == Err::<Vec<u8>, Error>(Error::Run(e)),
            }
        },
    }
}

/// Runs the program text `code` on the bytes `input` and gives the bytes it
/// writes.
pub fn boolfuck(code: &str, input: Vec<u8>) -> (r: Result<Vec<u8>, Error>)
    ensures
        boolfuck_result(code@, input@, r),
{
    let bits = bytes_to_bits(&input);
    let tokens = match code.to_token() {
        Ok(t) => t,
        Err(e) => {
            return Err(Error::Syntax(e));
        },
    };
    let mut interpreter = Interpreter::new(tokens, bits);
    match interpreter.run(MAX_STEPS) {
        Ok(out) => Ok(bits_to_bytes(&out)),
        Err(e) => Err(Error::Run(e)),
    }
}

/// Running the same program text on the same input always gives the same
/// result: the outcome depends on the two arguments alone.
pub proof fn lemma_deterministic(
    code: Seq<char>,
    input: Seq<u8>,
    r1: Result<Vec<u8>, Error>,
    r2: Result<Vec<u8>, Error>,
)
    requires
        boolfuck_result(code, input, r1),
        boolfuck_result(code, input, r2),
    ensures
        match (r1, r2) {
            (Ok(a), Ok(b)) => a@ == b@,
            (Err(e1), Err(e2)) => e1 == e2,
            _ => false,
        },
{
    match (r1, r2) {
        (Err(Error::Syntax(e1)), Err(Error::Syntax(e2))) => {
            crate::token::lemma_tokenize_unique(
                code,
                Err::<Vec<Token>, SyntaxError>(e1),
                Err::<Vec<Token>, SyntaxError>(e2),
            );
        },
        (Ok(a), Ok(b)) => {
            let bits = run_outcome(
                tokens_of(code).push(Token::EOF),
                initial_state(bits_of_bytes(input)),
                MAX_STEPS as nat,
            )->Ok_0;
            crate::codec::lemma_packing_unique(bits, a@, b@);
        },
        _ => {},
    }
}

} // verus!
