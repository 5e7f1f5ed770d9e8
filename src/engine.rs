//! The execution engine: the machine's semantics as spec functions, and an
//! interpreter proved to follow them.
use vstd::prelude::*;
use crate::tape::Tape;
use crate::token::{Token, depth, nests};

verus! {

/// The number of cells of a fresh tape.
pub const TAPE_CELLS: usize = 30000;

/// Where the cursor of a fresh tape starts.
pub const TAPE_START: usize = 15000;

/// Why a run stopped before the end of its program.
#[derive(PartialEq, Eq, Structural, Copy, Clone, Debug)]
pub enum RunError {
    /// A read found no input bit left.
    InputExhausted,
    /// The tape would have to grow past the largest length the machine can
    /// address.
    ResourceExhausted,
    /// The run used up its budget of steps.
    StepLimit,
}

/// The state of the abstract machine.
pub struct State {
    /// Index of the next instruction.
    pub ip: int,
    /// Index of the tape cell under the cursor.
    pub cursor: int,
    pub tape: Seq<bool>,
    /// Input bits not read yet, first to be read first.
    pub input: Seq<bool>,
    /// Bits written so far, in order.
    pub output: Seq<bool>,
}

/// The state a run starts in: a zero tape with the cursor at its middle.
pub open spec fn initial_state(input: Seq<bool>) -> State {
    State {
        ip: 0,
        cursor: TAPE_START as int,
        tape: Seq::new(TAPE_CELLS as nat, |i: int| false),
        input,
        output: Seq::empty(),
    }
}

/// The `]` at `q` closes the `[` at `p`: the nesting depth returns to its
/// level before `p` just after `q`, and stays above it in between.
pub open spec fn closes_at(code: Seq<Token>, p: int, q: int) -> bool {
    &&& 0 <= p < q < code.len()
    &&& depth(code.take(q + 1)) == depth(code.take(p))
    &&& forall|i: int| p < i <= q ==> depth(#[trigger] code.take(i)) > depth(code.take(p))
}

/// The `[` at `q` opens the loop that the `]` at `p` closes.
pub open spec fn opens_at(code: Seq<Token>, p: int, q: int) -> bool {
    &&& 0 <= q < p < code.len()
    &&& depth(code.take(q)) == depth(code.take(p + 1))
    &&& forall|i: int| q < i <= p ==> depth(#[trigger] code.take(i)) > depth(code.take(p + 1))
}

/// The position of the `]` that matches the `[` at `p`.
pub open spec fn forward_target(code: Seq<Token>, p: int) -> int {
    choose|q: int| closes_at(code, p, q)
}

/// The position of the `[` that matches the `]` at `p`.
pub open spec fn backward_target(code: Seq<Token>, p: int) -> int {
    choose|q: int| opens_at(code, p, q)
}

/// What the instruction `t` does to a state, with the instruction pointer left
/// where the instruction puts it before the move to the next one.
pub open spec fn exec_token(code: Seq<Token>, s: State, t: Token) -> Result<State, RunError> {
    let bit = s.tape[s.cursor];
    match t {
        Token::MoveLeft => if s.cursor + 1 < s.tape.len() {
            Ok(State { cursor: s.cursor + 1, ..s })
        } else if s.tape.len() < usize::MAX {
            Ok(State { cursor: s.cursor + 1, tape: s.tape.push(false), ..s })
        } else {
            Err(RunError::ResourceExhausted)
        },
        Token::MoveRight => if s.cursor > 0 {
            Ok(State { cursor: s.cursor - 1, ..s })
        } else if s.tape.len() < usize::MAX {
            Ok(State { tape: seq![false] + s.tape, ..s })
        } else {
            Err(RunError::ResourceExhausted)
        },
        Token::Flip => Ok(State { tape: s.tape.update(s.cursor, !bit), ..s }),
        Token::Write => Ok(State { output: s.output.push(bit), ..s }),
        Token::Read => if s.input.len() == 0 {
            Err(RunError::InputExhausted)
        } else {
            Ok(State { tape: s.tape.update(s.cursor, s.input[0]), input: s.input.drop_first(), ..s })
        },
        Token::BracketLeft => if !bit {
            Ok(State { ip: forward_target(code, s.ip), ..s })
        } else {
            Ok(s)
        },
        Token::BracketRight => if bit {
            Ok(State { ip: backward_target(code, s.ip), ..s })
        } else {
            Ok(s)
        },
        Token::EOF => Ok(s),
    }
}

/// One step: the current instruction, then the move to the next one.
pub open spec fn step(code: Seq<Token>, s: State) -> Result<State, RunError> {
    match exec_token(code, s, code[s.ip]) {
        Ok(n) => Ok(State { ip: n.ip + 1, ..n }),
        Err(e) => Err(e),
    }
}

/// The outcome of running from `s` for at most `fuel` steps: the bits written
/// once the instruction pointer has left the program, or the error that
/// stopped it.
pub open spec fn run_outcome(code: Seq<Token>, s: State, fuel: nat) -> Result<Seq<bool>, RunError>
    decreases fuel,
{
    if s.ip < 0 || s.ip >= code.len() {
        Ok(s.output)
    } else if fuel == 0 {
        Err(RunError::StepLimit)
    } else {
        match step(code, s) {
            Ok(n) => run_outcome(code, n, (fuel - 1) as nat),
            Err(e) => Err(e),
        }
    }
}

/// `r` is the outcome `o`, with the output bits held in a vector.
pub open spec fn same_outcome<T>(r: Result<Vec<T>, RunError>, o: Result<Seq<T>, RunError>) -> bool {
    match r {
        Ok(v) => o == Ok::<Seq<T>, RunError>(v@),
        Err(e) => o == Err::<Seq<T>, RunError>(e),
    }
}

proof fn lemma_depth_take_step(code: Seq<Token>, k: int)
    requires
        0 <= k < code.len(),
    ensures
        depth(code.take(k + 1)) == depth(code.take(k)) + crate::token::delta(code[k]),
{
    assert(code.take(k + 1).drop_last() =~= code.take(k));
}

/// Runs a program over an input bit stream.
pub struct Interpreter {
    code: Vec<Token>,
    input: Vec<bool>,
    input_pos: usize,
    code_pointer: usize,
    data_pointer: usize,
    data: Tape,
    output: Vec<bool>,
}

impl Interpreter {
    /// The program being run.
    pub closed spec fn code(&self) -> Seq<Token> {
        self.code@
    }

    /// The machine state that the interpreter holds.
    pub closed spec fn state(&self) -> State {
        State {
            ip: self.code_pointer as int,
            cursor: self.data_pointer as int,
            tape: self.data@,
            input: self.input@.skip(self.input_pos as int),
            output: self.output@,
        }
    }

    pub closed spec fn wf(&self) -> bool {
        &&& nests(self.code@)
        &&& self.data.wf()
        &&& self.data_pointer < self.data@.len()
        &&& self.input_pos <= self.input@.len()
        &&& self.code_pointer <= self.code@.len()
    }

    /// An interpreter about to run `code` on the bits `input`.
    pub fn new(code: Vec<Token>, input: Vec<bool>) -> (r: Interpreter)
        requires
            nests(code@),
        ensures
            r.wf(),
            r.code() == code@,
            r.state() == initial_state(input@),
    {
        let r = Interpreter {
            code,
            input,
            input_pos: 0,
            code_pointer: 0,
            data_pointer: TAPE_START,
            data: Tape::new(TAPE_CELLS),
            output: Vec::new(),
        };
        assert(r.input@.skip(0) =~= r.input@);
        r
    }

    /// Moves the cursor one cell up, adding a cell at the end when it is on
    /// the last one.
    fn increment_pointer(&mut self) -> (r: Result<(), RunError>)
        requires
            old(self).wf(),
            old(self).code_pointer < old(self).code@.len(),
        ensures
            final(self).code() == old(self).code(),
            match exec_token(old(self).code(), old(self).state(), Token::MoveLeft) {
                Ok(n) => r is Ok && final(self).wf() && final(self).state() == n,
                Err(e) => r == Err::<(), RunError>(e),
            },
    {
        if self.data_pointer == self.data.len() - 1 {
            if self.data.len() == usize::MAX {
                return Err(RunError::ResourceExhausted);
            }
            self.data.grow_back();
        }
        self.data_pointer = self.data_pointer + 1;
        Ok(())
    }

    /// Moves the cursor one cell down; on the first cell, adds a cell before
    /// it and leaves the cursor on the new cell.
    fn decrement_pointer(&mut self) -> (r: Result<(), RunError>)
        requires
            old(self).wf(),
            old(self).code_pointer < old(self).code@.len(),
        ensures
            final(self).code() == old(self).code(),
            match exec_token(old(self).code(), old(self).state(), Token::MoveRight) {
                Ok(n) => r is Ok && final(self).wf() && final(self).state() == n,
                Err(e) => r == Err::<(), RunError>(e),
            },
    {
        if self.data_pointer == 0 {
            if self.data.len() == usize::MAX {
                return Err(RunError::ResourceExhausted);
            }
            self.data.grow_front();
            return Ok(());
        }
        self.data_pointer = self.data_pointer - 1;
        Ok(())
    }

    /// Toggles the bit under the cursor.
    fn flip_bit(&mut self)
        requires
            old(self).wf(),
            old(self).code_pointer < old(self).code@.len(),
        ensures
            final(self).code() == old(self).code(),
            final(self).wf(),
            exec_token(old(self).code(), old(self).state(), Token::Flip) == Ok::<State, RunError>(
                final(self).state(),
            ),
    {
        let b = self.data.get(self.data_pointer);
        self.data.set(self.data_pointer, !b);
    }

    /// Appends the bit under the cursor to the output.
    fn output(&mut self)
        requires
            old(self).wf(),
            old(self).code_pointer < old(self).code@.len(),
        ensures
            final(self).code() == old(self).code(),
            final(self).wf(),
            exec_token(old(self).code(), old(self).state(), Token::Write) == Ok::<State, RunError>(
                final(self).state(),
            ),
    {
        let b = self.data.get(self.data_pointer);
        self.output.push(b);
    }

    /// Stores the next input bit under the cursor.
    fn input(&mut self) -> (r: Result<(), RunError>)
        requires
            old(self).wf(),
            old(self).code_pointer < old(self).code@.len(),
        ensures
            final(self).code() == old(self).code(),
            match exec_token(old(self).code(), old(self).state(), Token::Read) {
                Ok(n) => r is Ok && final(self).wf() && final(self).state() == n,
                Err(e) => r == Err::<(), RunError>(e),
            },
    {
        if self.input_pos >= self.input.len() {
            return Err(RunError::InputExhausted);
        }
        let b = self.input[self.input_pos];
        self.data.set(self.data_pointer, b);
        self.input_pos = self.input_pos + 1;
        assert(self.input@.skip(self.input_pos as int) =~= old(self).input@.skip(
            old(self).input_pos as int,
        ).drop_first());
        Ok(())
    }

    /// On a zero bit, moves the instruction pointer to the `]` that matches
    /// the `[` it is on.
    fn jump_forwards(&mut self)
        requires
            old(self).wf(),
            old(self).code_pointer < old(self).code@.len(),
            old(self).code@[old(self).code_pointer as int] == Token::BracketLeft,
        ensures
            final(self).code() == old(self).code(),
            final(self).wf(),
            final(self).code_pointer < final(self).code@.len(),
            exec_token(old(self).code(), old(self).state(), Token::BracketLeft) == Ok::<
                State,
                RunError,
            >(final(self).state()),
    {
        if self.data.get(self.data_pointer) {
            return;
        }
        let ghost code = self.code@;
        let ghost p = self.code_pointer as int;
        let len = self.code.len();
        let mut needed_count: usize = 1;
        proof {
            lemma_depth_take_step(code, p);
        }
        while needed_count > 0
            invariant
                code == self.code@,
                len == code.len(),
                nests(code),
                0 <= p <= self.code_pointer < len,
                needed_count <= self.code_pointer - p + 1,
                needed_count == depth(code.take(self.code_pointer + 1)) - depth(code.take(p)),
                forall|i: int|
                    p < i <= self.code_pointer ==> depth(#[trigger] code.take(i)) > depth(
                        code.take(p),
                    ),
                self.wf(),
                self.data_pointer == old(self).data_pointer,
                self.data == old(self).data,
                self.input == old(self).input,
                self.input_pos == old(self).input_pos,
                self.output == old(self).output,
            decreases len - self.code_pointer,
        {
            assert(code.take(len as int) =~= code);
            assert(depth(code.take(p)) >= 0);
            self.code_pointer = self.code_pointer + 1;
            proof {
                lemma_depth_take_step(code, self.code_pointer as int);
            }
            if self.code[self.code_pointer] == Token::BracketLeft {
                needed_count = needed_count + 1;
            } else if self.code[self.code_pointer] == Token::BracketRight {
                needed_count = needed_count - 1;
            }
        }
        proof {
            let q = self.code_pointer as int;
            assert(closes_at(code, p, q));
            let t = forward_target(code, p);
            assert(closes_at(code, p, t));
            if t < q {
                assert(depth(code.take(t + 1)) > depth(code.take(p)));
            }
            if t > q {
                assert(depth(code.take(q + 1)) > depth(code.take(p)));
            }
        }
    }

    /// On a one bit, moves the instruction pointer to the `[` that matches
    /// the `]` it is on.
    fn jump_backwards(&mut self)
        requires
            old(self).wf(),
            old(self).code_pointer < old(self).code@.len(),
            old(self).code@[old(self).code_pointer as int] == Token::BracketRight,
        ensures
            final(self).code() == old(self).code(),
            final(self).wf(),
            final(self).code_pointer < final(self).code@.len(),
            exec_token(old(self).code(), old(self).state(), Token::BracketRight) == Ok::<
                State,
                RunError,
            >(final(self).state()),
    {
        if !self.data.get(self.data_pointer) {
            return;
        }
        let ghost code = self.code@;
        let ghost p = self.code_pointer as int;
        let len = self.code.len();
        let mut needed_count: usize = 1;
        proof {
            lemma_depth_take_step(code, p);
        }
        while needed_count > 0
            invariant
                code == self.code@,
                len == code.len(),
                nests(code),
                0 <= self.code_pointer <= p < code.len(),
                needed_count <= p - self.code_pointer + 1,
                needed_count == depth(code.take(self.code_pointer as int)) - depth(code.take(p + 1)),
                forall|i: int|
                    self.code_pointer < i <= p ==> depth(#[trigger] code.take(i)) > depth(
                        code.take(p + 1),
                    ),
                self.wf(),
                self.data_pointer == old(self).data_pointer,
                self.data == old(self).data,
                self.input == old(self).input,
                self.input_pos == old(self).input_pos,
                self.output == old(self).output,
            decreases self.code_pointer,
        {
            self.code_pointer = self.code_pointer - 1;
            proof {
                lemma_depth_take_step(code, self.code_pointer as int);
            }
            if self.code[self.code_pointer] == Token::BracketRight {
                needed_count = needed_count + 1;
            } else if self.code[self.code_pointer] == Token::BracketLeft {
                needed_count = needed_count - 1;
            }
        }
        proof {
            let q = self.code_pointer as int;
            assert(opens_at(code, p, q));
            let t = backward_target(code, p);
            assert(opens_at(code, p, t));
            if t < q {
                assert(depth(code.take(q)) > depth(code.take(p + 1)));
            }
            if t > q {
                assert(depth(code.take(t)) > depth(code.take(p + 1)));
            }
        }
    }

    /// Executes the current instruction and moves to the next one.
    pub fn step(&mut self) -> (r: Result<(), RunError>)
        requires
            old(self).wf(),
            old(self).state().ip < old(self).code().len(),
        ensures
            final(self).code() == old(self).code(),
            match step(old(self).code(), old(self).state()) {
                Ok(n) => r is Ok && final(self).wf() && final(self).state() == n,
                Err(e) => r == Err::<(), RunError>(e),
            },
    {
        let len = self.code.len();
        let r = match self.code[self.code_pointer] {
            Token::MoveLeft => self.increment_pointer(),
            Token::MoveRight => self.decrement_pointer(),
            Token::Flip => {
                self.flip_bit();
                Ok(())
            },
            Token::Write => {
                self.output();
                Ok(())
            },
            Token::Read => self.input(),
            Token::BracketLeft => {
                self.jump_forwards();
                Ok(())
            },
            Token::BracketRight => {
                self.jump_backwards();
                Ok(())
            },
            Token::EOF => Ok(()),
        };
        match r {
            Ok(()) => {
                self.code_pointer = self.code_pointer + 1;
                Ok(())
            },
            Err(e) => Err(e),
        }
    }

    /// Runs until the instruction pointer leaves the program, an instruction
    /// fails, or `max_steps` instructions have been executed; gives the bits
    /// written.
    pub fn run(&mut self, max_steps: u64) -> (r: Result<Vec<bool>, RunError>)
        requires
            old(self).wf(),
        ensures
            same_outcome(r, run_outcome(old(self).code(), old(self).state(), max_steps as nat)),
    {
        let ghost code = self.code@;
        let ghost goal = run_outcome(code, self.state(), max_steps as nat);
        let mut fuel = max_steps;
        while self.code_pointer < self.code.len()
            invariant
                self.wf(),
                self.code@ == code,
                run_outcome(code, self.state(), fuel as nat) == goal,
                goal == run_outcome(old(self).code(), old(self).state(), max_steps as nat),
            decreases fuel,
        {
            if fuel == 0 {
                return Err(RunError::StepLimit);
            }
            match self.step() {
                Ok(()) => {},
                Err(e) => {
                    return Err(e);
                },
            }
            fuel = fuel - 1;
        }
        Ok(self.output.clone())
    }
}

} // verus!
