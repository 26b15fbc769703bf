//! The execution engine: one transition at a time, or a whole run.
//!
//! What a program does is fixed by `transition`, a function from a state and
//! an input event to the next state and an action, and by `run`, which
//! repeats it. The engine is proved to compute both. Reading and printing are
//! left to the caller: a transition takes the byte that was read, if any, and
//! hands back the character to print, if any.

use crate::error::{ErrorKind, EvalError};
use crate::loops::{
    balanced, lemma_begin_has_end, lemma_end_has_begin, lemma_resolution_cases, matched,
    matching_begin, matching_end, resolution_error, resolve_loops, LoopMap,
};
use crate::parser::Node;
use crate::runtime::{Cell, Runtime, TapeState};
use std::collections::HashMap;
use vstd::prelude::*;

verus! {

/// What the caller does after a transition.
#[derive(Clone, Copy, Debug, PartialEq, Eq, Structural)]
pub enum Action {
    /// Nothing: go on with the next transition.
    Continue,
    /// Print this character and go on.
    Emit(char),
    /// Stop: the instruction pointer is at the end of the program.
    Halt,
    /// Stop: the instruction failed, and the state is as it was before it.
    Fail(EvalError),
}

/// How a run ended.
#[derive(Clone, Copy, Debug, PartialEq, Eq, Structural)]
pub enum Status {
    /// The instruction pointer reached the end of the program.
    Halted,
    /// The allowed number of instructions has been executed and the program
    /// has not ended. Another run picks up where this one stopped.
    Paused,
    /// An instruction failed; the run stopped in front of it.
    Failed(EvalError),
}

/// What one call of `evaluate` did.
#[derive(Debug)]
pub struct Evaluation {
    /// The characters printed, in the order of printing.
    pub output: Vec<char>,
    /// How many bytes of the input were read.
    pub consumed: usize,
    /// How the run ended.
    pub status: Status,
}

/// The cell that holds the input byte `byte`: the same eight bits, read as a
/// signed number.
pub open spec fn cell_of_byte(byte: u8) -> Cell {
    if byte < 128 {
        byte as Cell
    } else {
        (byte - 256) as Cell
    }
}

/// The cell is the code of a character: it is not negative.
pub open spec fn printable(cell: Cell) -> bool {
    0 <= cell
}

/// The character whose code is the cell.
pub open spec fn char_of_cell(cell: Cell) -> char {
    cell as char
}

/// One transition of the engine: the state after the instruction under the
/// instruction pointer, and what the caller is to do. `input` is the byte
/// that an input instruction reads; `None` says that no input is left.
///
/// A jump lands on the partner of the loop marker, and the advance that
/// follows every instruction moves past it.
pub open spec fn transition(prog: Seq<Node>, state: TapeState, input: Option<u8>) -> (
    TapeState,
    Action,
)
    recommends
        balanced(prog),
        state.wf(),
        state.instruction_pointer <= prog.len(),
{
    let ip = state.instruction_pointer as int;
    if ip == prog.len() {
        (state, Action::Halt)
    } else {
        match prog[ip] {
            Node::PointLeft => if state.can_move_left() {
                (state.move_left().advance(), Action::Continue)
            } else {
                (state, Action::Fail(state.fault(ErrorKind::DataPointerOutOfRange)))
            },
            Node::PointRight => if state.can_move_right() {
                (state.move_right().advance(), Action::Continue)
            } else {
                (state, Action::Fail(state.fault(ErrorKind::DataPointerOutOfRange)))
            },
            Node::ThumbsUp => (state.increment().advance(), Action::Continue),
            Node::ThumbsDown => (state.decrement().advance(), Action::Continue),
            Node::Save => match input {
                Some(byte) => (state.store(cell_of_byte(byte)).advance(), Action::Continue),
                None => (state, Action::Fail(state.fault(ErrorKind::InputExhausted))),
            },
            Node::Display => if printable(state.cell()) {
                (state.advance(), Action::Emit(char_of_cell(state.cell())))
            } else {
                (state, Action::Fail(state.fault(ErrorKind::InvalidOutputValue)))
            },
            Node::Loop => if state.cell() == 0 {
                (state.jump(matching_end(prog, ip) as nat).advance(), Action::Continue)
            } else {
                (state.advance(), Action::Continue)
            },
            Node::EndLoop => if state.cell() != 0 {
                (state.jump(matching_begin(prog, ip) as nat).advance(), Action::Continue)
            } else {
                (state.advance(), Action::Continue)
            },
            Node::NoOp => (state.advance(), Action::Continue),
        }
    }
}

/// How far a run has come: the state, the number of input bytes read and the
/// characters printed.
pub struct Progress {
    pub state: TapeState,
    pub consumed: nat,
    pub output: Seq<char>,
}

/// The input event of the next transition: the first byte not yet read.
pub open spec fn next_byte(input: Seq<u8>, consumed: nat) -> Option<u8> {
    if consumed < input.len() {
        Some(input[consumed as int])
    } else {
        None
    }
}

/// The instruction under the instruction pointer is an input instruction.
pub open spec fn at_input(prog: Seq<Node>, state: TapeState) -> bool {
    state.instruction_pointer < prog.len() && prog[state.instruction_pointer as int] == Node::Save
}

/// A run of at most `budget` instructions from `at`: where it ends and how.
/// The run ends at the end of the program, in front of the first instruction
/// that fails, or when the budget is spent.
pub open spec fn run(prog: Seq<Node>, input: Seq<u8>, at: Progress, budget: nat) -> (
    Progress,
    Status,
)
    recommends
        balanced(prog),
        at.state.wf(),
        at.state.instruction_pointer <= prog.len(),
    decreases budget,
{
    if at.state.instruction_pointer == prog.len() {
        (at, Status::Halted)
    } else if budget == 0 {
        (at, Status::Paused)
    } else {
        let (state, action) = transition(prog, at.state, next_byte(input, at.consumed));
        match action {
            Action::Halt => (at, Status::Halted),
            Action::Fail(e) => (at, Status::Failed(e)),
            Action::Emit(c) => run(
                prog,
                input,
                Progress { state, consumed: at.consumed, output: at.output.push(c) },
                (budget - 1) as nat,
            ),
            Action::Continue => run(
                prog,
                input,
                Progress {
                    state,
                    consumed: if at_input(prog, at.state) {
                        at.consumed + 1
                    } else {
                        at.consumed
                    },
                    output: at.output,
                },
                (budget - 1) as nat,
            ),
        }
    }
}

/// A transition keeps the state valid: the tape keeps its length, the data
/// pointer stays on the tape, and the instruction pointer stays inside the
/// program or at its end.
pub proof fn lemma_transition_keeps_valid(prog: Seq<Node>, state: TapeState, input: Option<u8>)
    requires
        balanced(prog),
        state.wf(),
        state.instruction_pointer <= prog.len(),
    ensures
        transition(prog, state, input).0.wf(),
        transition(prog, state, input).0.instruction_pointer <= prog.len(),
{
    let ip = state.instruction_pointer as int;
    if ip < prog.len() {
        if prog[ip] == Node::Loop {
            lemma_begin_has_end(prog, ip);
        }
        if prog[ip] == Node::EndLoop {
            lemma_end_has_begin(prog, ip);
        }
    }
}

/// A run keeps the state valid, and reads no more input than there is.
pub proof fn lemma_run_keeps_valid(prog: Seq<Node>, input: Seq<u8>, at: Progress, budget: nat)
    requires
        balanced(prog),
        at.state.wf(),
        at.state.instruction_pointer <= prog.len(),
        at.consumed <= input.len(),
    ensures
        run(prog, input, at, budget).0.state.wf(),
        run(prog, input, at, budget).0.state.instruction_pointer <= prog.len(),
        run(prog, input, at, budget).0.consumed <= input.len(),
    decreases budget,
{
    if at.state.instruction_pointer != prog.len() && budget > 0 {
        lemma_transition_keeps_valid(prog, at.state, next_byte(input, at.consumed));
        let (state, action) = transition(prog, at.state, next_byte(input, at.consumed));
        match action {
            Action::Emit(c) => {
                let next = Progress { state, consumed: at.consumed, output: at.output.push(c) };
                lemma_run_keeps_valid(prog, input, next, (budget - 1) as nat);
            },
            Action::Continue => {
                let next = Progress {
                    state,
                    consumed: if at_input(prog, at.state) {
                        at.consumed + 1
                    } else {
                        at.consumed
                    },
                    output: at.output,
                };
                lemma_run_keeps_valid(prog, input, next, (budget - 1) as nat);
            },
            _ => {},
        }
    }
}

/// Budgets add up: a run of `n + m` instructions is a run of `n`
/// instructions, followed, where that one ends as paused, by a run of `m`
/// instructions from where it stopped.
pub proof fn lemma_run_adds_up(prog: Seq<Node>, input: Seq<u8>, at: Progress, n: nat, m: nat)
    ensures
        ({
            let (mid, status) = run(prog, input, at, n);
            run(prog, input, at, n + m) == if status == Status::Paused {
                run(prog, input, mid, m)
            } else {
                (mid, status)
            }
        }),
    decreases n,
{
    if at.state.instruction_pointer != prog.len() && n > 0 {
        let (state, action) = transition(prog, at.state, next_byte(input, at.consumed));
        match action {
            Action::Emit(c) => {
                let next = Progress { state, consumed: at.consumed, output: at.output.push(c) };
                lemma_run_adds_up(prog, input, next, (n - 1) as nat, m);
            },
            Action::Continue => {
                let next = Progress {
                    state,
                    consumed: if at_input(prog, at.state) {
                        at.consumed + 1
                    } else {
                        at.consumed
                    },
                    output: at.output,
                };
                lemma_run_adds_up(prog, input, next, (n - 1) as nat, m);
            },
            _ => {},
        }
    }
}

/// A run does not look back: from any point on it is the run on the input
/// not yet read, and what was printed before stays in front of what it
/// prints.
pub proof fn lemma_run_on_rest_of_input(prog: Seq<Node>, input: Seq<u8>, at: Progress, budget: nat)
    requires
        at.consumed <= input.len(),
    ensures
        ({
            let (end, status) = run(prog, input, at, budget);
            let fresh = Progress { state: at.state, consumed: 0, output: Seq::empty() };
            let (rest_end, rest_status) = run(prog, input.skip(at.consumed as int), fresh, budget);
            &&& status == rest_status
            &&& end.state == rest_end.state
            &&& end.consumed == at.consumed + rest_end.consumed
            &&& end.output == at.output + rest_end.output
        }),
{
    let fresh = Progress { state: at.state, consumed: 0, output: Seq::empty() };
    lemma_run_shifted(prog, input, at, fresh, at.consumed, at.output, budget);
}

/// Two runs from the same state keep in step, where the second has the input
/// without its first `skipped` bytes and the first has `printed` in front of
/// its output.
proof fn lemma_run_shifted(
    prog: Seq<Node>,
    input: Seq<u8>,
    at: Progress,
    other: Progress,
    skipped: nat,
    printed: Seq<char>,
    budget: nat,
)
    requires
        skipped <= input.len(),
        at.state == other.state,
        at.consumed == skipped + other.consumed,
        at.output == printed + other.output,
    ensures
        ({
            let (end, status) = run(prog, input, at, budget);
            let (other_end, other_status) = run(prog, input.skip(skipped as int), other, budget);
            &&& status == other_status
            &&& end.state == other_end.state
            &&& end.consumed == skipped + other_end.consumed
            &&& end.output == printed + other_end.output
        }),
    decreases budget,
{
    let rest = input.skip(skipped as int);
    if at.state.instruction_pointer != prog.len() && budget > 0 {
        assert(next_byte(input, at.consumed) == next_byte(rest, other.consumed));
        let (state, action) = transition(prog, at.state, next_byte(input, at.consumed));
        match action {
            Action::Emit(c) => {
                let next = Progress { state, consumed: at.consumed, output: at.output.push(c) };
                let other_next = Progress {
                    state,
                    consumed: other.consumed,
                    output: other.output.push(c),
                };
                assert(next.output =~= printed + other_next.output);
                lemma_run_shifted(
                    prog,
                    input,
                    next,
                    other_next,
                    skipped,
                    printed,
                    (budget - 1) as nat,
                );
            },
            Action::Continue => {
                let read: nat = if at_input(prog, at.state) {
                    1
                } else {
                    0
                };
                let next = Progress { state, consumed: at.consumed + read, output: at.output };
                let other_next = Progress {
                    state,
                    consumed: other.consumed + read,
                    output: other.output,
                };
                lemma_run_shifted(
                    prog,
                    input,
                    next,
                    other_next,
                    skipped,
                    printed,
                    (budget - 1) as nat,
                );
            },
            _ => {},
        }
    }
}

/// A program together with its loop map.
struct Code {
    program: Vec<Node>,
    loop_map: LoopMap,
}

impl Code {
    #[verifier::type_invariant]
    spec fn inv(&self) -> bool {
        &&& balanced(self.program@)
        &&& self.loop_map.resolves(self.program@)
    }
}

/// The engine: a tape state, the program it runs and the loop map of that
/// program.
pub struct Interpreter {
    runtime: Runtime,
    code: Code,
}

/// The engine as a mathematical value.
pub struct Engine {
    /// The tape state.
    pub state: TapeState,
    /// The program that the engine runs.
    pub program: Seq<Node>,
}

impl View for Interpreter {
    type V = Engine;

    closed spec fn view(&self) -> Engine {
        Engine { state: self.runtime@, program: self.code.program@ }
    }
}

/// Creates an engine that owns `runtime` and has no program yet.
pub fn new(runtime: Runtime) -> (interpreter: Interpreter)
    ensures
        interpreter@.state == runtime@,
        interpreter@.program == Seq::<Node>::empty(),
{
    let interpreter = Interpreter {
        runtime,
        code: Code { program: Vec::new(), loop_map: LoopMap::new() },
    };
    assert(interpreter.code.program@ =~= Seq::<Node>::empty());
    interpreter
}

impl Interpreter {
    /// The tape state.
    pub fn runtime(&self) -> (runtime: &Runtime)
        ensures
            runtime@ == self@.state,
    {
        &self.runtime
    }

    /// The loop map of the program, from loop begin to loop end. The
    /// program is balanced and the map holds exactly its matched pairs.
    pub fn loop_map(&self) -> (pairs: &HashMap<usize, usize>)
        ensures
            balanced(self@.program),
            forall|begin: usize, end: usize|
                #![trigger pairs@.contains_pair(begin, end)]
                #![trigger matched(self@.program, begin as int, end as int)]
                pairs@.contains_pair(begin, end) <==> matched(
                    self@.program,
                    begin as int,
                    end as int,
                ),
    {
        proof {
            use_type_invariant(&self.code);
        }
        self.code.loop_map.pairs()
    }

    /// Resolves the loops of `ast` and makes it the program of the engine.
    /// Where the loops do not resolve, the engine keeps the program it had.
    /// The tape state is not touched.
    pub fn load(&mut self, ast: Vec<Node>) -> (result: Result<(), EvalError>)
        ensures
            final(self)@.state == old(self)@.state,
            result is Ok <==> balanced(ast@),
            result is Ok ==> final(self)@.program == ast@,
            result matches Err(e) ==> resolution_error(ast@) == Some(e) && final(self)@.program
                == old(self)@.program,
    {
        match resolve_loops(&ast) {
            Ok(loop_map) => {
                self.code = Code { program: ast, loop_map };
                Ok(())
            },
            Err(e) => Err(e),
        }
    }

    /// The instruction pointer is at the end of the program.
    pub fn is_halted(&self) -> (halted: bool)
        ensures
            halted == (self@.state.instruction_pointer == self@.program.len()),
    {
        self.runtime.instruction_pointer() == self.code.program.len()
    }

    /// The next transition reads a byte of input.
    pub fn awaits_input(&self) -> (awaits: bool)
        ensures
            awaits == at_input(self@.program, self@.state),
    {
        let ip: usize = self.runtime.instruction_pointer();
        if ip < self.code.program.len() {
            match self.code.program[ip] {
                Node::Save => true,
                _ => false,
            }
        } else {
            false
        }
    }

    /// Makes one transition. `input` is the byte that an input instruction
    /// reads, or `None` when no input is left; other instructions do not
    /// look at it.
    pub fn step(&mut self, input: Option<u8>) -> (action: Action)
        requires
            old(self)@.state.instruction_pointer <= old(self)@.program.len(),
        ensures
            (final(self)@.state, action) == transition(
                old(self)@.program,
                old(self)@.state,
                input,
            ),
            final(self)@.program == old(self)@.program,
            final(self)@.state.instruction_pointer <= final(self)@.program.len(),
    {
        proof {
            use_type_invariant(&self.code);
            use_type_invariant(&self.runtime);
        }
        let ip: usize = self.runtime.instruction_pointer();
        if ip == self.code.program.len() {
            return Action::Halt;
        }
        let ghost prog = self.code.program@;
        let mut action = Action::Continue;
        match self.code.program[ip] {
            Node::PointLeft => {
                match self.runtime.decrement_data_pointer() {
                    Ok(()) => {},
                    Err(e) => {
                        return Action::Fail(e);
                    },
                }
            },
            Node::PointRight => {
                match self.runtime.increment_data_pointer() {
                    Ok(()) => {},
                    Err(e) => {
                        return Action::Fail(e);
                    },
                }
            },
            Node::ThumbsUp => {
                self.runtime.increment_data();
            },
            Node::ThumbsDown => {
                self.runtime.decrement_data();
            },
            Node::Save => {
                match input {
                    Some(byte) => {
                        self.runtime.set_data(cell_from_byte(byte));
                    },
                    None => {
                        return Action::Fail(
                            EvalError { kind: ErrorKind::InputExhausted, position: ip },
                        );
                    },
                }
            },
            Node::Display => {
                match char_from_cell(self.runtime.data()) {
                    Some(c) => {
                        action = Action::Emit(c);
                    },
                    None => {
                        return Action::Fail(
                            EvalError { kind: ErrorKind::InvalidOutputValue, position: ip },
                        );
                    },
                }
            },
            Node::Loop => {
                if self.runtime.data() == 0 {
                    proof {
                        self.code.loop_map.lemma_lookup_end(prog, ip);
                    }
                    let end: usize = self.code.loop_map.end_of(ip).unwrap();
                    self.runtime.set_instruction_pointer(end);
                }
            },
            Node::EndLoop => {
                if self.runtime.data() != 0 {
                    proof {
                        self.code.loop_map.lemma_lookup_begin(prog, ip);
                    }
                    let begin: usize = self.code.loop_map.begin_of(ip).unwrap();
                    self.runtime.set_instruction_pointer(begin);
                }
            },
            Node::NoOp => {},
        }
        self.runtime.increment_instruction_pointer();
        action
    }

    /// Execute the specified `ast`: resolves its loops, makes it the program
    /// of the engine and runs it from the present state, for at most
    /// `max_steps` instructions. Input instructions read `input` from its
    /// first byte on.
    ///
    /// Where the loops do not resolve, nothing is executed and the engine is
    /// left as it was. A run that ends as `Paused` is taken up again by
    /// another call with the same `ast` and the rest of the input.
    pub fn evaluate(&mut self, ast: Vec<Node>, input: &[u8], max_steps: u64) -> (result: Evaluation)
        requires
            old(self)@.state.instruction_pointer <= ast.len(),
        ensures
            match resolution_error(ast@) {
                Some(e) => {
                    &&& result.status == Status::Failed(e)
                    &&& result.output@ == Seq::<char>::empty()
                    &&& result.consumed == 0
                    &&& final(self)@.state == old(self)@.state
                    &&& final(self)@.program == old(self)@.program
                },
                None => {
                    let start = Progress {
                        state: old(self)@.state,
                        consumed: 0,
                        output: Seq::empty(),
                    };
                    let (end, status) = run(ast@, input@, start, max_steps as nat);
                    &&& result.status == status
                    &&& result.output@ == end.output
                    &&& result.consumed == end.consumed
                    &&& final(self)@.state == end.state
                    &&& final(self)@.program == ast@
                    &&& end.state.instruction_pointer <= ast.len()
                    &&& end.consumed <= input.len()
                },
            },
    {
        let ghost prog = ast@;
        let ghost start = Progress { state: self@.state, consumed: 0, output: Seq::empty() };
        let mut output: Vec<char> = Vec::new();
        let mut consumed: usize = 0;
        match self.load(ast) {
            Ok(()) => {},
            Err(e) => {
                return Evaluation { output, consumed, status: Status::Failed(e) };
            },
        }
        proof {
            lemma_resolution_cases(prog);
        }
        let mut steps: u64 = 0;
        while steps < max_steps
            invariant
                steps <= max_steps,
                prog == ast@,
                resolution_error(prog) is None,
                start == (Progress { state: old(self)@.state, consumed: 0, output: Seq::empty() }),
                self@.program == prog,
                self@.state.instruction_pointer <= prog.len(),
                consumed <= input.len(),
                run(
                    prog,
                    input@,
                    Progress { state: self@.state, consumed: consumed as nat, output: output@ },
                    (max_steps - steps) as nat,
                ) == run(prog, input@, start, max_steps as nat),
            decreases max_steps - steps,
        {
            let reads: bool = self.awaits_input();
            let byte: Option<u8> = if consumed < input.len() {
                Some(input[consumed])
            } else {
                None
            };
            match self.step(byte) {
                Action::Halt => {
                    return Evaluation { output, consumed, status: Status::Halted };
                },
                Action::Fail(e) => {
                    return Evaluation { output, consumed, status: Status::Failed(e) };
                },
                Action::Emit(c) => {
                    output.push(c);
                },
                Action::Continue => {
                    if reads {
                        consumed += 1;
                    }
                },
            }
            steps += 1;
        }
        let status = if self.is_halted() {
            Status::Halted
        } else {
            Status::Paused
        };
        Evaluation { output, consumed, status }
    }
}

/// The cell for an input byte.
pub fn cell_from_byte(byte: u8) -> (cell: Cell)
    ensures
        cell == cell_of_byte(byte),
{
    let cell: Cell = #[verifier::truncate] (byte as Cell);
    assert(cell == cell_of_byte(byte)) by (bit_vector)
        requires
            cell == byte as i8,
    ;
    cell
}

/// The character to print for a cell, if the cell is the code of one.
pub fn char_from_cell(cell: Cell) -> (c: Option<char>)
    ensures
        c == (if printable(cell) {
            Some(char_of_cell(cell))
        } else {
            None
        }),
{
    if cell >= 0 {
        Some((cell as u8) as char)
    } else {
        None
    }
}

} // verus!
