//! The tape, the data pointer and the instruction pointer.

use crate::error::{ErrorKind, EvalError};
use crate::text::{decimal, push_decimal};
use vstd::prelude::*;

verus! {

/// An item in the `Runtime` data array.
pub type Cell = i8;

/// The number of cells on the tape. Programs may rely on it.
pub const TAPE_LEN: usize = 30000;

/// The value after `cell` in 8-bit two's complement: 127 is followed by -128.
pub open spec fn cell_succ(cell: Cell) -> Cell {
    if cell == Cell::MAX {
        Cell::MIN
    } else {
        (cell + 1) as Cell
    }
}

/// The value before `cell` in 8-bit two's complement: -128 is preceded by 127.
pub open spec fn cell_pred(cell: Cell) -> Cell {
    if cell == Cell::MIN {
        Cell::MAX
    } else {
        (cell - 1) as Cell
    }
}

/// The state of a program as a mathematical value.
pub struct TapeState {
    /// Index of the instruction to run next.
    pub instruction_pointer: nat,
    /// Index of the cell that instructions read and write.
    pub data_pointer: nat,
    /// The cells of the tape.
    pub cells: Seq<Cell>,
}

impl TapeState {
    /// The tape has its fixed length and the data pointer is on it.
    pub open spec fn wf(self) -> bool {
        &&& self.cells.len() == TAPE_LEN
        &&& self.data_pointer < TAPE_LEN
    }

    /// The state in which every run starts.
    pub open spec fn initial() -> TapeState {
        TapeState {
            instruction_pointer: 0,
            data_pointer: 0,
            cells: Seq::new(TAPE_LEN as nat, |i: int| 0i8),
        }
    }

    /// The cell under the data pointer.
    pub open spec fn cell(self) -> Cell {
        self.cells[self.data_pointer as int]
    }

    /// The state with `value` stored under the data pointer.
    pub open spec fn store(self, value: Cell) -> TapeState {
        TapeState { cells: self.cells.update(self.data_pointer as int, value), ..self }
    }

    /// The state with the cell under the data pointer incremented.
    pub open spec fn increment(self) -> TapeState {
        self.store(cell_succ(self.cell()))
    }

    /// The state with the cell under the data pointer decremented.
    pub open spec fn decrement(self) -> TapeState {
        self.store(cell_pred(self.cell()))
    }

    /// The state after `n` increments of the cell under the data pointer.
    pub open spec fn increment_times(self, n: nat) -> TapeState
        decreases n,
    {
        if n == 0 {
            self
        } else {
            self.increment_times((n - 1) as nat).increment()
        }
    }

    /// A move to the right stays on the tape.
    pub open spec fn can_move_right(self) -> bool {
        self.data_pointer + 1 < TAPE_LEN
    }

    /// A move to the left stays on the tape.
    pub open spec fn can_move_left(self) -> bool {
        self.data_pointer > 0
    }

    /// The state with the data pointer one cell to the right.
    pub open spec fn move_right(self) -> TapeState {
        TapeState { data_pointer: self.data_pointer + 1, ..self }
    }

    /// The state with the data pointer one cell to the left.
    pub open spec fn move_left(self) -> TapeState {
        TapeState { data_pointer: (self.data_pointer - 1) as nat, ..self }
    }

    /// The state with the instruction pointer at `target`.
    pub open spec fn jump(self, target: nat) -> TapeState {
        TapeState { instruction_pointer: target, ..self }
    }

    /// The state with the instruction pointer at the next instruction.
    pub open spec fn advance(self) -> TapeState {
        self.jump(self.instruction_pointer + 1)
    }

    /// The two pointers in words, for a person to read.
    pub open spec fn describe(self) -> Seq<char> {
        "{ instruction_pointer: "@ + decimal(self.instruction_pointer) + ", data_pointer: "@
            + decimal(self.data_pointer) + " }"@
    }

    /// The failure of kind `kind` at the current instruction.
    pub open spec fn fault(self, kind: ErrorKind) -> EvalError {
        EvalError { kind, position: self.instruction_pointer as usize }
    }
}

/// The cell reached from `cell` by `n` increments.
pub open spec fn cell_plus(cell: Cell, n: nat) -> Cell {
    ((cell + 128 + n) % 256 - 128) as Cell
}

/// Moving the data pointer one cell to the right and one cell back to the
/// left leads back to the state before, from every state in which the move
/// to the right stays on the tape.
pub proof fn lemma_move_right_left(state: TapeState)
    requires
        state.can_move_right(),
    ensures
        state.move_right().can_move_left(),
        state.move_right().move_left() == state,
{
}

/// After `n` increments the cell under the data pointer has moved `n` places
/// round the circle of the 256 cell values, and nothing else has changed.
pub proof fn lemma_increment_times(state: TapeState, n: nat)
    requires
        state.wf(),
    ensures
        state.increment_times(n) == state.store(cell_plus(state.cell(), n)),
    decreases n,
{
    if n == 0 {
        assert(state.store(state.cell()).cells =~= state.cells);
    } else {
        let before = (n - 1) as nat;
        lemma_increment_times(state, before);
        let mid = state.store(cell_plus(state.cell(), before));
        assert(mid.cell() == cell_plus(state.cell(), before));
        assert(cell_succ(cell_plus(state.cell(), before)) == cell_plus(state.cell(), n));
        assert(mid.increment().cells =~= state.store(cell_plus(state.cell(), n)).cells);
    }
}

/// Incrementing a cell 256 times leads back to the state before.
pub proof fn lemma_increment_wraps_around(state: TapeState)
    requires
        state.wf(),
    ensures
        state.increment_times(256) == state,
{
    lemma_increment_times(state, 256);
    assert(cell_plus(state.cell(), 256) == state.cell());
    assert(state.store(state.cell()).cells =~= state.cells);
}

/// A representation of the state of a Mojikun program, consisting of an array
/// of cells, an instruction pointer (i.e. program counter), and a data pointer
/// (i.e. index into the array of cells).
pub struct Runtime {
    instruction_pointer: usize,
    data_pointer: usize,
    data: Vec<Cell>,
}

impl View for Runtime {
    type V = TapeState;

    closed spec fn view(&self) -> TapeState {
        TapeState {
            instruction_pointer: self.instruction_pointer as nat,
            data_pointer: self.data_pointer as nat,
            cells: self.data@,
        }
    }
}

/// Creates an empty `Runtime` with 30000 cells initialized to zero.
pub fn new() -> (runtime: Runtime)
    ensures
        runtime@ == TapeState::initial(),
{
    let data: Vec<Cell> = vec![0; TAPE_LEN];
    assert(data@ =~= TapeState::initial().cells);
    Runtime { instruction_pointer: 0, data_pointer: 0, data }
}

impl Runtime {
    /// Every runtime keeps its tape at full length and its data pointer on
    /// the tape.
    #[verifier::type_invariant]
    pub open spec fn inv(&self) -> bool {
        self@.wf()
    }

    // MANIPULATORS
    /// Moves the instruction pointer to the next instruction.
    pub fn increment_instruction_pointer(&mut self)
        requires
            old(self)@.instruction_pointer < usize::MAX,
        ensures
            final(self)@ == old(self)@.advance(),
    {
        proof {
            use_type_invariant(&*self);
        }
        self.instruction_pointer += 1;
    }

    /// Moves the instruction pointer to `val`.
    pub fn set_instruction_pointer(&mut self, val: usize)
        ensures
            final(self)@ == old(self)@.jump(val as nat),
    {
        proof {
            use_type_invariant(&*self);
        }
        self.instruction_pointer = val;
    }

    /// Moves the data pointer one cell to the right, unless it stands on the
    /// last cell: the move is refused there and nothing changes.
    pub fn increment_data_pointer(&mut self) -> (result: Result<(), EvalError>)
        ensures
            old(self)@.can_move_right() ==> result is Ok && final(self)@ == old(self)@.move_right(),
            !old(self)@.can_move_right() ==> result == Err::<(), EvalError>(
                old(self)@.fault(ErrorKind::DataPointerOutOfRange),
            ) && final(self)@ == old(self)@,
    {
        proof {
            use_type_invariant(&*self);
        }
        if self.data_pointer + 1 < TAPE_LEN {
            self.data_pointer += 1;
            Ok(())
        } else {
            Err(EvalError { kind: ErrorKind::DataPointerOutOfRange, position: self.instruction_pointer })
        }
    }

    /// Moves the data pointer one cell to the left, unless it stands on the
    /// first cell: the move is refused there and nothing changes.
    pub fn decrement_data_pointer(&mut self) -> (result: Result<(), EvalError>)
        ensures
            old(self)@.can_move_left() ==> result is Ok && final(self)@ == old(self)@.move_left(),
            !old(self)@.can_move_left() ==> result == Err::<(), EvalError>(
                old(self)@.fault(ErrorKind::DataPointerOutOfRange),
            ) && final(self)@ == old(self)@,
    {
        proof {
            use_type_invariant(&*self);
        }
        if self.data_pointer > 0 {
            self.data_pointer -= 1;
            Ok(())
        } else {
            Err(EvalError { kind: ErrorKind::DataPointerOutOfRange, position: self.instruction_pointer })
        }
    }

    /// Stores `val` in the cell under the data pointer.
    pub fn set_data(&mut self, val: Cell)
        ensures
            final(self)@ == old(self)@.store(val),
    {
        proof {
            use_type_invariant(&*self);
        }
        self.data[self.data_pointer] = val;
    }

    /// Adds one to the cell under the data pointer, wrapping from 127 to -128.
    pub fn increment_data(&mut self)
        ensures
            final(self)@ == old(self)@.increment(),
    {
        proof {
            use_type_invariant(&*self);
        }
        let cell: Cell = self.data[self.data_pointer];
        self.data[self.data_pointer] = cell.wrapping_add(1);
    }

    /// Takes one from the cell under the data pointer, wrapping from -128 to 127.
    pub fn decrement_data(&mut self)
        ensures
            final(self)@ == old(self)@.decrement(),
    {
        proof {
            use_type_invariant(&*self);
        }
        let cell: Cell = self.data[self.data_pointer];
        self.data[self.data_pointer] = cell.wrapping_sub(1);
    }

    // ACCESSORS
    /// The index of the instruction to run next.
    pub fn instruction_pointer(&self) -> (ip: usize)
        ensures
            ip == self@.instruction_pointer,
    {
        self.instruction_pointer
    }

    /// The index of the cell under the data pointer.
    pub fn data_pointer(&self) -> (dp: usize)
        ensures
            dp == self@.data_pointer,
            dp < TAPE_LEN,
    {
        proof {
            use_type_invariant(self);
        }
        self.data_pointer
    }

    /// The two pointers in words, as in `{ instruction_pointer: 3, data_pointer: 0 }`.
    /// The cells are left out.
    pub fn fmt(&self) -> (text: String)
        ensures
            text@ == self@.describe(),
    {
        let mut text = String::from_str("{ instruction_pointer: ");
        push_decimal(&mut text, self.instruction_pointer);
        text.append(", data_pointer: ");
        push_decimal(&mut text, self.data_pointer);
        text.append(" }");
        text
    }

    /// All the cells of the tape, first cell first.
    pub fn cells(&self) -> (cells: &Vec<Cell>)
        ensures
            cells@ == self@.cells,
            cells@.len() == TAPE_LEN,
    {
        proof {
            use_type_invariant(self);
        }
        &self.data
    }

    /// The cell under the data pointer.
    pub fn data(&self) -> (cell: Cell)
        ensures
            cell == self@.cell(),
    {
        proof {
            use_type_invariant(self);
        }
        self.data[self.data_pointer]
    }
}

} // verus!
