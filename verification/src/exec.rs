//! The executor: walks the instruction tree against a mutable tape, cursor,
//! input buffer and output buffer, and matches the fuel-bounded semantics of
//! `semantics` step for step.

use vstd::prelude::*;

use crate::parse::Instruction;
use crate::parse::InstView;
use crate::parse::ParseError;
use crate::parse::inst_view;
use crate::parse::lemma_prog_view_index;
use crate::parse::parse_spec;
use crate::parse::prog_view;
use crate::semantics::Outcome;
use crate::semantics::RuntimeError;
use crate::semantics::VmState;
use crate::semantics::completes_within;
use crate::semantics::run_one;
use crate::semantics::run_seq;
use crate::token::lex;
use crate::token::lex_spec;

verus! {

/// The number of byte cells on the tape, fixed at construction.
pub const TAPE_LEN: usize = 30000;

/// How a bounded run ended: the program finished, failed, or did not fit in
/// the fuel.
#[derive(Clone, Copy, PartialEq, Eq, Structural, Debug)]
pub enum RunOutcome {
    Done,
    Fail(RuntimeError),
    OutOfFuel,
}

/// The outcome an executable result stands for, given the machine state the
/// executor left behind.
pub open spec fn outcome_of(r: RunOutcome, st: VmState) -> Outcome {
    match r {
        RunOutcome::Done => Outcome::Done(st),
        RunOutcome::Fail(e) => Outcome::Fail(e, st),
        RunOutcome::OutOfFuel => Outcome::Spent(st),
    }
}

/// The machine state of a fresh interpreter: a zeroed tape, the cursor at
/// cell 0, the given input pending, and nothing emitted.
pub open spec fn init_state(input: Seq<u8>) -> VmState {
    VmState {
        tape: Seq::new(TAPE_LEN as nat, |i: int| 0u8),
        cur: 0,
        input,
        output: Seq::empty(),
    }
}

struct Tape {
    cells: Vec<u8>,
    pointer: usize,
}

impl Tape {
    spec fn wf(&self) -> bool {
        self.pointer < self.cells.len()
    }

    fn current(&self) -> (r: u8)
        requires
            self.wf(),
        ensures
            r == self.cells@[self.pointer as int],
    {
        self.cells[self.pointer]
    }

    fn set_current(&mut self, v: u8)
        requires
            old(self).wf(),
        ensures
            final(self).wf(),
            final(self).pointer == old(self).pointer,
            final(self).cells@ == old(self).cells@.update(old(self).pointer as int, v),
    {
        let p = self.pointer;
        self.cells[p] = v;
    }

    fn move_right(&mut self) -> (r: Result<(), RuntimeError>)
        requires
            old(self).wf(),
        ensures
            final(self).wf(),
            final(self).cells == old(self).cells,
            match r {
                Ok(()) => old(self).pointer + 1 < old(self).cells.len() && final(self).pointer
                    == old(self).pointer + 1,
                Err(e) => e == RuntimeError::OutOfBounds && old(self).pointer + 1 >= old(
                    self,
                ).cells.len() && *final(self) == *old(self),
            },
    {
        if self.pointer + 1 < self.cells.len() {
            self.pointer = self.pointer + 1;
            Ok(())
        } else {
            Err(RuntimeError::OutOfBounds)
        }
    }

    fn move_left(&mut self) -> (r: Result<(), RuntimeError>)
        requires
            old(self).wf(),
        ensures
            final(self).wf(),
            final(self).cells == old(self).cells,
            match r {
                Ok(()) => old(self).pointer >= 1 && final(self).pointer == old(self).pointer - 1,
                Err(e) => e == RuntimeError::OutOfBounds && old(self).pointer == 0
                    && *final(self) == *old(self),
            },
    {
        if self.pointer >= 1 {
            self.pointer = self.pointer - 1;
            Ok(())
        } else {
            Err(RuntimeError::OutOfBounds)
        }
    }
}

struct Vm {
    tape: Tape,
    input: Vec<u8>,
    next_in: usize,
    output: Vec<u8>,
}

impl Vm {
    spec fn wf(&self) -> bool {
        self.tape.wf() && self.next_in <= self.input.len()
    }
}

impl View for Vm {
    type V = VmState;

    closed spec fn view(&self) -> VmState {
        VmState {
            tape: self.tape.cells@,
            cur: self.tape.pointer as int,
            input: self.input@.skip(self.next_in as int),
            output: self.output@,
        }
    }
}

fn exec_one(inst: &Instruction, vm: &mut Vm, fuel: u64) -> (r: RunOutcome)
    requires
        old(vm).wf(),
    ensures
        final(vm).wf(),
        outcome_of(r, final(vm)@) == run_one(inst_view(*inst), old(vm)@, fuel as nat),
    decreases *inst,
{
    match inst {
        Instruction::TapeRight => match vm.tape.move_right() {
            Ok(()) => RunOutcome::Done,
            Err(e) => RunOutcome::Fail(e),
        },
        Instruction::TapeLeft => match vm.tape.move_left() {
            Ok(()) => RunOutcome::Done,
            Err(e) => RunOutcome::Fail(e),
        },
        Instruction::CellInc => {
            let v = vm.tape.current();
            vm.tape.set_current(if v == 255 { 0 } else { v + 1 });
            RunOutcome::Done
        },
        Instruction::CellDec => {
            let v = vm.tape.current();
            vm.tape.set_current(if v == 0 { 255 } else { v - 1 });
            RunOutcome::Done
        },
        Instruction::CellPrint => {
            let v = vm.tape.current();
            vm.output.push(v);
            RunOutcome::Done
        },
        Instruction::CellFetch => {
            if vm.next_in < vm.input.len() {
                let b = vm.input[vm.next_in];
                vm.next_in = vm.next_in + 1;
                vm.tape.set_current(b);
                proof {
                    assert(old(vm)@.input[0] == b);
                    assert(vm@.input =~= old(vm)@.input.drop_first());
                }
                RunOutcome::Done
            } else {
                proof {
                    assert(old(vm)@.input.len() == 0);
                }
                RunOutcome::Fail(RuntimeError::InputExhausted)
            }
        },
        Instruction::TapeLoop(body) => {
            let ghost iv = inst_view(*inst);
            let mut fuel_left = fuel;
            loop
                invariant
                    vm.wf(),
                    fuel_left <= fuel,
                    iv == inst_view(*inst),
                    iv == InstView::TapeLoop(prog_view(body@)),
                    (decreases_to!(*inst => *body)),
                    run_one(iv, vm@, fuel_left as nat) == run_one(iv, old(vm)@, fuel as nat),
                ensures
                    vm.wf(),
                    run_one(iv, old(vm)@, fuel as nat) == Outcome::Done(vm@),
                decreases fuel_left,
            {
                let c = vm.tape.current();
                if c == 0 {
                    break;
                }
                if fuel_left == 0 {
                    return RunOutcome::OutOfFuel;
                }
                fuel_left = fuel_left - 1;
                let ghost pre = vm@;
                let r = exec_seq(body, vm, fuel_left);
                proof {
                    assert(run_one(iv, pre, fuel_left as nat + 1) == (match run_seq(
                        prog_view(body@),
                        pre,
                        fuel_left as nat,
                    ) {
                        Outcome::Done(st2) => run_one(iv, st2, fuel_left as nat),
                        o => o,
                    }));
                }
                match r {
                    RunOutcome::Done => {},
                    RunOutcome::Fail(e) => {
                        return RunOutcome::Fail(e);
                    },
                    RunOutcome::OutOfFuel => {
                        return RunOutcome::OutOfFuel;
                    },
                }
            }
            RunOutcome::Done
        },
    }
}

#[verifier::loop_isolation(false)]
fn exec_seq(insts: &Vec<Instruction>, vm: &mut Vm, fuel: u64) -> (r: RunOutcome)
    requires
        old(vm).wf(),
    ensures
        final(vm).wf(),
        outcome_of(r, final(vm)@) == run_seq(prog_view(insts@), old(vm)@, fuel as nat),
    decreases *insts,
{
    proof {
        lemma_prog_view_index(insts@);
    }
    let ghost prog = prog_view(insts@);
    proof {
        assert(prog.skip(0) =~= prog);
    }
    let n = insts.len();
    let mut i: usize = 0;
    while i < n
        invariant
            i <= n,
            vm.wf(),
            run_seq(prog.skip(i as int), vm@, fuel as nat) == run_seq(prog, old(vm)@, fuel as nat),
        decreases n - i,
    {
        let ghost pre = vm@;
        let r = exec_one(&insts[i], vm, fuel);
        proof {
            assert(prog.skip(i as int)[0] == prog[i as int]);
            assert(prog.skip(i as int).drop_first() =~= prog.skip(i as int + 1));
        }
        match r {
            RunOutcome::Done => {},
            RunOutcome::Fail(e) => {
                return RunOutcome::Fail(e);
            },
            RunOutcome::OutOfFuel => {
                return RunOutcome::OutOfFuel;
            },
        }
        i = i + 1;
    }
    proof {
        assert(prog.skip(n as int) =~= Seq::<InstView>::empty());
    }
    RunOutcome::Done
}

fn zero_cells(n: usize) -> (r: Vec<u8>)
    ensures
        r@ == Seq::new(n as nat, |i: int| 0u8),
{
    let mut v: Vec<u8> = Vec::new();
    let mut i: usize = 0;
    while i < n
        invariant
            i <= n,
            v@.len() == i,
            forall|j: int| 0 <= j < i ==> v@[j] == 0u8,
        decreases n - i,
    {
        v.push(0);
        i = i + 1;
    }
    proof {
        assert(v@ =~= Seq::new(n as nat, |i: int| 0u8));
    }
    v
}

/// The interpreter: the parsed program, read-only once built, and the
/// machine it mutates in place.
pub struct Interpreter {
    instructions: Vec<Instruction>,
    vm: Vm,
}

impl Interpreter {
    /// The model of the parsed program.
    pub closed spec fn program(&self) -> Seq<InstView> {
        prog_view(self.instructions@)
    }

    /// The model of the machine state.
    pub closed spec fn vm_state(&self) -> VmState {
        self.vm@
    }

    /// The cursor addresses a cell and the pending-input mark is in range.
    pub closed spec fn wf(&self) -> bool {
        self.vm.wf()
    }

    /// Builds an interpreter for a source text, with the given bytes as the
    /// pending input buffer: a zeroed tape of `TAPE_LEN` cells, the cursor
    /// at cell 0. Fails with the parse error of the source's token sequence
    /// if its brackets do not match.
    pub fn from_source_with_input(source: &str, input: Vec<u8>) -> (r: Result<
        Interpreter,
        ParseError,
    >)
        ensures
            match r {
                Ok(it) => it.wf() && parse_spec(lex_spec(source@)) == Ok::<_, ParseError>(
                    it.program(),
                ) && it.vm_state() == init_state(input@),
                Err(e) => parse_spec(lex_spec(source@)) == Err::<Seq<InstView>, _>(e),
            },
    {
        let toks = lex(source);
        match Instruction::from_tokens(toks) {
            Ok(prog) => {
                let cells = zero_cells(TAPE_LEN);
                let it = Interpreter {
                    instructions: prog,
                    vm: Vm { tape: Tape { cells, pointer: 0 }, input, next_in: 0, output: Vec::new() },
                };
                proof {
                    assert(it.vm@.input =~= input@);
                    assert(it.vm@ == init_state(input@));
                }
                Ok(it)
            },
            Err(e) => Err(e),
        }
    }

    /// Builds an interpreter for a source text with an empty input buffer.
    pub fn from_source(source: &str) -> (r: Result<Interpreter, ParseError>)
        ensures
            match r {
                Ok(it) => it.wf() && parse_spec(lex_spec(source@)) == Ok::<_, ParseError>(
                    it.program(),
                ) && it.vm_state() == init_state(Seq::empty()),
                Err(e) => parse_spec(lex_spec(source@)) == Err::<Seq<InstView>, _>(e),
            },
    {
        let empty_input: Vec<u8> = Vec::new();
        proof {
            assert(empty_input@ =~= Seq::<u8>::empty());
        }
        Self::from_source_with_input(source, empty_input)
    }

    /// Runs the program for at most `fuel` loop tests that enter a body,
    /// mutating the machine exactly as the semantics says.
    pub fn run_for(&mut self, fuel: u64) -> (r: RunOutcome)
        requires
            old(self).wf(),
        ensures
            final(self).wf(),
            final(self).program() == old(self).program(),
            outcome_of(r, final(self).vm_state()) == run_seq(
                old(self).program(),
                old(self).vm_state(),
                fuel as nat,
            ),
    {
        exec_seq(&self.instructions, &mut self.vm, fuel)
    }

    /// Runs the program to completion or to its first error. The executor
    /// walks every loop under a fuel budget of `u64::MAX`, so the program
    /// is required to come to its end — normal or failing — within that
    /// budget; a program that loops forever is outside this contract and is
    /// served by `run_for`.
    pub fn run(&mut self) -> (r: Result<(), RuntimeError>)
        requires
            old(self).wf(),
            completes_within(old(self).program(), old(self).vm_state(), u64::MAX as nat),
        ensures
            final(self).wf(),
            final(self).program() == old(self).program(),
            match r {
                Ok(()) => run_seq(old(self).program(), old(self).vm_state(), u64::MAX as nat)
                    == Outcome::Done(final(self).vm_state()),
                Err(e) => run_seq(old(self).program(), old(self).vm_state(), u64::MAX as nat)
                    == Outcome::Fail(e, final(self).vm_state()),
            },
    {
        match self.run_for(u64::MAX) {
            RunOutcome::Done => Ok(()),
            RunOutcome::Fail(e) => Err(e),
            RunOutcome::OutOfFuel => {
                proof {
                    assert(false);  // excluded by the precondition
                }
                Err(RuntimeError::OutOfBounds)
            },
        }
    }

    /// The bytes emitted so far, in execution order.
    pub fn output(&self) -> (r: &Vec<u8>)
        ensures
            r@ == self.vm_state().output,
    {
        &self.vm.output
    }

    /// The byte in the cell at `i`, or `None` beyond the tape's end.
    pub fn cell(&self, i: usize) -> (r: Option<u8>)
        ensures
            match r {
                Some(v) => i < self.vm_state().tape.len() && v == self.vm_state().tape[i as int],
                None => i >= self.vm_state().tape.len(),
            },
    {
        if i < self.vm.tape.cells.len() {
            Some(self.vm.tape.cells[i])
        } else {
            None
        }
    }

    /// The cursor's position on the tape.
    pub fn cursor(&self) -> (r: usize)
        ensures
            r as int == self.vm_state().cur,
    {
        self.vm.tape.pointer
    }
}

} // verus!
