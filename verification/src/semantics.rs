//! The mathematical semantics of execution: a machine state of tape, cursor,
//! pending input and emitted output, and a fuel-bounded step relation over
//! instruction trees. Fuel is consumed once per loop test, so a run with a
//! given fuel either finishes, fails, or runs out of fuel; a run of the
//! machine itself may be unbounded, which the `Spent` outcome models.

use vstd::prelude::*;

use crate::parse::InstView;

verus! {

/// A run-time error. Execution aborts at the first one.
#[derive(Clone, Copy, PartialEq, Eq, Structural, Debug)]
pub enum RuntimeError {
    /// A pointer move would leave the tape.
    OutOfBounds,
    /// An input instruction found no pending byte.
    InputExhausted,
}

/// The machine state: the tape cells, the cursor into them, the input bytes
/// not yet consumed, and the output bytes emitted so far.
pub struct VmState {
    pub tape: Seq<u8>,
    pub cur: int,
    pub input: Seq<u8>,
    pub output: Seq<u8>,
}

impl VmState {
    /// The cursor addresses a cell.
    pub open spec fn wf(self) -> bool {
        0 <= self.cur < self.tape.len()
    }

    /// The byte under the cursor.
    pub open spec fn cell(self) -> u8 {
        self.tape[self.cur]
    }
}

/// What a run comes to: it finishes in a state, fails in a state, or runs
/// out of fuel in a state.
pub enum Outcome {
    Done(VmState),
    Fail(RuntimeError, VmState),
    Spent(VmState),
}

/// Increment modulo 256.
pub open spec fn wrap_inc(v: u8) -> u8 {
    if v == 255 {
        0
    } else {
        (v + 1) as u8
    }
}

/// Decrement modulo 256.
pub open spec fn wrap_dec(v: u8) -> u8 {
    if v == 0 {
        255
    } else {
        (v - 1) as u8
    }
}

/// The state after moving the cursor, all else unchanged.
pub open spec fn with_cur(st: VmState, cur: int) -> VmState {
    VmState { tape: st.tape, cur, input: st.input, output: st.output }
}

/// The state after writing the cell under the cursor, all else unchanged.
pub open spec fn with_cell(st: VmState, v: u8) -> VmState {
    VmState { tape: st.tape.update(st.cur, v), cur: st.cur, input: st.input, output: st.output }
}

/// Runs one instruction. A pointer move that would leave `[0, tape.len())`
/// fails with `OutOfBounds`; increment and decrement wrap modulo 256; output
/// appends the cell; input consumes the front pending byte into the cell or
/// fails with `InputExhausted`; a loop runs its body while the cell under
/// the cursor is non-zero at the test, spending one unit of fuel per test
/// that enters the body.
pub open spec fn run_one(inst: InstView, st: VmState, fuel: nat) -> Outcome
    recommends
        st.wf(),
    decreases fuel, 0nat, 0nat,
{
    match inst {
        InstView::TapeRight => if st.cur + 1 < st.tape.len() {
            Outcome::Done(with_cur(st, st.cur + 1))
        } else {
            Outcome::Fail(RuntimeError::OutOfBounds, st)
        },
        InstView::TapeLeft => if st.cur >= 1 {
            Outcome::Done(with_cur(st, st.cur - 1))
        } else {
            Outcome::Fail(RuntimeError::OutOfBounds, st)
        },
        InstView::CellInc => Outcome::Done(with_cell(st, wrap_inc(st.cell()))),
        InstView::CellDec => Outcome::Done(with_cell(st, wrap_dec(st.cell()))),
        InstView::CellPrint => Outcome::Done(
            VmState { tape: st.tape, cur: st.cur, input: st.input, output: st.output.push(st.cell()) },
        ),
        InstView::CellFetch => if st.input.len() == 0 {
            Outcome::Fail(RuntimeError::InputExhausted, st)
        } else {
            Outcome::Done(
                VmState {
                    tape: st.tape.update(st.cur, st.input[0]),
                    cur: st.cur,
                    input: st.input.drop_first(),
                    output: st.output,
                },
            )
        },
        InstView::TapeLoop(body) => if st.cell() == 0 {
            Outcome::Done(st)
        } else if fuel == 0 {
            Outcome::Spent(st)
        } else {
            match run_seq(body, st, (fuel - 1) as nat) {
                Outcome::Done(st2) => run_one(inst, st2, (fuel - 1) as nat),
                o => o,
            }
        },
    }
}

/// Runs a sequence of instructions in order, stopping at the first failure
/// or fuel exhaustion.
pub open spec fn run_seq(prog: Seq<InstView>, st: VmState, fuel: nat) -> Outcome
    recommends
        st.wf(),
    decreases fuel, 1nat, prog.len(),
{
    if prog.len() == 0 {
        Outcome::Done(st)
    } else {
        match run_one(prog[0], st, fuel) {
            Outcome::Done(st2) => run_seq(prog.drop_first(), st2, fuel),
            o => o,
        }
    }
}

/// A run of the program from this state finishes or fails within the fuel:
/// it does not run out.
pub open spec fn completes_within(prog: Seq<InstView>, st: VmState, fuel: nat) -> bool {
    !(run_seq(prog, st, fuel) is Spent)
}

/// Wrapping law: increment and decrement act modulo 256 on the cell under
/// the cursor; in particular a cell at 255 increments to 0 and a cell at 0
/// decrements to 255.
pub proof fn lemma_wrapping(st: VmState, fuel: nat)
    requires
        st.wf(),
    ensures
        run_one(InstView::CellInc, st, fuel) == Outcome::Done(
            with_cell(st, ((st.cell() + 1) % 256) as u8),
        ),
        run_one(InstView::CellDec, st, fuel) == Outcome::Done(
            with_cell(st, ((st.cell() + 255) % 256) as u8),
        ),
        st.cell() == 255 ==> with_cell(st, ((st.cell() + 1) % 256) as u8).cell() == 0,
        st.cell() == 0 ==> with_cell(st, ((st.cell() + 255) % 256) as u8).cell() == 255,
{
    assert(wrap_inc(st.cell()) == ((st.cell() + 1) % 256) as u8);
    assert(wrap_dec(st.cell()) == ((st.cell() + 255) % 256) as u8);
}

/// Fuel law: fuel only cuts a run short. Once one instruction's run
/// finishes or fails within some fuel, any larger fuel gives the same
/// outcome.
pub proof fn lemma_run_one_fuel_monotonic(inst: InstView, st: VmState, f1: nat, f2: nat)
    requires
        f1 <= f2,
        !(run_one(inst, st, f1) is Spent),
    ensures
        run_one(inst, st, f2) == run_one(inst, st, f1),
    decreases f1, 0nat, 0nat,
{
    match inst {
        InstView::TapeLoop(body) => {
            if st.cell() != 0 {
                lemma_run_seq_fuel_monotonic(body, st, (f1 - 1) as nat, (f2 - 1) as nat);
                match run_seq(body, st, (f1 - 1) as nat) {
                    Outcome::Done(st2) => {
                        lemma_run_one_fuel_monotonic(inst, st2, (f1 - 1) as nat, (f2 - 1) as nat);
                    },
                    Outcome::Fail(_, _) => {},
                    Outcome::Spent(_) => {},
                }
            }
        },
        _ => {},
    }
}

/// Fuel law: fuel only cuts a run short. Once a program's run finishes or
/// fails within some fuel, any larger fuel gives the same outcome.
pub proof fn lemma_run_seq_fuel_monotonic(prog: Seq<InstView>, st: VmState, f1: nat, f2: nat)
    requires
        f1 <= f2,
        !(run_seq(prog, st, f1) is Spent),
    ensures
        run_seq(prog, st, f2) == run_seq(prog, st, f1),
    decreases f1, 1nat, prog.len(),
{
    if prog.len() > 0 {
        lemma_run_one_fuel_monotonic(prog[0], st, f1, f2);
        match run_one(prog[0], st, f1) {
            Outcome::Done(st2) => {
                lemma_run_seq_fuel_monotonic(prog.drop_first(), st2, f1, f2);
            },
            Outcome::Fail(_, _) => {},
            Outcome::Spent(_) => {},
        }
    }
}

/// Non-termination law: a loop whose body, started from any state whose
/// current cell is non-zero, neither fails nor finishes with the current
/// cell zero, exhausts every fuel bound once entered.
pub proof fn lemma_loop_diverges(body: Seq<InstView>, st: VmState, fuel: nat)
    requires
        st.cell() != 0,
        forall|st2: VmState, f: nat|
            st2.cell() != 0 ==> match #[trigger] run_seq(body, st2, f) {
                Outcome::Done(st3) => st3.cell() != 0,
                Outcome::Fail(_, _) => false,
                Outcome::Spent(_) => true,
            },
    ensures
        run_one(InstView::TapeLoop(body), st, fuel) is Spent,
    decreases fuel,
{
    if fuel > 0 {
        match run_seq(body, st, (fuel - 1) as nat) {
            Outcome::Done(st2) => {
                lemma_loop_diverges(body, st2, (fuel - 1) as nat);
            },
            Outcome::Fail(_, _) => {},
            Outcome::Spent(_) => {},
        }
    }
}

/// The simplest instance of the non-termination law: a loop with an empty
/// body never terminates once its cell is non-zero.
pub proof fn lemma_empty_loop_diverges(st: VmState, fuel: nat)
    requires
        st.cell() != 0,
    ensures
        run_one(InstView::TapeLoop(Seq::empty()), st, fuel) is Spent,
{
    assert(forall|st2: VmState, f: nat| #[trigger] run_seq(Seq::<InstView>::empty(), st2, f)
        == Outcome::Done(st2));
    lemma_loop_diverges(Seq::empty(), st, fuel);
}

} // verus!
