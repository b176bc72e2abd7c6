use vstd::prelude::*;

use crate::parser::Action;
use crate::tape::Tape;
use crate::token::Basic;

verus! {

/// Why a run of a program stopped short.
#[derive(Debug, Clone, Copy, PartialEq, Eq, Structural)]
pub enum ExecError {
    /// The input instruction found the byte channel exhausted.
    InputExhausted,
    /// The head moved outside the machine-representable index range.
    HeadOutOfRange,
}

/// The interpreter's complete abstract state: the tape's cells and head,
/// the input bytes not yet consumed, and the output bytes written so far.
#[verifier::ext_equal]
pub struct MachineState {
    pub cells: Map<int, u8>,
    pub head: int,
    pub input: Seq<u8>,
    pub output: Seq<u8>,
}

/// The state a fresh run starts in: every cell zero, head at index zero,
/// the whole input still ahead, no output yet.
pub open spec fn init_state(input: Seq<u8>) -> MachineState {
    MachineState {
        cells: Map::total(|i: int| 0u8),
        head: 0,
        input,
        output: Seq::empty(),
    }
}

/// The outcome of a bounded run: completion in a final state, a failure
/// carrying the output written before it, or fuel running out first, also
/// carrying the output written before it.
pub enum RunResult {
    Done(MachineState),
    Fail(ExecError, Seq<u8>),
    Stuck(Seq<u8>),
}

/// The effect of one basic action on the machine state.
pub open spec fn basic_step(b: Basic, st: MachineState) -> RunResult {
    match b {
        Basic::MoveRight => if st.head == isize::MAX as int {
            RunResult::Fail(ExecError::HeadOutOfRange, st.output)
        } else {
            RunResult::Done(MachineState { head: st.head + 1, ..st })
        },
        Basic::MoveLeft => if st.head == isize::MIN as int {
            RunResult::Fail(ExecError::HeadOutOfRange, st.output)
        } else {
            RunResult::Done(MachineState { head: st.head - 1, ..st })
        },
        Basic::Increment => RunResult::Done(
            MachineState {
                cells: st.cells.insert(st.head, ((st.cells[st.head] as int + 1) % 256) as u8),
                ..st
            },
        ),
        Basic::Decrement => RunResult::Done(
            MachineState {
                cells: st.cells.insert(st.head, ((st.cells[st.head] as int + 255) % 256) as u8),
                ..st
            },
        ),
        Basic::Output => RunResult::Done(
            MachineState { output: st.output.push(st.cells[st.head]), ..st },
        ),
        Basic::Input => if st.input.len() == 0 {
            RunResult::Fail(ExecError::InputExhausted, st.output)
        } else {
            RunResult::Done(
                MachineState {
                    cells: st.cells.insert(st.head, st.input[0]),
                    input: st.input.drop_first(),
                    ..st
                },
            )
        },
    }
}

/// Run one action from `st` with the given fuel.  A loop first tests the
/// cell under the head; while it is nonzero the body runs and the loop
/// repeats.  One unit of fuel is spent per loop iteration, so every
/// terminating run is reproduced exactly by all large enough fuels.
pub open spec fn run_act(a: Action, st: MachineState, fuel: nat) -> RunResult
    decreases fuel, a, 0nat,
{
    match a {
        Action::Basic(b) => basic_step(b, st),
        Action::Loop(body) => {
            if st.cells[st.head] == 0 {
                RunResult::Done(st)
            } else if fuel == 0 {
                RunResult::Stuck(st.output)
            } else {
                match run_seq(body@, 0, st, (fuel - 1) as nat) {
                    RunResult::Done(st2) => run_act(a, st2, (fuel - 1) as nat),
                    r => r,
                }
            }
        },
    }
}

/// Run the actions of `s` from position `i` on, left to right, from `st`.
pub open spec fn run_seq(s: Seq<Action>, i: int, st: MachineState, fuel: nat) -> RunResult
    decreases fuel, s, s.len() - i,
{
    if i < 0 || i >= s.len() {
        RunResult::Done(st)
    } else {
        match run_act(s[i], st, fuel) {
            RunResult::Done(st2) => run_seq(s, i + 1, st2, fuel),
            r => r,
        }
    }
}

/// Fuel only decides whether a run finishes, never what it does: a run of
/// one action that does not get stuck is reproduced unchanged by any larger
/// fuel.  With deterministic input this makes the whole interpretation
/// deterministic.
pub proof fn lemma_run_act_mono(a: Action, st: MachineState, f1: nat, f2: nat)
    requires
        f1 <= f2,
        !(run_act(a, st, f1) is Stuck),
    ensures
        run_act(a, st, f2) == run_act(a, st, f1),
    decreases f1, a, 0nat,
{
    match a {
        Action::Basic(_) => {
        },
        Action::Loop(body) => {
            if st.cells[st.head] != 0 {
                assert(f1 > 0);
                if f1 < f2 {
                    lemma_run_seq_mono(body@, 0, st, (f1 - 1) as nat, (f2 - 1) as nat);
                    match run_seq(body@, 0, st, (f1 - 1) as nat) {
                        RunResult::Done(st2) => {
                            lemma_run_act_mono(a, st2, (f1 - 1) as nat, (f2 - 1) as nat);
                        },
                        _ => {
                        },
                    }
                }
            }
        },
    }
}

/// The output bytes a run result carries: the final state's output on
/// completion, or the output written up to a failure or up to the point
/// where the fuel ran out.
pub open spec fn run_output(r: RunResult) -> Seq<u8> {
    match r {
        RunResult::Done(st) => st.output,
        RunResult::Fail(_, out) => out,
        RunResult::Stuck(out) => out,
    }
}

/// Fuel monotonicity for action sequences, as `lemma_run_act_mono` states
/// it for one action.
pub proof fn lemma_run_seq_mono(s: Seq<Action>, i: int, st: MachineState, f1: nat, f2: nat)
    requires
        f1 <= f2,
        !(run_seq(s, i, st, f1) is Stuck),
    ensures
        run_seq(s, i, st, f2) == run_seq(s, i, st, f1),
    decreases f1, s, s.len() - i,
{
    if 0 <= i < s.len() {
        lemma_run_act_mono(s[i], st, f1, f2);
        match run_act(s[i], st, f1) {
            RunResult::Done(st2) => {
                lemma_run_seq_mono(s, i + 1, st2, f1, f2);
            },
            _ => {
            },
        }
    }
}

/// How a bounded interpretation ended.
#[derive(Debug, Clone, Copy, PartialEq, Eq, Structural)]
pub enum ExecStatus {
    /// The whole program ran to completion.
    Finished,
    /// The run aborted with a runtime failure.
    Failed(ExecError),
    /// The fuel bound was reached before the run finished.
    OutOfFuel,
}

/// The result of a bounded interpretation: the bytes written, and how the
/// run ended.
#[derive(Debug)]
pub struct ExecOutcome {
    pub output: Vec<u8>,
    pub status: ExecStatus,
}

/// The abstract cells of a tape, as a total map.
pub open spec fn tape_cells(t: Tape) -> Map<int, u8> {
    Map::total(|i: int| t.cell(i))
}

/// The abstract machine state assembled from the interpreter's concrete
/// pieces: the tape, the input and how much of it is consumed so far, and
/// the output written so far.
pub open spec fn mstate(t: Tape, input: Seq<u8>, pos: int, out: Seq<u8>) -> MachineState {
    MachineState {
        cells: tape_cells(t),
        head: t.head_pos(),
        input: input.skip(pos),
        output: out,
    }
}

/// Two tapes with equal cells have equal cell maps.
proof fn lemma_tape_cells_unchanged(t1: Tape, t2: Tape)
    requires
        forall|i: int| t2.cell(i) == t1.cell(i),
    ensures
        tape_cells(t2) == tape_cells(t1),
{
    assert(tape_cells(t2) =~= tape_cells(t1));
}

/// A tape changed at one index has the cell map of the original with that
/// one entry replaced.
proof fn lemma_tape_cells_set(t1: Tape, t2: Tape, idx: int, v: u8)
    requires
        t2.cell(idx) == v,
        forall|i: int| i != idx ==> t2.cell(i) == t1.cell(i),
    ensures
        tape_cells(t2) == tape_cells(t1).insert(idx, v),
{
    assert(tape_cells(t2) =~= tape_cells(t1).insert(idx, v));
}

/// Execute one action against the tape, reading input bytes from
/// `input[*in_pos..]` and appending output bytes to `output`, spending one
/// unit of fuel per loop iteration.  The result is exactly what the spec
/// machine computes with the same fuel.
fn execute_impl(
    tape: &mut Tape,
    code: &Action,
    input: &Vec<u8>,
    in_pos: &mut usize,
    output: &mut Vec<u8>,
    fuel: u64,
) -> (r: ExecStatus)
    requires
        *old(in_pos) <= input@.len(),
    ensures
        *final(in_pos) <= input@.len(),
        match r {
            ExecStatus::Finished => run_act(
                *code,
                mstate(*old(tape), input@, *old(in_pos) as int, old(output)@),
                fuel as nat,
            ) == RunResult::Done(
                mstate(*final(tape), input@, *final(in_pos) as int, final(output)@),
            ),
            ExecStatus::Failed(e) => run_act(
                *code,
                mstate(*old(tape), input@, *old(in_pos) as int, old(output)@),
                fuel as nat,
            ) == RunResult::Fail(e, final(output)@),
            ExecStatus::OutOfFuel => run_act(
                *code,
                mstate(*old(tape), input@, *old(in_pos) as int, old(output)@),
                fuel as nat,
            ) == RunResult::Stuck(final(output)@),
        },
    decreases code, 0nat,
{
    let ghost st0 = mstate(*old(tape), input@, *old(in_pos) as int, old(output)@);
    match code {
        Action::Basic(b) => {
            match b {
                Basic::MoveRight => {
                    if tape.head_index() == isize::MAX {
                        return ExecStatus::Failed(ExecError::HeadOutOfRange);
                    }
                    tape.move_right();
                    proof {
                        lemma_tape_cells_unchanged(*old(tape), *tape);
                        assert(mstate(*tape, input@, *in_pos as int, output@) =~= (MachineState {
                            head: st0.head + 1,
                            ..st0
                        }));
                    }
                },
                Basic::MoveLeft => {
                    if tape.head_index() == isize::MIN {
                        return ExecStatus::Failed(ExecError::HeadOutOfRange);
                    }
                    tape.move_left();
                    proof {
                        lemma_tape_cells_unchanged(*old(tape), *tape);
                        assert(mstate(*tape, input@, *in_pos as int, output@) =~= (MachineState {
                            head: st0.head - 1,
                            ..st0
                        }));
                    }
                },
                Basic::Increment => {
                    tape.increment();
                    proof {
                        let h = st0.head;
                        assert(st0.cells[h] == old(tape).cell(h));
                        lemma_tape_cells_set(
                            *old(tape),
                            *tape,
                            h,
                            ((st0.cells[h] as int + 1) % 256) as u8,
                        );
                        assert(mstate(*tape, input@, *in_pos as int, output@) =~= (MachineState {
                            cells: st0.cells.insert(h, ((st0.cells[h] as int + 1) % 256) as u8),
                            ..st0
                        }));
                    }
                },
                Basic::Decrement => {
                    tape.decrement();
                    proof {
                        let h = st0.head;
                        assert(st0.cells[h] == old(tape).cell(h));
                        lemma_tape_cells_set(
                            *old(tape),
                            *tape,
                            h,
                            ((st0.cells[h] as int + 255) % 256) as u8,
                        );
                        assert(mstate(*tape, input@, *in_pos as int, output@) =~= (MachineState {
                            cells: st0.cells.insert(h, ((st0.cells[h] as int + 255) % 256) as u8),
                            ..st0
                        }));
                    }
                },
                Basic::Output => {
                    let byte = tape.read();
                    output.push(byte);
                    proof {
                        assert(st0.cells[st0.head] == old(tape).cell(st0.head));
                        assert(mstate(*tape, input@, *in_pos as int, output@) =~= (MachineState {
                            output: st0.output.push(st0.cells[st0.head]),
                            ..st0
                        }));
                    }
                },
                Basic::Input => {
                    if *in_pos < input.len() {
                        let byte = input[*in_pos];
                        *in_pos = *in_pos + 1;
                        tape.write(byte);
                        proof {
                            let h = st0.head;
                            assert(st0.input[0] == byte);
                            assert(st0.input.drop_first() =~= input@.skip(*in_pos as int));
                            lemma_tape_cells_set(*old(tape), *tape, h, byte);
                            assert(mstate(*tape, input@, *in_pos as int, output@)
                                =~= (MachineState {
                                cells: st0.cells.insert(h, st0.input[0]),
                                input: st0.input.drop_first(),
                                ..st0
                            }));
                        }
                    } else {
                        proof {
                            assert(st0.input.len() == 0);
                        }
                        return ExecStatus::Failed(ExecError::InputExhausted);
                    }
                },
            }
            ExecStatus::Finished
        },
        Action::Loop(body) => {
            let mut f = fuel;
            while tape.read() != 0
                invariant
                    *in_pos <= input@.len(),
                    f <= fuel,
                    *code == Action::Loop(*body),
                    run_act(
                        *code,
                        mstate(*tape, input@, *in_pos as int, output@),
                        f as nat,
                    ) == run_act(*code, st0, fuel as nat),
                    st0 == mstate(*old(tape), input@, *old(in_pos) as int, old(output)@),
                decreases f,
            {
                let ghost st_iter = mstate(*tape, input@, *in_pos as int, output@);
                proof {
                    assert(st_iter.cells[st_iter.head] == tape.cell(tape.head_pos()));
                }
                if f == 0 {
                    return ExecStatus::OutOfFuel;
                }
                f = f - 1;
                let status = execute_seq(tape, body, input, in_pos, output, f);
                let ghost st_after = mstate(*tape, input@, *in_pos as int, output@);
                match status {
                    ExecStatus::Finished => {
                        proof {
                            assert(run_act(*code, st_iter, (f + 1) as nat) == run_act(
                                *code,
                                st_after,
                                f as nat,
                            ));
                        }
                    },
                    ExecStatus::Failed(e) => {
                        proof {
                            assert(run_act(*code, st_iter, (f + 1) as nat) == RunResult::Fail(
                                e,
                                output@,
                            ));
                        }
                        return ExecStatus::Failed(e);
                    },
                    ExecStatus::OutOfFuel => {
                        proof {
                            assert(run_act(*code, st_iter, (f + 1) as nat) == RunResult::Stuck(
                                output@,
                            ));
                        }
                        return ExecStatus::OutOfFuel;
                    },
                }
            }
            proof {
                let st_end = mstate(*tape, input@, *in_pos as int, output@);
                assert(st_end.cells[st_end.head] == tape.cell(tape.head_pos()));
                assert(run_act(*code, st_end, f as nat) == RunResult::Done(st_end));
            }
            ExecStatus::Finished
        },
    }
}

/// Execute the actions of `code` in order, as `execute_impl` does one.
fn execute_seq(
    tape: &mut Tape,
    code: &Vec<Action>,
    input: &Vec<u8>,
    in_pos: &mut usize,
    output: &mut Vec<u8>,
    fuel: u64,
) -> (r: ExecStatus)
    requires
        *old(in_pos) <= input@.len(),
    ensures
        *final(in_pos) <= input@.len(),
        match r {
            ExecStatus::Finished => run_seq(
                code@,
                0,
                mstate(*old(tape), input@, *old(in_pos) as int, old(output)@),
                fuel as nat,
            ) == RunResult::Done(
                mstate(*final(tape), input@, *final(in_pos) as int, final(output)@),
            ),
            ExecStatus::Failed(e) => run_seq(
                code@,
                0,
                mstate(*old(tape), input@, *old(in_pos) as int, old(output)@),
                fuel as nat,
            ) == RunResult::Fail(e, final(output)@),
            ExecStatus::OutOfFuel => run_seq(
                code@,
                0,
                mstate(*old(tape), input@, *old(in_pos) as int, old(output)@),
                fuel as nat,
            ) == RunResult::Stuck(final(output)@),
        },
    decreases code, 1nat,
{
    let ghost st0 = mstate(*old(tape), input@, *old(in_pos) as int, old(output)@);
    let n = code.len();
    let mut j: usize = 0;
    while j < n
        invariant
            n == code@.len(),
            j <= n,
            *in_pos <= input@.len(),
            run_seq(code@, j as int, mstate(*tape, input@, *in_pos as int, output@), fuel as nat)
                == run_seq(code@, 0, st0, fuel as nat),
            st0 == mstate(*old(tape), input@, *old(in_pos) as int, old(output)@),
        decreases n - j,
    {
        let ghost st_j = mstate(*tape, input@, *in_pos as int, output@);
        let status = execute_impl(tape, &code[j], input, in_pos, output, fuel);
        let ghost st_next = mstate(*tape, input@, *in_pos as int, output@);
        match status {
            ExecStatus::Finished => {
                proof {
                    assert(run_seq(code@, j as int, st_j, fuel as nat) == run_seq(
                        code@,
                        j + 1,
                        st_next,
                        fuel as nat,
                    ));
                }
            },
            ExecStatus::Failed(e) => {
                proof {
                    assert(run_seq(code@, j as int, st_j, fuel as nat) == RunResult::Fail(
                        e,
                        output@,
                    ));
                }
                return ExecStatus::Failed(e);
            },
            ExecStatus::OutOfFuel => {
                proof {
                    assert(run_seq(code@, j as int, st_j, fuel as nat) == RunResult::Stuck(
                        output@,
                    ));
                }
                return ExecStatus::OutOfFuel;
            },
        }
        j = j + 1;
    }
    ExecStatus::Finished
}

/// Interpret a whole program against a fresh tape: execute its actions in
/// depth-first, left-to-right order, reading input bytes from `input` and
/// collecting output bytes, with at most `fuel` loop iterations in all
/// nesting levels combined counted as the spec machine counts them.  The
/// outcome is exactly what the spec machine computes from the initial state
/// with that fuel.
pub fn execute(code: &Vec<Action>, input: &Vec<u8>, fuel: u64) -> (r: ExecOutcome)
    ensures
        match r.status {
            ExecStatus::Finished => run_seq(code@, 0, init_state(input@), fuel as nat)
                is Done && r.output@ == run_output(
                run_seq(code@, 0, init_state(input@), fuel as nat),
            ),
            ExecStatus::Failed(e) => run_seq(code@, 0, init_state(input@), fuel as nat)
                == RunResult::Fail(e, r.output@),
            ExecStatus::OutOfFuel => run_seq(code@, 0, init_state(input@), fuel as nat)
                == RunResult::Stuck(r.output@),
        },
{
    let mut tape = Tape::new();
    let mut in_pos: usize = 0;
    let mut output: Vec<u8> = Vec::new();
    proof {
        assert(input@.skip(0) =~= input@);
        assert(mstate(tape, input@, 0, output@) =~= init_state(input@));
    }
    let status = execute_seq(&mut tape, code, input, &mut in_pos, &mut output, fuel);
    ExecOutcome { output, status }
}

} // verus!

