//! The execution engine: a mathematical model of a run (one step, then a
//! whole run by recursion on the remaining budget) and the verified
//! execution loop that produces exactly the modelled trace.

use crate::table::InstructionModel;
use crate::table::KeyModel;
use crate::table::TableModel;
use crate::table::TransitionKey;
use crate::table::TransitionTable;
use crate::table::Direction;
use crate::table::Instruction;
use vstd::prelude::*;

verus! {

/// The symbol every tape cell starts out with.
pub const BLANK: char = 'B';

/// Why a run stopped.
#[derive(Clone, Copy, Debug, PartialEq, Eq, Structural)]
pub enum HaltReason {
    /// The current (symbol, state) pair has no table entry: the designed,
    /// expected termination.
    NoTransition,
    /// The step budget ran out before any such pair was reached: the
    /// safety bound against cyclic tables.
    StepBudgetExceeded,
}

/// The complete machine state between steps: tape contents, head position
/// and control state.
#[verifier::ext_equal]
pub struct Config {
    pub tape: Seq<char>,
    pub head: int,
    pub state: Seq<char>,
}

/// The mathematical value of one trace record.
#[verifier::ext_equal]
pub struct RecordModel {
    pub step_index: int,
    pub tape_before: Seq<char>,
    pub key: KeyModel,
    pub instruction: InstructionModel,
}

/// The mathematical value of a whole run: its trace records in order, why
/// it stopped, and the final tape, head and state.
#[verifier::ext_equal]
pub struct RunModel {
    pub records: Seq<RecordModel>,
    pub status: HaltReason,
    pub tape: Seq<char>,
    pub head: int,
    pub state: Seq<char>,
}

/// A machine state assembled from its three parts.
pub open spec fn machine_config(tape: Seq<char>, head: int, state: Seq<char>) -> Config {
    Config { tape, head, state }
}

/// The state a run starts from: a tape of `tape_length` blanks, the head
/// on cell 0, the given control state.
pub open spec fn initial_config(tape_length: int, initial_state: Seq<char>) -> Config {
    Config {
        tape: Seq::new(tape_length as nat, |i: int| BLANK),
        head: 0,
        state: initial_state,
    }
}

/// The pair looked up in the table: the symbol under the head and the
/// current control state.
pub open spec fn config_key(c: Config) -> KeyModel {
    (c.tape[c.head], c.state)
}

/// How far the head moves: one cell right or one cell left.
pub open spec fn move_offset(direction: Direction) -> int {
    match direction {
        Direction::Right => 1,
        Direction::Left => -1,
    }
}

/// The asymmetric wrap at the tape's edges, applied after every move: a
/// head that fell off the left edge is put on cell 1, one past the right
/// edge on cell 0.  This is deliberately not a modular wrap.
pub open spec fn wrap_head(moved: int, tape_length: int) -> int {
    if moved < 0 {
        1
    } else if moved > tape_length - 1 {
        0
    } else {
        moved
    }
}

/// One step of the machine under a matched instruction: write, move (with
/// the wrap), change state.
pub open spec fn apply_instruction(c: Config, instruction: InstructionModel, tape_length: int) -> Config {
    Config {
        tape: c.tape.update(c.head, instruction.write_symbol),
        head: wrap_head(c.head + move_offset(instruction.direction), tape_length),
        state: instruction.next_state,
    }
}

/// The trace record a step emits: the step's index, the tape as it stood
/// before the write, the matched key and the applied instruction.
pub open spec fn record_of(c: Config, instruction: InstructionModel, step_index: int) -> RecordModel {
    RecordModel { step_index, tape_before: c.tape, key: config_key(c), instruction }
}

/// A run model with `prefix` prepended to its records.
pub open spec fn prepend_records(prefix: Seq<RecordModel>, rest: RunModel) -> RunModel {
    RunModel {
        records: prefix + rest.records,
        status: rest.status,
        tape: rest.tape,
        head: rest.head,
        state: rest.state,
    }
}

/// The rest of a run from state `c`, the next step carrying `step_index`,
/// at most `max_steps` steps in the whole run.  The budget is checked
/// before each lookup: a run whose budget is exhausted stops with
/// `StepBudgetExceeded` even where the next lookup would have failed.
pub open spec fn run_from(
    table: TableModel,
    tape_length: int,
    c: Config,
    step_index: nat,
    max_steps: nat,
) -> RunModel
    decreases max_steps - step_index,
{
    if step_index >= max_steps {
        RunModel {
            records: Seq::empty(),
            status: HaltReason::StepBudgetExceeded,
            tape: c.tape,
            head: c.head,
            state: c.state,
        }
    } else if !table.contains_key(config_key(c)) {
        RunModel {
            records: Seq::empty(),
            status: HaltReason::NoTransition,
            tape: c.tape,
            head: c.head,
            state: c.state,
        }
    } else {
        let instruction = table[config_key(c)];
        let rest = run_from(
            table,
            tape_length,
            apply_instruction(c, instruction, tape_length),
            step_index + 1,
            max_steps,
        );
        prepend_records(seq![record_of(c, instruction, step_index as int)], rest)
    }
}

/// A whole run: from the initial state, step 0 first.
pub open spec fn run(
    table: TableModel,
    tape_length: int,
    initial_state: Seq<char>,
    max_steps: nat,
) -> RunModel {
    run_from(table, tape_length, initial_config(tape_length, initial_state), 0, max_steps)
}

/// One step of a run as the caller sees it: the step's index, the tape as
/// it stood before the step's write, and the matched key and instruction.
#[derive(Debug)]
pub struct TraceRecord {
    pub step_index: usize,
    pub tape_before: Vec<char>,
    pub key: TransitionKey,
    pub instruction: Instruction,
}

impl View for TraceRecord {
    type V = RecordModel;

    open spec fn view(&self) -> RecordModel {
        RecordModel {
            step_index: self.step_index as int,
            tape_before: self.tape_before@,
            key: self.key@,
            instruction: self.instruction@,
        }
    }
}

/// The mathematical values of a list of trace records, in order.
pub open spec fn trace_models(records: Seq<TraceRecord>) -> Seq<RecordModel> {
    records.map_values(|record: TraceRecord| record@)
}

/// Appending a record appends its mathematical value.
proof fn lemma_trace_models_push(records: Seq<TraceRecord>, record: TraceRecord)
    ensures
        trace_models(records.push(record)) == trace_models(records).push(record@),
{
    let appended = records.push(record);
    assert forall|i: int| 0 <= i < appended.len() implies trace_models(appended)[i]
        == trace_models(records).push(record@)[i] by {
        if i < records.len() {
            assert(appended[i] == records[i]);
        } else {
            assert(appended[i] == record);
        }
    }
    assert(trace_models(appended) =~= trace_models(records).push(record@));
}

/// What a whole run returns: every step's record in order, why the run
/// stopped, and the final tape, head and state.
#[derive(Debug)]
pub struct ExecutionTrace {
    pub records: Vec<TraceRecord>,
    pub status: HaltReason,
    pub tape: Vec<char>,
    pub head: usize,
    pub state: String,
}

impl View for ExecutionTrace {
    type V = RunModel;

    open spec fn view(&self) -> RunModel {
        RunModel {
            records: trace_models(self.records@),
            status: self.status,
            tape: self.tape@,
            head: self.head as int,
            state: self.state@,
        }
    }
}

/// An exact copy of the tape, taken for a step's snapshot.
#[verifier::loop_isolation(false)]
fn clone_tape(tape: &Vec<char>) -> (snapshot: Vec<char>)
    ensures
        snapshot@ == tape@,
{
    let mut snapshot: Vec<char> = Vec::new();
    let mut i: usize = 0;
    while i < tape.len()
        invariant
            i <= tape@.len(),
            snapshot@ == tape@.take(i as int),
        decreases tape@.len() - i,
    {
        snapshot.push(tape[i]);
        proof {
            assert(tape@.take(i + 1) =~= tape@.take(i as int).push(tape@[i as int]));
        }
        i += 1;
    }
    proof {
        assert(tape@.take(tape@.len() as int) =~= tape@);
    }
    snapshot
}

/// Runs the machine: from a tape of `tape_length` blanks, head on cell 0
/// and state `initial_state`, it repeatedly looks the (symbol under the
/// head, state) pair up in `table` and applies the matched instruction,
/// until no entry matches (`NoTransition`) or `max_steps` steps have been
/// taken (`StepBudgetExceeded`; the budget is checked before each lookup).
/// The trace is exactly the modelled run: the result is a function of the
/// arguments alone.  The tape must have at least two cells: the wrap rule
/// puts a head that fell off the left edge on cell 1, which only a tape of
/// two or more cells can hold.
#[verifier::loop_isolation(false)]
pub fn simulate(
    table: &TransitionTable,
    tape_length: usize,
    initial_state: String,
    max_steps: usize,
) -> (trace: ExecutionTrace)
    requires
        table.wf(),
        tape_length >= 2,
    ensures
        trace@ == run(table@, tape_length as int, initial_state@, max_steps as nat),
        trace.head < tape_length,
        trace.tape@.len() == tape_length as int,
{
    let ghost table_model: TableModel = table@;
    let ghost initial_model: Seq<char> = initial_state@;
    let ghost run_value: RunModel = run(
        table_model,
        tape_length as int,
        initial_model,
        max_steps as nat,
    );

    let mut tape: Vec<char> = Vec::new();
    while tape.len() < tape_length
        invariant
            tape@.len() <= tape_length as int,
            forall|i: int| 0 <= i < tape@.len() ==> tape@[i] == BLANK,
        decreases tape_length - tape@.len(),
    {
        tape.push(BLANK);
    }
    let mut head: usize = 0;
    let mut state: String = initial_state;
    let mut records: Vec<TraceRecord> = Vec::new();
    let mut step_index: usize = 0;

    proof {
        assert(machine_config(tape@, head as int, state@) =~= initial_config(
            tape_length as int,
            initial_model,
        ));
        assert(trace_models(records@) =~= Seq::<RecordModel>::empty());
        assert(prepend_records(
            trace_models(records@),
            run_from(
                table_model,
                tape_length as int,
                machine_config(tape@, head as int, state@),
                step_index as nat,
                max_steps as nat,
            ),
        ) =~= run_value);
    }

    while step_index < max_steps
        invariant
            tape@.len() == tape_length as int,
            head < tape_length,
            step_index <= max_steps,
            step_index as int == records@.len(),
            run_value == prepend_records(
                trace_models(records@),
                run_from(
                    table_model,
                    tape_length as int,
                    machine_config(tape@, head as int, state@),
                    step_index as nat,
                    max_steps as nat,
                ),
            ),
        decreases max_steps - step_index,
    {
        let ghost cur: Config = machine_config(tape@, head as int, state@);
        let ghost rest_before: RunModel = run_from(
            table_model,
            tape_length as int,
            cur,
            step_index as nat,
            max_steps as nat,
        );
        let symbol = tape[head];
        proof {
            assert(config_key(cur) == (symbol, state@));
        }
        match table.get(symbol, &state) {
            None => {
                proof {
                    assert(!table_model.contains_key(config_key(cur)));
                    assert(rest_before.records =~= Seq::<RecordModel>::empty());
                }
                let trace = ExecutionTrace {
                    records,
                    status: HaltReason::NoTransition,
                    tape,
                    head,
                    state,
                };
                proof {
                    assert(trace@.records =~= trace_models(trace.records@) + rest_before.records);
                    assert(trace@ =~= run_value);
                }
                return trace;
            },
            Some(instruction) => {
                let ghost applied: InstructionModel = instruction@;
                let ghost stepped: Config = apply_instruction(cur, applied, tape_length as int);
                let ghost emitted: RecordModel = record_of(cur, applied, step_index as int);
                proof {
                    assert(table_model.contains_key(config_key(cur)));
                    assert(table_model[config_key(cur)] == applied);
                    assert(rest_before == prepend_records(
                        seq![emitted],
                        run_from(
                            table_model,
                            tape_length as int,
                            stepped,
                            step_index as nat + 1,
                            max_steps as nat,
                        ),
                    ));
                }
                let record = TraceRecord {
                    step_index,
                    tape_before: clone_tape(&tape),
                    key: TransitionKey { symbol, state: state.clone() },
                    instruction: Instruction {
                        write_symbol: instruction.write_symbol,
                        direction: instruction.direction,
                        next_state: instruction.next_state.clone(),
                    },
                };
                proof {
                    assert(record@ =~= emitted);
                }
                let ghost pushed: TraceRecord = record;
                let ghost records_before: Seq<TraceRecord> = records@;
                records.push(record);
                proof {
                    assert(records@ == records_before.push(pushed));
                    lemma_trace_models_push(records_before, pushed);
                    assert(pushed@ == emitted);
                    assert(trace_models(records@) == trace_models(records_before).push(emitted));
                }
                tape.set(head, instruction.write_symbol);
                head = match instruction.direction {
                    Direction::Right => {
                        let moved: usize = head + 1;
                        if moved > tape_length - 1 {
                            0
                        } else {
                            moved
                        }
                    },
                    Direction::Left => {
                        if head == 0 {
                            1
                        } else {
                            head - 1
                        }
                    },
                };
                state = instruction.next_state.clone();
                step_index = step_index + 1;
                proof {
                    assert(tape@ == cur.tape.update(cur.head, applied.write_symbol));
                    assert(head as int == wrap_head(
                        cur.head + move_offset(applied.direction),
                        tape_length as int,
                    ));
                    assert(machine_config(tape@, head as int, state@) =~= stepped);
                    assert(trace_models(records_before) + (seq![emitted] + run_from(
                        table_model,
                        tape_length as int,
                        stepped,
                        step_index as nat,
                        max_steps as nat,
                    ).records) =~= trace_models(records@) + run_from(
                        table_model,
                        tape_length as int,
                        stepped,
                        step_index as nat,
                        max_steps as nat,
                    ).records);
                    assert(run_value == prepend_records(
                        trace_models(records@),
                        run_from(
                            table_model,
                            tape_length as int,
                            machine_config(tape@, head as int, state@),
                            step_index as nat,
                            max_steps as nat,
                        ),
                    ));
                }
            },
        }
    }
    let ghost rest_after: RunModel = run_from(
        table_model,
        tape_length as int,
        machine_config(tape@, head as int, state@),
        step_index as nat,
        max_steps as nat,
    );
    proof {
        assert(rest_after.status == HaltReason::StepBudgetExceeded);
        assert(rest_after.records =~= Seq::<RecordModel>::empty());
    }
    let trace = ExecutionTrace {
        records,
        status: HaltReason::StepBudgetExceeded,
        tape,
        head,
        state,
    };
    proof {
        assert(trace@.records =~= trace_models(trace.records@) + rest_after.records);
        assert(trace@ =~= run_value);
    }
    trace
}

/// The run is deterministic: for one table, tape length, initial state and
/// step budget there is one outcome, so two traces that both satisfy
/// `simulate`'s postcondition are equal, records, status, tape, head and
/// state alike.
pub proof fn lemma_simulate_deterministic(
    first: RunModel,
    second: RunModel,
    table: TableModel,
    tape_length: int,
    initial_state: Seq<char>,
    max_steps: nat,
)
    requires
        first == run(table, tape_length, initial_state, max_steps),
        second == run(table, tape_length, initial_state, max_steps),
    ensures
        first == second,
{
}

/// The wrap keeps the head on the tape: after any step's bounds
/// correction, the head lies in [0, tape_length - 1].
pub proof fn lemma_head_in_bounds(c: Config, instruction: InstructionModel, tape_length: int)
    requires
        tape_length >= 2,
        0 <= c.head <= tape_length - 1,
    ensures
        0 <= apply_instruction(c, instruction, tape_length).head <= tape_length - 1,
{
}

/// The head bound holds through a whole run: a run started with its head
/// on the tape ends with its head on the tape.
pub proof fn lemma_run_from_head_in_bounds(
    table: TableModel,
    tape_length: int,
    c: Config,
    step_index: nat,
    max_steps: nat,
)
    requires
        tape_length >= 2,
        0 <= c.head <= tape_length - 1,
    ensures
        0 <= run_from(table, tape_length, c, step_index, max_steps).head <= tape_length - 1,
    decreases max_steps - step_index,
{
    if step_index < max_steps && table.contains_key(config_key(c)) {
        let stepped = apply_instruction(c, table[config_key(c)], tape_length);
        lemma_head_in_bounds(c, table[config_key(c)], tape_length);
        lemma_run_from_head_in_bounds(table, tape_length, stepped, step_index + 1, max_steps);
    }
}

/// Step-budget enforcement, from any point of a run: a rest-of-run that
/// stops because the budget was hit holds one record for every step the
/// budget still allowed, exactly.
pub proof fn lemma_budget_exhaustion_exact(
    table: TableModel,
    tape_length: int,
    c: Config,
    step_index: nat,
    max_steps: nat,
)
    requires
        step_index <= max_steps,
        run_from(table, tape_length, c, step_index, max_steps).status
            == HaltReason::StepBudgetExceeded,
    ensures
        run_from(table, tape_length, c, step_index, max_steps).records.len() == max_steps
            - step_index,
    decreases max_steps - step_index,
{
    if step_index < max_steps {
        assert(table.contains_key(config_key(c)));
        lemma_budget_exhaustion_exact(
            table,
            tape_length,
            apply_instruction(c, table[config_key(c)], tape_length),
            step_index + 1,
            max_steps,
        );
    }
}

/// Step-budget enforcement: a run that ends with `StepBudgetExceeded`
/// executed exactly `max_steps` steps, not one more and not one fewer.
pub proof fn lemma_step_budget_exact(
    table: TableModel,
    tape_length: int,
    initial_state: Seq<char>,
    max_steps: nat,
)
    requires
        run(table, tape_length, initial_state, max_steps).status
            == HaltReason::StepBudgetExceeded,
    ensures
        run(table, tape_length, initial_state, max_steps).records.len() == max_steps,
{
    lemma_budget_exhaustion_exact(
        table,
        tape_length,
        initial_config(tape_length, initial_state),
        0,
        max_steps,
    );
}

} // verus!
