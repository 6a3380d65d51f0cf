use xb_machine::Direction;
use xb_machine::HaltReason;
use xb_machine::TransitionTable;
use xb_machine::simulate;

/// The classic four-state program: it turns the first cell into an X and
/// then back into a B, cycling s1 -> s2 -> s3 -> s4 -> s1 forever.
fn example_machine() -> TransitionTable {
    let states = vec![
        ('B', String::from("s1")),
        ('B', String::from("s2")),
        ('X', String::from("s3")),
        ('B', String::from("s4")),
    ];
    let instructions = vec![
        ('X', Direction::Right, String::from("s2")),
        ('B', Direction::Left, String::from("s3")),
        ('B', Direction::Right, String::from("s4")),
        ('B', Direction::Left, String::from("s1")),
    ];
    TransitionTable::build(states, instructions).unwrap()
}

#[test]
fn it_works() {
    let table = example_machine();
    simulate(&table, 2, String::from("s1"), 4);
}

#[test]
fn example_program_traces_the_full_cycle() {
    let table = example_machine();
    let trace = simulate(&table, 2, String::from("s1"), 4);

    assert_eq!(trace.records.len(), 4);

    let expected = [
        // (index, tape before the write, key, written, direction, next state)
        (0, vec!['B', 'B'], ('B', "s1"), 'X', Direction::Right, "s2"),
        (1, vec!['X', 'B'], ('B', "s2"), 'B', Direction::Left, "s3"),
        (2, vec!['X', 'B'], ('X', "s3"), 'B', Direction::Right, "s4"),
        (3, vec!['B', 'B'], ('B', "s4"), 'B', Direction::Left, "s1"),
    ];
    for (record, want) in trace.records.iter().zip(expected.iter()) {
        assert_eq!(record.step_index, want.0);
        assert_eq!(record.tape_before, want.1);
        assert_eq!(record.key.symbol, want.2.0);
        assert_eq!(record.key.state, want.2.1);
        assert_eq!(record.instruction.write_symbol, want.3);
        assert_eq!(record.instruction.direction, want.4);
        assert_eq!(record.instruction.next_state, want.5);
    }

    assert_eq!(trace.status, HaltReason::StepBudgetExceeded);
    assert_eq!(trace.tape, vec!['B', 'B']);
    assert_eq!(trace.head, 0);
    assert_eq!(trace.state, "s1");
}

#[test]
fn budget_of_three_is_exceeded_on_the_cyclic_table() {
    let table = example_machine();
    let trace = simulate(&table, 2, String::from("s1"), 3);
    assert_eq!(trace.status, HaltReason::StepBudgetExceeded);
    assert_eq!(trace.records.len(), 3);
    assert_eq!(trace.tape, vec!['B', 'B']);
    assert_eq!(trace.head, 1);
    assert_eq!(trace.state, "s4");
}

#[test]
fn budget_is_spent_exactly() {
    let table = example_machine();
    for budget in [0, 1, 2, 5, 10] {
        let trace = simulate(&table, 2, String::from("s1"), budget);
        assert_eq!(trace.status, HaltReason::StepBudgetExceeded);
        assert_eq!(trace.records.len(), budget);
    }
}

#[test]
fn identical_runs_give_identical_traces() {
    let table = example_machine();
    let first = simulate(&table, 2, String::from("s1"), 7);
    let second = simulate(&table, 2, String::from("s1"), 7);

    assert_eq!(first.records.len(), second.records.len());
    for (a, b) in first.records.iter().zip(second.records.iter()) {
        assert_eq!(a.step_index, b.step_index);
        assert_eq!(a.tape_before, b.tape_before);
        assert_eq!(a.key.symbol, b.key.symbol);
        assert_eq!(a.key.state, b.key.state);
        assert_eq!(a.instruction.write_symbol, b.instruction.write_symbol);
        assert_eq!(a.instruction.direction, b.instruction.direction);
        assert_eq!(a.instruction.next_state, b.instruction.next_state);
    }
    assert_eq!(first.status, second.status);
    assert_eq!(first.tape, second.tape);
    assert_eq!(first.head, second.head);
    assert_eq!(first.state, second.state);
}

#[test]
fn no_transition_halts_the_run() {
    let states = vec![('B', String::from("u1")), ('B', String::from("u2"))];
    let instructions = vec![
        ('B', Direction::Right, String::from("u2")),
        ('B', Direction::Right, String::from("u3")),
    ];
    let table = TransitionTable::build(states, instructions).unwrap();
    let trace = simulate(&table, 2, String::from("u1"), 5);
    assert_eq!(trace.status, HaltReason::NoTransition);
    assert_eq!(trace.records.len(), 2);
    assert_eq!(trace.state, "u3");
    // the second move ran off the right edge, so the head wrapped to cell 0
    assert_eq!(trace.head, 0);
}

#[test]
fn left_edge_wraps_to_cell_one() {
    let states = vec![('B', String::from("w1"))];
    let instructions = vec![('B', Direction::Left, String::from("w2"))];
    let table = TransitionTable::build(states, instructions).unwrap();
    let trace = simulate(&table, 3, String::from("w1"), 1);
    assert_eq!(trace.records.len(), 1);
    assert_eq!(trace.head, 1);
    assert_eq!(trace.state, "w2");
}

#[test]
fn empty_table_halts_at_once() {
    let table = TransitionTable::build(vec![], vec![]).unwrap();
    let trace = simulate(&table, 2, String::from("s1"), 5);
    assert_eq!(trace.status, HaltReason::NoTransition);
    assert_eq!(trace.records.len(), 0);
    assert_eq!(trace.tape, vec!['B', 'B']);
    assert_eq!(trace.head, 0);
    assert_eq!(trace.state, "s1");
}

#[test]
fn zero_budget_halts_before_any_lookup() {
    let table = TransitionTable::build(vec![], vec![]).unwrap();
    let trace = simulate(&table, 2, String::from("s1"), 0);
    assert_eq!(trace.status, HaltReason::StepBudgetExceeded);
    assert_eq!(trace.records.len(), 0);
}

#[test]
fn tape_starts_as_blanks_of_the_given_length() {
    let table = TransitionTable::build(vec![], vec![]).unwrap();
    let trace = simulate(&table, 5, String::from("s1"), 3);
    assert_eq!(trace.tape, vec!['B', 'B', 'B', 'B', 'B']);
}
