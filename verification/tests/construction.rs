use xb_machine::ConstructionError;
use xb_machine::Direction;
use xb_machine::TransitionTable;

fn key(symbol: char, state: &str) -> (char, String) {
    (symbol, String::from(state))
}

fn instr(symbol: char, direction: Direction, state: &str) -> (char, Direction, String) {
    (symbol, direction, String::from(state))
}

#[test]
fn build_rejects_length_mismatch() {
    let states = vec![key('B', "s1"), key('B', "s2")];
    let instructions = vec![instr('X', Direction::Right, "s2")];
    let result = TransitionTable::build(states, instructions);
    assert!(matches!(result, Err(ConstructionError::LengthMismatch)));
}

#[test]
fn build_accepts_empty_lists() {
    let table = TransitionTable::build(vec![], vec![]).unwrap();
    assert!(table.get('B', &String::from("s1")).is_none());
}

#[test]
fn lookup_finds_stored_instruction() {
    let states = vec![key('B', "s1"), key('X', "s2")];
    let instructions = vec![
        instr('X', Direction::Right, "s2"),
        instr('B', Direction::Left, "s1"),
    ];
    let table = TransitionTable::build(states, instructions).unwrap();

    let first = table.get('B', &String::from("s1")).unwrap();
    assert_eq!(first.write_symbol, 'X');
    assert_eq!(first.direction, Direction::Right);
    assert_eq!(first.next_state, "s2");

    let second = table.get('X', &String::from("s2")).unwrap();
    assert_eq!(second.write_symbol, 'B');
    assert_eq!(second.direction, Direction::Left);
    assert_eq!(second.next_state, "s1");
}

#[test]
fn lookup_misses_return_none() {
    let states = vec![key('B', "s1")];
    let instructions = vec![instr('X', Direction::Right, "s2")];
    let table = TransitionTable::build(states, instructions).unwrap();
    assert!(table.get('X', &String::from("s1")).is_none());
    assert!(table.get('B', &String::from("s2")).is_none());
    assert!(table.get('Z', &String::from("zz")).is_none());
}

#[test]
fn duplicate_key_last_write_wins() {
    let states = vec![key('B', "s1"), key('B', "s1")];
    let instructions = vec![
        instr('X', Direction::Right, "s2"),
        instr('B', Direction::Left, "s3"),
    ];
    let table = TransitionTable::build(states, instructions).unwrap();
    let stored = table.get('B', &String::from("s1")).unwrap();
    assert_eq!(stored.write_symbol, 'B');
    assert_eq!(stored.direction, Direction::Left);
    assert_eq!(stored.next_state, "s3");
}

#[test]
fn build_twice_gives_identical_lookups() {
    let states = || vec![key('B', "s1"), key('X', "s2"), key('B', "s1")];
    let instructions = || {
        vec![
            instr('X', Direction::Right, "s2"),
            instr('B', Direction::Left, "s1"),
            instr('B', Direction::Right, "s4"),
        ]
    };
    let first = TransitionTable::build(states(), instructions()).unwrap();
    let second = TransitionTable::build(states(), instructions()).unwrap();
    let probes = [
        ('B', "s1"),
        ('X', "s2"),
        ('B', "s2"),
        ('X', "s1"),
        ('Q', "s9"),
    ];
    for (symbol, state) in probes {
        let a = first.get(symbol, &String::from(state));
        let b = second.get(symbol, &String::from(state));
        match (a, b) {
            (None, None) => {}
            (Some(x), Some(y)) => {
                assert_eq!(x.write_symbol, y.write_symbol);
                assert_eq!(x.direction, y.direction);
                assert_eq!(x.next_state, y.next_state);
            }
            _ => panic!("the two tables disagree on ({symbol}, {state})"),
        }
    }
}
