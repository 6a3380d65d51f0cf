//! The transition table: an immutable mapping from (symbol, state) keys to
//! instructions, built once from two positional lists and queried by exact
//! keyed lookup.

use vstd::prelude::*;

verus! {

/// The direction the head moves after a write.
#[derive(Clone, Copy, Debug, PartialEq, Eq, Structural)]
pub enum Direction {
    Left,
    Right,
}

/// A lookup key of the transition table: the symbol under the head paired
/// with the machine's current control state.
#[derive(Debug)]
pub struct TransitionKey {
    pub symbol: char,
    pub state: String,
}

/// What the machine does when a key matches: the symbol to write, the
/// direction to move, and the control state to enter.
#[derive(Debug)]
pub struct Instruction {
    pub write_symbol: char,
    pub direction: Direction,
    pub next_state: String,
}

/// The mathematical value of an `Instruction`, with the state label as a
/// sequence of characters.
#[verifier::ext_equal]
pub struct InstructionModel {
    pub write_symbol: char,
    pub direction: Direction,
    pub next_state: Seq<char>,
}

/// The mathematical value of a `TransitionKey`.
pub type KeyModel = (char, Seq<char>);

/// The mathematical value of a whole table: a finite map from keys to
/// instructions.
pub type TableModel = Map<KeyModel, InstructionModel>;

impl View for TransitionKey {
    type V = KeyModel;

    open spec fn view(&self) -> KeyModel {
        (self.symbol, self.state@)
    }
}

impl View for Instruction {
    type V = InstructionModel;

    open spec fn view(&self) -> InstructionModel {
        InstructionModel {
            write_symbol: self.write_symbol,
            direction: self.direction,
            next_state: self.next_state@,
        }
    }
}

/// Why a table could not be built.
#[derive(Clone, Copy, Debug, PartialEq, Eq, Structural)]
pub enum ConstructionError {
    /// The list of keys and the list of instructions differ in length.
    LengthMismatch,
}

/// The stored entries as mathematical values, in storage order.
pub open spec fn entry_models(entries: Seq<(TransitionKey, Instruction)>) -> Seq<
    (KeyModel, InstructionModel),
> {
    entries.map_values(|entry: (TransitionKey, Instruction)| (entry.0@, entry.1@))
}

/// Folds an ordered list of (key, instruction) pairs into a map; a later
/// pair at an equal key replaces an earlier one (last write wins).
pub open spec fn entries_map(entries: Seq<(KeyModel, InstructionModel)>) -> TableModel
    decreases entries.len(),
{
    if entries.len() == 0 {
        Map::empty()
    } else {
        entries_map(entries.drop_last()).insert(entries.last().0, entries.last().1)
    }
}

/// No two entries share a key.
pub open spec fn distinct_keys(entries: Seq<(KeyModel, InstructionModel)>) -> bool {
    forall|i: int, j: int| 0 <= i < j < entries.len() ==> entries[i].0 != entries[j].0
}

/// The map a table built from these two positional lists holds: the i-th
/// key maps to the i-th instruction, and a later pair at an equal key
/// replaces an earlier one (last write wins).
pub open spec fn table_model(states: Seq<KeyModel>, instructions: Seq<InstructionModel>) -> TableModel
    decreases states.len(),
{
    if states.len() == 0 || instructions.len() == 0 {
        Map::empty()
    } else {
        table_model(states.drop_last(), instructions.drop_last()).insert(
            states.last(),
            instructions.last(),
        )
    }
}

/// The mathematical values of a list of (symbol, state label) pairs.
pub open spec fn state_models(states: Seq<(char, String)>) -> Seq<KeyModel> {
    states.map_values(|state: (char, String)| (state.0, state.1@))
}

/// The mathematical value of one (symbol, direction, state label) triple.
pub open spec fn instruction_model_of(instruction: (char, Direction, String)) -> InstructionModel {
    InstructionModel {
        write_symbol: instruction.0,
        direction: instruction.1,
        next_state: instruction.2@,
    }
}

/// The mathematical values of a list of (symbol, direction, state label)
/// triples.
pub open spec fn instruction_models(instructions: Seq<(char, Direction, String)>) -> Seq<
    InstructionModel,
> {
    instructions.map_values(
        |instruction: (char, Direction, String)| instruction_model_of(instruction),
    )
}

/// Exact lookup in a table model: the one instruction stored at `key`, or
/// `None`.  A map holds at most one value per key, so no key ever has more
/// than one match.
pub open spec fn table_get(table: TableModel, key: KeyModel) -> Option<InstructionModel> {
    if table.contains_key(key) {
        Some(table[key])
    } else {
        None
    }
}

/// The mathematical value of a lookup result handed out by `get`.
pub open spec fn lookup_model(result: Option<&Instruction>) -> Option<InstructionModel> {
    match result {
        Some(instruction) => Some(instruction@),
        None => None,
    }
}

/// How `entries_map` answers a lookup: a key is present exactly when some
/// entry carries it, and with distinct keys that entry's instruction is the
/// answer.
proof fn lemma_entries_map_get(entries: Seq<(KeyModel, InstructionModel)>, key: KeyModel)
    ensures
        entries_map(entries).contains_key(key) <==> exists|j: int|
            0 <= j < entries.len() && entries[j].0 == key,
        distinct_keys(entries) ==> forall|j: int|
            0 <= j < entries.len() && entries[j].0 == key ==> entries_map(entries)[key]
                == entries[j].1,
    decreases entries.len(),
{
    if entries.len() > 0 {
        let prefix = entries.drop_last();
        let last = entries.last();
        lemma_entries_map_get(prefix, key);
        if last.0 == key {
            assert(entries[entries.len() - 1].0 == key);
        }
        if entries_map(prefix).contains_key(key) {
            let j = choose|j: int| 0 <= j < prefix.len() && prefix[j].0 == key;
            assert(entries[j].0 == key);
        }
        if exists|j: int| 0 <= j < entries.len() && entries[j].0 == key {
            let j = choose|j: int| 0 <= j < entries.len() && entries[j].0 == key;
            if j < entries.len() - 1 {
                assert(prefix[j].0 == key);
            } else {
                assert(last.0 == key);
            }
        }
        if distinct_keys(entries) {
            assert(distinct_keys(prefix)) by {
                assert forall|i: int, j: int| 0 <= i < j < prefix.len() implies prefix[i].0
                    != prefix[j].0 by {
                    assert(entries[i].0 != entries[j].0);
                }
            }
            assert forall|j: int| 0 <= j < entries.len() && entries[j].0 == key implies
                entries_map(entries)[key] == entries[j].1 by {
                if j < entries.len() - 1 {
                    assert(entries[j].0 != last.0);
                    assert(prefix[j].0 == key);
                }
            }
        }
    }
}

/// Replacing the instruction of the one entry that carries `key` is, at the
/// map level, an insertion at `key`.
proof fn lemma_entries_map_update(
    entries: Seq<(KeyModel, InstructionModel)>,
    j: int,
    key: KeyModel,
    instruction: InstructionModel,
)
    requires
        distinct_keys(entries),
        0 <= j < entries.len(),
        entries[j].0 == key,
    ensures
        entries_map(entries.update(j, (key, instruction))) == entries_map(entries).insert(
            key,
            instruction,
        ),
    decreases entries.len(),
{
    let updated = entries.update(j, (key, instruction));
    let prefix = entries.drop_last();
    let last = entries.last();
    if j == entries.len() - 1 {
        assert(updated.drop_last() =~= prefix);
        assert(entries_map(updated) == entries_map(prefix).insert(key, instruction));
        assert(entries_map(prefix).insert(key, last.1).insert(key, instruction)
            =~= entries_map(prefix).insert(key, instruction));
    } else {
        assert(distinct_keys(prefix)) by {
            assert forall|a: int, b: int| 0 <= a < b < prefix.len() implies prefix[a].0
                != prefix[b].0 by {
                assert(entries[a].0 != entries[b].0);
            }
        }
        assert(prefix[j].0 == key);
        lemma_entries_map_update(prefix, j, key, instruction);
        assert(updated.drop_last() =~= prefix.update(j, (key, instruction)));
        assert(updated.last() == last);
        assert(last.0 != key) by {
            assert(entries[j].0 != entries[entries.len() - 1].0);
        }
        assert(entries_map(updated) == entries_map(prefix).insert(key, instruction).insert(
            last.0,
            last.1,
        ));
        assert(entries_map(prefix).insert(key, instruction).insert(last.0, last.1)
            =~= entries_map(prefix).insert(last.0, last.1).insert(key, instruction));
    }
}

/// An immutable mapping from (symbol, state) keys to instructions.  Keys
/// are kept unique: an insertion at an existing key replaces the stored
/// instruction (last write wins), so exactly one entry can match any key.
#[derive(Debug)]
pub struct TransitionTable {
    entries: Vec<(TransitionKey, Instruction)>,
}

impl View for TransitionTable {
    type V = TableModel;

    closed spec fn view(&self) -> TableModel {
        entries_map(entry_models(self.entries@))
    }
}

impl TransitionTable {
    /// The table's internal invariant: no two stored entries share a key.
    pub closed spec fn wf(&self) -> bool {
        distinct_keys(entry_models(self.entries@))
    }

    /// Stores `key -> instruction`, replacing the stored instruction when
    /// the key is already present (last write wins).
    #[verifier::loop_isolation(false)]
    fn insert(&mut self, key: TransitionKey, instruction: Instruction)
        requires
            old(self).wf(),
        ensures
            final(self).wf(),
            final(self)@ == old(self)@.insert(key@, instruction@),
    {
        let ghost key_model: KeyModel = key@;
        let ghost old_models = entry_models(old(self).entries@);
        let mut j: usize = 0;
        while j < self.entries.len()
            invariant
                j <= self.entries@.len(),
                self.entries@ == old(self).entries@,
                forall|k: int| 0 <= k < j ==> old_models[k].0 != key_model,
            decreases self.entries@.len() - j,
        {
            let found = self.entries[j].0.symbol == key.symbol && self.entries[j].0.state
                == key.state;
            if found {
                proof {
                    assert(old_models[j as int].0 == key_model);
                    lemma_entries_map_update(old_models, j as int, key_model, instruction@);
                }
                self.entries.set(j, (key, instruction));
                proof {
                    assert(entry_models(self.entries@) =~= old_models.update(
                        j as int,
                        (key_model, instruction@),
                    ));
                    assert forall|a: int, b: int|
                        0 <= a < b < entry_models(self.entries@).len() implies entry_models(
                        self.entries@,
                    )[a].0 != entry_models(self.entries@)[b].0 by {
                        assert(old_models[a].0 != old_models[b].0);
                    }
                }
                return ;
            }
            j += 1;
        }
        self.entries.push((key, instruction));
        proof {
            assert(entry_models(self.entries@) =~= old_models.push((key_model, instruction@)));
            assert(entry_models(self.entries@).drop_last() =~= old_models);
            assert forall|a: int, b: int| 0 <= a < b < entry_models(self.entries@).len() implies
                entry_models(self.entries@)[a].0 != entry_models(self.entries@)[b].0 by {
                if b < old_models.len() {
                    assert(old_models[a].0 != old_models[b].0);
                } else {
                    assert(old_models[a].0 != key_model);
                }
            }
        }
    }

    /// Builds a table from two equal-length positional lists: the i-th key
    /// maps to the i-th instruction, a later pair at an equal key replacing
    /// an earlier one (last write wins).  Fails exactly when the lists
    /// differ in length.
    #[verifier::loop_isolation(false)]
    pub fn build(states: Vec<(char, String)>, instructions: Vec<(char, Direction, String)>) -> (result:
        Result<TransitionTable, ConstructionError>)
        ensures
            result is Ok <==> states@.len() == instructions@.len(),
            result matches Ok(t) ==> t.wf() && t@ == table_model(
                state_models(states@),
                instruction_models(instructions@),
            ),
            result matches Err(e) ==> e == ConstructionError::LengthMismatch,
    {
        if states.len() != instructions.len() {
            return Err(ConstructionError::LengthMismatch);
        }
        let ghost key_models = state_models(states@);
        let ghost value_models = instruction_models(instructions@);
        let mut t = TransitionTable { entries: Vec::new() };
        proof {
            assert(entry_models(t.entries@) =~= Seq::<(KeyModel, InstructionModel)>::empty());
            assert(t@ =~= table_model(key_models.take(0), value_models.take(0)));
        }
        let mut i: usize = 0;
        while i < states.len()
            invariant
                i <= states@.len(),
                states@.len() == instructions@.len(),
                t.wf(),
                t@ == table_model(key_models.take(i as int), value_models.take(i as int)),
            decreases states@.len() - i,
        {
            let key = TransitionKey { symbol: states[i].0, state: states[i].1.clone() };
            let instruction = Instruction {
                write_symbol: instructions[i].0,
                direction: instructions[i].1,
                next_state: instructions[i].2.clone(),
            };
            proof {
                assert(key_models.len() == states@.len());
                assert(value_models.len() == instructions@.len());
                assert(key@ == key_models[i as int]);
                assert(instruction@ =~= value_models[i as int]);
            }
            t.insert(key, instruction);
            proof {
                assert(key_models.take(i + 1).drop_last() =~= key_models.take(i as int));
                assert(value_models.take(i + 1).drop_last() =~= value_models.take(i as int));
                assert(key_models.take(i + 1).last() == key_models[i as int]);
                assert(value_models.take(i + 1).last() == value_models[i as int]);
                assert(table_model(key_models.take(i + 1), value_models.take(i + 1))
                    == table_model(key_models.take(i as int), value_models.take(i as int)).insert(
                    key_models[i as int],
                    value_models[i as int],
                ));
            }
            i += 1;
        }
        proof {
            assert(key_models.len() == states@.len());
            assert(value_models.len() == instructions@.len());
            assert(key_models.take(i as int) =~= key_models);
            assert(value_models.take(i as int) =~= value_models);
        }
        Ok(t)
    }

    /// Exact keyed lookup: the one instruction stored at (symbol, state),
    /// or `None`.  Pure: the table is not changed.
    #[verifier::loop_isolation(false)]
    pub fn get(&self, symbol: char, state: &String) -> (result: Option<&Instruction>)
        requires
            self.wf(),
        ensures
            lookup_model(result) == table_get(self@, (symbol, state@)),
    {
        let ghost key: KeyModel = (symbol, state@);
        let ghost models = entry_models(self.entries@);
        proof {
            lemma_entries_map_get(models, key);
        }
        let mut j: usize = 0;
        while j < self.entries.len()
            invariant
                j <= self.entries@.len(),
                forall|k: int| 0 <= k < j ==> models[k].0 != key,
            decreases self.entries@.len() - j,
        {
            let found = self.entries[j].0.symbol == symbol && self.entries[j].0.state == *state;
            if found {
                assert(models[j as int].0 == key);
                return Some(&self.entries[j].1);
            }
            assert(models[j as int].0 != key);
            j += 1;
        }
        None
    }
}

/// Construction is idempotent: two tables built from the same positional
/// lists answer every lookup identically.
pub proof fn lemma_build_idempotent(
    first: TableModel,
    second: TableModel,
    states: Seq<KeyModel>,
    instructions: Seq<InstructionModel>,
)
    requires
        first == table_model(states, instructions),
        second == table_model(states, instructions),
    ensures
        forall|key: KeyModel| table_get(first, key) == table_get(second, key),
{
}

} // verus!
