use vstd::prelude::*;
use crate::text::{starts_with, starts_with_spec, same_text};

verus! {

/// The bit-layout families of the machine's instructions.
#[derive(Clone, Copy, Debug, PartialEq, Eq, Structural)]
pub enum InstructionClass {
    MathSingles,
    MathDoubles,
    Moves,
    RamMoves,
    Stack,
    Jump,
}

/// The fixed base pattern of each class.
pub open spec fn class_base(c: InstructionClass) -> u16 {
    match c {
        InstructionClass::MathSingles => 0x01c0,
        InstructionClass::MathDoubles => 0x0000,
        InstructionClass::Moves => 0x0200,
        InstructionClass::RamMoves => 0x0280,
        InstructionClass::Stack => 0x0300,
        InstructionClass::Jump => 0x0800,
    }
}

/// How many operands an instruction of the class takes.
pub open spec fn class_arity(c: InstructionClass) -> nat {
    match c {
        InstructionClass::MathDoubles | InstructionClass::Moves | InstructionClass::RamMoves => 2,
        _ => 1,
    }
}

impl InstructionClass {
    pub fn base(&self) -> (r: u16)
        ensures
            r == class_base(*self),
    {
        match self {
            InstructionClass::MathSingles => 0x01c0,
            InstructionClass::MathDoubles => 0x0000,
            InstructionClass::Moves => 0x0200,
            InstructionClass::RamMoves => 0x0280,
            InstructionClass::Stack => 0x0300,
            InstructionClass::Jump => 0x0800,
        }
    }
}

/// One row of the opcode table: mnemonic, class and sub-opcode.
pub type OpcodeEntry = (Seq<char>, InstructionClass, u16);

/// The opcode table.
pub open spec fn opcode_table() -> Seq<OpcodeEntry> {
    seq![
        (seq!['m', 'o', 'v'], InstructionClass::Moves, 0u16),
        (seq!['s', 't', 'r'], InstructionClass::RamMoves, 0u16),
        (seq!['l', 'o', 'a', 'd'], InstructionClass::RamMoves, 1u16),
        (seq!['i', 'n', 'c', 'r'], InstructionClass::MathSingles, 0u16),
        (seq!['d', 'e', 'c', 'r'], InstructionClass::MathSingles, 1u16),
        (seq!['n', 'o', 't'], InstructionClass::MathSingles, 2u16),
        (seq!['a', 'd', 'd'], InstructionClass::MathDoubles, 0u16),
        (seq!['s', 'u', 'b'], InstructionClass::MathDoubles, 1u16),
        (seq!['m', 'u', 'l'], InstructionClass::MathDoubles, 2u16),
        (seq!['a', 'n', 'd'], InstructionClass::MathDoubles, 3u16),
        (seq!['o', 'r'], InstructionClass::MathDoubles, 4u16),
        (seq!['x', 'o', 'r'], InstructionClass::MathDoubles, 5u16),
        (seq!['c', 'm', 'p'], InstructionClass::MathDoubles, 6u16),
        (seq!['p', 'u', 's', 'h'], InstructionClass::Stack, 0u16),
        (seq!['p', 'o', 'p'], InstructionClass::Stack, 1u16),
        (seq!['j'], InstructionClass::Jump, 0u16),
    ]
}

pub open spec fn is_mnemonic_at(m: Seq<char>, i: int) -> bool {
    0 <= i < opcode_table().len() && opcode_table()[i].0 == m
}

/// The class and sub-opcode of a mnemonic, if the table holds it.
pub open spec fn lookup_spec(m: Seq<char>) -> Option<(InstructionClass, u16)> {
    if exists|i: int| is_mnemonic_at(m, i) {
        let i = choose|i: int| is_mnemonic_at(m, i);
        Some((opcode_table()[i].1, opcode_table()[i].2))
    } else {
        None
    }
}

/// `i` is the first table row whose mnemonic begins `tok`.
pub open spec fn is_first_prefix(tok: Seq<char>, i: int) -> bool {
    0 <= i < opcode_table().len() && starts_with_spec(tok, opcode_table()[i].0) && forall|j: int|
        0 <= j < i ==> !starts_with_spec(tok, #[trigger] opcode_table()[j].0)
}

/// The table mnemonic that begins `tok`, if any.
pub open spec fn prefix_mnemonic(tok: Seq<char>) -> Option<Seq<char>> {
    if exists|i: int| is_first_prefix(tok, i) {
        Some(opcode_table()[choose|i: int| is_first_prefix(tok, i)].0)
    } else {
        None
    }
}

fn table_row(m: Vec<char>, c: InstructionClass, sub: u16) -> (r: (Vec<char>, InstructionClass, u16))
    ensures
        r.0@ == m@,
        r.1 == c,
        r.2 == sub,
{
    (m, c, sub)
}

pub open spec fn rows_view(v: Seq<(Vec<char>, InstructionClass, u16)>) -> Seq<OpcodeEntry> {
    v.map_values(|e: (Vec<char>, InstructionClass, u16)| (e.0@, e.1, e.2))
}

/// The opcode table, built as executable data.
pub fn opcode_rows() -> (r: Vec<(Vec<char>, InstructionClass, u16)>)
    ensures
        rows_view(r@) == opcode_table(),
{
    let r = vec![
        table_row(vec!['m', 'o', 'v'], InstructionClass::Moves, 0),
        table_row(vec!['s', 't', 'r'], InstructionClass::RamMoves, 0),
        table_row(vec!['l', 'o', 'a', 'd'], InstructionClass::RamMoves, 1),
        table_row(vec!['i', 'n', 'c', 'r'], InstructionClass::MathSingles, 0),
        table_row(vec!['d', 'e', 'c', 'r'], InstructionClass::MathSingles, 1),
        table_row(vec!['n', 'o', 't'], InstructionClass::MathSingles, 2),
        table_row(vec!['a', 'd', 'd'], InstructionClass::MathDoubles, 0),
        table_row(vec!['s', 'u', 'b'], InstructionClass::MathDoubles, 1),
        table_row(vec!['m', 'u', 'l'], InstructionClass::MathDoubles, 2),
        table_row(vec!['a', 'n', 'd'], InstructionClass::MathDoubles, 3),
        table_row(vec!['o', 'r'], InstructionClass::MathDoubles, 4),
        table_row(vec!['x', 'o', 'r'], InstructionClass::MathDoubles, 5),
        table_row(vec!['c', 'm', 'p'], InstructionClass::MathDoubles, 6),
        table_row(vec!['p', 'u', 's', 'h'], InstructionClass::Stack, 0),
        table_row(vec!['p', 'o', 'p'], InstructionClass::Stack, 1),
        table_row(vec!['j'], InstructionClass::Jump, 0),
    ];
    assert(rows_view(r@) =~~= opcode_table());
    r
}

/// Looks a mnemonic up in the opcode table.
pub fn lookup(m: &Vec<char>) -> (r: Option<(InstructionClass, u16)>)
    ensures
        r == lookup_spec(m@),
{
    let rows = opcode_rows();
    let mut i: usize = 0;
    while i < rows.len()
        invariant
            rows_view(rows@) == opcode_table(),
            i <= rows@.len(),
            forall|j: int| 0 <= j < i ==> !#[trigger] is_mnemonic_at(m@, j),
        decreases rows@.len() - i,
    {
        assert(rows_view(rows@)[i as int] == (rows@[i as int].0@, rows@[i as int].1, rows@[i as int].2));
        if same_text(&rows[i].0, m) {
            assert(is_mnemonic_at(m@, i as int));
            proof {
                let k = choose|k: int| is_mnemonic_at(m@, k);
                lemma_mnemonics_distinct(k, i as int);
            }
            return Some((rows[i].1, rows[i].2));
        }
        i += 1;
    }
    None
}

pub proof fn lemma_mnemonics_distinct(i: int, j: int)
    requires
        0 <= i < opcode_table().len(),
        0 <= j < opcode_table().len(),
        opcode_table()[i].0 == opcode_table()[j].0,
    ensures
        i == j,
{
    let t = opcode_table();
    if i != j {
        assert(t[i].0.len() != t[j].0.len() || exists|k: int| 0 <= k < t[i].0.len() && t[i].0[k] != t[j].0[k]);
    }
}

/// The table mnemonic that begins `tok`, if any.
pub fn find_prefix_mnemonic(tok: &Vec<char>) -> (r: Option<Vec<char>>)
    ensures
        match r {
            Some(m) => prefix_mnemonic(tok@) == Some(m@),
            None => prefix_mnemonic(tok@) is None,
        },
{
    let rows = opcode_rows();
    let mut i: usize = 0;
    while i < rows.len()
        invariant
            rows_view(rows@) == opcode_table(),
            i <= rows@.len(),
            forall|j: int| 0 <= j < i ==> !starts_with_spec(tok@, #[trigger] opcode_table()[j].0),
        decreases rows@.len() - i,
    {
        assert(rows_view(rows@)[i as int] == (rows@[i as int].0@, rows@[i as int].1, rows@[i as int].2));
        if starts_with(tok, &rows[i].0) {
            assert(is_first_prefix(tok@, i as int));
            proof {
                let k = choose|k: int| is_first_prefix(tok@, k);
                if k < i {
                    assert(!starts_with_spec(tok@, opcode_table()[k].0));
                } else if k > i {
                    assert(!starts_with_spec(tok@, opcode_table()[i as int].0));
                }
            }
            let m = rows[i].0.clone();
            return Some(m);
        }
        i += 1;
    }
    None
}

} // verus!
