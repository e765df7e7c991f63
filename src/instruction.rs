use vstd::prelude::*;

use crate::text::{assoc, lemma_assoc_index, lemma_assoc_some, same_text};

verus! {

/// The three encoding shapes, with the fields that the mnemonic fixes.
#[derive(Debug, Clone, Copy, PartialEq, Eq, Structural)]
pub enum InstructionFormat {
    /// Register form: `opcode | rs | rt | rd | shamt | function`.
    R { op_code: u8, function: u8 },
    /// Immediate form: `opcode | rs | rt | immediate`.
    I { op_code: u8 },
    /// Jump form: `opcode | address`.
    J { op_code: u8 },
}

/// An entry of the instruction catalog.
#[derive(Debug, Clone, Copy)]
pub struct Instruction {
    pub name: &'static str,
    pub format: InstructionFormat,
}

/// The instruction catalog: each mnemonic with its format.
pub open spec fn instruction_catalog() -> Seq<(Seq<char>, InstructionFormat)> {
    seq![
        (seq!['s', 'l', 'l'], InstructionFormat::R { op_code: 0, function: 0 }),
        (seq!['s', 'r', 'l'], InstructionFormat::R { op_code: 0, function: 2 }),
        (seq!['j', 'r'], InstructionFormat::R { op_code: 0, function: 8 }),
        (seq!['m', 'f', 'h', 'i'], InstructionFormat::R { op_code: 0, function: 16 }),
        (seq!['m', 'f', 'l', 'o'], InstructionFormat::R { op_code: 0, function: 18 }),
        (seq!['m', 'u', 'l', 't'], InstructionFormat::R { op_code: 0, function: 24 }),
        (seq!['m', 'u', 'l', 't', 'u'], InstructionFormat::R { op_code: 0, function: 25 }),
        (seq!['d', 'i', 'v'], InstructionFormat::R { op_code: 0, function: 26 }),
        (seq!['d', 'i', 'v', 'u'], InstructionFormat::R { op_code: 0, function: 27 }),
        (seq!['a', 'd', 'd'], InstructionFormat::R { op_code: 0, function: 32 }),
        (seq!['a', 'd', 'd', 'u'], InstructionFormat::R { op_code: 0, function: 33 }),
        (seq!['s', 'u', 'b'], InstructionFormat::R { op_code: 0, function: 34 }),
        (seq!['s', 'u', 'b', 'u'], InstructionFormat::R { op_code: 0, function: 35 }),
        (seq!['a', 'n', 'd'], InstructionFormat::R { op_code: 0, function: 36 }),
        (seq!['o', 'r'], InstructionFormat::R { op_code: 0, function: 37 }),
        (seq!['s', 'l', 't'], InstructionFormat::R { op_code: 0, function: 42 }),
        (seq!['s', 'l', 't', 'u'], InstructionFormat::R { op_code: 0, function: 43 }),
        (seq!['m', 'u', 'l'], InstructionFormat::R { op_code: 28, function: 2 }),
        (seq!['b', 'e', 'q'], InstructionFormat::I { op_code: 4 }),
        (seq!['b', 'n', 'e'], InstructionFormat::I { op_code: 5 }),
        (seq!['a', 'd', 'd', 'i'], InstructionFormat::I { op_code: 8 }),
        (seq!['a', 'd', 'd', 'i', 'u'], InstructionFormat::I { op_code: 9 }),
        (seq!['s', 'l', 't', 'i'], InstructionFormat::I { op_code: 10 }),
        (seq!['s', 'l', 't', 'i', 'u'], InstructionFormat::I { op_code: 10 }),
        (seq!['a', 'n', 'd', 'i'], InstructionFormat::I { op_code: 12 }),
        (seq!['o', 'r', 'i'], InstructionFormat::I { op_code: 13 }),
        (seq!['l', 'u', 'i'], InstructionFormat::I { op_code: 15 }),
        (seq!['l', 'w'], InstructionFormat::I { op_code: 35 }),
        (seq!['s', 'w'], InstructionFormat::I { op_code: 43 }),
        (seq!['j'], InstructionFormat::J { op_code: 2 }),
        (seq!['j', 'a', 'l'], InstructionFormat::J { op_code: 3 }),
    ]
}

/// Whether the fixed fields of a format fit their six bits.
pub open spec fn format_fits(f: InstructionFormat) -> bool {
    match f {
        InstructionFormat::R { op_code, function } => op_code < 64 && function < 64,
        InstructionFormat::I { op_code } => op_code < 64,
        InstructionFormat::J { op_code } => op_code < 64,
    }
}

/// The instruction catalog as values.
pub fn instructions() -> (v: Vec<Instruction>)
    ensures
        v@.len() == instruction_catalog().len(),
        forall|i: int|
            0 <= i < v@.len() ==> (#[trigger] v@[i]).name@ == instruction_catalog()[i].0
                && v@[i].format == instruction_catalog()[i].1,
{
    let v = vec![
        Instruction { name: "sll", format: InstructionFormat::R { op_code: 0, function: 0 } },
        Instruction { name: "srl", format: InstructionFormat::R { op_code: 0, function: 2 } },
        Instruction { name: "jr", format: InstructionFormat::R { op_code: 0, function: 8 } },
        Instruction { name: "mfhi", format: InstructionFormat::R { op_code: 0, function: 16 } },
        Instruction { name: "mflo", format: InstructionFormat::R { op_code: 0, function: 18 } },
        Instruction { name: "mult", format: InstructionFormat::R { op_code: 0, function: 24 } },
        Instruction { name: "multu", format: InstructionFormat::R { op_code: 0, function: 25 } },
        Instruction { name: "div", format: InstructionFormat::R { op_code: 0, function: 26 } },
        Instruction { name: "divu", format: InstructionFormat::R { op_code: 0, function: 27 } },
        Instruction { name: "add", format: InstructionFormat::R { op_code: 0, function: 32 } },
        Instruction { name: "addu", format: InstructionFormat::R { op_code: 0, function: 33 } },
        Instruction { name: "sub", format: InstructionFormat::R { op_code: 0, function: 34 } },
        Instruction { name: "subu", format: InstructionFormat::R { op_code: 0, function: 35 } },
        Instruction { name: "and", format: InstructionFormat::R { op_code: 0, function: 36 } },
        Instruction { name: "or", format: InstructionFormat::R { op_code: 0, function: 37 } },
        Instruction { name: "slt", format: InstructionFormat::R { op_code: 0, function: 42 } },
        Instruction { name: "sltu", format: InstructionFormat::R { op_code: 0, function: 43 } },
        Instruction { name: "mul", format: InstructionFormat::R { op_code: 28, function: 2 } },
        Instruction { name: "beq", format: InstructionFormat::I { op_code: 4 } },
        Instruction { name: "bne", format: InstructionFormat::I { op_code: 5 } },
        Instruction { name: "addi", format: InstructionFormat::I { op_code: 8 } },
        Instruction { name: "addiu", format: InstructionFormat::I { op_code: 9 } },
        Instruction { name: "slti", format: InstructionFormat::I { op_code: 10 } },
        Instruction { name: "sltiu", format: InstructionFormat::I { op_code: 10 } },
        Instruction { name: "andi", format: InstructionFormat::I { op_code: 12 } },
        Instruction { name: "ori", format: InstructionFormat::I { op_code: 13 } },
        Instruction { name: "lui", format: InstructionFormat::I { op_code: 15 } },
        Instruction { name: "lw", format: InstructionFormat::I { op_code: 35 } },
        Instruction { name: "sw", format: InstructionFormat::I { op_code: 43 } },
        Instruction { name: "j", format: InstructionFormat::J { op_code: 2 } },
        Instruction { name: "jal", format: InstructionFormat::J { op_code: 3 } },
    ];
    proof {
        reveal_strlit("sll");
        reveal_strlit("srl");
        reveal_strlit("jr");
        reveal_strlit("mfhi");
        reveal_strlit("mflo");
        reveal_strlit("mult");
        reveal_strlit("multu");
        reveal_strlit("div");
        reveal_strlit("divu");
        reveal_strlit("add");
        reveal_strlit("addu");
        reveal_strlit("sub");
        reveal_strlit("subu");
        reveal_strlit("and");
        reveal_strlit("or");
        reveal_strlit("slt");
        reveal_strlit("sltu");
        reveal_strlit("mul");
        reveal_strlit("beq");
        reveal_strlit("bne");
        reveal_strlit("addi");
        reveal_strlit("addiu");
        reveal_strlit("slti");
        reveal_strlit("sltiu");
        reveal_strlit("andi");
        reveal_strlit("ori");
        reveal_strlit("lui");
        reveal_strlit("lw");
        reveal_strlit("sw");
        reveal_strlit("j");
        reveal_strlit("jal");
    }
    v
}

/// No two entries of the instruction catalog share a mnemonic.
pub proof fn lemma_mnemonics_distinct()
    ensures
        forall|i: int, j: int|
            0 <= i < j < instruction_catalog().len() ==> (#[trigger] instruction_catalog()[i]).0
                != (#[trigger] instruction_catalog()[j]).0,
{
    let cat = instruction_catalog();
    assert forall|i: int, j: int|
        0 <= i < j < cat.len() implies (#[trigger] cat[i]).0 != (#[trigger] cat[j]).0 by {
        let a = cat[i].0;
        let b = cat[j].0;
        assert(a.len() != b.len() || a[0] != b[0] || a[1] != b[1] || a.last() != b.last() || (
        a.len() > 2 && a[2] != b[2]) || (a.len() > 3 && a[3] != b[3]));
    }
}

/// Looking up any catalog mnemonic gives exactly the format recorded for it,
/// and only catalog mnemonics are found.
pub proof fn lemma_catalog_lookup()
    ensures
        forall|i: int|
            0 <= i < instruction_catalog().len() ==> assoc(
                instruction_catalog(),
                (#[trigger] instruction_catalog()[i]).0,
            ) == Some(instruction_catalog()[i].1),
        forall|name: Seq<char>|
            (#[trigger] assoc(instruction_catalog(), name)) is Some ==> exists|i: int|
                0 <= i < instruction_catalog().len() && instruction_catalog()[i].0 == name,
{
    let cat = instruction_catalog();
    lemma_mnemonics_distinct();
    assert forall|i: int| 0 <= i < cat.len() implies assoc(cat, (#[trigger] cat[i]).0) == Some(
        cat[i].1,
    ) by {
        assert forall|j: int| 0 <= j < i implies #[trigger] cat[j].0 != cat[i].0 by {
            assert(cat[j] == instruction_catalog()[j]);
        }
        lemma_assoc_index(cat, i);
    }
    assert forall|name: Seq<char>| (#[trigger] assoc(cat, name)) is Some implies exists|i: int|
        0 <= i < cat.len() && cat[i].0 == name by {
        lemma_assoc_some(cat, name);
    }
}

impl Instruction {
    /// Looks a mnemonic up in the instruction catalog.
    pub fn get_instruction(name: &str) -> (r: Option<Instruction>)
        ensures
            match r {
                Some(ins) => ins.name@ == name@ && assoc(instruction_catalog(), name@) == Some(
                    ins.format,
                ),
                None => assoc(instruction_catalog(), name@) is None,
            },
            r matches Some(ins) ==> format_fits(ins.format),
    {
        let table = instructions();
        let ghost cat = instruction_catalog();
        let mut i: usize = 0;
        assert(cat.subrange(0, cat.len() as int) =~= cat);
        while i < table.len()
            invariant
                table@.len() == cat.len(),
                cat == instruction_catalog(),
                forall|k: int|
                    0 <= k < table@.len() ==> (#[trigger] table@[k]).name@ == cat[k].0
                        && table@[k].format == cat[k].1,
                i <= table@.len(),
                assoc(cat, name@) == assoc(cat.subrange(i as int, cat.len() as int), name@),
            decreases table@.len() - i,
        {
            let ghost rest = cat.subrange(i as int, cat.len() as int);
            assert(rest[0] == cat[i as int]);
            if same_text(table[i].name, name) {
                assert(format_fits(cat[i as int].1));
                return Some(table[i]);
            }
            assert(rest.drop_first() =~= cat.subrange(i + 1, cat.len() as int));
            i = i + 1;
        }
        None
    }
}

} // verus!
