use vstd::prelude::*;

use crate::error::AsmError;
use crate::text::{all_digits, assoc, decimal_literal, lemma_assoc_some, parse_literal, same_text};

verus! {

/// A general-purpose register: its index and its conventional name.
#[derive(Debug, Clone, Copy)]
pub struct Register {
    pub number: u8,
    pub name: &'static str,
}

/// The register catalog: each name with its index, in the order of the indices.
pub open spec fn register_catalog() -> Seq<(Seq<char>, u8)> {
    seq![
        (seq!['z', 'e', 'r', 'o'], 0u8),
        (seq!['a', 't'], 1u8),
        (seq!['v', '0'], 2u8),
        (seq!['v', '1'], 3u8),
        (seq!['a', '0'], 4u8),
        (seq!['a', '1'], 5u8),
        (seq!['a', '2'], 6u8),
        (seq!['a', '3'], 7u8),
        (seq!['t', '0'], 8u8),
        (seq!['t', '1'], 9u8),
        (seq!['t', '2'], 10u8),
        (seq!['t', '3'], 11u8),
        (seq!['t', '4'], 12u8),
        (seq!['t', '5'], 13u8),
        (seq!['t', '6'], 14u8),
        (seq!['t', '7'], 15u8),
        (seq!['s', '0'], 16u8),
        (seq!['s', '1'], 17u8),
        (seq!['s', '2'], 18u8),
        (seq!['s', '3'], 19u8),
        (seq!['s', '4'], 20u8),
        (seq!['s', '5'], 21u8),
        (seq!['s', '6'], 22u8),
        (seq!['s', '7'], 23u8),
        (seq!['t', '8'], 24u8),
        (seq!['t', '9'], 25u8),
        (seq!['k', '0'], 26u8),
        (seq!['k', '1'], 27u8),
        (seq!['g', 'p'], 28u8),
        (seq!['s', 'p'], 29u8),
        (seq!['f', 'p'], 30u8),
        (seq!['r', 'a'], 31u8),
    ]
}

/// The register catalog as values.
pub fn registers() -> (v: Vec<Register>)
    ensures
        v@.len() == register_catalog().len(),
        forall|i: int|
            0 <= i < v@.len() ==> (#[trigger] v@[i]).name@ == register_catalog()[i].0
                && v@[i].number == register_catalog()[i].1,
{
    let v = vec![
        Register { number: 0, name: "zero" },
        Register { number: 1, name: "at" },
        Register { number: 2, name: "v0" },
        Register { number: 3, name: "v1" },
        Register { number: 4, name: "a0" },
        Register { number: 5, name: "a1" },
        Register { number: 6, name: "a2" },
        Register { number: 7, name: "a3" },
        Register { number: 8, name: "t0" },
        Register { number: 9, name: "t1" },
        Register { number: 10, name: "t2" },
        Register { number: 11, name: "t3" },
        Register { number: 12, name: "t4" },
        Register { number: 13, name: "t5" },
        Register { number: 14, name: "t6" },
        Register { number: 15, name: "t7" },
        Register { number: 16, name: "s0" },
        Register { number: 17, name: "s1" },
        Register { number: 18, name: "s2" },
        Register { number: 19, name: "s3" },
        Register { number: 20, name: "s4" },
        Register { number: 21, name: "s5" },
        Register { number: 22, name: "s6" },
        Register { number: 23, name: "s7" },
        Register { number: 24, name: "t8" },
        Register { number: 25, name: "t9" },
        Register { number: 26, name: "k0" },
        Register { number: 27, name: "k1" },
        Register { number: 28, name: "gp" },
        Register { number: 29, name: "sp" },
        Register { number: 30, name: "fp" },
        Register { number: 31, name: "ra" },
    ];
    proof {
        reveal_strlit("zero");
        reveal_strlit("at");
        reveal_strlit("v0");
        reveal_strlit("v1");
        reveal_strlit("a0");
        reveal_strlit("a1");
        reveal_strlit("a2");
        reveal_strlit("a3");
        reveal_strlit("t0");
        reveal_strlit("t1");
        reveal_strlit("t2");
        reveal_strlit("t3");
        reveal_strlit("t4");
        reveal_strlit("t5");
        reveal_strlit("t6");
        reveal_strlit("t7");
        reveal_strlit("s0");
        reveal_strlit("s1");
        reveal_strlit("s2");
        reveal_strlit("s3");
        reveal_strlit("s4");
        reveal_strlit("s5");
        reveal_strlit("s6");
        reveal_strlit("s7");
        reveal_strlit("t8");
        reveal_strlit("t9");
        reveal_strlit("k0");
        reveal_strlit("k1");
        reveal_strlit("gp");
        reveal_strlit("sp");
        reveal_strlit("fp");
        reveal_strlit("ra");
    }
    v
}

/// A register token without its decorations: one leading `$` and then one
/// trailing `,` are removed where present.
pub open spec fn normalize_register(t: Seq<char>) -> Seq<char> {
    let a = if t.len() > 0 && t[0] == '$' {
        t.drop_first()
    } else {
        t
    };
    if a.len() > 0 && a.last() == ',' {
        a.drop_last()
    } else {
        a
    }
}

/// The register that a token names: a decimal index up to 31, else a catalog name.
pub open spec fn register_value(t: Seq<char>) -> Result<u8, AsmError> {
    let n = normalize_register(t);
    match decimal_literal(n, false) {
        Some(v) => if v <= 31 {
            Ok(v as u8)
        } else {
            Err(AsmError::MalformedOperand)
        },
        None => match assoc(register_catalog(), n) {
            Some(k) => Ok(k),
            None => Err(AsmError::UnknownRegister),
        },
    }
}

/// A name that denotes a register as it stands: a catalog name or an index up to 31.
pub open spec fn is_register_name(n: Seq<char>) -> bool {
    assoc(register_catalog(), n) is Some || (decimal_literal(n, false) matches Some(v) && v
        <= 31)
}

/// A register name resolves to the same register bare, after `$`, before
/// `,`, or with both, and stripping the decorations leaves the name as it is.
pub proof fn lemma_register_decorations(name: Seq<char>)
    requires
        is_register_name(name),
    ensures
        normalize_register(name) == name,
        normalize_register(seq!['$'] + name) == name,
        normalize_register(name.push(',')) == name,
        normalize_register(seq!['$'] + name.push(',')) == name,
        register_value(seq!['$'] + name) == register_value(name),
        register_value(name.push(',')) == register_value(name),
        register_value(seq!['$'] + name.push(',')) == register_value(name),
{
    let cat = register_catalog();
    if assoc(cat, name) is Some {
        lemma_assoc_some(cat, name);
        let i = choose|i: int|
            0 <= i < cat.len() && cat[i].0 == name && assoc(cat, name) == Some(cat[i].1);
        assert(cat[i].0.len() > 0 && cat[i].0[0] != '$' && cat[i].0.last() != ',');
    } else {
        assert(name.len() > 0);
        if name[0] == '+' && all_digits(name.drop_first()) {
            assert(name.drop_first().last() == name.last());
        } else {
            assert(all_digits(name));
            assert(name.last() == name[name.len() - 1]);
        }
    }
    assert((seq!['$'] + name).drop_first() =~= name);
    assert(name.push(',').drop_last() =~= name);
    assert((seq!['$'] + name.push(',')).drop_first() =~= name.push(','));
}

impl Register {
    /// Looks a register name up in the catalog.
    pub fn named_to_number(name: &str) -> (r: Result<u8, AsmError>)
        ensures
            r == (match assoc(register_catalog(), name@) {
                Some(k) => Ok(k),
                None => Err(AsmError::UnknownRegister),
            }),
            r matches Ok(k) ==> k < 32,
    {
        let table = registers();
        let ghost cat = register_catalog();
        let mut i: usize = 0;
        assert(cat.subrange(0, cat.len() as int) =~= cat);
        while i < table.len()
            invariant
                table@.len() == cat.len(),
                cat == register_catalog(),
                forall|k: int|
                    0 <= k < table@.len() ==> (#[trigger] table@[k]).name@ == cat[k].0
                        && table@[k].number == cat[k].1,
                i <= table@.len(),
                assoc(cat, name@) == assoc(cat.subrange(i as int, cat.len() as int), name@),
            decreases table@.len() - i,
        {
            let ghost rest = cat.subrange(i as int, cat.len() as int);
            assert(rest[0] == cat[i as int]);
            if same_text(table[i].name, name) {
                assert(cat[i as int].1 < 32);
                return Ok(table[i].number);
            }
            assert(rest.drop_first() =~= cat.subrange(i + 1, cat.len() as int));
            i = i + 1;
        }
        Err(AsmError::UnknownRegister)
    }

    /// Strips a register token of its decorations (see `normalize_register`).
    pub fn filter_string(unfiltered_string: &str) -> (r: String)
        ensures
            r@ == normalize_register(unfiltered_string@),
    {
        let n = unfiltered_string.unicode_len();
        let mut from: usize = 0;
        if n > 0 && unfiltered_string.get_char(0) == '$' {
            from = 1;
        }
        let mut to: usize = n;
        if from < n && unfiltered_string.get_char(n - 1) == ',' {
            to = n - 1;
        }
        let s = unfiltered_string.substring_char(from, to);
        let ghost t = unfiltered_string@;
        let ghost a = if t.len() > 0 && t[0] == '$' { t.drop_first() } else { t };
        assert(a =~= t.subrange(from as int, n as int));
        if to < n {
            assert(s@ =~= a.drop_last());
        } else {
            assert(s@ =~= a);
        }
        s.to_owned()
    }

    /// Resolves a register operand token to its index.
    pub fn get_register(unfiltered_string: &str) -> (r: Result<u8, AsmError>)
        ensures
            r == register_value(unfiltered_string@),
            r matches Ok(k) ==> k < 32,
    {
        let register_string = Register::filter_string(unfiltered_string);
        match parse_literal(register_string.as_str(), false) {
            Some(v) => if v <= 31 {
                Ok(v as u8)
            } else {
                Err(AsmError::MalformedOperand)
            },
            None => Register::named_to_number(register_string.as_str()),
        }
    }
}

} // verus!
