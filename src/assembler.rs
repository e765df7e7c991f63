use vstd::prelude::*;

use crate::encoding::{
    encode_i, encode_j, encode_r, i_word, imm_field, j_word, jump_field, lemma_imm_round_trip,
    lemma_jump_bits, mask_jump_literal, r_word, sign_extend16,
};
use crate::error::{AsmError, LineError};
use crate::instruction::{instruction_catalog, Instruction, InstructionFormat};
use crate::label::{
    absolute_address, is_int_literal, is_label_word, label_entries, lines_view, relative_offset,
    scan_labels, Label,
};
use crate::register::{register_value, Register};
use crate::text::{assoc, decimal_literal, parse_literal, same_text, split_words, views, words_of};

verus! {

pub open spec fn is_mult_div(mn: Seq<char>) -> bool {
    mn == seq!['m', 'u', 'l', 't'] || mn == seq!['m', 'u', 'l', 't', 'u'] || mn == seq![
        'd',
        'i',
        'v',
    ] || mn == seq!['d', 'i', 'v', 'u']
}

pub open spec fn is_move_from(mn: Seq<char>) -> bool {
    mn == seq!['m', 'f', 'h', 'i'] || mn == seq!['m', 'f', 'l', 'o']
}

pub open spec fn is_load_store(mn: Seq<char>) -> bool {
    mn == seq!['l', 'w'] || mn == seq!['s', 'w']
}

/// A register-form operand list: each operand is resolved left to right and
/// the first error wins.
pub open spec fn register_form(mn: Seq<char>, ops: Seq<Seq<char>>, op: u8, function: u8) -> Result<
    u32,
    AsmError,
> {
    if is_mult_div(mn) {
        // rs, rt
        if ops.len() != 2 {
            Err(AsmError::MalformedOperand)
        } else {
            match register_value(ops[0]) {
                Err(e) => Err(e),
                Ok(rs) => match register_value(ops[1]) {
                    Err(e) => Err(e),
                    Ok(rt) => Ok(r_word(op, rs, rt, 0, 0, function)),
                },
            }
        }
    } else if mn == seq!['j', 'r'] {
        // rs
        if ops.len() != 1 {
            Err(AsmError::MalformedOperand)
        } else {
            match register_value(ops[0]) {
                Err(e) => Err(e),
                Ok(rs) => Ok(r_word(op, rs, 0, 0, 0, function)),
            }
        }
    } else if is_move_from(mn) {
        // rd
        if ops.len() != 1 {
            Err(AsmError::MalformedOperand)
        } else {
            match register_value(ops[0]) {
                Err(e) => Err(e),
                Ok(rd) => Ok(r_word(op, 0, 0, rd, 0, function)),
            }
        }
    } else if ops.len() != 3 {
        Err(AsmError::MalformedOperand)
    } else {
        match register_value(ops[0]) {
            Err(e) => Err(e),
            Ok(rd) => if ops[2].len() > 0 && ops[2][0] == '$' {
                // rd, rs, rt
                match register_value(ops[1]) {
                    Err(e) => Err(e),
                    Ok(rs) => match register_value(ops[2]) {
                        Err(e) => Err(e),
                        Ok(rt) => Ok(r_word(op, rs, rt, rd, 0, function)),
                    },
                }
            } else {
                // rd, rt, shamt
                match register_value(ops[1]) {
                    Err(e) => Err(e),
                    Ok(rt) => match decimal_literal(ops[2], false) {
                        Some(s) => if s <= 31 {
                            Ok(r_word(op, 0, rt, rd, s as u8, function))
                        } else {
                            Err(AsmError::MalformedOperand)
                        },
                        None => Err(AsmError::MalformedOperand),
                    },
                }
            },
        }
    }
}

/// The value of an immediate operand: a literal, or a label resolved
/// absolutely or relatively to line `current`; it must fit 16 signed bits.
pub open spec fn immediate_value(
    tok: Seq<char>,
    entries: Seq<(Seq<char>, int)>,
    current: int,
    absolute: bool,
) -> Result<i16, AsmError> {
    if is_int_literal(tok) {
        let v = decimal_literal(tok, true)->Some_0;
        if i16::MIN <= v <= i16::MAX {
            Ok(v as i16)
        } else {
            Err(AsmError::MalformedOperand)
        }
    } else if absolute {
        match absolute_address(entries, tok) {
            Err(e) => Err(e),
            Ok(a) => if a <= i16::MAX {
                Ok(a as i16)
            } else {
                Err(AsmError::MalformedOperand)
            },
        }
    } else {
        match relative_offset(entries, tok, current) {
            Err(e) => Err(e),
            Ok(d) => if i16::MIN <= d <= i16::MAX {
                Ok(d as i16)
            } else {
                Err(AsmError::MalformedOperand)
            },
        }
    }
}

/// Whether `p` is the first `(` of `t`, with text before it and after it.
pub open spec fn is_open_paren(t: Seq<char>, p: int) -> bool {
    &&& 0 < p < t.len() - 1
    &&& t[p] == '('
    &&& forall|q: int| 0 <= q < p ==> t[q] != '('
}

/// A memory operand `offset(base)`: the offset and the base register token.
pub open spec fn memory_parts(t: Seq<char>) -> Option<(Seq<char>, Seq<char>)> {
    if t.len() > 0 && t.last() == ')' && exists|p: int| is_open_paren(t, p) {
        let p = choose|p: int| is_open_paren(t, p);
        Some((t.take(p), t.subrange(p + 1, t.len() - 1)))
    } else {
        None
    }
}

/// An immediate-form operand list. Loads and stores take `rt, offset(rs)`
/// and resolve a label offset absolutely; `lui` takes `rt, immediate`; the
/// rest take `rs, rt, immediate` and resolve a label relatively.
pub open spec fn immediate_form(
    mn: Seq<char>,
    ops: Seq<Seq<char>>,
    entries: Seq<(Seq<char>, int)>,
    current: int,
    op: u8,
) -> Result<u32, AsmError> {
    if is_load_store(mn) {
        if ops.len() != 2 {
            Err(AsmError::MalformedOperand)
        } else {
            match register_value(ops[0]) {
                Err(e) => Err(e),
                Ok(rt) => match memory_parts(ops[1]) {
                    None => Err(AsmError::MalformedOperand),
                    Some((offset, base)) => match register_value(base) {
                        Err(e) => Err(e),
                        Ok(rs) => match immediate_value(offset, entries, current, true) {
                            Err(e) => Err(e),
                            Ok(imm) => Ok(i_word(op, rs, rt, imm)),
                        },
                    },
                },
            }
        }
    } else if mn == seq!['l', 'u', 'i'] {
        if ops.len() != 2 {
            Err(AsmError::MalformedOperand)
        } else {
            match register_value(ops[0]) {
                Err(e) => Err(e),
                Ok(rt) => match immediate_value(ops[1], entries, current, false) {
                    Err(e) => Err(e),
                    Ok(imm) => Ok(i_word(op, 0, rt, imm)),
                },
            }
        }
    } else if ops.len() != 3 {
        Err(AsmError::MalformedOperand)
    } else {
        match register_value(ops[0]) {
            Err(e) => Err(e),
            Ok(rs) => match register_value(ops[1]) {
                Err(e) => Err(e),
                Ok(rt) => match immediate_value(ops[2], entries, current, false) {
                    Err(e) => Err(e),
                    Ok(imm) => Ok(i_word(op, rs, rt, imm)),
                },
            },
        }
    }
}

/// The 26-bit target of a jump: a literal masked to 26 bits, or a label's
/// absolute address masked to 26 bits.
pub open spec fn jump_target(tok: Seq<char>, entries: Seq<(Seq<char>, int)>) -> Result<
    u32,
    AsmError,
> {
    if is_int_literal(tok) {
        Ok(jump_field(decimal_literal(tok, true)->Some_0) as u32)
    } else {
        match absolute_address(entries, tok) {
            Err(e) => Err(e),
            Ok(a) => Ok((a % 0x400_0000) as u32),
        }
    }
}

pub open spec fn jump_form(ops: Seq<Seq<char>>, entries: Seq<(Seq<char>, int)>, op: u8) -> Result<
    u32,
    AsmError,
> {
    if ops.len() != 1 {
        Err(AsmError::MalformedOperand)
    } else {
        match jump_target(ops[0], entries) {
            Err(e) => Err(e),
            Ok(t) => Ok(j_word(op, t)),
        }
    }
}

/// The words of a line that make its instruction: a leading label definition
/// is dropped.
pub open spec fn instruction_words(line: Seq<char>) -> Seq<Seq<char>> {
    let w = words_of(line);
    if w.len() > 0 && is_label_word(w[0]) {
        w.drop_first()
    } else {
        w
    }
}

/// What line number `number` (1-based) encodes to: no word for a line
/// without an instruction, else the instruction's word.
#[verifier::opaque]
pub open spec fn line_word(line: Seq<char>, entries: Seq<(Seq<char>, int)>, number: int) -> Result<
    Option<u32>,
    AsmError,
> {
    let w = instruction_words(line);
    if w.len() == 0 {
        Ok(None)
    } else {
        let mn = w[0];
        let ops = w.drop_first();
        match assoc(instruction_catalog(), mn) {
            None => Err(AsmError::UnknownMnemonic),
            Some(f) => {
                let r = match f {
                    InstructionFormat::R { op_code, function } => register_form(
                        mn,
                        ops,
                        op_code,
                        function,
                    ),
                    InstructionFormat::I { op_code } => immediate_form(
                        mn,
                        ops,
                        entries,
                        number,
                        op_code,
                    ),
                    InstructionFormat::J { op_code } => jump_form(ops, entries, op_code),
                };
                match r {
                    Err(e) => Err(e),
                    Ok(x) => Ok(Some(x)),
                }
            },
        }
    }
}

/// The words of the first `k` lines, or the first error with its line number.
pub open spec fn assemble_prefix(
    lines: Seq<Seq<char>>,
    entries: Seq<(Seq<char>, int)>,
    k: int,
) -> Result<Seq<u32>, LineError>
    decreases k,
{
    if k <= 0 {
        Ok(Seq::empty())
    } else {
        match assemble_prefix(lines, entries, k - 1) {
            Err(e) => Err(e),
            Ok(ws) => match line_word(lines[k - 1], entries, k) {
                Err(e) => Err(LineError { line: k as usize, error: e }),
                Ok(None) => Ok(ws),
                Ok(Some(x)) => Ok(ws.push(x)),
            },
        }
    }
}

/// Pass two over all the lines.
pub open spec fn assembled(lines: Seq<Seq<char>>, entries: Seq<(Seq<char>, int)>) -> Result<
    Seq<u32>,
    LineError,
> {
    assemble_prefix(lines, entries, lines.len() as int)
}

/// Once a line has failed, assembly fails with that line's error however
/// many lines follow.
pub proof fn lemma_error_persists(
    lines: Seq<Seq<char>>,
    entries: Seq<(Seq<char>, int)>,
    k: int,
    m: int,
)
    requires
        k <= m,
        assemble_prefix(lines, entries, k) is Err,
    ensures
        assemble_prefix(lines, entries, m) == assemble_prefix(lines, entries, k),
    decreases m - k,
{
    if k < m {
        lemma_error_persists(lines, entries, k, m - 1);
    }
}

/// The words of the first `k` lines depend on those lines alone.
pub proof fn lemma_prefix_own_lines(
    lines: Seq<Seq<char>>,
    more: Seq<Seq<char>>,
    entries: Seq<(Seq<char>, int)>,
    k: int,
)
    requires
        k <= lines.len(),
    ensures
        assemble_prefix(lines + more, entries, k) == assemble_prefix(lines, entries, k),
    decreases k,
{
    if k > 0 {
        lemma_prefix_own_lines(lines, more, entries, k - 1);
        assert((lines + more)[k - 1] == lines[k - 1]);
    }
}

/// A line that holds only a label definition yields no word, so the program
/// assembles to the same words without it; pass one records exactly one
/// label for it, at the line's own index.
pub proof fn lemma_label_only_line(
    lines: Seq<Seq<char>>,
    line: Seq<char>,
    entries: Seq<(Seq<char>, int)>,
)
    requires
        words_of(line).len() == 1,
        is_label_word(words_of(line)[0]),
    ensures
        forall|n: int| line_word(line, entries, n) == Ok::<Option<u32>, AsmError>(None),
        assembled(lines.push(line), entries) == assembled(lines, entries),
        scan_labels(lines.push(line)) == scan_labels(lines).push(
            (words_of(line)[0].drop_last(), lines.len() as int),
        ),
{
    reveal(line_word);
    assert(instruction_words(line).len() == 0);
    let all = lines.push(line);
    assert(all == lines + seq![line]);
    lemma_prefix_own_lines(lines, seq![line], entries, lines.len() as int);
    assert(all[lines.len() as int] == line);
    assert(all.drop_last() =~= lines);
}

/// A line that fails stops assembly there: the result is that line's error,
/// and no word of that line or of a later one comes out.
pub proof fn lemma_failed_line_aborts(
    lines: Seq<Seq<char>>,
    entries: Seq<(Seq<char>, int)>,
    k: int,
)
    requires
        0 <= k < lines.len(),
        assemble_prefix(lines, entries, k) is Ok,
        line_word(lines[k], entries, k + 1) is Err,
    ensures
        assembled(lines, entries) == Err::<Seq<u32>, LineError>(
            LineError { line: (k + 1) as usize, error: line_word(lines[k], entries, k + 1)->Err_0 },
        ),
{
    lemma_error_persists(lines, entries, k + 1, lines.len() as int);
}

/// A reference to a label that no line defines raises `UnknownLabel`,
/// whether it is resolved relatively, absolutely or as a jump target.
pub proof fn lemma_undefined_label(
    tok: Seq<char>,
    entries: Seq<(Seq<char>, int)>,
    current: int,
    absolute: bool,
    op: u8,
)
    requires
        !is_int_literal(tok),
        assoc(entries, tok) is None,
    ensures
        immediate_value(tok, entries, current, absolute) == Err::<i16, AsmError>(
            AsmError::UnknownLabel,
        ),
        jump_form(seq![tok], entries, op) == Err::<u32, AsmError>(AsmError::UnknownLabel),
{
}

/// Relative resolution gives the label's line less the current line; read
/// back from the immediate field of the encoded word and added to the
/// current line, it gives the label's line again.
pub proof fn lemma_relative_round_trip(
    entries: Seq<(Seq<char>, int)>,
    name: Seq<char>,
    current: int,
    op: u8,
    rs: u8,
    rt: u8,
)
    requires
        relative_offset(entries, name, current) matches Ok(d) && i16::MIN <= d <= i16::MAX,
        op < 64,
        rs < 32,
        rt < 32,
    ensures
        assoc(entries, name) is Some,
        relative_offset(entries, name, current)->Ok_0 == assoc(entries, name)->Some_0 - current,
        sign_extend16(
            i_word(op, rs, rt, relative_offset(entries, name, current)->Ok_0 as i16) as int
                % 0x1_0000,
        ) + current == assoc(entries, name)->Some_0,
{
    let d = relative_offset(entries, name, current)->Ok_0 as i16;
    lemma_imm_round_trip(d);
    let f = imm_field(d);
    let w = op * 0x400_0000 + rs * 0x20_0000 + rt * 0x1_0000 + f;
    assert(w == 0x1_0000 * (op * 0x400 + rs * 0x20 + rt) + f);
    assert(w < 0x1_0000_0000);
    assert(w % 0x1_0000 == f) by (nonlinear_arith)
        requires
            w == 0x1_0000 * (op * 0x400 + rs * 0x20 + rt) + f,
            0 <= f < 0x1_0000,
            op >= 0,
            rs >= 0,
            rt >= 0,
    ;
}

/// Every jump target fits the 26-bit address field: no bit above it is set.
pub proof fn lemma_jump_target_masked(tok: Seq<char>, entries: Seq<(Seq<char>, int)>)
    requires
        jump_target(tok, entries) is Ok,
    ensures
        jump_target(tok, entries)->Ok_0 < 0x400_0000,
        jump_target(tok, entries)->Ok_0 & !0x3FF_FFFFu32 == 0,
{
    lemma_jump_bits(jump_target(tok, entries)->Ok_0);
}

fn is_mult_div_name(mn: &str) -> (r: bool)
    ensures
        r == is_mult_div(mn@),
{
    proof {
        reveal_strlit("mult");
        assert("mult"@ =~= seq!['m', 'u', 'l', 't']);
        reveal_strlit("multu");
        assert("multu"@ =~= seq!['m', 'u', 'l', 't', 'u']);
        reveal_strlit("div");
        assert("div"@ =~= seq!['d', 'i', 'v']);
        reveal_strlit("divu");
        assert("divu"@ =~= seq!['d', 'i', 'v', 'u']);
    }
    same_text(mn, "mult") || same_text(mn, "multu") || same_text(mn, "div") || same_text(
        mn,
        "divu",
    )
}

fn is_move_from_name(mn: &str) -> (r: bool)
    ensures
        r == is_move_from(mn@),
{
    proof {
        reveal_strlit("mfhi");
        assert("mfhi"@ =~= seq!['m', 'f', 'h', 'i']);
        reveal_strlit("mflo");
        assert("mflo"@ =~= seq!['m', 'f', 'l', 'o']);
    }
    same_text(mn, "mfhi") || same_text(mn, "mflo")
}

fn is_load_store_name(mn: &str) -> (r: bool)
    ensures
        r == is_load_store(mn@),
{
    proof {
        reveal_strlit("lw");
        assert("lw"@ =~= seq!['l', 'w']);
        reveal_strlit("sw");
        assert("sw"@ =~= seq!['s', 'w']);
    }
    same_text(mn, "lw") || same_text(mn, "sw")
}

/// Encodes the operands of a register-form instruction.
pub fn encode_register_form(mn: &str, ops: &Vec<&str>, op: u8, function: u8) -> (r: Result<
    u32,
    AsmError,
>)
    requires
        op < 64,
        function < 64,
    ensures
        r == register_form(mn@, views(ops@), op, function),
{
    let ghost o = views(ops@);
    assert(o.len() == ops@.len());
    if is_mult_div_name(mn) {
        if ops.len() != 2 {
            return Err(AsmError::MalformedOperand);
        }
        assert(o[0] == ops@[0]@ && o[1] == ops@[1]@);
        let rs = Register::get_register(ops[0])?;
        let rt = Register::get_register(ops[1])?;
        return Ok(encode_r(op, rs, rt, 0, 0, function));
    }
    proof {
        reveal_strlit("jr");
        assert("jr"@ =~= seq!['j', 'r']);
    }
    if same_text(mn, "jr") {
        if ops.len() != 1 {
            return Err(AsmError::MalformedOperand);
        }
        assert(o[0] == ops@[0]@);
        let rs = Register::get_register(ops[0])?;
        return Ok(encode_r(op, rs, 0, 0, 0, function));
    }
    if is_move_from_name(mn) {
        if ops.len() != 1 {
            return Err(AsmError::MalformedOperand);
        }
        assert(o[0] == ops@[0]@);
        let rd = Register::get_register(ops[0])?;
        return Ok(encode_r(op, 0, 0, rd, 0, function));
    }
    if ops.len() != 3 {
        return Err(AsmError::MalformedOperand);
    }
    assert(o[0] == ops@[0]@ && o[1] == ops@[1]@ && o[2] == ops@[2]@);
    let rd = Register::get_register(ops[0])?;
    let third = ops[2];
    if third.unicode_len() > 0 && third.get_char(0) == '$' {
        let rs = Register::get_register(ops[1])?;
        let rt = Register::get_register(third)?;
        Ok(encode_r(op, rs, rt, rd, 0, function))
    } else {
        let rt = Register::get_register(ops[1])?;
        match parse_literal(third, false) {
            Some(s) => {
                if s <= 31 {
                    Ok(encode_r(op, 0, rt, rd, s as u8, function))
                } else {
                    Err(AsmError::MalformedOperand)
                }
            },
            None => Err(AsmError::MalformedOperand),
        }
    }
}

/// Resolves an immediate operand (see `immediate_value`).
pub fn resolve_immediate(tok: &str, labels: &Vec<Label>, current: usize, absolute: bool) -> (r:
    Result<i16, AsmError>)
    ensures
        r == immediate_value(tok@, label_entries(labels@), current as int, absolute),
{
    if !Label::is_label_reference(tok) {
        match parse_literal(tok, true) {
            Some(v) => {
                if -0x8000 <= v && v <= 0x7fff {
                    Ok(v as i16)
                } else {
                    Err(AsmError::MalformedOperand)
                }
            },
            None => Err(AsmError::MalformedOperand),
        }
    } else if absolute {
        let a = Label::find_label_line_address(labels, tok)?;
        if a <= 0x7fff {
            Ok(a as i16)
        } else {
            Err(AsmError::MalformedOperand)
        }
    } else {
        let d = Label::reference_to_relative_line(labels, tok, current)?;
        if -0x8000 <= d && d <= 0x7fff {
            Ok(d as i16)
        } else {
            Err(AsmError::MalformedOperand)
        }
    }
}

/// Splits a memory operand `offset(base)` into its offset and base.
pub fn split_memory_operand(t: &str) -> (r: Option<(&str, &str)>)
    ensures
        match r {
            Some((offset, base)) => memory_parts(t@) == Some((offset@, base@)),
            None => memory_parts(t@) is None,
        },
{
    let n = t.unicode_len();
    if n == 0 || t.get_char(n - 1) != ')' {
        return None;
    }
    let mut p: usize = 0;
    let mut found = false;
    while p < n && !found
        invariant
            n == t@.len(),
            p <= n,
            found ==> p < n && t@[p as int] == '(',
            forall|q: int| 0 <= q < p ==> t@[q] != '(',
        decreases n - p + (if found { 0int } else { 1int }),
    {
        if t.get_char(p) == '(' {
            found = true;
        } else {
            p = p + 1;
        }
    }
    if p == 0 || p >= n - 1 {
        assert forall|q: int| !is_open_paren(t@, q) by {
            if is_open_paren(t@, q) {
                if p == n {
                    assert(t@[q] != '(');
                } else if q < p {
                    assert(t@[q] != '(');
                } else if q > p {
                    assert(t@[p as int] == '(');
                }
            }
        }
        return None;
    }
    assert(is_open_paren(t@, p as int));
    let ghost c = choose|c: int| is_open_paren(t@, c);
    assert(c == p) by {
        if c < p {
            assert(t@[c] != '(');
        } else if c > p {
            assert(t@[p as int] != '(');
        }
    }
    let offset = t.substring_char(0, p);
    let base = t.substring_char(p + 1, n - 1);
    assert(offset@ =~= t@.take(p as int));
    Some((offset, base))
}

/// Encodes the operands of an immediate-form instruction on line `current`.
pub fn encode_immediate_form(
    mn: &str,
    ops: &Vec<&str>,
    labels: &Vec<Label>,
    current: usize,
    op: u8,
) -> (r: Result<u32, AsmError>)
    requires
        op < 64,
    ensures
        r == immediate_form(mn@, views(ops@), label_entries(labels@), current as int, op),
{
    let ghost o = views(ops@);
    assert(o.len() == ops@.len());
    if is_load_store_name(mn) {
        if ops.len() != 2 {
            return Err(AsmError::MalformedOperand);
        }
        assert(o[0] == ops@[0]@ && o[1] == ops@[1]@);
        let rt = Register::get_register(ops[0])?;
        match split_memory_operand(ops[1]) {
            None => Err(AsmError::MalformedOperand),
            Some((offset, base)) => {
                let rs = Register::get_register(base)?;
                let imm = resolve_immediate(offset, labels, current, true)?;
                Ok(encode_i(op, rs, rt, imm))
            },
        }
    } else {
        proof {
            reveal_strlit("lui");
        assert("lui"@ =~= seq!['l', 'u', 'i']);
        }
        if same_text(mn, "lui") {
            if ops.len() != 2 {
                return Err(AsmError::MalformedOperand);
            }
            assert(o[0] == ops@[0]@ && o[1] == ops@[1]@);
            let rt = Register::get_register(ops[0])?;
            let imm = resolve_immediate(ops[1], labels, current, false)?;
            Ok(encode_i(op, 0, rt, imm))
        } else {
            if ops.len() != 3 {
                return Err(AsmError::MalformedOperand);
            }
            assert(o[0] == ops@[0]@ && o[1] == ops@[1]@ && o[2] == ops@[2]@);
            let rs = Register::get_register(ops[0])?;
            let rt = Register::get_register(ops[1])?;
            let imm = resolve_immediate(ops[2], labels, current, false)?;
            Ok(encode_i(op, rs, rt, imm))
        }
    }
}

/// Resolves the target of a jump (see `jump_target`).
pub fn resolve_jump_target(tok: &str, labels: &Vec<Label>) -> (r: Result<u32, AsmError>)
    ensures
        r == jump_target(tok@, label_entries(labels@)),
        r matches Ok(t) ==> t < 0x400_0000,
{
    if !Label::is_label_reference(tok) {
        match parse_literal(tok, true) {
            Some(v) => Ok(mask_jump_literal(v as i32)),
            None => Err(AsmError::MalformedOperand),
        }
    } else {
        let a = Label::find_label_line_address(labels, tok)?;
        Ok((a % 0x400_0000) as u32)
    }
}

/// Encodes the operand of a jump-form instruction.
pub fn encode_jump_form(ops: &Vec<&str>, labels: &Vec<Label>, op: u8) -> (r: Result<
    u32,
    AsmError,
>)
    requires
        op < 64,
    ensures
        r == jump_form(views(ops@), label_entries(labels@), op),
{
    if ops.len() != 1 {
        return Err(AsmError::MalformedOperand);
    }
    assert(views(ops@)[0] == ops@[0]@);
    let t = resolve_jump_target(ops[0], labels)?;
    Ok(encode_j(op, t))
}

/// Pass two on one line: the word that line number `line_number` (1-based)
/// encodes to, or none for a blank or label-only line.
pub fn encode_line(line: &str, labels: &Vec<Label>, line_number: usize) -> (r: Result<
    Option<u32>,
    AsmError,
>)
    ensures
        r == line_word(line@, label_entries(labels@), line_number as int),
{
    reveal(line_word);
    let words = split_words(line);
    let ghost w = views(words@);
    assert(w.len() == words@.len());
    let mut first: usize = 0;
    if words.len() > 0 && Label::is_label(words[0]) {
        assert(w[0] == words@[0]@);
        first = 1;
    }
    if first >= words.len() {
        return Ok(None);
    }
    let mn = words[first];
    let mut ops: Vec<&str> = Vec::new();
    let mut k: usize = first + 1;
    while k < words.len()
        invariant
            first < k <= words@.len(),
            w == views(words@),
            views(ops@) == w.subrange(first + 1, k as int),
        decreases words@.len() - k,
    {
        assert(w[k as int] == words@[k as int]@);
        let ghost before = ops@;
        ops.push(words[k]);
        assert(views(ops@) =~= views(before).push(w[k as int]));
        assert(views(ops@) =~= w.subrange(first + 1, k + 1));
        k = k + 1;
    }
    let ghost iw = instruction_words(line@);
    assert(iw =~= w.subrange(first as int, w.len() as int));
    assert(iw[0] == mn@);
    assert(iw.drop_first() =~= views(ops@));
    match Instruction::get_instruction(mn) {
        None => Err(AsmError::UnknownMnemonic),
        Some(ins) => {
            let r = match ins.format {
                InstructionFormat::R { op_code, function } => encode_register_form(
                    mn,
                    &ops,
                    op_code,
                    function,
                ),
                InstructionFormat::I { op_code } => encode_immediate_form(
                    mn,
                    &ops,
                    labels,
                    line_number,
                    op_code,
                ),
                InstructionFormat::J { op_code } => encode_jump_form(&ops, labels, op_code),
            };
            match r {
                Err(e) => Err(e),
                Ok(x) => Ok(Some(x)),
            }
        },
    }
}

/// The assembler for one source: its lines and the labels that they define.
pub struct Assembler {
    pub lines: Vec<String>,
    pub labels: Vec<Label>,
}

impl Assembler {
    /// Runs pass one over `lines`.
    pub fn new(lines: Vec<String>) -> (r: Assembler)
        ensures
            r.lines@ == lines@,
            label_entries(r.labels@) == scan_labels(lines_view(lines@)),
    {
        let labels = Label::find_labels(&lines);
        Assembler { lines, labels }
    }

    /// Runs pass two: the word of every instruction line, in order, or the
    /// first error with the number of its line.
    pub fn assemble(&self) -> (r: Result<Vec<u32>, LineError>)
        ensures
            match r {
                Ok(ws) => assembled(lines_view(self.lines@), label_entries(self.labels@)) == Ok::<
                    Seq<u32>,
                    LineError,
                >(ws@),
                Err(e) => assembled(lines_view(self.lines@), label_entries(self.labels@)) == Err::<
                    Seq<u32>,
                    LineError,
                >(e),
            },
    {
        let ghost lv = lines_view(self.lines@);
        let ghost ents = label_entries(self.labels@);
        let mut words: Vec<u32> = Vec::new();
        let mut index: usize = 0;
        while index < self.lines.len()
            invariant
                lv == lines_view(self.lines@),
                ents == label_entries(self.labels@),
                index <= self.lines@.len(),
                assemble_prefix(lv, ents, index as int) == Ok::<Seq<u32>, LineError>(words@),
            decreases self.lines@.len() - index,
        {
            assert(lv[index as int] == self.lines@[index as int]@);
            match encode_line(self.lines[index].as_str(), &self.labels, index + 1) {
                Err(e) => {
                    proof {
                        lemma_error_persists(lv, ents, index + 1, lv.len() as int);
                    }
                    return Err(LineError { line: index + 1, error: e });
                },
                Ok(None) => {},
                Ok(Some(x)) => {
                    words.push(x);
                },
            }
            index = index + 1;
        }
        Ok(words)
    }
}

} // verus!
