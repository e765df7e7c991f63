use vstd::prelude::*;

use crate::error::AsmError;
use crate::text::{assoc, decimal_literal, parse_literal, split_words, views, words_of};

verus! {

/// Where the program's first instruction lies, counted in words: a label's
/// absolute address is this plus the index of its line.
pub const TEXT_BASE: usize = 0x100000;

/// A label definition: its name, without the colon, and the 0-based index of
/// the source line that defines it.
#[derive(Debug)]
pub struct Label {
    pub name: String,
    pub line: usize,
}

/// The labels as an association list from name to line.
pub open spec fn label_entries(labels: Seq<Label>) -> Seq<(Seq<char>, int)> {
    labels.map_values(|l: Label| (l.name@, l.line as int))
}

pub open spec fn lines_view(lines: Seq<String>) -> Seq<Seq<char>> {
    lines.map_values(|l: String| l@)
}

/// A word that defines a label: it ends in a colon.
pub open spec fn is_label_word(w: Seq<char>) -> bool {
    w.len() > 0 && w.last() == ':'
}

/// The label that a source line defines, if its first word is a definition.
pub open spec fn defined_label(line: Seq<char>) -> Option<Seq<char>> {
    let w = words_of(line);
    if w.len() > 0 && is_label_word(w[0]) {
        Some(w[0].drop_last())
    } else {
        None
    }
}

/// The labels that `lines` define, in source order, each with its line index.
pub open spec fn scan_labels(lines: Seq<Seq<char>>) -> Seq<(Seq<char>, int)>
    decreases lines.len(),
{
    if lines.len() == 0 {
        Seq::empty()
    } else {
        let prev = scan_labels(lines.drop_last());
        match defined_label(lines.last()) {
            Some(name) => prev.push((name, lines.len() - 1)),
            None => prev,
        }
    }
}

/// Whether a word is a signed 32-bit integer literal.
pub open spec fn is_int_literal(w: Seq<char>) -> bool {
    decimal_literal(w, true) matches Some(v) && i32::MIN <= v && v <= i32::MAX
}

/// The line of the label `name`; the first definition counts.
pub open spec fn label_line(entries: Seq<(Seq<char>, int)>, name: Seq<char>) -> Result<
    usize,
    AsmError,
> {
    match assoc(entries, name) {
        Some(l) => Ok(l as usize),
        None => Err(AsmError::UnknownLabel),
    }
}

/// Relative resolution: the label's line minus the current line.
pub open spec fn relative_offset(
    entries: Seq<(Seq<char>, int)>,
    name: Seq<char>,
    current: int,
) -> Result<i32, AsmError> {
    match assoc(entries, name) {
        Some(l) => if i32::MIN <= l - current <= i32::MAX {
            Ok((l - current) as i32)
        } else {
            Err(AsmError::MalformedOperand)
        },
        None => Err(AsmError::UnknownLabel),
    }
}

/// Absolute resolution: the label's line, offset by the start of the program.
pub open spec fn absolute_address(entries: Seq<(Seq<char>, int)>, name: Seq<char>) -> Result<
    usize,
    AsmError,
> {
    match assoc(entries, name) {
        Some(l) => if l + TEXT_BASE <= usize::MAX {
            Ok((l + TEXT_BASE) as usize)
        } else {
            Err(AsmError::MalformedOperand)
        },
        None => Err(AsmError::UnknownLabel),
    }
}

impl Label {
    /// The line of the label `label_name` less `current_line_number`.
    pub fn reference_to_relative_line(
        labels: &Vec<Label>,
        label_name: &str,
        current_line_number: usize,
    ) -> (r: Result<i32, AsmError>)
        ensures
            r == relative_offset(label_entries(labels@), label_name@, current_line_number as int),
    {
        let label_line = Label::find_label_line(labels, label_name)?;
        if label_line >= current_line_number {
            let d = label_line - current_line_number;
            if d <= i32::MAX as usize {
                Ok(d as i32)
            } else {
                Err(AsmError::MalformedOperand)
            }
        } else {
            let d = current_line_number - label_line;
            if d <= 0x8000_0000usize {
                Ok((0i64 - d as i64) as i32)
            } else {
                Err(AsmError::MalformedOperand)
            }
        }
    }

    /// Whether a word defines a label.
    pub fn is_label(word: &str) -> (r: bool)
        ensures
            r == is_label_word(word@),
    {
        let n = word.unicode_len();
        n > 0 && word.get_char(n - 1) == ':'
    }

    /// Whether a word refers to a label: it is not a signed 32-bit integer.
    pub fn is_label_reference(word: &str) -> (r: bool)
        ensures
            r == !is_int_literal(word@),
    {
        match parse_literal(word, true) {
            Some(v) => !(i32::MIN as i64 <= v && v <= i32::MAX as i64),
            None => true,
        }
    }

    /// The line of the label `label_name`.
    pub fn find_label_line(labels: &Vec<Label>, label_name: &str) -> (r: Result<usize, AsmError>)
        ensures
            r == label_line(label_entries(labels@), label_name@),
            r matches Ok(l) ==> assoc(label_entries(labels@), label_name@) == Some(l as int),
    {
        let ghost ents = label_entries(labels@);
        let mut i: usize = 0;
        assert(ents.subrange(0, ents.len() as int) =~= ents);
        while i < labels.len()
            invariant
                ents == label_entries(labels@),
                i <= labels@.len(),
                assoc(ents, label_name@) == assoc(
                    ents.subrange(i as int, ents.len() as int),
                    label_name@,
                ),
            decreases labels@.len() - i,
        {
            let ghost rest = ents.subrange(i as int, ents.len() as int);
            assert(rest[0] == ents[i as int]);
            if crate::text::same_text(labels[i].name.as_str(), label_name) {
                return Ok(labels[i].line);
            }
            assert(rest.drop_first() =~= ents.subrange(i + 1, ents.len() as int));
            i = i + 1;
        }
        Err(AsmError::UnknownLabel)
    }

    /// The absolute address of the label `label_name`.
    pub fn find_label_line_address(labels: &Vec<Label>, label_name: &str) -> (r: Result<
        usize,
        AsmError,
    >)
        ensures
            r == absolute_address(label_entries(labels@), label_name@),
    {
        let line = Label::find_label_line(labels, label_name)?;
        if line <= usize::MAX - TEXT_BASE {
            Ok(line + TEXT_BASE)
        } else {
            Err(AsmError::MalformedOperand)
        }
    }

    /// The label that a line defines, if any.
    pub fn label_of_line(line: &str) -> (r: Option<String>)
        ensures
            match r {
                Some(name) => defined_label(line@) == Some(name@),
                None => defined_label(line@) is None,
            },
    {
        let words = split_words(line);
        assert(views(words@).len() == words@.len());
        if words.len() > 0 && Label::is_label(words[0]) {
            assert(views(words@)[0] == words@[0]@);
            let w = words[0];
            let n = w.unicode_len();
            let name = w.substring_char(0, n - 1);
            assert(name@ =~= w@.drop_last());
            Some(name.to_owned())
        } else {
            None
        }
    }

    /// Pass one: the labels that the source lines define, each with the
    /// 0-based index of its line, in source order.
    pub fn find_labels(lines: &Vec<String>) -> (r: Vec<Label>)
        ensures
            label_entries(r@) == scan_labels(lines_view(lines@)),
    {
        let mut labels: Vec<Label> = Vec::new();
        let mut index: usize = 0;
        while index < lines.len()
            invariant
                index <= lines@.len(),
                label_entries(labels@) == scan_labels(lines_view(lines@.take(index as int))),
            decreases lines@.len() - index,
        {
            let ghost prefix = lines_view(lines@.take(index + 1));
            assert(prefix.drop_last() =~= lines_view(lines@.take(index as int)));
            assert(prefix.last() == lines@[index as int]@);
            match Label::label_of_line(lines[index].as_str()) {
                Some(name) => {
                    let ghost before = labels@;
                    labels.push(Label { name, line: index });
                    assert(label_entries(labels@) =~= label_entries(before).push(
                        (labels@.last().name@, index as int),
                    ));
                },
                None => {},
            }
            index = index + 1;
        }
        assert(lines@.take(lines@.len() as int) =~= lines@);
        labels
    }
}

/// Every label record names the line that defines it, every line that
/// defines a label has a record, and records follow the source order; line
/// indices are 0-based positions that count blank lines too.
pub proof fn lemma_label_lines(lines: Seq<Seq<char>>)
    ensures
        forall|j: int|
            0 <= j < scan_labels(lines).len() ==> {
                let (name, line) = #[trigger] scan_labels(lines)[j];
                0 <= line < lines.len() && defined_label(lines[line]) == Some(name)
            },
        forall|i: int|
            0 <= i < lines.len() && (#[trigger] defined_label(lines[i])) is Some ==> exists|j: int|
                0 <= j < scan_labels(lines).len() && scan_labels(lines)[j].1 == i,
        forall|j: int, k: int|
            0 <= j < k < scan_labels(lines).len() ==> (#[trigger] scan_labels(lines)[j]).1 < (
            #[trigger] scan_labels(lines)[k]).1,
    decreases lines.len(),
{
    if lines.len() > 0 {
        let prev = lines.drop_last();
        lemma_label_lines(prev);
        let s = scan_labels(lines);
        let p = scan_labels(prev);
        assert forall|j: int| 0 <= j < p.len() implies 0 <= #[trigger] p[j].1 < prev.len() by {}
        assert forall|i: int|
            0 <= i < lines.len() && (#[trigger] defined_label(lines[i])) is Some implies exists|
                j: int,
            |
                0 <= j < s.len() && s[j].1 == i by {
            if i < prev.len() {
                assert(lines[i] == prev[i]);
                assert(defined_label(prev[i]) is Some);
                let j = choose|j: int| 0 <= j < p.len() && p[j].1 == i;
                assert(s[j] == p[j]);
            } else {
                assert(lines[i] == lines.last());
                assert(s[s.len() - 1].1 == i);
            }
        }
        assert forall|j: int| 0 <= j < s.len() implies {
            let (name, line) = #[trigger] s[j];
            0 <= line < lines.len() && defined_label(lines[line]) == Some(name)
        } by {
            if j < p.len() {
                assert(s[j] == p[j]);
                assert(lines[p[j].1] == prev[p[j].1]);
            }
        }
        assert forall|j: int, k: int| 0 <= j < k < s.len() implies (#[trigger] s[j]).1 < (
        #[trigger] s[k]).1 by {
            assert(s[j] == p[j]);
            if k < p.len() {
                assert(s[k] == p[k]);
            }
        }
    }
}

} // verus!
