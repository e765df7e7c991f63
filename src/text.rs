use vstd::prelude::*;

verus! {

/// The value bound to `key` in an association list: that of the first entry
/// whose name is `key`.
pub open spec fn assoc<V>(entries: Seq<(Seq<char>, V)>, key: Seq<char>) -> Option<V>
    decreases entries.len(),
{
    if entries.len() == 0 {
        None
    } else if entries[0].0 == key {
        Some(entries[0].1)
    } else {
        assoc(entries.drop_first(), key)
    }
}

/// An entry of `entries` that `assoc` finds is the first one with that name.
pub proof fn lemma_assoc_index<V>(entries: Seq<(Seq<char>, V)>, i: int)
    requires
        0 <= i < entries.len(),
        forall|j: int| 0 <= j < i ==> #[trigger] entries[j].0 != entries[i].0,
    ensures
        assoc(entries, entries[i].0) == Some(entries[i].1),
    decreases i,
{
    if i > 0 {
        let rest = entries.drop_first();
        assert forall|j: int| 0 <= j < i - 1 implies #[trigger] rest[j].0 != rest[i - 1].0 by {
            assert(rest[j] == entries[j + 1]);
        }
        lemma_assoc_index(rest, i - 1);
        assert(rest[i - 1] == entries[i]);
    }
}

/// `assoc` finds only names that some entry carries.
pub proof fn lemma_assoc_some<V>(entries: Seq<(Seq<char>, V)>, key: Seq<char>)
    requires
        assoc(entries, key) is Some,
    ensures
        exists|i: int|
            0 <= i < entries.len() && entries[i].0 == key && assoc(entries, key) == Some(
                entries[i].1,
            ),
    decreases entries.len(),
{
    if entries[0].0 != key {
        let rest = entries.drop_first();
        lemma_assoc_some(rest, key);
        let i = choose|i: int|
            0 <= i < rest.len() && rest[i].0 == key && assoc(rest, key) == Some(rest[i].1);
        assert(entries[i + 1] == rest[i]);
    }
}

/// Unicode's `White_Space` property, by which words are separated.
pub open spec fn is_space(c: char) -> bool {
    let u = c as u32;
    (0x09 <= u && u <= 0x0d) || u == 0x20 || u == 0x85 || u == 0xa0 || u == 0x1680 || (0x2000
        <= u && u <= 0x200a) || u == 0x2028 || u == 0x2029 || u == 0x202f || u == 0x205f || u
        == 0x3000
}

pub fn is_space_char(c: char) -> (r: bool)
    ensures
        r == is_space(c),
{
    let u = c as u32;
    (0x09 <= u && u <= 0x0d) || u == 0x20 || u == 0x85 || u == 0xa0 || u == 0x1680 || (0x2000
        <= u && u <= 0x200a) || u == 0x2028 || u == 0x2029 || u == 0x202f || u == 0x205f || u
        == 0x3000
}

/// Reading `s` from the left: the words completed so far, and the part of
/// a word that the last characters have begun.
pub open spec fn scan_words(s: Seq<char>) -> (Seq<Seq<char>>, Seq<char>)
    decreases s.len(),
{
    if s.len() == 0 {
        (Seq::empty(), Seq::empty())
    } else {
        let (done, cur) = scan_words(s.drop_last());
        let c = s.last();
        if is_space(c) {
            (
                if cur.len() > 0 {
                    done.push(cur)
                } else {
                    done
                },
                Seq::empty(),
            )
        } else {
            (done, cur.push(c))
        }
    }
}

/// The words of `s`: its maximal runs of characters that are not white space.
pub open spec fn words_of(s: Seq<char>) -> Seq<Seq<char>> {
    let (done, cur) = scan_words(s);
    if cur.len() > 0 {
        done.push(cur)
    } else {
        done
    }
}

pub open spec fn views(v: Seq<&str>) -> Seq<Seq<char>> {
    v.map_values(|w: &str| w@)
}

/// Splits `line` into its words, in order.
pub fn split_words(line: &str) -> (r: Vec<&str>)
    ensures
        views(r@) == words_of(line@),
{
    let n = line.unicode_len();
    let mut words: Vec<&str> = Vec::new();
    let mut start: usize = 0;
    let mut i: usize = 0;
    while i < n
        invariant
            n == line@.len(),
            start <= i <= n,
            scan_words(line@.take(i as int)) == (views(words@), line@.subrange(
                start as int,
                i as int,
            )),
        decreases n - i,
    {
        let c = line.get_char(i);
        assert(line@.take(i + 1).drop_last() =~= line@.take(i as int));
        assert(line@.take(i + 1).last() == c);
        if is_space_char(c) {
            if start < i {
                let w = line.substring_char(start, i);
                words.push(w);
                assert(views(words@) =~= views(words@.drop_last()).push(w@));
            }
            start = i + 1;
            assert(line@.subrange(start as int, i + 1) =~= Seq::<char>::empty());
        } else {
            assert(line@.subrange(start as int, i + 1) =~= line@.subrange(
                start as int,
                i as int,
            ).push(c));
        }
        i = i + 1;
    }
    assert(line@.take(n as int) =~= line@);
    if start < n {
        let w = line.substring_char(start, n);
        words.push(w);
        assert(views(words@) =~= views(words@.drop_last()).push(w@));
    }
    words
}

/// Whether two strings hold the same characters.
pub fn same_text(a: &str, b: &str) -> (r: bool)
    ensures
        r == (a@ == b@),
{
    let n = a.unicode_len();
    if n != b.unicode_len() {
        return false;
    }
    let mut i: usize = 0;
    while i < n
        invariant
            n == a@.len(),
            n == b@.len(),
            i <= n,
            forall|j: int| 0 <= j < i ==> a@[j] == b@[j],
        decreases n - i,
    {
        if a.get_char(i) != b.get_char(i) {
            return false;
        }
        i = i + 1;
    }
    assert(a@ =~= b@);
    true
}

pub open spec fn is_digit(c: char) -> bool {
    48 <= (c as u32) && (c as u32) <= 57
}

pub open spec fn all_digits(s: Seq<char>) -> bool {
    s.len() > 0 && forall|i: int| 0 <= i < s.len() ==> is_digit(#[trigger] s[i])
}

/// The number that a string of decimal digits writes.
pub open spec fn digits_value(s: Seq<char>) -> int
    decreases s.len(),
{
    if s.len() == 0 {
        0
    } else {
        10 * digits_value(s.drop_last()) + ((s.last() as u32) - 48)
    }
}

/// The integer that `s` writes in decimal: one or more digits after an
/// optional sign, where `-` is a sign only if `signed` holds.
pub open spec fn decimal_literal(s: Seq<char>, signed: bool) -> Option<int> {
    if s.len() > 0 && s[0] == '+' && all_digits(s.drop_first()) {
        Some(digits_value(s.drop_first()))
    } else if signed && s.len() > 0 && s[0] == '-' && all_digits(s.drop_first()) {
        Some(-digits_value(s.drop_first()))
    } else if all_digits(s) {
        Some(digits_value(s))
    } else {
        None
    }
}

/// A bound past every field that a literal fills.
pub const LITERAL_BOUND: i64 = 0x1_0000_0000;

/// `v` itself where it lies within the bound, else the first value past the
/// bound on the same side.
pub open spec fn clamp_literal(v: int) -> int {
    if v > LITERAL_BOUND {
        LITERAL_BOUND + 1
    } else if v < -LITERAL_BOUND {
        -(LITERAL_BOUND + 1)
    } else {
        v
    }
}

pub open spec fn parsed_literal(s: Seq<char>, signed: bool) -> Option<i64> {
    match decimal_literal(s, signed) {
        Some(v) => Some(clamp_literal(v) as i64),
        None => None,
    }
}

proof fn lemma_digits_value_nonneg(s: Seq<char>)
    requires
        forall|i: int| 0 <= i < s.len() ==> is_digit(#[trigger] s[i]),
    ensures
        digits_value(s) >= 0,
    decreases s.len(),
{
    if s.len() > 0 {
        lemma_digits_value_nonneg(s.drop_last());
    }
}

/// Reads the digits of `s` from position `from` on, as a number clamped just
/// past the bound.
fn digits_from(s: &str, from: usize) -> (r: Option<u64>)
    requires
        from <= s@.len(),
    ensures
        r == (if all_digits(s@.subrange(from as int, s@.len() as int)) {
            Some(clamp_literal(digits_value(s@.subrange(from as int, s@.len() as int))) as u64)
        } else {
            None
        }),
        r matches Some(v) ==> v <= LITERAL_BOUND + 1 && digits_value(
            s@.subrange(from as int, s@.len() as int),
        ) >= 0,
{
    let n = s.unicode_len();
    if from == n {
        return None;
    }
    let ghost t = s@.subrange(from as int, n as int);
    let mut acc: u64 = 0;
    let mut i: usize = from;
    while i < n
        invariant
            n == s@.len(),
            from <= i <= n,
            t == s@.subrange(from as int, n as int),
            forall|j: int| 0 <= j < i - from ==> is_digit(#[trigger] t[j]),
            acc as int == clamp_literal(digits_value(t.take(i - from))),
        decreases n - i,
    {
        let c = s.get_char(i);
        if !((c as u32) >= 48 && (c as u32) <= 57) {
            assert(!is_digit(t[i - from]));
            return None;
        }
        let d = (c as u32 - 48) as u64;
        let ghost p = t.take(i - from);
        assert(t.take(i + 1 - from).drop_last() =~= p);
        assert(t.take(i + 1 - from).last() == c);
        proof {
            lemma_digits_value_nonneg(p);
        }
        if acc > LITERAL_BOUND as u64 {
            assert(digits_value(p) > LITERAL_BOUND);
        } else {
            let next = acc * 10 + d;
            acc = if next > LITERAL_BOUND as u64 {
                LITERAL_BOUND as u64 + 1
            } else {
                next
            };
        }
        i = i + 1;
    }
    assert(t.take(n - from) =~= t);
    proof {
        lemma_digits_value_nonneg(t);
    }
    Some(acc)
}

/// Parses `s` as a decimal integer literal, as `decimal_literal` reads it;
/// a value past the bound comes back clamped just past it.
pub fn parse_literal(s: &str, signed: bool) -> (r: Option<i64>)
    ensures
        r == parsed_literal(s@, signed),
        r matches Some(v) ==> signed || v >= 0,
{
    let n = s.unicode_len();
    if n == 0 {
        return None;
    }
    let first = s.get_char(0);
    assert(s@.subrange(1, n as int) =~= s@.drop_first());
    assert(s@.subrange(0, n as int) =~= s@);
    if first == '+' || (signed && first == '-') {
        match digits_from(s, 1) {
            Some(v) => {
                if first == '+' {
                    Some(v as i64)
                } else {
                    Some(-(v as i64))
                }
            },
            None => {
                assert(!is_digit(s@[0]));
                None
            },
        }
    } else {
        let r = digits_from(s, 0);
        match r {
            Some(v) => Some(v as i64),
            None => None,
        }
    }
}

} // verus!
