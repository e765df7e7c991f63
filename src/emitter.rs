use vstd::prelude::*;

verus! {

/// The header line of the output image.
pub open spec fn header() -> Seq<char> {
    seq!['v', '2', '.', '0', ' ', 'r', 'a', 'w', '\n']
}

pub open spec fn hex_digits() -> Seq<char> {
    seq!['0', '1', '2', '3', '4', '5', '6', '7', '8', '9', 'a', 'b', 'c', 'd', 'e', 'f']
}

/// The `i`-th of the eight hexadecimal digits of `w`, most significant first.
pub open spec fn nibble(w: u32, i: int) -> int {
    ((w >> ((28 - 4 * i) as u32)) & 0xf) as int
}

/// A word as text: `0x` and eight lowercase hexadecimal digits.
pub open spec fn hex_word(w: u32) -> Seq<char> {
    seq!['0', 'x'] + Seq::new(8, |i: int| hex_digits()[nibble(w, i)])
}

/// What follows the `n`-th word (1-based): a newline after every fourth
/// word, else a space.
pub open spec fn separator(n: int) -> char {
    if n % 4 == 0 {
        '\n'
    } else {
        ' '
    }
}

/// The words as text, each followed by its separator.
pub open spec fn emitted_words(ws: Seq<u32>) -> Seq<char>
    decreases ws.len(),
{
    if ws.len() == 0 {
        Seq::empty()
    } else {
        emitted_words(ws.drop_last()) + hex_word(ws.last()) + seq![separator(ws.len() as int)]
    }
}

/// The whole output image: the header, then the words four to a line.
pub open spec fn image(ws: Seq<u32>) -> Seq<char> {
    header() + emitted_words(ws)
}

/// Writes a word as `0x` and eight lowercase hexadecimal digits.
pub fn to_hex(word: u32) -> (r: String)
    ensures
        r@ == hex_word(word),
{
    let digits = "0123456789abcdef";
    proof {
        reveal_strlit("0123456789abcdef");
        reveal_strlit("0x");
        assert(digits@ =~= hex_digits());
        assert("0x"@ =~= seq!['0', 'x']);
    }
    let mut s = String::from_str("0x");
    let mut i: usize = 0;
    while i < 8
        invariant
            i <= 8,
            digits@ == hex_digits(),
            s@ == seq!['0', 'x'] + Seq::new(i as nat, |j: int| hex_digits()[nibble(word, j)]),
        decreases 8 - i,
    {
        let shift: u32 = 28 - 4 * (i as u32);
        let d = (word >> shift) & 0xf;
        assert((word >> shift) & 0xf < 16) by (bit_vector);
        let ghost before = s@;
        s.append(digits.substring_char(d as usize, d as usize + 1));
        assert(s@ =~= seq!['0', 'x'] + Seq::new((i + 1) as nat, |j: int| hex_digits()[nibble(word, j)]))
            by {
            assert(nibble(word, i as int) == d as int);
        }
        i = i + 1;
    }
    assert(Seq::new(8nat, |j: int| hex_digits()[nibble(word, j)]) =~= Seq::new(
        8,
        |j: int| hex_digits()[nibble(word, j)],
    ));
    s
}

/// The output image of the words: the header line, then each word in hex,
/// four to a line separated by spaces.
pub fn emit(words: &Vec<u32>) -> (r: String)
    ensures
        r@ == image(words@),
{
    proof {
        reveal_strlit("v2.0 raw\n");
        reveal_strlit("\n");
        reveal_strlit(" ");
        assert("v2.0 raw\n"@ =~= header());
        assert("\n"@ =~= seq!['\n']);
        assert(" "@ =~= seq![' ']);
    }
    let mut out = String::from_str("v2.0 raw\n");
    let mut k: usize = 0;
    while k < words.len()
        invariant
            k <= words@.len(),
            out@ == header() + emitted_words(words@.take(k as int)),
            "\n"@ == seq!['\n'],
            " "@ == seq![' '],
        decreases words@.len() - k,
    {
        let ghost before = out@;
        let hex = to_hex(words[k]);
        out.append(hex.as_str());
        if (k + 1) % 4 == 0 {
            out.append("\n");
        } else {
            out.append(" ");
        }
        let ghost t = words@.take(k + 1);
        assert(t.drop_last() =~= words@.take(k as int));
        assert(t.last() == words@[k as int]);
        assert(out@ =~= before + hex_word(words@[k as int]) + seq![separator(k + 1)]);
        assert(emitted_words(t) == emitted_words(words@.take(k as int)) + hex_word(
            words@[k as int],
        ) + seq![separator(k + 1)]);
        assert(out@ =~= header() + emitted_words(t));
        k = k + 1;
    }
    assert(words@.take(words@.len() as int) =~= words@);
    out
}

} // verus!
