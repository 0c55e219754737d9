//! The Vivado `$readmemh` `.mem` text format: one word per line, each word
//! written as four upper-case hexadecimal digits (`{:04X}`) and ended by `\n`.
use vstd::prelude::*;
use vstd::string::*;

verus! {

/// Upper-case hexadecimal digit of `d` (`0 <= d < 16`).
pub open spec fn hex_digit_char(d: int) -> char {
    if d <= 9 {
        (d + 48) as char
    } else {
        (d + 55) as char
    }
}

/// `format!("{:04X}", word)`.
pub open spec fn hex_word(word: u16) -> Seq<char> {
    seq![
        hex_digit_char(word as int / 4096),
        hex_digit_char((word as int / 256) % 16),
        hex_digit_char((word as int / 16) % 16),
        hex_digit_char(word as int % 16),
    ]
}

/// Text of a `.mem` file holding `words`: line `i` is `hex_word(words[i])`
/// followed by a newline.
pub open spec fn mem_file_text(words: Seq<u16>) -> Seq<char> {
    Seq::new(
        5 * words.len(),
        |j: int|
            if j % 5 == 4 {
                '\n'
            } else {
                hex_word(words[j / 5])[j % 5]
            },
    )
}

/// An upper-case hexadecimal digit: `0-9` or `A-F`.
pub open spec fn is_upper_hex_digit(c: char) -> bool {
    (48 <= c as int <= 57) || (65 <= c as int <= 70)
}

/// Value of a hexadecimal digit (either case), as `u16::from_str_radix` reads it.
pub open spec fn hex_digit_value(c: char) -> int {
    if 48 <= c as int <= 57 {
        c as int - 48
    } else if 65 <= c as int <= 70 {
        c as int - 55
    } else {
        c as int - 87
    }
}

/// Value of a four-digit hexadecimal word.
pub open spec fn hex_word_value(digits: Seq<char>) -> int {
    4096 * hex_digit_value(digits[0]) + 256 * hex_digit_value(digits[1]) + 16 * hex_digit_value(
        digits[2],
    ) + hex_digit_value(digits[3])
}

/// One hexadecimal digit as a one-character string.
fn hex_digit_str(d: u16) -> (digit: &'static str)
    requires
        d < 16,
    ensures
        digit@ == seq![hex_digit_char(d as int)],
{
    let table = "0123456789ABCDEF";
    proof {
        reveal_strlit("0123456789ABCDEF");
    }
    assert(table@ =~= seq![
        '0',
        '1',
        '2',
        '3',
        '4',
        '5',
        '6',
        '7',
        '8',
        '9',
        'A',
        'B',
        'C',
        'D',
        'E',
        'F',
    ]);
    let digit = table.substring_ascii(d as usize, d as usize + 1);
    assert(digit@ =~= seq![table@[d as int]]);
    digit
}

/// Append `format!("{:04X}", word)` to `text`.
fn push_hex_word(text: &mut String, word: u16)
    ensures
        final(text)@ == old(text)@ + hex_word(word),
{
    text.append(hex_digit_str(word / 4096));
    text.append(hex_digit_str((word / 256) % 16));
    text.append(hex_digit_str((word / 16) % 16));
    text.append(hex_digit_str(word % 16));
    assert(final(text)@ =~= old(text)@ + hex_word(word));
}

/// `format!("{:04X}", word)`: four upper-case hexadecimal digits.
pub fn format_hex_word(word: u16) -> (text: String)
    ensures
        text@ == hex_word(word),
{
    let mut text = String::new();
    push_hex_word(&mut text, word);
    assert(text@ =~= hex_word(word));
    text
}

/// Contents of a `.mem` file for `words`, one `{:04X}` word per line.
pub fn mem_file_contents(words: &[u16]) -> (text: String)
    ensures
        text@ == mem_file_text(words@),
{
    let mut text = String::new();
    let n = words.len();
    assert(text@ =~= mem_file_text(words@.take(0)));
    for i in 0..n
        invariant
            n == words@.len(),
            text@ == mem_file_text(words@.take(i as int)),
    {
        let ghost before = text@;
        push_hex_word(&mut text, words[i]);
        let newline = "\n";
        proof {
            reveal_strlit("\n");
        }
        text.append(newline);
        proof {
            let prev = words@.take(i as int);
            let next = words@.take(i + 1);
            assert forall|j: int| 0 <= j < 5 * next.len() implies #[trigger] text@[j]
                == mem_file_text(next)[j] by {
                if j < 5 * i {
                    assert(j / 5 < i);
                    assert(next[j / 5] == prev[j / 5]);
                    assert(text@[j] == before[j]);
                } else {
                    assert(j / 5 == i);
                    assert(next[j / 5] == words@[i as int]);
                }
            }
            assert(text@ =~= mem_file_text(next));
        }
    }
    assert(words@.take(n as int) =~= words@);
    text
}

// ---------------------------------------------------------------------------
// Laws of the format
// ---------------------------------------------------------------------------
/// A word is written as exactly four upper-case hexadecimal digits, and
/// reading those digits back in base 16 gives the word.
pub proof fn law_hex_word_round_trip(word: u16)
    ensures
        hex_word(word).len() == 4,
        forall|i: int| 0 <= i < 4 ==> #[trigger] is_upper_hex_digit(hex_word(word)[i]),
        hex_word_value(hex_word(word)) == word,
{
    let w = word as int;
    assert(0 <= w / 4096 < 16);
    assert(0 <= (w / 256) % 16 < 16);
    assert(0 <= (w / 16) % 16 < 16);
    assert(0 <= w % 16 < 16);
    assert(4096 * (w / 4096) + 256 * ((w / 256) % 16) + 16 * ((w / 16) % 16) + w % 16 == w)
        by (nonlinear_arith)
        requires
            0 <= w < 65536,
    ;
}

/// The `.mem` text for `words` has one five-character line per word; line
/// `i` holds the four hexadecimal digits of `words[i]`, which read back as
/// `words[i]`, and ends with a newline.
pub proof fn law_mem_file_lines(words: Seq<u16>, i: int)
    requires
        0 <= i < words.len(),
    ensures
        mem_file_text(words).len() == 5 * words.len(),
        mem_file_text(words).subrange(5 * i, 5 * i + 4) == hex_word(words[i]),
        mem_file_text(words)[5 * i + 4] == '\n',
        hex_word_value(mem_file_text(words).subrange(5 * i, 5 * i + 4)) == words[i],
{
    let text = mem_file_text(words);
    assert forall|j: int| 0 <= j < 4 implies #[trigger] text.subrange(5 * i, 5 * i + 4)[j]
        == hex_word(words[i])[j] by {
        assert((5 * i + j) / 5 == i);
        assert((5 * i + j) % 5 == j);
    }
    assert(text.subrange(5 * i, 5 * i + 4) =~= hex_word(words[i]));
    assert((5 * i + 4) % 5 == 4);
    law_hex_word_round_trip(words[i]);
}

} // verus!
