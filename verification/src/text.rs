//! Texts as bytes: the engine reads and writes plain ASCII.

use vstd::prelude::*;
use vstd::string::{StrSliceExecFns, StringExecFns, StringSliceAdditionalSpecFns};

verus! {

/// The characters of a text of bytes, each byte read as the character with its number.
pub open spec fn bytes_as_chars(bytes: Seq<u8>) -> Seq<char> {
    bytes.map_values(|b: u8| b as char)
}

/// Collects bytes into a `String`, each byte as the character with its number, through
/// `char::from` and `Iterator::collect`.
#[verifier::external_body]
pub(crate) fn string_of_bytes(bytes: &Vec<u8>) -> (s: String)
    ensures
        s@ == bytes_as_chars(bytes@),
{
    bytes.iter().map(|b| char::from(*b)).collect()
}

/// The classes of bytes that the reader passes over in one go.
#[derive(Clone, Copy, Debug, PartialEq, Eq, Structural)]
pub enum ByteClass {
    /// White space.
    Space,
    /// Anything but white space: the bytes of a word.
    Word,
    /// What stands between two pairs of moves: white space, digits and dots.
    Noise,
}

/// Whether a byte, read as a character, is white space.
pub open spec fn is_space_byte(b: u8) -> bool {
    (9 <= b <= 13) || b == 32 || b == 0x85 || b == 0xA0
}

/// Whether a byte, read as a character, is a letter.
pub open spec fn is_letter_byte(b: u8) -> bool {
    (65 <= b <= 90) || (97 <= b <= 122) || b == 0xAA || b == 0xB5 || b == 0xBA || (0xC0 <= b
        <= 0xD6) || (0xD8 <= b <= 0xF6) || 0xF8 <= b
}

/// Whether a byte is a decimal digit.
pub open spec fn is_digit_byte(b: u8) -> bool {
    48 <= b <= 57
}

/// Whether a byte belongs to a class.
pub open spec fn in_class(b: u8, class: ByteClass) -> bool {
    match class {
        ByteClass::Space => is_space_byte(b),
        ByteClass::Word => !is_space_byte(b),
        ByteClass::Noise => is_space_byte(b) || is_digit_byte(b) || b == 46,
    }
}

/// The first index at or after `pos` whose byte is not of the class, or the length of the
/// text if every byte from `pos` on is.
pub open spec fn skip_class(input: Seq<u8>, pos: int, class: ByteClass) -> int
    decreases input.len() - pos,
{
    if pos < 0 || pos >= input.len() {
        input.len() as int
    } else if !in_class(input[pos], class) {
        pos
    } else {
        skip_class(input, pos + 1, class)
    }
}

/// Where `skip_class` stops: between `pos` and the end of the text, after bytes of the
/// class only, and before a byte that is not of the class.
pub proof fn lemma_skip_class(input: Seq<u8>, pos: int, class: ByteClass)
    requires
        0 <= pos <= input.len(),
    ensures
        pos <= skip_class(input, pos, class) <= input.len(),
        forall|i: int| pos <= i < skip_class(input, pos, class) ==> in_class(#[trigger] input[i], class),
        skip_class(input, pos, class) < input.len() ==> !in_class(
            input[skip_class(input, pos, class)],
            class,
        ),
    decreases input.len() - pos,
{
    if pos < input.len() && in_class(input[pos], class) {
        lemma_skip_class(input, pos + 1, class);
    }
}

/// The words of a text from `pos` on: the runs of bytes that are not white space.
pub open spec fn words_from(input: Seq<u8>, pos: int) -> Seq<Seq<u8>>
    decreases input.len() - pos,
{
    let start = skip_class(input, pos, ByteClass::Space);
    let end = skip_class(input, start, ByteClass::Word);
    if 0 <= pos <= start < end <= input.len() {
        seq![input.subrange(start, end)] + words_from(input, end)
    } else {
        Seq::empty()
    }
}

/// The words of a text, as texts.
pub open spec fn words_of(input: Seq<u8>) -> Seq<Seq<char>> {
    words_from(input, 0).map_values(|w: Seq<u8>| bytes_as_chars(w))
}

/// The texts of a list of strings.
pub open spec fn texts(words: Seq<String>) -> Seq<Seq<char>> {
    words.map_values(|w: String| w@)
}

/// Texts put together with one space between each two.
pub open spec fn joined(words: Seq<Seq<char>>) -> Seq<char>
    decreases words.len(),
{
    if words.len() == 0 {
        Seq::empty()
    } else if words.len() == 1 {
        words[0]
    } else {
        joined(words.drop_last()) + seq![' '] + words.last()
    }
}

/// The number that a text of decimal digits stands for, where it has at least one digit,
/// only digits, and stands for a number below 2^64.
pub open spec fn decimal(digits: Seq<u8>) -> Option<int>
    decreases digits.len(),
{
    if digits.len() == 0 {
        None
    } else if !is_digit_byte(digits.last()) {
        None
    } else if digits.len() == 1 {
        Some(digits.last() - 48)
    } else {
        match decimal(digits.drop_last()) {
            Some(n) => if n * 10 + (digits.last() - 48) <= u64::MAX {
                Some(n * 10 + (digits.last() - 48))
            } else {
                None
            },
            None => None,
        }
    }
}

/// Splits a line into its words.
pub fn split_words(line: &str) -> (words: Vec<String>)
    ensures
        texts(words@) == words_of(line.spec_bytes()),
{
    let bytes = line.as_bytes_vec();
    let mut words: Vec<String> = Vec::new();
    let mut pos: usize = 0;
    let ghost mut read: Seq<Seq<u8>> = Seq::empty();
    loop
        invariant_except_break
            words_from(bytes@, 0) == read + words_from(bytes@, pos as int),
        invariant
            pos <= bytes@.len(),
            bytes@ == line.spec_bytes(),
            words@.len() == read.len(),
            forall|j: int| 0 <= j < read.len() ==> (#[trigger] words@[j])@ == bytes_as_chars(read[j]),
        ensures
            words_from(bytes@, 0) == read,
        decreases bytes@.len() - pos,
    {
        let ghost from = pos as int;
        let mut start = pos;
        while start < bytes.len() && is_space(bytes[start])
            invariant
                pos <= start <= bytes@.len(),
                skip_class(bytes@, pos as int, ByteClass::Space) == skip_class(
                    bytes@,
                    start as int,
                    ByteClass::Space,
                ),
            decreases bytes@.len() - start,
        {
            start += 1;
        }
        let mut end = start;
        let mut word: Vec<u8> = Vec::new();
        while end < bytes.len() && !is_space(bytes[end])
            invariant
                start <= end <= bytes@.len(),
                skip_class(bytes@, start as int, ByteClass::Word) == skip_class(
                    bytes@,
                    end as int,
                    ByteClass::Word,
                ),
                word@ == bytes@.subrange(start as int, end as int),
            decreases bytes@.len() - end,
        {
            word.push(bytes[end]);
            end += 1;
        }
        if end == start {
            break ;
        }
        let text = string_of_bytes(&word);
        proof {
            read = read.push(word@);
        }
        words.push(text);
        pos = end;
    }
    words
}

/// Whether a byte, read as a character, is white space.
pub fn is_space(b: u8) -> (r: bool)
    ensures
        r == is_space_byte(b),
{
    (9 <= b && b <= 13) || b == 32 || b == 0x85 || b == 0xA0
}

/// Whether two texts are the same.
pub fn same_text(a: &str, b: &str) -> (r: bool)
    ensures
        r == (a@ == b@),
{
    let left = String::from_str(a);
    let right = String::from_str(b);
    left == right
}

/// Puts the words from number `from` up to number `to` together, with one space between
/// each two.
pub fn join_words(words: &Vec<String>, from: usize, to: usize) -> (line: String)
    requires
        from <= to <= words@.len(),
    ensures
        line@ == joined(texts(words@).subrange(from as int, to as int)),
{
    let mut line = String::new();
    let mut i = from;
    let ghost all = texts(words@);
    proof {
        reveal_strlit(" ");
    }
    while i < to
        invariant
            from <= i <= to <= words@.len(),
            all == texts(words@),
            line@ == joined(all.subrange(from as int, i as int)),
            " "@ == seq![' '],
        decreases to - i,
    {
        assert(all.subrange(from as int, i + 1).drop_last() =~= all.subrange(
            from as int,
            i as int,
        ));
        if i > from {
            line.append(" ");
        }
        line.append(words[i].as_str());
        i += 1;
    }
    line
}

/// Reads a number in decimal digits.
pub fn parse_number(word: &str) -> (n: Option<u64>)
    ensures
        match (n, decimal(word.spec_bytes())) {
            (Some(a), Some(b)) => a == b,
            (None, None) => true,
            _ => false,
        },
{
    let bytes = word.as_bytes_vec();
    if bytes.len() == 0 {
        return None;
    }
    let mut value: u64 = 0;
    let mut i: usize = 0;
    while i < bytes.len()
        invariant
            i <= bytes@.len(),
            bytes@ == word.spec_bytes(),
            i > 0 ==> decimal(bytes@.take(i as int)) == Some(value as int),
            i == 0 ==> value == 0,
        decreases bytes@.len() - i,
    {
        let b = bytes[i];
        assert(bytes@.take(i + 1).drop_last() =~= bytes@.take(i as int));
        if !(48 <= b && b <= 57) {
            proof {
                lemma_decimal_rejects(bytes@, i as int);
            }
            return None;
        }
        let digit = (b - 48) as u64;
        if value > (u64::MAX - digit) / 10 {
            proof {
                lemma_decimal_overflows(bytes@, i as int);
            }
            return None;
        }
        value = value * 10 + digit;
        i += 1;
    }
    assert(bytes@.take(bytes@.len() as int) =~= bytes@);
    Some(value)
}

proof fn lemma_decimal_prefix(digits: Seq<u8>, i: int)
    requires
        0 < i <= digits.len(),
        decimal(digits.take(i)).is_none(),
    ensures
        decimal(digits).is_none(),
    decreases digits.len() - i,
{
    if i < digits.len() {
        assert(digits.take(i + 1).drop_last() =~= digits.take(i));
        lemma_decimal_prefix(digits, i + 1);
    } else {
        assert(digits.take(i) =~= digits);
    }
}

proof fn lemma_decimal_rejects(digits: Seq<u8>, i: int)
    requires
        0 <= i < digits.len(),
        !is_digit_byte(digits[i]),
    ensures
        decimal(digits).is_none(),
{
    lemma_decimal_prefix(digits, i + 1);
}

proof fn lemma_decimal_overflows(digits: Seq<u8>, i: int)
    requires
        0 < i < digits.len(),
        is_digit_byte(digits[i]),
        decimal(digits.take(i)) matches Some(n) && n * 10 + (digits[i] - 48) > u64::MAX,
    ensures
        decimal(digits).is_none(),
{
    assert(digits.take(i + 1).drop_last() =~= digits.take(i));
    lemma_decimal_prefix(digits, i + 1);
}

} // verus!
