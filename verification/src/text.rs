//! Text building: number formatting and concatenation with exact results.
use vstd::prelude::*;
use vstd::string::StringExecFns;
use vstd::utf8::encode_utf8;

verus! {

/// The character that stands for a digit below sixteen, in lower case.
pub open spec fn digit_char(digit: nat) -> char {
    if digit < 10 {
        (48 + digit) as char
    } else {
        (87 + digit) as char
    }
}

/// The digits of `number` in `base`, most significant first, without leading zeros.
pub open spec fn digits_of(number: nat, base: nat) -> Seq<char>
    decreases number,
{
    if base < 2 || number < base {
        seq![digit_char(number)]
    } else {
        proof {
            assert(number / base < number) by (nonlinear_arith)
                requires
                    base >= 2,
                    number >= base,
            ;
        }
        digits_of(number / base, base).push(digit_char(number % base))
    }
}

/// `number` written in base ten.
pub open spec fn decimal_digits(number: nat) -> Seq<char> {
    digits_of(number, 10)
}

/// `number` written in base ten, with a minus sign where it is negative.
pub open spec fn signed_digits(number: int) -> Seq<char> {
    if number < 0 {
        seq!['-'] + decimal_digits((-number) as nat)
    } else {
        decimal_digits(number as nat)
    }
}

fn digit_text(digit: u64) -> (text: &'static str)
    requires
        digit < 16,
    ensures
        text@ == seq![digit_char(digit as nat)],
{
    proof {
        reveal_strlit("0");
        reveal_strlit("1");
        reveal_strlit("2");
        reveal_strlit("3");
        reveal_strlit("4");
        reveal_strlit("5");
        reveal_strlit("6");
        reveal_strlit("7");
        reveal_strlit("8");
        reveal_strlit("9");
        reveal_strlit("a");
        reveal_strlit("b");
        reveal_strlit("c");
        reveal_strlit("d");
        reveal_strlit("e");
        reveal_strlit("f");
    }
    match digit {
        0 => "0",
        1 => "1",
        2 => "2",
        3 => "3",
        4 => "4",
        5 => "5",
        6 => "6",
        7 => "7",
        8 => "8",
        9 => "9",
        10 => "a",
        11 => "b",
        12 => "c",
        13 => "d",
        14 => "e",
        _ => "f",
    }
}

fn digits(number: u64, base: u64) -> (text: String)
    requires
        2 <= base <= 16,
    ensures
        text@ == digits_of(number as nat, base as nat),
    decreases number,
{
    if number < base {
        digit_text(number).to_owned()
    } else {
        proof {
            assert(number / base < number) by (nonlinear_arith)
                requires
                    base >= 2,
                    number >= base,
            ;
        }
        let mut text = digits(number / base, base);
        text.append(digit_text(number % base));
        text
    }
}

/// `number` in base ten.
pub fn decimal(number: u64) -> (text: String)
    ensures
        text@ == decimal_digits(number as nat),
{
    digits(number, 10)
}

/// `number` in base sixteen, lower case, without leading zeros.
pub fn hexadecimal(number: u64) -> (text: String)
    ensures
        text@ == digits_of(number as nat, 16),
{
    digits(number, 16)
}

/// `number` in base ten, with a minus sign where it is negative.
pub fn signed_decimal(number: i32) -> (text: String)
    ensures
        text@ == signed_digits(number as int),
{
    if number < 0 {
        let magnitude: u64 = (-(number as i64)) as u64;
        let mut text = "-".to_owned();
        text.append(decimal(magnitude).as_str());
        proof {
            reveal_strlit("-");
            assert("-"@ =~= seq!['-']);
        }
        text
    } else {
        decimal(number as u64)
    }
}

/// `first` followed by `second`.
pub fn joined(first: &str, second: &str) -> (text: String)
    ensures
        text@ == first@ + second@,
{
    let mut text = first.to_owned();
    text.append(second);
    text
}

/// `text` followed by `label` and the decimal form of `number`.
pub fn push_labelled(text: &mut String, label: &str, number: u64)
    ensures
        final(text)@ == old(text)@ + label@ + decimal_digits(number as nat),
{
    text.append(label);
    text.append(decimal(number).as_str());
}

/// `text` followed by `label` and the decimal form of a signed `number`.
pub fn push_labelled_signed(text: &mut String, label: &str, number: i32)
    ensures
        final(text)@ == old(text)@ + label@ + signed_digits(number as int),
{
    text.append(label);
    text.append(signed_decimal(number).as_str());
}

/// Two numbers with the same decimal form are equal.
pub proof fn lemma_decimal_injective(first: nat, second: nat)
    requires
        decimal_digits(first) == decimal_digits(second),
    ensures
        first == second,
    decreases first,
{
    let digits = decimal_digits(first);
    if first >= 10 {
        assert(digits.drop_last() =~= digits_of(first / 10, 10));
        assert(digits.last() == digit_char(first % 10));
    }
    if second >= 10 {
        assert(digits.drop_last() =~= digits_of(second / 10, 10));
        assert(digits.last() == digit_char(second % 10));
    }
    lemma_digits_nonempty(first / 10);
    lemma_digits_nonempty(second / 10);
    if first >= 10 && second >= 10 {
        lemma_decimal_injective(first / 10, second / 10);
    } else if first < 10 && second < 10 {
        assert(digits[0] == digit_char(first));
        assert(digits[0] == digit_char(second));
    } else {
        assert(digits.drop_last().len() == 0);
    }
}

proof fn lemma_digits_nonempty(number: nat)
    ensures
        decimal_digits(number).len() >= 1,
    decreases number,
{
}

/// The elements of `parts` with a comma between each two neighbours.
pub open spec fn comma_joined(parts: Seq<Seq<char>>) -> Seq<char>
    decreases parts.len(),
{
    if parts.len() == 0 {
        Seq::empty()
    } else if parts.len() == 1 {
        parts[0]
    } else {
        comma_joined(parts.drop_last()) + ","@ + parts.last()
    }
}

/// The texts of a sequence of strings.
pub open spec fn texts(strings: Seq<String>) -> Seq<Seq<char>> {
    strings.map_values(|text: String| text@)
}

/// The comma-separated list of `parts`.
pub fn join_with_commas(parts: &Vec<String>) -> (text: String)
    ensures
        text@ == comma_joined(texts(parts@)),
{
    let mut text = String::new();
    let mut index: usize = 0;
    while index < parts.len()
        invariant
            index <= parts.len(),
            text@ == comma_joined(texts(parts@.take(index as int))),
        decreases parts.len() - index,
    {
        if index > 0 {
            text.append(",");
        }
        text.append(parts[index].as_str());
        proof {
            let before = texts(parts@.take(index as int));
            let after = texts(parts@.take(index + 1));
            assert(after.drop_last() =~= before);
            assert(after.last() == parts@[index as int]@);
            if index == 0 {
                assert(after[0] == parts@[0]@);
                assert(before =~= Seq::empty());
                assert(Seq::<char>::empty() + parts@[0]@ =~= parts@[0]@);
            }
        }
        index = index + 1;
    }
    assert(parts@.take(parts.len() as int) =~= parts@);
    text
}

/// Whether two texts are the same.
pub fn same_text(first: &str, second: &str) -> (same: bool)
    ensures
        same == (first@ == second@),
{
    let left = first.as_bytes();
    let right = second.as_bytes();
    if left.len() != right.len() {
        return false;
    }
    let mut index: usize = 0;
    while index < left.len()
        invariant
            index <= left.len() == right.len(),
            left@ == encode_utf8(first@),
            right@ == encode_utf8(second@),
            left@.take(index as int) == right@.take(index as int),
        decreases left.len() - index,
    {
        if left[index] != right[index] {
            return false;
        }
        assert(left@.take(index + 1) =~= left@.take(index as int).push(left@[index as int]));
        assert(right@.take(index + 1) =~= right@.take(index as int).push(right@[index as int]));
        index = index + 1;
    }
    proof {
        assert(left@.take(index as int) =~= left@);
        assert(right@.take(index as int) =~= right@);
        vstd::utf8::encode_utf8_decode_utf8(first@);
        vstd::utf8::encode_utf8_decode_utf8(second@);
    }
    true
}

/// Whether a character has the Unicode property `White_Space`.
pub open spec fn is_white_space(character: char) -> bool {
    let code = character as u32;
    (9 <= code <= 13) || code == 0x20 || code == 0x85 || code == 0xa0 || code == 0x1680 || (0x2000
        <= code <= 0x200a) || code == 0x2028 || code == 0x2029 || code == 0x202f || code == 0x205f
        || code == 0x3000
}

/// A text without the white space that it begins with.
pub open spec fn trimmed_start(text: Seq<char>) -> Seq<char>
    decreases text.len(),
{
    if text.len() > 0 && is_white_space(text[0]) {
        trimmed_start(text.drop_first())
    } else {
        text
    }
}

/// A text without the white space that it ends with.
pub open spec fn trimmed_end(text: Seq<char>) -> Seq<char>
    decreases text.len(),
{
    if text.len() > 0 && is_white_space(text.last()) {
        trimmed_end(text.drop_last())
    } else {
        text
    }
}

/// A text without the white space around it.
pub open spec fn trimmed(text: Seq<char>) -> Seq<char> {
    trimmed_end(trimmed_start(text))
}

fn has_white_space_property(character: char) -> (white: bool)
    ensures
        white == is_white_space(character),
{
    let code: u32 = character as u32;
    (9 <= code && code <= 13) || code == 0x20 || code == 0x85 || code == 0xa0 || code == 0x1680 || (
    0x2000 <= code && code <= 0x200a) || code == 0x2028 || code == 0x2029 || code == 0x202f || code
        == 0x205f || code == 0x3000
}

/// A text without the white space around it.
pub fn trim(text: &str) -> (inner: String)
    ensures
        inner@ == trimmed(text@),
{
    let length: usize = text.unicode_len();
    let mut start: usize = 0;
    assert(text@.skip(0) =~= text@);
    while start < length && has_white_space_property(text.get_char(start))
        invariant
            start <= length == text@.len(),
            trimmed_start(text@) == trimmed_start(text@.skip(start as int)),
        decreases length - start,
    {
        assert(text@.skip(start as int).drop_first() =~= text@.skip(start + 1));
        start = start + 1;
    }
    let mut end: usize = length;
    assert(text@.skip(start as int) =~= text@.subrange(start as int, length as int));
    while end > start && has_white_space_property(text.get_char(end - 1))
        invariant
            start <= end <= length == text@.len(),
            trimmed(text@) == trimmed_end(text@.subrange(start as int, end as int)),
        decreases end - start,
    {
        assert(text@.subrange(start as int, end as int).drop_last() =~= text@.subrange(
            start as int,
            end - 1,
        ));
        end = end - 1;
    }
    text.substring_char(start, end).to_owned()
}

} // verus!
