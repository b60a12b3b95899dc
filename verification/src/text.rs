//! The text of the trace files: how a line falls into tokens, and which
//! tokens are numbers.

use vstd::prelude::*;

verus! {

/// Why a line of a trace file could not be read.
#[derive(Debug, PartialEq, Eq, Structural, Clone, Copy)]
pub enum Error {
    /// The line has fewer tokens than the record needs.
    TooFewTokens,
    /// A token that has to be a number is not one, or the number does not
    /// fit its field.
    NotANumber,
}

/// The byte is a blank: a space, a tab, a line feed, a form feed or a
/// carriage return.
pub open spec fn is_space(byte: u8) -> bool {
    byte == 32 || byte == 9 || byte == 10 || byte == 12 || byte == 13
}

/// The byte is one of the digits `0` to `9`.
pub open spec fn is_digit(byte: u8) -> bool {
    48 <= byte <= 57
}

/// The tokens of a line: its longest runs of bytes that are not blanks, in
/// their order.
pub open spec fn tokens(line: Seq<u8>) -> Seq<Seq<u8>>
    decreases line.len(),
{
    if line.len() == 0 {
        Seq::empty()
    } else if is_space(line.last()) {
        tokens(line.drop_last())
    } else if line.len() == 1 || is_space(line[line.len() - 2]) {
        tokens(line.drop_last()).push(seq![line.last()])
    } else {
        let before = tokens(line.drop_last());
        before.drop_last().push(before.last().push(line.last()))
    }
}

/// The number that a run of digits spells.
pub open spec fn digits_value(digits: Seq<u8>) -> nat
    decreases digits.len(),
{
    if digits.len() == 0 {
        0
    } else {
        digits_value(digits.drop_last()) * 10 + (digits.last() - 48) as nat
    }
}

/// There is at least one byte, and every byte is a digit.
pub open spec fn all_digits(digits: Seq<u8>) -> bool {
    digits.len() > 0 && forall|i: int| 0 <= i < digits.len() ==> is_digit(#[trigger] digits[i])
}

/// The number that a token spells without a sign or after a `+`, if it spells
/// one.
pub open spec fn unsigned_value(token: Seq<u8>) -> Option<nat> {
    let digits = if token.len() > 0 && token[0] == 43 {
        token.skip(1)
    } else {
        token
    };
    if all_digits(digits) {
        Some(digits_value(digits))
    } else {
        None
    }
}

/// The number that a token spells without a sign or after a `+` or a `-`, if
/// it spells one.
pub open spec fn signed_value(token: Seq<u8>) -> Option<int> {
    if token.len() > 0 && token[0] == 45 {
        if all_digits(token.skip(1)) {
            Some(-(digits_value(token.skip(1)) as int))
        } else {
            None
        }
    } else {
        match unsigned_value(token) {
            Some(value) => Some(value as int),
            None => None,
        }
    }
}

/// The token as a number of 32 bits without sign, if it spells one that
/// fits.
pub open spec fn u32_of(token: Seq<u8>) -> Option<u32> {
    match unsigned_value(token) {
        Some(value) if value <= u32::MAX => Some(value as u32),
        _ => None,
    }
}

/// The token as a signed number of 8 bits, if it spells one that fits.
pub open spec fn i8_of(token: Seq<u8>) -> Option<i8> {
    match signed_value(token) {
        Some(value) if -128 <= value <= 127 => Some(value as i8),
        _ => None,
    }
}

/// The bytes of each of the vectors.
pub open spec fn views(found: Seq<Vec<u8>>) -> Seq<Seq<u8>> {
    Seq::new(found.len(), |k: int| found[k]@)
}

/// Whether the byte is a blank.
pub fn space(byte: u8) -> (result: bool)
    ensures
        result == is_space(byte),
{
    byte == 32 || byte == 9 || byte == 10 || byte == 12 || byte == 13
}

/// The tokens of the line.
pub fn split(line: &[u8]) -> (found: Vec<Vec<u8>>)
    ensures
        views(found@) == tokens(line@),
{
    let mut found: Vec<Vec<u8>> = Vec::new();
    let mut in_token = false;
    let mut i: usize = 0;
    assert(line@.take(0) =~= Seq::<u8>::empty());
    assert(views(found@) =~= Seq::<Seq<u8>>::empty());
    while i < line.len()
        invariant
            i <= line.len(),
            views(found@) == tokens(line@.take(i as int)),
            in_token == (i > 0 && !is_space(line@[i - 1])),
            in_token ==> found@.len() > 0,
        decreases line.len() - i,
    {
        let byte = line[i];
        let ghost before = views(found@);
        let ghost held = found@;
        let ghost prefix = line@.take(i + 1);
        assert(prefix.drop_last() =~= line@.take(i as int));
        assert(prefix.last() == byte);
        if space(byte) {
            in_token = false;
        } else if !in_token {
            let mut token: Vec<u8> = Vec::new();
            token.push(byte);
            found.push(token);
            in_token = true;
            assert(views(found@) =~= before.push(seq![byte]));
        } else {
            let last = found.len() - 1;
            found[last].push(byte);
            assert(found@.len() == held.len());
            assert forall|k: int| 0 <= k < last implies found@[k] == held[k] by {}
            assert(found@[last as int]@ == held[last as int]@.push(byte));
            assert(views(found@) =~= before.drop_last().push(before.last().push(byte)));
        }
        i += 1;
    }
    assert(line@.take(i as int) =~= line@);
    found
}

/// The number that the bytes of `token` from `start` on spell, where they are
/// digits, there is at least one, and the number fits in 32 bits.
fn magnitude(token: &[u8], start: usize) -> (result: Option<u32>)
    requires
        start <= token.len(),
    ensures
        result == if all_digits(token@.skip(start as int)) && digits_value(
            token@.skip(start as int),
        ) <= u32::MAX {
            Some(digits_value(token@.skip(start as int)) as u32)
        } else {
            None
        },
{
    let ghost digits = token@.skip(start as int);
    if start == token.len() {
        return None;
    }
    let mut value: u64 = 0;
    let mut over = false;
    let mut i: usize = start;
    assert(digits.take(0) =~= Seq::<u8>::empty());
    while i < token.len()
        invariant
            start <= i <= token.len(),
            digits == token@.skip(start as int),
            forall|j: int| 0 <= j < i - start ==> is_digit(#[trigger] digits[j]),
            !over ==> value == digits_value(digits.take(i - start)) && value <= u32::MAX,
            over ==> digits_value(digits.take(i - start)) > u32::MAX,
        decreases token.len() - i,
    {
        let byte = token[i];
        assert(digits[i - start] == byte);
        if byte < 48 || byte > 57 {
            return None;
        }
        let ghost prefix = digits.take(i - start + 1);
        assert(prefix.drop_last() =~= digits.take(i - start));
        assert(prefix.last() == byte);
        if !over {
            value = value * 10 + (byte - 48) as u64;
            if value > u32::MAX as u64 {
                over = true;
            }
        }
        i += 1;
    }
    assert(digits.take(i - start) =~= digits);
    if over {
        None
    } else {
        Some(value as u32)
    }
}

/// Reads a token as a number of 32 bits without sign: digits, with or without
/// a `+` in front.
pub fn parse_u32(token: &[u8]) -> (result: Option<u32>)
    ensures
        result == u32_of(token@),
{
    if token.len() > 0 && token[0] == 43 {
        magnitude(token, 1)
    } else {
        assert(token@.skip(0) =~= token@);
        magnitude(token, 0)
    }
}

/// Reads a token as a signed number of 8 bits: digits, with or without a `+`
/// or a `-` in front.
pub fn parse_i8(token: &[u8]) -> (result: Option<i8>)
    ensures
        result == i8_of(token@),
{
    if token.len() > 0 && token[0] == 45 {
        match magnitude(token, 1) {
            Some(value) if value <= 128 => Some((0 - value as i16) as i8),
            _ => None,
        }
    } else {
        let start: usize = if token.len() > 0 && token[0] == 43 {
            1
        } else {
            0
        };
        assert(token@.skip(0) =~= token@);
        match magnitude(token, start) {
            Some(value) if value <= 127 => Some(value as i8),
            _ => None,
        }
    }
}

/// The character of the digit `digit`.
pub open spec fn digit_char(digit: nat) -> char {
    if digit == 0 {
        '0'
    } else if digit == 1 {
        '1'
    } else if digit == 2 {
        '2'
    } else if digit == 3 {
        '3'
    } else if digit == 4 {
        '4'
    } else if digit == 5 {
        '5'
    } else if digit == 6 {
        '6'
    } else if digit == 7 {
        '7'
    } else if digit == 8 {
        '8'
    } else {
        '9'
    }
}

/// The number in decimal digits, the most significant first, without
/// leading zeros.
pub open spec fn decimal(value: nat) -> Seq<char>
    decreases value,
{
    if value < 10 {
        seq![digit_char(value)]
    } else {
        decimal(value / 10).push(digit_char(value % 10))
    }
}

/// The number in decimal digits, with zeros in front where it has fewer
/// than `width` digits.
pub open spec fn padded(value: nat, width: nat) -> Seq<char> {
    let digits = decimal(value);
    if digits.len() >= width {
        digits
    } else {
        Seq::new((width - digits.len()) as nat, |i: int| '0') + digits
    }
}

/// The text of one digit.
fn digit_text(digit: u8) -> (text: &'static str)
    requires
        digit < 10,
    ensures
        text@ == seq![digit_char(digit as nat)],
{
    proof {
        reveal_strlit("0");
        reveal_strlit("1");
        reveal_strlit("2");
        reveal_strlit("3");
        reveal_strlit("4");
        reveal_strlit("5");
        reveal_strlit("6");
        reveal_strlit("7");
        reveal_strlit("8");
        reveal_strlit("9");
    }
    let text = if digit == 0 {
        "0"
    } else if digit == 1 {
        "1"
    } else if digit == 2 {
        "2"
    } else if digit == 3 {
        "3"
    } else if digit == 4 {
        "4"
    } else if digit == 5 {
        "5"
    } else if digit == 6 {
        "6"
    } else if digit == 7 {
        "7"
    } else if digit == 8 {
        "8"
    } else {
        "9"
    };
    assert(text@ =~= seq![digit_char(digit as nat)]);
    text
}

/// The digits of `low`, which holds the least significant digit first, as
/// characters with the most significant first.
spec fn high_first(low: Seq<u8>) -> Seq<char> {
    Seq::new(low.len(), |i: int| digit_char(low[low.len() - 1 - i] as nat))
}

/// The digits of a number that is not zero; none for zero.
spec fn leading(value: nat) -> Seq<char> {
    if value == 0 {
        Seq::empty()
    } else {
        decimal(value)
    }
}

/// Appends to `text` the number in decimal digits, with zeros in front where
/// it has fewer than `width` digits.
pub fn push_padded(text: &mut String, value: usize, width: usize)
    ensures
        final(text)@ == old(text)@ + padded(value as nat, width as nat),
{
    let mut low: Vec<u8> = Vec::new();
    let mut rest = value;
    low.push((rest % 10) as u8);
    rest = rest / 10;
    assert(high_first(low@) =~= seq![digit_char((value % 10) as nat)]);
    assert(decimal(value as nat) =~= leading(rest as nat) + high_first(low@));
    while rest > 0
        invariant
            low@.len() > 0,
            forall|k: int| 0 <= k < low@.len() ==> #[trigger] low@[k] < 10,
            decimal(value as nat) == leading(rest as nat) + high_first(low@),
        decreases rest,
    {
        let ghost before = low@;
        let digit = (rest % 10) as u8;
        low.push(digit);
        assert(high_first(low@) =~= seq![digit_char(digit as nat)] + high_first(before));
        assert(decimal(rest as nat) =~= leading((rest / 10) as nat) + seq![
            digit_char(digit as nat),
        ]);
        assert(leading((rest / 10) as nat) + (seq![digit_char(digit as nat)] + high_first(before))
            =~= (leading((rest / 10) as nat) + seq![digit_char(digit as nat)]) + high_first(
            before,
        ));
        rest = rest / 10;
    }
    assert(decimal(value as nat) =~= high_first(low@));
    let ghost start = text@;
    let mut zeros: usize = low.len();
    while zeros < width
        invariant
            low@.len() <= zeros,
            zeros <= width || zeros == low@.len(),
            text@ == start + Seq::new((zeros - low@.len()) as nat, |i: int| '0'),
        decreases width - zeros,
    {
        let ghost before = text@;
        proof {
            reveal_strlit("0");
        }
        text.append("0");
        zeros += 1;
        assert(text@ =~= start + Seq::new((zeros - low@.len()) as nat, |i: int| '0'));
    }
    let ghost filled = text@;
    assert(filled =~= start + Seq::new((zeros - low@.len()) as nat, |i: int| '0'));
    let mut left: usize = low.len();
    while left > 0
        invariant
            left <= low@.len(),
            forall|k: int| 0 <= k < low@.len() ==> #[trigger] low@[k] < 10,
            text@ == filled + high_first(low@).take(low@.len() - left),
        decreases left,
    {
        left -= 1;
        let ghost before = text@;
        text.append(digit_text(low[left]));
        assert(text@ =~= filled + high_first(low@).take(low@.len() - left));
    }
    assert(high_first(low@).take(low@.len() as int) =~= high_first(low@));
    proof {
        assert(decimal(value as nat).len() == low@.len());
        if low@.len() >= width as nat {
            assert(zeros == low@.len());
            assert(filled =~= start);
        } else {
            assert(zeros == width);
        }
    }
    assert(text@ =~= start + padded(value as nat, width as nat));
}

} // verus!
