//! Numbers as text, and back.
use vstd::prelude::*;

verus! {

/// `String::push` appends the character.
pub assume_specification[ String::push ](text: &mut String, ch: char)
    ensures
        final(text)@ == old(text)@.push(ch),
;

/// The digit with the value `d`, which is less than sixteen.
pub open spec fn digit(d: nat) -> char {
    if d < 10 {
        (d + 0x30) as char
    } else {
        (d + 0x57) as char
    }
}

/// The numeral of `n`, without leading zeros.
pub open spec fn numeral(n: nat, base: nat) -> Seq<char>
    decreases n,
{
    if n < base || base < 2 {
        seq![digit(n)]
    } else {
        proof {
            assert(n / base < n) by (nonlinear_arith)
                requires
                    n >= base,
                    base >= 2,
            ;
        }
        numeral(n / base, base).push(digit(n % base))
    }
}

/// The decimal numeral of `n`.
pub open spec fn decimal(n: nat) -> Seq<char> {
    numeral(n, 10)
}

/// The hexadecimal numeral of `n`, in lower case.
pub open spec fn hex(n: nat) -> Seq<char> {
    numeral(n, 16)
}

/// `count` times the same character.
pub open spec fn repeated(ch: char, count: nat) -> Seq<char> {
    Seq::new(count, |i: int| ch)
}

/// The text with characters in front, so that it is at least `width` long.
pub open spec fn pad_left(text: Seq<char>, ch: char, width: nat) -> Seq<char> {
    if text.len() < width {
        repeated(ch, (width - text.len()) as nat) + text
    } else {
        text
    }
}

/// The text with spaces behind, so that it is at least `width` long.
pub open spec fn pad_right(text: Seq<char>, width: nat) -> Seq<char> {
    if text.len() < width {
        text + repeated(' ', (width - text.len()) as nat)
    } else {
        text
    }
}

/// The hexadecimal numeral of `n` with leading zeros up to `width` digits.
pub open spec fn hex_padded(n: nat, width: nat) -> Seq<char> {
    pad_left(hex(n), '0', width)
}

/// The digit with the value `d`.
fn digit_of(d: u64) -> (ch: char)
    requires
        d < 16,
    ensures
        ch == digit(d as nat),
{
    if d < 10 {
        (d as u8 + 0x30) as char
    } else {
        (d as u8 + 0x57) as char
    }
}

/// Appends a numeral.
fn push_numeral(text: &mut String, n: u64, base: u64)
    requires
        base == 10 || base == 16,
    ensures
        final(text)@ == old(text)@ + numeral(n as nat, base as nat),
    decreases n,
{
    let ghost before = text@;
    if n < base {
        text.push(digit_of(n));
        assert(text@ =~= before + numeral(n as nat, base as nat));
    } else {
        assert(n / base < n) by (nonlinear_arith)
            requires
                n >= base,
                base >= 2,
        ;
        assert(n % base < base) by (nonlinear_arith)
            requires
                base >= 2,
        ;
        push_numeral(text, n / base, base);
        text.push(digit_of(n % base));
        assert(text@ =~= before + numeral(n as nat, base as nat));
    }
}

/// Appends the decimal numeral of `n`.
pub fn push_decimal(text: &mut String, n: u64)
    ensures
        final(text)@ == old(text)@ + decimal(n as nat),
{
    push_numeral(text, n, 10);
}

/// Appends the hexadecimal numeral of `n`.
pub fn push_hex(text: &mut String, n: u64)
    ensures
        final(text)@ == old(text)@ + hex(n as nat),
{
    push_numeral(text, n, 16);
}

/// Appends the same character `count` times.
pub fn push_repeated(text: &mut String, ch: char, count: usize)
    ensures
        final(text)@ == old(text)@ + repeated(ch, count as nat),
{
    let ghost before = text@;
    let mut i: usize = 0;
    assert(text@ =~= before + repeated(ch, 0));
    while i < count
        invariant
            i <= count,
            text@ == before + repeated(ch, i as nat),
        decreases count - i,
    {
        text.push(ch);
        i = i + 1;
        assert(text@ =~= before + repeated(ch, i as nat));
    }
}

/// Appends the hexadecimal numeral of `n` with leading zeros up to `width`
/// digits.
pub fn push_hex_padded(text: &mut String, n: u64, width: usize)
    ensures
        final(text)@ == old(text)@ + hex_padded(n as nat, width as nat),
{
    let ghost before = text@;
    let mut numeral_text: String = String::new();
    push_hex(&mut numeral_text, n);
    assert(numeral_text@ =~= hex(n as nat));
    let len: usize = numeral_text.as_str().unicode_len();
    if len < width {
        push_repeated(text, '0', width - len);
    }
    text.append(numeral_text.as_str());
    assert(text@ =~= before + hex_padded(n as nat, width as nat));
}

/// The two texts are the same.
pub fn same(a: &str, b: &str) -> (equal: bool)
    ensures
        equal == (a@ == b@),
{
    let len: usize = a.unicode_len();
    if len != b.unicode_len() {
        return false;
    }
    let mut i: usize = 0;
    while i < len
        invariant
            i <= len,
            len == a@.len(),
            len == b@.len(),
            forall|j: int| 0 <= j < i ==> a@[j] == b@[j],
        decreases len - i,
    {
        if a.get_char(i) != b.get_char(i) {
            return false;
        }
        i = i + 1;
    }
    assert(a@ =~= b@);
    true
}

/// The character is white space.
#[verifier::opaque]
pub open spec fn is_space(ch: char) -> bool {
    let c = ch as u32;
    ||| 0x09 <= c <= 0x0d
    ||| c == 0x20
    ||| c == 0x85
    ||| c == 0xa0
    ||| c == 0x1680
    ||| 0x2000 <= c <= 0x200a
    ||| c == 0x2028
    ||| c == 0x2029
    ||| c == 0x202f
    ||| c == 0x205f
    ||| c == 0x3000
}

fn space(ch: char) -> (answer: bool)
    ensures
        answer == is_space(ch),
{
    proof {
        reveal(is_space);
    }
    let c: u32 = ch as u32;
    (0x09 <= c && c <= 0x0d) || c == 0x20 || c == 0x85 || c == 0xa0 || c == 0x1680 || (0x2000 <= c
        && c <= 0x200a) || c == 0x2028 || c == 0x2029 || c == 0x202f || c == 0x205f || c == 0x3000
}

/// The text without white space at its ends.
#[verifier::opaque]
pub open spec fn trimmed(text: Seq<char>) -> Seq<char>
    decreases text.len(),
{
    if text.len() == 0 {
        text
    } else if is_space(text[0]) {
        trimmed(text.skip(1))
    } else if is_space(text.last()) {
        trimmed(text.drop_last())
    } else {
        text
    }
}

proof fn lemma_trimmed(text: Seq<char>)
    ensures
        text.len() > 0 && is_space(text[0]) ==> trimmed(text) == trimmed(text.skip(1)),
        text.len() > 0 && !is_space(text[0]) && is_space(text.last()) ==> trimmed(text) == trimmed(
            text.drop_last(),
        ),
        text.len() == 0 || (!is_space(text[0]) && !is_space(text.last())) ==> trimmed(text) == text,
{
    reveal(trimmed);
}

pub open spec fn is_digit(ch: char) -> bool {
    0x30 <= ch as u32 <= 0x39
}

/// All characters are decimal digits.
pub open spec fn all_digits(text: Seq<char>) -> bool {
    forall|i: int| 0 <= i < text.len() ==> is_digit(#[trigger] text[i])
}

/// The number that decimal digits stand for.
pub open spec fn digits_value(text: Seq<char>) -> nat
    decreases text.len(),
{
    if text.len() == 0 {
        0
    } else {
        digits_value(text.drop_last()) * 10 + (text.last() as nat - 0x30) as nat
    }
}

/// The digits of an unsigned number: a plus sign may go before them.
pub open spec fn unsigned_digits(text: Seq<char>) -> Seq<char> {
    if text.len() > 0 && text[0] == '+' {
        text.skip(1)
    } else {
        text
    }
}

/// The number that the text stands for, if it is one of at most `max`.
pub open spec fn parsed_unsigned(text: Seq<char>, max: nat) -> Option<nat> {
    let digits = unsigned_digits(text);
    if digits.len() > 0 && all_digits(digits) && digits_value(digits) <= max {
        Some(digits_value(digits))
    } else {
        None
    }
}

/// More digits do not make a number smaller.
proof fn lemma_value_grows(text: Seq<char>, i: int)
    requires
        0 <= i <= text.len(),
        all_digits(text),
    ensures
        digits_value(text.take(i)) <= digits_value(text),
    decreases text.len() - i,
{
    if i == text.len() {
        assert(text.take(i) =~= text);
    } else {
        lemma_value_grows(text, i + 1);
        assert(text.take(i + 1).drop_last() =~= text.take(i));
    }
}

/// Reads the number in `text` from `from` up to `to`.
fn parse_range(text: &str, from: usize, to: usize, max: u64) -> (number: Option<u64>)
    requires
        from <= to <= text@.len(),
    ensures
        match number {
            Some(n) => parsed_unsigned(text@.subrange(from as int, to as int), max as nat) == Some(
                n as nat,
            ),
            None => parsed_unsigned(text@.subrange(from as int, to as int), max as nat) is None,
        },
{
    let ghost part = text@.subrange(from as int, to as int);
    let ghost digits = unsigned_digits(part);
    let mut start: usize = from;
    if from < to && text.get_char(from) == '+' {
        start = from + 1;
    }
    assert(digits =~= text@.subrange(start as int, to as int));
    if start == to {
        return None;
    }
    let mut value: u64 = 0;
    let mut i: usize = start;
    assert(digits.take(0) =~= Seq::empty());
    while i < to
        invariant
            from <= start <= i <= to <= text@.len(),
            part == text@.subrange(from as int, to as int),
            digits == unsigned_digits(part),
            digits == text@.subrange(start as int, to as int),
            digits.len() > 0,
            forall|j: int| 0 <= j < i - start ==> is_digit(#[trigger] digits[j]),
            value == digits_value(digits.take(i - start)),
            value <= max,
        decreases to - i,
    {
        let ch: char = text.get_char(i);
        assert(digits[i - start] == ch);
        let code: u32 = ch as u32;
        if code < 0x30 || code > 0x39 {
            return None;
        }
        let d: u64 = (code - 0x30) as u64;
        proof {
            assert(digits.take(i - start + 1).drop_last() =~= digits.take(i - start));
            if all_digits(digits) {
                lemma_value_grows(digits, i - start + 1);
            }
        }
        if value > max / 10 || d > max - value * 10 {
            proof {
                assert(value * 10 + d > max);
            }
            return None;
        }
        value = value * 10 + d;
        i = i + 1;
    }
    assert(digits.take(to - start) =~= digits);
    Some(value)
}

/// Reads an unsigned number of at most `max`.
pub fn parse_unsigned(text: &str, max: u64) -> (number: Option<u64>)
    ensures
        match number {
            Some(n) => parsed_unsigned(text@, max as nat) == Some(n as nat),
            None => parsed_unsigned(text@, max as nat) is None,
        },
{
    let len: usize = text.unicode_len();
    assert(text@.subrange(0, len as int) =~= text@);
    parse_range(text, 0, len, max)
}

/// Reads an unsigned number of at most `max` that may have white space around it.
pub fn parse_unsigned_trimmed(text: &str, max: u64) -> (number: Option<u64>)
    ensures
        match number {
            Some(n) => parsed_unsigned(trimmed(text@), max as nat) == Some(n as nat),
            None => parsed_unsigned(trimmed(text@), max as nat) is None,
        },
{
    let mut from: usize = 0;
    let mut to: usize = text.unicode_len();
    assert(text@.subrange(0, to as int) =~= text@);
    while from < to && space(text.get_char(from))
        invariant
            from <= to == text@.len(),
            trimmed(text@.subrange(from as int, to as int)) == trimmed(text@),
        decreases to - from,
    {
        proof {
            lemma_trimmed(text@.subrange(from as int, to as int));
        }
        assert(text@.subrange(from as int, to as int).skip(1) =~= text@.subrange(
            from + 1,
            to as int,
        ));
        from = from + 1;
    }
    while from < to && space(text.get_char(to - 1))
        invariant
            from <= to <= text@.len(),
            from < to ==> !is_space(text@[from as int]),
            trimmed(text@.subrange(from as int, to as int)) == trimmed(text@),
        decreases to - from,
    {
        proof {
            lemma_trimmed(text@.subrange(from as int, to as int));
        }
        assert(text@.subrange(from as int, to as int).drop_last() =~= text@.subrange(
            from as int,
            to - 1,
        ));
        to = to - 1;
    }
    proof {
        let rest = text@.subrange(from as int, to as int);
        if rest.len() > 0 {
            assert(rest[0] == text@[from as int]);
            assert(rest.last() == text@[to - 1]);
        }
        lemma_trimmed(rest);
    }
    parse_range(text, from, to, max)
}

proof fn lemma_decimal(n: nat)
    ensures
        decimal(n).len() > 0,
        all_digits(decimal(n)),
        digits_value(decimal(n)) == n,
    decreases n,
{
    reveal_with_fuel(digits_value, 2);
    if n < 10 {
        assert(decimal(n).drop_last() =~= Seq::empty());
    } else {
        lemma_decimal(n / 10);
        assert(decimal(n).drop_last() =~= decimal(n / 10));
        assert forall|i: int| 0 <= i < decimal(n).len() implies is_digit(
            #[trigger] decimal(n)[i],
        ) by {
            if i < decimal(n / 10).len() {
                assert(decimal(n)[i] == decimal(n / 10)[i]);
            }
        }
    }
}

/// A number that is written in decimal is read back.
pub proof fn law_decimal_is_read_back(n: nat, max: nat)
    requires
        n <= max,
    ensures
        parsed_unsigned(decimal(n), max) == Some(n),
{
    lemma_decimal(n);
    assert(is_digit(decimal(n)[0]));
}

/// The value of a hexadecimal digit, in lower case.
pub open spec fn hex_digit_value(ch: char) -> nat {
    if 0x30 <= ch as u32 <= 0x39 {
        (ch as nat - 0x30) as nat
    } else {
        (ch as nat - 0x61 + 10) as nat
    }
}

/// The character is a hexadecimal digit, in lower case.
pub open spec fn is_hex_digit(ch: char) -> bool {
    0x30 <= ch as u32 <= 0x39 || 0x61 <= ch as u32 <= 0x66
}

/// The number that hexadecimal digits stand for.
pub open spec fn hex_value(text: Seq<char>) -> nat
    decreases text.len(),
{
    if text.len() == 0 {
        0
    } else {
        hex_value(text.drop_last()) * 16 + hex_digit_value(text.last())
    }
}

/// A number that is written in hexadecimal is read back, and its numeral has no
/// leading zero.
pub proof fn law_hex_is_read_back(n: nat)
    ensures
        hex_value(hex(n)) == n,
        hex(n).len() > 0,
        n > 0 ==> hex_digit_value(hex(n)[0]) > 0,
        forall|i: int| 0 <= i < hex(n).len() ==> is_hex_digit(#[trigger] hex(n)[i]),
    decreases n,
{
    reveal_with_fuel(hex_value, 2);
    if n < 16 {
        assert(hex(n).drop_last() =~= Seq::empty());
    } else {
        law_hex_is_read_back(n / 16);
        assert(hex(n).drop_last() =~= hex(n / 16));
        assert(hex(n)[0] == hex(n / 16)[0]);
        assert forall|i: int| 0 <= i < hex(n).len() implies is_hex_digit(
            #[trigger] hex(n)[i],
        ) by {
            if i < hex(n / 16).len() {
                assert(hex(n)[i] == hex(n / 16)[i]);
            }
        }
    }
}

proof fn lemma_zeros(zeros: nat, text: Seq<char>)
    ensures
        hex_value(repeated('0', zeros) + text) == hex_value(text),
    decreases zeros + text.len(),
{
    let all = repeated('0', zeros) + text;
    if text.len() > 0 {
        lemma_zeros(zeros, text.drop_last());
        assert(all.drop_last() =~= repeated('0', zeros) + text.drop_last());
    } else if zeros > 0 {
        let fewer = (zeros - 1) as nat;
        lemma_zeros(fewer, text);
        assert(all.drop_last() =~= repeated('0', fewer) + text);
        assert(all.last() == '0');
    } else {
        assert(all =~= text);
    }
}

/// A number that is written in hexadecimal with leading zeros is read back, and it has
/// as many digits as are asked for, or as many as it needs where those are more.
pub proof fn law_padded_hex_is_read_back(n: nat, width: nat)
    ensures
        hex_value(hex_padded(n, width)) == n,
        hex_padded(n, width).len() == if hex(n).len() < width {
            width
        } else {
            hex(n).len()
        },
{
    law_hex_is_read_back(n);
    if hex(n).len() < width {
        lemma_zeros((width - hex(n).len()) as nat, hex(n));
    }
}

/// A number is read from its digits, with a plus sign before them or without, and where
/// it is not too large; from a text with anything else in it no number is read.
pub proof fn law_numbers_are_told_from_other_texts(n: nat, max: nat, text: Seq<char>, i: int)
    ensures
        parsed_unsigned(decimal(n), max) == if n <= max {
            Some(n)
        } else {
            None
        },
        parsed_unsigned(seq!['+'] + decimal(n), max) == parsed_unsigned(decimal(n), max),
        parsed_unsigned(Seq::empty(), max) is None,
        parsed_unsigned(seq!['+'], max) is None,
        0 <= i < text.len() && !is_digit(text[i]) && !(i == 0 && text[0] == '+')
            ==> parsed_unsigned(text, max) is None,
{
    lemma_decimal(n);
    assert(is_digit(decimal(n)[0]));
    let plus = seq!['+'] + decimal(n);
    assert(plus[0] == '+');
    assert(plus.skip(1) =~= decimal(n));
    assert(seq!['+'].skip(1) =~= Seq::empty());
    if 0 <= i < text.len() && !is_digit(text[i]) && !(i == 0 && text[0] == '+') {
        let digits = unsigned_digits(text);
        if text[0] == '+' {
            assert(digits[i - 1] == text[i]);
        } else {
            assert(digits[i] == text[i]);
        }
    }
}

/// All characters are white space.
pub open spec fn all_space(text: Seq<char>) -> bool {
    forall|i: int| 0 <= i < text.len() ==> is_space(#[trigger] text[i])
}

/// White space around a text is dropped, and nothing of the text itself, whatever
/// stands between its ends.
pub proof fn law_only_outer_space_is_dropped(
    before: Seq<char>,
    text: Seq<char>,
    after: Seq<char>,
)
    requires
        all_space(before),
        all_space(after),
        text.len() > 0,
        !is_space(text[0]),
        !is_space(text.last()),
    ensures
        trimmed(before + text + after) == text,
    decreases before.len() + after.len(),
{
    let all = before + text + after;
    lemma_trimmed(all);
    if before.len() > 0 {
        assert(is_space(before[0]));
        assert(all[0] == before[0]);
        let less = before.skip(1);
        assert forall|i: int| 0 <= i < less.len() implies is_space(#[trigger] less[i]) by {
            assert(less[i] == before[i + 1]);
        }
        law_only_outer_space_is_dropped(less, text, after);
        assert(all.skip(1) =~= less + text + after);
    } else if after.len() > 0 {
        assert(all[0] == text[0]);
        assert(is_space(after[after.len() - 1]));
        assert(all.last() == after[after.len() - 1]);
        let less = after.drop_last();
        assert forall|i: int| 0 <= i < less.len() implies is_space(#[trigger] less[i]) by {
            assert(less[i] == after[i]);
        }
        law_only_outer_space_is_dropped(before, text, less);
        assert(all.drop_last() =~= before + text + less);
    } else {
        assert(all =~= text);
    }
}

/// The white space of a command line is white space, and no digit, sign or letter of
/// the Latin alphabet is.
pub proof fn law_plain_characters_are_no_space(ch: char)
    ensures
        is_space(' ') && is_space('\t') && is_space('\n') && is_space('\r'),
        0x21 <= ch as u32 <= 0x7e ==> !is_space(ch),
{
    reveal(is_space);
}

/// A number with white space around it is read.
pub proof fn law_spaced_number_is_read(
    before: Seq<char>,
    n: nat,
    after: Seq<char>,
    max: nat,
)
    requires
        all_space(before),
        all_space(after),
    ensures
        parsed_unsigned(trimmed(before + decimal(n) + after), max) == if n <= max {
            Some(n)
        } else {
            None
        },
{
    lemma_decimal(n);
    let text = decimal(n);
    assert(is_digit(text[0]));
    assert(is_digit(text[text.len() - 1]));
    law_plain_characters_are_no_space(text[0]);
    law_plain_characters_are_no_space(text.last());
    law_only_outer_space_is_dropped(before, text, after);
    law_numbers_are_told_from_other_texts(n, max, text, -1);
}

/// A numeral begins with a digit.
pub proof fn law_decimal_begins_with_a_digit(n: nat)
    ensures
        decimal(n).len() > 0,
        is_digit(decimal(n)[0]),
        is_digit(decimal(n).last()),
{
    lemma_decimal(n);
    assert(is_digit(decimal(n)[0]));
    assert(is_digit(decimal(n)[decimal(n).len() - 1]));
}

} // verus!
