use crate::machine::simulation::{DeviceChoice, InterruptRequest};
use vstd::prelude::*;

verus! {

broadcast use vstd::string::group_string_axioms;

/// Whether a character is white space in the Unicode sense, as Rust's `char::is_whitespace`
/// and `str::trim` take it.
pub open spec fn is_space(c: char) -> bool {
    ('\u{9}' <= c <= '\u{d}') || c == ' ' || c == '\u{85}' || c == '\u{a0}' || c == '\u{1680}'
        || ('\u{2000}' <= c <= '\u{200a}') || c == '\u{2028}' || c == '\u{2029}' || c
        == '\u{202f}' || c == '\u{205f}' || c == '\u{3000}'
}

/// Whether a character is a decimal digit.
pub open spec fn is_digit(c: char) -> bool {
    '0' <= c <= '9'
}

/// The value of a string of decimal digits.
pub open spec fn decimal(digits: Seq<char>) -> int
    decreases digits.len(),
{
    if digits.len() == 0 {
        0
    } else {
        10 * decimal(digits.drop_last()) + (digits.last() as int - '0' as int)
    }
}

/// Whether every character is a decimal digit.
pub open spec fn all_digits(s: Seq<char>) -> bool {
    forall|i: int| 0 <= i < s.len() ==> is_digit(#[trigger] s[i])
}

/// The digits of an unsigned number: the text without a leading `+`.
pub open spec fn unsigned_digits(text: Seq<char>) -> Seq<char> {
    if text.len() > 0 && text[0] == '+' {
        text.skip(1)
    } else {
        text
    }
}

/// The value of an unsigned number as Rust's integer parsing reads it: an optional `+`,
/// then one or more digits; `None` for anything else.
pub open spec fn unsigned_value(text: Seq<char>) -> Option<int> {
    let digits = unsigned_digits(text);
    if digits.len() > 0 && all_digits(digits) {
        Some(decimal(digits))
    } else {
        None
    }
}

/// The value of a signed number as Rust's integer parsing reads it: an optional `+` or `-`,
/// then one or more digits; `None` for anything else.
pub open spec fn signed_value(text: Seq<char>) -> Option<int> {
    if text.len() > 0 && text[0] == '-' {
        let digits = text.skip(1);
        if digits.len() > 0 && all_digits(digits) {
            Some(-decimal(digits))
        } else {
            None
        }
    } else {
        unsigned_value(text)
    }
}

/// The pieces of a text between newline characters, as `str::split('\n')` yields them.
pub open spec fn split_lines(text: Seq<char>) -> Seq<Seq<char>>
    decreases text.len(),
{
    if text.len() == 0 {
        seq![Seq::empty()]
    } else {
        let before = split_lines(text.drop_last());
        if text.last() == '\n' {
            before.push(Seq::empty())
        } else {
            before.update(before.len() - 1, before.last().push(text.last()))
        }
    }
}

/// A prefix of digits never has a larger value than the whole.
pub proof fn lemma_decimal_prefix(digits: Seq<char>, n: int)
    requires
        all_digits(digits),
        0 <= n <= digits.len(),
    ensures
        0 <= decimal(digits.take(n)) <= decimal(digits),
    decreases digits.len(),
{
    if n < digits.len() {
        assert(digits.take(n) =~= digits.drop_last().take(n));
        assert(all_digits(digits.drop_last())) by {
            assert forall|i: int| 0 <= i < digits.drop_last().len() implies is_digit(
                #[trigger] digits.drop_last()[i],
            ) by {
                assert(digits.drop_last()[i] == digits[i]);
            }
        }
        lemma_decimal_prefix(digits.drop_last(), n);
        lemma_decimal_prefix(digits.drop_last(), digits.len() - 1);
        assert(digits.drop_last().take(digits.len() - 1) =~= digits.drop_last());
        assert(is_digit(digits[digits.len() - 1]));
    } else {
        assert(digits.take(n) =~= digits);
        if digits.len() > 0 {
            assert(all_digits(digits.drop_last())) by {
                assert forall|i: int| 0 <= i < digits.drop_last().len() implies is_digit(
                    #[trigger] digits.drop_last()[i],
                ) by {
                    assert(digits.drop_last()[i] == digits[i]);
                }
            }
            lemma_decimal_prefix(digits.drop_last(), digits.len() - 1);
            assert(digits.drop_last().take(digits.len() - 1) =~= digits.drop_last());
            assert(is_digit(digits[digits.len() - 1]));
        }
    }
}

/// A string of digits has a value of at least zero.
pub proof fn lemma_decimal_nonnegative(digits: Seq<char>)
    requires
        all_digits(digits),
    ensures
        decimal(digits) >= 0,
{
    lemma_decimal_prefix(digits, digits.len() as int);
}

/// A number that Rust's unsigned parsing accepts is at least zero.
pub proof fn lemma_unsigned_value_nonnegative(text: Seq<char>)
    ensures
        unsigned_value(text) is Some ==> unsigned_value(text)->0 >= 0,
{
    let digits = if text.len() > 0 && text[0] == '+' {
        text.skip(1)
    } else {
        text
    };
    if digits.len() > 0 && all_digits(digits) {
        lemma_decimal_nonnegative(digits);
    }
}

/// The characters of a text.
pub fn chars_of(text: &str) -> (chars: Vec<char>)
    ensures
        chars@ == text@,
{
    let mut chars: Vec<char> = Vec::new();
    for c in it: text.chars()
        invariant
            it.seq() == text@,
            chars@ == text@.take(it.index()),
    {
        chars.push(c);
        proof {
            assert(chars@ =~= text@.take(it.index() + 1));
        }
    }
    proof {
        assert(text@.take(text@.len() as int) =~= text@);
    }
    chars
}

/// The value of `digits[from..to]`, all digits, where it does not exceed `limit`.
pub(crate) fn digits_value(digits: &[char], from: usize, to: usize, limit: u64) -> (value: Option<u64>)
    requires
        from <= to <= digits@.len(),
        all_digits(digits@.subrange(from as int, to as int)),
    ensures
        value == (if decimal(digits@.subrange(from as int, to as int)) <= limit {
            Some(decimal(digits@.subrange(from as int, to as int)) as u64)
        } else {
            None
        }),
{
    let ghost whole = digits@.subrange(from as int, to as int);
    proof {
        lemma_decimal_nonnegative(whole);
    }
    let mut value: u64 = 0;
    let mut i: usize = from;
    while i < to
        invariant
            from <= i <= to <= digits@.len(),
            whole == digits@.subrange(from as int, to as int),
            all_digits(whole),
            value == decimal(whole.take(i - from)),
            value <= limit,
        decreases to - i,
    {
        let c = digits[i];
        proof {
            assert(whole[i - from] == c);
            assert(whole.take(i - from + 1).drop_last() =~= whole.take(i - from));
            assert(is_digit(c));
        }
        let d = (c as u32 - '0' as u32) as u64;
        if d > limit || value > (limit - d) / 10 {
            proof {
                assert(decimal(whole.take(i - from + 1)) == 10 * value + d);
                if d <= limit {
                    assert(10 * value + d > limit) by (nonlinear_arith)
                        requires
                            value > (limit - d) / 10,
                            d <= limit,
                    ;
                }
                lemma_decimal_prefix(whole, i - from + 1);
            }
            return None;
        }
        proof {
            assert(10 * value + d <= limit) by (nonlinear_arith)
                requires
                    value <= (limit - d) / 10,
                    d <= limit,
            ;
        }
        value = 10 * value + d;
        i = i + 1;
    }
    proof {
        assert(whole.take(to - from) =~= whole);
    }
    Some(value)
}

/// The unsigned number written in `text[from..to]`, where Rust's parsing accepts it and it
/// does not exceed `limit`.
pub(crate) fn parse_unsigned(text: &[char], from: usize, to: usize, limit: u64) -> (value: Option<u64>)
    requires
        from <= to <= text@.len(),
    ensures
        value == (match unsigned_value(text@.subrange(from as int, to as int)) {
            Some(v) => if v <= limit {
                Some(v as u64)
            } else {
                None
            },
            None => None,
        }),
        unsigned_value(text@.subrange(from as int, to as int)) is Some ==> unsigned_value(
            text@.subrange(from as int, to as int),
        )->0 >= 0,
{
    let ghost piece = text@.subrange(from as int, to as int);
    proof {
        lemma_unsigned_value_nonnegative(piece);
    }
    let mut start = from;
    if from < to && text[from] == '+' {
        start = from + 1;
    }
    proof {
        if from < to {
            assert(piece[0] == text@[from as int]);
        }
        if from < to && text@[from as int] == '+' {
            assert(piece.skip(1) =~= text@.subrange(start as int, to as int));
        } else {
            assert(piece =~= text@.subrange(start as int, to as int));
        }
    }
    if start == to {
        proof {
            assert(text@.subrange(start as int, to as int).len() == 0);
            if from < to && text@[from as int] == '+' {
                assert(piece.skip(1).len() == 0);
            } else {
                assert(piece.len() == 0);
            }
            assert(unsigned_value(piece) is None);
        }
        return None;
    }
    let mut i = start;
    assert(unsigned_digits(piece) == text@.subrange(start as int, to as int));
    while i < to
        invariant
            start <= i <= to <= text@.len(),
            piece == text@.subrange(from as int, to as int),
            unsigned_digits(piece) == text@.subrange(start as int, to as int),
            forall|k: int| start <= k < i ==> is_digit(#[trigger] text@[k]),
        decreases to - i,
    {
        if !(text[i] >= '0' && text[i] <= '9') {
            proof {
                let digits = text@.subrange(start as int, to as int);
                assert(!is_digit(digits[i - start]));
            }
            return None;
        }
        i = i + 1;
    }
    proof {
        let digits = text@.subrange(start as int, to as int);
        assert forall|k: int| 0 <= k < digits.len() implies is_digit(#[trigger] digits[k]) by {
            assert(digits[k] == text@[start + k]);
        }
    }
    digits_value(text, start, to, limit)
}

/// The signed 64-bit number written in `text[from..to]`, where Rust's parsing accepts it.
pub(crate) fn parse_signed(text: &[char], from: usize, to: usize) -> (value: Option<i64>)
    requires
        from <= to <= text@.len(),
    ensures
        value == (match signed_value(text@.subrange(from as int, to as int)) {
            Some(v) => if i64::MIN <= v <= i64::MAX {
                Some(v as i64)
            } else {
                None
            },
            None => None,
        }),
{
    proof {
        if from < to {
            assert(text@.subrange(from as int, to as int)[0] == text@[from as int]);
        }
    }
    if from < to && text[from] == '-' {
        let magnitude = parse_unsigned_digits(text, from + 1, to, 0x8000_0000_0000_0000);
        proof {
            assert(text@.subrange(from as int, to as int).skip(1) =~= text@.subrange(
                from + 1,
                to as int,
            ));
        }
        match magnitude {
            Some(m) => {
                if m == 0x8000_0000_0000_0000 {
                    Some(i64::MIN)
                } else {
                    assert(m <= 0x7fff_ffff_ffff_ffff);
                    let positive = m as i64;
                    Some(-positive)
                }
            },
            None => None,
        }
    } else {
        match parse_unsigned(text, from, to, 0x7fff_ffff_ffff_ffff) {
            Some(v) => Some(v as i64),
            None => None,
        }
    }
}

/// The value of `text[from..to]` where it is one or more digits not above `limit`.
fn parse_unsigned_digits(text: &[char], from: usize, to: usize, limit: u64) -> (value: Option<
    u64,
>)
    requires
        from <= to <= text@.len(),
    ensures
        value == (if to > from && all_digits(text@.subrange(from as int, to as int)) && decimal(
            text@.subrange(from as int, to as int),
        ) <= limit {
            Some(decimal(text@.subrange(from as int, to as int)) as u64)
        } else {
            None
        }),
        to > from && all_digits(text@.subrange(from as int, to as int)) ==> decimal(
            text@.subrange(from as int, to as int),
        ) >= 0,
{
    proof {
        if to > from && all_digits(text@.subrange(from as int, to as int)) {
            lemma_decimal_nonnegative(text@.subrange(from as int, to as int));
        }
    }
    if from == to {
        return None;
    }
    let mut i = from;
    while i < to
        invariant
            from <= i <= to <= text@.len(),
            forall|k: int| from <= k < i ==> is_digit(#[trigger] text@[k]),
        decreases to - i,
    {
        if !(text[i] >= '0' && text[i] <= '9') {
            proof {
                let digits = text@.subrange(from as int, to as int);
                assert(!is_digit(digits[i - from]));
            }
            return None;
        }
        i = i + 1;
    }
    proof {
        let digits = text@.subrange(from as int, to as int);
        assert forall|k: int| 0 <= k < digits.len() implies is_digit(#[trigger] digits[k]) by {
            assert(digits[k] == text@[from + k]);
        }
    }
    digits_value(text, from, to, limit)
}

/// The pieces of `text` between newlines, as index ranges.
pub open spec fn pieces(text: Seq<char>, ranges: Seq<(usize, usize)>) -> Seq<Seq<char>> {
    ranges.map_values(|r: (usize, usize)| text.subrange(r.0 as int, r.1 as int))
}

/// Splits a text at its newline characters, as `str::split('\n')` does; returns the index
/// range of each piece.
fn split_lines_at(text: &[char]) -> (ranges: Vec<(usize, usize)>)
    ensures
        pieces(text@, ranges@) == split_lines(text@),
        forall|k: int|
            0 <= k < ranges@.len() ==> (#[trigger] ranges@[k]).0 <= ranges@[k].1 <= text@.len(),
{
    let mut ranges: Vec<(usize, usize)> = Vec::new();
    let mut start: usize = 0;
    let mut i: usize = 0;
    proof {
        assert(text@.take(0) =~= Seq::<char>::empty());
        assert(pieces(text@, ranges@) =~= Seq::<Seq<char>>::empty());
        assert(text@.subrange(0, 0) =~= Seq::<char>::empty());
        assert(split_lines(Seq::<char>::empty()) == seq![Seq::<char>::empty()]);
    }
    while i < text.len()
        invariant
            start <= i <= text@.len(),
            forall|k: int|
                0 <= k < ranges@.len() ==> (#[trigger] ranges@[k]).0 <= ranges@[k].1 <= text@.len(),
            split_lines(text@.take(i as int)) == pieces(text@, ranges@).push(
                text@.subrange(start as int, i as int),
            ),
        decreases text@.len() - i,
    {
        proof {
            assert(text@.take(i + 1).drop_last() =~= text@.take(i as int));
            assert(text@.take(i + 1).last() == text@[i as int]);
        }
        if text[i] == '\n' {
            ranges.push((start, i));
            proof {
                assert(pieces(text@, ranges@) =~= pieces(text@, ranges@.drop_last()).push(
                    text@.subrange(start as int, i as int),
                ));
                assert(text@.subrange(i + 1, i + 1) =~= Seq::<char>::empty());
            }
            start = i + 1;
        } else {
            proof {
                assert(text@.subrange(start as int, i + 1) =~= text@.subrange(
                    start as int,
                    i as int,
                ).push(text@[i as int]));
            }
        }
        i = i + 1;
        proof {
            assert(split_lines(text@.take(i as int)) =~= pieces(text@, ranges@).push(
                text@.subrange(start as int, i as int),
            ));
        }
    }
    let ghost before = ranges@;
    ranges.push((start, text.len()));
    proof {
        assert forall|k: int| 0 <= k < ranges@.len() implies (#[trigger] ranges@[k]).0 <= ranges@[k].1
            <= text@.len() by {
            if k < before.len() {
                assert(ranges@[k] == before[k]);
            }
        }
        assert(text@.take(text@.len() as int) =~= text@);
        assert(pieces(text@, ranges@) =~= pieces(text@, ranges@.drop_last()).push(
            text@.subrange(start as int, text@.len() as int),
        ));
    }
    ranges
}

/// The value of each line as an unsigned number not above `limit`; `None` where a line
/// holds anything else.
fn parse_unsigned_lines(text: &str, limit: u64) -> (values: Option<Vec<u64>>)
    ensures
        values is Some <==> forall|k: int|
            0 <= k < split_lines(text@).len() ==> (#[trigger] unsigned_value(split_lines(text@)[k]))
                is Some && unsigned_value(split_lines(text@)[k])->0 <= limit,
        values is Some ==> values->0@.len() == split_lines(text@).len() && forall|k: int|
            0 <= k < split_lines(text@).len() ==> #[trigger] values->0@[k] == unsigned_value(
                split_lines(text@)[k],
            )->0,
{
    let chars = chars_of(text);
    let ranges = split_lines_at(chars.as_slice());
    let ghost lines = split_lines(text@);
    let mut values: Vec<u64> = Vec::new();
    let mut k: usize = 0;
    while k < ranges.len()
        invariant
            chars@ == text@,
            lines == split_lines(text@),
            pieces(chars@, ranges@) == lines,
            forall|j: int|
                0 <= j < ranges@.len() ==> (#[trigger] ranges@[j]).0 <= ranges@[j].1 <= chars@.len(),
            k <= ranges@.len(),
            values@.len() == k,
            forall|j: int|
                0 <= j < k ==> (#[trigger] unsigned_value(lines[j])) is Some && unsigned_value(
                    lines[j],
                )->0 <= limit && values@[j] == unsigned_value(lines[j])->0,
        decreases ranges@.len() - k,
    {
        let (from, to) = ranges[k];
        proof {
            assert(lines[k as int] == chars@.subrange(from as int, to as int));
        }
        match parse_unsigned(chars.as_slice(), from, to, limit) {
            Some(value) => {
                values.push(value);
                proof {
                    assert(unsigned_value(lines[k as int]) is Some);
                    assert(values@[k as int] == unsigned_value(lines[k as int])->0);
                }
            },
            None => {
                return None;
            },
        }
        k = k + 1;
    }
    Some(values)
}

/// Reads a program file: one instruction word per line, in decimal. `None` where a line is
/// not a number that fits in 32 bits.
pub fn parse_program(text: &str) -> (program: Option<Vec<u32>>)
    ensures
        program is Some <==> forall|k: int|
            0 <= k < split_lines(text@).len() ==> (#[trigger] unsigned_value(split_lines(text@)[k]))
                is Some && unsigned_value(split_lines(text@)[k])->0 <= u32::MAX,
        program is Some ==> program->0@.len() == split_lines(text@).len() && forall|k: int|
            0 <= k < split_lines(text@).len() ==> #[trigger] program->0@[k] == unsigned_value(
                split_lines(text@)[k],
            )->0,
{
    match parse_unsigned_lines(text, 0xffff_ffff) {
        Some(values) => {
            let mut words: Vec<u32> = Vec::new();
            let mut k: usize = 0;
            while k < values.len()
                invariant
                    k <= values@.len(),
                    words@.len() == k,
                    forall|j: int| 0 <= j < values@.len() ==> #[trigger] values@[j] <= 0xffff_ffff,
                    forall|j: int| 0 <= j < k ==> #[trigger] words@[j] == values@[j],
                decreases values@.len() - k,
            {
                words.push(values[k] as u32);
                k = k + 1;
            }
            Some(words)
        },
        None => None,
    }
}

/// Reads a data file: one 64-bit value per line, in decimal. `None` where a line is not such
/// a number.
pub fn parse_data(text: &str) -> (data: Option<Vec<u64>>)
    ensures
        data is Some <==> forall|k: int|
            0 <= k < split_lines(text@).len() ==> (#[trigger] unsigned_value(split_lines(text@)[k]))
                is Some && unsigned_value(split_lines(text@)[k])->0 <= u64::MAX,
        data is Some ==> data->0@.len() == split_lines(text@).len() && forall|k: int|
            0 <= k < split_lines(text@).len() ==> #[trigger] data->0@[k] == unsigned_value(
                split_lines(text@)[k],
            )->0,
{
    parse_unsigned_lines(text, u64::MAX)
}

/// Reads an interrupt vector file: exactly eight lines, each the entry address of one vector
/// in decimal. `None` for anything else.
pub fn parse_interrupt_vector(text: &str) -> (vectors: Option<[u64; 8]>)
    ensures
        vectors is Some <==> split_lines(text@).len() == 8 && forall|k: int|
            0 <= k < 8 ==> (#[trigger] unsigned_value(split_lines(text@)[k])) is Some
                && unsigned_value(split_lines(text@)[k])->0 <= u64::MAX,
        vectors is Some ==> forall|k: int|
            0 <= k < 8 ==> #[trigger] vectors->0@[k] == unsigned_value(split_lines(text@)[k])->0,
{
    match parse_unsigned_lines(text, u64::MAX) {
        Some(values) => {
            if values.len() != 8 {
                return None;
            }
            let vectors: [u64; 8] = [
                values[0],
                values[1],
                values[2],
                values[3],
                values[4],
                values[5],
                values[6],
                values[7],
            ];
            proof {
                assert forall|k: int| 0 <= k < 8 implies #[trigger] vectors@[k] == values@[k] by {}
            }
            Some(vectors)
        },
        None => None,
    }
}

/// The text without its leading white space.
pub open spec fn strip_leading(text: Seq<char>) -> Seq<char>
    decreases text.len(),
{
    if text.len() > 0 && is_space(text[0]) {
        strip_leading(text.drop_first())
    } else {
        text
    }
}

/// The text without its trailing white space.
pub open spec fn strip_trailing(text: Seq<char>) -> Seq<char>
    decreases text.len(),
{
    if text.len() > 0 && is_space(text.last()) {
        strip_trailing(text.drop_last())
    } else {
        text
    }
}

/// The text without leading and trailing white space, as `str::trim` gives it.
pub open spec fn trimmed(text: Seq<char>) -> Seq<char> {
    strip_trailing(strip_leading(text))
}

/// The runs of non-space characters of a text, in order, as `str::split_whitespace` yields
/// them.
pub open spec fn words(text: Seq<char>) -> Seq<Seq<char>>
    decreases text.len(),
{
    if text.len() == 0 {
        Seq::empty()
    } else {
        let before = words(text.drop_last());
        let c = text.last();
        if is_space(c) {
            before
        } else if text.len() >= 2 && !is_space(text[text.len() - 2]) {
            before.update(before.len() - 1, before.last().push(c))
        } else {
            before.push(seq![c])
        }
    }
}

/// The device a name in an interrupt file stands for.
pub open spec fn device_named(name: Seq<char>) -> Option<DeviceChoice> {
    if name == seq!['I', 'n', 't', 'I', 'n', 'p', 'u', 't'] {
        Some(DeviceChoice::IntInput)
    } else if name == seq!['C', 'h', 'a', 'r', 'I', 'n', 'p', 'u', 't'] {
        Some(DeviceChoice::CharInput)
    } else {
        None
    }
}

/// The value of a request: the signed number written, or else the low byte of the code of
/// its first character.
pub open spec fn request_value(word: Seq<char>) -> i64 {
    match signed_value(word) {
        Some(v) => if i64::MIN <= v <= i64::MAX {
            v as i64
        } else {
            ((word[0] as u32) as u8) as i64
        },
        None => ((word[0] as u32) as u8) as i64,
    }
}

/// Why a line of an interrupt file was refused, with its line number (counted from 1).
#[derive(Clone, Copy, PartialEq, Eq, Structural)]
pub enum InterruptFileError {
    /// The line does not hold exactly three fields: tick, value and device.
    FieldCount(usize),
    /// The tick is not an unsigned 64-bit number.
    Tick(usize),
    /// The device is neither `IntInput` nor `CharInput`.
    Device(usize),
}

/// Whether a line is skipped: empty after trimming, or a comment starting with `#` or `//`.
pub open spec fn skipped_line(line: Seq<char>) -> bool {
    let t = trimmed(line);
    t.len() == 0 || t[0] == '#' || (t.len() >= 2 && t[0] == '/' && t[1] == '/')
}

/// What one line of an interrupt file gives: nothing for a skipped line, a request for
/// `tick value device`, or the first error in that order of checks.
pub open spec fn line_outcome(line: Seq<char>, number: usize) -> Result<
    Option<InterruptRequest>,
    InterruptFileError,
> {
    if skipped_line(line) {
        Ok(None)
    } else {
        let fields = words(trimmed(line));
        if fields.len() != 3 {
            Err(InterruptFileError::FieldCount(number))
        } else {
            match unsigned_value(fields[0]) {
                Some(tick) => if tick <= u64::MAX {
                    match device_named(fields[2]) {
                        Some(device) => Ok(
                            Some(
                                InterruptRequest {
                                    tick: tick as u64,
                                    value: request_value(fields[1]),
                                    device,
                                },
                            ),
                        ),
                        None => Err(InterruptFileError::Device(number)),
                    }
                } else {
                    Err(InterruptFileError::Tick(number))
                },
                None => Err(InterruptFileError::Tick(number)),
            }
        }
    }
}

/// What an interrupt file gives: the requests of its lines in order, or the error of its
/// first refused line.
pub open spec fn interrupts_outcome(lines: Seq<Seq<char>>) -> Result<
    Seq<InterruptRequest>,
    InterruptFileError,
>
    decreases lines.len(),
{
    if lines.len() == 0 {
        Ok(Seq::empty())
    } else {
        match interrupts_outcome(lines.drop_last()) {
            Err(e) => Err(e),
            Ok(before) => match line_outcome(lines.last(), lines.len() as usize) {
                Err(e) => Err(e),
                Ok(Option::None) => Ok(before),
                Ok(Some(request)) => Ok(before.push(request)),
            },
        }
    }
}

/// Once a prefix of the lines is refused, the whole file is refused with the same error.
pub proof fn lemma_outcome_error_persists(lines: Seq<Seq<char>>, n: int)
    requires
        0 <= n <= lines.len(),
        interrupts_outcome(lines.take(n)) is Err,
    ensures
        interrupts_outcome(lines) == interrupts_outcome(lines.take(n)),
    decreases lines.len(),
{
    if n < lines.len() {
        assert(lines.take(n) =~= lines.drop_last().take(n));
        lemma_outcome_error_persists(lines.drop_last(), n);
    } else {
        assert(lines.take(n) =~= lines);
    }
}

/// Whether a character is white space.
pub(crate) fn is_white_space(c: char) -> (space: bool)
    ensures
        space == is_space(c),
{
    ('\u{9}' <= c && c <= '\u{d}') || c == ' ' || c == '\u{85}' || c == '\u{a0}' || c
        == '\u{1680}' || ('\u{2000}' <= c && c <= '\u{200a}') || c == '\u{2028}' || c
        == '\u{2029}' || c == '\u{202f}' || c == '\u{205f}' || c == '\u{3000}'
}

/// The index range of `text[from..to]` with white space trimmed from both ends.
pub(crate) fn trim_range(text: &[char], from: usize, to: usize) -> (range: (usize, usize))
    requires
        from <= to <= text@.len(),
    ensures
        from <= range.0 <= range.1 <= to,
        text@.subrange(range.0 as int, range.1 as int) == trimmed(
            text@.subrange(from as int, to as int),
        ),
{
    let mut start = from;
    while start < to && is_white_space(text[start])
        invariant
            from <= start <= to <= text@.len(),
            strip_leading(text@.subrange(from as int, to as int)) == strip_leading(
                text@.subrange(start as int, to as int),
            ),
        decreases to - start,
    {
        proof {
            assert(text@.subrange(start as int, to as int).drop_first() =~= text@.subrange(
                start + 1,
                to as int,
            ));
        }
        start = start + 1;
    }
    proof {
        if start < to {
            assert(text@.subrange(start as int, to as int)[0] == text@[start as int]);
        }
    }
    let mut end = to;
    while end > start && is_white_space(text[end - 1])
        invariant
            from <= start <= end <= to <= text@.len(),
            strip_trailing(text@.subrange(start as int, to as int)) == strip_trailing(
                text@.subrange(start as int, end as int),
            ),
        decreases end - start,
    {
        proof {
            assert(text@.subrange(start as int, end as int).drop_last() =~= text@.subrange(
                start as int,
                end - 1,
            ));
        }
        end = end - 1;
    }
    (start, end)
}

/// The index ranges of the words of `text[from..to]`.
pub(crate) fn words_in(text: &[char], from: usize, to: usize) -> (ranges: Vec<(usize, usize)>)
    requires
        from <= to <= text@.len(),
    ensures
        pieces(text@, ranges@) == words(text@.subrange(from as int, to as int)),
        forall|k: int|
            0 <= k < ranges@.len() ==> from <= (#[trigger] ranges@[k]).0 < ranges@[k].1 <= to,
{
    let mut ranges: Vec<(usize, usize)> = Vec::new();
    let mut in_word = false;
    let mut word_start: usize = from;
    let mut i: usize = from;
    proof {
        assert(text@.subrange(from as int, from as int) =~= Seq::<char>::empty());
        assert(pieces(text@, ranges@) =~= Seq::<Seq<char>>::empty());
    }
    while i < to
        invariant
            from <= word_start <= i <= to <= text@.len(),
            in_word ==> word_start < i,
            in_word <==> (i > from && !is_space(text@[i - 1])),
            forall|k: int|
                0 <= k < ranges@.len() ==> from <= (#[trigger] ranges@[k]).0 < ranges@[k].1 <= i,
            words(text@.subrange(from as int, i as int)) == if in_word {
                pieces(text@, ranges@).push(text@.subrange(word_start as int, i as int))
            } else {
                pieces(text@, ranges@)
            },
        decreases to - i,
    {
        let c = text[i];
        proof {
            let s = text@.subrange(from as int, i + 1);
            assert(s.drop_last() =~= text@.subrange(from as int, i as int));
            assert(s.last() == c);
            if i > from {
                assert(s[s.len() - 2] == text@[i - 1]);
            }
        }
        if is_white_space(c) {
            if in_word {
                ranges.push((word_start, i));
                proof {
                    assert(pieces(text@, ranges@) =~= pieces(text@, ranges@.drop_last()).push(
                        text@.subrange(word_start as int, i as int),
                    ));
                }
                in_word = false;
            }
        } else {
            if in_word {
                proof {
                    assert(text@.subrange(word_start as int, i + 1) =~= text@.subrange(
                        word_start as int,
                        i as int,
                    ).push(c));
                }
            } else {
                word_start = i;
                in_word = true;
                proof {
                    assert(text@.subrange(i as int, i + 1) =~= seq![c]);
                }
            }
        }
        i = i + 1;
        proof {
            assert(words(text@.subrange(from as int, i as int)) =~= if in_word {
                pieces(text@, ranges@).push(text@.subrange(word_start as int, i as int))
            } else {
                pieces(text@, ranges@)
            });
        }
    }
    if in_word {
        ranges.push((word_start, to));
        proof {
            assert(pieces(text@, ranges@) =~= pieces(text@, ranges@.drop_last()).push(
                text@.subrange(word_start as int, to as int),
            ));
        }
    }
    ranges
}

/// Whether `text[from..to]` is exactly `expected`.
pub(crate) fn same_text(text: &[char], from: usize, to: usize, expected: &[char]) -> (same: bool)
    requires
        from <= to <= text@.len(),
    ensures
        same == (text@.subrange(from as int, to as int) == expected@),
{
    if to - from != expected.len() {
        return false;
    }
    let mut k: usize = 0;
    while k < expected.len()
        invariant
            to - from == expected@.len(),
            from <= to <= text@.len(),
            k <= expected@.len(),
            forall|j: int| 0 <= j < k ==> text@[from + j] == #[trigger] expected@[j],
        decreases expected@.len() - k,
    {
        if text[from + k] != expected[k] {
            proof {
                assert(text@.subrange(from as int, to as int)[k as int] != expected@[k as int]);
            }
            return false;
        }
        k = k + 1;
    }
    proof {
        assert(text@.subrange(from as int, to as int) =~= expected@);
    }
    true
}

/// Reads the line `text[from..to]` of an interrupt file, numbered `number`.
fn parse_interrupt_line(text: &[char], from: usize, to: usize, number: usize) -> (outcome: Result<
    Option<InterruptRequest>,
    InterruptFileError,
>)
    requires
        from <= to <= text@.len(),
    ensures
        outcome == line_outcome(text@.subrange(from as int, to as int), number),
{
    let ghost line = text@.subrange(from as int, to as int);
    let (start, end) = trim_range(text, from, to);
    let ghost t = text@.subrange(start as int, end as int);
    proof {
        if start < end {
            assert(t[0] == text@[start as int]);
        }
        if start + 1 < end {
            assert(t[1] == text@[start + 1]);
        }
    }
    if start == end || text[start] == '#' || (start + 1 < end && text[start] == '/' && text[start
        + 1] == '/') {
        return Ok(None);
    }
    let fields = words_in(text, start, end);
    if fields.len() != 3 {
        return Err(InterruptFileError::FieldCount(number));
    }
    let ghost w = words(t);
    proof {
        assert(w[0] == text@.subrange(fields@[0].0 as int, fields@[0].1 as int));
        assert(w[1] == text@.subrange(fields@[1].0 as int, fields@[1].1 as int));
        assert(w[2] == text@.subrange(fields@[2].0 as int, fields@[2].1 as int));
    }
    let (tick_from, tick_to) = fields[0];
    let tick = match parse_unsigned(text, tick_from, tick_to, u64::MAX) {
        Some(tick) => tick,
        None => {
            return Err(InterruptFileError::Tick(number));
        },
    };
    let (device_from, device_to) = fields[2];
    let int_input = ['I', 'n', 't', 'I', 'n', 'p', 'u', 't'];
    let char_input = ['C', 'h', 'a', 'r', 'I', 'n', 'p', 'u', 't'];
    proof {
        assert(int_input@ =~= seq!['I', 'n', 't', 'I', 'n', 'p', 'u', 't']);
        assert(char_input@ =~= seq!['C', 'h', 'a', 'r', 'I', 'n', 'p', 'u', 't']);
    }
    let device = if same_text(text, device_from, device_to, &int_input) {
        DeviceChoice::IntInput
    } else if same_text(text, device_from, device_to, &char_input) {
        DeviceChoice::CharInput
    } else {
        return Err(InterruptFileError::Device(number));
    };
    let (value_from, value_to) = fields[1];
    proof {
        assert(text@.subrange(value_from as int, value_to as int)[0] == text@[value_from as int]);
    }
    let value = match parse_signed(text, value_from, value_to) {
        Some(value) => value,
        None => (text[value_from] as u32) as u8 as i64,
    };
    Ok(Some(InterruptRequest { tick, value, device }))
}

/// Reads an interrupt file: one request per line as `tick value device`, where the value is
/// a signed number or a character; blank lines and lines starting with `#` or `//` are
/// skipped. Fails with the error of the first line that cannot be read.
pub fn parse_interrupts(text: &str) -> (requests: Result<Vec<InterruptRequest>, InterruptFileError>)
    ensures
        match (requests, interrupts_outcome(split_lines(text@))) {
            (Ok(found), Ok(expected)) => found@ == expected,
            (Err(found), Err(expected)) => found == expected,
            _ => false,
        },
{
    let chars = chars_of(text);
    let ranges = split_lines_at(chars.as_slice());
    let ghost lines = split_lines(text@);
    let mut requests: Vec<InterruptRequest> = Vec::new();
    let mut k: usize = 0;
    while k < ranges.len()
        invariant
            chars@ == text@,
            lines == split_lines(text@),
            pieces(chars@, ranges@) == lines,
            forall|j: int|
                0 <= j < ranges@.len() ==> (#[trigger] ranges@[j]).0 <= ranges@[j].1 <= chars@.len(),
            k <= ranges@.len(),
            interrupts_outcome(lines.take(k as int)) == Ok::<Seq<InterruptRequest>, InterruptFileError>(requests@),
        decreases ranges@.len() - k,
    {
        let (from, to) = ranges[k];
        proof {
            assert(lines[k as int] == chars@.subrange(from as int, to as int));
            assert(lines.take(k + 1).drop_last() =~= lines.take(k as int));
            assert(lines.take(k + 1).last() == lines[k as int]);
        }
        match parse_interrupt_line(chars.as_slice(), from, to, k + 1) {
            Ok(Some(request)) => {
                requests.push(request);
            },
            Ok(None) => {},
            Err(error) => {
                proof {
                    lemma_outcome_error_persists(lines, k + 1);
                }
                return Err(error);
            },
        }
        k = k + 1;
    }
    proof {
        assert(lines.take(ranges@.len() as int) =~= lines);
    }
    Ok(requests)
}

} // verus!
