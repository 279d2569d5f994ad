//! The text form of a timestamp, `YYYY-MM-DD HH:MM:SS.s+`: what it is, how
//! it is written and how it is read. Text is held as bytes here.

use crate::ascii::ascii_string;
use crate::ascii::is_ascii_bytes;
use crate::calendar::calendar_date_exists;
use crate::calendar::days_in_month;
use crate::calendar::DateTime;
use crate::calendar::NANOS_PER_SECOND;
use vstd::prelude::*;
use vstd::string::StringExecFns;

verus! {

/// The `width` decimal digits of `value`, the most significant first, with
/// zeros in front where `value` has fewer.
pub open spec fn decimal(value: nat, width: nat) -> Seq<u8>
    decreases width,
{
    if width == 0 {
        Seq::empty()
    } else {
        decimal(value / 10, (width - 1) as nat).push((48 + value % 10) as u8)
    }
}

/// `digits` without the zeros at its end, but for the first digit.
pub open spec fn trim_zeros(digits: Seq<u8>) -> Seq<u8>
    decreases digits.len(),
{
    if digits.len() > 1 && digits.last() == 48 {
        trim_zeros(digits.drop_last())
    } else {
        digits
    }
}

/// The text of a year: four digits, after a minus sign for a year before 0.
pub open spec fn year_text(year: int) -> Seq<u8> {
    if year < 0 {
        seq![45u8] + decimal((-year) as nat, 4)
    } else {
        decimal(year as nat, 4)
    }
}

/// The text of the part of a second: the digits of the nanosecond as far as
/// they are not zeros to the end, and at least one.
pub open spec fn subsecond_text(nanosecond: nat) -> Seq<u8> {
    trim_zeros(decimal(nanosecond, 9))
}

/// The text form of a date and time: `YYYY-MM-DD HH:MM:SS.s+`.
pub open spec fn timestamp_text(t: DateTime) -> Seq<u8> {
    year_text(t.year as int) + seq![45u8] + decimal(t.month as nat, 2) + seq![45u8] + decimal(
        t.day as nat,
        2,
    ) + seq![32u8] + decimal(t.hour as nat, 2) + seq![58u8] + decimal(t.minute as nat, 2)
        + seq![58u8] + decimal(t.second as nat, 2) + seq![46u8] + subsecond_text(
        t.nanosecond as nat,
    )
}

/// Decimal digits are ASCII digits, as many as asked for.
pub proof fn lemma_decimal(value: nat, width: nat)
    ensures
        decimal(value, width).len() == width,
        forall|i: int| 0 <= i < width ==> 48 <= #[trigger] decimal(value, width)[i] <= 57,
    decreases width,
{
    if width > 0 {
        lemma_decimal(value / 10, (width - 1) as nat);
    }
}

/// Trimming keeps a prefix of the digits, at least one where there is one.
pub proof fn lemma_trim_zeros(digits: Seq<u8>)
    ensures
        trim_zeros(digits).len() <= digits.len(),
        digits.len() >= 1 ==> trim_zeros(digits).len() >= 1,
        trim_zeros(digits) == digits.take(trim_zeros(digits).len() as int),
        trim_zeros(digits).len() > 1 ==> trim_zeros(digits).last() != 48,
        forall|i: int| trim_zeros(digits).len() <= i < digits.len() ==> digits[i] == 48,
    decreases digits.len(),
{
    if digits.len() > 1 && digits.last() == 48 {
        let shorter = digits.drop_last();
        lemma_trim_zeros(shorter);
        let k = trim_zeros(shorter).len() as int;
        assert(shorter.take(k) == digits.take(k));
        assert forall|i: int| k <= i < digits.len() implies digits[i] == 48 by {
            if i < shorter.len() {
                assert(shorter[i] == 48);
            }
        }
    } else {
        assert(digits.take(digits.len() as int) == digits);
    }
}

/// Appends the `width` decimal digits of `value` to `out`.
fn push_decimal(out: &mut Vec<u8>, value: u32, width: u8)
    ensures
        final(out)@ == old(out)@ + decimal(value as nat, width as nat),
    decreases width,
{
    if width > 0 {
        push_decimal(out, value / 10, width - 1);
        let digit = (48 + value % 10) as u8;
        out.push(digit);
        assert(final(out)@ =~= old(out)@ + decimal(value as nat, width as nat));
    } else {
        assert(final(out)@ =~= old(out)@ + decimal(value as nat, width as nat));
    }
}

/// Appends the text of the part of a second to `out`.
fn push_subsecond(out: &mut Vec<u8>, nanosecond: u32)
    ensures
        final(out)@ == old(out)@ + subsecond_text(nanosecond as nat),
{
    let mut digits: Vec<u8> = Vec::new();
    push_decimal(&mut digits, nanosecond, 9);
    proof {
        lemma_decimal(nanosecond as nat, 9);
    }
    assert(digits@ =~= decimal(nanosecond as nat, 9));
    assert(digits@.take(9) == digits@);
    let mut kept: usize = 9;
    while kept > 1 && digits[kept - 1] == 48
        invariant
            1 <= kept <= 9,
            digits@.len() == 9,
            trim_zeros(digits@.take(kept as int)) == subsecond_text(nanosecond as nat),
        decreases kept,
    {
        assert(digits@.take(kept as int).drop_last() == digits@.take(kept - 1));
        kept -= 1;
    }
    let mut i: usize = 0;
    while i < kept
        invariant
            i <= kept <= 9,
            digits@.len() == 9,
            out@ == old(out)@ + digits@.take(i as int),
        decreases kept - i,
    {
        out.push(digits[i]);
        assert(digits@.take(i + 1) == digits@.take(i as int).push(digits@[i as int]));
        i += 1;
    }
    assert(trim_zeros(digits@.take(kept as int)) == digits@.take(kept as int));
}

/// Writes the text form of a date and time that exist.
pub(crate) fn write_timestamp(t: &DateTime) -> (out: Vec<u8>)
    requires
        t.is_valid(),
    ensures
        out@ == timestamp_text(*t),
        is_ascii_bytes(out@),
{
    let mut out: Vec<u8> = Vec::new();
    if t.year < 0 {
        out.push(45);
        push_decimal(&mut out, (-t.year) as u32, 4);
    } else {
        push_decimal(&mut out, t.year as u32, 4);
    }
    assert(out@ =~= year_text(t.year as int));
    out.push(45);
    push_decimal(&mut out, t.month as u32, 2);
    out.push(45);
    push_decimal(&mut out, t.day as u32, 2);
    out.push(32);
    push_decimal(&mut out, t.hour as u32, 2);
    out.push(58);
    push_decimal(&mut out, t.minute as u32, 2);
    out.push(58);
    push_decimal(&mut out, t.second as u32, 2);
    out.push(46);
    push_subsecond(&mut out, t.nanosecond);
    assert(out@ =~= timestamp_text(*t));
    proof {
        lemma_timestamp_text_ascii(*t);
    }
    out
}

/// The text form of a date and time is ASCII text.
pub proof fn lemma_timestamp_text_ascii(t: DateTime)
    ensures
        is_ascii_bytes(timestamp_text(t)),
{
    lemma_decimal(if t.year < 0 { (-t.year) as nat } else { t.year as nat }, 4);
    lemma_decimal(t.month as nat, 2);
    lemma_decimal(t.day as nat, 2);
    lemma_decimal(t.hour as nat, 2);
    lemma_decimal(t.minute as nat, 2);
    lemma_decimal(t.second as nat, 2);
    lemma_decimal(t.nanosecond as nat, 9);
    lemma_trim_zeros(decimal(t.nanosecond as nat, 9));
    let sub = subsecond_text(t.nanosecond as nat);
    assert forall|i: int| 0 <= i < sub.len() implies 48 <= #[trigger] sub[i] <= 57 by {
        assert(sub[i] == decimal(t.nanosecond as nat, 9)[i]);
    }
}

/// Whether `b` is the ASCII code of a decimal digit.
pub open spec fn is_digit(b: u8) -> bool {
    48 <= b <= 57
}

/// Whether `text` consists of decimal digits only.
pub open spec fn all_digits(text: Seq<u8>) -> bool {
    forall|i: int| 0 <= i < text.len() ==> is_digit(#[trigger] text[i])
}

/// The number that decimal digits spell, the most significant first.
pub open spec fn digits_value(digits: Seq<u8>) -> nat
    decreases digits.len(),
{
    if digits.len() == 0 {
        0
    } else {
        digits_value(digits.drop_last()) * 10 + (digits.last() - 48) as nat
    }
}

/// Ten to the power of `n`.
pub open spec fn pow10(n: nat) -> nat
    decreases n,
{
    if n == 0 {
        1
    } else {
        10 * pow10((n - 1) as nat)
    }
}

/// Whether `text` has the byte `b` at the index `at`.
pub open spec fn has_byte(text: Seq<u8>, at: int, b: u8) -> bool {
    0 <= at < text.len() && text[at] == b
}

/// The number that the `count` bytes of `text` from `at` on spell, where
/// `text` has that many bytes there and all of them are digits.
pub open spec fn number_at(text: Seq<u8>, at: int, count: int) -> Option<nat> {
    if 0 <= at && 0 <= count && at + count <= text.len() && all_digits(
        text.subrange(at, at + count),
    ) {
        Some(digits_value(text.subrange(at, at + count)))
    } else {
        None
    }
}

/// The number that the two digits of `text` at `at` spell, where there are
/// two digits and the number lies between `low` and `high`.
pub open spec fn field_at(text: Seq<u8>, at: int, low: nat, high: nat) -> Option<nat> {
    match number_at(text, at, 2) {
        Some(value) => if low <= value <= high {
            Some(value)
        } else {
            None
        },
        None => None,
    }
}

/// The number of digits that follow one another in `text` from `at` on.
pub open spec fn digit_run(text: Seq<u8>, at: int) -> nat
    decreases text.len() - at,
{
    if 0 <= at < text.len() && is_digit(text[at]) {
        1 + digit_run(text, at + 1)
    } else {
        0
    }
}

/// The nanoseconds that the digits of `text` from `at` on stand for as the
/// part of a second: the first nine count, any further ones are passed over.
pub open spec fn subsecond_at(text: Seq<u8>, at: int) -> nat {
    let kept: int = if digit_run(text, at) < 9 {
        digit_run(text, at) as int
    } else {
        9
    };
    digits_value(text.subrange(at, at + kept)) * pow10((9 - kept) as nat)
}

/// A part of the text form of a timestamp that holds a number.
#[derive(Debug, Clone, Copy, PartialEq, Eq)]
pub enum TimestampComponent {
    /// The year: four digits, which a sign may precede.
    Year,
    /// The month: two digits, from 01 to 12.
    Month,
    /// The day of the month: two digits, from 01 to 31.
    Day,
    /// The hour: two digits, from 00 to 23.
    Hour,
    /// The minute: two digits, from 00 to 59.
    Minute,
    /// The second: two digits, from 00 to 59.
    Second,
    /// The part of the second: one digit or more.
    Subsecond,
}

/// Why a text is not the text form of a timestamp.
#[derive(Debug, Clone, Copy, PartialEq, Eq)]
pub enum TimestampParseError {
    /// The bytes from `position` on are not the digits of `component`, or
    /// spell a number that `component` never has.
    InvalidComponent { component: TimestampComponent, position: usize },
    /// The byte at `position` is not the separator that the format has there.
    InvalidLiteral { position: usize },
    /// The text goes on at `position`, after the last digit.
    UnexpectedTrailingCharacters { position: usize },
    /// All parts are there, but the month of that year has no such day.
    NoSuchDay,
}

impl TimestampComponent {
    /// The name of the part.
    pub open spec fn name(self) -> Seq<char> {
        match self {
            TimestampComponent::Year => "year"@,
            TimestampComponent::Month => "month"@,
            TimestampComponent::Day => "day"@,
            TimestampComponent::Hour => "hour"@,
            TimestampComponent::Minute => "minute"@,
            TimestampComponent::Second => "second"@,
            TimestampComponent::Subsecond => "subsecond"@,
        }
    }

    /// Returns the name of the part.
    pub fn as_str(&self) -> (name: &'static str)
        ensures
            name@ == self.name(),
    {
        match self {
            TimestampComponent::Year => "year",
            TimestampComponent::Month => "month",
            TimestampComponent::Day => "day",
            TimestampComponent::Hour => "hour",
            TimestampComponent::Minute => "minute",
            TimestampComponent::Second => "second",
            TimestampComponent::Subsecond => "subsecond",
        }
    }
}

impl TimestampParseError {
    /// The description of the failure, in words.
    pub open spec fn description(self) -> Seq<char> {
        match self {
            TimestampParseError::InvalidComponent { component, .. } => "the '"@ + component.name()
                + "' component could not be parsed"@,
            TimestampParseError::InvalidLiteral { .. } => "a character literal was not valid"@,
            TimestampParseError::UnexpectedTrailingCharacters { .. } =>
                "unexpected trailing characters; the end of input was expected"@,
            TimestampParseError::NoSuchDay => "the 'day' component is out of range for its month"@,
        }
    }

    /// Returns the description of the failure, in words.
    pub fn message(&self) -> (message: String)
        ensures
            message@ == self.description(),
    {
        match self {
            TimestampParseError::InvalidComponent { component, .. } => {
                let mut message = "the '".to_owned();
                message.append(component.as_str());
                message.append("' component could not be parsed");
                message
            },
            TimestampParseError::InvalidLiteral { .. } => {
                "a character literal was not valid".to_owned()
            },
            TimestampParseError::UnexpectedTrailingCharacters { .. } => {
                "unexpected trailing characters; the end of input was expected".to_owned()
            },
            TimestampParseError::NoSuchDay => {
                "the 'day' component is out of range for its month".to_owned()
            },
        }
    }
}

/// What reading `text` as `YYYY-MM-DD HH:MM:SS.s+` gives: the date and time,
/// or the first thing, from the left, that does not fit the format. A plus
/// or minus sign may stand before the year. The day is held against the
/// length of its month last.
pub open spec fn parse_outcome(text: Seq<u8>) -> Result<DateTime, TimestampParseError> {
    let negative = has_byte(text, 0, 45);
    let s: int = if negative || has_byte(text, 0, 43) {
        1
    } else {
        0
    };
    if number_at(text, s, 4) is None {
        Err(
            TimestampParseError::InvalidComponent {
                component: TimestampComponent::Year,
                position: 0,
            },
        )
    } else if !has_byte(text, s + 4, 45) {
        Err(TimestampParseError::InvalidLiteral { position: (s + 4) as usize })
    } else if field_at(text, s + 5, 1, 12) is None {
        Err(
            TimestampParseError::InvalidComponent {
                component: TimestampComponent::Month,
                position: (s + 5) as usize,
            },
        )
    } else if !has_byte(text, s + 7, 45) {
        Err(TimestampParseError::InvalidLiteral { position: (s + 7) as usize })
    } else if field_at(text, s + 8, 1, 31) is None {
        Err(
            TimestampParseError::InvalidComponent {
                component: TimestampComponent::Day,
                position: (s + 8) as usize,
            },
        )
    } else if !has_byte(text, s + 10, 32) {
        Err(TimestampParseError::InvalidLiteral { position: (s + 10) as usize })
    } else if field_at(text, s + 11, 0, 23) is None {
        Err(
            TimestampParseError::InvalidComponent {
                component: TimestampComponent::Hour,
                position: (s + 11) as usize,
            },
        )
    } else if !has_byte(text, s + 13, 58) {
        Err(TimestampParseError::InvalidLiteral { position: (s + 13) as usize })
    } else if field_at(text, s + 14, 0, 59) is None {
        Err(
            TimestampParseError::InvalidComponent {
                component: TimestampComponent::Minute,
                position: (s + 14) as usize,
            },
        )
    } else if !has_byte(text, s + 16, 58) {
        Err(TimestampParseError::InvalidLiteral { position: (s + 16) as usize })
    } else if field_at(text, s + 17, 0, 59) is None {
        Err(
            TimestampParseError::InvalidComponent {
                component: TimestampComponent::Second,
                position: (s + 17) as usize,
            },
        )
    } else if !has_byte(text, s + 19, 46) {
        Err(TimestampParseError::InvalidLiteral { position: (s + 19) as usize })
    } else if digit_run(text, s + 20) == 0 {
        Err(
            TimestampParseError::InvalidComponent {
                component: TimestampComponent::Subsecond,
                position: (s + 20) as usize,
            },
        )
    } else if s + 20 + digit_run(text, s + 20) < text.len() {
        Err(
            TimestampParseError::UnexpectedTrailingCharacters {
                position: (s + 20 + digit_run(text, s + 20)) as usize,
            },
        )
    } else {
        let year: int = if negative {
            -(number_at(text, s, 4)->0 as int)
        } else {
            number_at(text, s, 4)->0 as int
        };
        let month = field_at(text, s + 5, 1, 12)->0;
        let day = field_at(text, s + 8, 1, 31)->0;
        if day > days_in_month(year, month as int) {
            Err(TimestampParseError::NoSuchDay)
        } else {
            Ok(
                DateTime {
                    year: year as i32,
                    month: month as u8,
                    day: day as u8,
                    hour: field_at(text, s + 11, 0, 23)->0 as u8,
                    minute: field_at(text, s + 14, 0, 59)->0 as u8,
                    second: field_at(text, s + 17, 0, 59)->0 as u8,
                    nanosecond: subsecond_at(text, s + 20) as u32,
                },
            )
        }
    }
}

/// The first powers of ten.
pub proof fn lemma_pow10()
    ensures
        pow10(0) == 1,
        pow10(1) == 10,
        pow10(2) == 100,
        pow10(3) == 1_000,
        pow10(4) == 10_000,
        pow10(5) == 100_000,
        pow10(6) == 1_000_000,
        pow10(7) == 10_000_000,
        pow10(8) == 100_000_000,
        pow10(9) == 1_000_000_000,
{
    reveal_with_fuel(pow10, 11);
}

/// A product of powers of ten is the power of ten of the sum.
pub proof fn lemma_pow10_add(a: nat, b: nat)
    ensures
        pow10(a) * pow10(b) == pow10(a + b),
    decreases a,
{
    if a == 0 {
        assert(1 * pow10(b) == pow10(b)) by (nonlinear_arith);
    } else {
        lemma_pow10_add((a - 1) as nat, b);
        let p = pow10((a - 1) as nat);
        let q = pow10(b);
        assert(pow10(a + b) == 10 * pow10((a - 1 + b) as nat));
        assert((10 * p) * q == 10 * (p * q)) by (nonlinear_arith);
    }
}

/// Digits spell a number below the power of ten of their count.
pub proof fn lemma_digits_value_bound(digits: Seq<u8>)
    requires
        all_digits(digits),
    ensures
        digits_value(digits) < pow10(digits.len()),
    decreases digits.len(),
{
    if digits.len() > 0 {
        let front = digits.drop_last();
        assert forall|i: int| 0 <= i < front.len() implies is_digit(#[trigger] front[i]) by {
            assert(front[i] == digits[i]);
        }
        lemma_digits_value_bound(front);
        assert(is_digit(digits.last()));
    }
}

/// Tells whether `text` has the byte `b` at the index `at`.
fn byte_is(text: &[u8], at: usize, b: u8) -> (found: bool)
    ensures
        found == has_byte(text@, at as int, b),
{
    at < text.len() && text[at] == b
}

/// Reads the number that the `count` digits of `text` at `at` spell.
fn read_number(text: &[u8], at: usize, count: usize) -> (number: Option<u32>)
    requires
        at <= 32,
        count <= 4,
    ensures
        number matches Some(value) ==> number_at(text@, at as int, count as int) == Some(
            value as nat,
        ),
        number is None ==> number_at(text@, at as int, count as int) is None,
{
    if text.len() < at + count {
        return None;
    }
    let mut value: u32 = 0;
    let mut i: usize = 0;
    while i < count
        invariant
            i <= count <= 4,
            at + count <= text.len(),
            all_digits(text@.subrange(at as int, at + i)),
            value == digits_value(text@.subrange(at as int, at + i)),
        decreases count - i,
    {
        let b = text[at + i];
        if b < 48 || b > 57 {
            assert(!is_digit(text@.subrange(at as int, at + count)[i as int]));
            return None;
        }
        proof {
            lemma_pow10();
            lemma_digits_value_bound(text@.subrange(at as int, at + i));
            let longer = text@.subrange(at as int, at + i + 1);
            assert(longer.drop_last() == text@.subrange(at as int, at + i));
            assert(longer.last() == b);
            assert forall|j: int| 0 <= j < longer.len() implies is_digit(#[trigger] longer[j]) by {
                if j < i {
                    assert(longer[j] == text@.subrange(at as int, at + i)[j]);
                }
            }
        }
        value = value * 10 + (b - 48) as u32;
        i += 1;
    }
    Some(value)
}

/// Reads the two digits of `text` at `at` as a number between `low` and
/// `high`.
fn read_field(text: &[u8], at: usize, low: u8, high: u8) -> (field: Option<u8>)
    requires
        at <= 32,
    ensures
        field matches Some(value) ==> field_at(text@, at as int, low as nat, high as nat) == Some(
            value as nat,
        ),
        field is None ==> field_at(text@, at as int, low as nat, high as nat) is None,
{
    match read_number(text, at, 2) {
        Some(value) => {
            if low as u32 <= value && value <= high as u32 {
                Some(value as u8)
            } else {
                None
            }
        },
        None => None,
    }
}

/// Reads the digits of `text` from `at` on as the part of a second. Gives
/// the nanoseconds and the index after the last digit.
fn read_subsecond(text: &[u8], at: usize) -> (res: (u32, usize))
    requires
        at <= text.len(),
    ensures
        res.1 == at + digit_run(text@, at as int),
        res.1 <= text.len(),
        res.0 == subsecond_at(text@, at as int),
        res.0 < NANOS_PER_SECOND,
{
    let mut value: u32 = 0;
    let mut kept: usize = 0;
    let mut i: usize = at;
    proof {
        lemma_pow10();
        assert(text@.subrange(at as int, at as int).len() == 0);
    }
    while i < text.len() && 48 <= text[i] && text[i] <= 57
        invariant
            at <= i <= text.len(),
            kept <= 9,
            kept == if i - at < 9 { i - at } else { 9 },
            digit_run(text@, at as int) == (i - at) + digit_run(text@, i as int),
            all_digits(text@.subrange(at as int, at + kept)),
            value == digits_value(text@.subrange(at as int, at + kept)),
        decreases text.len() - i,
    {
        if kept < 9 {
            let b = text[i];
            proof {
                lemma_pow10();
                lemma_digits_value_bound(text@.subrange(at as int, at + kept));
                assert(pow10(kept as nat) <= pow10(8)) by {
                    reveal_with_fuel(pow10, 11);
                }
                let longer = text@.subrange(at as int, at + kept + 1);
                assert(longer.drop_last() == text@.subrange(at as int, at + kept));
                assert(longer.last() == b);
                assert forall|j: int| 0 <= j < longer.len() implies is_digit(
                    #[trigger] longer[j],
                ) by {
                    if j < kept {
                        assert(longer[j] == text@.subrange(at as int, at + kept)[j]);
                    }
                }
            }
            value = value * 10 + (b - 48) as u32;
            kept += 1;
        }
        i += 1;
    }
    assert(digit_run(text@, i as int) == 0);
    let ghost digits = digits_value(text@.subrange(at as int, at + kept));
    proof {
        lemma_digits_value_bound(text@.subrange(at as int, at + kept));
        lemma_pow10();
        assert(digits * pow10(0) == digits) by (nonlinear_arith)
            requires
                pow10(0) == 1,
        ;
    }
    let mut width: usize = kept;
    while width < 9
        invariant
            kept <= width <= 9,
            value == digits * pow10((width - kept) as nat),
            digits < pow10(kept as nat),
            value < pow10(width as nat),
        decreases 9 - width,
    {
        proof {
            lemma_pow10();
            assert(pow10(width as nat) <= pow10(8)) by {
                reveal_with_fuel(pow10, 11);
            }
            let p = pow10((width - kept) as nat);
            assert(pow10((width + 1 - kept) as nat) == 10 * p);
            assert(digits * p * 10 == digits * (10 * p)) by (nonlinear_arith);
            assert(pow10((width + 1) as nat) == 10 * pow10(width as nat));
        }
        value = value * 10;
        width += 1;
    }
    proof {
        lemma_pow10();
    }
    (value, i)
}

/// Builds the error for a part of the text that is no number of its kind.
fn invalid(component: TimestampComponent, position: usize) -> (cause: TimestampParseError)
    ensures
        cause == (TimestampParseError::InvalidComponent { component, position }),
{
    TimestampParseError::InvalidComponent { component, position }
}

/// Reads a date and time from the bytes of their text form. The whole of
/// `bytes` has to fit the format, and the date and time have to exist.
pub fn read_timestamp(bytes: &[u8]) -> (res: Result<DateTime, TimestampParseError>)
    ensures
        res == parse_outcome(bytes@),
        res matches Ok(t) ==> t.is_valid(),
{
    let negative = byte_is(bytes, 0, 45);
    let s: usize = if negative || byte_is(bytes, 0, 43) {
        1
    } else {
        0
    };
    let unsigned_year = match read_number(bytes, s, 4) {
        Some(value) => value,
        None => { return Err(invalid(TimestampComponent::Year, 0)); },
    };
    if !byte_is(bytes, s + 4, 45) {
        return Err(TimestampParseError::InvalidLiteral { position: s + 4 });
    }
    let month = match read_field(bytes, s + 5, 1, 12) {
        Some(value) => value,
        None => { return Err(invalid(TimestampComponent::Month, s + 5)); },
    };
    if !byte_is(bytes, s + 7, 45) {
        return Err(TimestampParseError::InvalidLiteral { position: s + 7 });
    }
    let day = match read_field(bytes, s + 8, 1, 31) {
        Some(value) => value,
        None => { return Err(invalid(TimestampComponent::Day, s + 8)); },
    };
    if !byte_is(bytes, s + 10, 32) {
        return Err(TimestampParseError::InvalidLiteral { position: s + 10 });
    }
    let hour = match read_field(bytes, s + 11, 0, 23) {
        Some(value) => value,
        None => { return Err(invalid(TimestampComponent::Hour, s + 11)); },
    };
    if !byte_is(bytes, s + 13, 58) {
        return Err(TimestampParseError::InvalidLiteral { position: s + 13 });
    }
    let minute = match read_field(bytes, s + 14, 0, 59) {
        Some(value) => value,
        None => { return Err(invalid(TimestampComponent::Minute, s + 14)); },
    };
    if !byte_is(bytes, s + 16, 58) {
        return Err(TimestampParseError::InvalidLiteral { position: s + 16 });
    }
    let second = match read_field(bytes, s + 17, 0, 59) {
        Some(value) => value,
        None => { return Err(invalid(TimestampComponent::Second, s + 17)); },
    };
    if !byte_is(bytes, s + 19, 46) {
        return Err(TimestampParseError::InvalidLiteral { position: s + 19 });
    }
    let (nanosecond, end) = read_subsecond(bytes, s + 20);
    if end == s + 20 {
        return Err(invalid(TimestampComponent::Subsecond, s + 20));
    }
    if end < bytes.len() {
        return Err(TimestampParseError::UnexpectedTrailingCharacters { position: end });
    }
    proof {
        lemma_pow10();
        lemma_digits_value_bound(bytes@.subrange(s as int, s + 4));
    }
    let year: i32 = if negative {
        -(unsigned_year as i32)
    } else {
        unsigned_year as i32
    };
    if !calendar_date_exists(year, month, day) {
        return Err(TimestampParseError::NoSuchDay);
    }
    Ok(DateTime { year, month, day, hour, minute, second, nanosecond })
}

/// The decimal digits of a number that fits their count spell that number.
pub proof fn lemma_decimal_value(value: nat, width: nat)
    requires
        value < pow10(width),
    ensures
        decimal(value, width).len() == width,
        all_digits(decimal(value, width)),
        digits_value(decimal(value, width)) == value,
    decreases width,
{
    lemma_decimal(value, width);
    if width > 0 {
        let front = decimal(value / 10, (width - 1) as nat);
        lemma_decimal_value(value / 10, (width - 1) as nat);
        assert(decimal(value, width).drop_last() == front);
    }
}

/// Where digits go on to the end of a text, their run does too.
pub proof fn lemma_digit_run_to_end(text: Seq<u8>, at: int)
    requires
        0 <= at <= text.len(),
        forall|i: int| at <= i < text.len() ==> is_digit(#[trigger] text[i]),
    ensures
        digit_run(text, at) == text.len() - at,
    decreases text.len() - at,
{
    if at < text.len() {
        lemma_digit_run_to_end(text, at + 1);
    }
}

/// The zeros that trimming drops are powers of ten of the number spelled.
pub proof fn lemma_trim_zeros_value(digits: Seq<u8>)
    requires
        all_digits(digits),
    ensures
        all_digits(trim_zeros(digits)),
        digits_value(digits) == digits_value(trim_zeros(digits)) * pow10(
            (digits.len() - trim_zeros(digits).len()) as nat,
        ),
    decreases digits.len(),
{
    lemma_trim_zeros(digits);
    if digits.len() > 1 && digits.last() == 48 {
        let front = digits.drop_last();
        assert forall|i: int| 0 <= i < front.len() implies is_digit(#[trigger] front[i]) by {
            assert(front[i] == digits[i]);
        }
        lemma_trim_zeros_value(front);
        lemma_trim_zeros(front);
        let v = digits_value(trim_zeros(front));
        let p = pow10((front.len() - trim_zeros(front).len()) as nat);
        assert(pow10((digits.len() - trim_zeros(digits).len()) as nat) == 10 * p);
        assert(v * p * 10 == v * (10 * p)) by (nonlinear_arith);
    } else {
        assert(digits_value(digits) * pow10(0) == digits_value(digits)) by (nonlinear_arith)
            requires
                pow10(0) == 1,
        ;
    }
}

/// What the format accepts exists: where a text is read as a date and time,
/// the calendar has the day and the clock has the time of day.
pub proof fn lemma_parse_outcome_valid(text: Seq<u8>)
    ensures
        parse_outcome(text) matches Ok(t) ==> t.is_valid(),
{
    if parse_outcome(text) is Ok {
        let s: int = if has_byte(text, 0, 45) || has_byte(text, 0, 43) { 1 } else { 0 };
        lemma_pow10();
        lemma_digits_value_bound(text.subrange(s, s + 4));
        let run = digit_run(text, s + 20);
        let kept: int = if run < 9 { run as int } else { 9 };
        lemma_digit_run(text, s + 20);
        let digits = text.subrange(s + 20, s + 20 + kept);
        assert forall|i: int| 0 <= i < digits.len() implies is_digit(#[trigger] digits[i]) by {
            assert(digits[i] == text[s + 20 + i]);
        }
        lemma_digits_value_bound(digits);
        let value = digits_value(digits);
        let high = pow10(kept as nat);
        let scale = pow10((9 - kept) as nat);
        lemma_pow10_add(kept as nat, (9 - kept) as nat);
        assert(value * scale < 1_000_000_000) by (nonlinear_arith)
            requires
                value < high,
                high * scale == 1_000_000_000,
                scale > 0,
        ;
    }
}

/// Only ASCII text is read as a date and time: any other character, like a
/// character that no part of the format has, makes a text fail.
pub proof fn lemma_parse_outcome_ascii(text: Seq<u8>)
    ensures
        parse_outcome(text) is Ok ==> is_ascii_bytes(text),
{
    if parse_outcome(text) is Ok {
        let s: int = if has_byte(text, 0, 45) || has_byte(text, 0, 43) { 1 } else { 0 };
        let run = digit_run(text, s + 20) as int;
        lemma_digit_run(text, s + 20);
        assert(text.len() == s + 20 + run);
        assert forall|i: int| 0 <= i < text.len() implies text[i] < 128 by {
            if i < s {
            } else if i < s + 4 {
                assert(is_digit(text.subrange(s, s + 4)[i - s]));
            } else if i == s + 4 {
            } else if i < s + 7 {
                assert(is_digit(text.subrange(s + 5, s + 7)[i - (s + 5)]));
            } else if i == s + 7 {
            } else if i < s + 10 {
                assert(is_digit(text.subrange(s + 8, s + 10)[i - (s + 8)]));
            } else if i == s + 10 {
            } else if i < s + 13 {
                assert(is_digit(text.subrange(s + 11, s + 13)[i - (s + 11)]));
            } else if i == s + 13 {
            } else if i < s + 16 {
                assert(is_digit(text.subrange(s + 14, s + 16)[i - (s + 14)]));
            } else if i == s + 16 {
            } else if i < s + 19 {
                assert(is_digit(text.subrange(s + 17, s + 19)[i - (s + 17)]));
            } else if i == s + 19 {
            } else {
                assert(is_digit(text[i]));
            }
        }
    }
}

/// A run of digits holds digits only and stays within the text.
pub proof fn lemma_digit_run(text: Seq<u8>, at: int)
    requires
        0 <= at,
    ensures
        at + digit_run(text, at) <= text.len() || digit_run(text, at) == 0,
        forall|i: int| at <= i < at + digit_run(text, at) ==> is_digit(#[trigger] text[i]),
    decreases text.len() - at,
{
    if at < text.len() && is_digit(text[at]) {
        lemma_digit_run(text, at + 1);
    }
}

/// Decoding the text form of a date and time that exist gives them back, to
/// the nanosecond.
pub proof fn lemma_decode_encode(t: DateTime)
    requires
        t.is_valid(),
    ensures
        parse_outcome(timestamp_text(t)) matches Ok(read) && read == t,
        vstd::utf8::encode_utf8(ascii_string(timestamp_text(t))) == timestamp_text(t),
{
    lemma_pow10();
    let text = timestamp_text(t);
    let s: int = if t.year < 0 { 1 } else { 0 };
    let year: nat = if t.year < 0 { (-t.year) as nat } else { t.year as nat };
    let nine = decimal(t.nanosecond as nat, 9);
    let sub = subsecond_text(t.nanosecond as nat);
    let k = sub.len() as int;
    lemma_decimal_value(year, 4);
    lemma_decimal_value(t.month as nat, 2);
    lemma_decimal_value(t.day as nat, 2);
    lemma_decimal_value(t.hour as nat, 2);
    lemma_decimal_value(t.minute as nat, 2);
    lemma_decimal_value(t.second as nat, 2);
    lemma_decimal_value(t.nanosecond as nat, 9);
    lemma_trim_zeros(nine);
    lemma_trim_zeros_value(nine);
    assert(1 <= k <= 9);
    assert(text.len() == s + 20 + k);
    assert(year_text(t.year as int).len() == s + 4);
    // The sign.
    if t.year < 0 {
        assert(text[0] == 45);
    } else {
        assert(text[0] == decimal(year, 4)[0]);
        assert(is_digit(decimal(year, 4)[0]));
    }
    // The parts that hold a number.
    assert(text.subrange(s, s + 4) =~= decimal(year, 4));
    assert(text.subrange(s + 5, s + 7) =~= decimal(t.month as nat, 2));
    assert(text.subrange(s + 8, s + 10) =~= decimal(t.day as nat, 2));
    assert(text.subrange(s + 11, s + 13) =~= decimal(t.hour as nat, 2));
    assert(text.subrange(s + 14, s + 16) =~= decimal(t.minute as nat, 2));
    assert(text.subrange(s + 17, s + 19) =~= decimal(t.second as nat, 2));
    assert(text.subrange(s + 20, s + 20 + k) =~= sub);
    // The separators.
    assert(text[s + 4] == 45 && text[s + 7] == 45 && text[s + 10] == 32);
    assert(text[s + 13] == 58 && text[s + 16] == 58 && text[s + 19] == 46);
    // The part of the second runs to the end of the text.
    assert forall|i: int| s + 20 <= i < text.len() implies is_digit(#[trigger] text[i]) by {
        assert(text[i] == sub[i - (s + 20)]);
        assert(is_digit(sub[i - (s + 20)]));
    }
    lemma_digit_run_to_end(text, s + 20);
    assert(digit_run(text, s + 20) == k);
    assert(subsecond_at(text, s + 20) == digits_value(sub) * pow10((9 - k) as nat));
    assert(digits_value(nine) == t.nanosecond);
    assert(subsecond_at(text, s + 20) == t.nanosecond);
    lemma_timestamp_text_ascii(t);
    crate::ascii::lemma_ascii_string_bytes(text);
}

} // verus!
