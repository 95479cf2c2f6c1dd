//! Text helpers: comparison, search, trimming, and unsigned decimal numbers.

use vstd::prelude::*;
use vstd::string::*;
use vstd::utf8::*;

verus! {

/// `str`'s `==`: two string slices are equal exactly when they hold the same
/// characters in the same order.
pub assume_specification[ <str as PartialEq>::eq ](s: &str, other: &str) -> (res: bool)
    ensures
        res == (s@ == other@),
;

/// The characters of a string, in order.
pub fn chars_of(s: &str) -> (chars: Vec<char>)
    ensures
        chars@ == s@,
{
    let mut chars: Vec<char> = Vec::new();
    for c in it: s.chars()
        invariant
            it.seq() == s@,
            chars@ == s@.take(it.index() as int),
    {
        assert(s@.take(it.index() as int).push(c) =~= s@.take(it.index() + 1));
        chars.push(c);
    }
    assert(s@.take(s@.len() as int) =~= s@);
    chars
}

/// Whether `part` occurs in `whole` at position `at`.
pub open spec fn occurs_at(whole: Seq<char>, part: Seq<char>, at: int) -> bool {
    &&& 0 <= at
    &&& at + part.len() <= whole.len()
    &&& whole.subrange(at, at + part.len()) == part
}

/// Whether `part` occurs somewhere in `whole`.
pub open spec fn has_substring(whole: Seq<char>, part: Seq<char>) -> bool {
    exists|at: int| #[trigger] occurs_at(whole, part, at)
}

/// Whether `part` occurs in `whole` at position `at`.
fn matches_at(whole: &Vec<char>, part: &Vec<char>, at: usize) -> (found: bool)
    requires
        at + part@.len() <= whole.len(),
    ensures
        found == occurs_at(whole@, part@, at as int),
{
    let mut i: usize = 0;
    while i < part.len()
        invariant
            i <= part@.len(),
            at + part@.len() <= whole.len(),
            forall|j: int| 0 <= j < i ==> whole@[at + j] == #[trigger] part@[j],
        decreases part@.len() - i,
    {
        if whole[at + i] != part[i] {
            proof {
                assert(whole@.subrange(at as int, at + part@.len())[i as int] == whole@[at + i]);
            }
            return false;
        }
        i += 1;
    }
    assert(whole@.subrange(at as int, at + part@.len()) =~= part@);
    true
}

/// Whether `part` occurs in `whole`.
pub fn contains(whole: &str, part: &str) -> (found: bool)
    ensures
        found == has_substring(whole@, part@),
{
    let whole_chars = chars_of(whole);
    let part_chars = chars_of(part);
    if part_chars.len() > whole_chars.len() {
        return false;
    }
    let mut at: usize = 0;
    let last: usize = whole_chars.len() - part_chars.len();
    while at <= last
        invariant
            whole_chars@ == whole@,
            part_chars@ == part@,
            last == whole@.len() - part@.len(),
            at <= last + 1,
            forall|j: int| 0 <= j < at ==> !#[trigger] occurs_at(whole@, part@, j),
        decreases last + 1 - at,
    {
        if matches_at(&whole_chars, &part_chars, at) {
            return true;
        }
        if at == last {
            return false;
        }
        at += 1;
    }
    false
}

// ---------------------------------------------------------------------------
// Quoting
// ---------------------------------------------------------------------------

/// A text as Rust's `{:?}` quotes it.
pub uninterp spec fn quoted(text: Seq<char>) -> Seq<char>;

/// Formats with `{:?}`. The result is named by [`quoted`]: a function of the
/// text alone.
#[verifier::external_body]
pub(crate) fn quote(text: &str) -> (res: String)
    ensures
        res@ == quoted(text@),
{
    format!("{text:?}")
}

// ---------------------------------------------------------------------------
// Case mapping
// ---------------------------------------------------------------------------

/// What `str::to_uppercase` returns on the characters `s`.
pub uninterp spec fn uppercased(s: Seq<char>) -> Seq<char>;

/// What `str::to_lowercase` returns on the characters `s`.
pub uninterp spec fn lowercased(s: Seq<char>) -> Seq<char>;

/// The upper-case form of an ASCII character; any other character unchanged.
pub open spec fn ascii_upper(c: char) -> char {
    if 'a' <= c <= 'z' {
        ((c as u32) - 32) as char
    } else {
        c
    }
}

/// The lower-case form of an ASCII character; any other character unchanged.
pub open spec fn ascii_lower(c: char) -> char {
    if 'A' <= c <= 'Z' {
        ((c as u32) + 32) as char
    } else {
        c
    }
}

/// ASCII text in upper case.
pub open spec fn ascii_uppercased(s: Seq<char>) -> Seq<char> {
    s.map_values(|c: char| ascii_upper(c))
}

/// ASCII text in lower case.
pub open spec fn ascii_lowercased(s: Seq<char>) -> Seq<char> {
    s.map_values(|c: char| ascii_lower(c))
}

/// Calls `str::to_uppercase`. Its result is named by [`uppercased`]: a
/// function of the text alone. On ASCII text the mapping is the ASCII one,
/// letter by letter; what it does beyond ASCII is left unsaid.
#[verifier::external_body]
pub(crate) fn to_uppercase(s: &str) -> (res: String)
    ensures
        res@ == uppercased(s@),
        is_ascii_chars(s@) ==> res@ == ascii_uppercased(s@),
{
    s.to_uppercase()
}

/// Calls `str::to_lowercase`. Its result is named by [`lowercased`]: a
/// function of the text alone. On ASCII text the mapping is the ASCII one,
/// letter by letter; what it does beyond ASCII is left unsaid.
#[verifier::external_body]
pub(crate) fn to_lowercase(s: &str) -> (res: String)
    ensures
        res@ == lowercased(s@),
        is_ascii_chars(s@) ==> res@ == ascii_lowercased(s@),
{
    s.to_lowercase()
}

// ---------------------------------------------------------------------------
// Trimming
// ---------------------------------------------------------------------------

/// Unicode's `White_Space` property.
pub open spec fn is_space(c: char) -> bool {
    ||| '\u{9}' <= c <= '\u{d}'
    ||| c == '\u{20}'
    ||| c == '\u{85}'
    ||| c == '\u{a0}'
    ||| c == '\u{1680}'
    ||| '\u{2000}' <= c <= '\u{200a}'
    ||| '\u{2028}' <= c <= '\u{2029}'
    ||| c == '\u{202f}'
    ||| c == '\u{205f}'
    ||| c == '\u{3000}'
}

/// The number of leading characters of `s` that are white space.
pub open spec fn leading_spaces(s: Seq<char>) -> nat
    decreases s.len(),
{
    if s.len() > 0 && is_space(s[0]) {
        1 + leading_spaces(s.drop_first())
    } else {
        0
    }
}

/// `s` without the characters at its end that satisfy `drop`.
pub open spec fn without_trailing(s: Seq<char>, drop: spec_fn(char) -> bool) -> Seq<char>
    decreases s.len(),
{
    if s.len() > 0 && drop(s.last()) {
        without_trailing(s.drop_last(), drop)
    } else {
        s
    }
}

/// `s` without white space at either end.
pub open spec fn trimmed(s: Seq<char>) -> Seq<char> {
    without_trailing(s.skip(leading_spaces(s) as int), |c: char| is_space(c))
}

fn char_is_space(c: char) -> (res: bool)
    ensures
        res == is_space(c),
{
    ('\u{9}' <= c && c <= '\u{d}') || c == '\u{20}' || c == '\u{85}' || c == '\u{a0}'
        || c == '\u{1680}' || ('\u{2000}' <= c && c <= '\u{200a}')
        || ('\u{2028}' <= c && c <= '\u{2029}') || c == '\u{202f}' || c == '\u{205f}'
        || c == '\u{3000}'
}

/// `s` without white space at either end.
pub fn trim(s: &str) -> (res: &str)
    ensures
        res@ == trimmed(s@),
{
    let chars = chars_of(s);
    let mut start: usize = 0;
    assert(chars@.skip(0) =~= chars@);
    while start < chars.len() && char_is_space(chars[start])
        invariant
            start <= chars@.len(),
            start + leading_spaces(chars@.skip(start as int)) == leading_spaces(chars@),
        decreases chars@.len() - start,
    {
        assert(chars@.skip(start as int).drop_first() =~= chars@.skip(start + 1));
        start += 1;
    }
    assert(leading_spaces(chars@.skip(start as int)) == 0);
    let mut end: usize = chars.len();
    let ghost drop = |c: char| is_space(c);
    assert(chars@.subrange(start as int, end as int) =~= chars@.skip(start as int));
    while end > start && char_is_space(chars[end - 1])
        invariant
            start <= end <= chars@.len(),
            drop == (|c: char| is_space(c)),
            without_trailing(chars@.subrange(start as int, end as int), drop)
                == without_trailing(chars@.skip(start as int), drop),
        decreases end,
    {
        assert(chars@.subrange(start as int, end as int).drop_last() =~= chars@.subrange(
            start as int,
            end - 1,
        ));
        end -= 1;
    }
    s.substring_char(start, end)
}

/// `s` without carriage returns and line feeds at its end.
pub open spec fn without_line_end(s: Seq<char>) -> Seq<char> {
    without_trailing(s, |c: char| c == '\r' || c == '\n')
}

/// `s` without carriage returns and line feeds at its end.
pub fn trim_line_end(s: &str) -> (res: &str)
    ensures
        res@ == without_line_end(s@),
{
    let chars = chars_of(s);
    let mut end: usize = chars.len();
    let ghost drop = |c: char| c == '\r' || c == '\n';
    assert(chars@.take(end as int) =~= chars@);
    while end > 0 && (chars[end - 1] == '\r' || chars[end - 1] == '\n')
        invariant
            end <= chars@.len(),
            drop == (|c: char| c == '\r' || c == '\n'),
            without_trailing(chars@.take(end as int), drop) == without_trailing(chars@, drop),
        decreases end,
    {
        assert(chars@.take(end as int).drop_last() =~= chars@.take(end - 1));
        end -= 1;
    }
    assert(s@.subrange(0, end as int) =~= chars@.take(end as int));
    s.substring_char(0, end)
}

// ---------------------------------------------------------------------------
// Unsigned decimal numbers
// ---------------------------------------------------------------------------

/// Why a text is not an unsigned number in range.
#[derive(Debug, Clone, Copy, PartialEq, Eq, Structural)]
pub enum NumberError {
    /// There is nothing to read.
    Empty,
    /// A character is not a decimal digit (or a lone sign stands there).
    InvalidDigit,
    /// The digits name a number above the limit.
    TooLarge,
}

impl NumberError {
    /// What is said of the error.
    pub open spec fn text(self) -> Seq<char> {
        match self {
            NumberError::Empty => "cannot parse integer from empty string"@,
            NumberError::InvalidDigit => "invalid digit found in string"@,
            NumberError::TooLarge => "number too large to fit in target type"@,
        }
    }

    /// What is said of the error.
    pub fn message(self) -> (res: &'static str)
        ensures
            res@ == self.text(),
    {
        match self {
            NumberError::Empty => "cannot parse integer from empty string",
            NumberError::InvalidDigit => "invalid digit found in string",
            NumberError::TooLarge => "number too large to fit in target type",
        }
    }
}

/// Whether `c` is an ASCII decimal digit.
pub open spec fn is_digit(c: char) -> bool {
    '0' <= c <= '9'
}

/// The number that a sequence of decimal digits names.
pub open spec fn decimal_value(digits: Seq<char>) -> nat
    decreases digits.len(),
{
    if digits.len() == 0 {
        0
    } else {
        decimal_value(digits.drop_last()) * 10 + ((digits.last() as nat) - ('0' as nat)) as nat
    }
}

/// The number of leading characters of `s` that are digits.
pub open spec fn leading_digits(s: Seq<char>) -> nat
    decreases s.len(),
{
    if s.len() > 0 && is_digit(s[0]) {
        1 + leading_digits(s.drop_first())
    } else {
        0
    }
}

/// `s` without one leading `+`.
pub open spec fn without_plus(s: Seq<char>) -> Seq<char> {
    if s.len() > 0 && s[0] == '+' {
        s.drop_first()
    } else {
        s
    }
}

/// How `s` reads as an unsigned number of at most `max`: an optional `+`, then
/// at least one decimal digit and nothing else. Digits are read from the left,
/// so a run of digits that is already too large hides what follows it.
pub open spec fn unsigned_reading(s: Seq<char>, max: nat) -> Result<nat, NumberError> {
    let body = without_plus(s);
    let run = body.take(leading_digits(body) as int);
    if s.len() == 0 {
        Err(NumberError::Empty)
    } else if decimal_value(run) > max {
        Err(NumberError::TooLarge)
    } else if body.len() == 0 || run.len() < body.len() {
        Err(NumberError::InvalidDigit)
    } else {
        Ok(decimal_value(run))
    }
}

proof fn lemma_leading_digits_bound(s: Seq<char>)
    ensures
        leading_digits(s) <= s.len(),
        forall|i: int| 0 <= i < leading_digits(s) ==> is_digit(#[trigger] s[i]),
        leading_digits(s) < s.len() ==> !is_digit(s[leading_digits(s) as int]),
    decreases s.len(),
{
    if s.len() > 0 && is_digit(s[0]) {
        lemma_leading_digits_bound(s.drop_first());
        assert forall|i: int| 0 <= i < leading_digits(s) implies is_digit(#[trigger] s[i]) by {
            if i > 0 {
                assert(s.drop_first()[i - 1] == s[i]);
            }
        }
    }
}

/// A prefix of digits followed by the end or by another character is the
/// leading run.
proof fn lemma_leading_digits_unique(s: Seq<char>, n: nat)
    requires
        n <= s.len(),
        forall|i: int| 0 <= i < n ==> is_digit(#[trigger] s[i]),
        n < s.len() ==> !is_digit(s[n as int]),
    ensures
        leading_digits(s) == n,
{
    lemma_leading_digits_bound(s);
    if leading_digits(s) < n {
        assert(is_digit(s[leading_digits(s) as int]));
    }
    if n < leading_digits(s) {
        assert(is_digit(s[n as int]));
    }
}

/// More digits never name a smaller number.
proof fn lemma_decimal_value_monotone(s: Seq<char>, i: int, j: int)
    requires
        0 <= i <= j <= s.len(),
        forall|k: int| 0 <= k < j ==> is_digit(#[trigger] s[k]),
    ensures
        decimal_value(s.take(i)) <= decimal_value(s.take(j)),
    decreases j - i,
{
    if i < j {
        lemma_decimal_value_monotone(s, i, j - 1);
        assert(s.take(j).drop_last() =~= s.take(j - 1));
    }
}

/// Read an unsigned decimal number of at most `max`.
pub fn parse_unsigned(s: &str, max: u64) -> (res: Result<u64, NumberError>)
    ensures
        res is Ok <==> unsigned_reading(s@, max as nat) is Ok,
        res matches Ok(n) ==> unsigned_reading(s@, max as nat) == Ok::<nat, NumberError>(n as nat),
        res matches Err(e) ==> unsigned_reading(s@, max as nat) == Err::<nat, NumberError>(e),
{
    let chars = chars_of(s);
    if chars.len() == 0 {
        return Err(NumberError::Empty);
    }
    let start: usize = if chars[0] == '+' { 1 } else { 0 };
    let ghost body = without_plus(s@);
    assert(body =~= s@.skip(start as int));
    if start == chars.len() {
        assert(body.take(leading_digits(body) as int) =~= Seq::<char>::empty()) by {
            lemma_leading_digits_bound(body);
        }
        return Err(NumberError::InvalidDigit);
    }
    let mut value: u64 = 0;
    let mut i: usize = start;
    while i < chars.len()
        invariant
            chars@ == s@,
            0 <= start <= i <= chars@.len(),
            start < chars@.len(),
            body == without_plus(s@),
            body == s@.skip(start as int),
            value == decimal_value(body.take(i - start)),
            value <= max,
            forall|k: int| 0 <= k < i - start ==> is_digit(#[trigger] body[k]),
        decreases chars@.len() - i,
    {
        let c = chars[i];
        assert(body[i - start] == c);
        if !('0' <= c && c <= '9') {
            proof {
                lemma_leading_digits_unique(body, (i - start) as nat);
            }
            return Err(NumberError::InvalidDigit);
        }
        let digit: u32 = c as u32 - '0' as u32;
        let next: u128 = value as u128 * 10 + digit as u128;
        assert(body.take(i + 1 - start).drop_last() =~= body.take(i - start));
        assert(next == decimal_value(body.take(i + 1 - start)));
        if next > max as u128 {
            proof {
                lemma_leading_digits_bound(body);
                let n = leading_digits(body);
                if n < i + 1 - start {
                    assert(is_digit(body[n as int]));
                }
                lemma_decimal_value_monotone(body, i + 1 - start, n as int);
            }
            return Err(NumberError::TooLarge);
        }
        value = next as u64;
        i += 1;
    }
    proof {
        lemma_leading_digits_unique(body, body.len());
    }
    Ok(value)
}

/// The decimal digit for a number below ten.
pub open spec fn digit_char(d: nat) -> char {
    (d + 48) as char
}

/// The decimal digits of `n`, without leading zeros.
pub open spec fn decimal(n: nat) -> Seq<char>
    decreases n,
{
    if n < 10 {
        seq![digit_char(n)]
    } else {
        decimal(n / 10).push(digit_char(n % 10))
    }
}

/// The decimal digits of `n`, without leading zeros.
pub fn decimal_string(n: u64) -> (res: String)
    ensures
        res@ == decimal(n as nat),
    decreases n,
{
    let mut res = if n < 10 {
        String::new()
    } else {
        decimal_string(n / 10)
    };
    let digit: u64 = n % 10;
    let tail = if digit == 0 {
        "0"
    } else if digit == 1 {
        "1"
    } else if digit == 2 {
        "2"
    } else if digit == 3 {
        "3"
    } else if digit == 4 {
        "4"
    } else if digit == 5 {
        "5"
    } else if digit == 6 {
        "6"
    } else if digit == 7 {
        "7"
    } else if digit == 8 {
        "8"
    } else {
        "9"
    };
    proof {
        reveal_strlit("0");
        reveal_strlit("1");
        reveal_strlit("2");
        reveal_strlit("3");
        reveal_strlit("4");
        reveal_strlit("5");
        reveal_strlit("6");
        reveal_strlit("7");
        reveal_strlit("8");
        reveal_strlit("9");
        assert(tail@ =~= seq![digit_char(digit as nat)]);
    }
    let ghost before = res@;
    res.append(tail);
    assert(res@ =~= before.push(digit_char(digit as nat)));
    res
}

/// The rendering of a number is digits only, at least one of them, and reads
/// back as that number.
pub proof fn lemma_decimal_reads_back(n: nat)
    ensures
        decimal(n).len() > 0,
        forall|i: int| 0 <= i < decimal(n).len() ==> is_digit(#[trigger] decimal(n)[i]),
        decimal_value(decimal(n)) == n,
    decreases n,
{
    if n < 10 {
        assert(decimal(n).drop_last() =~= Seq::<char>::empty());
        assert(decimal_value(decimal(n).drop_last()) == 0);
    } else {
        lemma_decimal_reads_back(n / 10);
        assert(decimal(n).drop_last() =~= decimal(n / 10));
    }
}

/// A rendered number within the limit reads as itself.
pub proof fn lemma_unsigned_reading_of_decimal(n: nat, max: nat)
    requires
        n <= max,
    ensures
        unsigned_reading(decimal(n), max) == Ok::<nat, NumberError>(n),
{
    let d = decimal(n);
    lemma_decimal_reads_back(n);
    assert(is_digit(d[0]));
    lemma_leading_digits_unique(d, d.len());
    assert(d.take(d.len() as int) =~= d);
}

/// Two numbers with the same rendering are the same number.
pub proof fn lemma_decimal_injective(a: nat, b: nat)
    requires
        decimal(a) == decimal(b),
    ensures
        a == b,
{
    lemma_decimal_reads_back(a);
    lemma_decimal_reads_back(b);
}

// ---------------------------------------------------------------------------
// Laws
// ---------------------------------------------------------------------------

/// Whether the character with this code is white space.
pub open spec fn is_white_code(code: int) -> bool {
    ||| 9 <= code <= 13
    ||| code == 32
    ||| code == 133
    ||| code == 160
    ||| code == 5760
    ||| 8192 <= code <= 8202
    ||| code == 8232
    ||| code == 8233
    ||| code == 8239
    ||| code == 8287
    ||| code == 12288
}

/// White space is what its code says.
pub proof fn lemma_white_space(c: char)
    ensures
        is_space(c) == is_white_code(c as int),
{
}

proof fn lemma_leading_spaces(s: Seq<char>)
    ensures
        leading_spaces(s) <= s.len(),
        forall|i: int| 0 <= i < leading_spaces(s) ==> is_white_code(#[trigger] s[i] as int),
        leading_spaces(s) < s.len() ==> !is_white_code(s[leading_spaces(s) as int] as int),
    decreases s.len(),
{
    if s.len() > 0 && is_space(s[0]) {
        let rest = s.drop_first();
        lemma_leading_spaces(rest);
        assert(leading_spaces(s) < s.len() ==> rest[leading_spaces(rest) as int]
            == s[leading_spaces(s) as int]);
        assert forall|i: int| 0 <= i < leading_spaces(s) implies is_white_code(
            #[trigger] s[i] as int,
        ) by {
            if i > 0 {
                assert(rest[i - 1] == s[i]);
            }
        }
    }
}

proof fn lemma_without_trailing(s: Seq<char>, drop: spec_fn(char) -> bool)
    ensures
        without_trailing(s, drop).len() <= s.len(),
        without_trailing(s, drop) == s.take(without_trailing(s, drop).len() as int),
        forall|i: int|
            without_trailing(s, drop).len() <= i < s.len() ==> drop(#[trigger] s[i]),
        without_trailing(s, drop).len() > 0 ==> !drop(without_trailing(s, drop).last()),
    decreases s.len(),
{
    if s.len() > 0 && drop(s.last()) {
        let rest = s.drop_last();
        lemma_without_trailing(rest, drop);
        let kept = without_trailing(s, drop);
        assert(rest.take(kept.len() as int) =~= s.take(kept.len() as int));
        assert forall|i: int| kept.len() <= i < s.len() implies drop(#[trigger] s[i]) by {
            if i < rest.len() {
                assert(rest[i] == s[i]);
            }
        }
    } else {
        assert(s.take(s.len() as int) =~= s);
    }
}

/// Trimming takes white space off both ends and nothing else: what is left is a
/// stretch of the text with only white space around it, and neither begins nor
/// ends with any.
pub proof fn lemma_trimming(s: Seq<char>)
    ensures
        exists|from: int, to: int|
            #![trigger s.subrange(from, to)]
            {
                &&& 0 <= from <= to <= s.len()
                &&& trimmed(s) == s.subrange(from, to)
                &&& forall|i: int|
                    0 <= i < s.len() && (i < from || i >= to) ==> is_white_code(
                        #[trigger] s[i] as int,
                    )
            },
        trimmed(s).len() > 0 ==> !is_white_code(trimmed(s)[0] as int) && !is_white_code(
            trimmed(s).last() as int,
        ),
{
    let from = leading_spaces(s) as int;
    lemma_leading_spaces(s);
    let tail = s.skip(from);
    let drop = |c: char| is_space(c);
    lemma_without_trailing(tail, drop);
    let to = from + trimmed(s).len();
    assert(trimmed(s) =~= s.subrange(from, to));
    assert forall|i: int| 0 <= i < s.len() && (i < from || i >= to) implies is_white_code(
        #[trigger] s[i] as int,
    ) by {
        if i >= to {
            assert(drop(tail[i - from]));
        }
    }
    if trimmed(s).len() > 0 {
        assert(trimmed(s)[0] == s[from]);
        assert(!drop(trimmed(s).last()));
    }
}

/// Taking off a line end takes carriage returns and line feeds off the end, and
/// nothing else.
pub proof fn lemma_line_end(s: Seq<char>)
    ensures
        ({
            let line = without_line_end(s);
            &&& line.len() <= s.len()
            &&& line == s.take(line.len() as int)
            &&& forall|i: int|
                line.len() <= i < s.len() ==> #[trigger] s[i] == '\r' || s[i] == '\n'
            &&& line.len() > 0 ==> line.last() != '\r' && line.last() != '\n'
        }),
{
    let drop = |c: char| c == '\r' || c == '\n';
    lemma_without_trailing(s, drop);
    assert forall|i: int| without_line_end(s).len() <= i < s.len() implies #[trigger] s[i] == '\r'
        || s[i] == '\n' by {
        assert(drop(s[i]));
    }
}

/// A digit more makes a number ten times as large, and adds the digit.
pub proof fn lemma_decimal_place(digits: Seq<char>, c: char)
    requires
        '0' <= c <= '9',
    ensures
        decimal_value(Seq::empty()) == 0,
        decimal_value(digits.push(c)) == decimal_value(digits) * 10 + (c as int - 48),
{
    assert(digits.push(c).drop_last() =~= digits);
}

/// A number is written without leading zeros, in the digits zero to nine.
pub proof fn lemma_decimal_is_plain(n: nat)
    ensures
        decimal(n).len() > 1 ==> decimal(n)[0] != '0',
        forall|i: int| 0 <= i < decimal(n).len() ==> '0' <= #[trigger] decimal(n)[i] <= '9',
    decreases n,
{
    lemma_decimal_reads_back(n);
    if n >= 10 {
        lemma_decimal_is_plain(n / 10);
        if n < 100 {
            assert(decimal(n / 10) == seq![digit_char(n / 10)]);
        } else {
            assert(decimal(n / 10)[0] == decimal(n)[0]);
            lemma_decimal_reads_back(n / 10);
            assert(decimal(n / 10).len() > 1) by {
                lemma_decimal_reads_back(n / 100);
                assert(n / 10 / 10 == n / 100);
            }
        }
    }
}

/// Whether `s` is digits and nothing else, at least one.
pub open spec fn is_figures(s: Seq<char>) -> bool {
    s.len() > 0 && forall|i: int| 0 <= i < s.len() ==> '0' <= #[trigger] s[i] <= '9'
}

/// A text reads as a number exactly if it is digits, with or without a plus sign
/// before them, that name a number within the limit, and then as that number. An
/// empty text is reported as such; digits that name too large a number are
/// reported as too large; and what begins with a character that is no digit, but
/// for the sign, as no number.
pub proof fn lemma_reading_numbers(s: Seq<char>, max: nat, n: nat)
    ensures
        is_figures(s) && decimal_value(s) <= max ==> unsigned_reading(s, max) == Ok::<
            nat,
            NumberError,
        >(decimal_value(s)),
        is_figures(s) && decimal_value(s) > max ==> unsigned_reading(s, max) == Err::<
            nat,
            NumberError,
        >(NumberError::TooLarge),
        is_figures(s) ==> unsigned_reading(seq!['+'] + s, max) == unsigned_reading(s, max),
        s.len() == 0 ==> unsigned_reading(s, max) == Err::<nat, NumberError>(NumberError::Empty),
        s.len() > 0 && !('0' <= s[0] <= '9') && s[0] != '+' ==> unsigned_reading(s, max) == Err::<
            nat,
            NumberError,
        >(NumberError::InvalidDigit),
        unsigned_reading(seq!['+'], max) == Err::<nat, NumberError>(NumberError::InvalidDigit),
        unsigned_reading(s, max) == Ok::<nat, NumberError>(n) ==> n <= max && (is_figures(s)
            && decimal_value(s) == n || s.len() > 0 && s[0] == '+' && is_figures(s.skip(1))
            && decimal_value(s.skip(1)) == n),
{
    if is_figures(s) {
        assert forall|i: int| 0 <= i < s.len() implies is_digit(#[trigger] s[i]) by {}
        lemma_leading_digits_unique(s, s.len());
        assert(s.take(s.len() as int) =~= s);
        assert((seq!['+'] + s).drop_first() =~= s);
        assert('0' <= s[0]);
    }
    if s.len() > 0 && !('0' <= s[0] <= '9') && s[0] != '+' {
        assert(leading_digits(s) == 0);
        assert(s.take(0) =~= Seq::<char>::empty());
    }
    assert(seq!['+'].drop_first() =~= Seq::<char>::empty());
    assert(Seq::<char>::empty().take(0) =~= Seq::<char>::empty());
    if unsigned_reading(s, max) == Ok::<nat, NumberError>(n) {
        let body = without_plus(s);
        lemma_leading_digits_bound(body);
        let run = body.take(leading_digits(body) as int);
        assert(run =~= body);
        assert forall|i: int| 0 <= i < body.len() implies '0' <= #[trigger] body[i] <= '9' by {
            assert(is_digit(body[i]));
        }
        assert(s.len() > 0 && s[0] == '+' ==> s.drop_first() =~= s.skip(1));
    }
}

/// Upper and lower case of ASCII letters are thirty-two apart; nothing else
/// changes.
pub proof fn lemma_ascii_case(s: Seq<char>, i: int)
    requires
        0 <= i < s.len(),
    ensures
        ascii_uppercased(s).len() == s.len(),
        ascii_lowercased(s).len() == s.len(),
        ascii_uppercased(s)[i] as int == (if 97 <= s[i] as int <= 122 {
            s[i] as int - 32
        } else {
            s[i] as int
        }),
        ascii_lowercased(s)[i] as int == (if 65 <= s[i] as int <= 90 {
            s[i] as int + 32
        } else {
            s[i] as int
        }),
{
}

/// Digits followed by something else are no number, and too large already where
/// the digits by themselves are; one plus sign may stand before a number, and no
/// second one.
pub proof fn lemma_reading_stops_at_the_first_fault(
    digits: Seq<char>,
    c: char,
    rest: Seq<char>,
    max: nat,
)
    requires
        is_figures(digits),
        !('0' <= c <= '9'),
    ensures
        unsigned_reading(digits + seq![c] + rest, max) == Err::<nat, NumberError>(
            if decimal_value(digits) > max {
                NumberError::TooLarge
            } else {
                NumberError::InvalidDigit
            },
        ),
        unsigned_reading(seq!['+'] + (seq!['+'] + rest), max) == Err::<nat, NumberError>(
            NumberError::InvalidDigit,
        ),
        c != '+' ==> unsigned_reading(seq!['+'] + (seq![c] + rest), max) == Err::<
            nat,
            NumberError,
        >(NumberError::InvalidDigit),
{
    let s = digits + seq![c] + rest;
    assert forall|i: int| 0 <= i < digits.len() implies is_digit(#[trigger] s[i]) by {
        assert('0' <= digits[i] <= '9');
        assert(s[i] == digits[i]);
    }
    assert(s[digits.len() as int] == c);
    assert('0' <= digits[0] <= '9');
    assert(s[0] == digits[0]);
    lemma_leading_digits_unique(s, digits.len());
    assert(s.take(digits.len() as int) =~= digits);
    let twice = seq!['+'] + rest;
    assert((seq!['+'] + twice).drop_first() =~= twice);
    assert(twice[0] == '+');
    lemma_leading_digits_unique(twice, 0);
    assert(twice.take(0) =~= Seq::<char>::empty());
    let other = seq![c] + rest;
    assert((seq!['+'] + other).drop_first() =~= other);
    assert(other[0] == c);
    lemma_leading_digits_unique(other, 0);
    assert(other.take(0) =~= Seq::<char>::empty());
}

/// A text occurs in another exactly if that other is something before it, the
/// text, and something after it.
pub proof fn lemma_occurring(before: Seq<char>, part: Seq<char>, after: Seq<char>, whole: Seq<char>)
    ensures
        has_substring(before + part + after, part),
        has_substring(whole, part) ==> exists|head: Seq<char>, tail: Seq<char>|
            whole == #[trigger] (head + part + tail),
{
    let text = before + part + after;
    let at = before.len() as int;
    assert(text.subrange(at, at + part.len()) =~= part);
    assert(occurs_at(text, part, at));
    if has_substring(whole, part) {
        let at = choose|at: int| #[trigger] occurs_at(whole, part, at);
        let head = whole.take(at);
        let tail = whole.skip(at + part.len());
        assert(whole =~= head + part + tail);
    }
}

/// What is said of a text that is no number.
pub proof fn lemma_number_errors_are_said()
    ensures
        NumberError::Empty.text() == "cannot parse integer from empty string"@,
        NumberError::InvalidDigit.text() == "invalid digit found in string"@,
        NumberError::TooLarge.text() == "number too large to fit in target type"@,
{
}

} // verus!
