//! Reading numbers out of text.
use vstd::prelude::*;

verus! {

pub open spec fn is_digit(c: char) -> bool {
    '0' <= c <= '9'
}

/// The number that a row of decimal digits stands for.
pub open spec fn digits_value(digits: Seq<char>) -> nat
    decreases digits.len(),
{
    if digits.len() == 0 {
        0
    } else {
        digits_value(digits.drop_last()) * 10 + (digits.last() as nat - '0' as nat) as nat
    }
}

/// The text behind a leading plus sign, where there is one.
pub open spec fn behind_plus(text: Seq<char>) -> Seq<char> {
    if text.len() > 0 && text[0] == '+' {
        text.skip(1)
    } else {
        text
    }
}

/// The number that a text stands for: an optional plus sign, followed by one or
/// more decimal digits and nothing else, for a number of at most 64 bits.
pub open spec fn decimal(text: Seq<char>) -> Option<u64> {
    let digits = behind_plus(text);
    if digits.len() > 0 && (forall|i: int| 0 <= i < digits.len() ==> is_digit(#[trigger] digits[i]))
        && digits_value(digits) <= u64::MAX {
        Some(digits_value(digits) as u64)
    } else {
        None
    }
}

pub open spec fn not_a_quote(c: char) -> bool {
    c != '"'
}

/// The text without its double quotes.
pub open spec fn unquoted(text: Seq<char>) -> Seq<char> {
    text.filter(|c: char| not_a_quote(c))
}

/// The characters of a text that are not double quotes.
fn unquoted_chars(text: &str) -> (r: Vec<char>)
    ensures
        r@ == unquoted(text@),
{
    let mut out: Vec<char> = Vec::new();
    let ghost keep = |c: char| not_a_quote(c);
    proof {
        reveal(Seq::filter);
    }
    for c in it: text.chars()
        invariant
            keep == (|c: char| not_a_quote(c)),
            it.seq() == text@,
            out@ == text@.take(it.index()).filter(keep),
    {
        proof {
            let done = text@.take(it.index());
            assert(text@.take(it.index() + 1) =~= done.push(c));
            assert(done.push(c).drop_last() =~= done);
            reveal(Seq::filter);
        }
        if c != '"' {
            out.push(c);
        }
    }
    assert(text@.take(text@.len() as int) =~= text@);
    out
}

/// Adding digits at the end never makes a number smaller.
proof fn lemma_digits_value_grows(digits: Seq<char>, n: int)
    requires
        0 <= n <= digits.len(),
    ensures
        digits_value(digits.take(n)) <= digits_value(digits),
    decreases digits.len() - n,
{
    if n == digits.len() {
        assert(digits.take(n) =~= digits);
    } else {
        lemma_digits_value_grows(digits, n + 1);
        assert(digits.take(n + 1).drop_last() =~= digits.take(n));
    }
}

/// The number that a row of characters stands for, if it stands for one.
pub fn parse_decimal(text: &Vec<char>) -> (r: Option<u64>)
    ensures
        r == decimal(text@),
{
    let ghost digits = behind_plus(text@);
    let start: usize = if text.len() > 0 && text[0] == '+' {
        1
    } else {
        0
    };
    assert(digits =~= text@.skip(start as int));
    if start == text.len() {
        return None;
    }
    let mut value: u64 = 0;
    let mut i: usize = start;
    while i < text.len()
        invariant
            start <= i <= text.len(),
            start < text.len(),
            digits == text@.skip(start as int),
            digits == behind_plus(text@),
            forall|j: int| 0 <= j < i - start ==> is_digit(#[trigger] digits[j]),
            value == digits_value(digits.take(i - start)),
        decreases text.len() - i,
    {
        let c: char = text[i];
        assert(c == digits[i - start]);
        if c < '0' || c > '9' {
            assert(!is_digit(digits[i - start]));
            return None;
        }
        let d: u64 = c as u64 - '0' as u64;
        proof {
            assert(digits.take(i - start + 1).drop_last() =~= digits.take(i - start));
            lemma_digits_value_grows(digits, i - start + 1);
        }
        match value.checked_mul(10) {
            Some(tens) => match tens.checked_add(d) {
                Some(sum) => {
                    value = sum;
                },
                None => {
                    return None;
                },
            },
            None => {
                return None;
            },
        }
        i += 1;
    }
    assert(digits.take(i - start) =~= digits);
    Some(value)
}

/// The number in a text, read past any double quotes in it.
pub fn number_in(text: &str) -> (r: Option<u64>)
    ensures
        r == decimal(unquoted(text@)),
{
    parse_decimal(&unquoted_chars(text))
}

/// A number written out in decimal digits, without leading zeros.
pub open spec fn written(n: nat) -> Seq<char>
    decreases n,
{
    if n < 10 {
        seq![digit_of(n)]
    } else {
        written(n / 10).push(digit_of(n % 10))
    }
}

/// The digit for a number below ten.
pub open spec fn digit_of(n: nat) -> char {
    "0123456789"@[n as int]
}

proof fn lemma_digit(n: nat)
    requires
        n < 10,
    ensures
        is_digit(digit_of(n)),
        digit_of(n) as nat - '0' as nat == n,
{
    reveal_strlit("0123456789");
}

proof fn lemma_written(n: nat)
    ensures
        written(n).len() > 0,
        forall|i: int| 0 <= i < written(n).len() ==> is_digit(#[trigger] written(n)[i]),
        digits_value(written(n)) == n,
    decreases n,
{
    lemma_digit(n % 10);
    if n < 10 {
        lemma_digit(n);
        assert(written(n).drop_last() =~= Seq::empty());
        reveal_with_fuel(digits_value, 2);
    } else {
        lemma_written(n / 10);
        let head = written(n / 10);
        assert(written(n).drop_last() =~= head);
        assert forall|i: int| 0 <= i < written(n).len() implies is_digit(#[trigger] written(n)[i]) by {
            if i < head.len() {
                assert(written(n)[i] == head[i]);
            }
        }
    }
}

/// A number that is written out is read back, with or without a plus sign before it, if it has
/// at most 64 bits, and a larger one is not.
pub proof fn law_written_numbers_are_read(n: nat)
    ensures
        decimal(written(n)) == (if n <= 0xffff_ffff_ffff_ffff { Some(n as u64) } else { None }),
        decimal(seq!['+'] + written(n)) == decimal(written(n)),
{
    lemma_written(n);
    let text = written(n);
    assert(is_digit(text[0]));
    assert(behind_plus(text) == text);
    assert(behind_plus(seq!['+'] + text) =~= text);
}

/// Zeros before the digits of a number change nothing.
pub proof fn law_leading_zeros_change_nothing(digits: Seq<char>)
    requires
        digits.len() > 0,
        '0' <= digits[0] <= '9',
    ensures
        decimal(seq!['0'] + digits) == decimal(digits),
{
    let more = seq!['0'] + digits;
    assert(behind_plus(digits) == digits);
    assert(behind_plus(more) == more);
    lemma_zero_first(digits);
    assert(more.skip(1) =~= digits);
    if forall|i: int| 0 <= i < digits.len() ==> is_digit(#[trigger] digits[i]) {
        assert forall|i: int| 0 <= i < more.len() implies is_digit(#[trigger] more[i]) by {
            if i > 0 { assert(more[i] == digits[i - 1]); }
        }
    }
    if forall|i: int| 0 <= i < more.len() ==> is_digit(#[trigger] more[i]) {
        assert forall|i: int| 0 <= i < digits.len() implies is_digit(#[trigger] digits[i]) by {
            assert(more[i + 1] == digits[i]);
        }
    }
}

proof fn lemma_zero_first(digits: Seq<char>)
    ensures
        digits_value(seq!['0'] + digits) == digits_value(digits),
    decreases digits.len(),
{
    let more = seq!['0'] + digits;
    if digits.len() == 0 {
        assert(more.drop_last() =~= Seq::empty());
        reveal_with_fuel(digits_value, 2);
    } else {
        lemma_zero_first(digits.drop_last());
        assert(more.drop_last() =~= seq!['0'] + digits.drop_last());
    }
}

/// A text that is empty, or that holds anything but digits behind its first character, or
/// whose first character is neither a digit nor a plus sign before digits, is no number.
pub proof fn law_other_texts_are_no_numbers(text: Seq<char>, i: int)
    requires
        text.len() == 0 || (0 <= i < text.len() && !('0' <= text[i] <= '9') && (i > 0 || text[0]
            != '+' || text.len() == 1)),
    ensures
        decimal(text) is None,
{
    let digits = behind_plus(text);
    if text.len() > 0 && text[0] == '+' {
        if i > 0 {
            assert(digits[i - 1] == text[i]);
            assert(!is_digit(digits[i - 1]));
        }
    } else if text.len() > 0 {
        assert(!is_digit(digits[i]));
    }
}

proof fn lemma_unquoted_push(text: Seq<char>, c: char)
    ensures
        unquoted(text.push(c)) == (if c == '"' {
            unquoted(text)
        } else {
            unquoted(text).push(c)
        }),
{
    reveal(Seq::filter);
    assert(text.push(c).drop_last() =~= text);
}

proof fn lemma_unquoted_behind(front: Seq<char>, text: Seq<char>)
    requires
        forall|i: int| 0 <= i < text.len() ==> #[trigger] text[i] != '"',
    ensures
        unquoted(front + text) == unquoted(front) + text,
    decreases text.len(),
{
    if text.len() == 0 {
        assert(front + text =~= front);
        assert(unquoted(front) + text =~= unquoted(front));
    } else {
        let shorter = text.drop_last();
        let last = text[text.len() - 1];
        assert forall|i: int| 0 <= i < shorter.len() implies #[trigger] shorter[i] != '"' by {
            assert(shorter[i] == text[i]);
        }
        lemma_unquoted_behind(front, shorter);
        lemma_unquoted_push(front + shorter, last);
        assert(front + text =~= (front + shorter).push(last));
        assert(unquoted(front) + text =~= (unquoted(front) + shorter).push(last));
    }
}

/// Double quotes round a text without any are taken away, and such a text alone stays as it is.
pub proof fn law_quotes_are_taken_away(text: Seq<char>)
    requires
        forall|i: int| 0 <= i < text.len() ==> #[trigger] text[i] != '"',
    ensures
        unquoted(text) == text,
        unquoted(seq!['"'] + text + seq!['"']) == text,
{
    let none = Seq::<char>::empty();
    let quote = seq!['"'];
    assert(unquoted(none) =~= none) by {
        reveal(Seq::filter);
    }
    lemma_unquoted_push(none, '"');
    assert(none.push('"') =~= quote);
    lemma_unquoted_behind(none, text);
    assert(none + text =~= text);
    lemma_unquoted_behind(quote, text);
    lemma_unquoted_push(quote + text, '"');
    assert((quote + text).push('"') =~= quote + text + quote);
}

/// A number that is written out, perhaps in double quotes, is read back from the text if it has
/// at most 64 bits, and a larger one is not.
pub proof fn law_a_written_number_is_found(text: &str, n: nat, r: Option<u64>)
    requires
        text@ == written(n) || text@ == seq!['"'] + written(n) + seq!['"'],
        call_ensures(number_in, (text,), r),
    ensures
        r == (if n <= 0xffff_ffff_ffff_ffff {
            Some(n as u64)
        } else {
            None
        }),
{
    law_written_numbers_are_read(n);
    lemma_written(n);
    assert forall|i: int| 0 <= i < written(n).len() implies #[trigger] written(n)[i] != '"' by {
        assert(is_digit(written(n)[i]));
    }
    law_quotes_are_taken_away(written(n));
}

/// What a text of digits says, with or without double quotes round it.
pub proof fn lemma_written_number(n: nat)
    ensures
        decimal(unquoted(written(n))) == decimal(written(n)),
        decimal(unquoted(seq!['"'] + written(n) + seq!['"'])) == decimal(written(n)),
{
    lemma_written(n);
    assert forall|i: int| 0 <= i < written(n).len() implies #[trigger] written(n)[i] != '"' by {
        assert(is_digit(written(n)[i]));
    }
    law_quotes_are_taken_away(written(n));
}

/// A row of digits, perhaps behind a plus sign, is read as the number that it writes out if that
/// has at most 64 bits.
pub proof fn law_rows_of_digits_are_read(text: &Vec<char>, n: nat, r: Option<u64>)
    requires
        text@ == written(n) || text@ == seq!['+'] + written(n),
        call_ensures(parse_decimal, (text,), r),
    ensures
        r == (if n <= 0xffff_ffff_ffff_ffff {
            Some(n as u64)
        } else {
            None
        }),
{
    law_written_numbers_are_read(n);
}

/// A row of characters that are not all digits, but for a plus sign at its start, is read as no
/// number, and neither is a text that holds such a character besides double quotes.
pub proof fn law_other_rows_are_not_read(
    row: &Vec<char>,
    text: &str,
    i: int,
    j: int,
    row_read: Option<u64>,
    text_read: Option<u64>,
)
    requires
        row@.len() == 0 || (0 <= i < row@.len() && !('0' <= row@[i] <= '9') && (i > 0 || row@[0]
            != '+' || row@.len() == 1)),
        text@.len() == 0 || (0 <= j < text@.len() && !('0' <= text@[j] <= '9') && text@[j] != '+'
            && text@[j] != '"'),
        call_ensures(parse_decimal, (row,), row_read),
        call_ensures(number_in, (text,), text_read),
    ensures
        row_read is None,
        text_read is None,
{
    law_other_texts_are_no_numbers(row@, i);
    lemma_other_members(text@, j);
}

/// A text with a character that belongs to no number says no number.
pub proof fn lemma_other_members(text: Seq<char>, j: int)
    requires
        text.len() == 0 || (0 <= j < text.len() && !('0' <= text[j] <= '9') && text[j] != '+'
            && text[j] != '"'),
    ensures
        decimal(unquoted(text)) is None,
{
    if text.len() == 0 {
        assert(unquoted(text) =~= text) by {
            reveal(Seq::filter);
        }
        law_other_texts_are_no_numbers(text, 0);
    } else {
        lemma_unquoted_keeps(text, j);
        let k = unquoted(text).index_of(text[j]);
        law_other_texts_are_no_numbers(unquoted(text), k);
    }
}

proof fn lemma_unquoted_keeps(text: Seq<char>, j: int)
    requires
        0 <= j < text.len(),
        text[j] != '"',
    ensures
        unquoted(text).contains(text[j]),
    decreases text.len(),
{
    let shorter = text.drop_last();
    lemma_unquoted_push(shorter, text.last());
    assert(shorter.push(text.last()) =~= text);
    if j < shorter.len() {
        lemma_unquoted_keeps(shorter, j);
        let k = unquoted(shorter).index_of(text[j]);
        assert(unquoted(text)[k] == text[j]);
    } else {
        assert(unquoted(text).last() == text[j]);
        assert(unquoted(text)[unquoted(text).len() - 1] == text[j]);
    }
}

proof fn lemma_unquoted_joined(a: Seq<char>, b: Seq<char>)
    ensures
        unquoted(a + b) == unquoted(a) + unquoted(b),
    decreases b.len(),
{
    if b.len() == 0 {
        assert(a + b =~= a);
        assert(unquoted(b) =~= b) by {
            reveal(Seq::filter);
        }
        assert(unquoted(a) + unquoted(b) =~= unquoted(a));
    } else {
        let shorter = b.drop_last();
        lemma_unquoted_joined(a, shorter);
        lemma_unquoted_push(a + shorter, b.last());
        lemma_unquoted_push(shorter, b.last());
        assert((a + shorter).push(b.last()) =~= a + b);
        assert(shorter.push(b.last()) =~= b);
        assert(unquoted(a + b) =~= unquoted(a) + unquoted(b));
    }
}

/// A double quote changes nothing, wherever it stands in a text.
pub proof fn law_quotes_change_nothing(
    a: Seq<char>,
    b: Seq<char>,
    with_quote: &str,
    without: &str,
    r: Option<u64>,
    other: Option<u64>,
)
    requires
        with_quote@ == a + seq!['"'] + b,
        without@ == a + b,
        call_ensures(number_in, (with_quote,), r),
        call_ensures(number_in, (without,), other),
    ensures
        r == other,
{
    let quote = seq!['"'];
    let none = Seq::<char>::empty();
    lemma_unquoted_joined(a + quote, b);
    lemma_unquoted_joined(a, quote);
    lemma_unquoted_joined(a, b);
    lemma_unquoted_push(none, '"');
    assert(none.push('"') =~= quote);
    assert(unquoted(none) =~= none) by {
        reveal(Seq::filter);
    }
    assert(unquoted(a) + none =~= unquoted(a));
}

} // verus!
