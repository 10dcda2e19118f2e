//! Numeric header fields: octal digits, padded with spaces and ended by a NUL.

use vstd::prelude::*;
use crate::error::Fault;

verus! {

/// The index of the first NUL of `field` at or after `from`, or the length
/// of the field where there is none.
pub open spec fn nul_from(field: Seq<u8>, from: int) -> int
    decreases field.len() - from,
{
    if from < 0 || from >= field.len() || field[from] == 0 {
        from
    } else {
        nul_from(field, from + 1)
    }
}

/// The bytes of `field` before its first NUL.
pub open spec fn text_of(field: Seq<u8>) -> Seq<u8> {
    field.take(nul_from(field, 0))
}

/// The index of the first byte of `text` at or after `from` that is no
/// space, or the length of the text where there is none.
pub open spec fn spaces_end(text: Seq<u8>, from: int) -> int
    decreases text.len() - from,
{
    if from < 0 || from >= text.len() || text[from] != 0x20 {
        from
    } else {
        spaces_end(text, from + 1)
    }
}

/// Where `text` ends once the spaces before `to` are taken off, without
/// going below `floor`.
pub open spec fn spaces_start(text: Seq<u8>, floor: int, to: int) -> int
    decreases to - floor,
{
    if to <= floor || to > text.len() || text[to - 1] != 0x20 {
        to
    } else {
        spaces_start(text, floor, to - 1)
    }
}

/// The digits of a field: its text without the spaces around it.
pub open spec fn digits_of(field: Seq<u8>) -> Seq<u8> {
    let text = text_of(field);
    let first = spaces_end(text, 0);
    text.subrange(first, spaces_start(text, first, text.len() as int))
}

/// Whether `byte` is one of the characters `0` to `7`.
pub open spec fn is_octal_digit(byte: u8) -> bool {
    0x30 <= byte <= 0x37
}

/// Whether `digits` holds octal digits only.
pub open spec fn all_octal(digits: Seq<u8>) -> bool {
    forall|i: int| 0 <= i < digits.len() ==> is_octal_digit(#[trigger] digits[i])
}

/// The number that a run of octal digits denotes, the first digit counting
/// most.
pub open spec fn octal_value(digits: Seq<u8>) -> nat
    decreases digits.len(),
{
    if digits.len() == 0 {
        0
    } else {
        (8 * octal_value(digits.drop_last()) + (digits.last() - 0x30)) as nat
    }
}

/// What a numeric field decodes to: the value of its digits, where it has
/// any, holds nothing else and the value fits in 64 bits.
pub open spec fn octal_field(field: Seq<u8>) -> Result<u64, Fault> {
    let digits = digits_of(field);
    if digits.len() == 0 || !all_octal(digits) {
        Err(Fault::NotOctal)
    } else if octal_value(digits) > u64::MAX {
        Err(Fault::TooLarge)
    } else {
        Ok(octal_value(digits) as u64)
    }
}

/// Eight to the power `n`.
pub open spec fn octal_limit(n: nat) -> nat
    decreases n,
{
    if n == 0 {
        1
    } else {
        8 * octal_limit((n - 1) as nat)
    }
}

/// A run of `n` octal digits denotes a number below eight to the `n`.
pub proof fn lemma_octal_value_bound(digits: Seq<u8>)
    requires
        all_octal(digits),
    ensures
        octal_value(digits) < octal_limit(digits.len()),
    decreases digits.len(),
{
    if digits.len() > 0 {
        lemma_octal_value_bound(digits.drop_last());
    }
}

/// More digits never denote less.
pub proof fn lemma_octal_value_prefix(digits: Seq<u8>, n: int)
    requires
        all_octal(digits),
        0 <= n <= digits.len(),
    ensures
        octal_value(digits.take(n)) <= octal_value(digits),
    decreases digits.len(),
{
    if n < digits.len() {
        lemma_octal_value_prefix(digits.drop_last(), n);
        assert(digits.drop_last().take(n) =~= digits.take(n));
    } else {
        assert(digits.take(n) =~= digits);
    }
}

/// The limit grows with the number of digits.
pub proof fn lemma_octal_limit_grows(m: nat, n: nat)
    requires
        m <= n,
    ensures
        octal_limit(m) <= octal_limit(n),
    decreases n,
{
    if m < n {
        lemma_octal_limit_grows(m, (n - 1) as nat);
    }
}

/// The digits of a field are no more than the field is long.
pub proof fn lemma_digits_len(field: Seq<u8>)
    ensures
        digits_of(field).len() <= field.len(),
{
    lemma_nul_from_range(field, 0);
    let text = text_of(field);
    lemma_spaces_end_range(text, 0);
    let first = spaces_end(text, 0);
    lemma_spaces_start_range(text, first, text.len() as int);
}

/// `nul_from` stays within the field.
pub proof fn lemma_nul_from_range(field: Seq<u8>, from: int)
    requires
        0 <= from <= field.len(),
    ensures
        from <= nul_from(field, from) <= field.len(),
    decreases field.len() - from,
{
    if from < field.len() && field[from] != 0 {
        lemma_nul_from_range(field, from + 1);
    }
}

/// `spaces_end` stays within the text.
pub proof fn lemma_spaces_end_range(text: Seq<u8>, from: int)
    requires
        0 <= from <= text.len(),
    ensures
        from <= spaces_end(text, from) <= text.len(),
    decreases text.len() - from,
{
    if from < text.len() && text[from] == 0x20 {
        lemma_spaces_end_range(text, from + 1);
    }
}

/// `spaces_start` stays between the floor and where it began.
pub proof fn lemma_spaces_start_range(text: Seq<u8>, floor: int, to: int)
    requires
        0 <= floor <= to <= text.len(),
    ensures
        floor <= spaces_start(text, floor, to) <= to,
    decreases to - floor,
{
    if to > floor && text[to - 1] == 0x20 {
        lemma_spaces_start_range(text, floor, to - 1);
    }
}

/// What lies between `from` and the first NUL at or after it holds no NUL,
/// and a NUL stands there unless the field ends first.
pub proof fn lemma_nul_from_is_first(field: Seq<u8>, from: int)
    requires
        0 <= from <= field.len(),
    ensures
        forall|i: int| from <= i < nul_from(field, from) ==> field[i] != 0,
        nul_from(field, from) < field.len() ==> field[nul_from(field, from)] == 0,
    decreases field.len() - from,
{
    if from < field.len() && field[from] != 0 {
        lemma_nul_from_is_first(field, from + 1);
    }
}

/// The text of a field is the longest beginning of it that holds no NUL.
pub proof fn lemma_text_ends_at_first_nul(field: Seq<u8>)
    ensures
        text_of(field).len() <= field.len(),
        text_of(field) == field.take(text_of(field).len() as int),
        !text_of(field).contains(0u8),
        text_of(field).len() < field.len() ==> field[text_of(field).len() as int] == 0,
{
    lemma_nul_from_range(field, 0);
    lemma_nul_from_is_first(field, 0);
}

/// Between `from` and where `spaces_end` comes to there are spaces only,
/// and no space stands there.
pub proof fn lemma_spaces_end_is_first(text: Seq<u8>, from: int)
    requires
        0 <= from <= text.len(),
    ensures
        forall|i: int| from <= i < spaces_end(text, from) ==> text[i] == 0x20,
        spaces_end(text, from) < text.len() ==> text[spaces_end(text, from)] != 0x20,
    decreases text.len() - from,
{
    if from < text.len() && text[from] == 0x20 {
        lemma_spaces_end_is_first(text, from + 1);
    }
}

/// Between where `spaces_start` comes to and `to` there are spaces only,
/// and no space stands before it, unless it has come down to the floor.
pub proof fn lemma_spaces_start_is_last(text: Seq<u8>, floor: int, to: int)
    requires
        0 <= floor <= to <= text.len(),
    ensures
        forall|i: int| spaces_start(text, floor, to) <= i < to ==> text[i] == 0x20,
        spaces_start(text, floor, to) > floor ==> text[spaces_start(text, floor, to) - 1] != 0x20,
    decreases to - floor,
{
    if to > floor && text[to - 1] == 0x20 {
        lemma_spaces_start_is_last(text, floor, to - 1);
    }
}

/// The digits of a field are its text without the spaces at its two ends:
/// around them the text holds spaces only, and they neither begin nor end
/// with a space.
pub proof fn lemma_digits_are_the_text_trimmed(field: Seq<u8>)
    ensures
        ({
            let text = text_of(field);
            let digits = digits_of(field);
            let first = spaces_end(text, 0);
            let last = first + digits.len();
            &&& 0 <= first <= last <= text.len()
            &&& digits == text.subrange(first, last)
            &&& forall|i: int| 0 <= i < first ==> text[i] == 0x20
            &&& forall|i: int| last <= i < text.len() ==> text[i] == 0x20
            &&& digits.len() > 0 ==> digits.first() != 0x20 && digits.last() != 0x20
        }),
{
    let text = text_of(field);
    lemma_spaces_end_range(text, 0);
    lemma_spaces_end_is_first(text, 0);
    let first = spaces_end(text, 0);
    lemma_spaces_start_range(text, first, text.len() as int);
    lemma_spaces_start_is_last(text, first, text.len() as int);
}

/// Decodes a numeric field.
pub fn parse_octal(field: &[u8]) -> (r: Result<u64, Fault>)
    ensures
        r == octal_field(field@),
{
    let len: usize = field.len();
    let mut end: usize = 0;
    while end < len && field[end] != 0
        invariant
            end <= len == field@.len(),
            nul_from(field@, 0) == nul_from(field@, end as int),
        decreases len - end,
    {
        end += 1;
    }
    let ghost text = text_of(field@);
    let mut first: usize = 0;
    while first < end && field[first] == 0x20
        invariant
            first <= end <= field@.len(),
            text == field@.take(end as int),
            spaces_end(text, 0) == spaces_end(text, first as int),
        decreases end - first,
    {
        first += 1;
    }
    let mut last: usize = end;
    while last > first && field[last - 1] == 0x20
        invariant
            first <= last <= end <= field@.len(),
            text == field@.take(end as int),
            spaces_start(text, first as int, end as int) == spaces_start(
                text,
                first as int,
                last as int,
            ),
        decreases last - first,
    {
        last -= 1;
    }
    let ghost digits = digits_of(field@);
    if first == last {
        return Err(Fault::NotOctal);
    }
    let mut i: usize = first;
    while i < last
        invariant
            first <= i <= last <= field@.len(),
            digits == digits_of(field@),
            digits == field@.subrange(first as int, last as int),
            forall|k: int| 0 <= k < i - first ==> is_octal_digit(#[trigger] digits[k]),
        decreases last - i,
    {
        if field[i] < 0x30 || field[i] > 0x37 {
            assert(!is_octal_digit(digits[i - first]));
            return Err(Fault::NotOctal);
        }
        i += 1;
    }
    let mut value: u64 = 0;
    let mut i: usize = first;
    while i < last
        invariant
            first < last <= field@.len(),
            first <= i <= last,
            digits == digits_of(field@),
            digits == field@.subrange(first as int, last as int),
            all_octal(digits),
            value == octal_value(digits.take(i - first)),
        decreases last - i,
    {
        proof {
            assert(digits.take(i - first + 1).drop_last() =~= digits.take(i - first));
            lemma_octal_value_prefix(digits, i - first + 1);
        }
        let digit: u64 = (field[i] - 0x30) as u64;
        if value > (u64::MAX - digit) / 8 {
            return Err(Fault::TooLarge);
        }
        value = 8 * value + digit;
        i += 1;
    }
    assert(digits.take(last - first) =~= digits);
    Ok(value)
}

} // verus!
