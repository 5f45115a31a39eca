//! Cell addresses and the letters that name a column.
//!
//! A column is named by a numeral in bijective base 26: the digits are the
//! letters `A` (one) to `Z` (twenty-six), and there is no digit for zero. The
//! column's index is the numeral's value less one, so `A` is column 0, `Z` is
//! column 25 and `AA` is column 26.
//!
//! A cell is named by the letters of its column and, in base ten, the index
//! of its row: `A0` is the first cell of the first row, `B12` the second
//! cell of the row with index 12.

use vstd::prelude::*;

verus! {

/// The place of a cell: its row and its column, both counted from zero.
/// Cells are ordered by row, then by column.
#[derive(Debug, Clone, Copy, PartialEq, Eq, Structural, Hash, PartialOrd, Ord)]
pub struct CellIndex {
    pub row: usize,
    pub column: usize,
}

impl CellIndex {
    pub fn new(row: usize, column: usize) -> (index: Self)
        ensures
            index.row == row,
            index.column == column,
    {
        CellIndex { row, column }
    }

    pub fn get(&self) -> (pair: (usize, usize))
        ensures
            pair.0 == self.row,
            pair.1 == self.column,
    {
        (self.row, self.column)
    }

    /// The address as a formula writes it: the letters of the column, then
    /// the row in base ten.
    pub fn name(&self) -> (name: String)
        ensures
            name@ == cell_name(*self),
    {
        let mut name = String::new();
        push_label(&mut name, self.column);
        push_decimal(&mut name, self.row);
        name
    }
}

/// A column label that is empty, holds something other than the letters `a`
/// to `z` and `A` to `Z`, or names a column beyond `usize::MAX`.
#[derive(Debug, Clone, Copy, PartialEq, Eq, Structural)]
pub struct InvalidAddress;

pub open spec fn is_letter(c: char) -> bool {
    ('a' <= c && c <= 'z') || ('A' <= c && c <= 'Z')
}

pub open spec fn is_upper(c: char) -> bool {
    'A' <= c && c <= 'Z'
}

pub open spec fn is_digit(c: char) -> bool {
    '0' <= c && c <= '9'
}

/// The value of a letter as a digit, from 1 for `A` or `a` to 26 for `Z` or `z`.
pub open spec fn letter_value(c: char) -> int {
    if 'a' <= c && c <= 'z' {
        c as int - 'a' as int + 1
    } else {
        c as int - 'A' as int + 1
    }
}

/// The upper-case letter whose digit value is `k + 1`.
pub open spec fn upper_letter(k: int) -> char {
    ('A' as int + k) as char
}

/// The value of a label read as a numeral in bijective base 26.
pub open spec fn label_value(label: Seq<char>) -> int
    decreases label.len(),
{
    if label.len() == 0 {
        0
    } else {
        26 * label_value(label.drop_last()) + letter_value(label.last())
    }
}

/// A label is one letter or more.
pub open spec fn is_label(label: Seq<char>) -> bool {
    label.len() > 0 && forall|i: int| 0 <= i < label.len() ==> is_letter(#[trigger] label[i])
}

/// A label in upper case.
pub open spec fn is_upper_label(label: Seq<char>) -> bool {
    label.len() > 0 && forall|i: int| 0 <= i < label.len() ==> is_upper(#[trigger] label[i])
}

/// The index of the column that `label` names.
pub open spec fn column_index(label: Seq<char>) -> int {
    label_value(label) - 1
}

/// The label of the column with the given index, in upper case.
pub open spec fn column_label(index: nat) -> Seq<char>
    decreases index,
{
    if index < 26 {
        seq![upper_letter(index as int)]
    } else {
        column_label((index / 26 - 1) as nat).push(upper_letter(index as int % 26))
    }
}

/// The digit that writes `k`, a number below ten.
pub open spec fn digit(k: int) -> char {
    ('0' as int + k) as char
}

/// A number written in base ten, without leading zeros.
pub open spec fn decimal_text(number: nat) -> Seq<char>
    decreases number,
{
    if number < 10 {
        seq![digit(number as int)]
    } else {
        decimal_text(number / 10).push(digit(number as int % 10))
    }
}

/// An address as a formula writes it.
pub open spec fn cell_name(index: CellIndex) -> Seq<char> {
    column_label(index.column as nat) + decimal_text(index.row as nat)
}

/// The value of a run of decimal digits.
pub open spec fn decimal_value(digits: Seq<char>) -> int
    decreases digits.len(),
{
    if digits.len() == 0 {
        0
    } else {
        10 * decimal_value(digits.drop_last()) + (digits.last() as int - '0' as int)
    }
}

/// A label is worth one or more, and no less than without its last letter.
pub proof fn lemma_label_value_positive(label: Seq<char>)
    requires
        is_label(label),
    ensures
        label_value(label) >= 1,
        label_value(label) >= label_value(label.drop_last()),
    decreases label.len(),
{
    assert(is_letter(label[label.len() - 1]));
    if label.len() > 1 {
        lemma_label_value_positive(label.drop_last());
    }
}

/// A label's value is at least the value of each of its prefixes.
pub proof fn lemma_label_value_prefix(label: Seq<char>, n: int)
    requires
        is_label(label),
        0 <= n <= label.len(),
    ensures
        label_value(label.take(n)) <= label_value(label),
    decreases label.len() - n,
{
    if n == label.len() {
        assert(label.take(n) == label);
    } else if n + 1 == label.len() {
        lemma_label_value_positive(label);
    } else {
        lemma_label_value_positive(label);
        lemma_label_value_prefix(label.drop_last(), n);
        assert(label.drop_last().take(n) == label.take(n));
    }
}

/// Every column label is made of upper-case letters.
pub proof fn lemma_column_label_upper(index: nat)
    ensures
        is_upper_label(column_label(index)),
    decreases index,
{
    if index >= 26 {
        lemma_column_label_upper((index / 26 - 1) as nat);
    }
}

/// The label of a column names that column: reading `column_label(index)`
/// gives `index` back.
pub proof fn lemma_label_round_trip(index: nat)
    ensures
        is_label(column_label(index)),
        column_index(column_label(index)) == index,
    decreases index,
{
    lemma_column_label_upper(index);
    if index < 26 {
        let label = column_label(index);
        assert(label_value(label.drop_last()) == 0);
    } else {
        let rest = (index / 26 - 1) as nat;
        lemma_label_round_trip(rest);
        let label = column_label(index);
        assert(label.drop_last() == column_label(rest));
    }
}

/// An upper-case label is the label of the column that it names: writing
/// `column_index(label)` gives `label` back.
pub proof fn lemma_index_round_trip(label: Seq<char>)
    requires
        is_upper_label(label),
    ensures
        column_index(label) >= 0,
        column_label(column_index(label) as nat) == label,
    decreases label.len(),
{
    if label.len() == 1 {
        assert(label_value(label.drop_last()) == 0);
    } else {
        lemma_index_round_trip(label.drop_last());
    }
}

/// A run of digits is worth at least as much as each of its prefixes.
pub proof fn lemma_decimal_value_prefix(digits: Seq<char>, n: int)
    requires
        forall|i: int| 0 <= i < digits.len() ==> is_digit(#[trigger] digits[i]),
        0 <= n <= digits.len(),
    ensures
        0 <= decimal_value(digits.take(n)) <= decimal_value(digits),
    decreases digits.len(),
{
    if n == digits.len() {
        assert(digits.take(n) == digits);
        if n > 0 {
            lemma_decimal_value_prefix(digits.drop_last(), n - 1);
        }
    } else {
        lemma_decimal_value_prefix(digits.drop_last(), n);
        assert(digits.drop_last().take(n) == digits.take(n));
    }
}

/// A number written in base ten is made of digits, and reading it gives
/// the number back.
pub proof fn lemma_decimal_round_trip(number: nat)
    ensures
        decimal_text(number).len() >= 1,
        forall|i: int|
            0 <= i < decimal_text(number).len() ==> is_digit(#[trigger] decimal_text(number)[i]),
        decimal_value(decimal_text(number)) == number,
    decreases number,
{
    let text = decimal_text(number);
    if number < 10 {
        assert(decimal_value(text.drop_last()) == 0);
    } else {
        lemma_decimal_round_trip(number / 10);
        assert(text.drop_last() == decimal_text(number / 10));
    }
}

/// Appends the label of a column.
pub fn push_label(out: &mut String, column: usize)
    ensures
        final(out)@ == old(out)@ + column_label(column as nat),
    decreases column,
{
    if column >= 26 {
        push_label(out, column / 26 - 1);
    }
    let letter = ('A' as u8 + (column % 26) as u8) as char;
    out.push(letter);
}

/// Appends a number in base ten.
pub fn push_decimal(out: &mut String, number: usize)
    ensures
        final(out)@ == old(out)@ + decimal_text(number as nat),
    decreases number,
{
    if number >= 10 {
        push_decimal(out, number / 10);
    }
    let figure = ('0' as u8 + (number % 10) as u8) as char;
    out.push(figure);
}

pub fn is_letter_char(c: char) -> (yes: bool)
    ensures
        yes == is_letter(c),
{
    (c >= 'a' && c <= 'z') || (c >= 'A' && c <= 'Z')
}

pub fn is_digit_char(c: char) -> (yes: bool)
    ensures
        yes == is_digit(c),
{
    c >= '0' && c <= '9'
}

/// The index of the column that the letters `chars[from..to]` name.
pub fn column_of(chars: &Vec<char>, from: usize, to: usize) -> (found: Result<usize, InvalidAddress>)
    requires
        from <= to <= chars.len(),
    ensures
        ({
            let label = chars@.subrange(from as int, to as int);
            match found {
                Ok(index) => is_label(label) && index == column_index(label),
                Err(_) => !(is_label(label) && column_index(label) <= usize::MAX),
            }
        }),
{
    let ghost label = chars@.subrange(from as int, to as int);
    if from == to {
        return Err(InvalidAddress);
    }
    let mut index: usize = 0;
    let mut i: usize = from;
    while i < to
        invariant
            from <= i <= to <= chars.len(),
            label == chars@.subrange(from as int, to as int),
            is_label(label.take(i - from)) || i == from,
            i > from ==> index == column_index(label.take(i - from)),
            i == from ==> index == 0,
        decreases to - i,
    {
        let c = chars[i];
        assert(c == label[i - from]);
        if !is_letter_char(c) {
            return Err(InvalidAddress);
        }
        let digit: usize = if c >= 'a' {
            (c as u32 - 'a' as u32) as usize
        } else {
            (c as u32 - 'A' as u32) as usize
        };
        let ghost longer = label.take(i - from + 1);
        assert(longer.drop_last() == label.take(i - from));
        assert(label_value(label.take(0)) == 0);
        if i > from {
            if index > (usize::MAX - 26 - digit) / 26 {
                proof {
                    if is_label(label) {
                        lemma_label_value_prefix(label, i - from + 1);
                    }
                }
                return Err(InvalidAddress);
            }
            index = 26 * index + 26 + digit;
        } else {
            index = digit;
        }
        i += 1;
    }
    assert(label.take(to - from) == label);
    Ok(index)
}

/// The number that the digits `chars[from..to]` write in base ten, where it
/// fits.
pub fn decimal_of(chars: &Vec<char>, from: usize, to: usize) -> (found: Option<usize>)
    requires
        from <= to <= chars.len(),
        forall|i: int| from <= i < to ==> is_digit(#[trigger] chars[i]),
    ensures
        ({
            let digits = chars@.subrange(from as int, to as int);
            match found {
                Some(value) => value == decimal_value(digits),
                None => decimal_value(digits) > usize::MAX,
            }
        }),
{
    let ghost digits = chars@.subrange(from as int, to as int);
    let mut value: usize = 0;
    let mut i: usize = from;
    while i < to
        invariant
            from <= i <= to <= chars.len(),
            digits == chars@.subrange(from as int, to as int),
            forall|k: int| 0 <= k < digits.len() ==> is_digit(#[trigger] digits[k]),
            value == decimal_value(digits.take(i - from)),
        decreases to - i,
    {
        let c = chars[i];
        assert(c == digits[i - from]);
        let digit: usize = (c as u32 - '0' as u32) as usize;
        let ghost longer = digits.take(i - from + 1);
        assert(longer.drop_last() == digits.take(i - from));
        if value > (usize::MAX - digit) / 10 {
            proof {
                lemma_decimal_value_prefix(digits, i - from + 1);
            }
            return None;
        }
        value = 10 * value + digit;
        i += 1;
    }
    assert(digits.take(to - from) == digits);
    Some(value)
}

} // verus!
