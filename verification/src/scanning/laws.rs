//! What holds of scanning the names of cells.

use crate::address::{
    cell_name, column_label, decimal_text, is_digit, is_letter, lemma_column_label_upper,
    lemma_decimal_round_trip, lemma_label_round_trip, CellIndex,
};
use crate::scanning::lexer::{digits_end, letters_end, scan, scan_from};
use crate::scanning::token::{LexErrorView, LiteralView, TokenType, TokenView};
use vstd::prelude::*;

verus! {

/// Letters up to a place that holds no letter end there.
pub proof fn lemma_letters_run(text: Seq<char>, from: int, to: int)
    requires
        0 <= from <= to <= text.len(),
        forall|i: int| from <= i < to ==> is_letter(#[trigger] text[i]),
        to < text.len() ==> !is_letter(text[to]),
    ensures
        letters_end(text, from) == to,
    decreases to - from,
{
    if from < to {
        lemma_letters_run(text, from + 1, to);
    }
}

/// Digits up to a place that holds no digit end there.
pub proof fn lemma_digits_run(text: Seq<char>, from: int, to: int)
    requires
        0 <= from <= to <= text.len(),
        forall|i: int| from <= i < to ==> is_digit(#[trigger] text[i]),
        to < text.len() ==> !is_digit(text[to]),
    ensures
        digits_end(text, from) == to,
    decreases to - from,
{
    if from < to {
        lemma_digits_run(text, from + 1, to);
    }
}

/// The token that the name of a cell makes.
pub open spec fn reference(index: CellIndex) -> TokenView {
    TokenView {
        kind: TokenType::CellRef,
        lexeme: cell_name(index),
        literal: Some(LiteralView::CellRef(index)),
    }
}

/// The name of a cell scans as one token, the reference to that cell.
pub proof fn lemma_name_scans(index: CellIndex)
    ensures
        scan(cell_name(index)) == Ok::<Seq<TokenView>, LexErrorView>(seq![reference(index)]),
{
    let label = column_label(index.column as nat);
    let digits = decimal_text(index.row as nat);
    let name = cell_name(index);
    let mid = label.len() as int;
    let end = name.len() as int;
    lemma_column_label_upper(index.column as nat);
    lemma_label_round_trip(index.column as nat);
    lemma_decimal_round_trip(index.row as nat);
    lemma_letters_run(name, 0, mid);
    lemma_digits_run(name, mid, end);
    assert(name.subrange(0, mid) == label);
    assert(name.subrange(mid, end) == digits);
    assert(name.subrange(0, end) == name);
    assert(scan_from(name, end) == Ok::<Seq<TokenView>, LexErrorView>(Seq::empty()));
}

} // verus!
