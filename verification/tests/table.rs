use sheet_eval::parsing::table::pieces;
use sheet_eval::parsing::{Cell, Table};
use sheet_eval::scanning::CellIndex;
use sheet_eval::text::{chars_of, spells, string_of, width_of};

fn show(cell: Option<&Cell>) -> String {
    match cell {
        Some(Cell::Value(text)) => format!("V:{}", text),
        Some(Cell::Expression(source)) => format!("E:{}", source),
        None => String::from("-"),
    }
}

fn layout(table: &Table) -> Vec<Vec<String>> {
    table.rows.iter().map(|row| row.iter().map(|cell| show(Some(cell))).collect()).collect()
}

fn split(text: &str, separator: char) -> Vec<String> {
    let chars: Vec<char> = text.chars().collect();
    pieces(&chars, separator).iter().map(|piece| piece.iter().collect()).collect()
}

#[test]
fn text_without_separator_is_one_piece() {
    assert_eq!(split("", '|'), vec![""]);
    assert_eq!(split("abc", '|'), vec!["abc"]);
}

#[test]
fn each_separator_starts_a_piece() {
    assert_eq!(split("a|b", '|'), vec!["a", "b"]);
    assert_eq!(split("a|", '|'), vec!["a", ""]);
    assert_eq!(split("|a", '|'), vec!["", "a"]);
    assert_eq!(split("||", '|'), vec!["", "", ""]);
    assert_eq!(split("a\nb|c\n", '\n'), vec!["a", "b|c", ""]);
}

#[test]
fn pieces_are_those_of_std() {
    for text in ["", "|", "a||b|", "|x|y", "no separator", "é|ü|", "a|b|c|d|e"] {
        let expected: Vec<String> = text.split('|').map(String::from).collect();
        assert_eq!(split(text, '|'), expected);
    }
}

#[test]
fn characters_and_strings_convert() {
    assert_eq!(chars_of("héllo"), vec!['h', 'é', 'l', 'l', 'o']);
    assert_eq!(chars_of(""), Vec::<char>::new());
    let chars = chars_of("spreadsheet");
    assert_eq!(string_of(&chars, 0, 6), "spread");
    assert_eq!(string_of(&chars, 6, 11), "sheet");
    assert_eq!(string_of(&chars, 3, 3), "");
    assert!(spells(&chars, "spreadsheet"));
    assert!(!spells(&chars, "spreadsheets"));
    assert!(!spells(&chars, "spreadsheeT"));
    assert!(!spells(&chars, ""));
    assert!(spells(&Vec::new(), ""));
}

#[test]
fn lines_are_rows_and_bars_separate_cells() {
    let table = Table::from_text("1|=A1+1\n2|=B1*2\n");
    assert_eq!(
        layout(&table),
        vec![vec!["V:1", "E:A1+1"], vec!["V:2", "E:B1*2"], vec!["V:"]]
    );
}

#[test]
fn empty_text_is_one_empty_cell() {
    assert_eq!(layout(&Table::from_text("")), vec![vec!["V:"]]);
}

#[test]
fn rows_may_differ_in_length() {
    let table = Table::from_text("a|b|c\n\nd||");
    assert_eq!(
        layout(&table),
        vec![vec!["V:a", "V:b", "V:c"], vec!["V:"], vec!["V:d", "V:", "V:"]]
    );
}

#[test]
fn only_a_leading_marker_makes_a_formula() {
    let table = Table::from_text("=|==1| =1|a=b|=sum(1, 2)");
    assert_eq!(
        layout(&table),
        vec![vec!["E:", "E:=1", "V: =1", "V:a=b", "E:sum(1, 2)"]]
    );
}

#[test]
fn cells_are_found_by_row_and_column() {
    let table = Table::from_text("a|b\nc\n=d|e|f");
    assert_eq!(show(table.get(&CellIndex::new(0, 0))), "V:a");
    assert_eq!(show(table.get(&CellIndex::new(0, 1))), "V:b");
    assert_eq!(show(table.get(&CellIndex::new(1, 0))), "V:c");
    assert_eq!(show(table.get(&CellIndex::new(2, 0))), "E:d");
    assert_eq!(show(table.get(&CellIndex::new(2, 2))), "V:f");
}

#[test]
fn cells_outside_the_table_are_not_found() {
    let table = Table::from_text("a|b\nc\n=d|e|f");
    assert_eq!(show(table.get(&CellIndex::new(0, 2))), "-");
    assert_eq!(show(table.get(&CellIndex::new(1, 1))), "-");
    assert_eq!(show(table.get(&CellIndex::new(3, 0))), "-");
    assert_eq!(show(table.get(&CellIndex::new(usize::MAX, usize::MAX))), "-");
}

#[test]
fn put_replaces_one_cell() {
    let mut table = Table::from_text("a|=b\nc|d");
    assert!(table.put(CellIndex::new(0, 1), Cell::Value(String::from("7"))));
    assert_eq!(layout(&table), vec![vec!["V:a", "V:7"], vec!["V:c", "V:d"]]);
    assert!(table.put(CellIndex::new(1, 0), Cell::Expression(String::from("1+1"))));
    assert_eq!(layout(&table), vec![vec!["V:a", "V:7"], vec!["E:1+1", "V:d"]]);
}

#[test]
fn put_outside_the_table_changes_nothing() {
    let mut table = Table::from_text("a|=b\nc");
    assert!(!table.put(CellIndex::new(1, 1), Cell::Value(String::from("7"))));
    assert!(!table.put(CellIndex::new(2, 0), Cell::Value(String::from("7"))));
    assert_eq!(layout(&table), vec![vec!["V:a", "E:b"], vec!["V:c"]]);
}

#[test]
fn cells_are_padded_to_ten_characters() {
    assert_eq!(Table::from_text("1|22").render(), "1         |22        \n");
    assert_eq!(Table::from_text("").render(), "          \n");
    assert_eq!(Table::from_text("0123456789").render(), "0123456789\n");
    assert_eq!(Table::from_text("012345678").render(), "012345678 \n");
}

#[test]
fn long_cells_are_not_cut() {
    assert_eq!(Table::from_text("0123456789abc|x").render(), "0123456789abc|x         \n");
}

#[test]
fn padding_counts_characters() {
    assert_eq!(Table::from_text("é").render(), "é         \n");
    assert_eq!(Table::from_text("éééééééééé").render(), "éééééééééé\n");
}

#[test]
fn rows_end_with_a_line_end() {
    assert_eq!(
        Table::from_text("a|b\nc\n").render(),
        "a         |b         \nc         \n          \n"
    );
}

#[test]
fn padding_is_that_of_std() {
    for text in ["", "a", "12345", "123456789", "1234567890", "12345678901", "é ü", "  x"] {
        assert_eq!(Table::from_text(text).render(), format!("{: <10}\n", text));
    }
}

#[test]
fn formula_is_written_as_its_source() {
    assert_eq!(Table::from_text("=1+1|x").render(), "1+1       |x         \n");
}

#[test]
fn characters_take_one_to_four_bytes() {
    for c in ['\0', 'a', '\u{7f}', '\u{80}', 'é', '\u{7ff}', '\u{800}', '€', '\u{ffff}', '\u{10000}', '🦀', '\u{10ffff}'] {
        assert_eq!(width_of(c), c.len_utf8());
    }
}
