use sheet_eval::address::{
    column_of, decimal_of, is_digit_char, is_letter_char, push_decimal, push_label, InvalidAddress,
};
use sheet_eval::parsing::CellRef;
use sheet_eval::scanning::CellIndex;

#[test]
fn column_names_start_at_a() {
    assert_eq!(CellRef::text_to_number(String::from("A")), Ok(0));
    assert_eq!(CellRef::text_to_number(String::from("B")), Ok(1));
    assert_eq!(CellRef::text_to_number(String::from("Z")), Ok(25));
}

#[test]
fn column_names_have_no_zero_digit() {
    assert_eq!(CellRef::text_to_number(String::from("AA")), Ok(26));
    assert_eq!(CellRef::text_to_number(String::from("AB")), Ok(27));
    assert_eq!(CellRef::text_to_number(String::from("AZ")), Ok(51));
    assert_eq!(CellRef::text_to_number(String::from("BA")), Ok(52));
    assert_eq!(CellRef::text_to_number(String::from("ZZ")), Ok(701));
    assert_eq!(CellRef::text_to_number(String::from("AAA")), Ok(702));
}

#[test]
fn column_names_ignore_case() {
    assert_eq!(CellRef::text_to_number(String::from("a")), Ok(0));
    assert_eq!(CellRef::text_to_number(String::from("aa")), Ok(26));
    assert_eq!(CellRef::text_to_number(String::from("aB")), Ok(27));
    assert_eq!(CellRef::text_to_number(String::from("Zz")), Ok(701));
}

#[test]
fn empty_column_name_is_refused() {
    assert_eq!(CellRef::text_to_number(String::new()), Err(InvalidAddress));
}

#[test]
fn column_name_with_other_characters_is_refused() {
    assert_eq!(CellRef::text_to_number(String::from("A1")), Err(InvalidAddress));
    assert_eq!(CellRef::text_to_number(String::from("1")), Err(InvalidAddress));
    assert_eq!(CellRef::text_to_number(String::from("A B")), Err(InvalidAddress));
    assert_eq!(CellRef::text_to_number(String::from("A-")), Err(InvalidAddress));
    assert_eq!(CellRef::text_to_number(String::from("É")), Err(InvalidAddress));
    assert_eq!(CellRef::text_to_number(String::from("[")), Err(InvalidAddress));
    assert_eq!(CellRef::text_to_number(String::from("`")), Err(InvalidAddress));
    assert_eq!(CellRef::text_to_number(String::from("{")), Err(InvalidAddress));
    assert_eq!(CellRef::text_to_number(String::from("@")), Err(InvalidAddress));
}

#[test]
fn column_name_beyond_the_machine_is_refused() {
    let long = "Z".repeat(40);
    assert_eq!(CellRef::text_to_number(long), Err(InvalidAddress));
}

#[test]
fn greatest_column_has_a_name_and_comes_back() {
    let label = CellRef::number_to_text(usize::MAX);
    assert!(label.chars().all(|c| c.is_ascii_uppercase()));
    assert_eq!(CellRef::text_to_number(label.clone()), Ok(usize::MAX));
    let mut beyond = label.into_bytes();
    let last = beyond.len() - 1;
    if beyond[last] == b'Z' {
        beyond.push(b'A');
    } else {
        beyond[last] += 1;
    }
    let beyond = String::from_utf8(beyond).unwrap();
    assert_eq!(CellRef::text_to_number(beyond), Err(InvalidAddress));
}

#[test]
fn column_indices_have_names() {
    assert_eq!(CellRef::number_to_text(0), "A");
    assert_eq!(CellRef::number_to_text(1), "B");
    assert_eq!(CellRef::number_to_text(25), "Z");
    assert_eq!(CellRef::number_to_text(26), "AA");
    assert_eq!(CellRef::number_to_text(27), "AB");
    assert_eq!(CellRef::number_to_text(51), "AZ");
    assert_eq!(CellRef::number_to_text(52), "BA");
    assert_eq!(CellRef::number_to_text(701), "ZZ");
    assert_eq!(CellRef::number_to_text(702), "AAA");
    assert_eq!(CellRef::number_to_text(18277), "ZZZ");
    assert_eq!(CellRef::number_to_text(18278), "AAAA");
}

#[test]
fn index_to_name_to_index_round_trip() {
    for index in 0..20000usize {
        let label = CellRef::number_to_text(index);
        assert_eq!(CellRef::text_to_number(label), Ok(index));
    }
    for index in [usize::MAX, usize::MAX - 1, usize::MAX / 26, usize::MAX / 26 + 1, 1 << 40] {
        let label = CellRef::number_to_text(index);
        assert_eq!(CellRef::text_to_number(label), Ok(index));
    }
}

#[test]
fn name_to_index_to_name_round_trip() {
    for label in ["A", "M", "Z", "AA", "AZ", "ZA", "ZZ", "ABC", "XFD", "QWERTY", "ZZZZZZ"] {
        let index = CellRef::text_to_number(String::from(label)).unwrap();
        assert_eq!(CellRef::number_to_text(index), label);
    }
}

#[test]
fn names_follow_each_other_without_gaps() {
    let mut previous = CellRef::number_to_text(0);
    for index in 1..2000usize {
        let label = CellRef::number_to_text(index);
        assert!(label.len() >= previous.len());
        assert!(label.len() > previous.len() || label > previous);
        previous = label;
    }
}

#[test]
fn cell_index_holds_row_and_column() {
    let index = CellIndex::new(3, 7);
    assert_eq!(index.get(), (3, 7));
    assert_eq!(index, CellIndex::new(3, 7));
    assert_ne!(index, CellIndex::new(7, 3));
}

#[test]
fn cell_indices_are_ordered_by_row_first() {
    assert!(CellIndex::new(0, 9) < CellIndex::new(1, 0));
    assert!(CellIndex::new(2, 1) < CellIndex::new(2, 2));
    assert!(CellIndex::new(3, 0) > CellIndex::new(2, 100));
    let mut cells = vec![
        CellIndex::new(1, 1),
        CellIndex::new(0, 2),
        CellIndex::new(1, 0),
        CellIndex::new(0, 0),
    ];
    cells.sort();
    assert_eq!(
        cells,
        vec![
            CellIndex::new(0, 0),
            CellIndex::new(0, 2),
            CellIndex::new(1, 0),
            CellIndex::new(1, 1),
        ]
    );
}

#[test]
fn cell_is_named_by_column_letters_and_row_number() {
    assert_eq!(CellIndex::new(0, 0).name(), "A0");
    assert_eq!(CellIndex::new(12, 1).name(), "B12");
    assert_eq!(CellIndex::new(1, 26).name(), "AA1");
    assert_eq!(CellIndex::new(100, 701).name(), "ZZ100");
    assert_eq!(CellIndex::new(9, 25).name(), "Z9");
    assert_eq!(CellIndex::new(10, 25).name(), "Z10");
    assert_eq!(
        CellIndex::new(usize::MAX, 0).name(),
        format!("A{}", usize::MAX)
    );
}

#[test]
fn column_is_read_from_a_part_of_the_text() {
    let chars: Vec<char> = "12AB34".chars().collect();
    assert_eq!(column_of(&chars, 2, 4), Ok(27));
    assert_eq!(column_of(&chars, 2, 3), Ok(0));
    assert_eq!(column_of(&chars, 3, 4), Ok(1));
    assert_eq!(column_of(&chars, 3, 3), Err(InvalidAddress));
    assert_eq!(column_of(&chars, 1, 4), Err(InvalidAddress));
    assert_eq!(column_of(&chars, 2, 5), Err(InvalidAddress));
}

#[test]
fn number_is_read_from_a_part_of_the_text() {
    let chars: Vec<char> = "ab0120cd".chars().collect();
    assert_eq!(decimal_of(&chars, 2, 6), Some(120));
    assert_eq!(decimal_of(&chars, 3, 5), Some(12));
    assert_eq!(decimal_of(&chars, 2, 3), Some(0));
    assert_eq!(decimal_of(&chars, 4, 4), Some(0));
    let most: Vec<char> = usize::MAX.to_string().chars().collect();
    assert_eq!(decimal_of(&most, 0, most.len()), Some(usize::MAX));
    let mut more = most.clone();
    more.push('0');
    assert_eq!(decimal_of(&more, 0, more.len()), None);
    let mut next = most.clone();
    let last = next.len() - 1;
    next[last] = char::from_digit(next[last].to_digit(10).unwrap() + 1, 10).unwrap();
    assert_eq!(decimal_of(&next, 0, next.len()), None);
    let padded: Vec<char> = format!("000{}", usize::MAX).chars().collect();
    assert_eq!(decimal_of(&padded, 0, padded.len()), Some(usize::MAX));
}

#[test]
fn letters_and_digits_are_those_of_ascii() {
    for code in 0..0x250u32 {
        let c = char::from_u32(code).unwrap();
        assert_eq!(is_letter_char(c), c.is_ascii_alphabetic());
        assert_eq!(is_digit_char(c), c.is_ascii_digit());
    }
}

#[test]
fn labels_and_numbers_are_appended() {
    let mut text = String::from("=");
    push_label(&mut text, 27);
    push_decimal(&mut text, 0);
    push_label(&mut text, 0);
    push_decimal(&mut text, 1090);
    assert_eq!(text, "=AB0A1090");
    let mut number = String::new();
    push_decimal(&mut number, usize::MAX);
    assert_eq!(number, usize::MAX.to_string());
    for value in [0usize, 9, 10, 99, 100, 101, 12345] {
        let mut written = String::new();
        push_decimal(&mut written, value);
        assert_eq!(written, value.to_string());
    }
}
