use sheet_eval::scanning::lexer::{lower_case, Builtin};
use sheet_eval::scanning::{
    CellIndex, LexError, LexErrorKind, LiteralValue, Token, TokenType, Tokenizer,
};

fn scan(text: &str) -> Result<Vec<Token>, LexError> {
    Tokenizer::new(String::from(text)).get_tokens()
}

fn kinds(text: &str) -> Vec<TokenType> {
    scan(text).unwrap().iter().map(|token| *token.get_type()).collect()
}

fn lexemes(text: &str) -> Vec<String> {
    scan(text).unwrap().iter().map(|token| token.get_lexeme().clone()).collect()
}

fn refused(text: &str) -> (LexErrorKind, String, usize, usize) {
    let error = scan(text).unwrap_err();
    (error.kind, error.lexeme, error.start, error.end)
}

#[test]
fn empty_text_has_no_tokens() {
    assert_eq!(scan("").unwrap().len(), 0);
    assert_eq!(scan(" \t\n  ").unwrap().len(), 0);
}

#[test]
fn punctuation_makes_one_token_each() {
    assert_eq!(
        kinds("+-*/(),"),
        vec![
            TokenType::Plus,
            TokenType::Minus,
            TokenType::Star,
            TokenType::Slash,
            TokenType::OpeningParenthese,
            TokenType::ClosingParenthese,
            TokenType::Comma,
        ]
    );
    assert_eq!(lexemes("+-*/(),"), vec!["+", "-", "*", "/", "(", ")", ","]);
    for token in scan("+-*/(),").unwrap() {
        assert!(token.literal.is_none());
    }
}

#[test]
fn blanks_separate_tokens() {
    assert_eq!(lexemes(" 1 +\t2\n* 3 "), vec!["1", "+", "2", "*", "3"]);
    assert_eq!(lexemes("1 2"), vec!["1", "2"]);
}

#[test]
fn whole_numbers_keep_their_digits() {
    let tokens = scan("42").unwrap();
    assert_eq!(tokens.len(), 1);
    assert_eq!(*tokens[0].get_type(), TokenType::Number);
    assert_eq!(tokens[0].get_lexeme(), "42");
    match &tokens[0].literal {
        Some(LiteralValue::Float(numeral)) => assert_eq!(numeral, "42"),
        other => panic!("no numeral: {:?}", other),
    }
}

#[test]
fn numbers_may_have_a_fraction() {
    let tokens = scan("3.25+0.5").unwrap();
    assert_eq!(tokens.len(), 3);
    assert_eq!(tokens[0].get_lexeme(), "3.25");
    assert_eq!(*tokens[1].get_type(), TokenType::Plus);
    assert_eq!(tokens[2].get_lexeme(), "0.5");
    match &tokens[2].literal {
        Some(LiteralValue::Float(numeral)) => assert_eq!(numeral, "0.5"),
        other => panic!("no numeral: {:?}", other),
    }
}

#[test]
fn number_ends_at_a_second_point() {
    assert_eq!(refused("1.2.3"), (LexErrorKind::UnknownCharacter, String::from("."), 3, 4));
}

#[test]
fn number_with_nothing_after_the_point_is_refused() {
    assert_eq!(refused("12."), (LexErrorKind::MalformedNumber, String::from("12."), 0, 3));
    assert_eq!(refused("1+7."), (LexErrorKind::MalformedNumber, String::from("7."), 2, 4));
}

#[test]
fn number_with_no_digit_after_the_point_is_refused() {
    assert_eq!(refused("12.x"), (LexErrorKind::MalformedNumber, String::from("12.x"), 0, 4));
    assert_eq!(refused(" 5.+1"), (LexErrorKind::MalformedNumber, String::from("5.+"), 1, 4));
}

#[test]
fn point_without_digits_before_it_is_refused() {
    assert_eq!(refused(".5"), (LexErrorKind::UnknownCharacter, String::from("."), 0, 1));
}

#[test]
fn unknown_character_is_refused_with_its_place() {
    assert_eq!(refused("1 + #"), (LexErrorKind::UnknownCharacter, String::from("#"), 4, 5));
    assert_eq!(refused("="), (LexErrorKind::UnknownCharacter, String::from("="), 0, 1));
    assert_eq!(refused("2^3"), (LexErrorKind::UnknownCharacter, String::from("^"), 1, 2));
    assert_eq!(refused("1\r\n"), (LexErrorKind::UnknownCharacter, String::from("\r"), 1, 2));
}

#[test]
fn character_outside_ascii_is_refused() {
    assert_eq!(refused("1+é"), (LexErrorKind::UnknownCharacter, String::from("é"), 2, 4));
    assert_eq!(refused("1.é"), (LexErrorKind::MalformedNumber, String::from("1.é"), 0, 4));
    assert_eq!(refused("€"), (LexErrorKind::UnknownCharacter, String::from("€"), 0, 3));
    assert_eq!(refused(" 7.🦀+1"), (LexErrorKind::MalformedNumber, String::from("7.🦀"), 1, 7));
}

#[test]
fn error_span_is_in_bytes_of_the_text() {
    for text in ["1+é", "12.ü3", "sum(1,€)", "a1 + b2 * 🦀", "x", "1.", "7 + foo"] {
        let error = scan(text).unwrap_err();
        assert_eq!(&text[error.start..error.end], error.lexeme);
    }
}

#[test]
fn first_error_wins() {
    assert_eq!(refused("# 1. foo"), (LexErrorKind::UnknownCharacter, String::from("#"), 0, 1));
    assert_eq!(refused("foo #"), (LexErrorKind::InvalidIdentifier, String::from("foo"), 0, 3));
}

#[test]
fn letters_and_digits_name_a_cell() {
    let tokens = scan("B12").unwrap();
    assert_eq!(tokens.len(), 1);
    assert_eq!(*tokens[0].get_type(), TokenType::CellRef);
    assert_eq!(tokens[0].get_lexeme(), "B12");
    match &tokens[0].literal {
        Some(LiteralValue::CellRef(index)) => assert_eq!(index.get(), (12, 1)),
        other => panic!("no address: {:?}", other),
    }
}

#[test]
fn cell_names_ignore_case_and_keep_their_lexeme() {
    let tokens = scan("aa0 + Ab007").unwrap();
    assert_eq!(tokens.len(), 3);
    assert_eq!(tokens[0].get_lexeme(), "aa0");
    match &tokens[0].literal {
        Some(LiteralValue::CellRef(index)) => assert_eq!(*index, CellIndex::new(0, 26)),
        other => panic!("no address: {:?}", other),
    }
    assert_eq!(tokens[2].get_lexeme(), "Ab007");
    match &tokens[2].literal {
        Some(LiteralValue::CellRef(index)) => assert_eq!(*index, CellIndex::new(7, 27)),
        other => panic!("no address: {:?}", other),
    }
}

#[test]
fn row_is_read_in_base_ten() {
    let tokens = scan("A10").unwrap();
    match &tokens[0].literal {
        Some(LiteralValue::CellRef(index)) => assert_eq!(*index, CellIndex::new(10, 0)),
        other => panic!("no address: {:?}", other),
    }
}

#[test]
fn cell_beyond_the_machine_is_refused() {
    let row = "A99999999999999999999999999999";
    assert_eq!(refused(row), (LexErrorKind::InvalidIdentifier, String::from(row), 0, row.len()));
    let column = "ZZZZZZZZZZZZZZZZZZZZZZZZZZZZZZ1";
    assert_eq!(
        refused(column),
        (LexErrorKind::InvalidIdentifier, String::from(column), 0, column.len())
    );
}

#[test]
fn function_names_are_tokens() {
    for name in
        ["random", "randbetween", "sum", "average", "max", "min", "if", "vlookup", "concatenate"]
    {
        let tokens = scan(name).unwrap();
        assert_eq!(tokens.len(), 1);
        assert_eq!(*tokens[0].get_type(), TokenType::Function);
        assert_eq!(tokens[0].get_lexeme(), name);
        assert!(tokens[0].literal.is_none());
    }
}

#[test]
fn function_names_ignore_case() {
    let tokens = scan("SUM(Max(1),iF)").unwrap();
    assert_eq!(*tokens[0].get_type(), TokenType::Function);
    assert_eq!(tokens[0].get_lexeme(), "SUM");
    assert_eq!(*tokens[2].get_type(), TokenType::Function);
    assert_eq!(tokens[2].get_lexeme(), "Max");
    assert_eq!(*tokens[7].get_type(), TokenType::Function);
    assert_eq!(tokens[7].get_lexeme(), "iF");
}

#[test]
fn function_name_before_digits_names_a_cell() {
    let tokens = scan("sum1").unwrap();
    assert_eq!(tokens.len(), 1);
    assert_eq!(*tokens[0].get_type(), TokenType::CellRef);
    let column = 26 * 26 * 19 + 26 * 21 + 13 - 1;
    match &tokens[0].literal {
        Some(LiteralValue::CellRef(index)) => assert_eq!(*index, CellIndex::new(1, column)),
        other => panic!("no address: {:?}", other),
    }
}

#[test]
fn other_words_are_refused() {
    assert_eq!(refused("foo"), (LexErrorKind::InvalidIdentifier, String::from("foo"), 0, 3));
    assert_eq!(refused("1+su"), (LexErrorKind::InvalidIdentifier, String::from("su"), 2, 4));
    assert_eq!(refused("sums(1)"), (LexErrorKind::InvalidIdentifier, String::from("sums"), 0, 4));
    assert_eq!(refused("A"), (LexErrorKind::InvalidIdentifier, String::from("A"), 0, 1));
}

#[test]
fn digits_before_letters_are_a_number_and_a_word() {
    assert_eq!(refused("1A"), (LexErrorKind::InvalidIdentifier, String::from("A"), 1, 2));
    assert_eq!(lexemes("1A2"), vec!["1", "A2"]);
}

#[test]
fn formula_is_scanned_in_order() {
    assert_eq!(
        kinds("sum(A1, 2.5) * -B2"),
        vec![
            TokenType::Function,
            TokenType::OpeningParenthese,
            TokenType::CellRef,
            TokenType::Comma,
            TokenType::Number,
            TokenType::ClosingParenthese,
            TokenType::Star,
            TokenType::Minus,
            TokenType::CellRef,
        ]
    );
}

#[test]
fn scan_token_reads_one_thing_at_a_time() {
    let mut scanner = Tokenizer::new(String::from(" 1+"));
    assert!(scanner.scan_token().is_ok());
    assert!(scanner.scan_token().is_ok());
    assert!(scanner.scan_token().is_ok());
    assert!(scanner.scan_token().is_ok());
    let tokens = scanner.get_tokens().unwrap();
    assert_eq!(tokens.len(), 2);
    assert_eq!(tokens[0].get_lexeme(), "1");
    assert_eq!(tokens[1].get_lexeme(), "+");
}

#[test]
fn scan_token_stays_put_on_an_error() {
    let mut scanner = Tokenizer::new(String::from("1 ?"));
    assert!(scanner.scan_token().is_ok());
    assert!(scanner.scan_token().is_ok());
    let first = scanner.scan_token().unwrap_err();
    let second = scanner.scan_token().unwrap_err();
    assert_eq!((first.start, first.end), (2, 3));
    assert_eq!((second.start, second.end), (2, 3));
    assert_eq!(second.lexeme, "?");
    let third = scanner.get_tokens().unwrap_err();
    assert_eq!(third.kind, LexErrorKind::UnknownCharacter);
}

#[test]
fn tokens_are_equal_by_type_and_lexeme() {
    let plain = Token::new(TokenType::Number, String::from("1"), None);
    let valued =
        Token::new(TokenType::Number, String::from("1"), Some(LiteralValue::Float(String::from("1"))));
    assert!(plain == valued);
    assert!(plain != Token::new(TokenType::Number, String::from("2"), None));
    assert!(plain != Token::new(TokenType::CellRef, String::from("1"), None));
}

#[test]
fn token_keeps_what_it_was_made_of() {
    let token = Token::new(
        TokenType::CellRef,
        String::from("C3"),
        Some(LiteralValue::CellRef(CellIndex::new(3, 2))),
    );
    assert_eq!(*token.get_type(), TokenType::CellRef);
    assert_eq!(token.get_lexeme(), "C3");
    let copy = token.duplicate();
    assert!(copy == token);
    match copy.literal {
        Some(LiteralValue::CellRef(index)) => assert_eq!(index, CellIndex::new(3, 2)),
        other => panic!("no address: {:?}", other),
    }
}

#[test]
fn builtins_are_found_by_exact_name() {
    let chars = |name: &str| name.chars().collect::<Vec<char>>();
    assert_eq!(Builtin::named(&chars("random")), Some(Builtin::Random));
    assert_eq!(Builtin::named(&chars("randbetween")), Some(Builtin::RandBetween));
    assert_eq!(Builtin::named(&chars("sum")), Some(Builtin::Sum));
    assert_eq!(Builtin::named(&chars("average")), Some(Builtin::Average));
    assert_eq!(Builtin::named(&chars("max")), Some(Builtin::Max));
    assert_eq!(Builtin::named(&chars("min")), Some(Builtin::Min));
    assert_eq!(Builtin::named(&chars("if")), Some(Builtin::If));
    assert_eq!(Builtin::named(&chars("vlookup")), Some(Builtin::Vlookup));
    assert_eq!(Builtin::named(&chars("concatenate")), Some(Builtin::Concatenate));
    assert_eq!(Builtin::named(&chars("Sum")), None);
    assert_eq!(Builtin::named(&chars("su")), None);
    assert_eq!(Builtin::named(&chars("")), None);
}

#[test]
fn name_of_a_cell_scans_as_its_reference() {
    for (row, column) in [(0, 0), (1, 0), (0, 1), (12, 1), (9, 25), (10, 26), (12345, 18277)] {
        let index = CellIndex::new(row, column);
        let tokens = scan(&index.name()).unwrap();
        assert_eq!(tokens.len(), 1);
        assert_eq!(*tokens[0].get_type(), TokenType::CellRef);
        assert_eq!(*tokens[0].get_lexeme(), index.name());
        match &tokens[0].literal {
            Some(LiteralValue::CellRef(found)) => assert_eq!(*found, index),
            other => panic!("no address: {:?}", other),
        }
    }
    let last = CellIndex::new(usize::MAX, usize::MAX);
    match &scan(&last.name()).unwrap()[0].literal {
        Some(LiteralValue::CellRef(found)) => assert_eq!(*found, last),
        other => panic!("no address: {:?}", other),
    }
}

#[test]
fn letters_are_put_in_lower_case() {
    let chars: Vec<char> = "SuM1+Éa[Z@`{".chars().collect();
    let lower: String = lower_case(&chars, 0, chars.len()).iter().collect();
    assert_eq!(lower, "sum1+Éa[z@`{");
    let part: String = lower_case(&chars, 1, 3).iter().collect();
    assert_eq!(part, "um");
    assert!(lower_case(&chars, 2, 2).is_empty());
}
