//! The scanner: from the text of a formula to its tokens.
//!
//! Blanks, tabs and line ends separate tokens and are skipped. A token is
//! one of `+ - * / ( ) ,`, a number, the address of a cell or the name of a
//! function.

use crate::address::{
    column_index, column_of, decimal_of, decimal_value, is_digit, is_digit_char, is_letter,
    is_letter_char, is_upper, CellIndex,
};
use crate::scanning::token::{
    LexError, LexErrorKind, LexErrorView, LiteralValue, LiteralView, Token, TokenType, TokenView,
};
use crate::text::{
    byte_offset, chars_of, is_ascii, lemma_offset_ascii, lemma_offset_bound, lemma_offset_step,
    spells, string_of, width_of,
};
use vstd::prelude::*;
use vstd::utf8::encode_utf8;

verus! {

/// The functions that a formula can call.
#[derive(Debug, Clone, Copy, PartialEq, Eq, Structural)]
pub enum Builtin {
    Random,
    RandBetween,
    Sum,
    Average,
    Max,
    Min,
    If,
    Vlookup,
    Concatenate,
}

/// The function that goes by exactly this name.
pub open spec fn builtin_named(name: Seq<char>) -> Option<Builtin> {
    if name == "random"@ {
        Some(Builtin::Random)
    } else if name == "randbetween"@ {
        Some(Builtin::RandBetween)
    } else if name == "sum"@ {
        Some(Builtin::Sum)
    } else if name == "average"@ {
        Some(Builtin::Average)
    } else if name == "max"@ {
        Some(Builtin::Max)
    } else if name == "min"@ {
        Some(Builtin::Min)
    } else if name == "if"@ {
        Some(Builtin::If)
    } else if name == "vlookup"@ {
        Some(Builtin::Vlookup)
    } else if name == "concatenate"@ {
        Some(Builtin::Concatenate)
    } else {
        None
    }
}

impl Builtin {
    pub fn named(name: &Vec<char>) -> (found: Option<Builtin>)
        ensures
            found == builtin_named(name@),
    {
        if spells(name, "random") {
            Some(Builtin::Random)
        } else if spells(name, "randbetween") {
            Some(Builtin::RandBetween)
        } else if spells(name, "sum") {
            Some(Builtin::Sum)
        } else if spells(name, "average") {
            Some(Builtin::Average)
        } else if spells(name, "max") {
            Some(Builtin::Max)
        } else if spells(name, "min") {
            Some(Builtin::Min)
        } else if spells(name, "if") {
            Some(Builtin::If)
        } else if spells(name, "vlookup") {
            Some(Builtin::Vlookup)
        } else if spells(name, "concatenate") {
            Some(Builtin::Concatenate)
        } else {
            None
        }
    }
}

pub open spec fn is_blank(c: char) -> bool {
    c == ' ' || c == '\t' || c == '\n'
}

/// The token that a single character makes, if it makes one.
pub open spec fn punctuation(c: char) -> Option<TokenType> {
    if c == '(' {
        Some(TokenType::OpeningParenthese)
    } else if c == ')' {
        Some(TokenType::ClosingParenthese)
    } else if c == '+' {
        Some(TokenType::Plus)
    } else if c == '-' {
        Some(TokenType::Minus)
    } else if c == '*' {
        Some(TokenType::Star)
    } else if c == '/' {
        Some(TokenType::Slash)
    } else if c == ',' {
        Some(TokenType::Comma)
    } else {
        None
    }
}

/// A letter in lower case; any other character as it is.
pub open spec fn lower(c: char) -> char {
    if is_upper(c) {
        (c as int + 32) as char
    } else {
        c
    }
}

pub open spec fn lowered(word: Seq<char>) -> Seq<char> {
    Seq::new(word.len(), |i: int| lower(word[i]))
}

/// Where the digits that start at `from` end: the first place at or after
/// `from` that holds no digit.
pub open spec fn digits_end(text: Seq<char>, from: int) -> int
    decreases text.len() - from,
{
    if 0 <= from < text.len() && is_digit(text[from]) {
        digits_end(text, from + 1)
    } else {
        from
    }
}

/// Where the letters that start at `from` end.
pub open spec fn letters_end(text: Seq<char>, from: int) -> int
    decreases text.len() - from,
{
    if 0 <= from < text.len() && is_letter(text[from]) {
        letters_end(text, from + 1)
    } else {
        from
    }
}

/// What stands at one place of a text.
pub enum Lexed {
    /// A character that separates tokens.
    Blank,
    /// A token, and the place after its last character.
    Token { token: TokenView, end: int },
    Error(LexErrorView),
}

/// The error for the characters of `text` from `at` up to `end`.
pub open spec fn refused(kind: LexErrorKind, text: Seq<char>, at: int, end: int) -> Lexed {
    Lexed::Error(
        LexErrorView {
            kind,
            lexeme: text.subrange(at, end),
            start: byte_offset(text, at) as int,
            end: byte_offset(text, end) as int,
        },
    )
}

pub open spec fn number_token(lexeme: Seq<char>) -> TokenView {
    TokenView { kind: TokenType::Number, lexeme, literal: Some(LiteralView::Float(lexeme)) }
}

/// The number that starts at `at`: digits, then optionally a point and at
/// least one more digit. A point with no digit after it is an error, whose
/// lexeme runs through the character after the point, if there is one.
pub open spec fn number_at(text: Seq<char>, at: int) -> Lexed {
    let whole = digits_end(text, at);
    if whole < text.len() && text[whole] == '.' {
        if whole + 1 < text.len() && is_digit(text[whole + 1]) {
            let end = digits_end(text, whole + 1);
            Lexed::Token { token: number_token(text.subrange(at, end)), end }
        } else {
            let end = if whole + 1 < text.len() {
                whole + 2
            } else {
                whole + 1
            };
            refused(LexErrorKind::MalformedNumber, text, at, end)
        }
    } else {
        Lexed::Token { token: number_token(text.subrange(at, whole)), end: whole }
    }
}

/// The word that starts at `at`: letters, then digits. With digits it is the
/// address of a cell, the letters naming the column and the digits giving
/// the row in base ten; both must fit in `usize`. Without digits it must be
/// the name of a function, in any case of letters.
pub open spec fn word_at(text: Seq<char>, at: int) -> Lexed {
    let mid = letters_end(text, at);
    let end = digits_end(text, mid);
    let lexeme = text.subrange(at, end);
    let refused = refused(LexErrorKind::InvalidIdentifier, text, at, end);
    if mid < end {
        let column = column_index(text.subrange(at, mid));
        let row = decimal_value(text.subrange(mid, end));
        if column <= usize::MAX && row <= usize::MAX {
            Lexed::Token {
                token: TokenView {
                    kind: TokenType::CellRef,
                    lexeme,
                    literal: Some(
                        LiteralView::CellRef(
                            CellIndex { row: row as usize, column: column as usize },
                        ),
                    ),
                },
                end,
            }
        } else {
            refused
        }
    } else if builtin_named(lowered(lexeme)) is Some {
        Lexed::Token {
            token: TokenView { kind: TokenType::Function, lexeme, literal: None },
            end,
        }
    } else {
        refused
    }
}

/// What stands at `at`, a place inside `text`.
pub open spec fn lex_at(text: Seq<char>, at: int) -> Lexed {
    let c = text[at];
    if is_blank(c) {
        Lexed::Blank
    } else if punctuation(c) is Some {
        Lexed::Token {
            token: TokenView {
                kind: punctuation(c)->0,
                lexeme: text.subrange(at, at + 1),
                literal: None,
            },
            end: at + 1,
        }
    } else if is_digit(c) {
        number_at(text, at)
    } else if is_letter(c) {
        word_at(text, at)
    } else {
        refused(LexErrorKind::UnknownCharacter, text, at, at + 1)
    }
}

pub proof fn lemma_digits_end(text: Seq<char>, from: int)
    requires
        0 <= from <= text.len(),
    ensures
        from <= digits_end(text, from) <= text.len(),
        forall|i: int| from <= i < digits_end(text, from) ==> is_digit(#[trigger] text[i]),
        digits_end(text, from) < text.len() ==> !is_digit(text[digits_end(text, from)]),
        from < text.len() && is_digit(text[from]) ==> from < digits_end(text, from),
    decreases text.len() - from,
{
    if from < text.len() && is_digit(text[from]) {
        lemma_digits_end(text, from + 1);
    }
}

pub proof fn lemma_letters_end(text: Seq<char>, from: int)
    requires
        0 <= from <= text.len(),
    ensures
        from <= letters_end(text, from) <= text.len(),
        forall|i: int| from <= i < letters_end(text, from) ==> is_letter(#[trigger] text[i]),
        letters_end(text, from) < text.len() ==> !is_letter(text[letters_end(text, from)]),
        from < text.len() && is_letter(text[from]) ==> from < letters_end(text, from),
    decreases text.len() - from,
{
    if from < text.len() && is_letter(text[from]) {
        lemma_letters_end(text, from + 1);
    }
}

/// A token is not empty and ends inside the text.
pub proof fn lemma_token_end(text: Seq<char>, at: int)
    requires
        0 <= at < text.len(),
    ensures
        lex_at(text, at) matches Lexed::Token { token, end } ==> at < end <= text.len()
            && token.lexeme == text.subrange(at, end),
{
    lemma_digits_end(text, at);
    lemma_letters_end(text, at);
    lemma_digits_end(text, letters_end(text, at));
    let whole = digits_end(text, at);
    if whole + 1 <= text.len() {
        lemma_digits_end(text, whole + 1);
    }
}

/// The tokens of `text` from `at` on, or the first error.
pub open spec fn scan_from(text: Seq<char>, at: int) -> Result<Seq<TokenView>, LexErrorView>
    decreases text.len() - at,
{
    if at < 0 || at >= text.len() {
        Ok(Seq::empty())
    } else {
        match lex_at(text, at) {
            Lexed::Blank => scan_from(text, at + 1),
            Lexed::Token { token, end } => {
                proof {
                    lemma_token_end(text, at);
                }
                after(seq![token], scan_from(text, end))
            },
            Lexed::Error(error) => Err(error),
        }
    }
}

/// The tokens of a text, or the first error in it.
pub open spec fn scan(text: Seq<char>) -> Result<Seq<TokenView>, LexErrorView> {
    scan_from(text, 0)
}

/// `tokens`, then what the rest of a scan gives.
pub open spec fn after(tokens: Seq<TokenView>, rest: Result<Seq<TokenView>, LexErrorView>) -> Result<
    Seq<TokenView>,
    LexErrorView,
> {
    match rest {
        Ok(more) => Ok(tokens + more),
        Err(error) => Err(error),
    }
}

/// `chars[from..to]` with its letters in lower case.
pub fn lower_case(chars: &Vec<char>, from: usize, to: usize) -> (out: Vec<char>)
    requires
        from <= to <= chars.len(),
    ensures
        out@ == lowered(chars@.subrange(from as int, to as int)),
{
    let mut out: Vec<char> = Vec::new();
    let mut i: usize = from;
    while i < to
        invariant
            from <= i <= to <= chars.len(),
            out.len() == i - from,
            forall|k: int| 0 <= k < out.len() ==> out[k] == lower(chars[from + k]),
        decreases to - i,
    {
        let c = chars[i];
        if c >= 'A' && c <= 'Z' {
            out.push((c as u8 + 32) as char);
        } else {
            out.push(c);
        }
        i += 1;
    }
    out
}

/// A scanner over one text. It holds the tokens read so far, the text as
/// characters and its length in bytes, the place where the lexeme that is
/// being read starts, and the place of the next character.
pub struct Tokenizer {
    tokens: Vec<Token>,
    content: Vec<char>,
    bytes: usize,
    start: usize,
    current: usize,
}

impl Tokenizer {
    /// The text that is scanned.
    pub closed spec fn text(&self) -> Seq<char> {
        self.content@
    }

    /// The tokens read so far.
    pub closed spec fn scanned(&self) -> Seq<TokenView> {
        self.tokens.deep_view()
    }

    /// The place of the next character to read.
    pub closed spec fn position(&self) -> int {
        self.current as int
    }

    /// The scanner stands between two tokens, inside the text or at its end.
    pub closed spec fn wf(&self) -> bool {
        self.start == self.current && self.reading()
    }

    /// The scanner is at or after the start of a lexeme. What lies before
    /// that start has been read as blanks and tokens, and so is ASCII.
    spec fn reading(&self) -> bool {
        &&& self.start <= self.current <= self.content.len()
        &&& self.bytes == encode_utf8(self.content@).len()
        &&& forall|i: int| 0 <= i < self.start ==> is_ascii(#[trigger] self.content[i])
    }

    spec fn within(&self) -> bool {
        self.start < self.current && self.reading()
    }

    pub fn new(content: String) -> (tokenizer: Self)
        ensures
            tokenizer.wf(),
            tokenizer.text() == content@,
            tokenizer.scanned() == Seq::<TokenView>::empty(),
            tokenizer.position() == 0,
    {
        let tokenizer = Tokenizer {
            tokens: Vec::new(),
            content: chars_of(content.as_str()),
            bytes: content.as_str().as_bytes().len(),
            start: 0,
            current: 0,
        };
        tokenizer
    }

    /// The tokens read so far and those of the rest of the text, or the
    /// first error in the rest.
    pub fn get_tokens(self) -> (found: Result<Vec<Token>, LexError>)
        requires
            self.wf(),
        ensures
            match after(self.scanned(), scan_from(self.text(), self.position())) {
                Ok(tokens) => found matches Ok(all) && all.deep_view() == tokens,
                Err(error) => found matches Err(refused) && refused@ == error,
            },
    {
        let mut scanner = self;
        while !scanner.is_at_end()
            invariant
                scanner.wf(),
                scanner.text() == self.text(),
                after(scanner.scanned(), scan_from(scanner.text(), scanner.position())) == after(
                    self.scanned(),
                    scan_from(self.text(), self.position()),
                ),
            decreases scanner.content.len() - scanner.current,
        {
            let ghost before = scanner;
            proof {
                lemma_token_end(scanner.text(), scanner.position());
            }
            match scanner.scan_token() {
                Ok(()) => {
                    proof {
                        match lex_at(before.text(), before.position()) {
                            Lexed::Token { token, end } => {
                                let rest = scan_from(before.text(), end);
                                if let Ok(more) = rest {
                                    assert(before.scanned() + (seq![token] + more)
                                        =~= before.scanned().push(token) + more);
                                }
                            },
                            _ => {},
                        }
                    }
                },
                Err(refused) => {
                    return Err(refused);
                },
            }
        }
        Ok(scanner.tokens)
    }

    /// Reads what stands at the scanner's place: skips one blank, or reads
    /// one token. At the end of the text there is nothing to do. An error
    /// leaves the scanner where it was.
    pub fn scan_token(&mut self) -> (done: Result<(), LexError>)
        requires
            old(self).wf(),
        ensures
            final(self).wf(),
            final(self).text() == old(self).text(),
            old(self).position() >= old(self).text().len() ==> done is Ok && final(self).scanned()
                == old(self).scanned() && final(self).position() == old(self).position(),
            old(self).position() < old(self).text().len() ==> match lex_at(
                old(self).text(),
                old(self).position(),
            ) {
                Lexed::Blank => done is Ok && final(self).scanned() == old(self).scanned()
                    && final(self).position() == old(self).position() + 1,
                Lexed::Token { token, end } => done is Ok && final(self).scanned() == old(
                    self,
                ).scanned().push(token) && final(self).position() == end,
                Lexed::Error(error) => done matches Err(refused) && refused@ == error
                    && final(self).scanned() == old(self).scanned() && final(self).position()
                    == old(self).position(),
            },
    {
        if self.is_at_end() {
            return Ok(());
        }
        let c = self.get_current_char();
        if c == '\n' || c == ' ' || c == '\t' {
            self.start = self.current;
            Ok(())
        } else if c == '(' {
            self.add_token(TokenType::OpeningParenthese);
            Ok(())
        } else if c == ')' {
            self.add_token(TokenType::ClosingParenthese);
            Ok(())
        } else if c == '+' {
            self.add_token(TokenType::Plus);
            Ok(())
        } else if c == '-' {
            self.add_token(TokenType::Minus);
            Ok(())
        } else if c == '*' {
            self.add_token(TokenType::Star);
            Ok(())
        } else if c == '/' {
            self.add_token(TokenType::Slash);
            Ok(())
        } else if c == ',' {
            self.add_token(TokenType::Comma);
            Ok(())
        } else if Tokenizer::is_number(&c) {
            self.number()
        } else if Tokenizer::is_alpha(&c) {
            self.string()
        } else {
            Err(self.refuse(LexErrorKind::UnknownCharacter))
        }
    }

    /// Reads the rest of a number whose first digit has been read.
    fn number(&mut self) -> (done: Result<(), LexError>)
        requires
            old(self).within(),
            old(self).current == old(self).start + 1,
            is_digit(old(self).content[old(self).start as int]),
        ensures
            final(self).wf(),
            final(self).content == old(self).content,
            match number_at(old(self).content@, old(self).start as int) {
                Lexed::Token { token, end } => done is Ok && final(self).tokens.deep_view() == old(
                    self,
                ).tokens.deep_view().push(token) && final(self).current == end,
                Lexed::Error(error) => done matches Err(refused) && refused@ == error
                    && final(self).tokens == old(self).tokens && final(self).current == old(
                    self,
                ).start,
                Lexed::Blank => false,
            },
    {
        self.digits();
        if !self.is_at_end() && self.peak() == Some('.') {
            self.current += 1;
            if self.is_at_end() {
                return Err(self.refuse(LexErrorKind::MalformedNumber));
            }
            if !Tokenizer::is_number(&self.get_current_char()) {
                return Err(self.refuse(LexErrorKind::MalformedNumber));
            }
            self.digits();
        }
        let lexeme = string_of(&self.content, self.start, self.current);
        let numeral = lexeme.clone();
        self.add_token_with_literal(TokenType::Number, lexeme, LiteralValue::Float(numeral));
        Ok(())
    }

    /// Reads the rest of a word whose first letter has been read.
    fn string(&mut self) -> (done: Result<(), LexError>)
        requires
            old(self).within(),
            old(self).current == old(self).start + 1,
            is_letter(old(self).content[old(self).start as int]),
        ensures
            final(self).wf(),
            final(self).content == old(self).content,
            match word_at(old(self).content@, old(self).start as int) {
                Lexed::Token { token, end } => done is Ok && final(self).tokens.deep_view() == old(
                    self,
                ).tokens.deep_view().push(token) && final(self).current == end,
                Lexed::Error(error) => done matches Err(refused) && refused@ == error
                    && final(self).tokens == old(self).tokens && final(self).current == old(
                    self,
                ).start,
                Lexed::Blank => false,
            },
    {
        self.letters();
        let mid: usize = self.current;
        self.digits();
        if mid < self.current {
            let column = column_of(&self.content, self.start, mid);
            let row = decimal_of(&self.content, mid, self.current);
            match (column, row) {
                (Ok(column), Some(row)) => {
                    let lexeme = string_of(&self.content, self.start, self.current);
                    self.add_token_with_literal(
                        TokenType::CellRef,
                        lexeme,
                        LiteralValue::CellRef(CellIndex::new(row, column)),
                    );
                    Ok(())
                },
                _ => Err(self.refuse(LexErrorKind::InvalidIdentifier)),
            }
        } else {
            let name = lower_case(&self.content, self.start, self.current);
            if Builtin::named(&name).is_some() {
                self.add_token(TokenType::Function);
                Ok(())
            } else {
                Err(self.refuse(LexErrorKind::InvalidIdentifier))
            }
        }
    }

    /// Reads on to the end of the digits at the scanner's place.
    fn digits(&mut self)
        requires
            old(self).reading(),
            forall|i: int|
                old(self).start <= i < old(self).current ==> is_ascii(
                    #[trigger] old(self).content[i],
                ),
        ensures
            final(self).reading(),
            final(self).current == digits_end(old(self).content@, old(self).current as int),
            old(self).current <= final(self).current,
            final(self).content == old(self).content,
            final(self).tokens == old(self).tokens,
            final(self).start == old(self).start,
            forall|i: int|
                old(self).current <= i < final(self).current ==> is_digit(
                    #[trigger] final(self).content[i],
                ),
            forall|i: int|
                final(self).start <= i < final(self).current ==> is_ascii(
                    #[trigger] final(self).content[i],
                ),
    {
        while !self.is_at_end() && Tokenizer::is_number(&self.content[self.current])
            invariant
                self.reading(),
                old(self).current <= self.current,
                self.content == old(self).content,
                self.tokens == old(self).tokens,
                self.start == old(self).start,
                digits_end(self.content@, self.current as int) == digits_end(
                    old(self).content@,
                    old(self).current as int,
                ),
                forall|i: int|
                    old(self).current <= i < self.current ==> is_digit(#[trigger] self.content[i]),
                forall|i: int|
                    self.start <= i < self.current ==> is_ascii(#[trigger] self.content[i]),
            decreases self.content.len() - self.current,
        {
            self.current += 1;
        }
    }

    /// Reads on to the end of the letters at the scanner's place.
    fn letters(&mut self)
        requires
            old(self).reading(),
            forall|i: int|
                old(self).start <= i < old(self).current ==> is_ascii(
                    #[trigger] old(self).content[i],
                ),
        ensures
            final(self).reading(),
            final(self).current == letters_end(old(self).content@, old(self).current as int),
            old(self).current <= final(self).current,
            final(self).content == old(self).content,
            final(self).tokens == old(self).tokens,
            final(self).start == old(self).start,
            forall|i: int|
                old(self).current <= i < final(self).current ==> is_letter(
                    #[trigger] final(self).content[i],
                ),
            forall|i: int|
                final(self).start <= i < final(self).current ==> is_ascii(
                    #[trigger] final(self).content[i],
                ),
    {
        while !self.is_at_end() && Tokenizer::is_alpha(&self.content[self.current])
            invariant
                self.reading(),
                old(self).current <= self.current,
                self.content == old(self).content,
                self.tokens == old(self).tokens,
                self.start == old(self).start,
                letters_end(self.content@, self.current as int) == letters_end(
                    old(self).content@,
                    old(self).current as int,
                ),
                forall|i: int|
                    old(self).current <= i < self.current ==> is_letter(#[trigger] self.content[i]),
                forall|i: int|
                    self.start <= i < self.current ==> is_ascii(#[trigger] self.content[i]),
            decreases self.content.len() - self.current,
        {
            self.current += 1;
        }
    }

    /// The error for the lexeme read since the last token, of which all
    /// characters but the last are ASCII. The scanner goes back to where
    /// that lexeme starts.
    fn refuse(&mut self, kind: LexErrorKind) -> (error: LexError)
        requires
            old(self).within(),
            forall|i: int|
                old(self).start <= i < old(self).current - 1 ==> is_ascii(
                    #[trigger] old(self).content[i],
                ),
        ensures
            final(self).wf(),
            final(self).content == old(self).content,
            final(self).tokens == old(self).tokens,
            final(self).current == old(self).start,
            Lexed::Error(error@) == refused(
                kind,
                old(self).content@,
                old(self).start as int,
                old(self).current as int,
            ),
    {
        let last = self.content[self.current - 1];
        proof {
            let text = self.content@;
            lemma_offset_ascii(text, self.start as int);
            lemma_offset_ascii(text, self.current - 1);
            lemma_offset_step(text, self.current - 1);
            lemma_offset_bound(text, self.current as int);
        }
        let error = LexError {
            kind,
            lexeme: string_of(&self.content, self.start, self.current),
            start: self.start,
            end: self.current - 1 + width_of(last),
        };
        self.current = self.start;
        error
    }

    fn peak(&self) -> (next: Option<char>)
        ensures
            self.current < self.content.len() ==> next == Some(self.content[self.current as int]),
            self.current >= self.content.len() ==> next is None,
    {
        if self.current < self.content.len() {
            Some(self.content[self.current])
        } else {
            None
        }
    }

    fn get_current_char(&mut self) -> (c: char)
        requires
            old(self).reading(),
            old(self).current < old(self).content.len(),
        ensures
            final(self).reading(),
            c == old(self).content[old(self).current as int],
            final(self).current == old(self).current + 1,
            final(self).content == old(self).content,
            final(self).tokens == old(self).tokens,
            final(self).start == old(self).start,
    {
        let c = self.content[self.current];
        self.current += 1;
        c
    }

    /// Adds the token of the given type for the lexeme read since the last
    /// token, which is ASCII.
    fn add_token(&mut self, t: TokenType)
        requires
            old(self).reading(),
            forall|i: int|
                old(self).start <= i < old(self).current ==> is_ascii(
                    #[trigger] old(self).content[i],
                ),
        ensures
            final(self).wf(),
            final(self).content == old(self).content,
            final(self).current == old(self).current,
            final(self).tokens.deep_view() == old(self).tokens.deep_view().push(
                TokenView {
                    kind: t,
                    lexeme: old(self).content@.subrange(
                        old(self).start as int,
                        old(self).current as int,
                    ),
                    literal: None,
                },
            ),
    {
        let lexeme = string_of(&self.content, self.start, self.current);
        let token = Token::new(t, lexeme, None);
        self.tokens.push(token);
        self.start = self.current;
    }

    fn add_token_with_literal(&mut self, t: TokenType, lexeme: String, literal: LiteralValue)
        requires
            old(self).reading(),
            forall|i: int|
                old(self).start <= i < old(self).current ==> is_ascii(
                    #[trigger] old(self).content[i],
                ),
        ensures
            final(self).wf(),
            final(self).content == old(self).content,
            final(self).current == old(self).current,
            final(self).tokens.deep_view() == old(self).tokens.deep_view().push(
                TokenView { kind: t, lexeme: lexeme@, literal: Some(literal@) },
            ),
    {
        let token = Token::new(t, lexeme, Some(literal));
        self.tokens.push(token);
        self.start = self.current;
    }

    fn is_at_end(&self) -> (at_end: bool)
        ensures
            at_end == (self.current >= self.content.len()),
    {
        self.current >= self.content.len()
    }

    fn is_alpha(c: &char) -> (yes: bool)
        ensures
            yes == is_letter(*c),
    {
        is_letter_char(*c)
    }

    fn is_number(c: &char) -> (yes: bool)
        ensures
            yes == is_digit(*c),
    {
        is_digit_char(*c)
    }
}

} // verus!
