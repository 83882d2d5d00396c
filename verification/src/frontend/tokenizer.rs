//! Lexical analysis: characters in, tokens out.
//!
//! The language of tokens is stated once, as the spec function [`lex`], and the
//! executable [`Tokenizer`] is proved to compute exactly that function.

use vstd::prelude::*;

verus! {

/// One lexical unit of the source language.
#[derive(Debug, Clone, PartialEq, Eq)]
pub enum Token {
    Identifier(String),
    KeywordFn,
    KeywordData,
    KeywordLet,
    LiteralNumber(String),
    LiteralTrue,
    LiteralFalse,
    ParenLeft,
    ParenRight,
    BraceLeft,
    BraceRight,
    BracketLeft,
    BracketRight,
    ArrowLeft,
    ArrowRight,
    Period,
    Comma,
    Colon,
    SemiColon,
    Equals,
}

/// The mathematical value of a [`Token`]: the same tag, with the owned text
/// replaced by the sequence of its characters.
pub enum SpecToken {
    Identifier(Seq<char>),
    KeywordFn,
    KeywordData,
    KeywordLet,
    LiteralNumber(Seq<char>),
    LiteralTrue,
    LiteralFalse,
    ParenLeft,
    ParenRight,
    BraceLeft,
    BraceRight,
    BracketLeft,
    BracketRight,
    ArrowLeft,
    ArrowRight,
    Period,
    Comma,
    Colon,
    SemiColon,
    Equals,
}

impl View for Token {
    type V = SpecToken;

    open spec fn view(&self) -> SpecToken {
        match self {
            Token::Identifier(name) => SpecToken::Identifier(name@),
            Token::KeywordFn => SpecToken::KeywordFn,
            Token::KeywordData => SpecToken::KeywordData,
            Token::KeywordLet => SpecToken::KeywordLet,
            Token::LiteralNumber(digits) => SpecToken::LiteralNumber(digits@),
            Token::LiteralTrue => SpecToken::LiteralTrue,
            Token::LiteralFalse => SpecToken::LiteralFalse,
            Token::ParenLeft => SpecToken::ParenLeft,
            Token::ParenRight => SpecToken::ParenRight,
            Token::BraceLeft => SpecToken::BraceLeft,
            Token::BraceRight => SpecToken::BraceRight,
            Token::BracketLeft => SpecToken::BracketLeft,
            Token::BracketRight => SpecToken::BracketRight,
            Token::ArrowLeft => SpecToken::ArrowLeft,
            Token::ArrowRight => SpecToken::ArrowRight,
            Token::Period => SpecToken::Period,
            Token::Comma => SpecToken::Comma,
            Token::Colon => SpecToken::Colon,
            Token::SemiColon => SpecToken::SemiColon,
            Token::Equals => SpecToken::Equals,
        }
    }
}

/// The tag of a token, without its text.
#[derive(Debug, Clone, Copy, PartialEq, Eq, Structural)]
pub enum TokenKind {
    Identifier,
    KeywordFn,
    KeywordData,
    KeywordLet,
    LiteralNumber,
    LiteralTrue,
    LiteralFalse,
    ParenLeft,
    ParenRight,
    BraceLeft,
    BraceRight,
    BracketLeft,
    BracketRight,
    ArrowLeft,
    ArrowRight,
    Period,
    Comma,
    Colon,
    SemiColon,
    Equals,
}

impl SpecToken {
    pub open spec fn kind(self) -> TokenKind {
        match self {
            SpecToken::Identifier(_) => TokenKind::Identifier,
            SpecToken::KeywordFn => TokenKind::KeywordFn,
            SpecToken::KeywordData => TokenKind::KeywordData,
            SpecToken::KeywordLet => TokenKind::KeywordLet,
            SpecToken::LiteralNumber(_) => TokenKind::LiteralNumber,
            SpecToken::LiteralTrue => TokenKind::LiteralTrue,
            SpecToken::LiteralFalse => TokenKind::LiteralFalse,
            SpecToken::ParenLeft => TokenKind::ParenLeft,
            SpecToken::ParenRight => TokenKind::ParenRight,
            SpecToken::BraceLeft => TokenKind::BraceLeft,
            SpecToken::BraceRight => TokenKind::BraceRight,
            SpecToken::BracketLeft => TokenKind::BracketLeft,
            SpecToken::BracketRight => TokenKind::BracketRight,
            SpecToken::ArrowLeft => TokenKind::ArrowLeft,
            SpecToken::ArrowRight => TokenKind::ArrowRight,
            SpecToken::Period => TokenKind::Period,
            SpecToken::Comma => TokenKind::Comma,
            SpecToken::Colon => TokenKind::Colon,
            SpecToken::SemiColon => TokenKind::SemiColon,
            SpecToken::Equals => TokenKind::Equals,
        }
    }

    /// The text that an identifier or a number carries; empty for the rest.
    pub open spec fn payload(self) -> Seq<char> {
        match self {
            SpecToken::Identifier(name) => name,
            SpecToken::LiteralNumber(digits) => digits,
            _ => Seq::empty(),
        }
    }
}

impl Token {
    /// The tag of this token.
    pub fn kind(&self) -> (kind: TokenKind)
        ensures
            kind == self@.kind(),
    {
        match self {
            Token::Identifier(_) => TokenKind::Identifier,
            Token::KeywordFn => TokenKind::KeywordFn,
            Token::KeywordData => TokenKind::KeywordData,
            Token::KeywordLet => TokenKind::KeywordLet,
            Token::LiteralNumber(_) => TokenKind::LiteralNumber,
            Token::LiteralTrue => TokenKind::LiteralTrue,
            Token::LiteralFalse => TokenKind::LiteralFalse,
            Token::ParenLeft => TokenKind::ParenLeft,
            Token::ParenRight => TokenKind::ParenRight,
            Token::BraceLeft => TokenKind::BraceLeft,
            Token::BraceRight => TokenKind::BraceRight,
            Token::BracketLeft => TokenKind::BracketLeft,
            Token::BracketRight => TokenKind::BracketRight,
            Token::ArrowLeft => TokenKind::ArrowLeft,
            Token::ArrowRight => TokenKind::ArrowRight,
            Token::Period => TokenKind::Period,
            Token::Comma => TokenKind::Comma,
            Token::Colon => TokenKind::Colon,
            Token::SemiColon => TokenKind::SemiColon,
            Token::Equals => TokenKind::Equals,
        }
    }

    /// A copy of this token, with the same text.
    pub fn duplicate(&self) -> (copy: Token)
        ensures
            copy@ == self@,
    {
        match self {
            Token::Identifier(name) => Token::Identifier(name.clone()),
            Token::KeywordFn => Token::KeywordFn,
            Token::KeywordData => Token::KeywordData,
            Token::KeywordLet => Token::KeywordLet,
            Token::LiteralNumber(digits) => Token::LiteralNumber(digits.clone()),
            Token::LiteralTrue => Token::LiteralTrue,
            Token::LiteralFalse => Token::LiteralFalse,
            Token::ParenLeft => Token::ParenLeft,
            Token::ParenRight => Token::ParenRight,
            Token::BraceLeft => Token::BraceLeft,
            Token::BraceRight => Token::BraceRight,
            Token::BracketLeft => Token::BracketLeft,
            Token::BracketRight => Token::BracketRight,
            Token::ArrowLeft => Token::ArrowLeft,
            Token::ArrowRight => Token::ArrowRight,
            Token::Period => Token::Period,
            Token::Comma => Token::Comma,
            Token::Colon => Token::Colon,
            Token::SemiColon => Token::SemiColon,
            Token::Equals => Token::Equals,
        }
    }
}

/// The values of a sequence of tokens, in order.
pub open spec fn token_values(tokens: Seq<Token>) -> Seq<SpecToken> {
    tokens.map_values(|token: Token| token@)
}

/// A character that no token rule accepts, and where it stands in the source.
#[derive(Debug, Clone, Copy, PartialEq, Eq)]
pub struct LexError {
    pub character: char,
    pub position: usize,
}

/// The three kinds of character that form runs in the source text.
pub enum CharClass {
    Whitespace,
    Letter,
    Digit,
}

impl CharClass {
    pub open spec fn contains(self, c: char) -> bool {
        match self {
            CharClass::Whitespace => c == ' ' || c == '\n' || c == '\r' || c == '\t',
            CharClass::Letter => ('a' <= c && c <= 'z') || ('A' <= c && c <= 'Z') || c == '_',
            CharClass::Digit => '0' <= c && c <= '9',
        }
    }
}

/// Every character of `text` belongs to `class`.
pub open spec fn all_in_class(text: Seq<char>, class: CharClass) -> bool {
    forall|i: int| 0 <= i < text.len() ==> class.contains(#[trigger] text[i])
}

/// The end of the longest run of `class` characters that starts at `from`:
/// the first position at or after `from` that holds no such character.
pub open spec fn run_end(source: Seq<char>, from: int, class: CharClass) -> int
    decreases source.len() - from,
{
    if 0 <= from < source.len() && class.contains(source[from]) {
        run_end(source, from + 1, class)
    } else {
        from
    }
}

/// The token that a run of letters stands for: a keyword or a boolean literal
/// where the text is exactly one, an identifier otherwise.
pub open spec fn word_token(text: Seq<char>) -> SpecToken {
    if text == seq!['f', 'n'] {
        SpecToken::KeywordFn
    } else if text == seq!['d', 'a', 't', 'a'] {
        SpecToken::KeywordData
    } else if text == seq!['l', 'e', 't'] {
        SpecToken::KeywordLet
    } else if text == seq!['t', 'r', 'u', 'e'] {
        SpecToken::LiteralTrue
    } else if text == seq!['f', 'a', 'l', 's', 'e'] {
        SpecToken::LiteralFalse
    } else {
        SpecToken::Identifier(text)
    }
}

/// The token of a punctuation mark, if `c` is one.
pub open spec fn punctuation(c: char) -> Option<SpecToken> {
    if c == '(' {
        Some(SpecToken::ParenLeft)
    } else if c == ')' {
        Some(SpecToken::ParenRight)
    } else if c == '{' {
        Some(SpecToken::BraceLeft)
    } else if c == '}' {
        Some(SpecToken::BraceRight)
    } else if c == '[' {
        Some(SpecToken::BracketLeft)
    } else if c == ']' {
        Some(SpecToken::BracketRight)
    } else if c == '<' {
        Some(SpecToken::ArrowLeft)
    } else if c == '>' {
        Some(SpecToken::ArrowRight)
    } else if c == '.' {
        Some(SpecToken::Period)
    } else if c == ',' {
        Some(SpecToken::Comma)
    } else if c == ':' {
        Some(SpecToken::Colon)
    } else if c == ';' {
        Some(SpecToken::SemiColon)
    } else if c == '=' {
        Some(SpecToken::Equals)
    } else {
        None
    }
}

/// What one step of the tokenizer finds.
pub enum Scan {
    /// Only whitespace was left.
    End,
    /// A token, and the position just behind it.
    Token { token: SpecToken, next: int },
    /// A character that starts no token, and its position.
    Invalid { character: char, position: int },
}

/// One step of lexing from position `from`: whitespace is passed over, then
/// the longest run of letters or of digits is one token, a punctuation mark
/// is one token, and any other character is rejected.
pub open spec fn scan(source: Seq<char>, from: int) -> Scan {
    let start = run_end(source, from, CharClass::Whitespace);
    if start < 0 || start >= source.len() {
        Scan::End
    } else if CharClass::Letter.contains(source[start]) {
        let end = run_end(source, start, CharClass::Letter);
        Scan::Token { token: word_token(source.subrange(start, end)), next: end }
    } else if CharClass::Digit.contains(source[start]) {
        let end = run_end(source, start, CharClass::Digit);
        Scan::Token { token: SpecToken::LiteralNumber(source.subrange(start, end)), next: end }
    } else {
        match punctuation(source[start]) {
            Some(token) => Scan::Token { token, next: start + 1 },
            None => Scan::Invalid { character: source[start], position: start },
        }
    }
}

/// A run ends at or after its start and inside the source, every character of
/// it belongs to the class, and the character at its end does not.
pub proof fn lemma_run_end(source: Seq<char>, from: int, class: CharClass)
    requires
        0 <= from <= source.len(),
    ensures
        from <= run_end(source, from, class) <= source.len(),
        forall|i: int|
            from <= i < run_end(source, from, class) ==> class.contains(#[trigger] source[i]),
        run_end(source, from, class) < source.len() ==> !class.contains(
            source[run_end(source, from, class)],
        ),
    decreases source.len() - from,
{
    if from < source.len() && class.contains(source[from]) {
        lemma_run_end(source, from + 1, class);
    }
}

/// A step that finds a token moves forward and stays inside the source.
pub proof fn lemma_scan_advances(source: Seq<char>, from: int)
    requires
        0 <= from <= source.len(),
    ensures
        scan(source, from) matches Scan::Token { next, .. } ==> from < next <= source.len(),
        scan(source, from) matches Scan::Invalid { position, .. } ==> from <= position
            < source.len(),
{
    lemma_run_end(source, from, CharClass::Whitespace);
    let start = run_end(source, from, CharClass::Whitespace);
    if start < source.len() {
        lemma_run_end(source, start + 1, CharClass::Letter);
        lemma_run_end(source, start + 1, CharClass::Digit);
    }
}

/// The tokens of `source` from position `from` to its end, or the first
/// character that no rule accepts.
pub open spec fn lex_from(source: Seq<char>, from: int) -> Result<Seq<SpecToken>, LexError>
    decreases source.len() - from,
{
    if 0 <= from <= source.len() {
        match scan(source, from) {
            Scan::End => Ok(Seq::empty()),
            Scan::Invalid { character, position } => Err(
                LexError { character, position: position as usize },
            ),
            Scan::Token { token, next } => {
                proof {
                    lemma_scan_advances(source, from);
                }
                match lex_from(source, next) {
                    Ok(rest) => Ok(seq![token] + rest),
                    Err(error) => Err(error),
                }
            },
        }
    } else {
        Ok(Seq::empty())
    }
}

/// The tokens of a whole source text.
pub open spec fn lex(source: Seq<char>) -> Result<Seq<SpecToken>, LexError> {
    lex_from(source, 0)
}

impl SpecToken {
    /// The text that a token is written as.
    pub open spec fn text(self) -> Seq<char> {
        match self {
            SpecToken::Identifier(name) => name,
            SpecToken::KeywordFn => seq!['f', 'n'],
            SpecToken::KeywordData => seq!['d', 'a', 't', 'a'],
            SpecToken::KeywordLet => seq!['l', 'e', 't'],
            SpecToken::LiteralNumber(digits) => digits,
            SpecToken::LiteralTrue => seq!['t', 'r', 'u', 'e'],
            SpecToken::LiteralFalse => seq!['f', 'a', 'l', 's', 'e'],
            SpecToken::ParenLeft => seq!['('],
            SpecToken::ParenRight => seq![')'],
            SpecToken::BraceLeft => seq!['{'],
            SpecToken::BraceRight => seq!['}'],
            SpecToken::BracketLeft => seq!['['],
            SpecToken::BracketRight => seq![']'],
            SpecToken::ArrowLeft => seq!['<'],
            SpecToken::ArrowRight => seq!['>'],
            SpecToken::Period => seq!['.'],
            SpecToken::Comma => seq![','],
            SpecToken::Colon => seq![':'],
            SpecToken::SemiColon => seq![';'],
            SpecToken::Equals => seq!['='],
        }
    }

    /// The class of the characters of a token that is a run: letters for a
    /// word, digits for a number. A punctuation mark is no run.
    pub open spec fn run_class(self) -> Option<CharClass> {
        match self {
            SpecToken::Identifier(_)
            | SpecToken::KeywordFn
            | SpecToken::KeywordData
            | SpecToken::KeywordLet
            | SpecToken::LiteralTrue
            | SpecToken::LiteralFalse => Some(CharClass::Letter),
            SpecToken::LiteralNumber(_) => Some(CharClass::Digit),
            _ => None,
        }
    }

    /// Whether the token is one that lexing can give: an identifier is a run
    /// of letters that is no keyword and no boolean literal, and a number is
    /// a run of digits; neither is empty.
    pub open spec fn well_formed(self) -> bool {
        match self {
            SpecToken::Identifier(name) => name.len() > 0 && all_in_class(name, CharClass::Letter)
                && word_token(name) == self,
            SpecToken::LiteralNumber(digits) => digits.len() > 0 && all_in_class(
                digits,
                CharClass::Digit,
            ),
            _ => true,
        }
    }

    /// Whether the texts of `self` and of `next`, written with nothing
    /// between them, run into one token: two words, or two numbers.
    pub open spec fn joins(self, next: SpecToken) -> bool {
        self.run_class() is Some && self.run_class() == next.run_class()
    }
}

/// The text of a single character.
fn single(c: char) -> (text: String)
    ensures
        text@ == seq![c],
{
    let mut text = String::new();
    text.push(c);
    assert(text@ =~= seq![c]);
    text
}

impl Token {
    /// The text that the token is written as.
    pub fn text(&self) -> (text: String)
        ensures
            text@ == self@.text(),
    {
        proof {
            reveal_strlit("fn");
            reveal_strlit("data");
            reveal_strlit("let");
            reveal_strlit("true");
            reveal_strlit("false");
        }
        assert("fn"@ =~= seq!['f', 'n']);
        assert("data"@ =~= seq!['d', 'a', 't', 'a']);
        assert("let"@ =~= seq!['l', 'e', 't']);
        assert("true"@ =~= seq!['t', 'r', 'u', 'e']);
        assert("false"@ =~= seq!['f', 'a', 'l', 's', 'e']);
        match self {
            Token::Identifier(name) => name.clone(),
            Token::KeywordFn => String::from_str("fn"),
            Token::KeywordData => String::from_str("data"),
            Token::KeywordLet => String::from_str("let"),
            Token::LiteralNumber(digits) => digits.clone(),
            Token::LiteralTrue => String::from_str("true"),
            Token::LiteralFalse => String::from_str("false"),
            Token::ParenLeft => single('('),
            Token::ParenRight => single(')'),
            Token::BraceLeft => single('{'),
            Token::BraceRight => single('}'),
            Token::BracketLeft => single('['),
            Token::BracketRight => single(']'),
            Token::ArrowLeft => single('<'),
            Token::ArrowRight => single('>'),
            Token::Period => single('.'),
            Token::Comma => single(','),
            Token::Colon => single(':'),
            Token::SemiColon => single(';'),
            Token::Equals => single('='),
        }
    }
}

/// A stretch of `class` characters that ends at the end of the source, or
/// before a character of another kind, is a whole run.
pub proof fn lemma_run_end_is(source: Seq<char>, from: int, end: int, class: CharClass)
    requires
        0 <= from <= end <= source.len(),
        forall|i: int| from <= i < end ==> class.contains(#[trigger] source[i]),
        end < source.len() ==> !class.contains(source[end]),
    ensures
        run_end(source, from, class) == end,
    decreases end - from,
{
    if from < end {
        lemma_run_end_is(source, from + 1, end, class);
    }
}

/// The text of a well-formed token is not empty and does not start with
/// whitespace; the text of a word is made of letters, that of a number of
/// digits.
pub proof fn lemma_text_of_token(token: SpecToken)
    requires
        token.well_formed(),
    ensures
        token.text().len() > 0,
        !CharClass::Whitespace.contains(token.text()[0]),
        token.run_class() matches Some(class) ==> all_in_class(token.text(), class),
        token.run_class() is None ==> token.text().len() == 1 && punctuation(token.text()[0])
            == Some(token) && !CharClass::Letter.contains(token.text()[0])
            && !CharClass::Digit.contains(token.text()[0]),
        token.run_class() == Some(CharClass::Letter) ==> word_token(token.text()) == token,
{
    let text = token.text();
    match token.run_class() {
        Some(class) => {
            assert forall|i: int| 0 <= i < text.len() implies class.contains(
                #[trigger] text[i],
            ) by {
                if i == 0 {
                } else if i == 1 {
                } else if i == 2 {
                } else if i == 3 {
                } else if i == 4 {
                }
            }
            assert(class.contains(text[0]));
        },
        None => {},
    }
    assert(seq!['d', 'a', 't', 'a'][0] == 'd');
    assert(seq!['l', 'e', 't'][0] == 'l');
    assert(seq!['t', 'r', 'u', 'e'][0] == 't');
    assert(seq!['f', 'a', 'l', 's', 'e'][1] == 'a');
    assert(seq!['f', 'n'][1] == 'n');
}

/// Where the text of a token stands in a source behind whitespace, and the
/// character behind the text does not prolong it, a step of lexing from
/// before the whitespace finds that token and ends behind its text.
pub proof fn lemma_scan_finds(
    source: Seq<char>,
    from: int,
    start: int,
    end: int,
    token: SpecToken,
)
    requires
        token.well_formed(),
        0 <= from <= start < end <= source.len(),
        all_in_class(source.subrange(from, start), CharClass::Whitespace),
        source.subrange(start, end) == token.text(),
        end < source.len() ==> match token.run_class() {
            Some(class) => !class.contains(source[end]),
            None => true,
        },
    ensures
        scan(source, from) == (Scan::Token { token, next: end }),
{
    let text = token.text();
    lemma_text_of_token(token);
    assert forall|i: int| start <= i < end implies source[i] == text[i - start] by {
        assert(source.subrange(start, end)[i - start] == source[i]);
    }
    assert forall|i: int| from <= i < start implies CharClass::Whitespace.contains(
        #[trigger] source[i],
    ) by {
        assert(source.subrange(from, start)[i - from] == source[i]);
    }
    assert(source[start] == text[0]);
    assert(!CharClass::Whitespace.contains(text[0]));
    lemma_run_end_is(source, from, start, CharClass::Whitespace);
    match token.run_class() {
        Some(class) => {
            assert forall|i: int| start <= i < end implies class.contains(
                #[trigger] source[i],
            ) by {
                assert(source[i] == text[i - start]);
            }
            lemma_run_end_is(source, start, end, class);
        },
        None => {
            assert(text.len() == 1);
        },
    }
}

/// Where nothing but whitespace is left, lexing has no more tokens.
pub proof fn lemma_lex_whitespace(source: Seq<char>, from: int)
    requires
        0 <= from <= source.len(),
        all_in_class(source.subrange(from, source.len() as int), CharClass::Whitespace),
    ensures
        lex_from(source, from) == Ok::<Seq<SpecToken>, LexError>(Seq::empty()),
{
    assert forall|i: int| from <= i < source.len() implies CharClass::Whitespace.contains(
        #[trigger] source[i],
    ) by {
        assert(source.subrange(from, source.len() as int)[i - from] == source[i]);
    }
    lemma_run_end_is(source, from, source.len() as int, CharClass::Whitespace);
}

/// Every token that lexing gives is well formed.
pub proof fn lemma_lexed_tokens_are_well_formed(source: Seq<char>, from: int)
    requires
        0 <= from <= source.len(),
    ensures
        lex_from(source, from) matches Ok(tokens) ==> forall|i: int|
            0 <= i < tokens.len() ==> (#[trigger] tokens[i]).well_formed(),
    decreases source.len() - from,
{
    lemma_scan_advances(source, from);
    if let Scan::Token { token, next } = scan(source, from) {
        lemma_lexed_tokens_are_well_formed(source, next);
        let start = run_end(source, from, CharClass::Whitespace);
        lemma_run_end(source, from, CharClass::Whitespace);
        lemma_run_end(source, start, CharClass::Letter);
        lemma_run_end(source, start, CharClass::Digit);
        let text = source.subrange(start, next);
        if CharClass::Letter.contains(source[start]) {
            assert forall|i: int| 0 <= i < text.len() implies CharClass::Letter.contains(
                #[trigger] text[i],
            ) by {
                assert(text[i] == source[start + i]);
            }
            assert(token.well_formed());
        } else if CharClass::Digit.contains(source[start]) {
            assert forall|i: int| 0 <= i < text.len() implies CharClass::Digit.contains(
                #[trigger] text[i],
            ) by {
                assert(text[i] == source[start + i]);
            }
            assert(token.well_formed());
        } else {
            assert(token.well_formed());
        }
        if let Ok(rest) = lex_from(source, next) {
            let tokens = seq![token] + rest;
            assert forall|i: int| 0 <= i < tokens.len() implies (
            #[trigger] tokens[i]).well_formed() by {
                if i > 0 {
                    assert(tokens[i] == rest[i - 1]);
                }
            }
        }
    }
}

/// Lexing the text of a token gives that token and nothing else.
pub proof fn lemma_lex_text(token: SpecToken)
    requires
        token.well_formed(),
    ensures
        lex(token.text()) == Ok::<Seq<SpecToken>, LexError>(seq![token]),
{
    let source = token.text();
    let end = source.len() as int;
    assert(source.subrange(0, 0) =~= Seq::<char>::empty());
    assert(source.subrange(0, end) =~= source);
    lemma_scan_finds(source, 0, 0, end, token);
    assert(source.subrange(end, end) =~= Seq::<char>::empty());
    lemma_lex_whitespace(source, end);
    assert(seq![token] + Seq::<SpecToken>::empty() =~= seq![token]);
}

/// Lexing two tokens that are written one after the other with whitespace
/// between them gives the two tokens, whatever the whitespace is. With no
/// whitespace at all the same holds unless the two texts join into one
/// word or one number.
pub proof fn lemma_lex_separated(first: SpecToken, gap: Seq<char>, second: SpecToken)
    requires
        first.well_formed(),
        second.well_formed(),
        all_in_class(gap, CharClass::Whitespace),
        gap.len() > 0 || !first.joins(second),
    ensures
        lex(first.text() + gap + second.text()) == Ok::<Seq<SpecToken>, LexError>(
            seq![first, second],
        ),
{
    let source = first.text() + gap + second.text();
    let a = first.text().len() as int;
    let b = a + gap.len();
    let end = source.len() as int;
    assert(source.subrange(0, 0) =~= Seq::<char>::empty());
    assert(source.subrange(0, a) =~= first.text());
    assert(source.subrange(a, b) =~= gap);
    assert(source.subrange(b, end) =~= second.text());
    assert(source.subrange(end, end) =~= Seq::<char>::empty());
    assert(source[b] == second.text()[0]);
    if gap.len() > 0 {
        assert(source[a] == gap[0]);
        assert(CharClass::Whitespace.contains(gap[0]));
    }
    lemma_scan_finds(source, 0, 0, a, first);
    lemma_scan_finds(source, a, b, end, second);
    lemma_lex_whitespace(source, end);
    assert(lex_from(source, end) == Ok::<Seq<SpecToken>, LexError>(Seq::empty()));
    assert(seq![second] + Seq::<SpecToken>::empty() =~= seq![second]);
    assert(lex_from(source, a) == Ok::<Seq<SpecToken>, LexError>(seq![second]));
    assert(seq![first] + seq![second] =~= seq![first, second]);
}

/// A tokenizer over a source text, with the position it has reached.
pub struct Tokenizer {
    chars: Vec<char>,
    position: usize,
}

impl Tokenizer {
    #[verifier::type_invariant]
    spec fn in_bounds(self) -> bool {
        self.position <= self.chars.len()
    }

    /// The source text that is being read.
    pub closed spec fn source(&self) -> Seq<char> {
        self.chars@
    }

    /// The number of characters consumed so far.
    pub closed spec fn offset(&self) -> int {
        self.position as int
    }

    /// A tokenizer at the start of `chars`.
    pub fn new(chars: Vec<char>) -> (tokenizer: Self)
        ensures
            tokenizer.source() == chars@,
            tokenizer.offset() == 0,
    {
        Tokenizer { chars, position: 0 }
    }

    /// Eats a character, disposing of it.
    fn eat(&mut self)
        requires
            old(self).offset() < old(self).source().len(),
        ensures
            final(self).source() == old(self).source(),
            final(self).offset() == old(self).offset() + 1,
    {
        let _ = self.peeked_next();
    }

    /// Eats a character, and returns the provided value.
    fn eat_return<T>(&mut self, value: T) -> (returned: T)
        requires
            old(self).offset() < old(self).source().len(),
        ensures
            final(self).source() == old(self).source(),
            final(self).offset() == old(self).offset() + 1,
            returned == value,
    {
        self.eat();
        value
    }

    /// Returns the next character, if any, and moves past it.
    fn next(&mut self) -> (character: Option<char>)
        ensures
            final(self).source() == old(self).source(),
            0 <= old(self).offset() <= old(self).source().len(),
            match character {
                Some(c) => old(self).offset() < old(self).source().len()
                    && c == old(self).source()[old(self).offset()]
                    && final(self).offset() == old(self).offset() + 1,
                None => old(self).offset() == old(self).source().len() && final(self).offset()
                    == old(self).offset(),
            },
    {
        proof {
            use_type_invariant(&*self);
        }
        if self.position < self.chars.len() {
            let c = self.chars[self.position];
            self.position = self.position + 1;
            Some(c)
        } else {
            None
        }
    }

    /// Returns the next character where one is known to be there.
    fn peeked_next(&mut self) -> (c: char)
        requires
            old(self).offset() < old(self).source().len(),
        ensures
            final(self).source() == old(self).source(),
            final(self).offset() == old(self).offset() + 1,
            c == old(self).source()[old(self).offset()],
    {
        match self.next() {
            Some(next) => next,
            None => ' ',
        }
    }

    /// Peeks the next character, if any.
    fn peek(&self) -> (character: Option<char>)
        ensures
            0 <= self.offset() <= self.source().len(),
            character == if self.offset() < self.source().len() {
                Some(self.source()[self.offset()])
            } else {
                None
            },
    {
        proof {
            use_type_invariant(self);
        }
        if self.position < self.chars.len() {
            Some(self.chars[self.position])
        } else {
            None
        }
    }

    /// Parses and discards all whitespace, and returns the first character
    /// behind it without consuming it.
    fn parse_whitespace(&mut self) -> (character: Option<char>)
        ensures
            final(self).source() == old(self).source(),
            final(self).offset() == run_end(
                old(self).source(),
                old(self).offset(),
                CharClass::Whitespace,
            ),
            0 <= old(self).offset() <= final(self).offset() <= old(self).source().len(),
            character == if final(self).offset() < old(self).source().len() {
                Some(old(self).source()[final(self).offset()])
            } else {
                None
            },
    {
        proof {
            use_type_invariant(&*self);
        }
        loop
            invariant
                self.source() == old(self).source(),
                0 <= old(self).offset() <= self.offset() <= self.source().len(),
                run_end(self.source(), self.offset(), CharClass::Whitespace) == run_end(
                    old(self).source(),
                    old(self).offset(),
                    CharClass::Whitespace,
                ),
            ensures
                self.source() == old(self).source(),
                0 <= old(self).offset() <= self.offset() <= self.source().len(),
                self.offset() == run_end(
                    old(self).source(),
                    old(self).offset(),
                    CharClass::Whitespace,
                ),
            decreases self.source().len() - self.offset(),
        {
            match self.peek() {
                Some(c) => {
                    if c == ' ' || c == '\n' || c == '\r' || c == '\t' {
                        self.eat();
                    } else {
                        break ;
                    }
                },
                None => {
                    break ;
                },
            }
        }
        self.peek()
    }

    /// Reads the longest run of `class` characters and hands it out as text.
    fn parse_run(&mut self, class: CharClass) -> (text: String)
        ensures
            final(self).source() == old(self).source(),
            final(self).offset() == run_end(old(self).source(), old(self).offset(), class),
            0 <= old(self).offset() <= final(self).offset() <= old(self).source().len(),
            text@ == old(self).source().subrange(old(self).offset(), final(self).offset()),
    {
        let mut text = String::new();
        let ghost start = self.offset();
        proof {
            use_type_invariant(&*self);
        }
        loop
            invariant
                self.source() == old(self).source(),
                start == old(self).offset(),
                0 <= start <= self.offset() <= self.source().len(),
                run_end(self.source(), self.offset(), class) == run_end(
                    self.source(),
                    start,
                    class,
                ),
                text@ == self.source().subrange(start, self.offset()),
            ensures
                self.source() == old(self).source(),
                0 <= start <= self.offset() <= self.source().len(),
                self.offset() == run_end(self.source(), start, class),
                text@ == self.source().subrange(start, self.offset()),
            decreases self.source().len() - self.offset(),
        {
            match self.peek() {
                Some(c) => {
                    if in_class(c, &class) {
                        let c = self.peeked_next();
                        text.push(c);
                        assert(text@ == self.source().subrange(start, self.offset()));
                    } else {
                        break ;
                    }
                },
                None => {
                    break ;
                },
            }
        }
        text
    }

    /// Reads a run of letters: a keyword, a boolean literal or an identifier.
    fn parse_identifier(&mut self) -> (token: Token)
        ensures
            final(self).source() == old(self).source(),
            final(self).offset() == run_end(
                old(self).source(),
                old(self).offset(),
                CharClass::Letter,
            ),
            token@ == word_token(
                old(self).source().subrange(old(self).offset(), final(self).offset()),
            ),
    {
        let name = self.parse_run(CharClass::Letter);
        word(name)
    }

    /// Reads a run of digits, kept as text.
    fn parse_number(&mut self) -> (token: Token)
        ensures
            final(self).source() == old(self).source(),
            final(self).offset() == run_end(
                old(self).source(),
                old(self).offset(),
                CharClass::Digit,
            ),
            token@ == SpecToken::LiteralNumber(
                old(self).source().subrange(old(self).offset(), final(self).offset()),
            ),
    {
        let number = self.parse_run(CharClass::Digit);
        Token::LiteralNumber(number)
    }

    /// Reads the next token: `Ok(None)` where only whitespace is left, and
    /// the rejected character where no token starts. A rejected character is
    /// not consumed.
    pub fn next_token(&mut self) -> (found: Result<Option<Token>, LexError>)
        ensures
            final(self).source() == old(self).source(),
            0 <= old(self).offset() <= final(self).offset() <= old(self).source().len(),
            match scan(old(self).source(), old(self).offset()) {
                Scan::End => found == Ok::<Option<Token>, LexError>(None) && final(self).offset()
                    == old(self).source().len(),
                Scan::Token { token, next } => found matches Ok(Some(read)) && read@ == token
                    && final(self).offset() == next,
                Scan::Invalid { character, position } => found == Err::<Option<Token>, LexError>(
                    LexError { character, position: position as usize },
                ) && final(self).offset() == position,
            },
    {
        proof {
            use_type_invariant(&*self);
            lemma_scan_advances(self.source(), self.offset());
        }
        let c = match self.parse_whitespace() {
            Some(c) => c,
            None => {
                return Ok(None);
            },
        };
        if in_class(c, &CharClass::Letter) {
            Ok(Some(self.parse_identifier()))
        } else if in_class(c, &CharClass::Digit) {
            Ok(Some(self.parse_number()))
        } else {
            match punctuation_token(c) {
                Some(token) => Ok(Some(self.eat_return(token))),
                None => {
                    proof {
                        use_type_invariant(&*self);
                    }
                    Err(LexError { character: c, position: self.position })
                },
            }
        }
    }

    /// Reads every token that is left, or stops at the first character that
    /// no rule accepts.
    pub fn tokenize(&mut self) -> (tokens: Result<Vec<Token>, LexError>)
        ensures
            final(self).source() == old(self).source(),
            match lex_from(old(self).source(), old(self).offset()) {
                Ok(expected) => tokens matches Ok(read) && token_values(read@) == expected
                    && final(self).offset() == old(self).source().len(),
                Err(error) => tokens == Err::<Vec<Token>, LexError>(error) && final(self).offset()
                    == error.position,
            },
    {
        let mut tokens: Vec<Token> = Vec::new();
        let ghost start = self.offset();
        proof {
            use_type_invariant(&*self);
        }
        loop
            invariant
                self.source() == old(self).source(),
                start == old(self).offset(),
                0 <= start <= self.offset() <= self.source().len(),
                lex_from(self.source(), start) == match lex_from(self.source(), self.offset()) {
                    Ok(rest) => Ok::<Seq<SpecToken>, LexError>(token_values(tokens@) + rest),
                    Err(error) => Err(error),
                },
            decreases self.source().len() - self.offset(),
        {
            let ghost before = self.offset();
            proof {
                lemma_scan_advances(self.source(), before);
            }
            match self.next_token() {
                Ok(Some(token)) => {
                    proof {
                        let rest = lex_from(self.source(), self.offset());
                        if let Ok(rest) = rest {
                            assert(token_values(tokens@.push(token)) + rest =~= token_values(
                                tokens@,
                            ) + (seq![token@] + rest));
                        }
                    }
                    tokens.push(token);
                },
                Ok(None) => {
                    assert(token_values(tokens@) + Seq::<SpecToken>::empty() =~= token_values(
                        tokens@,
                    ));
                    return Ok(tokens);
                },
                Err(error) => {
                    return Err(error);
                },
            }
        }
    }
}

/// Whether `c` belongs to `class`.
fn in_class(c: char, class: &CharClass) -> (belongs: bool)
    ensures
        belongs == class.contains(c),
{
    match class {
        CharClass::Whitespace => c == ' ' || c == '\n' || c == '\r' || c == '\t',
        CharClass::Letter => ('a' <= c && c <= 'z') || ('A' <= c && c <= 'Z') || c == '_',
        CharClass::Digit => '0' <= c && c <= '9',
    }
}

/// The token of a run of letters.
fn word(name: String) -> (token: Token)
    ensures
        token@ == word_token(name@),
{
    proof {
        reveal_strlit("fn");
        reveal_strlit("data");
        reveal_strlit("let");
        reveal_strlit("true");
        reveal_strlit("false");
    }
    assert("fn"@ =~= seq!['f', 'n']);
    assert("data"@ =~= seq!['d', 'a', 't', 'a']);
    assert("let"@ =~= seq!['l', 'e', 't']);
    assert("true"@ =~= seq!['t', 'r', 'u', 'e']);
    assert("false"@ =~= seq!['f', 'a', 'l', 's', 'e']);
    if name == String::from_str("fn") {
        Token::KeywordFn
    } else if name == String::from_str("data") {
        Token::KeywordData
    } else if name == String::from_str("let") {
        Token::KeywordLet
    } else if name == String::from_str("true") {
        Token::LiteralTrue
    } else if name == String::from_str("false") {
        Token::LiteralFalse
    } else {
        Token::Identifier(name)
    }
}

/// The token of a punctuation mark, if `c` is one.
fn punctuation_token(c: char) -> (token: Option<Token>)
    ensures
        match token {
            Some(token) => punctuation(c) == Some(token@),
            None => punctuation(c) is None,
        },
{
    if c == '(' {
        Some(Token::ParenLeft)
    } else if c == ')' {
        Some(Token::ParenRight)
    } else if c == '{' {
        Some(Token::BraceLeft)
    } else if c == '}' {
        Some(Token::BraceRight)
    } else if c == '[' {
        Some(Token::BracketLeft)
    } else if c == ']' {
        Some(Token::BracketRight)
    } else if c == '<' {
        Some(Token::ArrowLeft)
    } else if c == '>' {
        Some(Token::ArrowRight)
    } else if c == '.' {
        Some(Token::Period)
    } else if c == ',' {
        Some(Token::Comma)
    } else if c == ':' {
        Some(Token::Colon)
    } else if c == ';' {
        Some(Token::SemiColon)
    } else if c == '=' {
        Some(Token::Equals)
    } else {
        None
    }
}

} // verus!
