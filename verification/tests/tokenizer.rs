use datalang::frontend::tokenizer::{LexError, Token, TokenKind, Tokenizer};

fn lex(text: &str) -> Result<Vec<Token>, LexError> {
    Tokenizer::new(text.chars().collect()).tokenize()
}

fn identifier(name: &str) -> Token {
    Token::Identifier(name.to_string())
}

fn number(digits: &str) -> Token {
    Token::LiteralNumber(digits.to_string())
}

#[test]
fn lexes_a_marker_declaration() {
    assert_eq!(
        lex("data Unit;"),
        Ok(vec![Token::KeywordData, identifier("Unit"), Token::SemiColon])
    );
}

#[test]
fn empty_text_has_no_tokens() {
    assert_eq!(lex(""), Ok(vec![]));
    assert_eq!(lex(" \t\r\n "), Ok(vec![]));
}

#[test]
fn keywords_are_whole_words() {
    assert_eq!(lex("fn"), Ok(vec![Token::KeywordFn]));
    assert_eq!(lex("data"), Ok(vec![Token::KeywordData]));
    assert_eq!(lex("let"), Ok(vec![Token::KeywordLet]));
    assert_eq!(lex("true"), Ok(vec![Token::LiteralTrue]));
    assert_eq!(lex("false"), Ok(vec![Token::LiteralFalse]));
    assert_eq!(lex("fnx"), Ok(vec![identifier("fnx")]));
    assert_eq!(lex("Data"), Ok(vec![identifier("Data")]));
    assert_eq!(lex("lets"), Ok(vec![identifier("lets")]));
    assert_eq!(lex("_"), Ok(vec![identifier("_")]));
}

#[test]
fn every_punctuation_mark_is_one_token() {
    assert_eq!(
        lex("(){}[]<>.,:;="),
        Ok(vec![
            Token::ParenLeft,
            Token::ParenRight,
            Token::BraceLeft,
            Token::BraceRight,
            Token::BracketLeft,
            Token::BracketRight,
            Token::ArrowLeft,
            Token::ArrowRight,
            Token::Period,
            Token::Comma,
            Token::Colon,
            Token::SemiColon,
            Token::Equals,
        ])
    );
}

#[test]
fn numbers_are_kept_as_text() {
    assert_eq!(lex("007"), Ok(vec![number("007")]));
    assert_eq!(lex("12 34"), Ok(vec![number("12"), number("34")]));
}

#[test]
fn letters_and_digits_do_not_mix_in_one_token() {
    assert_eq!(lex("ab12"), Ok(vec![identifier("ab"), number("12")]));
    assert_eq!(lex("12ab"), Ok(vec![number("12"), identifier("ab")]));
}

#[test]
fn whitespace_between_tokens_does_not_matter() {
    let expected = Ok(vec![Token::KeywordLet, identifier("x")]);
    assert_eq!(lex("let x"), expected);
    assert_eq!(lex("let\tx"), expected);
    assert_eq!(lex("let \r\n\t  x"), expected);
    assert_eq!(lex("  let\n\n\nx  "), expected);
    let pair = Ok(vec![identifier("x"), Token::Colon]);
    assert_eq!(lex("x:"), pair);
    assert_eq!(lex("x :"), pair);
    assert_eq!(lex("x \n :"), pair);
}

#[test]
fn adjacent_words_are_one_identifier() {
    assert_eq!(lex("letx"), Ok(vec![identifier("letx")]));
}

#[test]
fn relexing_the_text_of_a_token_gives_the_token() {
    let source = "fn data let true false Unit snake_case _ 0 1234567890 (){}[]<>.,:;=";
    let tokens = lex(source).unwrap();
    assert_eq!(tokens.len(), 23);
    for token in tokens {
        assert_eq!(lex(&token.text()), Ok(vec![token.duplicate()]));
    }
}

#[test]
fn the_text_of_a_token_is_what_it_is_written_as() {
    assert_eq!(identifier("Unit").text(), "Unit");
    assert_eq!(number("007").text(), "007");
    assert_eq!(Token::KeywordFn.text(), "fn");
    assert_eq!(Token::KeywordData.text(), "data");
    assert_eq!(Token::KeywordLet.text(), "let");
    assert_eq!(Token::LiteralTrue.text(), "true");
    assert_eq!(Token::LiteralFalse.text(), "false");
    assert_eq!(Token::ArrowLeft.text(), "<");
    assert_eq!(Token::Equals.text(), "=");
}

#[test]
fn whitespace_between_two_tokens_gives_the_two_tokens() {
    let tokens = lex("fn data x 12 ( ; =").unwrap();
    for first in &tokens {
        for second in &tokens {
            for gap in [" ", "\t", "\n\r", "   \n\t  "] {
                let source = format!("{}{}{}", first.text(), gap, second.text());
                assert_eq!(lex(&source), Ok(vec![first.duplicate(), second.duplicate()]));
            }
            let joins = first.text().chars().all(|c| c.is_ascii_alphabetic())
                && second.text().chars().all(|c| c.is_ascii_alphabetic())
                || first.text().chars().all(|c| c.is_ascii_digit())
                    && second.text().chars().all(|c| c.is_ascii_digit());
            if !joins {
                let source = format!("{}{}", first.text(), second.text());
                assert_eq!(lex(&source), Ok(vec![first.duplicate(), second.duplicate()]));
            }
        }
    }
}

#[test]
fn rejects_an_unknown_character() {
    assert_eq!(lex("data $"), Err(LexError { character: '$', position: 5 }));
    assert_eq!(lex("+"), Err(LexError { character: '+', position: 0 }));
    assert_eq!(lex("a é"), Err(LexError { character: 'é', position: 2 }));
}

#[test]
fn next_token_reads_one_token_at_a_time() {
    let mut tokenizer = Tokenizer::new("fn  main (".chars().collect());
    assert_eq!(tokenizer.next_token(), Ok(Some(Token::KeywordFn)));
    assert_eq!(tokenizer.next_token(), Ok(Some(identifier("main"))));
    assert_eq!(tokenizer.next_token(), Ok(Some(Token::ParenLeft)));
    assert_eq!(tokenizer.next_token(), Ok(None));
    assert_eq!(tokenizer.next_token(), Ok(None));
}

#[test]
fn next_token_does_not_pass_a_rejected_character() {
    let mut tokenizer = Tokenizer::new("a #".chars().collect());
    assert_eq!(tokenizer.next_token(), Ok(Some(identifier("a"))));
    let error = Err(LexError { character: '#', position: 2 });
    assert_eq!(tokenizer.next_token(), error);
    assert_eq!(tokenizer.next_token(), error);
}

#[test]
fn kind_is_the_tag_of_a_token() {
    assert_eq!(identifier("x").kind(), TokenKind::Identifier);
    assert_eq!(number("1").kind(), TokenKind::LiteralNumber);
    assert_eq!(Token::SemiColon.kind(), TokenKind::SemiColon);
    assert_eq!(identifier("x").duplicate(), identifier("x"));
}
