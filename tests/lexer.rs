use tcalc::lexer::{Lexer, Token};

#[test]
fn test_next_token_random() {
    let input = "+    -:/ 1223abcd";
    let mut lexer = Lexer::new(input);

    assert_eq!(lexer.next_token(), Token::Plus);
    assert_eq!(lexer.next_token(), Token::Minus);
    assert_eq!(lexer.next_token(), Token::Colon);
    assert_eq!(lexer.next_token(), Token::Slash);
    assert_eq!(lexer.next_token(), Token::Number(1223));
    assert_eq!(lexer.next_token(), Token::Ident("abcd".to_string()));
    assert_eq!(lexer.next_token(), Token::Eof);
}

#[test]
fn test_next_token_plausible() {
    let input = "today - 2hours + 1 year";
    let mut lexer = Lexer::new(input);

    assert_eq!(lexer.next_token(), Token::Ident("today".to_string()));
    assert_eq!(lexer.next_token(), Token::Minus);
    assert_eq!(lexer.next_token(), Token::Number(2));
    assert_eq!(lexer.next_token(), Token::Ident("hours".to_string()));
    assert_eq!(lexer.next_token(), Token::Plus);
    assert_eq!(lexer.next_token(), Token::Number(1));
    assert_eq!(lexer.next_token(), Token::Ident("year".to_string()));
    assert_eq!(lexer.next_token(), Token::Eof);
}

#[test]
fn test_next_token_plausible_2() {
    let input = "2am + 3h";
    let mut lexer = Lexer::new(input);

    assert_eq!(lexer.next_token(), Token::Number(2));
    assert_eq!(lexer.next_token(), Token::Ident("am".to_string()));
    assert_eq!(lexer.next_token(), Token::Plus);
    assert_eq!(lexer.next_token(), Token::Number(3));
    assert_eq!(lexer.next_token(), Token::Ident("h".to_string()));
    assert_eq!(lexer.next_token(), Token::Eof);
}

#[test]
fn test_illegal_token() {
    let mut lexer = Lexer::new("@");
    assert_eq!(lexer.next_token(), Token::Illegal);
}

#[test]
fn test_number_overflow() {
    // Larger than i64::MAX (9223372036854775807).
    let input = "99999999999999999999";
    let mut lexer = Lexer::new(input);
    assert_eq!(lexer.next_token(), Token::Illegal);
}

#[test]
fn largest_number_is_kept() {
    let mut lexer = Lexer::new("9223372036854775807 9223372036854775808");
    assert_eq!(lexer.next_token(), Token::Number(i64::MAX));
    assert_eq!(lexer.next_token(), Token::Illegal);
    assert_eq!(lexer.next_token(), Token::Eof);
}

#[test]
fn end_of_input_repeats() {
    let mut lexer = Lexer::new("  ");
    assert_eq!(lexer.next_token(), Token::Eof);
    assert_eq!(lexer.next_token(), Token::Eof);
    assert_eq!(lexer.next_token(), Token::Eof);
}

#[test]
fn tab_and_newline_are_illegal() {
    let mut lexer = Lexer::new("\t\n");
    assert_eq!(lexer.next_token(), Token::Illegal);
    assert_eq!(lexer.next_token(), Token::Illegal);
    assert_eq!(lexer.next_token(), Token::Eof);
}

#[test]
fn identifiers_keep_case() {
    let mut lexer = Lexer::new("Today");
    assert_eq!(lexer.next_token(), Token::Ident("Today".to_string()));
}

#[test]
fn tokens_end_with_eof() {
    let mut lexer = Lexer::new("1 + x");
    let tokens = lexer.tokens();
    assert_eq!(
        tokens,
        vec![Token::Number(1), Token::Plus, Token::Ident("x".to_string()), Token::Eof]
    );
}

#[test]
fn token_text() {
    assert_eq!(Token::Number(12).to_string(), "Number(12)");
    assert_eq!(Token::Ident("ab".to_string()).to_string(), "Ident(ab)");
    assert_eq!(Token::Eof.to_string(), "Eof");
}
