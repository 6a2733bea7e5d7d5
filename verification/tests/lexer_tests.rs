use loxi::lexer::{lex, map_lexeme_to_keyword, Literal, Token, TokenType};

fn literal_number_text(t: &Token) -> &str {
    match &t.literal {
        Literal::Number(s) => s.as_str(),
        _ => panic!("expected a number literal"),
    }
}

fn literal_string_text(t: &Token) -> &str {
    match &t.literal {
        Literal::Str(s) => s.as_str(),
        _ => panic!("expected a string literal"),
    }
}

#[test]
fn lex_identifier_assignment_expression() {
    let tokens = lex("identifier = (2 + 3) * 1").unwrap();
    assert_eq!(tokens.len(), 10);
    assert_eq!(tokens[0].token_type, TokenType::Identifier);
    assert_eq!(tokens[0].lexeme, "identifier");
    assert_eq!(tokens[1].token_type, TokenType::Equal);
    assert_eq!(tokens[2].token_type, TokenType::LeftParen);
    assert_eq!(tokens[3].token_type, TokenType::Number);
    assert_eq!(literal_number_text(&tokens[3]), "2");
    assert_eq!(tokens[4].token_type, TokenType::Plus);
    assert_eq!(tokens[5].token_type, TokenType::Number);
    assert_eq!(tokens[6].token_type, TokenType::RightParen);
    assert_eq!(tokens[7].token_type, TokenType::Asterisk);
    assert_eq!(tokens[8].token_type, TokenType::Number);
    assert_eq!(tokens[9].token_type, TokenType::Eof);
}

#[test]
fn lex_single_number() {
    let tokens = lex("42.0").unwrap();
    assert_eq!(tokens.len(), 2);
    assert_eq!(tokens[0].token_type, TokenType::Number);
    assert_eq!(tokens[0].lexeme, "42.0");
    assert_eq!(literal_number_text(&tokens[0]), "42.0");
    assert_eq!(tokens[0].source_position, (1, 1));
    assert_eq!(tokens[1].token_type, TokenType::Eof);
    assert_eq!(tokens[1].lexeme, "");
    assert_eq!(tokens[1].source_position, (0, 0));
}

#[test]
fn lex_empty_source() {
    let tokens = lex("").unwrap();
    assert_eq!(tokens.len(), 1);
    assert_eq!(tokens[0].token_type, TokenType::Eof);
}

#[test]
fn lex_comment_only() {
    let tokens = lex("// comment only").unwrap();
    assert_eq!(tokens.len(), 1);
    assert_eq!(tokens[0].token_type, TokenType::Eof);
}

#[test]
fn lex_comment_after_token() {
    let tokens = lex("1 // rest is ignored\n2").unwrap();
    assert_eq!(tokens.len(), 3);
    assert_eq!(tokens[0].token_type, TokenType::Number);
    assert_eq!(tokens[0].lexeme, "1");
    assert_eq!(tokens[0].source_position, (1, 1));
    assert_eq!(tokens[1].token_type, TokenType::Number);
    assert_eq!(tokens[1].lexeme, "2");
    assert_eq!(tokens[1].source_position, (2, 1));
    assert_eq!(tokens[2].token_type, TokenType::Eof);
}

#[test]
fn lex_unterminated_string() {
    let err = lex("\"abc").unwrap_err();
    match err {
        loxi::result::Error::SyntaxError { message, source_position } => {
            assert_eq!(message, "String literal missing closing '\"'");
            assert_eq!(source_position, (1, 1));
        }
        _ => panic!("expected a syntax error"),
    }
}

#[test]
fn lex_unterminated_string_mid_line() {
    let err = lex("1 + \"abc").unwrap_err();
    match err {
        loxi::result::Error::SyntaxError { message, source_position } => {
            assert_eq!(message, "String literal missing closing '\"'");
            assert_eq!(source_position, (1, 5));
        }
        _ => panic!("expected a syntax error"),
    }
}

#[test]
fn lex_string_literal() {
    let tokens = lex("\"hi there\"").unwrap();
    assert_eq!(tokens.len(), 2);
    assert_eq!(tokens[0].token_type, TokenType::Str);
    assert_eq!(tokens[0].lexeme, "\"hi there\"");
    assert_eq!(literal_string_text(&tokens[0]), "hi there");
}

#[test]
fn lex_unrecognized_character() {
    let err = lex("1 @ 2").unwrap_err();
    match err {
        loxi::result::Error::SyntaxError { message, source_position } => {
            assert_eq!(message, "Unrecognized character '@'");
            assert_eq!(source_position, (1, 3));
        }
        _ => panic!("expected a syntax error"),
    }
}

#[test]
fn lex_number_with_trailing_dot() {
    let tokens = lex("1.").unwrap();
    assert_eq!(tokens.len(), 3);
    assert_eq!(tokens[0].token_type, TokenType::Number);
    assert_eq!(tokens[0].lexeme, "1");
    assert_eq!(tokens[1].token_type, TokenType::Dot);
    assert_eq!(tokens[2].token_type, TokenType::Eof);
}

#[test]
fn lex_two_character_operators() {
    let tokens = lex("<= >= == != < > = !").unwrap();
    let expected = [
        TokenType::LessThanOrEqual,
        TokenType::GreaterThanOrEqual,
        TokenType::EqualEqual,
        TokenType::BangEqual,
        TokenType::LessThan,
        TokenType::GreaterThan,
        TokenType::Equal,
        TokenType::Bang,
        TokenType::Eof,
    ];
    assert_eq!(tokens.len(), expected.len());
    for (t, e) in tokens.iter().zip(expected.iter()) {
        assert_eq!(t.token_type, *e);
    }
}

#[test]
fn lex_keywords_and_identifiers() {
    let tokens = lex("var x = true").unwrap();
    assert_eq!(tokens.len(), 5);
    assert_eq!(tokens[0].token_type, TokenType::Var);
    assert_eq!(tokens[1].token_type, TokenType::Identifier);
    assert_eq!(tokens[1].lexeme, "x");
    assert_eq!(tokens[2].token_type, TokenType::Equal);
    assert_eq!(tokens[3].token_type, TokenType::True);
    assert_eq!(tokens[4].token_type, TokenType::Eof);
}

#[test]
fn keyword_table() {
    assert_eq!(map_lexeme_to_keyword("and"), TokenType::And);
    assert_eq!(map_lexeme_to_keyword("class"), TokenType::Class);
    assert_eq!(map_lexeme_to_keyword("else"), TokenType::Else);
    assert_eq!(map_lexeme_to_keyword("false"), TokenType::False);
    assert_eq!(map_lexeme_to_keyword("for"), TokenType::For);
    assert_eq!(map_lexeme_to_keyword("fun"), TokenType::Fun);
    assert_eq!(map_lexeme_to_keyword("if"), TokenType::If);
    assert_eq!(map_lexeme_to_keyword("nil"), TokenType::Nil);
    assert_eq!(map_lexeme_to_keyword("or"), TokenType::Or);
    assert_eq!(map_lexeme_to_keyword("print"), TokenType::Print);
    assert_eq!(map_lexeme_to_keyword("return"), TokenType::Return);
    assert_eq!(map_lexeme_to_keyword("super"), TokenType::Super);
    assert_eq!(map_lexeme_to_keyword("this"), TokenType::This);
    assert_eq!(map_lexeme_to_keyword("true"), TokenType::True);
    assert_eq!(map_lexeme_to_keyword("var"), TokenType::Var);
    assert_eq!(map_lexeme_to_keyword("while"), TokenType::While);
    assert_eq!(map_lexeme_to_keyword("truthy"), TokenType::Identifier);
    assert_eq!(map_lexeme_to_keyword(""), TokenType::Identifier);
}

#[test]
fn lex_positions_across_lines() {
    let tokens = lex("1\n+ 2\r\n* 3").unwrap();
    assert_eq!(tokens.len(), 6);
    assert_eq!(tokens[0].source_position, (1, 1));
    assert_eq!(tokens[1].source_position, (2, 1));
    assert_eq!(tokens[1].token_type, TokenType::Plus);
    assert_eq!(tokens[2].source_position, (2, 3));
    assert_eq!(tokens[3].source_position, (3, 1));
    assert_eq!(tokens[3].token_type, TokenType::Asterisk);
    assert_eq!(tokens[4].source_position, (3, 3));
    assert_eq!(tokens[5].token_type, TokenType::Eof);
}

#[test]
fn lex_whitespace_only() {
    let tokens = lex(" \t \n  ").unwrap();
    assert_eq!(tokens.len(), 1);
    assert_eq!(tokens[0].token_type, TokenType::Eof);
}
