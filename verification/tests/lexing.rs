use colloid_lexer::lexer::{Lexer, LexerError, TokenResult};
use colloid_lexer::token::{Token, TokenType};

#[test]
fn parse_some_parenthesis() {
    let mut lexer = Lexer::new(String::from("   (\t\n )\n"));
    let tokens = lexer.lex();
    assert_eq!(tokens.len(), 5);
    assert_eq!(
        tokens[0].as_ref().unwrap().clone(),
        Token {
            token_type: TokenType::LeftParenthesis,
            lexeme: String::from("("),
            line: 1,
            column: 4,
        }
    );
    assert_eq!(
        tokens[1].as_ref().unwrap().clone(),
        Token {
            token_type: TokenType::EndOfLine,
            lexeme: String::from("\n"),
            line: 1,
            column: 6,
        }
    );
    assert_eq!(
        tokens[2].as_ref().unwrap().clone(),
        Token {
            token_type: TokenType::RightParenthesis,
            lexeme: String::from(")"),
            line: 2,
            column: 2,
        }
    );
    assert_eq!(
        tokens[3].as_ref().unwrap().clone(),
        Token {
            token_type: TokenType::EndOfLine,
            lexeme: String::from("\n"),
            line: 2,
            column: 3,
        }
    );
    assert_eq!(
        tokens[4].as_ref().unwrap().clone(),
        Token {
            token_type: TokenType::EndOfFile,
            lexeme: String::from(""),
            line: 3,
            column: 0,
        }
    );
}

#[test]
fn empty_input_gives_single_eof() {
    let mut lexer = Lexer::new(String::new());
    let tokens = lexer.lex();
    assert_eq!(tokens.len(), 1);
    assert_eq!(
        tokens[0].as_ref().unwrap().clone(),
        Token {
            token_type: TokenType::EndOfFile,
            lexeme: String::new(),
            line: 1,
            column: 0,
        }
    );
}

#[test]
fn paren_newline_paren() {
    let mut lexer = Lexer::new(String::from("(\n)"));
    let tokens = lexer.lex();
    assert_eq!(tokens.len(), 4);
    let expected = [
        (TokenType::LeftParenthesis, "(", 1, 1),
        (TokenType::EndOfLine, "\n", 1, 2),
        (TokenType::RightParenthesis, ")", 2, 1),
        (TokenType::EndOfFile, "", 2, 1),
    ];
    for (result, (kind, lexeme, line, column)) in tokens.iter().zip(expected) {
        let token = result.as_ref().unwrap();
        assert_eq!(token.token_type, kind);
        assert_eq!(token.lexeme, lexeme);
        assert_eq!(token.line, line);
        assert_eq!(token.column, column);
    }
}

#[test]
fn unexpected_character_is_isolated() {
    let mut lexer = Lexer::new(String::from("(@)"));
    let tokens = lexer.lex();
    assert_eq!(tokens.len(), 4);
    assert_eq!(
        tokens[0].as_ref().unwrap().token_type,
        TokenType::LeftParenthesis
    );
    match &tokens[1] {
        Err(LexerError::UnexpectedInput(token)) => {
            assert_eq!(token.token_type, TokenType::Error);
            assert_eq!(token.lexeme, "@");
            assert_eq!(token.line, 1);
            assert_eq!(token.column, 2);
        }
        Ok(token) => panic!("expected an error, got {:?}", token),
    }
    assert_eq!(
        tokens[2].as_ref().unwrap().token_type,
        TokenType::RightParenthesis
    );
    assert_eq!(tokens[3].as_ref().unwrap().token_type, TokenType::EndOfFile);
    assert_eq!(tokens.iter().filter(|r| r.is_err()).count(), 1);
}

#[test]
fn leading_blanks_shift_column() {
    let mut lexer = Lexer::new(String::from("   ("));
    let tokens = lexer.lex();
    assert_eq!(tokens.len(), 2);
    let token = tokens[0].as_ref().unwrap();
    assert_eq!(token.token_type, TokenType::LeftParenthesis);
    assert_eq!(token.lexeme, "(");
    assert_eq!(token.line, 1);
    assert_eq!(token.column, 4);
    assert_eq!(tokens[1].as_ref().unwrap().token_type, TokenType::EndOfFile);
}

#[test]
fn only_blanks_give_single_eof() {
    let mut lexer = Lexer::new(String::from("  \t "));
    let tokens = lexer.lex();
    assert_eq!(tokens.len(), 1);
    let token = tokens[0].as_ref().unwrap();
    assert_eq!(token.token_type, TokenType::EndOfFile);
    assert_eq!(token.lexeme, "");
    assert_eq!(token.line, 1);
    assert_eq!(token.column, 4);
}

fn token_of(result: &TokenResult) -> &Token {
    match result {
        Ok(token) => token,
        Err(LexerError::UnexpectedInput(token)) => token,
    }
}

#[test]
fn every_scan_ends_in_one_eof() {
    for source in ["", "(()", "((\n))", "a b c", "(@)\n\t)", "   ", "((("] {
        let mut lexer = Lexer::new(String::from(source));
        let tokens = lexer.lex();
        assert!(!tokens.is_empty());
        let eof_count = tokens
            .iter()
            .filter(|r| matches!(r, Ok(t) if t.token_type == TokenType::EndOfFile))
            .count();
        assert_eq!(eof_count, 1);
        let last = tokens.last().unwrap().as_ref().unwrap();
        assert_eq!(last.token_type, TokenType::EndOfFile);
    }
}

#[test]
fn lexemes_and_blanks_reconstruct_source() {
    for source in ["( \t( x\n ) )", "  (é)\u{a0}(", "(\n\n)@@", "\t"] {
        let mut lexer = Lexer::new(String::from(source));
        let tokens = lexer.lex();
        let concatenated: String = tokens.iter().map(|r| token_of(r).lexeme.as_str()).collect();
        let without_blanks: String = source
            .chars()
            .filter(|c| !(c.is_whitespace() && *c != '\n'))
            .collect();
        assert_eq!(concatenated, without_blanks);
    }
}

#[test]
fn line_counts_and_columns_follow_newlines() {
    let mut lexer = Lexer::new(String::from("(\n)\n"));
    let tokens = lexer.lex();
    assert_eq!(tokens.len(), 5);
    let lines: Vec<u32> = tokens.iter().map(|r| token_of(r).line).collect();
    assert_eq!(lines, vec![1, 1, 2, 2, 3]);
    // The column resets to 0 after each end-of-line token: the tokens that
    // open lines 2 and 3 sit at columns counted afresh.
    assert_eq!(token_of(&tokens[2]).column, 1);
    assert_eq!(token_of(&tokens[4]).column, 0);
}

#[test]
fn error_lexemes_are_single_characters() {
    let mut lexer = Lexer::new(String::from("(é@\u{1F600})"));
    let tokens = lexer.lex();
    let mut errors = 0;
    for result in &tokens {
        if let Err(LexerError::UnexpectedInput(token)) = result {
            assert_eq!(token.lexeme.chars().count(), 1);
            errors += 1;
        }
    }
    assert_eq!(errors, 3);
}

#[test]
fn two_fresh_scanners_agree() {
    let source = "  ((\n @x )\t\n)";
    let mut first = Lexer::new(String::from(source));
    let mut second = Lexer::new(String::from(source));
    let left = first.lex();
    let right = second.lex();
    assert_eq!(left.len(), right.len());
    for (a, b) in left.iter().zip(right.iter()) {
        match (a, b) {
            (Ok(x), Ok(y)) => assert_eq!(x, y),
            (
                Err(LexerError::UnexpectedInput(x)),
                Err(LexerError::UnexpectedInput(y)),
            ) => assert_eq!(x, y),
            _ => panic!("the two scans disagree on success and failure"),
        }
    }
}

#[test]
fn error_tokens_are_not_regular() {
    let token = Token {
        token_type: TokenType::Error,
        lexeme: String::from("@"),
        line: 1,
        column: 1,
    };
    assert!(token.is_error());
    assert!(!token.is_regular());

    let token = Token {
        token_type: TokenType::LeftParenthesis,
        lexeme: String::from("("),
        line: 1,
        column: 1,
    };
    assert!(!token.is_error());
    assert!(token.is_regular());
}
