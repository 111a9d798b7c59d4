use klang::lexer::Lexer;
use klang::token::{BufferPosition, KeywordKind, SymbolKind, Token, TokenKind};

#[test]
fn test_string_literals() {
    let input = " \"test\"
        \"newline\n\"";

    let tests = vec![
        TokenKind::StringLiteral("test".to_owned()),
        TokenKind::Newline,
        TokenKind::StringLiteral("newline\n".to_owned())
    ];

    let mut lexer = Lexer::new(input);

    for test in tests {
        let token = lexer.next();

        assert_eq!(test, token.unwrap().kind);
    }
}

#[test]
fn test_comments() {
    let input = "// no tokens
        let token;";

    let tests = vec![
        TokenKind::Newline,
        TokenKind::Keyword(KeywordKind::Let),
        TokenKind::Identifier("token".to_owned()),
        TokenKind::Symbol(SymbolKind::Semicolon)
    ];

    let mut lexer = Lexer::new(input);

   for test in tests {
       let token = lexer.next();

       assert_eq!(test, token.unwrap().kind);
   }
}

#[test]
fn test_char_literals() {
    let input = r#"'a'
        'c'
        '\n'
        '\\'
        '\f'
        'ew'"#;

    let tests = vec![
        TokenKind::CharLiteral('a'),
        TokenKind::Newline,
        TokenKind::CharLiteral('c'),
        TokenKind::Newline,
        TokenKind::CharLiteral('\n'),
        TokenKind::Newline,
        TokenKind::CharLiteral('\\'),
        TokenKind::Newline,
        TokenKind::CharLiteral('\x0C'),
        TokenKind::Newline,
        TokenKind::Illegal,
    ];

    let mut lexer = Lexer::new(input);

    for test in tests {
        let token = lexer.next();

        assert_eq!(test, token.unwrap().kind);
    }
}

#[test]
fn test_tokens_3() {
    let input = "10 == 10; 10 != 9;";

    let tests = vec![
        TokenKind::IntegerLiteral(10),
        TokenKind::Symbol(SymbolKind::Eq),
        TokenKind::IntegerLiteral(10),
        TokenKind::Symbol(SymbolKind::Semicolon),
        TokenKind::IntegerLiteral(10),
        TokenKind::Symbol(SymbolKind::NotEq),
        TokenKind::IntegerLiteral(9),
        TokenKind::Symbol(SymbolKind::Semicolon),
    ];

    let mut lexer = Lexer::new(input);

    for test in tests {
        let token = lexer.next();

        assert_eq!(test, token.unwrap().kind);
    }
}

#[test]
fn test_tokens_2() {
    let input = "fn main(): void {
            if (5 < 10) {
                return true;
            } else {
                return false;
            }
        }";

    let tests = vec![
        TokenKind::Keyword(KeywordKind::Fn),
        TokenKind::Identifier("main".to_owned()),
        TokenKind::Symbol(SymbolKind::LeftParen),
        TokenKind::Symbol(SymbolKind::RightParen),
        TokenKind::Symbol(SymbolKind::Colon),
        TokenKind::Identifier("void".to_owned()),
        TokenKind::Symbol(SymbolKind::LeftBrace),
        TokenKind::Newline,
        TokenKind::Keyword(KeywordKind::If),
        TokenKind::Symbol(SymbolKind::LeftParen),
        TokenKind::IntegerLiteral(5),
        TokenKind::Symbol(SymbolKind::Lt),
        TokenKind::IntegerLiteral(10),
        TokenKind::Symbol(SymbolKind::RightParen),
        TokenKind::Symbol(SymbolKind::LeftBrace),
        TokenKind::Newline,
        TokenKind::Keyword(KeywordKind::Return),
        TokenKind::Keyword(KeywordKind::True),
        TokenKind::Symbol(SymbolKind::Semicolon),
        TokenKind::Newline,
        TokenKind::Symbol(SymbolKind::RightBrace),
        TokenKind::Keyword(KeywordKind::Else),
        TokenKind::Symbol(SymbolKind::LeftBrace),
        TokenKind::Newline,
        TokenKind::Keyword(KeywordKind::Return),
        TokenKind::Keyword(KeywordKind::False),
        TokenKind::Symbol(SymbolKind::Semicolon),
        TokenKind::Newline,
        TokenKind::Symbol(SymbolKind::RightBrace),
        TokenKind::Newline,
        TokenKind::Symbol(SymbolKind::RightBrace),
    ];

    let mut lexer = Lexer::new(input);

    for test in tests {
        let tok = lexer.next();

        assert_eq!(test, tok.unwrap().kind);
    }
}

#[test]
fn test_tokens_1() {
    let input = "fn main(): void {
                        let five: i32 = 5
                        let ten = 10; let fifteen = five + ten     
                    }
                    !-/*%
                    5 < 10 > 5;";
    let tests = vec![
        TokenKind::Keyword(KeywordKind::Fn),
        TokenKind::Identifier("main".to_owned()),
        TokenKind::Symbol(SymbolKind::LeftParen),
        TokenKind::Symbol(SymbolKind::RightParen),
        TokenKind::Symbol(SymbolKind::Colon),
        TokenKind::Identifier("void".to_owned()),
        TokenKind::Symbol(SymbolKind::LeftBrace),
        TokenKind::Newline,
        TokenKind::Keyword(KeywordKind::Let),
        TokenKind::Identifier("five".to_owned()),
        TokenKind::Symbol(SymbolKind::Colon),
        TokenKind::Identifier("i32".to_owned()),
        TokenKind::Symbol(SymbolKind::Assign),
        TokenKind::IntegerLiteral(5),
        TokenKind::Newline,
        TokenKind::Keyword(KeywordKind::Let),
        TokenKind::Identifier("ten".to_owned()),
        TokenKind::Symbol(SymbolKind::Assign),
        TokenKind::IntegerLiteral(10),
        TokenKind::Symbol(SymbolKind::Semicolon),
        TokenKind::Keyword(KeywordKind::Let),
        TokenKind::Identifier("fifteen".to_owned()),
        TokenKind::Symbol(SymbolKind::Assign),
        TokenKind::Identifier("five".to_owned()),
        TokenKind::Symbol(SymbolKind::Plus),
        TokenKind::Identifier("ten".to_owned()),
        TokenKind::Newline,
        TokenKind::Symbol(SymbolKind::RightBrace),
        TokenKind::Newline,
        TokenKind::Symbol(SymbolKind::Bang),
        TokenKind::Symbol(SymbolKind::Minus),
        TokenKind::Symbol(SymbolKind::Slash),
        TokenKind::Symbol(SymbolKind::Asterisk),
        TokenKind::Symbol(SymbolKind::Mod),
        TokenKind::Newline,
        TokenKind::IntegerLiteral(5),
        TokenKind::Symbol(SymbolKind::Lt),
        TokenKind::IntegerLiteral(10),
        TokenKind::Symbol(SymbolKind::Gt),
        TokenKind::IntegerLiteral(5),
        TokenKind::Symbol(SymbolKind::Semicolon),
    ];

    let mut lexer = Lexer::new(input);

    for test in tests {
        let tok = lexer.next();

        assert_eq!(test, tok.unwrap().kind);
    }
}

#[test]
fn test_next_token() {
    let input = "=+(){},;";

    let tests = vec![
        Token::new(
            TokenKind::Symbol(SymbolKind::Assign),
            BufferPosition::new(1, 1),
        ),
        Token::new(
            TokenKind::Symbol(SymbolKind::Plus),
            BufferPosition::new(1, 2),
        ),
        Token::new(
            TokenKind::Symbol(SymbolKind::LeftParen),
            BufferPosition::new(1, 3),
        ),
        Token::new(
            TokenKind::Symbol(SymbolKind::RightParen),
            BufferPosition::new(1, 4),
        ),
        Token::new(
            TokenKind::Symbol(SymbolKind::LeftBrace),
            BufferPosition::new(1, 5),
        ),
        Token::new(
            TokenKind::Symbol(SymbolKind::RightBrace),
            BufferPosition::new(1, 6),
        ),
        Token::new(
            TokenKind::Symbol(SymbolKind::Comma),
            BufferPosition::new(1, 7),
        ),
        Token::new(
            TokenKind::Symbol(SymbolKind::Semicolon),
            BufferPosition::new(1, 8),
        ),
    ];
    let mut lexer = Lexer::new(input);

    for test in tests {
        let tok = lexer.next();

        assert_eq!(Some(test), tok);
    }
}
