use monkey::lexer::Lexer;
use monkey::token::Token;
use monkey::token::TokenType;

#[test]
fn test_next_token() {
    let input = "\
=+(){},;".to_string();

    let expected: Vec<(TokenType, String)> = vec![
        (TokenType::Assign, "=".to_string()),
        (TokenType::Plus, "+".to_string()),
        (TokenType::LParen, "(".to_string()),
        (TokenType::RParen, ")".to_string()),
        (TokenType::LBrace, "{".to_string()),
        (TokenType::RBrace, "}".to_string()),
        (TokenType::Comma, ",".to_string()),
        (TokenType::SemiColon, ";".to_string()),
    ];

    let mut lexer = Lexer::new(input);

    expected.iter().for_each(|(tt, l)| {
        assert_eq!(Some(Token::new(*tt, l.clone())), lexer.next_token())
    });
    assert_eq!(None, lexer.next_token())
}

#[test]
fn test_next_token_2() {
    let input = "\
let five = 5;
let ten = 10;
let add = fn(x, y) {
x + y;
};
let result = add(five, ten);
!-/*5;
5 < 10 > 5;

if (5 < 10) {
    return true;
} else {
    return false;
}

10 == 10;
10 != 9;
".to_string();

    let expected: Vec<(TokenType, String)> = vec![
        (TokenType::Let, "let".to_string()),
        (TokenType::Ident, "five".to_string()),
        (TokenType::Assign, "=".to_string()),
        (TokenType::Int, "5".to_string()),
        (TokenType::SemiColon, ";".to_string()),
        (TokenType::Let, "let".to_string()),
        (TokenType::Ident, "ten".to_string()),
        (TokenType::Assign, "=".to_string()),
        (TokenType::Int, "10".to_string()),
        (TokenType::SemiColon, ";".to_string()),
        (TokenType::Let, "let".to_string()),
        (TokenType::Ident, "add".to_string()),
        (TokenType::Assign, "=".to_string()),
        (TokenType::Function, "fn".to_string()),
        (TokenType::LParen, "(".to_string()),
        (TokenType::Ident, "x".to_string()),
        (TokenType::Comma, ",".to_string()),
        (TokenType::Ident, "y".to_string()),
        (TokenType::RParen, ")".to_string()),
        (TokenType::LBrace, "{".to_string()),
        (TokenType::Ident, "x".to_string()),
        (TokenType::Plus, "+".to_string()),
        (TokenType::Ident, "y".to_string()),
        (TokenType::SemiColon, ";".to_string()),
        (TokenType::RBrace, "}".to_string()),
        (TokenType::SemiColon, ";".to_string()),
        (TokenType::Let, "let".to_string()),
        (TokenType::Ident, "result".to_string()),
        (TokenType::Assign, "=".to_string()),
        (TokenType::Ident, "add".to_string()),
        (TokenType::LParen, "(".to_string()),
        (TokenType::Ident, "five".to_string()),
        (TokenType::Comma, ",".to_string()),
        (TokenType::Ident, "ten".to_string()),
        (TokenType::RParen, ")".to_string()),
        (TokenType::SemiColon, ";".to_string()),
        (TokenType::Bang, "!".to_string()),
        (TokenType::Minus, "-".to_string()),
        (TokenType::Slash, "/".to_string()),
        (TokenType::Asterisk, "*".to_string()),
        (TokenType::Int, "5".to_string()),
        (TokenType::SemiColon, ";".to_string()),
        (TokenType::Int, "5".to_string()),
        (TokenType::LT, "<".to_string()),
        (TokenType::Int, "10".to_string()),
        (TokenType::GT, ">".to_string()),
        (TokenType::Int, "5".to_string()),
        (TokenType::SemiColon, ";".to_string()),
        (TokenType::If, "if".to_string()),
        (TokenType::LParen, "(".to_string()),
        (TokenType::Int, "5".to_string()),
        (TokenType::LT, "<".to_string()),
        (TokenType::Int, "10".to_string()),
        (TokenType::RParen, ")".to_string()),
        (TokenType::LBrace, "{".to_string()),
        (TokenType::Return, "return".to_string()),
        (TokenType::True, "true".to_string()),
        (TokenType::SemiColon, ";".to_string()),
        (TokenType::RBrace, "}".to_string()),
        (TokenType::Else, "else".to_string()),
        (TokenType::LBrace, "{".to_string()),
        (TokenType::Return, "return".to_string()),
        (TokenType::False, "false".to_string()),
        (TokenType::SemiColon, ";".to_string()),
        (TokenType::RBrace, "}".to_string()),
        (TokenType::Int, "10".to_string()),
        (TokenType::Eq, "==".to_string()),
        (TokenType::Int, "10".to_string()),
        (TokenType::SemiColon, ";".to_string()),
        (TokenType::Int, "10".to_string()),
        (TokenType::NotEq, "!=".to_string()),
        (TokenType::Int, "9".to_string()),
        (TokenType::SemiColon, ";".to_string()),
    ];

    let mut lexer = Lexer::new(input);

    expected.iter().for_each(|(tt, l)| {
        assert_eq!(Some(Token::new(*tt, l.clone())), lexer.next_token())
    });
    assert_eq!(None, lexer.next_token())
}

#[test]
fn empty_input_yields_no_token() {
    let mut lexer = Lexer::new(String::new());
    assert_eq!(None, lexer.next_token());
    assert_eq!(None, lexer.next_token());
}

#[test]
fn whitespace_only_input_yields_no_token() {
    let mut lexer = Lexer::new("  \t\r\n   \n".to_string());
    assert_eq!(None, lexer.next_token());
}

#[test]
fn illegal_character_becomes_illegal_token() {
    let mut lexer = Lexer::new("@".to_string());
    assert_eq!(Some(Token::new(TokenType::Illegal, "@".to_string())), lexer.next_token());
    assert_eq!(None, lexer.next_token());
}

#[test]
fn lookahead_commits_only_on_second_equals() {
    let mut lexer = Lexer::new("= == ! != =!".to_string());
    assert_eq!(Some(Token::new(TokenType::Assign, "=".to_string())), lexer.next_token());
    assert_eq!(Some(Token::new(TokenType::Eq, "==".to_string())), lexer.next_token());
    assert_eq!(Some(Token::new(TokenType::Bang, "!".to_string())), lexer.next_token());
    assert_eq!(Some(Token::new(TokenType::NotEq, "!=".to_string())), lexer.next_token());
    assert_eq!(Some(Token::new(TokenType::Assign, "=".to_string())), lexer.next_token());
    assert_eq!(Some(Token::new(TokenType::Bang, "!".to_string())), lexer.next_token());
    assert_eq!(None, lexer.next_token());
}

#[test]
fn digit_after_letter_is_absorbed_into_identifier() {
    let mut lexer = Lexer::new("x1 _tmp9z 007".to_string());
    assert_eq!(Some(Token::new(TokenType::Ident, "x1".to_string())), lexer.next_token());
    assert_eq!(Some(Token::new(TokenType::Ident, "_tmp9z".to_string())), lexer.next_token());
    assert_eq!(Some(Token::new(TokenType::Int, "007".to_string())), lexer.next_token());
    assert_eq!(None, lexer.next_token());
}

#[test]
fn maximal_digit_run_is_one_integer_token() {
    let mut lexer = Lexer::new("123456789".to_string());
    assert_eq!(Some(Token::new(TokenType::Int, "123456789".to_string())), lexer.next_token());
    assert_eq!(None, lexer.next_token());
}

#[test]
fn punctuation_only_input_yields_one_token_per_character() {
    let input = "(){},;+-*/<>";
    let expected = [
        TokenType::LParen,
        TokenType::RParen,
        TokenType::LBrace,
        TokenType::RBrace,
        TokenType::Comma,
        TokenType::SemiColon,
        TokenType::Plus,
        TokenType::Minus,
        TokenType::Asterisk,
        TokenType::Slash,
        TokenType::LT,
        TokenType::GT,
    ];
    let mut lexer = Lexer::new(input.to_string());
    for (i, tt) in expected.iter().enumerate() {
        let ch: String = input.chars().skip(i).take(1).collect();
        assert_eq!(Some(Token::new(*tt, ch)), lexer.next_token());
    }
    assert_eq!(None, lexer.next_token());
}

#[test]
fn literals_reproduce_non_whitespace_content() {
    let input = "let x  =\t5 ;\n";
    let mut lexer = Lexer::new(input.to_string());
    let mut rebuilt = String::new();
    while let Some(token) = lexer.next_token() {
        rebuilt.push_str(&token.literal);
    }
    let stripped: String = input.chars().filter(|c| !c.is_whitespace()).collect();
    assert_eq!(rebuilt, stripped);
}

#[test]
fn non_ascii_character_becomes_illegal_token() {
    let mut lexer = Lexer::new("\u{e9}".to_string());
    assert_eq!(Some(Token::new(TokenType::Illegal, "\u{e9}".to_string())), lexer.next_token());
    assert_eq!(None, lexer.next_token());
}

#[test]
fn end_of_input_is_stable_across_calls() {
    let mut lexer = Lexer::new("x".to_string());
    assert_eq!(Some(Token::new(TokenType::Ident, "x".to_string())), lexer.next_token());
    assert_eq!(None, lexer.next_token());
    assert_eq!(None, lexer.next_token());
    assert_eq!(None, lexer.next_token());
}

#[test]
fn keywords_classify_as_keyword_kinds() {
    assert_eq!(TokenType::Function, Token::lookup_indent("fn"));
    assert_eq!(TokenType::Let, Token::lookup_indent("let"));
    assert_eq!(TokenType::True, Token::lookup_indent("true"));
    assert_eq!(TokenType::False, Token::lookup_indent("false"));
    assert_eq!(TokenType::If, Token::lookup_indent("if"));
    assert_eq!(TokenType::Else, Token::lookup_indent("else"));
    assert_eq!(TokenType::Return, Token::lookup_indent("return"));
    assert_eq!(TokenType::Ident, Token::lookup_indent("foobar"));
    assert_eq!(TokenType::Ident, Token::lookup_indent("lets"));
    assert_eq!(TokenType::Ident, Token::lookup_indent("fnord"));
}
