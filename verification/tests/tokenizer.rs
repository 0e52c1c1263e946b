use nand2tetris::compiler::tokenizer::xml_writer::SimpleXmlWriter;
use nand2tetris::compiler::tokenizer::{Keyword, LexError, Token, Tokenizer};

#[test]
fn trim_basic_comments() {
    let buf = "// comment";
    let mut t = Tokenizer::new(buf);
    assert!(t.advance().is_none());
}

#[test]
fn trim_closing_comments() {
    let buf = "/* comment */";
    let mut t = Tokenizer::new(buf);

    assert!(t.advance().is_none());
}

#[test]
fn trim_closing_multiline_comments() {
    let buf = "/* comment \n*\n */if";
    let mut t = Tokenizer::new(buf);

    assert!(matches!(t.advance(), Some(Ok(Token::Keyword(Keyword::If)))));
}

#[test]
fn trim_multiline_api_comments() {
    let buf = "/** API comment \n* line\n *    \n*/12";
    let mut t = Tokenizer::new(buf);

    assert!(matches!(t.advance(), Some(Ok(Token::IntConst(12)))));
}

#[test]
fn parse_symbol() {
    let buf = "   , ";
    let mut t = Tokenizer::new(buf);

    assert!(matches!(t.advance(), Some(Ok(Token::Symbol(',')))));
}

#[test]
fn parse_multiple_tokens() {
    let buf = "  [12]";
    let mut t = Tokenizer::new(buf);

    assert!(matches!(t.advance(), Some(Ok(Token::Symbol('[')))));
    assert!(matches!(t.advance(), Some(Ok(Token::IntConst(12)))));
    assert!(matches!(t.advance(), Some(Ok(Token::Symbol(']')))));
}

#[test]
fn parse_multiple_multiline_tokens() {
    let buf = "  [12]\nclass";
    let mut t = Tokenizer::new(buf);

    assert!(matches!(t.advance(), Some(Ok(Token::Symbol('[')))));
    assert!(matches!(t.advance(), Some(Ok(Token::IntConst(12)))));
    assert!(matches!(t.advance(), Some(Ok(Token::Symbol(']')))));
    assert!(matches!(
        t.advance(),
        Some(Ok(Token::Keyword(Keyword::Class)))
    ));
}

#[test]
fn parse_identifier() {
    let buf = "Main";
    let mut t = Tokenizer::new(buf);

    let r = String::from("Main");
    let result = match t.advance() {
        Some(Ok(Token::Identifier(text))) => text == r,
        _ => false,
    };
    assert!(result);
}

#[test]
fn parse_identifier_with_underscore() {
    let buf = "class Main_class";
    let mut t = Tokenizer::new(buf);

    assert!(matches!(
        t.advance(),
        Some(Ok(Token::Keyword(Keyword::Class)))
    ));
    let r = String::from("Main_class");
    let result = match t.advance() {
        Some(Ok(Token::Identifier(text))) => text == r,
        _ => false,
    };
    assert!(result);
}

#[test]
fn peek_token_does_not_consume_input() {
    let buf = "class Main_class";
    let mut t = Tokenizer::new(buf);

    assert!(matches!(
        t.peek_token(),
        Some(Ok(Token::Keyword(Keyword::Class)))
    ));
    assert!(matches!(
        t.peek_token(),
        Some(Ok(Token::Keyword(Keyword::Class)))
    ));
}

fn all_tokens(source: &str) -> Vec<Token> {
    let mut t = Tokenizer::new(source);
    let mut tokens = Vec::new();
    while let Some(token) = t.advance() {
        tokens.push(token.unwrap());
    }
    tokens
}

fn ident(name: &str) -> Token {
    Token::Identifier(String::from(name))
}

#[test]
fn peek_then_advance() {
    let mut t = Tokenizer::new("let x = 5;");
    assert_eq!(t.peek_token(), Some(Ok(Token::Keyword(Keyword::Let))));
    assert_eq!(t.peek_token(), Some(Ok(Token::Keyword(Keyword::Let))));
    assert_eq!(t.advance(), Some(Ok(Token::Keyword(Keyword::Let))));
    assert_eq!(t.peek_token(), Some(Ok(ident("x"))));
    assert_eq!(t.advance(), Some(Ok(ident("x"))));
    assert_eq!(t.advance(), Some(Ok(Token::Symbol('='))));
    assert_eq!(t.peek_token(), Some(Ok(Token::IntConst(5))));
    assert_eq!(t.advance(), Some(Ok(Token::IntConst(5))));
    assert_eq!(t.advance(), Some(Ok(Token::Symbol(';'))));
    assert_eq!(t.peek_token(), None);
    assert_eq!(t.advance(), None);
    assert_eq!(t.advance(), None);
}

#[test]
fn peek_across_lines_and_comments() {
    let mut t = Tokenizer::new("a // one\n\n/* two\n three */ b");
    assert_eq!(t.advance(), Some(Ok(ident("a"))));
    assert_eq!(t.peek_token(), Some(Ok(ident("b"))));
    assert_eq!(t.peek_token(), Some(Ok(ident("b"))));
    assert_eq!(t.advance(), Some(Ok(ident("b"))));
    assert_eq!(t.peek_token(), None);
}

#[test]
fn comment_stripping() {
    let mut t = Tokenizer::new("/** A \n * B \n */class");
    assert_eq!(t.advance(), Some(Ok(Token::Keyword(Keyword::Class))));
    assert_eq!(t.advance(), None);
}

#[test]
fn every_keyword() {
    let source = "class method function constructor int boolean char void var static field \
                  let do if else while return true false null this";
    let expected = vec![
        Keyword::Class,
        Keyword::Method,
        Keyword::Function,
        Keyword::Constructor,
        Keyword::Int,
        Keyword::Boolean,
        Keyword::Char,
        Keyword::Void,
        Keyword::Var,
        Keyword::Static,
        Keyword::Field,
        Keyword::Let,
        Keyword::Do,
        Keyword::If,
        Keyword::Else,
        Keyword::While,
        Keyword::Return,
        Keyword::True,
        Keyword::False,
        Keyword::Null,
        Keyword::This,
    ];
    let tokens = all_tokens(source);
    assert_eq!(tokens.len(), 21);
    for (token, keyword) in tokens.iter().zip(expected) {
        assert_eq!(token, &Token::Keyword(keyword));
        assert_eq!(Keyword::lookup(keyword.as_str()), Some(keyword));
    }
    assert_eq!(Keyword::lookup("classes"), None);
}

#[test]
fn every_symbol() {
    let source = "(){}[].,;+-*/&|<>=~";
    let tokens = all_tokens(source);
    let expected: Vec<Token> = source.chars().map(Token::Symbol).collect();
    assert_eq!(tokens, expected);
}

#[test]
fn words_are_runs_of_letters_and_underscores() {
    assert_eq!(all_tokens("classes"), vec![ident("classes")]);
    assert_eq!(all_tokens("a_b"), vec![ident("a_b")]);
    assert_eq!(all_tokens("x1"), vec![ident("x"), Token::IntConst(1)]);
    assert_eq!(all_tokens("if(x)"), vec![
        Token::Keyword(Keyword::If),
        Token::Symbol('('),
        ident("x"),
        Token::Symbol(')'),
    ]);
    assert_eq!(all_tokens("\u{e9}t\u{e9}"), vec![ident("\u{e9}t\u{e9}")]);
}

#[test]
fn a_word_starts_with_a_letter() {
    let mut t = Tokenizer::new("_x");
    assert_eq!(t.advance(), Some(Err(LexError::UnknownCharacter)));
}

#[test]
fn integers() {
    assert_eq!(all_tokens("0 007 32767"), vec![
        Token::IntConst(0),
        Token::IntConst(7),
        Token::IntConst(32767),
    ]);
    let mut t = Tokenizer::new("32768");
    assert_eq!(t.advance(), Some(Err(LexError::IntegerTooLarge)));
    let mut t = Tokenizer::new("x 99999999999999999999999");
    assert_eq!(t.advance(), Some(Ok(ident("x"))));
    assert_eq!(t.advance(), Some(Err(LexError::IntegerTooLarge)));
    assert_eq!(t.advance(), Some(Err(LexError::IntegerTooLarge)));
}

#[test]
fn strings() {
    assert_eq!(all_tokens("\"hello world\" ;"), vec![
        Token::StringConst(String::from("hello world")),
        Token::Symbol(';'),
    ]);
    assert_eq!(all_tokens("\"\""), vec![Token::StringConst(String::new())]);
    let mut t = Tokenizer::new("\"open\n\"");
    assert_eq!(t.advance(), Some(Err(LexError::UnterminatedString)));
    assert_eq!(t.peek_token(), Some(Err(LexError::UnterminatedString)));
}

#[test]
fn comments_are_stripped_before_strings_are_read() {
    let mut t = Tokenizer::new("\"a // b\"");
    assert_eq!(t.advance(), Some(Err(LexError::UnterminatedString)));
}

#[test]
fn unknown_character() {
    let mut t = Tokenizer::new("x # y");
    assert_eq!(t.advance(), Some(Ok(ident("x"))));
    assert_eq!(t.advance(), Some(Err(LexError::UnknownCharacter)));
    assert_eq!(t.peek_token(), Some(Err(LexError::UnknownCharacter)));
}

#[test]
fn a_comment_parts_tokens() {
    assert_eq!(all_tokens("a/**/b"), vec![ident("a"), ident("b")]);
    assert_eq!(all_tokens("1/* x */2"), vec![Token::IntConst(1), Token::IntConst(2)]);
}

#[test]
fn comments_in_a_row() {
    assert_eq!(all_tokens("/* a */ /* b */ x // c"), vec![ident("x")]);
    assert_eq!(all_tokens("/* a\n b */ // c\n y"), vec![ident("y")]);
    assert_eq!(all_tokens("x /* a\n b */ y /* c\n d */ z"), vec![
        ident("x"),
        ident("y"),
        ident("z"),
    ]);
}

#[test]
fn a_comment_needs_its_own_end() {
    assert_eq!(all_tokens("/*/ x */ y"), vec![ident("y")]);
}

#[test]
fn text_that_ends_in_a_comment() {
    let mut t = Tokenizer::new("x /* never closed\n y z");
    assert_eq!(t.advance(), None);
    let mut t = Tokenizer::new("x\n/* never closed\n y z");
    assert_eq!(t.advance(), Some(Ok(ident("x"))));
    assert_eq!(t.advance(), None);
    assert_eq!(t.advance(), None);
}

#[test]
fn line_comment_hides_the_end_of_a_block_comment() {
    assert_eq!(all_tokens("/* a // b */ x\n y */ z"), vec![ident("z")]);
}

#[test]
fn empty_text() {
    assert_eq!(all_tokens(""), vec![]);
    assert_eq!(all_tokens("\n\n   \n\t\n"), vec![]);
}

#[test]
fn carriage_returns_are_whitespace() {
    assert_eq!(all_tokens("a\r\nb\r\n"), vec![ident("a"), ident("b")]);
}

fn xml(token: Token) -> String {
    let mut out = String::new();
    token.write_xml(&mut out);
    out
}

#[test]
fn xml_escaping() {
    assert_eq!(xml(Token::Symbol('<')), "<symbol> &lt; </symbol>");
    assert_eq!(xml(Token::Symbol('>')), "<symbol> &gt; </symbol>");
    assert_eq!(xml(Token::Symbol('&')), "<symbol> &amp; </symbol>");
    assert_eq!(xml(Token::Symbol('"')), "<symbol> &quot; </symbol>");
    assert_eq!(xml(Token::Symbol('+')), "<symbol> + </symbol>");
}

#[test]
fn xml_of_tokens() {
    assert_eq!(xml(Token::Keyword(Keyword::Class)), "<keyword> class </keyword>");
    assert_eq!(xml(ident("Main")), "<identifier> Main </identifier>");
    assert_eq!(xml(Token::IntConst(0)), "<integerConstant> 0 </integerConstant>");
    assert_eq!(xml(Token::IntConst(32767)), "<integerConstant> 32767 </integerConstant>");
    assert_eq!(
        xml(Token::StringConst(String::from("a < b & c"))),
        "<stringConstant> a &lt; b &amp; c </stringConstant>"
    );
}

#[test]
fn xml_is_appended() {
    let mut out = String::from("x");
    Token::Symbol('.').write_xml(&mut out);
    assert_eq!(out, "x<symbol> . </symbol>");
}
