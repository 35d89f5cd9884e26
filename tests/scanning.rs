use lox_scanner::{Scanner, ScannerError, Token, TokenType};

fn scan(source: &str) -> (Vec<Token>, Vec<ScannerError>) {
    let mut scanner = Scanner::new(source);
    let tokens = scanner.scan_tokens();
    let errors = scanner.errors().clone();
    (tokens, errors)
}

fn kinds(tokens: &[Token]) -> Vec<&TokenType> {
    tokens.iter().map(|t| t.token_type()).collect()
}

fn lexeme(token: &Token) -> Option<&str> {
    token.lexeme().as_deref()
}

fn assert_ends_with_single_eof(tokens: &[Token]) {
    let eofs = tokens.iter().filter(|t| *t.token_type() == TokenType::Eof).count();
    assert_eq!(eofs, 1);
    let last = tokens.last().unwrap();
    assert_eq!(*last.token_type(), TokenType::Eof);
    assert_eq!(lexeme(last), None);
}

#[test]
fn empty_source_gives_only_eof() {
    let (tokens, errors) = scan("");
    assert_eq!(tokens.len(), 1);
    assert_eq!(*tokens[0].token_type(), TokenType::Eof);
    assert_eq!(tokens[0].line(), 1);
    assert_eq!(lexeme(&tokens[0]), None);
    assert!(errors.is_empty());
}

#[test]
fn eof_is_last_and_unique() {
    let sources = [
        "",
        "var x = 1;",
        "@#$",
        "\"open",
        "// only a comment",
        "\n\n\n",
        "print \"hi\" + 3.14 >= x;\n// done\n",
    ];
    for source in sources {
        let (tokens, _) = scan(source);
        assert_ends_with_single_eof(&tokens);
    }
}

#[test]
fn single_punctuation() {
    let cases = [
        ('(', TokenType::LeftParen),
        (')', TokenType::RightParen),
        ('{', TokenType::LeftBrace),
        ('}', TokenType::RightBrace),
        (',', TokenType::Comma),
        ('.', TokenType::Dot),
        ('+', TokenType::Plus),
        (';', TokenType::Semicolon),
        ('*', TokenType::Star),
        ('-', TokenType::Minus),
        ('/', TokenType::Slash),
    ];
    for (c, kind) in cases {
        let source = c.to_string();
        let (tokens, errors) = scan(&source);
        assert!(errors.is_empty());
        assert_eq!(tokens.len(), 2);
        assert_eq!(*tokens[0].token_type(), kind);
        assert_eq!(lexeme(&tokens[0]), Some(source.as_str()));
        assert_eq!(tokens[0].line(), 1);
        assert_eq!(*tokens[1].token_type(), TokenType::Eof);
    }
}

#[test]
fn two_character_operators() {
    let cases = [
        ("==", TokenType::EqualEqual),
        ("!=", TokenType::BangEqual),
        ("<=", TokenType::LessEqual),
        (">=", TokenType::GreaterEqual),
        ("=", TokenType::Equal),
        ("!", TokenType::Bang),
        ("<", TokenType::Less),
        (">", TokenType::Greater),
    ];
    for (source, kind) in cases {
        let (tokens, errors) = scan(source);
        assert!(errors.is_empty());
        assert_eq!(tokens.len(), 2);
        assert_eq!(*tokens[0].token_type(), kind);
        assert_eq!(lexeme(&tokens[0]), Some(source));
        assert_eq!(*tokens[1].token_type(), TokenType::Eof);
    }
}

#[test]
fn operators_are_greedy() {
    let (tokens, _) = scan("===");
    assert_eq!(
        kinds(&tokens),
        vec![&TokenType::EqualEqual, &TokenType::Equal, &TokenType::Eof]
    );
    let (tokens, _) = scan("! =");
    assert_eq!(kinds(&tokens), vec![&TokenType::Bang, &TokenType::Equal, &TokenType::Eof]);
}

#[test]
fn line_comment_is_skipped() {
    let (tokens, errors) = scan("// comment\n+");
    assert!(errors.is_empty());
    assert_eq!(tokens.len(), 2);
    assert_eq!(*tokens[0].token_type(), TokenType::Plus);
    assert_eq!(lexeme(&tokens[0]), Some("+"));
    assert_eq!(tokens[0].line(), 2);
    assert_eq!(*tokens[1].token_type(), TokenType::Eof);
    assert_eq!(tokens[1].line(), 2);
}

#[test]
fn comment_at_end_of_source() {
    let (tokens, errors) = scan("+ // trailing");
    assert!(errors.is_empty());
    assert_eq!(kinds(&tokens), vec![&TokenType::Plus, &TokenType::Eof]);
    assert_eq!(tokens[1].line(), 1);
}

#[test]
fn string_spanning_lines() {
    let (tokens, errors) = scan("\"hello\nworld\"");
    assert!(errors.is_empty());
    assert_eq!(tokens.len(), 2);
    assert_eq!(*tokens[0].token_type(), TokenType::String("hello\nworld".to_string()));
    assert_eq!(lexeme(&tokens[0]), Some("\"hello\nworld\""));
    assert_eq!(tokens[0].line(), 1);
    assert_eq!(*tokens[1].token_type(), TokenType::Eof);
    assert_eq!(tokens[1].line(), 2);
}

#[test]
fn string_line_is_where_it_opens() {
    let (tokens, errors) = scan("x\n\"a\nb\nc\" y");
    assert!(errors.is_empty());
    assert_eq!(tokens[1].line(), 2);
    assert_eq!(*tokens[1].token_type(), TokenType::String("a\nb\nc".to_string()));
    assert_eq!(*tokens[2].token_type(), TokenType::Identifier("y".to_string()));
    assert_eq!(tokens[2].line(), 4);
}

#[test]
fn string_escapes_kept_verbatim() {
    let (tokens, errors) = scan("\"a\\nb\"");
    assert!(errors.is_empty());
    assert_eq!(*tokens[0].token_type(), TokenType::String("a\\nb".to_string()));
}

#[test]
fn empty_string_literal() {
    let (tokens, errors) = scan("\"\"");
    assert!(errors.is_empty());
    assert_eq!(*tokens[0].token_type(), TokenType::String(String::new()));
    assert_eq!(lexeme(&tokens[0]), Some("\"\""));
}

fn number_value(token: &Token) -> f64 {
    match token.token_type() {
        TokenType::Number(text) => text.parse::<f64>().unwrap(),
        other => panic!("not a number: {:?}", other),
    }
}

#[test]
fn fractional_number() {
    let (tokens, errors) = scan("123.45");
    assert!(errors.is_empty());
    assert_eq!(tokens.len(), 2);
    assert_eq!(*tokens[0].token_type(), TokenType::Number("123.45".to_string()));
    assert_eq!(number_value(&tokens[0]), 123.45);
    assert_eq!(lexeme(&tokens[0]), Some("123.45"));
}

#[test]
fn trailing_dot_is_not_part_of_number() {
    let (tokens, errors) = scan("123.");
    assert!(errors.is_empty());
    assert_eq!(tokens.len(), 3);
    assert_eq!(*tokens[0].token_type(), TokenType::Number("123".to_string()));
    assert_eq!(number_value(&tokens[0]), 123.0);
    assert_eq!(*tokens[1].token_type(), TokenType::Dot);
    assert_eq!(*tokens[2].token_type(), TokenType::Eof);
}

#[test]
fn leading_dot_is_not_a_number() {
    let (tokens, _) = scan(".5");
    assert_eq!(
        kinds(&tokens),
        vec![&TokenType::Dot, &TokenType::Number("5".to_string()), &TokenType::Eof]
    );
}

#[test]
fn number_then_method_call() {
    let (tokens, _) = scan("12.abs");
    assert_eq!(
        kinds(&tokens),
        vec![
            &TokenType::Number("12".to_string()),
            &TokenType::Dot,
            &TokenType::Identifier("abs".to_string()),
            &TokenType::Eof
        ]
    );
}

#[test]
fn identifier_not_split_on_keyword_prefix() {
    let (tokens, errors) = scan("forest");
    assert!(errors.is_empty());
    assert_eq!(tokens.len(), 2);
    assert_eq!(*tokens[0].token_type(), TokenType::Identifier("forest".to_string()));
    assert_eq!(lexeme(&tokens[0]), Some("forest"));
    let (tokens, _) = scan("for");
    assert_eq!(tokens.len(), 2);
    assert_eq!(*tokens[0].token_type(), TokenType::For);
    assert_eq!(lexeme(&tokens[0]), Some("for"));
}

#[test]
fn every_keyword() {
    let cases = [
        ("and", TokenType::And),
        ("class", TokenType::Class),
        ("else", TokenType::Else),
        ("false", TokenType::False),
        ("fun", TokenType::Fun),
        ("for", TokenType::For),
        ("if", TokenType::If),
        ("nil", TokenType::Nil),
        ("or", TokenType::Or),
        ("print", TokenType::Print),
        ("return", TokenType::Return),
        ("super", TokenType::Super),
        ("this", TokenType::This),
        ("true", TokenType::True),
        ("var", TokenType::Var),
        ("while", TokenType::While),
    ];
    for (word, kind) in cases {
        let (tokens, errors) = scan(word);
        assert!(errors.is_empty());
        assert_eq!(tokens.len(), 2);
        assert_eq!(*tokens[0].token_type(), kind);
        assert_eq!(TokenType::keyword(word), Some(kind));
    }
}

#[test]
fn keywords_are_case_sensitive() {
    let (tokens, _) = scan("And WHILE");
    assert_eq!(
        kinds(&tokens),
        vec![
            &TokenType::Identifier("And".to_string()),
            &TokenType::Identifier("WHILE".to_string()),
            &TokenType::Eof
        ]
    );
    assert_eq!(TokenType::keyword("Print"), None);
    assert_eq!(TokenType::keyword(""), None);
    assert_eq!(TokenType::keyword("fo"), None);
}

#[test]
fn identifiers_with_digits_and_underscore_start() {
    let (tokens, errors) = scan("x1 _y2");
    assert!(errors.is_empty());
    assert_eq!(
        kinds(&tokens),
        vec![
            &TokenType::Identifier("x1".to_string()),
            &TokenType::Identifier("_y2".to_string()),
            &TokenType::Eof
        ]
    );
}

#[test]
fn non_ascii_letters_form_identifiers() {
    let (tokens, errors) = scan("héllo ñ");
    assert!(errors.is_empty());
    assert_eq!(
        kinds(&tokens),
        vec![
            &TokenType::Identifier("héllo".to_string()),
            &TokenType::Identifier("ñ".to_string()),
            &TokenType::Eof
        ]
    );
}

#[test]
fn unrecognized_character_is_reported() {
    let (tokens, errors) = scan("@");
    assert_eq!(errors, vec![ScannerError::UnrecognizedChar('@', 1)]);
    assert_eq!(tokens.len(), 1);
    assert_eq!(*tokens[0].token_type(), TokenType::Eof);
}

#[test]
fn scanning_goes_on_after_unrecognized_character() {
    let (tokens, errors) = scan("1 @\n# 2");
    assert_eq!(
        errors,
        vec![ScannerError::UnrecognizedChar('@', 1), ScannerError::UnrecognizedChar('#', 2)]
    );
    assert_eq!(
        kinds(&tokens),
        vec![
            &TokenType::Number("1".to_string()),
            &TokenType::Number("2".to_string()),
            &TokenType::Eof
        ]
    );
    assert_eq!(tokens[1].line(), 2);
}

#[test]
fn unterminated_string_is_reported() {
    let (tokens, errors) = scan("\"abc");
    assert_eq!(errors, vec![ScannerError::UnterminatedString(1)]);
    assert_eq!(tokens.len(), 1);
    assert_eq!(*tokens[0].token_type(), TokenType::Eof);
}

#[test]
fn unterminated_string_reports_opening_line() {
    let (tokens, errors) = scan("+\n\"abc\ndef");
    assert_eq!(errors, vec![ScannerError::UnterminatedString(2)]);
    assert_eq!(kinds(&tokens), vec![&TokenType::Plus, &TokenType::Eof]);
    assert_eq!(tokens[1].line(), 3);
}

#[test]
fn whitespace_produces_no_tokens() {
    let (tokens, errors) = scan(" \t\r\n ");
    assert!(errors.is_empty());
    assert_eq!(tokens.len(), 1);
    assert_eq!(tokens[0].line(), 2);
}

#[test]
fn a_small_statement() {
    let (tokens, errors) = scan("var answer = (a + 42) / b;");
    assert!(errors.is_empty());
    assert_eq!(
        kinds(&tokens),
        vec![
            &TokenType::Var,
            &TokenType::Identifier("answer".to_string()),
            &TokenType::Equal,
            &TokenType::LeftParen,
            &TokenType::Identifier("a".to_string()),
            &TokenType::Plus,
            &TokenType::Number("42".to_string()),
            &TokenType::RightParen,
            &TokenType::Slash,
            &TokenType::Identifier("b".to_string()),
            &TokenType::Semicolon,
            &TokenType::Eof,
        ]
    );
    let lexemes: Vec<Option<&str>> = tokens.iter().map(lexeme).collect();
    assert_eq!(lexemes[1], Some("answer"));
    assert_eq!(lexemes[6], Some("42"));
}

#[test]
fn token_new_keeps_its_fields() {
    let token = Token::new(TokenType::Identifier("n".to_string()), Some("n".to_string()), 7);
    assert_eq!(*token.token_type(), TokenType::Identifier("n".to_string()));
    assert_eq!(lexeme(&token), Some("n"));
    assert_eq!(token.line(), 7);
}

#[test]
fn second_pass_yields_only_eof() {
    let mut scanner = Scanner::new("a\nb");
    let first = scanner.scan_tokens();
    assert_eq!(first.len(), 3);
    let second = scanner.scan_tokens();
    assert_eq!(second.len(), 1);
    assert_eq!(*second[0].token_type(), TokenType::Eof);
    assert_eq!(second[0].line(), 2);
}
