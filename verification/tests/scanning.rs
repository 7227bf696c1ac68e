use rusty_locks::driver::RustyLocks;
use rusty_locks::scanner::Scanner;
use rusty_locks::token::{LiteralValue, Token, TokenType};

fn scan(source: &str) -> (Vec<Token>, RustyLocks) {
    let mut rl = RustyLocks::new();
    let scanner = Scanner::new(source.to_string());
    let tokens = scanner.scan_tokens(&mut rl);
    (tokens, rl)
}

fn kinds(tokens: &[Token]) -> Vec<TokenType> {
    tokens.iter().map(|t| t.token_type).collect()
}

#[test]
fn empty_source_yields_single_eof() {
    let (tokens, rl) = scan("");
    assert_eq!(tokens.len(), 1);
    assert_eq!(tokens[0].token_type, TokenType::EOF);
    assert_eq!(tokens[0].lexeme, "");
    assert_eq!(tokens[0].literal, LiteralValue::Null);
    assert_eq!(tokens[0].line, 1);
    assert!(!rl.had_error());
}

#[test]
fn last_token_is_always_eof_with_empty_lexeme() {
    for source in ["", "1+1", "// only a comment", "\"open", "@#$", "var x = 10;"] {
        let (tokens, _) = scan(source);
        let last = tokens.last().unwrap();
        assert_eq!(last.token_type, TokenType::EOF);
        assert_eq!(last.lexeme, "");
        let eofs = tokens
            .iter()
            .filter(|t| t.token_type == TokenType::EOF)
            .count();
        assert_eq!(eofs, 1);
    }
}

#[test]
fn one_plus_one() {
    let (tokens, rl) = scan("1+1");
    assert_eq!(
        kinds(&tokens),
        vec![TokenType::Number, TokenType::Plus, TokenType::Number, TokenType::EOF]
    );
    assert_eq!(tokens[0].lexeme, "1");
    assert_eq!(tokens[0].literal, LiteralValue::NumberValue("1".to_string()));
    assert_eq!(tokens[1].lexeme, "+");
    assert_eq!(tokens[1].literal, LiteralValue::Null);
    assert_eq!(tokens[2].literal, LiteralValue::NumberValue("1".to_string()));
    assert!(tokens.iter().all(|t| t.line == 1));
    assert!(!rl.had_error());
}

#[test]
fn comment_contributes_no_token_but_advances_line() {
    let (tokens, rl) = scan("// a comment\n42");
    assert_eq!(kinds(&tokens), vec![TokenType::Number, TokenType::EOF]);
    assert_eq!(tokens[0].lexeme, "42");
    assert_eq!(tokens[0].literal, LiteralValue::NumberValue("42".to_string()));
    assert_eq!(tokens[0].line, 2);
    assert_eq!(tokens[1].line, 2);
    assert!(!rl.had_error());
}

#[test]
fn comment_ending_at_end_of_input() {
    let (tokens, rl) = scan("// a comment");
    assert_eq!(kinds(&tokens), vec![TokenType::EOF]);
    assert_eq!(tokens[0].line, 1);
    assert!(!rl.had_error());
}

#[test]
fn bang_equal_is_one_token() {
    let (tokens, _) = scan("!=");
    assert_eq!(kinds(&tokens), vec![TokenType::BangEqual, TokenType::EOF]);
    assert_eq!(tokens[0].lexeme, "!=");
}

#[test]
fn bang_alone_is_bang() {
    let (tokens, _) = scan("!");
    assert_eq!(kinds(&tokens), vec![TokenType::Bang, TokenType::EOF]);
    assert_eq!(tokens[0].lexeme, "!");
}

#[test]
fn two_character_operators() {
    let (tokens, _) = scan("== <= >= = < >");
    assert_eq!(
        kinds(&tokens),
        vec![
            TokenType::EqualEqual,
            TokenType::LessEqual,
            TokenType::GreaterEqual,
            TokenType::Equal,
            TokenType::Less,
            TokenType::Greater,
            TokenType::EOF
        ]
    );
}

#[test]
fn single_character_punctuation() {
    let (tokens, _) = scan("(){},.-+;*/");
    assert_eq!(
        kinds(&tokens),
        vec![
            TokenType::LeftParen,
            TokenType::RightParen,
            TokenType::LeftBrace,
            TokenType::RightBrace,
            TokenType::Comma,
            TokenType::Dot,
            TokenType::Minus,
            TokenType::Plus,
            TokenType::Semicolon,
            TokenType::Star,
            TokenType::Slash,
            TokenType::EOF
        ]
    );
}

#[test]
fn unterminated_string_reports_once_and_yields_only_eof() {
    let (tokens, rl) = scan("\"abc");
    assert_eq!(kinds(&tokens), vec![TokenType::EOF]);
    assert!(rl.had_error());
    let reports = rl.reports();
    assert_eq!(reports.len(), 1);
    assert_eq!(reports[0].message, "Unterminated string");
    assert_eq!(reports[0].location, "");
    assert_eq!(reports[0].line, 1);
}

#[test]
fn terminated_string_token() {
    let (tokens, rl) = scan("\"hello\"");
    assert_eq!(kinds(&tokens), vec![TokenType::Str, TokenType::EOF]);
    assert_eq!(tokens[0].lexeme, "\"hello\"");
    assert_eq!(tokens[0].literal, LiteralValue::StringValue("hello".to_string()));
    assert!(!rl.had_error());
}

#[test]
fn multi_line_string_advances_line_counter() {
    let (tokens, rl) = scan("\"a\nb\"\nx");
    assert_eq!(kinds(&tokens), vec![TokenType::Str, TokenType::Identifier, TokenType::EOF]);
    assert_eq!(tokens[0].literal, LiteralValue::StringValue("a\nb".to_string()));
    assert_eq!(tokens[0].line, 2);
    assert_eq!(tokens[1].lexeme, "x");
    assert_eq!(tokens[1].line, 3);
    assert_eq!(tokens[2].line, 3);
    assert!(!rl.had_error());
}

#[test]
fn keywords_are_case_sensitive_exact_matches() {
    let (tokens, rl) = scan("and android");
    assert_eq!(kinds(&tokens), vec![TokenType::And, TokenType::Identifier, TokenType::EOF]);
    assert_eq!(tokens[0].lexeme, "and");
    assert_eq!(tokens[1].lexeme, "android");
    assert!(!rl.had_error());
}

#[test]
fn all_reserved_words() {
    let source =
        "and class else false for fun if nil or print return super this true var while";
    let (tokens, _) = scan(source);
    assert_eq!(
        kinds(&tokens),
        vec![
            TokenType::And,
            TokenType::Class,
            TokenType::Else,
            TokenType::False,
            TokenType::For,
            TokenType::Fun,
            TokenType::If,
            TokenType::Nil,
            TokenType::Or,
            TokenType::Print,
            TokenType::Return,
            TokenType::Super,
            TokenType::This,
            TokenType::True,
            TokenType::Var,
            TokenType::While,
            TokenType::EOF
        ]
    );
}

#[test]
fn uppercase_spelling_is_an_identifier() {
    let (tokens, _) = scan("And AND");
    assert_eq!(
        kinds(&tokens),
        vec![TokenType::Identifier, TokenType::Identifier, TokenType::EOF]
    );
}

#[test]
fn trailing_dot_is_not_consumed() {
    let (tokens, rl) = scan("123.");
    assert_eq!(kinds(&tokens), vec![TokenType::Number, TokenType::Dot, TokenType::EOF]);
    assert_eq!(tokens[0].lexeme, "123");
    assert_eq!(tokens[0].literal, LiteralValue::NumberValue("123".to_string()));
    assert_eq!(tokens[1].lexeme, ".");
    assert!(!rl.had_error());
}

#[test]
fn decimal_number_is_one_token() {
    let (tokens, _) = scan("3.14");
    assert_eq!(kinds(&tokens), vec![TokenType::Number, TokenType::EOF]);
    assert_eq!(tokens[0].lexeme, "3.14");
    assert_eq!(tokens[0].literal, LiteralValue::NumberValue("3.14".to_string()));
}

#[test]
fn identifier_with_digits_and_underscores() {
    let (tokens, rl) = scan("foo_bar2");
    assert_eq!(kinds(&tokens), vec![TokenType::Identifier, TokenType::EOF]);
    assert_eq!(tokens[0].lexeme, "foo_bar2");
    assert!(!rl.had_error());
}

#[test]
fn leading_underscore_matches_no_rule() {
    let (tokens, rl) = scan("_x");
    assert_eq!(kinds(&tokens), vec![TokenType::Identifier, TokenType::EOF]);
    assert_eq!(tokens[0].lexeme, "x");
    assert!(rl.had_error());
    assert_eq!(rl.reports().len(), 1);
    assert_eq!(rl.reports()[0].message, "Unexpected character");
}

#[test]
fn scanning_is_idempotent_across_instances() {
    let source = "var answer = 40 + 2; // tally\n\"done\"\n!=";
    let (first, rl1) = scan(source);
    let (second, rl2) = scan(source);
    assert_eq!(first, second);
    assert_eq!(rl1.had_error(), rl2.had_error());
    assert_eq!(rl1.reports(), rl2.reports());
}

#[test]
fn line_numbers_count_preceding_newlines() {
    let (tokens, _) = scan("\n\n7");
    assert_eq!(kinds(&tokens), vec![TokenType::Number, TokenType::EOF]);
    assert_eq!(tokens[0].line, 3);
    assert_eq!(tokens[1].line, 3);
}

#[test]
fn unexpected_character_is_reported_and_skipped() {
    let (tokens, rl) = scan("@");
    assert_eq!(kinds(&tokens), vec![TokenType::EOF]);
    assert!(rl.had_error());
    let reports = rl.reports();
    assert_eq!(reports.len(), 1);
    assert_eq!(reports[0].message, "Unexpected character");
    assert_eq!(reports[0].line, 1);
}

#[test]
fn scan_survives_every_defect_in_one_pass() {
    let (tokens, rl) = scan("@+#\n$");
    assert_eq!(kinds(&tokens), vec![TokenType::Plus, TokenType::EOF]);
    let reports = rl.reports();
    assert_eq!(reports.len(), 3);
    assert_eq!(reports[0].line, 1);
    assert_eq!(reports[1].line, 1);
    assert_eq!(reports[2].line, 2);
    assert!(rl.had_error());
}

#[test]
fn whitespace_is_discarded() {
    let (tokens, rl) = scan(" \r\t");
    assert_eq!(kinds(&tokens), vec![TokenType::EOF]);
    assert_eq!(tokens[0].line, 1);
    assert!(!rl.had_error());
}

#[test]
fn slash_alone_is_a_token() {
    let (tokens, _) = scan("1/2");
    assert_eq!(
        kinds(&tokens),
        vec![TokenType::Number, TokenType::Slash, TokenType::Number, TokenType::EOF]
    );
}
