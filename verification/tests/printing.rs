use rusty_locks::ast_printer::AstPrinter;
use rusty_locks::driver::RustyLocks;
use rusty_locks::expr::{Expr, ExprHelpers};
use rusty_locks::token::{LiteralValue, Token, TokenType};

#[test]
fn token_new_keeps_all_four_fields() {
    let t = Token::new(
        TokenType::Minus,
        "-".to_string(),
        LiteralValue::Null,
        7,
    );
    assert_eq!(t.token_type, TokenType::Minus);
    assert_eq!(t.lexeme, "-");
    assert_eq!(t.literal, LiteralValue::Null);
    assert_eq!(t.line, 7);
}

#[test]
fn sink_records_reports_in_order() {
    let mut rl = RustyLocks::new();
    assert!(!rl.had_error());
    assert!(rl.reports().is_empty());
    rl.error(3, "first".to_string());
    rl.report(5, "loc".to_string(), "second".to_string());
    assert!(rl.had_error());
    let reports = rl.reports();
    assert_eq!(reports.len(), 2);
    assert_eq!(reports[0].line, 3);
    assert_eq!(reports[0].location, "");
    assert_eq!(reports[0].message, "first");
    assert_eq!(reports[1].line, 5);
    assert_eq!(reports[1].location, "loc");
    assert_eq!(reports[1].message, "second");
}

#[test]
fn printer_renders_the_demo_tree() {
    let literal = Expr::Literal { value: LiteralValue::NumberValue("123".to_string()) };
    let unary = Expr::Unary {
        operator: Token::new(TokenType::Minus, "-".to_string(), LiteralValue::Null, 1),
        right: Box::new(literal),
    };
    let grouping = Expr::Grouping {
        expression: Box::new(Expr::Literal {
            value: LiteralValue::NumberValue("45.67".to_string()),
        }),
    };
    let binary = Expr::Binary {
        left: Box::new(unary),
        operator: Token::new(TokenType::Star, "*".to_string(), LiteralValue::Null, 1),
        right: Box::new(grouping),
    };
    let mut printer = AstPrinter::new();
    assert_eq!(printer.print(&binary), "(* (- (123)) (group (45.67)))");
}

#[test]
fn printer_renders_each_literal_shape() {
    let mut printer = AstPrinter::new();
    let s = Expr::Literal { value: LiteralValue::StringValue("hi".to_string()) };
    assert_eq!(printer.print(&s), "(hi)");
    let n = Expr::Literal { value: LiteralValue::Null };
    assert_eq!(printer.print(&n), "(nil)");
}

#[test]
fn node_names_follow_their_shape() {
    let literal = Expr::Literal { value: LiteralValue::Null };
    assert_eq!(literal.name(), "LiteralExpr");
    let grouping = Expr::Grouping { expression: Box::new(Expr::Literal {
        value: LiteralValue::Null,
    }) };
    assert_eq!(grouping.name(), "GroupingExpr");
}
