//! The mathematical model of the scan: what token sequence and what defect
//! reports a given source buffer produces. Line numbers are defined
//! positionally — the line in effect once `p` characters are consumed is one
//! plus the number of newlines among them — so the model is a pure function of
//! the source text alone.

use vstd::prelude::*;

use crate::driver::ReportModel;
use crate::token::{LiteralModel, TokenModel, TokenType};

verus! {

/// ASCII decimal digit.
pub open spec fn is_digit_char(c: char) -> bool {
    '0' <= c && c <= '9'
}

/// ASCII alphabetic character: the shape of an identifier's first character.
pub open spec fn is_alpha_char(c: char) -> bool {
    ('a' <= c && c <= 'z') || ('A' <= c && c <= 'Z')
}

/// ASCII alphanumeric or underscore: an identifier continuation character.
pub open spec fn is_ident_char(c: char) -> bool {
    is_alpha_char(c) || is_digit_char(c) || c == '_'
}

/// Number of newline characters in `src[a..b)`.
pub open spec fn newline_count(src: Seq<char>, a: int, b: int) -> int
    decreases b - a,
{
    if a >= b {
        0
    } else {
        newline_count(src, a, b - 1) + if src[b - 1] == '\n' {
            1int
        } else {
            0int
        }
    }
}

/// The 1-based source line in effect once the first `p` characters of `src`
/// have been consumed.
pub open spec fn line_at(src: Seq<char>, p: int) -> int {
    1 + newline_count(src, 0, p)
}

/// First position at or after `p` that does not continue a digit run.
pub open spec fn digits_end(src: Seq<char>, p: int) -> int
    decreases src.len() - p,
    when p <= src.len()
{
    if p >= src.len() || !is_digit_char(src[p]) {
        p
    } else {
        digits_end(src, p + 1)
    }
}

/// First position at or after `p` that does not continue an identifier run.
pub open spec fn ident_end(src: Seq<char>, p: int) -> int
    decreases src.len() - p,
    when p <= src.len()
{
    if p >= src.len() || !is_ident_char(src[p]) {
        p
    } else {
        ident_end(src, p + 1)
    }
}

/// First position at or after `p` holding a newline, or the end of the source
/// if there is none: where a line comment stops (the newline itself excluded).
pub open spec fn comment_end(src: Seq<char>, p: int) -> int
    decreases src.len() - p,
    when p <= src.len()
{
    if p >= src.len() || src[p] == '\n' {
        p
    } else {
        comment_end(src, p + 1)
    }
}

/// First position at or after `p` holding a double quote, or the end of the
/// source if there is none: where a string literal's closing delimiter sits.
pub open spec fn string_end(src: Seq<char>, p: int) -> int
    decreases src.len() - p,
    when p <= src.len()
{
    if p >= src.len() {
        p
    } else if src[p] == '"' {
        p
    } else {
        string_end(src, p + 1)
    }
}

/// The reserved-word table: a fixed, case-sensitive, exact-match mapping from
/// spelling to token category. Any other identifier text maps to nothing.
pub open spec fn keyword_token_type(text: Seq<char>) -> Option<TokenType> {
    if text == "and"@ {
        Some(TokenType::And)
    } else if text == "class"@ {
        Some(TokenType::Class)
    } else if text == "else"@ {
        Some(TokenType::Else)
    } else if text == "false"@ {
        Some(TokenType::False)
    } else if text == "for"@ {
        Some(TokenType::For)
    } else if text == "fun"@ {
        Some(TokenType::Fun)
    } else if text == "if"@ {
        Some(TokenType::If)
    } else if text == "nil"@ {
        Some(TokenType::Nil)
    } else if text == "or"@ {
        Some(TokenType::Or)
    } else if text == "print"@ {
        Some(TokenType::Print)
    } else if text == "return"@ {
        Some(TokenType::Return)
    } else if text == "super"@ {
        Some(TokenType::Super)
    } else if text == "this"@ {
        Some(TokenType::This)
    } else if text == "true"@ {
        Some(TokenType::True)
    } else if text == "var"@ {
        Some(TokenType::Var)
    } else if text == "while"@ {
        Some(TokenType::While)
    } else {
        None
    }
}

/// What one lexeme-production step at position `i` yields: where scanning
/// resumes, the token emitted (if any), and the defect reported (if any).
pub ghost struct Step {
    pub next: int,
    pub token: Option<TokenModel>,
    pub report: Option<ReportModel>,
}

/// A step that emits one token whose lexeme is `src[i..end)` and consumes
/// exactly that lexeme.
pub open spec fn token_step(src: Seq<char>, i: int, end: int, tt: TokenType, lit: LiteralModel) -> Step {
    Step {
        next: end,
        token: Some(
            TokenModel {
                token_type: tt,
                lexeme: src.subrange(i, end),
                literal: lit,
                line: line_at(src, end),
            },
        ),
        report: None,
    }
}

/// A one-or-two-character operator step: the following `=` is consumed if and
/// only if it is present, so `!=` is always one token and never `!` then `=`
/// (maximal munch).
pub open spec fn operator_step(src: Seq<char>, i: int, two: TokenType, one: TokenType) -> Step {
    if i + 1 < src.len() && src[i + 1] == '=' {
        token_step(src, i, i + 2, two, LiteralModel::Null)
    } else {
        token_step(src, i, i + 1, one, LiteralModel::Null)
    }
}

/// A string-literal step. The scan runs to the closing quote; if the source
/// ends first, the malformed text is consumed and discarded, one
/// `Unterminated string` defect is reported at the line then in effect, and no
/// token is emitted. Otherwise the token's literal is the text strictly
/// between the quotes (this language has no escape sequences).
pub open spec fn string_step(src: Seq<char>, i: int) -> Step {
    let close = string_end(src, i + 1);
    if close >= src.len() {
        Step {
            next: src.len() as int,
            token: None,
            report: Some(
                ReportModel {
                    line: line_at(src, src.len() as int),
                    location: Seq::<char>::empty(),
                    message: "Unterminated string"@,
                },
            ),
        }
    } else {
        token_step(
            src,
            i,
            close + 1,
            TokenType::Str,
            LiteralModel::StringValue(src.subrange(i + 1, close)),
        )
    }
}

/// A number-literal step: a maximal digit run, then a fractional part only if
/// a `.` is followed by another digit — a trailing `.` is left unconsumed.
/// The literal carries the exact digit text of the lexeme.
pub open spec fn number_step(src: Seq<char>, i: int) -> Step {
    let whole = digits_end(src, i + 1);
    let end = if whole < src.len() && src[whole] == '.' && whole + 1 < src.len() && is_digit_char(
        src[whole + 1],
    ) {
        digits_end(src, whole + 1)
    } else {
        whole
    };
    token_step(src, i, end, TokenType::Number, LiteralModel::NumberValue(src.subrange(i, end)))
}

/// An identifier-or-keyword step: a maximal identifier run, classified through
/// the reserved-word table.
pub open spec fn identifier_step(src: Seq<char>, i: int) -> Step {
    let end = ident_end(src, i + 1);
    let text = src.subrange(i, end);
    let tt = match keyword_token_type(text) {
        Some(k) => k,
        None => TokenType::Identifier,
    };
    token_step(src, i, end, tt, LiteralModel::Null)
}

/// The per-token dispatch on the character at position `i` (`i` strictly
/// inside the source). Whitespace and comments consume input without a token;
/// a character matching no rule costs one `Unexpected character` report and
/// one position.
pub open spec fn scan_step(src: Seq<char>, i: int) -> Step {
    let c = src[i];
    if c == '(' {
        token_step(src, i, i + 1, TokenType::LeftParen, LiteralModel::Null)
    } else if c == ')' {
        token_step(src, i, i + 1, TokenType::RightParen, LiteralModel::Null)
    } else if c == '{' {
        token_step(src, i, i + 1, TokenType::LeftBrace, LiteralModel::Null)
    } else if c == '}' {
        token_step(src, i, i + 1, TokenType::RightBrace, LiteralModel::Null)
    } else if c == ',' {
        token_step(src, i, i + 1, TokenType::Comma, LiteralModel::Null)
    } else if c == '.' {
        token_step(src, i, i + 1, TokenType::Dot, LiteralModel::Null)
    } else if c == '-' {
        token_step(src, i, i + 1, TokenType::Minus, LiteralModel::Null)
    } else if c == '+' {
        token_step(src, i, i + 1, TokenType::Plus, LiteralModel::Null)
    } else if c == ';' {
        token_step(src, i, i + 1, TokenType::Semicolon, LiteralModel::Null)
    } else if c == '*' {
        token_step(src, i, i + 1, TokenType::Star, LiteralModel::Null)
    } else if c == '!' {
        operator_step(src, i, TokenType::BangEqual, TokenType::Bang)
    } else if c == '=' {
        operator_step(src, i, TokenType::EqualEqual, TokenType::Equal)
    } else if c == '<' {
        operator_step(src, i, TokenType::LessEqual, TokenType::Less)
    } else if c == '>' {
        operator_step(src, i, TokenType::GreaterEqual, TokenType::Greater)
    } else if c == '/' {
        if i + 1 < src.len() && src[i + 1] == '/' {
            Step { next: comment_end(src, i + 2), token: None, report: None }
        } else {
            token_step(src, i, i + 1, TokenType::Slash, LiteralModel::Null)
        }
    } else if c == ' ' || c == '\r' || c == '\t' || c == '\n' {
        Step { next: i + 1, token: None, report: None }
    } else if c == '"' {
        string_step(src, i)
    } else if is_digit_char(c) {
        number_step(src, i)
    } else if is_alpha_char(c) {
        identifier_step(src, i)
    } else {
        Step {
            next: i + 1,
            token: None,
            report: Some(
                ReportModel {
                    line: line_at(src, i + 1),
                    location: Seq::<char>::empty(),
                    message: "Unexpected character"@,
                },
            ),
        }
    }
}

/// Bounds for `digits_end`: it never moves backwards nor past the end.
pub proof fn lemma_digits_end_bounds(src: Seq<char>, p: int)
    requires
        0 <= p <= src.len(),
    ensures
        p <= digits_end(src, p) <= src.len(),
    decreases src.len() - p,
{
    if p < src.len() && is_digit_char(src[p]) {
        lemma_digits_end_bounds(src, p + 1);
    }
}

/// Bounds for `ident_end`: it never moves backwards nor past the end.
pub proof fn lemma_ident_end_bounds(src: Seq<char>, p: int)
    requires
        0 <= p <= src.len(),
    ensures
        p <= ident_end(src, p) <= src.len(),
    decreases src.len() - p,
{
    if p < src.len() && is_ident_char(src[p]) {
        lemma_ident_end_bounds(src, p + 1);
    }
}

/// Bounds for `comment_end`: it never moves backwards nor past the end.
pub proof fn lemma_comment_end_bounds(src: Seq<char>, p: int)
    requires
        0 <= p <= src.len(),
    ensures
        p <= comment_end(src, p) <= src.len(),
    decreases src.len() - p,
{
    if p < src.len() && src[p] != '\n' {
        lemma_comment_end_bounds(src, p + 1);
    }
}

/// Bounds for `string_end`: it never moves backwards nor past the end.
pub proof fn lemma_string_end_bounds(src: Seq<char>, p: int)
    requires
        0 <= p <= src.len(),
    ensures
        p <= string_end(src, p) <= src.len(),
    decreases src.len() - p,
{
    if p < src.len() && src[p] != '"' {
        lemma_string_end_bounds(src, p + 1);
    }
}

/// `digits_end` is exactly the boundary a left-to-right walk stops at.
pub proof fn lemma_digits_end_from(src: Seq<char>, p: int, q: int)
    requires
        0 <= p <= q <= src.len(),
        forall|k: int| p <= k < q ==> is_digit_char(#[trigger] src[k]),
        q == src.len() || !is_digit_char(src[q]),
    ensures
        digits_end(src, p) == q,
    decreases q - p,
{
    if p < q {
        lemma_digits_end_from(src, p + 1, q);
    }
}

/// `ident_end` is exactly the boundary a left-to-right walk stops at.
pub proof fn lemma_ident_end_from(src: Seq<char>, p: int, q: int)
    requires
        0 <= p <= q <= src.len(),
        forall|k: int| p <= k < q ==> is_ident_char(#[trigger] src[k]),
        q == src.len() || !is_ident_char(src[q]),
    ensures
        ident_end(src, p) == q,
    decreases q - p,
{
    if p < q {
        lemma_ident_end_from(src, p + 1, q);
    }
}

/// `comment_end` is exactly the boundary a left-to-right walk stops at.
pub proof fn lemma_comment_end_from(src: Seq<char>, p: int, q: int)
    requires
        0 <= p <= q <= src.len(),
        forall|k: int| p <= k < q ==> #[trigger] src[k] != '\n',
        q == src.len() || src[q] == '\n',
    ensures
        comment_end(src, p) == q,
    decreases q - p,
{
    if p < q {
        lemma_comment_end_from(src, p + 1, q);
    }
}

/// `string_end` is exactly the boundary a left-to-right walk stops at.
pub proof fn lemma_string_end_from(src: Seq<char>, p: int, q: int)
    requires
        0 <= p <= q <= src.len(),
        forall|k: int| p <= k < q ==> #[trigger] src[k] != '"',
        q == src.len() || src[q] == '"',
    ensures
        string_end(src, p) == q,
    decreases q - p,
{
    if p < q {
        lemma_string_end_from(src, p + 1, q);
    }
}

/// There are never more newlines in a stretch than characters.
pub proof fn lemma_newline_count_bounds(src: Seq<char>, a: int, b: int)
    ensures
        0 <= newline_count(src, a, b) <= if b - a >= 0 {
            b - a
        } else {
            0
        },
    decreases b - a,
{
    if a < b {
        lemma_newline_count_bounds(src, a, b - 1);
    }
}

/// Every step moves strictly forward and never past the end of the source.
pub proof fn lemma_scan_step_advances(src: Seq<char>, i: int)
    requires
        0 <= i < src.len(),
    ensures
        i < scan_step(src, i).next <= src.len(),
{
    let c = src[i];
    if c == '/' && i + 1 < src.len() && src[i + 1] == '/' {
        lemma_comment_end_bounds(src, i + 2);
    } else if c == '"' {
        lemma_string_end_bounds(src, i + 1);
    } else if is_digit_char(c) {
        lemma_digits_end_bounds(src, i + 1);
        let whole = digits_end(src, i + 1);
        if whole < src.len() && src[whole] == '.' && whole + 1 < src.len() && is_digit_char(
            src[whole + 1],
        ) {
            lemma_digits_end_bounds(src, whole + 1);
        }
    } else if c == '(' || c == ')' || c == '{' || c == '}' || c == ',' || c == '.' || c == '-'
        || c == '+' || c == ';' || c == '*' || c == '!' || c == '=' || c == '<' || c == '>'
        || c == ' ' || c == '\r' || c == '\t' || c == '\n' {
    } else if is_alpha_char(c) {
        lemma_ident_end_bounds(src, i + 1);
    }
}

/// Everything a scan of the tail of the source produces: the tokens emitted
/// and the defects reported, in source order (the terminal EOF token
/// excluded).
pub ghost struct ScanOutput {
    pub tokens: Seq<TokenModel>,
    pub reports: Seq<ReportModel>,
}

/// The token sequence an emitted token contributes.
pub open spec fn opt_token_seq(t: Option<TokenModel>) -> Seq<TokenModel> {
    match t {
        Some(tok) => seq![tok],
        None => Seq::<TokenModel>::empty(),
    }
}

/// The report sequence a reported defect contributes.
pub open spec fn opt_report_seq(r: Option<ReportModel>) -> Seq<ReportModel> {
    match r {
        Some(rep) => seq![rep],
        None => Seq::<ReportModel>::empty(),
    }
}

/// All tokens and reports produced from position `i` to the end of the
/// source, one maximal-munch step at a time.
pub open spec fn scan_state(src: Seq<char>, i: int) -> ScanOutput
    decreases src.len() - i,
    when 0 <= i <= src.len()
{
    if i >= src.len() {
        ScanOutput { tokens: Seq::<TokenModel>::empty(), reports: Seq::<ReportModel>::empty() }
    } else {
        let s = scan_step(src, i);
        proof {
            lemma_scan_step_advances(src, i);
        }
        let rest = scan_state(src, s.next);
        ScanOutput {
            tokens: opt_token_seq(s.token) + rest.tokens,
            reports: opt_report_seq(s.report) + rest.reports,
        }
    }
}

/// The terminal EOF token: empty lexeme, no literal, the line in effect after
/// the whole source has been consumed.
pub open spec fn eof_token(src: Seq<char>) -> TokenModel {
    TokenModel {
        token_type: TokenType::EOF,
        lexeme: Seq::<char>::empty(),
        literal: LiteralModel::Null,
        line: line_at(src, src.len() as int),
    }
}

/// The complete token sequence a scan of `src` returns: every emitted token
/// in source order, terminated by exactly one EOF token.
pub open spec fn scan_model(src: Seq<char>) -> Seq<TokenModel> {
    scan_state(src, 0).tokens.push(eof_token(src))
}

/// Every defect a scan of `src` reports, in source order.
pub open spec fn scan_reports(src: Seq<char>) -> Seq<ReportModel> {
    scan_state(src, 0).reports
}

/// No dispatch step ever emits an EOF token: that category is reserved for
/// the terminal marker.
proof fn lemma_scan_step_no_eof(src: Seq<char>, i: int)
    requires
        0 <= i < src.len(),
    ensures
        scan_step(src, i).token matches Some(t) ==> t.token_type != TokenType::EOF,
{
}

/// No token produced before the end of the source is an EOF token.
proof fn lemma_no_interior_eof(src: Seq<char>, i: int)
    requires
        0 <= i <= src.len(),
    ensures
        forall|k: int|
            0 <= k < scan_state(src, i).tokens.len() ==> (#[trigger] scan_state(
                src,
                i,
            ).tokens[k]).token_type != TokenType::EOF,
    decreases src.len() - i,
{
    if i < src.len() {
        let s = scan_step(src, i);
        lemma_scan_step_advances(src, i);
        lemma_scan_step_no_eof(src, i);
        lemma_no_interior_eof(src, s.next);
        assert forall|k: int| 0 <= k < scan_state(src, i).tokens.len() implies (
        #[trigger] scan_state(src, i).tokens[k]).token_type != TokenType::EOF by {
            let head = opt_token_seq(s.token);
            if k >= head.len() {
                assert(scan_state(src, i).tokens[k] == scan_state(src, s.next).tokens[k
                    - head.len()]);
            }
        }
    }
}

/// For every source text, the scan's result is non-empty, its last element is
/// an EOF token with an empty lexeme, and no earlier element is an EOF token:
/// exactly one EOF, always final.
pub proof fn lemma_scan_model_eof(src: Seq<char>)
    ensures
        scan_model(src).len() >= 1,
        scan_model(src).last().token_type == TokenType::EOF,
        scan_model(src).last().lexeme.len() == 0,
        forall|k: int|
            0 <= k < scan_model(src).len() - 1 ==> (#[trigger] scan_model(
                src,
            )[k]).token_type != TokenType::EOF,
{
    lemma_no_interior_eof(src, 0);
    assert(scan_model(src).last() == eof_token(src));
    assert forall|k: int| 0 <= k < scan_model(src).len() - 1 implies (#[trigger] scan_model(
        src,
    )[k]).token_type != TokenType::EOF by {
        assert(scan_model(src)[k] == scan_state(src, 0).tokens[k]);
    }
}

/// Scanning identical source text twice yields structurally identical
/// results: the token sequence and the reports are functions of the source
/// text alone, so two scanner instances over equal sources agree token for
/// token.
pub proof fn lemma_scan_deterministic(src1: Seq<char>, src2: Seq<char>)
    requires
        src1 == src2,
    ensures
        scan_model(src1) == scan_model(src2),
        scan_reports(src1) == scan_reports(src2),
{
}

/// Maximal munch for the one-or-two-character operators: when `!`, `=`, `<`
/// or `>` is followed by `=`, the step consumes both characters and emits the
/// single two-character token — never the one-character token followed by an
/// `Equal`. Without a following `=`, exactly the one-character token is
/// emitted.
pub proof fn lemma_maximal_munch(src: Seq<char>, i: int)
    requires
        0 <= i < src.len(),
        src[i] == '!' || src[i] == '=' || src[i] == '<' || src[i] == '>',
    ensures
        i + 1 < src.len() && src[i + 1] == '=' ==> {
            let s = scan_step(src, i);
            &&& s.next == i + 2
            &&& s.token matches Some(t)
            &&& s.token->Some_0.lexeme == src.subrange(i, i + 2)
            &&& s.token->Some_0.token_type == (if src[i] == '!' {
                TokenType::BangEqual
            } else if src[i] == '=' {
                TokenType::EqualEqual
            } else if src[i] == '<' {
                TokenType::LessEqual
            } else {
                TokenType::GreaterEqual
            })
        },
        !(i + 1 < src.len() && src[i + 1] == '=') ==> {
            let s = scan_step(src, i);
            &&& s.next == i + 1
            &&& s.token matches Some(t)
            &&& s.token->Some_0.lexeme == src.subrange(i, i + 1)
            &&& s.token->Some_0.token_type == (if src[i] == '!' {
                TokenType::Bang
            } else if src[i] == '=' {
                TokenType::Equal
            } else if src[i] == '<' {
                TokenType::Less
            } else {
                TokenType::Greater
            })
        },
{
}

/// A line comment contributes no token and no report; it consumes up to, but
/// never including, the newline that ends it, so that newline still advances
/// the line counter on the following step.
pub proof fn lemma_comment_contributes_nothing(src: Seq<char>, i: int)
    requires
        0 <= i,
        i + 1 < src.len(),
        src[i] == '/',
        src[i + 1] == '/',
    ensures
        scan_step(src, i).token is None,
        scan_step(src, i).report is None,
        scan_step(src, i).next == comment_end(src, i + 2),
        scan_step(src, i).next == src.len() || src[scan_step(src, i).next] == '\n',
{
    lemma_comment_end_stops_at_newline(src, i + 2);
}

/// `comment_end` stops exactly at the end of the source or on a newline.
proof fn lemma_comment_end_stops_at_newline(src: Seq<char>, p: int)
    requires
        0 <= p <= src.len(),
    ensures
        comment_end(src, p) == src.len() || src[comment_end(src, p)] == '\n',
    decreases src.len() - p,
{
    if p < src.len() && src[p] != '\n' {
        lemma_comment_end_stops_at_newline(src, p + 1);
    }
}

/// The invariant every emitted (non-EOF) token obeys: its literal payload is
/// meaningful exactly when its category is a literal category, and its
/// lexeme is a verbatim, non-empty substring of the source.
pub open spec fn token_well_formed(src: Seq<char>, t: TokenModel) -> bool {
    &&& (t.token_type is Str <==> t.literal is StringValue)
    &&& (t.token_type is Number <==> t.literal is NumberValue)
    &&& (!(t.token_type is Str) && !(t.token_type is Number)) ==> t.literal is Null
    &&& exists|a: int, b: int| 0 <= a < b <= src.len() && t.lexeme == #[trigger] src.subrange(a, b)
}

/// Whatever token one step emits is well-formed.
proof fn lemma_step_token_well_formed(src: Seq<char>, i: int)
    requires
        0 <= i < src.len(),
    ensures
        scan_step(src, i).token matches Some(t) ==> token_well_formed(src, t),
{
    lemma_scan_step_advances(src, i);
    let s = scan_step(src, i);
    if s.token is Some {
        let t = s.token->Some_0;
        assert(t.lexeme == src.subrange(i, s.next));
    }
}

/// Every token a scan of the tail produces is well-formed.
proof fn lemma_state_tokens_well_formed(src: Seq<char>, i: int)
    requires
        0 <= i <= src.len(),
    ensures
        forall|k: int|
            0 <= k < scan_state(src, i).tokens.len() ==> token_well_formed(
                src,
                #[trigger] scan_state(src, i).tokens[k],
            ),
    decreases src.len() - i,
{
    if i < src.len() {
        let s = scan_step(src, i);
        lemma_scan_step_advances(src, i);
        lemma_step_token_well_formed(src, i);
        lemma_state_tokens_well_formed(src, s.next);
        assert forall|k: int| 0 <= k < scan_state(src, i).tokens.len() implies token_well_formed(
            src,
            #[trigger] scan_state(src, i).tokens[k],
        ) by {
            let head = opt_token_seq(s.token);
            if k >= head.len() {
                assert(scan_state(src, i).tokens[k] == scan_state(src, s.next).tokens[k
                    - head.len()]);
            }
        }
    }
}

/// Every token returned by a scan, but for the terminal EOF token, carries a
/// meaningful literal exactly when it is a literal token, and its lexeme is
/// a verbatim, non-empty substring of the scanned source. The EOF token's
/// lexeme is empty and its literal is the null payload.
pub proof fn lemma_scan_model_well_formed(src: Seq<char>)
    ensures
        forall|k: int|
            0 <= k < scan_model(src).len() - 1 ==> token_well_formed(
                src,
                #[trigger] scan_model(src)[k],
            ),
        scan_model(src).last().lexeme.len() == 0,
        scan_model(src).last().literal is Null,
{
    lemma_state_tokens_well_formed(src, 0);
    assert forall|k: int| 0 <= k < scan_model(src).len() - 1 implies token_well_formed(
        src,
        #[trigger] scan_model(src)[k],
    ) by {
        assert(scan_model(src)[k] == scan_state(src, 0).tokens[k]);
    }
    assert(scan_model(src).last() == eof_token(src));
}

/// Line numbering: anything a step emits — token or report — carries the
/// line in effect where the step ended, and that line is one plus the number
/// of newlines among the characters consumed up to that point. A token
/// emitted after `N` newlines of the input therefore carries line `N + 1`,
/// newlines inside string literals and comments included.
pub proof fn lemma_step_line_accounting(src: Seq<char>, i: int)
    requires
        0 <= i < src.len(),
    ensures
        scan_step(src, i).token matches Some(t) ==> t.line == 1 + newline_count(
            src,
            0,
            scan_step(src, i).next,
        ),
        scan_step(src, i).report matches Some(r) ==> r.line == 1 + newline_count(
            src,
            0,
            scan_step(src, i).next,
        ),
{
}

/// Line numbering at the end of the scan: the terminal EOF token of any
/// source carries one plus the newline count of the whole source.
pub proof fn lemma_eof_line(src: Seq<char>)
    ensures
        scan_model(src).last().line == 1 + newline_count(src, 0, src.len() as int),
{
    assert(scan_model(src).last() == eof_token(src));
}

} // verus!
