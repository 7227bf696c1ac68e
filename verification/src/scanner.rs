//! The scanner: a single-pass state machine that consumes a source buffer and
//! produces the token sequence of `scan_model`, reporting every lexical
//! defect to the error sink and never aborting early.

use vstd::prelude::*;
use vstd::string::StrSliceExecFns;

use crate::driver::{ReportModel, RustyLocks};
use crate::scan_model::{
    eof_token, identifier_step, is_alpha_char, is_digit_char, is_ident_char, keyword_token_type,
    lemma_comment_end_from, lemma_digits_end_from, lemma_ident_end_from,
    lemma_newline_count_bounds, lemma_scan_step_advances, lemma_string_end_from, line_at,
    number_step, opt_report_seq, opt_token_seq, scan_model, scan_reports, scan_state, scan_step,
    string_end, string_step,
};
use crate::token::{token_models, LiteralValue, Token, TokenModel, TokenType};

verus! {

/// Mathematical view of a scanner: the decoded source, the tokens
/// accumulated so far, the two cursors, and the line counter.
pub ghost struct ScannerModel {
    pub source: Seq<char>,
    pub tokens: Seq<TokenModel>,
    pub start: int,
    pub current: int,
    pub line: int,
}

/// The scanner's state: the source pre-decoded into Unicode scalar values (so
/// cursor moves are O(1) and positions are counted in characters), the
/// accumulated token sequence, the `start` cursor at the current lexeme's
/// first character, the `current` cursor at the next unread character, and
/// the 1-based line counter.
pub struct Scanner {
    source: Vec<char>,
    tokens: Vec<Token>,
    start: usize,
    current: usize,
    line: usize,
}

impl View for Scanner {
    type V = ScannerModel;

    closed spec fn view(&self) -> ScannerModel {
        ScannerModel {
            source: self.source@,
            tokens: token_models(self.tokens@),
            start: self.start as int,
            current: self.current as int,
            line: self.line as int,
        }
    }
}

impl Scanner {
    /// The cursor sits inside the source and the source leaves the line
    /// counter room to grow.
    pub open spec fn wf(self) -> bool {
        &&& self@.current <= self@.source.len()
        &&& self@.source.len() < usize::MAX
    }

    /// A scanner that has not produced anything yet, as `new` returns it.
    pub open spec fn fresh(self) -> bool {
        &&& self.wf()
        &&& self@.tokens == Seq::<TokenModel>::empty()
        &&& self@.start == 0
        &&& self@.current == 0
        &&& self@.line == 1
    }

    /// A fresh scanner over the given source text. The length bound is a
    /// machine limit: the line counter must be able to exceed the character
    /// count by one.
    pub fn new(source: String) -> (s: Scanner)
        requires
            source@.len() < usize::MAX,
        ensures
            s.fresh(),
            s@.source == source@,
    {
        let chars = decode_chars(source.as_str());
        let s = Scanner { source: chars, tokens: Vec::new(), start: 0, current: 0, line: 1 };
        proof {
            assert(token_models(s.tokens@) =~= Seq::<TokenModel>::empty());
        }
        s
    }

    /// Whether the `current` cursor has reached the end of the source.
    fn is_at_end(&self) -> (b: bool)
        ensures
            b == (self@.current >= self@.source.len()),
    {
        self.current >= self.source.len()
    }

    /// Consume and return the next unread character.
    fn advance(&mut self) -> (c: char)
        requires
            old(self).wf(),
            old(self)@.current < old(self)@.source.len(),
        ensures
            c == old(self)@.source[old(self)@.current],
            final(self)@ == (ScannerModel { current: old(self)@.current + 1, ..old(self)@ }),
    {
        self.current = self.current + 1;
        self.char_at_current()
    }

    /// The next unread character, or `'\0'` once the source is exhausted; the
    /// cursor does not move.
    fn peek(&self) -> (c: char)
        requires
            self.wf(),
        ensures
            c == if self@.current < self@.source.len() {
                self@.source[self@.current]
            } else {
                '\0'
            },
    {
        if self.is_at_end() {
            return '\0';
        }
        self.source[self.current]
    }

    /// The character one past the next unread one, or `'\0'` if the source
    /// ends before it; the cursor does not move.
    fn peek_next(&self) -> (c: char)
        requires
            self.wf(),
        ensures
            c == if self@.current + 1 < self@.source.len() {
                self@.source[self@.current + 1]
            } else {
                '\0'
            },
    {
        if self.current + 1 >= self.source.len() {
            return '\0';
        }
        self.source[self.current + 1]
    }

    /// Consume the next unread character exactly when it equals `expected`:
    /// the single character of conditional lookahead behind maximal munch.
    fn match_char(&mut self, expected: char) -> (matched: bool)
        requires
            old(self).wf(),
        ensures
            matched == (old(self)@.current < old(self)@.source.len() && old(self)@.source[old(
                self,
            )@.current] == expected),
            final(self)@ == (ScannerModel {
                current: old(self)@.current + if matched {
                    1int
                } else {
                    0int
                },
                ..old(self)@
            }),
    {
        if self.is_at_end() {
            return false;
        }
        if self.source[self.current] != expected {
            return false;
        }
        self.current = self.current + 1;
        true
    }

    /// The character just consumed: the one before the `current` cursor.
    fn char_at_current(&self) -> (c: char)
        requires
            1 <= self@.current <= self@.source.len(),
        ensures
            c == self@.source[self@.current - 1],
    {
        self.source[self.current - 1]
    }

    /// The current lexeme's text, trimmed by the given character offsets on
    /// either side: the source substring from `start + offset_start` to
    /// `current - offset_end`.
    fn substr(&self, offset_start: usize, offset_end: usize) -> (s: String)
        requires
            offset_end <= self@.current,
            self@.start + offset_start <= self@.current - offset_end,
            self@.current <= self@.source.len(),
        ensures
            s@ == self@.source.subrange(
                self@.start + offset_start,
                self@.current - offset_end,
            ),
    {
        let from = self.start + offset_start;
        let to = self.current - offset_end;
        let mut s = String::new();
        let mut i: usize = from;
        while i < to
            invariant
                from <= i <= to,
                to <= self@.source.len(),
                s@ == self@.source.subrange(from as int, i as int),
            decreases to - i,
        {
            push_char(&mut s, self.source[i]);
            i = i + 1;
            proof {
                assert(s@ =~= self@.source.subrange(from as int, i as int));
            }
        }
        s
    }

    /// Append one token whose lexeme is the current one, carrying the given
    /// literal (or none) and the line now in effect.
    fn add_token(&mut self, token_type: TokenType, literal: Option<LiteralValue>)
        requires
            old(self)@.start <= old(self)@.current <= old(self)@.source.len(),
        ensures
            final(self)@ == (ScannerModel {
                tokens: old(self)@.tokens.push(
                    (TokenModel {
                        token_type,
                        lexeme: old(self)@.source.subrange(old(self)@.start, old(self)@.current),
                        literal: (match literal {
                            Some(l) => l@,
                            None => crate::token::LiteralModel::Null,
                        }),
                        line: old(self)@.line,
                    }),
                ),
                ..old(self)@
            }),
    {
        let text = self.substr(0, 0);
        let literal_value = match literal {
            Some(v) => v,
            None => LiteralValue::Null,
        };
        let line = self.line;
        let t = Token::new(token_type, text, literal_value, line);
        let ghost tm = t@;
        self.tokens.push(t);
        proof {
            assert(token_models(self.tokens@) =~= old(self)@.tokens.push(tm));
        }
    }

    /// Scan the rest of a string literal, the opening quote already consumed.
    /// Embedded newlines are permitted and advance the line counter; if the
    /// source ends before the closing quote, the defect is reported and no
    /// token is emitted.
    fn string(&mut self, rl: &mut RustyLocks)
        requires
            old(self).wf(),
            0 <= old(self)@.start,
            old(self)@.start + 1 == old(self)@.current,
            old(self)@.source[old(self)@.start] == '"',
            old(self)@.line == line_at(old(self)@.source, old(self)@.current),
        ensures
            final(self).wf(),
            ({
                let s = string_step(old(self)@.source, old(self)@.start);
                &&& final(self)@ == (ScannerModel {
                    current: s.next,
                    line: line_at(old(self)@.source, s.next),
                    tokens: old(self)@.tokens + opt_token_seq(s.token),
                    ..old(self)@
                })
                &&& final(rl)@.reports == old(rl)@.reports + opt_report_seq(s.report)
                &&& final(rl)@.had_error == (old(rl)@.had_error || (s.report is Some))
            }),
    {
        let ghost src = old(self)@.source;
        let ghost i = old(self)@.start;
        while self.peek() != '"' && !self.is_at_end()
            invariant
                self.wf(),
                self@.source == src,
                self@.start == i,
                self@.tokens == old(self)@.tokens,
                i + 1 <= self@.current <= src.len(),
                forall|k: int| i + 1 <= k < self@.current ==> #[trigger] src[k] != '"',
                self@.line == line_at(src, self@.current),
            decreases src.len() - self@.current,
        {
            if self.peek() == '\n' {
                proof {
                    lemma_newline_count_bounds(src, 0, self@.current);
                }
                self.line = self.line + 1;
            }
            let _ = self.advance();
            proof {
                assert(self@.line == line_at(src, self@.current));
            }
        }
        proof {
            lemma_string_end_from(src, i + 1, self@.current);
        }
        if self.is_at_end() {
            let msg = "Unterminated string".to_owned();
            let line = self.line;
            rl.error(line, msg);
            proof {
                let s = string_step(src, i);
                assert(final(rl)@.reports =~= old(rl)@.reports + opt_report_seq(s.report));
                assert(self@.tokens =~= old(self)@.tokens + opt_token_seq(s.token));
            }
            return ;
        }
        let _ = self.advance();
        let value = self.substr(1, 1);
        self.add_token(TokenType::Str, Some(LiteralValue::StringValue(value)));
        proof {
            let s = string_step(src, i);
            let close = string_end(src, i + 1);
            assert(self@.line == line_at(src, close + 1));
            assert(self@.tokens =~= old(self)@.tokens + opt_token_seq(s.token));
        }
    }

    /// Scan the rest of a number literal, the first digit already consumed: a
    /// maximal digit run, then a fractional part only if a `.` is followed by
    /// a further digit.
    fn number(&mut self)
        requires
            old(self).wf(),
            0 <= old(self)@.start,
            old(self)@.start + 1 == old(self)@.current,
            is_digit_char(old(self)@.source[old(self)@.start]),
            old(self)@.line == line_at(old(self)@.source, old(self)@.current),
        ensures
            final(self).wf(),
            ({
                let s = number_step(old(self)@.source, old(self)@.start);
                final(self)@ == (ScannerModel {
                    current: s.next,
                    line: line_at(old(self)@.source, s.next),
                    tokens: old(self)@.tokens + opt_token_seq(s.token),
                    ..old(self)@
                })
            }),
    {
        let ghost src = old(self)@.source;
        let ghost i = old(self)@.start;
        while digit_char(self.peek())
            invariant
                self.wf(),
                self@.source == src,
                self@.start == i,
                self@.tokens == old(self)@.tokens,
                i + 1 <= self@.current <= src.len(),
                forall|k: int| i + 1 <= k < self@.current ==> is_digit_char(#[trigger] src[k]),
                self@.line == line_at(src, self@.current),
            decreases src.len() - self@.current,
        {
            let _ = self.advance();
            proof {
                assert(self@.line == line_at(src, self@.current));
            }
        }
        proof {
            lemma_digits_end_from(src, i + 1, self@.current);
        }
        let ghost whole = self@.current;
        if self.peek() == '.' && digit_char(self.peek_next()) {
            let _ = self.advance();
            proof {
                assert(self@.line == line_at(src, self@.current));
            }
            while digit_char(self.peek())
                invariant
                    self.wf(),
                    self@.source == src,
                    self@.start == i,
                    self@.tokens == old(self)@.tokens,
                    whole + 1 <= self@.current <= src.len(),
                    forall|k: int| whole + 1 <= k < self@.current ==> is_digit_char(
                        #[trigger] src[k],
                    ),
                    self@.line == line_at(src, self@.current),
                decreases src.len() - self@.current,
            {
                let _ = self.advance();
                proof {
                    assert(self@.line == line_at(src, self@.current));
                }
            }
            proof {
                lemma_digits_end_from(src, whole + 1, self@.current);
            }
        }
        let text = self.substr(0, 0);
        self.add_token(TokenType::Number, Some(LiteralValue::NumberValue(text)));
        proof {
            let s = number_step(src, i);
            assert(self@.tokens =~= old(self)@.tokens + opt_token_seq(s.token));
        }
    }

    /// Scan the rest of an identifier or keyword, the first (alphabetic)
    /// character already consumed, and classify the text through the
    /// reserved-word table.
    fn identifier(&mut self)
        requires
            old(self).wf(),
            0 <= old(self)@.start,
            old(self)@.start + 1 == old(self)@.current,
            old(self)@.line == line_at(old(self)@.source, old(self)@.current),
        ensures
            final(self).wf(),
            ({
                let s = identifier_step(old(self)@.source, old(self)@.start);
                final(self)@ == (ScannerModel {
                    current: s.next,
                    line: line_at(old(self)@.source, s.next),
                    tokens: old(self)@.tokens + opt_token_seq(s.token),
                    ..old(self)@
                })
            }),
    {
        let ghost src = old(self)@.source;
        let ghost i = old(self)@.start;
        while ident_char(self.peek())
            invariant
                self.wf(),
                self@.source == src,
                self@.start == i,
                self@.tokens == old(self)@.tokens,
                i + 1 <= self@.current <= src.len(),
                forall|k: int| i + 1 <= k < self@.current ==> is_ident_char(#[trigger] src[k]),
                self@.line == line_at(src, self@.current),
            decreases src.len() - self@.current,
        {
            let _ = self.advance();
            proof {
                assert(self@.line == line_at(src, self@.current));
            }
        }
        proof {
            lemma_ident_end_from(src, i + 1, self@.current);
        }
        let text = self.substr(0, 0);
        let looked_up = keyword_kind(&text);
        match looked_up {
            Some(tt) => {
                self.add_token(tt, None);
            },
            None => {
                self.add_token(TokenType::Identifier, None);
            },
        }
        proof {
            let s = identifier_step(src, i);
            assert(self@.tokens =~= old(self)@.tokens + opt_token_seq(s.token));
        }
    }

    /// Produce at most one token from the character at the `start` cursor:
    /// the per-token dispatch of `scan_step`, reporting any defect to the
    /// sink and always leaving the scan able to continue.
    fn scan_token(&mut self, rl: &mut RustyLocks)
        requires
            old(self).wf(),
            old(self)@.start == old(self)@.current,
            old(self)@.current < old(self)@.source.len(),
            old(self)@.line == line_at(old(self)@.source, old(self)@.current),
        ensures
            final(self).wf(),
            ({
                let s = scan_step(old(self)@.source, old(self)@.current);
                &&& final(self)@ == (ScannerModel {
                    current: s.next,
                    line: line_at(old(self)@.source, s.next),
                    tokens: old(self)@.tokens + opt_token_seq(s.token),
                    ..old(self)@
                })
                &&& final(rl)@.reports == old(rl)@.reports + opt_report_seq(s.report)
                &&& final(rl)@.had_error == (old(rl)@.had_error || (s.report is Some))
            }),
    {
        let ghost src = old(self)@.source;
        let ghost i = old(self)@.current;
        let c = self.advance();
        match c {
            '(' => {
                self.add_token(TokenType::LeftParen, None);
                proof {
                    lemma_push_is_concat(old(self)@.tokens, scan_step(src, i).token);
                }
            },
            ')' => {
                self.add_token(TokenType::RightParen, None);
                proof {
                    lemma_push_is_concat(old(self)@.tokens, scan_step(src, i).token);
                }
            },
            '{' => {
                self.add_token(TokenType::LeftBrace, None);
                proof {
                    lemma_push_is_concat(old(self)@.tokens, scan_step(src, i).token);
                }
            },
            '}' => {
                self.add_token(TokenType::RightBrace, None);
                proof {
                    lemma_push_is_concat(old(self)@.tokens, scan_step(src, i).token);
                }
            },
            ',' => {
                self.add_token(TokenType::Comma, None);
                proof {
                    lemma_push_is_concat(old(self)@.tokens, scan_step(src, i).token);
                }
            },
            '.' => {
                self.add_token(TokenType::Dot, None);
                proof {
                    lemma_push_is_concat(old(self)@.tokens, scan_step(src, i).token);
                }
            },
            '-' => {
                self.add_token(TokenType::Minus, None);
                proof {
                    lemma_push_is_concat(old(self)@.tokens, scan_step(src, i).token);
                }
            },
            '+' => {
                self.add_token(TokenType::Plus, None);
                proof {
                    lemma_push_is_concat(old(self)@.tokens, scan_step(src, i).token);
                }
            },
            ';' => {
                self.add_token(TokenType::Semicolon, None);
                proof {
                    lemma_push_is_concat(old(self)@.tokens, scan_step(src, i).token);
                }
            },
            '*' => {
                self.add_token(TokenType::Star, None);
                proof {
                    lemma_push_is_concat(old(self)@.tokens, scan_step(src, i).token);
                }
            },
            '!' => {
                let matched = self.match_char('=');
                let tt = if matched {
                    TokenType::BangEqual
                } else {
                    TokenType::Bang
                };
                self.add_token(tt, None);
                proof {
                    lemma_push_is_concat(old(self)@.tokens, scan_step(src, i).token);
                }
            },
            '=' => {
                let matched = self.match_char('=');
                let tt = if matched {
                    TokenType::EqualEqual
                } else {
                    TokenType::Equal
                };
                self.add_token(tt, None);
                proof {
                    lemma_push_is_concat(old(self)@.tokens, scan_step(src, i).token);
                }
            },
            '<' => {
                let matched = self.match_char('=');
                let tt = if matched {
                    TokenType::LessEqual
                } else {
                    TokenType::Less
                };
                self.add_token(tt, None);
                proof {
                    lemma_push_is_concat(old(self)@.tokens, scan_step(src, i).token);
                }
            },
            '>' => {
                let matched = self.match_char('=');
                let tt = if matched {
                    TokenType::GreaterEqual
                } else {
                    TokenType::Greater
                };
                self.add_token(tt, None);
                proof {
                    lemma_push_is_concat(old(self)@.tokens, scan_step(src, i).token);
                }
            },
            '/' => {
                if self.match_char('/') {
                    while self.peek() != '\n' && !self.is_at_end()
                        invariant
                            self.wf(),
                            self@.source == src,
                            self@.start == i,
                            self@.tokens == old(self)@.tokens,
                            i + 2 <= self@.current <= src.len(),
                            forall|k: int|
                                i + 2 <= k < self@.current ==> #[trigger] src[k] != '\n',
                            self@.line == line_at(src, self@.current),
                        decreases src.len() - self@.current,
                    {
                        let _ = self.advance();
                        proof {
                            assert(self@.line == line_at(src, self@.current));
                        }
                    }
                    proof {
                        lemma_comment_end_from(src, i + 2, self@.current);
                        assert(self@.tokens =~= old(self)@.tokens + opt_token_seq(
                            scan_step(src, i).token,
                        ));
                    }
                } else {
                    self.add_token(TokenType::Slash, None);
                    proof {
                        lemma_push_is_concat(old(self)@.tokens, scan_step(src, i).token);
                    }
                }
            },
            ' ' => {
                proof {
                    lemma_empty_concat(old(self)@.tokens);
                }
            },
            '\r' => {
                proof {
                    lemma_empty_concat(old(self)@.tokens);
                }
            },
            '\t' => {
                proof {
                    lemma_empty_concat(old(self)@.tokens);
                }
            },
            '\n' => {
                proof {
                    lemma_newline_count_bounds(src, 0, i);
                }
                self.line = self.line + 1;
                proof {
                    lemma_empty_concat(old(self)@.tokens);
                }
            },
            '"' => {
                self.string(rl);
            },
            _ => {
                if digit_char(c) {
                    self.number();
                } else if alpha_char(c) {
                    self.identifier();
                } else {
                    let msg = "Unexpected character".to_owned();
                    let line = self.line;
                    rl.error(line, msg);
                    proof {
                        lemma_empty_concat(old(self)@.tokens);
                        assert(final(rl)@.reports =~= old(rl)@.reports + opt_report_seq(
                            scan_step(src, i).report,
                        ));
                    }
                }
            },
        }
    }

    /// Run the scan to completion: repeatedly produce one token per
    /// maximal-munch step, then append the terminal EOF token. The scanner is
    /// consumed — a second conceptual run requires a fresh instance — so the
    /// returned sequence, and everything handed to the sink, is exactly what
    /// the model assigns to the source text.
    pub fn scan_tokens(self, rl: &mut RustyLocks) -> (tokens: Vec<Token>)
        requires
            self.fresh(),
        ensures
            token_models(tokens@) == scan_model(self@.source),
            final(rl)@.reports == old(rl)@.reports + scan_reports(self@.source),
            final(rl)@.had_error == (old(rl)@.had_error || scan_reports(self@.source).len() > 0),
    {
        let ghost src = self@.source;
        let mut this = self;
        proof {
            lemma_empty_concat_left(scan_state(src, 0).tokens);
            lemma_empty_concat_left_reports(scan_state(src, 0).reports);
            assert(old(rl)@.reports + scan_state(src, 0).reports =~= rl@.reports + scan_state(
                src,
                0,
            ).reports);
        }
        while !this.is_at_end()
            invariant
                this.wf(),
                this@.source == src,
                this@.line == line_at(src, this@.current),
                this@.tokens + scan_state(src, this@.current).tokens == scan_state(src, 0).tokens,
                old(rl)@.reports + scan_state(src, 0).reports == rl@.reports + scan_state(
                    src,
                    this@.current,
                ).reports,
                old(rl)@.reports.len() <= rl@.reports.len(),
                rl@.had_error == (old(rl)@.had_error || scan_state(src, 0).reports.len()
                    > scan_state(src, this@.current).reports.len()),
            decreases src.len() - this@.current,
        {
            this.start = this.current;
            let ghost pre = this@;
            let ghost rl_pre = rl@;
            this.scan_token(rl);
            proof {
                let s = scan_step(src, pre.current);
                lemma_scan_step_advances(src, pre.current);
                assert(scan_state(src, pre.current).tokens == opt_token_seq(s.token) + scan_state(
                    src,
                    s.next,
                ).tokens);
                assert(this@.tokens + scan_state(src, this@.current).tokens =~= scan_state(
                    src,
                    0,
                ).tokens);
                assert(rl@.reports + scan_state(src, this@.current).reports =~= old(rl)@.reports
                    + scan_state(src, 0).reports);
                assert(scan_state(src, pre.current).reports.len() == opt_report_seq(s.report).len()
                    + scan_state(src, s.next).reports.len());
                assert(rl@.reports.len() == rl_pre.reports.len() + opt_report_seq(s.report).len());
                assert((old(rl)@.reports + scan_state(src, 0).reports).len() == (rl_pre.reports
                    + scan_state(src, pre.current).reports).len());
                assert(old(rl)@.reports.len() + scan_state(src, 0).reports.len()
                    == rl_pre.reports.len() + scan_state(src, pre.current).reports.len());
            }
        }
        proof {
            assert(scan_state(src, this@.current).tokens =~= Seq::<TokenModel>::empty());
            assert(scan_state(src, this@.current).reports =~= Seq::<ReportModel>::empty());
            assert(this@.tokens + scan_state(src, this@.current).tokens =~= this@.tokens);
            assert(rl@.reports + scan_state(src, this@.current).reports =~= rl@.reports);
        }
        let line = this.line;
        let eof_lexeme = String::new();
        let t = Token::new(TokenType::EOF, eof_lexeme, LiteralValue::Null, line);
        let ghost tm = t@;
        this.tokens.push(t);
        proof {
            assert(tm == eof_token(src));
            assert(token_models(this.tokens@) =~= scan_state(src, 0).tokens.push(eof_token(src)));
        }
        this.tokens
    }
}

/// Appending one emitted token is the same as concatenating its singleton
/// sequence.
proof fn lemma_push_is_concat(ts: Seq<TokenModel>, t: Option<TokenModel>)
    requires
        t is Some,
    ensures
        ts.push(t->Some_0) == ts + opt_token_seq(t),
{
    assert(ts.push(t->Some_0) =~= ts + opt_token_seq(t));
}

/// Emitting nothing leaves a token sequence unchanged.
proof fn lemma_empty_concat(ts: Seq<TokenModel>)
    ensures
        ts == ts + Seq::<TokenModel>::empty(),
        ts + opt_token_seq(None) == ts,
{
    assert(ts + Seq::<TokenModel>::empty() =~= ts);
    assert(ts + opt_token_seq(None) =~= ts);
}

/// Concatenating on an empty accumulated prefix changes nothing.
proof fn lemma_empty_concat_left(ts: Seq<TokenModel>)
    ensures
        Seq::<TokenModel>::empty() + ts == ts,
{
    assert(Seq::<TokenModel>::empty() + ts =~= ts);
}

/// Concatenating on an empty accumulated prefix changes nothing.
proof fn lemma_empty_concat_left_reports(rs: Seq<ReportModel>)
    ensures
        Seq::<ReportModel>::empty() + rs == rs,
{
    assert(Seq::<ReportModel>::empty() + rs =~= rs);
}

/// The source text pre-decoded into its sequence of Unicode scalar values.
fn decode_chars(source: &str) -> (cs: Vec<char>)
    ensures
        cs@ == source@,
{
    let n = source.unicode_len();
    let mut cs: Vec<char> = Vec::new();
    let mut i: usize = 0;
    while i < n
        invariant
            i <= n,
            n == source@.len(),
            cs@ == source@.subrange(0, i as int),
        decreases n - i,
    {
        let c = source.get_char(i);
        cs.push(c);
        i = i + 1;
        proof {
            assert(cs@ =~= source@.subrange(0, i as int));
        }
    }
    proof {
        assert(cs@ =~= source@);
    }
    cs
}

/// ASCII decimal digit test.
fn digit_char(c: char) -> (b: bool)
    ensures
        b == is_digit_char(c),
{
    '0' <= c && c <= '9'
}

/// ASCII alphabetic test: does `c` have the shape of an identifier start?
fn alpha_char(c: char) -> (b: bool)
    ensures
        b == is_alpha_char(c),
{
    ('a' <= c && c <= 'z') || ('A' <= c && c <= 'Z')
}

/// Identifier-continuation test: ASCII alphanumeric or underscore.
fn ident_char(c: char) -> (b: bool)
    ensures
        b == is_ident_char(c),
{
    alpha_char(c) || digit_char(c) || c == '_'
}

/// Character-for-character comparison of a string with a literal spelling.
fn text_is(a: &String, spelling: &str) -> (b: bool)
    ensures
        b == (a@ == spelling@),
{
    let other: String = spelling.to_owned();
    a.eq(&other)
}

/// The reserved-word table lookup: exact, case-sensitive matching only.
fn keyword_kind(text: &String) -> (r: Option<TokenType>)
    ensures
        r == keyword_token_type(text@),
{
    if text_is(text, "and") {
        Some(TokenType::And)
    } else if text_is(text, "class") {
        Some(TokenType::Class)
    } else if text_is(text, "else") {
        Some(TokenType::Else)
    } else if text_is(text, "false") {
        Some(TokenType::False)
    } else if text_is(text, "for") {
        Some(TokenType::For)
    } else if text_is(text, "fun") {
        Some(TokenType::Fun)
    } else if text_is(text, "if") {
        Some(TokenType::If)
    } else if text_is(text, "nil") {
        Some(TokenType::Nil)
    } else if text_is(text, "or") {
        Some(TokenType::Or)
    } else if text_is(text, "print") {
        Some(TokenType::Print)
    } else if text_is(text, "return") {
        Some(TokenType::Return)
    } else if text_is(text, "super") {
        Some(TokenType::Super)
    } else if text_is(text, "this") {
        Some(TokenType::This)
    } else if text_is(text, "true") {
        Some(TokenType::True)
    } else if text_is(text, "var") {
        Some(TokenType::Var)
    } else if text_is(text, "while") {
        Some(TokenType::While)
    } else {
        None
    }
}

/// Relies on `String::push`: it appends exactly the one given character.
#[verifier::external_body]
fn push_char(s: &mut String, c: char)
    ensures
        final(s)@ == old(s)@.push(c),
{
    s.push(c);
}

} // verus!

