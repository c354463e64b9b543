//! The scanner itself: owns the source text and the cursor, and converts
//! the text into an ordered sequence of token results.

use vstd::prelude::*;

use crate::scan::{
    initial_state, is_blank, is_eof, lemma_scan_step_progress, scan_all, scan_step, skip_from,
    ScanState,
};
use crate::token::{SpecToken, Token, TokenType};
use vstd::string::StrSliceExecFns;

verus! {

/// Whether the scanner skips `c` silently: white space (Unicode's
/// `White_Space` property, the set `char::is_whitespace` accepts) other
/// than the newline.
fn blank(c: char) -> (r: bool)
    ensures
        r == is_blank(c),
{
    (matches!(c, ' ' | '\t' | '\n' | '\u{000B}' | '\u{000C}' | '\r' | '\u{0085}' | '\u{00A0}'
        | '\u{1680}' | '\u{2000}' | '\u{2001}' | '\u{2002}' | '\u{2003}' | '\u{2004}'
        | '\u{2005}' | '\u{2006}' | '\u{2007}' | '\u{2008}' | '\u{2009}' | '\u{200A}'
        | '\u{2028}' | '\u{2029}' | '\u{202F}' | '\u{205F}' | '\u{3000}')) && c != '\n'
}

/// The scanner: the source text together with the cursor state. `start`
/// marks where the current token's lexeme begins, `current` the next
/// unread character; `line` is 1-based and `column` 0-based, advanced by
/// one per consumed character and reset when a newline is consumed.
#[derive(Debug)]
pub struct Lexer {
    source: String,
    start: usize,
    current: usize,
    line: u32,
    column: u32,
}

/// A lexical error: the single "unexpected input" class, carrying the
/// rejected character as an `Error`-kind token for diagnostics.
#[derive(Debug)]
pub enum LexerError {
    UnexpectedInput(Token),
}

/// The outcome of scanning one token: a valid token, or the error for one
/// rejected character.
pub type TokenResult = Result<Token, LexerError>;

/// A whole pass over the source, in source order.
pub type Tokens = Vec<TokenResult>;

/// The mathematical reading of one scan result.
pub open spec fn result_view(r: TokenResult) -> Result<SpecToken, SpecToken> {
    match r {
        Ok(t) => Ok(t@),
        Err(LexerError::UnexpectedInput(t)) => Err(t@),
    }
}

/// The mathematical reading of a whole result sequence.
pub open spec fn results_view(rs: Seq<TokenResult>) -> Seq<Result<SpecToken, SpecToken>> {
    rs.map_values(|r: TokenResult| result_view(r))
}

impl Lexer {
    /// The source text under scan.
    pub closed spec fn src(&self) -> Seq<char> {
        self.source@
    }

    /// The cursor, as the scan model reads it.
    pub closed spec fn cursor(&self) -> ScanState {
        ScanState { pos: self.current as int, line: self.line as int, col: self.column as int }
    }

    /// Structural invariant of the scanner. The bound on the source length
    /// is a machine limit: `line` and `column` are 32-bit counters, and
    /// each grows by at most one per consumed character.
    pub closed spec fn wf(&self) -> bool {
        &&& self.start <= self.current <= self.source@.len()
        &&& 1 <= self.line <= self.current + 1
        &&& self.column <= self.current
        &&& self.source@.len() < u32::MAX
    }

    /// Constructs a scanner positioned at the start of `source`: line 1,
    /// column 0. The length bound is a machine limit of the 32-bit line
    /// and column counters.
    #[inline]
    pub fn new(source: String) -> (l: Lexer)
        requires
            source@.len() < u32::MAX,
        ensures
            l.wf(),
            l.src() == source@,
            l.cursor() == initial_state(),
    {
        Lexer { source, start: 0, current: 0, line: 1, column: 0 }
    }

    /// Whether the cursor stands at or past the end of the character
    /// sequence.
    fn is_at_end(&self) -> (r: bool)
        ensures
            r == (self.current >= self.source@.len()),
    {
        self.current >= self.source.as_str().unicode_len()
    }

    /// The next unconsumed character, if any; the cursor does not move.
    fn peek(&self) -> (r: Option<char>)
        ensures
            r == (if self.current < self.source@.len() {
                Some(self.source@[self.current as int])
            } else {
                None::<char>
            }),
    {
        if self.current < self.source.as_str().unicode_len() {
            Some(self.source.as_str().get_char(self.current))
        } else {
            None
        }
    }

    /// Consumes one character: the cursor and the column advance by one.
    fn advance(&mut self) -> (c: char)
        requires
            old(self).wf(),
            old(self).current < old(self).source@.len(),
        ensures
            final(self).wf(),
            final(self).source == old(self).source,
            final(self).start == old(self).start,
            final(self).current == old(self).current + 1,
            final(self).line == old(self).line,
            final(self).column == old(self).column + 1,
            c == old(self).source@[old(self).current as int],
    {
        let c = self.source.as_str().get_char(self.current);
        self.current = self.current + 1;
        self.column = self.column + 1;
        c
    }

    /// Skips the run of blanks under the cursor (white space other than
    /// newline), advancing the column per skipped character, and resets
    /// the lexeme start to the cursor.
    fn skip_whitespace(&mut self)
        requires
            old(self).wf(),
        ensures
            final(self).wf(),
            final(self).source == old(self).source,
            final(self).current == skip_from(old(self).source@, old(self).current as int),
            final(self).start == final(self).current,
            final(self).line == old(self).line,
            final(self).column == old(self).column + (final(self).current - old(self).current),
    {
        loop
            invariant
                self.wf(),
                self.source == old(self).source,
                old(self).current <= self.current,
                self.start == old(self).start,
                self.line == old(self).line,
                self.column == old(self).column + (self.current - old(self).current),
                skip_from(self.source@, self.current as int) == skip_from(
                    old(self).source@,
                    old(self).current as int,
                ),
            ensures
                self.wf(),
                self.source == old(self).source,
                self.line == old(self).line,
                self.column == old(self).column + (self.current - old(self).current),
                self.start == old(self).start,
                self.current == skip_from(old(self).source@, old(self).current as int),
            decreases self.source@.len() - self.current,
        {
            match self.peek() {
                Some(c) => {
                    if blank(c) {
                        self.advance();
                    } else {
                        break;
                    }
                },
                None => {
                    break;
                },
            }
        }

        self.start = self.current;
    }

    /// Builds a token of the given kind whose lexeme is the source text
    /// between the lexeme start and the cursor, at the recorded position.
    fn make_token(&self, token_type: TokenType) -> (t: Token)
        requires
            self.wf(),
        ensures
            t.token_type == token_type,
            t.lexeme@ == self.source@.subrange(self.start as int, self.current as int),
            t.line == self.line,
            t.column == self.column,
    {
        let lexeme = self.source.as_str().substring_char(self.start, self.current).to_owned();

        Token { token_type, lexeme, line: self.line, column: self.column }
    }

    /// Scans one token: resets the lexeme boundary, skips blanks, and
    /// consumes and classifies one character — or produces the end-of-file
    /// token when nothing (or only blank space) remains.
    fn scan_token(&mut self) -> (r: TokenResult)
        requires
            old(self).wf(),
        ensures
            final(self).wf(),
            final(self).source == old(self).source,
            result_view(r) == scan_step(old(self).source@, old(self).cursor()).0,
            final(self).cursor() == scan_step(old(self).source@, old(self).cursor()).1,
    {
        self.start = self.current;

        if self.is_at_end() {
            proof {
                assert(self.source@.subrange(self.start as int, self.current as int)
                    =~= Seq::<char>::empty());
            }
            return Ok(self.make_token(TokenType::EndOfFile));
        }
        self.skip_whitespace();

        if self.is_at_end() {
            // Only blank space remained: nothing is left to consume, so
            // the scan closes with the end-of-file token past the blanks.
            proof {
                assert(self.source@.subrange(self.start as int, self.current as int)
                    =~= Seq::<char>::empty());
            }
            return Ok(self.make_token(TokenType::EndOfFile));
        }
        let c = self.advance();

        proof {
            assert(self.source@.subrange(self.start as int, self.current as int) =~= seq![c]);
        }

        match c {
            '\n' => {
                let nl = self.make_token(TokenType::EndOfLine);
                self.line = self.line + 1;
                self.column = 0;
                Ok(nl)
            },
            '(' => Ok(self.make_token(TokenType::LeftParenthesis)),
            ')' => Ok(self.make_token(TokenType::RightParenthesis)),
            _ => Err(LexerError::UnexpectedInput(self.make_token(TokenType::Error))),
        }
    }

    /// Runs the scan loop to completion: every result produced, in source
    /// order, terminated by exactly one end-of-file token — scanning does
    /// not halt on a rejected character.
    pub fn lex(&mut self) -> (r: Tokens)
        requires
            old(self).wf(),
        ensures
            final(self).wf(),
            final(self).src() == old(self).src(),
            results_view(r@) == scan_all(old(self).src(), old(self).cursor()),
    {
        let mut tokens: Tokens = Vec::new();

        loop
            invariant_except_break
                scan_all(old(self).source@, old(self).cursor()) == results_view(tokens@)
                    + scan_all(self.source@, self.cursor()),
            invariant
                self.wf(),
                self.source == old(self).source,
            ensures
                self.wf(),
                self.source == old(self).source,
                scan_all(old(self).source@, old(self).cursor()) == results_view(tokens@),
            decreases self.source@.len() - self.current,
        {
            let ghost pre = self.cursor();
            let token = self.scan_token();
            let mut end = false;
            if let Ok(t) = &token {
                if t.token_type == TokenType::EndOfFile {
                    end = true;
                }
            }

            proof {
                lemma_scan_step_progress(old(self).source@, pre);
                assert(results_view(tokens@.push(token)) =~= results_view(tokens@).push(
                    result_view(token),
                ));
                assert(end == is_eof(scan_step(old(self).source@, pre).0));
                if end {
                    assert(scan_all(old(self).source@, old(self).cursor()) =~= results_view(
                        tokens@.push(token),
                    ));
                } else {
                    assert(scan_all(old(self).source@, old(self).cursor()) =~= results_view(
                        tokens@.push(token),
                    ) + scan_all(self.source@, self.cursor()));
                }
            }

            tokens.push(token);

            if end {
                break;
            }
        }

        tokens
    }
}

} // verus!
