//! Mathematical model of scanning: what one scan step consumes and emits,
//! and what a whole scan of the source produces. The executable scanner in
//! [`crate::lexer`] is proved to follow this model exactly, and the general
//! properties of scanning are proved of the model here.

use vstd::prelude::*;

use crate::token::{SpecToken, TokenType};

verus! {

/// Whether `c` has Unicode's `White_Space` property: the characters the
/// scanner treats as inter-token space (together with the newline rule,
/// see [`is_blank`]).
pub open spec fn is_space(c: char) -> bool {
    ||| c == ' '
    ||| c == '\t'
    ||| c == '\n'
    ||| c == '\u{000B}'
    ||| c == '\u{000C}'
    ||| c == '\r'
    ||| c == '\u{0085}'
    ||| c == '\u{00A0}'
    ||| c == '\u{1680}'
    ||| c == '\u{2000}'
    ||| c == '\u{2001}'
    ||| c == '\u{2002}'
    ||| c == '\u{2003}'
    ||| c == '\u{2004}'
    ||| c == '\u{2005}'
    ||| c == '\u{2006}'
    ||| c == '\u{2007}'
    ||| c == '\u{2008}'
    ||| c == '\u{2009}'
    ||| c == '\u{200A}'
    ||| c == '\u{2028}'
    ||| c == '\u{2029}'
    ||| c == '\u{202F}'
    ||| c == '\u{205F}'
    ||| c == '\u{3000}'
}

/// A character the scanner skips silently: white space other than the
/// newline, which forms a token of its own.
pub open spec fn is_blank(c: char) -> bool {
    is_space(c) && c != '\n'
}

/// The scanner's cursor as the model sees it: index of the next unread
/// character, 1-based line, and 0-based column within that line.
#[verifier::ext_equal]
pub struct ScanState {
    pub pos: int,
    pub line: int,
    pub col: int,
}

impl ScanState {
    /// The cursor lies within the source.
    pub open spec fn in_bounds(self, src: Seq<char>) -> bool {
        0 <= self.pos <= src.len()
    }
}

/// The cursor of a freshly constructed scanner: start of the source,
/// line 1, column 0.
pub open spec fn initial_state() -> ScanState {
    ScanState { pos: 0, line: 1, col: 0 }
}

/// The first index at or after `pos` whose character is not skippable
/// blank space, or the end of `src` if blanks run to the end.
pub open spec fn skip_from(src: Seq<char>, pos: int) -> int
    decreases src.len() - pos,
{
    if pos < src.len() && is_blank(src[pos]) {
        skip_from(src, pos + 1)
    } else {
        pos
    }
}

/// Bounds of [`skip_from`]: it never moves backwards, never passes the end,
/// skips blanks only, and stops at the first non-blank character.
pub proof fn lemma_skip_from_bounds(src: Seq<char>, pos: int)
    requires
        0 <= pos <= src.len(),
    ensures
        pos <= skip_from(src, pos) <= src.len(),
        forall|i: int| pos <= i < skip_from(src, pos) ==> is_blank(src[i]),
        skip_from(src, pos) < src.len() ==> !is_blank(src[skip_from(src, pos)]),
    decreases src.len() - pos,
{
    if pos < src.len() && is_blank(src[pos]) {
        lemma_skip_from_bounds(src, pos + 1);
    }
}

/// The token a result carries, whether it is a regular token or the
/// payload of an error.
pub open spec fn token_of(r: Result<SpecToken, SpecToken>) -> SpecToken {
    match r {
        Ok(t) => t,
        Err(t) => t,
    }
}

/// The lexeme of the token a result carries.
pub open spec fn lexeme_of(r: Result<SpecToken, SpecToken>) -> Seq<char> {
    token_of(r).lexeme
}

/// A successful end-of-file token: the only result that ends a scan.
pub open spec fn is_eof(r: Result<SpecToken, SpecToken>) -> bool {
    match r {
        Ok(t) => t.token_type is EndOfFile,
        Err(_) => false,
    }
}

/// A successful end-of-line token.
pub open spec fn is_eol(r: Result<SpecToken, SpecToken>) -> bool {
    match r {
        Ok(t) => t.token_type is EndOfLine,
        Err(_) => false,
    }
}

/// One run of the scan-one-token algorithm from cursor `st`: the produced
/// result and the cursor afterwards.
///
/// At or past the end of the source the step yields the end-of-file token
/// at the current position. Otherwise the step skips a (possibly empty)
/// run of blanks; if only blanks remained, the step likewise yields the
/// end-of-file token, now past them. Otherwise exactly one character is
/// consumed and classified: a newline gives an `EndOfLine` token carrying
/// the pre-increment line number, after which the line advances and the
/// column resets; `(` and `)` give their parenthesis tokens; any other
/// character gives an error wrapping an `Error`-kind token whose lexeme is
/// that single character. A token's recorded column is the column of the
/// last (here: only) character consumed for it.
pub open spec fn scan_step(src: Seq<char>, st: ScanState) -> (Result<SpecToken, SpecToken>, ScanState) {
    if st.pos >= src.len() {
        (
            Ok(
                SpecToken {
                    token_type: TokenType::EndOfFile,
                    lexeme: Seq::empty(),
                    line: st.line,
                    column: st.col,
                },
            ),
            st,
        )
    } else {
        let p = skip_from(src, st.pos);
        let col = st.col + (p - st.pos);
        if p >= src.len() {
            (
                Ok(
                    SpecToken {
                        token_type: TokenType::EndOfFile,
                        lexeme: Seq::empty(),
                        line: st.line,
                        column: col,
                    },
                ),
                ScanState { pos: p, line: st.line, col },
            )
        } else {
            let c = src[p];
            if c == '\n' {
                (
                    Ok(
                        SpecToken {
                            token_type: TokenType::EndOfLine,
                            lexeme: seq![c],
                            line: st.line,
                            column: col + 1,
                        },
                    ),
                    ScanState { pos: p + 1, line: st.line + 1, col: 0 },
                )
            } else if c == '(' {
                (
                    Ok(
                        SpecToken {
                            token_type: TokenType::LeftParenthesis,
                            lexeme: seq![c],
                            line: st.line,
                            column: col + 1,
                        },
                    ),
                    ScanState { pos: p + 1, line: st.line, col: col + 1 },
                )
            } else if c == ')' {
                (
                    Ok(
                        SpecToken {
                            token_type: TokenType::RightParenthesis,
                            lexeme: seq![c],
                            line: st.line,
                            column: col + 1,
                        },
                    ),
                    ScanState { pos: p + 1, line: st.line, col: col + 1 },
                )
            } else {
                (
                    Err(
                        SpecToken {
                            token_type: TokenType::Error,
                            lexeme: seq![c],
                            line: st.line,
                            column: col + 1,
                        },
                    ),
                    ScanState { pos: p + 1, line: st.line, col: col + 1 },
                )
            }
        }
    }
}

/// A scan step stays within the source, never moves the cursor backwards,
/// and makes strict progress unless it produced the end-of-file token.
pub proof fn lemma_scan_step_progress(src: Seq<char>, st: ScanState)
    requires
        st.in_bounds(src),
    ensures
        ({
            let (r, st2) = scan_step(src, st);
            &&& st2.in_bounds(src)
            &&& st.pos <= st2.pos
            &&& !is_eof(r) ==> st.pos < st2.pos
        }),
{
    if st.pos < src.len() {
        lemma_skip_from_bounds(src, st.pos);
    }
}

/// Every result `tokenize` produces from cursor `st` on, in source order:
/// repeated scan steps up to and including the first end-of-file token.
pub open spec fn scan_all(src: Seq<char>, st: ScanState) -> Seq<Result<SpecToken, SpecToken>>
    decreases src.len() - st.pos,
        when st.in_bounds(src)
{
    let (r, st2) = scan_step(src, st);
    if is_eof(r) {
        seq![r]
    } else {
        proof {
            lemma_scan_step_progress(src, st);
        }
        seq![r] + scan_all(src, st2)
    }
}

/// A scan always terminates in the end-of-file token: the result sequence
/// is never empty, its final element is a successful end-of-file token,
/// and no earlier element is one.
pub proof fn lemma_scan_all_ends_in_eof(src: Seq<char>, st: ScanState)
    requires
        st.in_bounds(src),
    ensures
        scan_all(src, st).len() >= 1,
        is_eof(scan_all(src, st).last()),
        forall|i: int| 0 <= i < scan_all(src, st).len() - 1 ==> !is_eof(scan_all(src, st)[i]),
    decreases src.len() - st.pos,
{
    let (r, st2) = scan_step(src, st);
    lemma_scan_step_progress(src, st);
    if !is_eof(r) {
        lemma_scan_all_ends_in_eof(src, st2);
        assert(scan_all(src, st).last() == scan_all(src, st2).last());
    }
}

/// An error result always wraps a token whose lexeme is exactly one
/// character: the rejected character itself.
pub proof fn lemma_error_lexeme_is_one_char(src: Seq<char>, st: ScanState)
    requires
        st.in_bounds(src),
    ensures
        forall|i: int|
            0 <= i < scan_all(src, st).len() && scan_all(src, st)[i] is Err ==> lexeme_of(
                #[trigger] scan_all(src, st)[i],
            ).len() == 1,
    decreases src.len() - st.pos,
{
    let (r, st2) = scan_step(src, st);
    lemma_scan_step_progress(src, st);
    if !is_eof(r) {
        lemma_error_lexeme_is_one_char(src, st2);
        assert(forall|i: int|
            1 <= i < scan_all(src, st).len() ==> scan_all(src, st)[i] == scan_all(src, st2)[i - 1]);
    }
}

/// The run of blank space a scan step skips before its token.
pub open spec fn skipped_of(src: Seq<char>, st: ScanState) -> Seq<char> {
    if st.pos >= src.len() {
        Seq::empty()
    } else {
        src.subrange(st.pos, skip_from(src, st.pos))
    }
}

/// The characters a whole scan accounts for, in source order: each step's
/// skipped blank run followed by the lexeme of the token it emits (error
/// tokens carry their rejected character; the end-of-file lexeme is empty).
pub open spec fn accounted_text(src: Seq<char>, st: ScanState) -> Seq<char>
    decreases src.len() - st.pos,
        when st.in_bounds(src)
{
    let (r, st2) = scan_step(src, st);
    if is_eof(r) {
        skipped_of(src, st) + lexeme_of(r)
    } else {
        proof {
            lemma_scan_step_progress(src, st);
        }
        skipped_of(src, st) + lexeme_of(r) + accounted_text(src, st2)
    }
}

/// Lossless positional accounting: from cursor `st` to the end of the
/// source, every character is covered exactly once — either inside the
/// lexeme of an emitted token (error results included) or inside a skipped
/// blank run, in source order.
pub proof fn lemma_scan_accounts_for_every_char(src: Seq<char>, st: ScanState)
    requires
        st.in_bounds(src),
    ensures
        accounted_text(src, st) == src.subrange(st.pos, src.len() as int),
    decreases src.len() - st.pos,
{
    let (r, st2) = scan_step(src, st);
    lemma_scan_step_progress(src, st);
    if st.pos < src.len() {
        lemma_skip_from_bounds(src, st.pos);
    }
    if is_eof(r) {
        assert(accounted_text(src, st) =~= src.subrange(st.pos, src.len() as int));
    } else {
        lemma_scan_accounts_for_every_char(src, st2);
        assert(accounted_text(src, st) =~= src.subrange(st.pos, src.len() as int));
    }
}

/// Whatever a scan step skips is blank space: white space other than the
/// newline. Together with [`lemma_scan_accounts_for_every_char`] this says
/// that concatenating the skipped runs and the emitted lexemes, in their
/// original positions, reconstructs the source exactly.
pub proof fn lemma_skipped_is_blank(src: Seq<char>, st: ScanState)
    requires
        st.in_bounds(src),
    ensures
        forall|i: int| 0 <= i < skipped_of(src, st).len() ==> is_blank(#[trigger] skipped_of(src, st)[i]),
{
    if st.pos < src.len() {
        lemma_skip_from_bounds(src, st.pos);
    }
}

/// From a fresh scanner the accounting covers the entire source.
pub proof fn lemma_scan_reconstructs_source(src: Seq<char>)
    ensures
        accounted_text(src, initial_state()) == src,
{
    lemma_scan_accounts_for_every_char(src, initial_state());
    assert(src.subrange(0, src.len() as int) =~= src);
}

/// How many end-of-line tokens a result sequence holds.
pub open spec fn eol_count(rs: Seq<Result<SpecToken, SpecToken>>) -> int
    decreases rs.len(),
{
    if rs.len() == 0 {
        0
    } else {
        (if is_eol(rs[0]) {
            1int
        } else {
            0int
        }) + eol_count(rs.drop_first())
    }
}

proof fn lemma_eol_count_cons(r: Result<SpecToken, SpecToken>, s: Seq<Result<SpecToken, SpecToken>>)
    ensures
        eol_count(seq![r] + s) == (if is_eol(r) {
            1int
        } else {
            0int
        }) + eol_count(s),
{
    assert((seq![r] + s).drop_first() =~= s);
}

/// Per-step line and column discipline: every step records the line the
/// cursor stood on; after an end-of-line token the line has advanced by
/// exactly one and the column is reset to 0; any other step leaves the
/// line untouched.
pub proof fn lemma_line_and_column_per_step(src: Seq<char>, st: ScanState)
    requires
        st.in_bounds(src),
    ensures
        ({
            let (r, st2) = scan_step(src, st);
            &&& token_of(r).line == st.line
            &&& is_eol(r) ==> st2.col == 0 && st2.line == st.line + 1
            &&& !is_eol(r) ==> st2.line == st.line
        }),
{
}

/// Line numbering over a whole scan: the token at index `i` carries the
/// cursor's starting line plus the number of end-of-line tokens emitted
/// before it — from a fresh scanner the line starts at 1 and grows by
/// exactly one per end-of-line token.
pub proof fn lemma_line_numbering(src: Seq<char>, st: ScanState)
    requires
        st.in_bounds(src),
    ensures
        forall|i: int|
            0 <= i < scan_all(src, st).len() ==> token_of(#[trigger] scan_all(src, st)[i]).line
                == st.line + eol_count(scan_all(src, st).take(i)),
    decreases src.len() - st.pos,
{
    let (r, st2) = scan_step(src, st);
    let rs = scan_all(src, st);
    lemma_scan_step_progress(src, st);
    if is_eof(r) {
        assert(rs.take(0) =~= Seq::<Result<SpecToken, SpecToken>>::empty());
    } else {
        lemma_line_numbering(src, st2);
        let rest = scan_all(src, st2);
        assert forall|i: int|
            0 <= i < rs.len() implies token_of(#[trigger] rs[i]).line == st.line + eol_count(
            rs.take(i),
        ) by {
            if i == 0 {
                assert(rs.take(0) =~= Seq::<Result<SpecToken, SpecToken>>::empty());
            } else {
                assert(rs[i] == rest[i - 1]);
                assert(rs.take(i) =~= seq![r] + rest.take(i - 1));
                lemma_eol_count_cons(r, rest.take(i - 1));
            }
        }
    }
}

/// Scanning is deterministic: any two result sequences produced by fresh
/// scans of the same source are identical.
pub proof fn lemma_scan_deterministic(
    src: Seq<char>,
    rs1: Seq<Result<SpecToken, SpecToken>>,
    rs2: Seq<Result<SpecToken, SpecToken>>,
)
    requires
        rs1 == scan_all(src, initial_state()),
        rs2 == scan_all(src, initial_state()),
    ensures
        rs1 == rs2,
{
}

} // verus!
