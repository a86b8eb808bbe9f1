use vstd::prelude::*;
use crate::chars::{
    is_digit, is_digit_char, is_name_char, is_name_continue, is_name_start, is_name_start_char,
    is_whitespace, is_whitespace_char,
};
use crate::cursor::{eat_while, lemma_run_end_bounds, lemma_run_end_unique, run_end, Cursor};
use crate::lexical_error::ScanError;
use crate::token::{keyword, Spanned, Token, TokenView};

verus! {

/// A token with its first and last line, as numbers.
pub type SpannedView = (nat, TokenView, nat);

pub open spec fn spanned_view(t: Spanned<Token>) -> SpannedView {
    (t.0 as nat, t.1@, t.2 as nat)
}

pub open spec fn spans_view(v: Seq<Spanned<Token>>) -> Seq<SpannedView> {
    v.map_values(|t: Spanned<Token>| spanned_view(t))
}

/// The value of what `tokenize` returns.
pub open spec fn result_view(r: Result<Vec<Spanned<Token>>, ScanError>) -> Result<
    Seq<SpannedView>,
    ScanError,
> {
    match r {
        Ok(tokens) => Ok(spans_view(tokens@)),
        Err(e) => Err(e),
    }
}

/// What one request for the next token gives, from a position and a line.
pub enum Step {
    /// The input is exhausted.
    Done,
    /// A token, then the position and the line after it.
    Emit { token: SpannedView, pos: int, line: nat },
    /// Scanning stops with an error.
    Fail { error: ScanError },
}

pub open spec fn digit_pred() -> spec_fn(char) -> bool {
    |c: char| is_digit_char(c)
}

pub open spec fn name_pred() -> spec_fn(char) -> bool {
    |c: char| is_name_char(c)
}

/// Characters that may stand inside a string literal.
pub open spec fn string_pred() -> spec_fn(char) -> bool {
    |c: char| c != '"' && c != '\n'
}

/// A reserved word's token, or else an identifier.
pub open spec fn name_token(w: Seq<char>) -> TokenView {
    match keyword(w) {
        Some(t) => t,
        None => TokenView::Identifier { name: w },
    }
}

/// The next token of `s` from `pos`, on line `line`: blanks are passed over, each newline
/// adds one to the line, and the first other character decides the kind of token.
pub open spec fn scan_next(s: Seq<char>, pos: int, line: nat) -> Step
    decreases s.len() - pos,
{
    if pos < 0 || pos >= s.len() {
        Step::Done
    } else {
        let c = s[pos];
        if is_digit_char(c) {
            let end = run_end(s, pos, digit_pred());
            Step::Emit {
                token: (line, TokenView::Number { digits: s.subrange(pos, end) }, line),
                pos: end,
                line,
            }
        } else if c == '"' {
            let end = run_end(s, pos + 1, string_pred());
            if end < s.len() && s[end] == '"' {
                Step::Emit {
                    token: (line, TokenView::String { literal: s.subrange(pos + 1, end) }, line),
                    pos: end + 1,
                    line,
                }
            } else {
                Step::Fail { error: ScanError::UnterminatedString { line: line as usize } }
            }
        } else if is_name_start_char(c) {
            let end = run_end(s, pos, name_pred());
            Step::Emit { token: (line, name_token(s.subrange(pos, end)), line), pos: end, line }
        } else if c == '\n' {
            scan_next(s, pos + 1, line + 1)
        } else if is_whitespace_char(c) {
            scan_next(s, pos + 1, line)
        } else {
            Step::Fail { error: ScanError::UnexpectedChar { ch: c, line: line as usize } }
        }
    }
}

/// A token ends after the position it was asked from, and no later than the input; the line
/// grows by at most the characters passed over.
pub proof fn lemma_scan_next_advances(s: Seq<char>, pos: int, line: nat)
    requires
        0 <= pos,
    ensures
        scan_next(s, pos, line) matches Step::Emit { pos: p, line: l, .. } ==> pos < p <= s.len()
            && line <= l && l + pos <= line + p,
    decreases s.len() - pos,
{
    if 0 <= pos < s.len() {
        let c = s[pos];
        if is_digit_char(c) {
            lemma_run_end_bounds(s, pos, digit_pred());
        } else if c == '"' {
            lemma_run_end_bounds(s, pos + 1, string_pred());
        } else if is_name_start_char(c) {
            lemma_run_end_bounds(s, pos, name_pred());
        } else if c == '\n' {
            lemma_scan_next_advances(s, pos + 1, line + 1);
        } else if is_whitespace_char(c) {
            lemma_scan_next_advances(s, pos + 1, line);
        }
    }
}

/// `prefix` put before the tokens of `r`, or the error of `r`.
pub open spec fn prefix_with(
    prefix: Seq<SpannedView>,
    r: Result<Seq<SpannedView>, ScanError>,
) -> Result<Seq<SpannedView>, ScanError> {
    match r {
        Ok(rest) => Ok(prefix + rest),
        Err(e) => Err(e),
    }
}

/// All the tokens of `s` from `pos` on, or the first error.
pub open spec fn lex_from(s: Seq<char>, pos: int, line: nat) -> Result<Seq<SpannedView>, ScanError>
    decreases s.len() - pos,
    when 0 <= pos
{
    match scan_next(s, pos, line) {
        Step::Done => Ok(seq![]),
        Step::Fail { error } => Err(error),
        Step::Emit { token, pos: next, line: next_line } => {
            proof {
                lemma_scan_next_advances(s, pos, line);
            }
            prefix_with(seq![token], lex_from(s, next, next_line))
        },
    }
}

/// The tokens of the whole text `s`, which starts on line 1, or the first error.
pub open spec fn lex(s: Seq<char>) -> Result<Seq<SpannedView>, ScanError> {
    lex_from(s, 0, 1)
}

/// Scans the whole of `source`: every token in order with its lines, or the first error,
/// in which case no token is returned.
pub fn tokenize(source: String) -> (r: Result<Vec<Spanned<Token>>, ScanError>)
    requires
        source@.len() < usize::MAX,
    ensures
        result_view(r) == lex(source@),
{
    let mut lexer = Lexer::new(source.as_str());
    let mut tokens: Vec<Spanned<Token>> = Vec::new();
    proof {
        assert(spans_view(tokens@) =~= seq![]);
        lemma_prefix_empty(lex(source@));
    }
    loop
        invariant
            lexer.wf(),
            lexer.text() == source@,
            lex(source@) == prefix_with(
                spans_view(tokens@),
                lex_from(source@, lexer.pos(), lexer.line()),
            ),
        decreases source@.len() - lexer.pos(),
    {
        proof {
            lemma_scan_next_advances(source@, lexer.pos(), lexer.line());
        }
        match lexer.next_token() {
            Ok(Some(token)) => {
                let ghost prev = tokens@;
                tokens.push(token);
                proof {
                    assert(spans_view(tokens@) =~= spans_view(prev) + seq![spanned_view(token)]);
                    match lex_from(source@, lexer.pos(), lexer.line()) {
                        Ok(rest) => {
                            assert(spans_view(prev) + (seq![spanned_view(token)] + rest)
                                =~= spans_view(tokens@) + rest);
                        },
                        Err(_) => {},
                    }
                }
            },
            Ok(None) => {
                proof {
                    assert(spans_view(tokens@) + seq![] =~= spans_view(tokens@));
                }
                return Ok(tokens);
            },
            Err(e) => {
                return Err(e);
            },
        }
    }
}

/// Putting nothing before a result leaves it as it is.
proof fn lemma_prefix_empty(r: Result<Seq<SpannedView>, ScanError>)
    ensures
        prefix_with(seq![], r) == r,
{
    if let Ok(v) = r {
        assert(seq![] + v =~= v);
    }
}

/// A character that may stand inside a string literal: neither a quote nor a newline.
fn is_string_char(c: char) -> (r: bool)
    ensures
        r == (c != '"' && c != '\n'),
{
    c != '"' && c != '\n'
}

/// A character that may stand in a name after its first one.
fn is_name_part(c: char) -> (r: bool)
    ensures
        r == is_name_char(c),
{
    is_name_start(c) || is_name_continue(c)
}

/// The scanner: a cursor over the source and the line it stands on.
pub struct Lexer {
    chars: Cursor,
    line: usize,
}

impl Lexer {
    pub closed spec fn text(&self) -> Seq<char> {
        self.chars.text()
    }

    pub closed spec fn pos(&self) -> int {
        self.chars.pos()
    }

    pub closed spec fn line(&self) -> nat {
        self.line as nat
    }

    pub open spec fn wf(&self) -> bool {
        &&& 0 <= self.pos() <= self.text().len()
        &&& self.text().len() < usize::MAX
        &&& 1 <= self.line() <= self.pos() + 1
    }

    /// A scanner at the start of `source`, on line 1.
    pub fn new(source: &str) -> (r: Lexer)
        requires
            source@.len() < usize::MAX,
        ensures
            r.wf(),
            r.text() == source@,
            r.pos() == 0,
            r.line() == 1,
    {
        Lexer { chars: Cursor::new(source), line: 1 }
    }

    /// The next token, `None` once the input is exhausted, or the error that stops scanning.
    pub fn next_token(&mut self) -> (r: Result<Option<Spanned<Token>>, ScanError>)
        requires
            old(self).wf(),
        ensures
            final(self).wf(),
            final(self).text() == old(self).text(),
            match scan_next(old(self).text(), old(self).pos(), old(self).line()) {
                Step::Done => r matches Ok(None),
                Step::Fail { error } => r == Err::<Option<Spanned<Token>>, ScanError>(error),
                Step::Emit { token, pos, line } => r matches Ok(Some(t)) && spanned_view(t)
                    == token && final(self).pos() == pos && final(self).line() == line,
            },
    {
        loop
            invariant
                self.wf(),
                self.text() == old(self).text(),
                scan_next(self.text(), self.pos(), self.line()) == scan_next(
                    old(self).text(),
                    old(self).pos(),
                    old(self).line(),
                ),
            decreases self.text().len() - self.pos(),
        {
            match self.chars.peek() {
                None => {
                    return Ok(None);
                },
                Some(c) => {
                    if is_digit(c) {
                        return Ok(Some(self.next_number()));
                    } else if c == '"' {
                        return match self.next_string() {
                            Ok(t) => Ok(Some(t)),
                            Err(e) => Err(e),
                        };
                    } else if is_name_start(c) {
                        return Ok(Some(self.next_name()));
                    } else if c == '\n' {
                        self.chars.next();
                        self.line = self.line + 1;
                    } else if is_whitespace(c) {
                        self.chars.next();
                    } else {
                        return Err(ScanError::UnexpectedChar { ch: c, line: self.line });
                    }
                },
            }
        }
    }

    /// Reads a run of digits.
    fn next_number(&mut self) -> (r: Spanned<Token>)
        requires
            old(self).wf(),
            old(self).pos() < old(self).text().len(),
            is_digit_char(old(self).text()[old(self).pos()]),
        ensures
            final(self).wf(),
            final(self).text() == old(self).text(),
            final(self).line() == old(self).line(),
            final(self).pos() == run_end(old(self).text(), old(self).pos(), digit_pred()),
            spanned_view(r) == (
                old(self).line(),
                TokenView::Number {
                    digits: old(self).text().subrange(old(self).pos(), final(self).pos()),
                },
                old(self).line(),
            ),
    {
        let ghost start = self.pos();
        let digits = eat_while(
            &mut self.chars,
            is_digit,
        );
        proof {
            lemma_run_end_unique(self.text(), start, self.pos(), digit_pred());
        }
        (self.line, Token::Number { digits }, self.line)
    }

    /// Reads a string literal from its opening quote to its closing one.
    fn next_string(&mut self) -> (r: Result<Spanned<Token>, ScanError>)
        requires
            old(self).wf(),
            old(self).pos() < old(self).text().len(),
            old(self).text()[old(self).pos()] == '"',
        ensures
            final(self).wf(),
            final(self).text() == old(self).text(),
            final(self).line() == old(self).line(),
            ({
                let s = old(self).text();
                let end = run_end(s, old(self).pos() + 1, string_pred());
                if end < s.len() && s[end] == '"' {
                    r matches Ok(t) && final(self).pos() == end + 1 && spanned_view(t) == (
                        old(self).line(),
                        TokenView::String { literal: s.subrange(old(self).pos() + 1, end) },
                        old(self).line(),
                    )
                } else {
                    r == Err::<Spanned<Token>, ScanError>(
                        ScanError::UnterminatedString { line: old(self).line() as usize },
                    )
                }
            }),
    {
        let ghost start = self.pos() + 1;
        self.chars.next();
        let literal = eat_while(
            &mut self.chars,
            is_string_char,
        );
        proof {
            lemma_run_end_unique(self.text(), start, self.pos(), string_pred());
        }
        match self.chars.peek() {
            Some(c) => {
                if c == '"' {
                    self.chars.next();
                    return Ok((self.line, Token::String { literal }, self.line));
                }
            },
            None => {},
        }
        Err(ScanError::UnterminatedString { line: self.line })
    }

    /// Reads a name: a keyword where the table has it, an identifier otherwise.
    fn next_name(&mut self) -> (r: Spanned<Token>)
        requires
            old(self).wf(),
            old(self).pos() < old(self).text().len(),
            is_name_start_char(old(self).text()[old(self).pos()]),
        ensures
            final(self).wf(),
            final(self).text() == old(self).text(),
            final(self).line() == old(self).line(),
            final(self).pos() == run_end(old(self).text(), old(self).pos(), name_pred()),
            spanned_view(r) == (
                old(self).line(),
                name_token(old(self).text().subrange(old(self).pos(), final(self).pos())),
                old(self).line(),
            ),
    {
        let ghost start = self.pos();
        let lexeme = eat_while(
            &mut self.chars,
            is_name_part,
        );
        proof {
            lemma_run_end_unique(self.text(), start, self.pos(), name_pred());
        }
        let token = match Token::keyword_from(lexeme.as_str()) {
            Some(t) => t,
            None => Token::Identifier { name: lexeme },
        };
        (self.line, token, self.line)
    }
}

} // verus!
