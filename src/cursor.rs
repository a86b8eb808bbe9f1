use vstd::prelude::*;
use crate::chars::push_char;
use vstd::std_specs::iter::IteratorSpec;

verus! {

broadcast use vstd::string::group_string_axioms;

/// The end of the longest run, starting at `pos`, of characters of `s` that satisfy `pred`.
pub open spec fn run_end(s: Seq<char>, pos: int, pred: spec_fn(char) -> bool) -> int
    decreases s.len() - pos,
{
    if 0 <= pos < s.len() && pred(s[pos]) {
        run_end(s, pos + 1, pred)
    } else {
        pos
    }
}

/// The run ends at or after its start, and within `s` when it starts there.
pub proof fn lemma_run_end_bounds(s: Seq<char>, pos: int, pred: spec_fn(char) -> bool)
    requires
        0 <= pos <= s.len(),
    ensures
        pos <= run_end(s, pos, pred) <= s.len(),
        pos < s.len() && pred(s[pos]) ==> pos < run_end(s, pos, pred),
        forall|i: int| pos <= i < run_end(s, pos, pred) ==> pred(#[trigger] s[i]),
        run_end(s, pos, pred) == s.len() || !pred(s[run_end(s, pos, pred)]),
    decreases s.len() - pos,
{
    if pos < s.len() && pred(s[pos]) {
        lemma_run_end_bounds(s, pos + 1, pred);
    }
}

/// A run that holds on `[pos, end)` and stops at `end` is the longest run from `pos`.
pub proof fn lemma_run_end_unique(s: Seq<char>, pos: int, end: int, pred: spec_fn(char) -> bool)
    requires
        0 <= pos <= end <= s.len(),
        forall|i: int| pos <= i < end ==> pred(#[trigger] s[i]),
        end == s.len() || !pred(s[end]),
    ensures
        run_end(s, pos, pred) == end,
    decreases end - pos,
{
    if pos < end {
        lemma_run_end_unique(s, pos + 1, end, pred);
    }
}

/// A position in a sequence of characters, read one at a time with one character of lookahead.
pub struct Cursor {
    chars: Vec<char>,
    pos: usize,
}

impl Cursor {
    /// All the characters, those already read included.
    pub closed spec fn text(&self) -> Seq<char> {
        self.chars@
    }

    /// How many characters have been read.
    pub closed spec fn pos(&self) -> int {
        self.pos as int
    }

    pub open spec fn wf(&self) -> bool {
        0 <= self.pos() <= self.text().len()
    }

    /// A cursor at the first character of `source`.
    pub fn new(source: &str) -> (r: Cursor)
        ensures
            r.wf(),
            r.text() == source@,
            r.pos() == 0,
    {
        let mut it = source.chars();
        let mut chars: Vec<char> = Vec::new();
        loop
            invariant
                it.obeys_prophetic_iter_laws(),
                it.decrease() is Some,
                chars@ + it.remaining() == source@,
            ensures
                chars@ == source@,
            decreases it.decrease()->0,
        {
            match it.next() {
                Some(c) => {
                    chars.push(c);
                },
                None => {
                    assert(chars@ =~= source@);
                    break;
                },
            }
        }
        Cursor { chars, pos: 0 }
    }

    /// The next character, without reading it.
    pub fn peek(&self) -> (r: Option<char>)
        requires
            self.wf(),
        ensures
            r == (if self.pos() < self.text().len() {
                Some(self.text()[self.pos()])
            } else {
                None
            }),
    {
        if self.pos < self.chars.len() {
            Some(self.chars[self.pos])
        } else {
            None
        }
    }

    /// Reads the next character, if any is left.
    pub fn next(&mut self) -> (r: Option<char>)
        requires
            old(self).wf(),
        ensures
            final(self).wf(),
            final(self).text() == old(self).text(),
            r == (if old(self).pos() < old(self).text().len() {
                Some(old(self).text()[old(self).pos()])
            } else {
                None
            }),
            final(self).pos() == (if old(self).pos() < old(self).text().len() {
                old(self).pos() + 1
            } else {
                old(self).pos()
            }),
    {
        if self.pos < self.chars.len() {
            let c = self.chars[self.pos];
            self.pos = self.pos + 1;
            Some(c)
        } else {
            None
        }
    }
}

/// Reads characters while `predicate` holds of them, and returns them.
pub fn eat_while<F: Fn(char) -> bool>(chars: &mut Cursor, predicate: F) -> (lexeme: String)
    requires
        old(chars).wf(),
        forall|c: char| predicate.requires((c,)),
    ensures
        final(chars).wf(),
        final(chars).text() == old(chars).text(),
        old(chars).pos() <= final(chars).pos(),
        lexeme@ == old(chars).text().subrange(old(chars).pos(), final(chars).pos()),
        forall|i: int|
            old(chars).pos() <= i < final(chars).pos() ==> predicate.ensures(
                (#[trigger] old(chars).text()[i],),
                true,
            ),
        final(chars).pos() == final(chars).text().len() || predicate.ensures(
            (final(chars).text()[final(chars).pos()],),
            false,
        ),
{
    let ghost start = chars.pos();
    let mut lexeme = String::new();
    loop
        invariant
            chars.wf(),
            chars.text() == old(chars).text(),
            start == old(chars).pos(),
            start <= chars.pos(),
            lexeme@ == chars.text().subrange(start, chars.pos()),
            forall|c: char| predicate.requires((c,)),
            forall|i: int|
                start <= i < chars.pos() ==> predicate.ensures((#[trigger] chars.text()[i],), true),
        ensures
            chars.wf(),
            chars.text() == old(chars).text(),
            start <= chars.pos(),
            lexeme@ == chars.text().subrange(start, chars.pos()),
            forall|i: int|
                start <= i < chars.pos() ==> predicate.ensures((#[trigger] chars.text()[i],), true),
            chars.pos() == chars.text().len() || predicate.ensures(
                (chars.text()[chars.pos()],),
                false,
            ),
        decreases chars.text().len() - chars.pos(),
    {
        match chars.peek() {
            Some(ch) => {
                if predicate(ch) {
                    push_char(&mut lexeme, ch);
                    chars.next();
                    assert(lexeme@ =~= chars.text().subrange(start, chars.pos()));
                } else {
                    break;
                }
            },
            None => {
                break;
            },
        }
    }
    lexeme
}

} // verus!
