use vstd::prelude::*;
use crate::chars::is_digit_char;
use crate::cursor::lemma_run_end_unique;
use crate::lexer::{digit_pred, lex, string_pred, SpannedView};
use crate::lexical_error::ScanError;
use crate::token::{canonical_digits, digits_value, strip_zeros, TokenView};

verus! {

/// Every character of `s` is a decimal digit.
pub open spec fn all_digits(s: Seq<char>) -> bool {
    forall|i: int| 0 <= i < s.len() ==> is_digit_char(#[trigger] s[i])
}

/// A leading zero does not change the value of a digit string.
pub proof fn lemma_leading_zero_value(d: Seq<char>)
    ensures
        digits_value(seq!['0'] + d) == digits_value(d),
    decreases d.len(),
{
    let z = seq!['0'] + d;
    if d.len() == 0 {
        assert(z.drop_last() =~= Seq::<char>::empty());
        assert(z.last() == '0');
        assert(digits_value(z) == digits_value(z.drop_last()) * 10);
    } else {
        assert(z.drop_last() =~= seq!['0'] + d.drop_last());
        assert(z.last() == d.last());
        lemma_leading_zero_value(d.drop_last());
        assert(digits_value(z) == digits_value(z.drop_last()) * 10 + (z.last() as nat
            - '0' as nat) as nat);
    }
}

/// Leading zeros stripped or not, a digit string has one value.
pub proof fn lemma_strip_zeros_value(d: Seq<char>)
    ensures
        digits_value(strip_zeros(d)) == digits_value(d),
    decreases d.len(),
{
    if d.len() > 0 && d[0] == '0' {
        assert(d =~= seq!['0'] + d.drop_first());
        lemma_leading_zero_value(d.drop_first());
        lemma_strip_zeros_value(d.drop_first());
    }
}

/// A non-empty text of digits alone scans to one number, on line 1, that holds exactly those
/// digits; so its value is the value of the text, and the number's lexeme has that value too.
pub proof fn lemma_digits_scan_to_their_number(s: Seq<char>)
    requires
        s.len() > 0,
        all_digits(s),
    ensures
        lex(s) == Ok::<Seq<SpannedView>, ScanError>(
            seq![(1nat, TokenView::Number { digits: s }, 1nat)],
        ),
        digits_value(canonical_digits(s)) == digits_value(s),
{
    lemma_run_end_unique(s, 0, s.len() as int, digit_pred());
    assert(s.subrange(0, s.len() as int) =~= s);
    reveal_with_fuel(crate::lexer::lex_from, 2);
    assert(seq![(1nat, TokenView::Number { digits: s }, 1nat)] + Seq::<SpannedView>::empty()
        =~= seq![(1nat, TokenView::Number { digits: s }, 1nat)]);
    lemma_strip_zeros_value(s);
    if strip_zeros(s).len() == 0 {
        lemma_leading_zero_value(Seq::<char>::empty());
        assert(seq!['0'] + Seq::<char>::empty() =~= seq!['0']);
        assert(strip_zeros(s) =~= Seq::<char>::empty());
    }
}

/// A quote, then text with no quote and no newline, then a quote, scans to one string token,
/// on line 1, whose value is that text as written.
pub proof fn lemma_quoted_text_scans_verbatim(content: Seq<char>)
    requires
        forall|i: int| 0 <= i < content.len() ==> #[trigger] content[i] != '"' && content[i] != '\n',
    ensures
        lex(seq!['"'] + content + seq!['"']) == Ok::<Seq<SpannedView>, ScanError>(
            seq![(1nat, TokenView::String { literal: content }, 1nat)],
        ),
{
    let s = seq!['"'] + content + seq!['"'];
    let end: int = content.len() as int + 1;
    assert(forall|i: int| 1 <= i < end ==> s[i] == content[i - 1]);
    lemma_run_end_unique(s, 1, end, string_pred());
    assert(s.subrange(1, end) =~= content);
    reveal_with_fuel(crate::lexer::lex_from, 2);
    assert(seq![(1nat, TokenView::String { literal: content }, 1nat)]
        + Seq::<SpannedView>::empty() =~= seq![(1nat, TokenView::String { literal: content }, 1nat)]);
}

/// A quote followed by text with no quote and no newline, up to the end of the input, is an
/// unterminated string on the line where the quote opened.
pub proof fn lemma_open_quote_at_end_is_unterminated(content: Seq<char>)
    requires
        forall|i: int| 0 <= i < content.len() ==> #[trigger] content[i] != '"' && content[i] != '\n',
    ensures
        lex(seq!['"'] + content) == Err::<Seq<SpannedView>, ScanError>(
            ScanError::UnterminatedString { line: 1 },
        ),
{
    let s = seq!['"'] + content;
    assert(forall|i: int| 1 <= i < s.len() ==> s[i] == content[i - 1]);
    lemma_run_end_unique(s, 1, s.len() as int, string_pred());
}

/// A newline met before the closing quote makes the string unterminated, and the error names
/// the line where the quote opened, not the line after the newline.
pub proof fn lemma_newline_in_string_is_unterminated(before: Seq<char>, after: Seq<char>)
    requires
        forall|i: int| 0 <= i < before.len() ==> #[trigger] before[i] != '"' && before[i] != '\n',
    ensures
        lex(seq!['"'] + before + seq!['\n'] + after) == Err::<Seq<SpannedView>, ScanError>(
            ScanError::UnterminatedString { line: 1 },
        ),
{
    let s = seq!['"'] + before + seq!['\n'] + after;
    let end: int = before.len() as int + 1;
    assert(forall|i: int| 1 <= i < end ==> s[i] == before[i - 1]);
    assert(s[end] == '\n');
    lemma_run_end_unique(s, 1, end, string_pred());
}

/// Scanning keeps no state between calls: two results that each meet `tokenize`'s contract
/// on one source are the same tokens with the same lines, or the same error.
pub proof fn lemma_tokenize_is_deterministic(
    source: Seq<char>,
    first: Result<Seq<SpannedView>, ScanError>,
    second: Result<Seq<SpannedView>, ScanError>,
)
    requires
        first == lex(source),
        second == lex(source),
    ensures
        first == second,
{
}

} // verus!
