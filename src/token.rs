use vstd::prelude::*;
use vstd::string::{StrSliceExecFns, StringExecFns};
use crate::chars::{char_to_uppercase, upper_of};

verus! {

broadcast use vstd::string::group_string_axioms;

/// A token together with the first and the last line it stands on.
pub type Spanned<T> = (usize, T, usize);

/// One lexical unit of the language, with its literal payload.
#[derive(Debug, Clone)]
pub enum Token {
    /// A numeric literal, kept as the decimal digits it was written with.
    Number { digits: String },
    /// A string literal, without its quotes and with no escape processed.
    String { literal: String },
    Boolean { literal: bool },
    Identifier { name: String },
    /// The keyword `none`.
    NoneLiteral,
    /// The keyword `print`, which begins a statement.
    Print,
}

/// The mathematical value of a `Token`.
pub enum TokenView {
    Number { digits: Seq<char> },
    String { literal: Seq<char> },
    Boolean { literal: bool },
    Identifier { name: Seq<char> },
    NoneLiteral,
    Print,
}

impl View for Token {
    type V = TokenView;

    open spec fn view(&self) -> TokenView {
        match self {
            Token::Number { digits } => TokenView::Number { digits: digits@ },
            Token::String { literal } => TokenView::String { literal: literal@ },
            Token::Boolean { literal } => TokenView::Boolean { literal: *literal },
            Token::Identifier { name } => TokenView::Identifier { name: name@ },
            Token::NoneLiteral => TokenView::NoneLiteral,
            Token::Print => TokenView::Print,
        }
    }
}

/// The value of a sequence of decimal digits, the last one being the units.
pub open spec fn digits_value(d: Seq<char>) -> nat
    decreases d.len(),
{
    if d.len() == 0 {
        0
    } else {
        digits_value(d.drop_last()) * 10 + (d.last() as nat - '0' as nat) as nat
    }
}

/// `d` without its leading zeros.
pub open spec fn strip_zeros(d: Seq<char>) -> Seq<char>
    decreases d.len(),
{
    if d.len() > 0 && d[0] == '0' {
        strip_zeros(d.drop_first())
    } else {
        d
    }
}

/// The shortest decimal text of the number that `d` writes: no leading zero, and `0` for zero.
pub open spec fn canonical_digits(d: Seq<char>) -> Seq<char> {
    if strip_zeros(d).len() == 0 {
        seq!['0']
    } else {
        strip_zeros(d)
    }
}

/// The reserved words and the tokens they stand for.
pub open spec fn keyword(w: Seq<char>) -> Option<TokenView> {
    if w == seq!['t', 'r', 'u', 'e'] {
        Some(TokenView::Boolean { literal: true })
    } else if w == seq!['f', 'a', 'l', 's', 'e'] {
        Some(TokenView::Boolean { literal: false })
    } else if w == seq!['n', 'o', 'n', 'e'] {
        Some(TokenView::NoneLiteral)
    } else if w == seq!['p', 'r', 'i', 'n', 't'] {
        Some(TokenView::Print)
    } else {
        None
    }
}

/// The source text that a token renders as.
pub open spec fn lexeme_of(t: TokenView) -> Seq<char> {
    match t {
        TokenView::Number { digits } => canonical_digits(digits),
        TokenView::String { literal } => literal,
        TokenView::Boolean { literal } => if literal {
            seq!['t', 'r', 'u', 'e']
        } else {
            seq!['f', 'a', 'l', 's', 'e']
        },
        TokenView::Identifier { name } => name,
        TokenView::NoneLiteral => seq!['n', 'o', 'n', 'e'],
        TokenView::Print => seq!['p', 'r', 'i', 'n', 't'],
    }
}

/// `s` with its first character mapped to upper case.
pub open spec fn uppercase_first_of(s: Seq<char>) -> Seq<char> {
    if s.len() == 0 {
        s
    } else {
        upper_of(s[0]) + s.subrange(1, s.len() as int)
    }
}

/// `kind(payload)`.
pub open spec fn tagged(kind: Seq<char>, payload: Seq<char>) -> Seq<char> {
    kind + seq!['('] + payload + seq![')']
}

/// How a token is shown to a reader: `Kind(payload)` for literals and identifiers, the
/// capitalised lexeme for the other keywords.
pub open spec fn rendering_of(t: TokenView) -> Seq<char> {
    match t {
        TokenView::Number { .. } => tagged(seq!['N', 'u', 'm', 'b', 'e', 'r'], lexeme_of(t)),
        TokenView::String { .. } => tagged(seq!['S', 't', 'r', 'i', 'n', 'g'], lexeme_of(t)),
        TokenView::Boolean { .. } => tagged(seq!['B', 'o', 'o', 'l', 'e', 'a', 'n'], lexeme_of(t)),
        TokenView::Identifier { .. } => tagged(
            seq!['I', 'd', 'e', 'n', 't', 'i', 'f', 'i', 'e', 'r'],
            lexeme_of(t),
        ),
        _ => uppercase_first_of(lexeme_of(t)),
    }
}

impl Token {
    /// The token that a reserved word stands for, or `None` for any other text.
    pub fn keyword_from(s: &str) -> (r: Option<Token>)
        ensures
            keyword(s@) == (match r {
                Some(t) => Some(t@),
                None => None,
            }),
    {
        proof {
            reveal_strlit("true");
            reveal_strlit("false");
            reveal_strlit("none");
            reveal_strlit("print");
            assert("true"@ =~= seq!['t', 'r', 'u', 'e']);
            assert("false"@ =~= seq!['f', 'a', 'l', 's', 'e']);
            assert("none"@ =~= seq!['n', 'o', 'n', 'e']);
            assert("print"@ =~= seq!['p', 'r', 'i', 'n', 't']);
        }
        let text = s.to_string();
        if text == "true".to_string() {
            Some(Token::Boolean { literal: true })
        } else if text == "false".to_string() {
            Some(Token::Boolean { literal: false })
        } else if text == "none".to_string() {
            Some(Token::NoneLiteral)
        } else if text == "print".to_string() {
            Some(Token::Print)
        } else {
            None
        }
    }

    /// The source text of the token: a number in its shortest decimal form, a string's
    /// content without quotes, an identifier's name, a keyword as written.
    pub fn lexeme(&self) -> (r: String)
        ensures
            r@ == lexeme_of(self@),
    {
        proof {
            reveal_strlit("true");
            reveal_strlit("false");
            reveal_strlit("none");
            reveal_strlit("print");
        }
        match self {
            Token::Number { digits } => number_text(digits.as_str()),
            Token::String { literal } => literal.clone(),
            Token::Boolean { literal } => if *literal {
                "true".to_string()
            } else {
                "false".to_string()
            },
            Token::Identifier { name } => name.clone(),
            Token::NoneLiteral => "none".to_string(),
            Token::Print => "print".to_string(),
        }
    }

    /// Numbers, strings and booleans.
    pub fn is_literal(&self) -> (r: bool)
        ensures
            r == (self@ is Number || self@ is String || self@ is Boolean),
    {
        match self {
            Token::Number { .. } | Token::String { .. } | Token::Boolean { .. } => true,
            _ => false,
        }
    }

    /// The tokens that begin a statement.
    pub fn is_statement(&self) -> (r: bool)
        ensures
            r == (self@ is Print),
    {
        match self {
            Token::Print => true,
            _ => false,
        }
    }

    /// The token as shown to a reader, such as `Number(3)` or `Print`.
    pub fn render(&self) -> (r: String)
        ensures
            r@ == rendering_of(self@),
    {
        let lexeme = self.lexeme();
        proof {
            reveal_strlit("Number(");
            reveal_strlit("String(");
            reveal_strlit("Boolean(");
            reveal_strlit("Identifier(");
            reveal_strlit(")");
        }
        let kind = match self {
            Token::Number { .. } => "Number(",
            Token::String { .. } => "String(",
            Token::Boolean { .. } => "Boolean(",
            Token::Identifier { .. } => "Identifier(",
            _ => {
                return uppercase_first(lexeme.as_str());
            },
        };
        let r = kind.to_string().concat(lexeme.as_str()).concat(")");
        assert(r@ =~= rendering_of(self@));
        r
    }
}

/// The shortest decimal text of the number that the digits `d` write.
fn number_text(d: &str) -> (r: String)
    ensures
        r@ == canonical_digits(d@),
{
    let n = d.unicode_len();
    let mut i: usize = 0;
    proof {
        assert(d@.subrange(0, n as int) =~= d@);
    }
    while i < n && d.get_char(i) == '0'
        invariant
            n == d@.len(),
            i <= n,
            strip_zeros(d@.subrange(i as int, n as int)) == strip_zeros(d@),
        decreases n - i,
    {
        assert(d@.subrange(i as int + 1, n as int) =~= d@.subrange(i as int, n as int).drop_first());
        i = i + 1;
    }
    if i == n {
        proof {
            reveal_strlit("0");
        }
        "0".to_string()
    } else {
        d.substring_char(i, n).to_string()
    }
}

/// `s` with its first character mapped to upper case; the empty string stays empty.
pub fn uppercase_first(s: &str) -> (r: String)
    ensures
        r@ == uppercase_first_of(s@),
{
    let n = s.unicode_len();
    if n == 0 {
        String::new()
    } else {
        let first = s.get_char(0);
        char_to_uppercase(first).concat(s.substring_char(1, n))
    }
}

} // verus!
