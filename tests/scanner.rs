use scanner::{
    eat_while, is_name_continue, is_name_start, is_whitespace, tokenize, uppercase_first, Cursor,
    Lexer, ScanError, Token,
};

fn number_digits(t: &Token) -> String {
    match t {
        Token::Number { digits } => digits.clone(),
        other => panic!("expected a number, got {:?}", other),
    }
}

#[test]
fn digits_scan_to_one_number() {
    let tokens = tokenize("12345".to_string()).unwrap();
    assert_eq!(tokens.len(), 1);
    assert_eq!(tokens[0].0, 1);
    assert_eq!(tokens[0].2, 1);
    assert_eq!(number_digits(&tokens[0].1), "12345");
    let value: f64 = number_digits(&tokens[0].1).parse().unwrap();
    assert_eq!(value, 12345.0);
}

#[test]
fn number_lexeme_drops_leading_zeros() {
    let tokens = tokenize("007 000".to_string()).unwrap();
    assert_eq!(tokens.len(), 2);
    assert_eq!(tokens[0].1.lexeme(), "7");
    assert_eq!(tokens[1].1.lexeme(), "0");
    assert_eq!(tokens[0].1.render(), "Number(7)");
}

#[test]
fn quoted_text_is_kept_verbatim() {
    let tokens = tokenize("\"a b\\n c\"".to_string()).unwrap();
    assert_eq!(tokens.len(), 1);
    match &tokens[0].1 {
        Token::String { literal } => assert_eq!(literal, "a b\\n c"),
        other => panic!("expected a string, got {:?}", other),
    }
    assert_eq!(tokens[0].1.render(), "String(a b\\n c)");
}

#[test]
fn empty_string_literal() {
    let tokens = tokenize("\"\"".to_string()).unwrap();
    assert_eq!(tokens.len(), 1);
    assert!(matches!(&tokens[0].1, Token::String { literal } if literal.is_empty()));
}

#[test]
fn number_string_and_print_on_their_lines() {
    let tokens = tokenize("123\n   \"hello\"   print".to_string()).unwrap();
    assert_eq!(tokens.len(), 3);
    assert_eq!((tokens[0].0, tokens[0].2), (1, 1));
    assert_eq!(number_digits(&tokens[0].1), "123");
    assert_eq!((tokens[1].0, tokens[1].2), (2, 2));
    assert!(matches!(&tokens[1].1, Token::String { literal } if literal == "hello"));
    assert_eq!((tokens[2].0, tokens[2].2), (2, 2));
    assert!(matches!(tokens[2].1, Token::Print));
    let shown: Vec<String> = tokens.iter().map(|t| t.1.render()).collect();
    assert_eq!(shown, vec!["Number(123)", "String(hello)", "Print"]);
}

#[test]
fn unterminated_at_end_of_input() {
    assert_eq!(
        tokenize("\"abc".to_string()).unwrap_err(),
        ScanError::UnterminatedString { line: 1 }
    );
    assert_eq!(
        tokenize("\n\n\"abc".to_string()).unwrap_err(),
        ScanError::UnterminatedString { line: 3 }
    );
}

#[test]
fn unterminated_before_newline() {
    assert_eq!(
        tokenize("\"abc\ndef\"".to_string()).unwrap_err(),
        ScanError::UnterminatedString { line: 1 }
    );
}

#[test]
fn keywords_match_exactly() {
    let tokens = tokenize("true truee false none print printer".to_string()).unwrap();
    assert_eq!(tokens.len(), 6);
    assert!(matches!(tokens[0].1, Token::Boolean { literal: true }));
    assert!(matches!(&tokens[1].1, Token::Identifier { name } if name == "truee"));
    assert!(matches!(tokens[2].1, Token::Boolean { literal: false }));
    assert!(matches!(tokens[3].1, Token::NoneLiteral));
    assert!(matches!(tokens[4].1, Token::Print));
    assert!(matches!(&tokens[5].1, Token::Identifier { name } if name == "printer"));
}

#[test]
fn keyword_from_table() {
    assert!(matches!(Token::keyword_from("true"), Some(Token::Boolean { literal: true })));
    assert!(matches!(Token::keyword_from("false"), Some(Token::Boolean { literal: false })));
    assert!(matches!(Token::keyword_from("none"), Some(Token::NoneLiteral)));
    assert!(matches!(Token::keyword_from("print"), Some(Token::Print)));
    assert!(Token::keyword_from("True").is_none());
    assert!(Token::keyword_from("").is_none());
}

#[test]
fn unexpected_char_reports_current_line() {
    assert_eq!(
        tokenize("@".to_string()).unwrap_err(),
        ScanError::UnexpectedChar { ch: '@', line: 1 }
    );
    assert_eq!(
        tokenize("1\n2\n  @".to_string()).unwrap_err(),
        ScanError::UnexpectedChar { ch: '@', line: 3 }
    );
}

#[test]
fn first_error_wins() {
    assert_eq!(
        tokenize("x # \"open".to_string()).unwrap_err(),
        ScanError::UnexpectedChar { ch: '#', line: 1 }
    );
}

#[test]
fn tokenizing_twice_gives_the_same_tokens() {
    let src = "abc 42\n\"s\" none\r\n\tprint".to_string();
    let a = tokenize(src.clone()).unwrap();
    let b = tokenize(src).unwrap();
    assert_eq!(a.len(), b.len());
    for (x, y) in a.iter().zip(b.iter()) {
        assert_eq!((x.0, x.2), (y.0, y.2));
        assert_eq!(format!("{:?}", x.1), format!("{:?}", y.1));
    }
}

#[test]
fn empty_and_blank_inputs() {
    assert!(tokenize(String::new()).unwrap().is_empty());
    assert!(tokenize(" \t\r\n\n ".to_string()).unwrap().is_empty());
}

#[test]
fn names_with_digits_and_underscores() {
    let tokens = tokenize("_a1 b_2c é9".to_string()).unwrap();
    assert_eq!(tokens.len(), 3);
    assert!(matches!(&tokens[0].1, Token::Identifier { name } if name == "_a1"));
    assert!(matches!(&tokens[1].1, Token::Identifier { name } if name == "b_2c"));
    assert!(matches!(&tokens[2].1, Token::Identifier { name } if name == "é9"));
    assert_eq!(tokens[2].1.render(), "Identifier(é9)");
}

#[test]
fn number_then_name_split() {
    let tokens = tokenize("12ab".to_string()).unwrap();
    assert_eq!(tokens.len(), 2);
    assert_eq!(number_digits(&tokens[0].1), "12");
    assert!(matches!(&tokens[1].1, Token::Identifier { name } if name == "ab"));
}

#[test]
fn char_classes() {
    assert!(is_name_start('a'));
    assert!(is_name_start('_'));
    assert!(is_name_start('é'));
    assert!(!is_name_start('1'));
    assert!(!is_name_start(' '));
    assert!(is_name_continue('1'));
    assert!(is_name_continue('z'));
    assert!(!is_name_continue('-'));
    assert!(is_whitespace(' '));
    assert!(is_whitespace('\t'));
    assert!(is_whitespace('\r'));
    assert!(!is_whitespace('\n'));
}

#[test]
fn uppercase_first_maps_first_char() {
    assert_eq!(uppercase_first("none"), "None");
    assert_eq!(uppercase_first("print"), "Print");
    assert_eq!(uppercase_first(""), "");
    assert_eq!(uppercase_first("ß"), "SS");
}

#[test]
fn lexeme_and_rendering_of_each_kind() {
    let tokens = tokenize("3 \"x\" false id none print".to_string()).unwrap();
    let lexemes: Vec<String> = tokens.iter().map(|t| t.1.lexeme()).collect();
    assert_eq!(lexemes, vec!["3", "x", "false", "id", "none", "print"]);
    let shown: Vec<String> = tokens.iter().map(|t| t.1.render()).collect();
    assert_eq!(
        shown,
        vec!["Number(3)", "String(x)", "Boolean(false)", "Identifier(id)", "None", "Print"]
    );
}

#[test]
fn literal_and_statement_kinds() {
    let tokens = tokenize("3 \"x\" true id none print".to_string()).unwrap();
    let literal: Vec<bool> = tokens.iter().map(|t| t.1.is_literal()).collect();
    assert_eq!(literal, vec![true, true, true, false, false, false]);
    let statement: Vec<bool> = tokens.iter().map(|t| t.1.is_statement()).collect();
    assert_eq!(statement, vec![false, false, false, false, false, true]);
}

#[test]
fn lexer_steps_one_token_at_a_time() {
    let mut lexer = Lexer::new("a\n1");
    let first = lexer.next_token().unwrap().unwrap();
    assert_eq!((first.0, first.2), (1, 1));
    let second = lexer.next_token().unwrap().unwrap();
    assert_eq!((second.0, second.2), (2, 2));
    assert_eq!(number_digits(&second.1), "1");
    assert!(lexer.next_token().unwrap().is_none());
    assert!(lexer.next_token().unwrap().is_none());
}

#[test]
fn eat_while_stops_at_first_failure() {
    let mut cursor = Cursor::new("aab");
    let eaten = eat_while(&mut cursor, |c| c == 'a');
    assert_eq!(eaten, "aa");
    assert_eq!(cursor.peek(), Some('b'));
    assert_eq!(cursor.next(), Some('b'));
    assert_eq!(cursor.next(), None);
}
