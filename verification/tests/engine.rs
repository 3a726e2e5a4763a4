use powder::lexer::{Lexer, Recognizer};
use powder::token::Token;

fn demo_lexer() -> Lexer {
    Lexer::new(&[
        Recognizer::Separators,
        Recognizer::Operators,
        Recognizer::Keywords,
        Recognizer::Literals,
        Recognizer::Identifiers,
    ])
}

#[test]
fn whitespace_only_input_is_fully_consumed() {
    // Whitespace-only input: the whole input counts as consumed and no
    // token is produced.
    let lexer = demo_lexer();
    let mut out: Vec<(Token, usize, usize)> = Vec::new();
    let consumed = lexer.tokenize_into_list(" \t\r\n", &mut out);
    assert_eq!(consumed, 4);
    assert!(out.is_empty());

    let mut out2: Vec<(Token, usize, usize)> = Vec::new();
    assert_eq!(lexer.tokenize_into_list("", &mut out2), 0);
    assert!(out2.is_empty());
}

#[test]
fn reconstruction_recovers_the_input() {
    // Concatenating every skip-gap and every match span, in order, rebuilds
    // the input exactly when it fully matches.
    let input = "var x =  12'345.678'9 ;";
    let lexer = demo_lexer();
    let mut out: Vec<(Token, usize, usize)> = Vec::new();
    let consumed = lexer.tokenize_into_list(input, &mut out);
    assert_eq!(consumed, input.len());

    let mut rebuilt = String::new();
    let mut prev = 0;
    for (_, start, len) in &out {
        rebuilt.push_str(&input[prev..*start]);
        rebuilt.push_str(&input[*start..*start + *len]);
        prev = *start + *len;
    }
    rebuilt.push_str(&input[prev..consumed]);
    assert_eq!(rebuilt, input);
}

#[test]
fn double_equals_is_one_token() {
    let lexer = demo_lexer();
    let mut out: Vec<(Token, usize, usize)> = Vec::new();
    let consumed = lexer.tokenize_into_list("==", &mut out);
    assert_eq!(consumed, 2);
    assert_eq!(out, vec![(Token::Equals, 0, 2)]);
}

#[test]
fn keyword_prefix_stays_one_identifier() {
    let lexer = demo_lexer();
    let mut out: Vec<(Token, usize, usize)> = Vec::new();
    let consumed = lexer.tokenize_into_list("ifx", &mut out);
    assert_eq!(consumed, 3);
    assert_eq!(out, vec![(Token::Identifier(String::from("ifx")), 0, 3)]);
}

#[test]
fn float_with_separators_is_one_token() {
    let lexer = demo_lexer();
    let mut out: Vec<(Token, usize, usize)> = Vec::new();
    let consumed = lexer.tokenize_into_list("12'345.678'9", &mut out);
    assert_eq!(consumed, 12);
    assert_eq!(out, vec![(Token::Float(String::from("12'345.678'9")), 0, 12)]);
}

#[test]
fn unterminated_string_stops_the_scan() {
    let lexer = demo_lexer();
    let mut out: Vec<(Token, usize, usize)> = Vec::new();
    let consumed = lexer.tokenize_into_list("\"abc", &mut out);
    assert_eq!(consumed, 0);
    assert!(out.is_empty());
}

#[test]
fn escaped_char_literal_is_one_token() {
    let lexer = demo_lexer();
    let mut out: Vec<(Token, usize, usize)> = Vec::new();
    let consumed = lexer.tokenize_into_list("'\\n'", &mut out);
    assert_eq!(consumed, 4);
    assert_eq!(out, vec![(Token::Character('\n'), 0, 4)]);
}

#[test]
fn identifier_at_input_end_is_scanned() {
    let lexer = demo_lexer();
    let mut out: Vec<(Token, usize, usize)> = Vec::new();
    let consumed = lexer.tokenize_into_list("abc", &mut out);
    assert_eq!(consumed, 3);
    assert_eq!(out, vec![(Token::Identifier(String::from("abc")), 0, 3)]);
}

#[test]
fn offsets_are_absolute_and_gaps_are_whitespace() {
    let lexer = demo_lexer();
    let mut out: Vec<(Token, usize, usize)> = Vec::new();
    let consumed = lexer.tokenize_into_list(" a  b", &mut out);
    assert_eq!(consumed, 5);
    assert_eq!(
        out,
        vec![
            (Token::Identifier(String::from("a")), 1, 1),
            (Token::Identifier(String::from("b")), 4, 1),
        ]
    );
}

#[test]
fn unmatched_content_is_reported_by_a_short_count() {
    // A backtick matches no recognizer: the scan stops there, and the
    // consumed count (token plus the skipped blank) falls short of the
    // input length.
    let lexer = demo_lexer();
    let mut out: Vec<(Token, usize, usize)> = Vec::new();
    let consumed = lexer.tokenize_into_list("a `b", &mut out);
    assert_eq!(consumed, 2);
    assert_eq!(out, vec![(Token::Identifier(String::from("a")), 0, 1)]);
}

#[test]
fn tokenize_skips_and_reads_one_token() {
    let lexer = demo_lexer();
    assert_eq!(lexer.tokenize("  if x"), Some((Token::If, 2, 2)));
    assert_eq!(lexer.tokenize("   "), None);
    assert_eq!(lexer.tokenize(""), None);
}

#[test]
fn tokenize_skipless_does_not_skip() {
    let lexer = demo_lexer();
    assert_eq!(lexer.tokenize_skipless("if x"), Some((Token::If, 2)));
    assert_eq!(lexer.tokenize_skipless(" if"), None);
}

#[test]
fn registration_order_decides_the_winner() {
    // First-match-wins: with identifiers registered before keywords, `if`
    // is an identifier; the other way around it is a keyword.
    let ident_first = Lexer::new(&[Recognizer::Identifiers, Recognizer::Keywords]);
    assert_eq!(
        ident_first.tokenize_skipless("if"),
        Some((Token::Identifier(String::from("if")), 2))
    );
    let keyword_first = Lexer::new(&[Recognizer::Keywords, Recognizer::Identifiers]);
    assert_eq!(keyword_first.tokenize_skipless("if"), Some((Token::If, 2)));
}

#[test]
fn added_recognizers_run_after_existing_ones() {
    let mut lexer = Lexer::new(&[]);
    assert_eq!(lexer.tokenize_skipless("x"), None);
    lexer.add(Recognizer::Keywords);
    assert_eq!(lexer.tokenize_skipless("x"), None);
    lexer.add(Recognizer::Identifiers);
    assert_eq!(lexer.tokenize_skipless("x"), Some((Token::Identifier(String::from("x")), 1)));
    // The earlier registration still wins where both match.
    assert_eq!(lexer.tokenize_skipless("if"), Some((Token::If, 2)));
}

#[test]
fn scanning_appends_to_the_callers_list() {
    let lexer = demo_lexer();
    let mut out: Vec<(Token, usize, usize)> = vec![(Token::Comma, 7, 1)];
    let consumed = lexer.tokenize_into_list("x", &mut out);
    assert_eq!(consumed, 1);
    assert_eq!(
        out,
        vec![(Token::Comma, 7, 1), (Token::Identifier(String::from("x")), 0, 1)]
    );
}

#[test]
fn a_small_program_lexes_completely() {
    let input = "fun main(a: i32) { return a == 1; }";
    let lexer = demo_lexer();
    let mut out: Vec<(Token, usize, usize)> = Vec::new();
    let consumed = lexer.tokenize_into_list(input, &mut out);
    assert_eq!(consumed, input.len());
    let tokens: Vec<Token> = out.iter().map(|r| r.0.clone()).collect();
    assert_eq!(
        tokens,
        vec![
            Token::Function,
            Token::Identifier(String::from("main")),
            Token::ParenthesesOpen,
            Token::Identifier(String::from("a")),
            Token::Colon,
            Token::Identifier(String::from("i32")),
            Token::ParenthesesClose,
            Token::BracesOpen,
            Token::Ret,
            Token::Identifier(String::from("a")),
            Token::Equals,
            Token::Integer(String::from("1")),
            Token::Semicolon,
            Token::BracesClose,
        ]
    );
}
