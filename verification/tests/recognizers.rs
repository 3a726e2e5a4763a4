use powder::lexers::{
    parse_escape_sequence, scan_string, skip, tokenize_boolean, tokenize_char, tokenize_identifier,
    tokenize_keyword, tokenize_literal, tokenize_number, tokenize_operators, tokenize_separators,
    tokenize_string, LexError,
};
use powder::token::Token;

#[test]
fn skip_counts_leading_whitespace() {
    assert_eq!(skip("  a"), 2);
    assert_eq!(skip("\t\r\n x"), 4);
    assert_eq!(skip("a  "), 0);
    assert_eq!(skip(""), 0);
    assert_eq!(skip("   "), 3);
}

#[test]
fn separators_match_one_character() {
    assert_eq!(tokenize_separators(".x"), Some((Token::Period, 1)));
    assert_eq!(tokenize_separators(",x"), Some((Token::Comma, 1)));
    assert_eq!(tokenize_separators(";"), Some((Token::Semicolon, 1)));
    assert_eq!(tokenize_separators("{}"), Some((Token::BracesOpen, 1)));
    assert_eq!(tokenize_separators("x."), None);
    assert_eq!(tokenize_separators(""), None);
}

#[test]
fn operators_prefer_two_character_patterns() {
    // "==" must be one Equals token, not two Assign tokens.
    assert_eq!(tokenize_operators("=="), Some((Token::Equals, 2)));
    assert_eq!(tokenize_operators("==="), Some((Token::Equals, 2)));
    assert_eq!(tokenize_operators("="), Some((Token::Assign, 1)));
    assert_eq!(tokenize_operators("<>"), Some((Token::NotEqual, 2)));
    assert_eq!(tokenize_operators("<x"), Some((Token::Lesser, 1)));
    assert_eq!(tokenize_operators("$="), Some((Token::DolarAssign, 2)));
    assert_eq!(tokenize_operators("$"), Some((Token::Dolar, 1)));
    assert_eq!(tokenize_operators("q"), None);
    assert_eq!(tokenize_operators(""), None);
}

#[test]
fn keywords_need_a_word_boundary() {
    assert_eq!(tokenize_keyword("if x"), Some((Token::If, 2)));
    assert_eq!(tokenize_keyword("if("), Some((Token::If, 2)));
    // A letter or digit right after the pattern rejects the match.
    assert_eq!(tokenize_keyword("iffy"), None);
    assert_eq!(tokenize_keyword("if9"), None);
    // A keyword at the very end of the input is accepted.
    assert_eq!(tokenize_keyword("if"), Some((Token::If, 2)));
    assert_eq!(tokenize_keyword("return"), Some((Token::Ret, 6)));
    // Case matters: the two `this` rows are distinct.
    assert_eq!(tokenize_keyword("This"), Some((Token::ThisType, 4)));
    assert_eq!(tokenize_keyword("this"), Some((Token::ThisObj, 4)));
    assert_eq!(tokenize_keyword("xif"), None);
}

#[test]
fn booleans_need_a_word_boundary() {
    assert_eq!(tokenize_boolean("true"), Some((Token::Boolean(true), 4)));
    assert_eq!(tokenize_boolean("false)"), Some((Token::Boolean(false), 5)));
    assert_eq!(tokenize_boolean("truex"), None);
    assert_eq!(tokenize_boolean("maybe"), None);
}

#[test]
fn identifiers_take_the_maximal_run() {
    assert_eq!(
        tokenize_identifier("_name1 ="),
        Some((Token::Identifier(String::from("_name1")), 6))
    );
    assert_eq!(tokenize_identifier("9lives"), None);
    assert_eq!(tokenize_identifier(" x"), None);
    assert_eq!(tokenize_identifier(""), None);
}

#[test]
fn identifier_at_end_of_input_is_accepted() {
    // The run reaching the very end of the text is a valid identifier.
    assert_eq!(tokenize_identifier("abc"), Some((Token::Identifier(String::from("abc")), 3)));
}

#[test]
fn numbers_keep_separators_and_prefix_in_the_payload() {
    assert_eq!(
        tokenize_number("12'345.678'9"),
        Some((Token::Float(String::from("12'345.678'9")), 12))
    );
    assert_eq!(tokenize_number("42;"), Some((Token::Integer(String::from("42")), 2)));
    // The base prefix is part of the consumed span and of the payload.
    assert_eq!(tokenize_number("0x1F"), Some((Token::Integer(String::from("0x1F")), 4)));
    assert_eq!(tokenize_number("0b102"), Some((Token::Integer(String::from("0b10")), 4)));
    assert_eq!(tokenize_number("0o77"), Some((Token::Integer(String::from("0o77")), 4)));
    assert_eq!(tokenize_number("12'3"), Some((Token::Integer(String::from("12'3")), 4)));
}

#[test]
fn numbers_reject_bad_separator_or_point_placement() {
    // A literal may not end on a digit separator.
    assert_eq!(tokenize_number("12'"), None);
    assert_eq!(tokenize_number("12''3"), None);
    assert_eq!(tokenize_number("'1"), None);
    // A decimal point needs a consumed character before it.
    assert_eq!(tokenize_number(".5"), None);
    // A second decimal point ends the literal.
    assert_eq!(tokenize_number("1.2.3"), Some((Token::Float(String::from("1.2")), 3)));
    assert_eq!(tokenize_number(""), None);
    assert_eq!(tokenize_number("x"), None);
}

#[test]
fn escape_sequences_decode_one_character() {
    assert_eq!(parse_escape_sequence("\\n"), Some(('\n', 2)));
    assert_eq!(parse_escape_sequence("\\t rest"), Some(('\t', 2)));
    assert_eq!(parse_escape_sequence("\\\\"), Some(('\\', 2)));
    assert_eq!(parse_escape_sequence("\\0"), Some(('\0', 2)));
    assert_eq!(parse_escape_sequence("\\'"), Some(('\'', 2)));
    assert_eq!(parse_escape_sequence("\\\""), Some(('"', 2)));
    assert_eq!(parse_escape_sequence("\\q"), None);
    assert_eq!(parse_escape_sequence("n"), None);
    assert_eq!(parse_escape_sequence("\\"), None);
}

#[test]
fn char_literals_decode_escapes() {
    // Quote, backslash-n, quote: one Character token holding a newline,
    // consuming exactly four characters.
    assert_eq!(tokenize_char("'\\n'"), Some((Token::Character('\n'), 4)));
    assert_eq!(tokenize_char("'a'"), Some((Token::Character('a'), 3)));
    assert_eq!(tokenize_char("'\\''"), Some((Token::Character('\''), 4)));
}

#[test]
fn char_literals_reject_malformed_bodies() {
    assert_eq!(tokenize_char("'ab'"), None);
    assert_eq!(tokenize_char("'a"), None);
    assert_eq!(tokenize_char("'"), None);
    assert_eq!(tokenize_char("''"), None);
    assert_eq!(tokenize_char("'\\q'"), None);
    assert_eq!(tokenize_char("a'"), None);
}

#[test]
fn string_literals_decode_their_body() {
    assert_eq!(tokenize_string("\"\""), Some((Token::String(String::new()), 2)));
    assert_eq!(tokenize_string("\"hi\""), Some((Token::String(String::from("hi")), 4)));
    assert_eq!(tokenize_string("\"a\\nb\""), Some((Token::String(String::from("a\nb")), 6)));
    assert_eq!(tokenize_string("\"a\\\"b\""), Some((Token::String(String::from("a\"b")), 6)));
    assert_eq!(tokenize_string("x\"y\""), None);
}

#[test]
fn unterminated_string_is_a_reported_failure() {
    // Opening quote, no closing quote: the scan stops at the end of the
    // input and reports where it ran out, instead of reading past it.
    assert_eq!(scan_string("\"abc"), Err(LexError::UnterminatedLiteral(4)));
    assert_eq!(tokenize_string("\"abc"), None);
    assert_eq!(scan_string("\""), Err(LexError::UnterminatedLiteral(1)));
    // An escape right before the end keeps the scan in bounds too.
    assert_eq!(scan_string("\"a\\"), Err(LexError::UnterminatedLiteral(3)));
}

#[test]
fn string_scan_reports_no_match_without_a_quote() {
    assert_eq!(scan_string("abc"), Err(LexError::NoMatch));
    assert_eq!(scan_string(""), Err(LexError::NoMatch));
}

#[test]
fn literal_recognizer_tries_the_families_in_order() {
    assert_eq!(tokenize_literal("true,"), Some((Token::Boolean(true), 4)));
    assert_eq!(tokenize_literal("12.5"), Some((Token::Float(String::from("12.5")), 4)));
    assert_eq!(tokenize_literal("'a'"), Some((Token::Character('a'), 3)));
    assert_eq!(tokenize_literal("\"hi\""), Some((Token::String(String::from("hi")), 4)));
    assert_eq!(tokenize_literal("name"), None);
}
