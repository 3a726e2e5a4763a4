use vstd::prelude::*;

use crate::chars::{
    is_alpha, is_alpha_char, is_digit10, is_digit10_char, is_digit_radix, is_digit_radix_char,
    is_word_char, is_word_char_char, is_wsp, is_wsp_char, lemma_skip_add, lemma_skip_succ,
    match_prefix, push_char,
};
use crate::token::{tok_result, Token, TokenView};

verus! {

// ---------------------------------------------------------------------------
// Skipping whitespace
// ---------------------------------------------------------------------------
/// The number of leading whitespace characters of `s`.
pub open spec fn skip_count(s: Seq<char>) -> nat
    decreases s.len(),
{
    if s.len() > 0 && is_wsp(s[0]) {
        (1 + skip_count(s.skip(1))) as nat
    } else {
        0
    }
}

/// The whitespace count never exceeds the length, every counted character is
/// whitespace, and the first character past the count is not.
pub proof fn lemma_skip_count_bounds(s: Seq<char>)
    ensures
        skip_count(s) <= s.len(),
        forall|i: int| 0 <= i < skip_count(s) ==> is_wsp(s[i]),
        skip_count(s) < s.len() ==> !is_wsp(s[skip_count(s) as int]),
    decreases s.len(),
{
    if s.len() > 0 && is_wsp(s[0]) {
        lemma_skip_count_bounds(s.skip(1));
        assert forall|i: int| 0 <= i < skip_count(s) implies is_wsp(s[i]) by {
            if i > 0 {
                assert(is_wsp(s.skip(1)[i - 1]));
            }
        }
    }
}

/// On a string of whitespace alone the count is the whole length.
pub proof fn lemma_skip_count_all(s: Seq<char>)
    requires
        forall|i: int| 0 <= i < s.len() ==> is_wsp(s[i]),
    ensures
        skip_count(s) == s.len(),
    decreases s.len(),
{
    if s.len() > 0 {
        assert(is_wsp(s[0]));
        assert(forall|i: int| 0 <= i < s.skip(1).len() ==> s.skip(1)[i] == s[i + 1]);
        lemma_skip_count_all(s.skip(1));
    }
}

/// Counts the whitespace characters at the start of `text`; the engine
/// bypasses them before offering the rest to the recognizers.
pub fn skip(text: &str) -> (r: usize)
    ensures
        r == skip_count(text@),
        r <= text@.len(),
{
    let len = text.unicode_len();
    let mut i: usize = 0;
    proof {
        assert(text@.skip(0) =~= text@);
    }
    while i < len
        invariant
            i <= len,
            len == text@.len(),
            skip_count(text@) == i + skip_count(text@.skip(i as int)),
        decreases len - i,
    {
        proof {
            lemma_skip_count_bounds(text@.skip(i as int));
        }
        let c = text.get_char(i);
        if !is_wsp_char(c) {
            return i;
        }
        proof {
            lemma_skip_succ(text@, i as int);
            lemma_skip_count_bounds(text@.skip(i + 1));
        }
        i += 1;
    }
    proof {
        assert(text@.skip(len as int).len() == 0);
    }
    i
}

// ---------------------------------------------------------------------------
// Separators
// ---------------------------------------------------------------------------
/// The separator table: one-character patterns, tried in order, first hit
/// wins.
pub open spec fn separator_token(c: char) -> Option<TokenView> {
    if c == '.' {
        Some(TokenView::Period)
    } else if c == ',' {
        Some(TokenView::Comma)
    } else if c == ':' {
        Some(TokenView::Colon)
    } else if c == ';' {
        Some(TokenView::Semicolon)
    } else if c == '(' {
        Some(TokenView::ParenthesesOpen)
    } else if c == ')' {
        Some(TokenView::ParenthesesClose)
    } else if c == '[' {
        Some(TokenView::BracketsOpen)
    } else if c == ']' {
        Some(TokenView::BracketsClose)
    } else if c == '{' {
        Some(TokenView::BracesOpen)
    } else if c == '}' {
        Some(TokenView::BracesClose)
    } else {
        None
    }
}

/// What the separator recognizer returns on `s`.
pub open spec fn sep_match(s: Seq<char>) -> Option<(TokenView, nat)> {
    if s.len() >= 1 {
        match separator_token(s[0]) {
            Some(t) => Some((t, 1nat)),
            None => None,
        }
    } else {
        None
    }
}

/// Recognizes a separator at the start of `text`.
pub fn tokenize_separators(text: &str) -> (r: Option<(Token, usize)>)
    ensures
        tok_result(r) == sep_match(text@),
{
    if text.is_empty() {
        return None;
    }
    let c = text.get_char(0);
    if c == '.' {
        Some((Token::Period, 1))
    } else if c == ',' {
        Some((Token::Comma, 1))
    } else if c == ':' {
        Some((Token::Colon, 1))
    } else if c == ';' {
        Some((Token::Semicolon, 1))
    } else if c == '(' {
        Some((Token::ParenthesesOpen, 1))
    } else if c == ')' {
        Some((Token::ParenthesesClose, 1))
    } else if c == '[' {
        Some((Token::BracketsOpen, 1))
    } else if c == ']' {
        Some((Token::BracketsClose, 1))
    } else if c == '{' {
        Some((Token::BracesOpen, 1))
    } else if c == '}' {
        Some((Token::BracesClose, 1))
    } else {
        None
    }
}

// ---------------------------------------------------------------------------
// Operators
// ---------------------------------------------------------------------------
/// The two-character rows of the operator table.  All of them stand before
/// the one-character rows, so that `==` is found before `=`.
pub open spec fn operator2_token(a: char, b: char) -> Option<TokenView> {
    if a == '=' && b == '=' {
        Some(TokenView::Equals)
    } else if a == '<' && b == '>' {
        Some(TokenView::NotEqual)
    } else if a == '>' && b == '=' {
        Some(TokenView::GreaterEqual)
    } else if a == '<' && b == '=' {
        Some(TokenView::LesserEqual)
    } else if a == '+' && b == '+' {
        Some(TokenView::Increment)
    } else if a == '-' && b == '-' {
        Some(TokenView::Decrement)
    } else if a == '!' && b == '=' {
        Some(TokenView::ExclamationAssign)
    } else if a == '&' && b == '=' {
        Some(TokenView::AmpersandAssign)
    } else if a == '|' && b == '=' {
        Some(TokenView::VerticalPipeAssign)
    } else if a == '^' && b == '=' {
        Some(TokenView::CaretAssign)
    } else if a == '-' && b == '=' {
        Some(TokenView::MinusAssign)
    } else if a == '*' && b == '=' {
        Some(TokenView::StarAssign)
    } else if a == '/' && b == '=' {
        Some(TokenView::SlashAssign)
    } else if a == '%' && b == '=' {
        Some(TokenView::PercentAssign)
    } else if a == '~' && b == '=' {
        Some(TokenView::TildeAssign)
    } else if a == '@' && b == '=' {
        Some(TokenView::AtAssign)
    } else if a == '#' && b == '=' {
        Some(TokenView::PoundAssign)
    } else if a == '$' && b == '=' {
        Some(TokenView::DolarAssign)
    } else {
        None
    }
}

/// The one-character rows of the operator table.
pub open spec fn operator1_token(c: char) -> Option<TokenView> {
    if c == '=' {
        Some(TokenView::Assign)
    } else if c == '>' {
        Some(TokenView::Greater)
    } else if c == '<' {
        Some(TokenView::Lesser)
    } else if c == '!' {
        Some(TokenView::Exclamation)
    } else if c == '&' {
        Some(TokenView::Ampersand)
    } else if c == '|' {
        Some(TokenView::VerticalPipe)
    } else if c == '^' {
        Some(TokenView::Caret)
    } else if c == '+' {
        Some(TokenView::Plus)
    } else if c == '-' {
        Some(TokenView::Minus)
    } else if c == '*' {
        Some(TokenView::Star)
    } else if c == '/' {
        Some(TokenView::Slash)
    } else if c == '%' {
        Some(TokenView::Percent)
    } else if c == '~' {
        Some(TokenView::Tilde)
    } else if c == '@' {
        Some(TokenView::At)
    } else if c == '#' {
        Some(TokenView::NumberSign)
    } else if c == '$' {
        Some(TokenView::Dolar)
    } else {
        None
    }
}

/// What the operator recognizer returns on `s`: a two-character operator if
/// one starts here, else a one-character one.
pub open spec fn op_match(s: Seq<char>) -> Option<(TokenView, nat)> {
    if s.len() >= 2 && operator2_token(s[0], s[1]) is Some {
        match operator2_token(s[0], s[1]) {
            Some(t) => Some((t, 2nat)),
            None => None,
        }
    } else if s.len() >= 1 {
        match operator1_token(s[0]) {
            Some(t) => Some((t, 1nat)),
            None => None,
        }
    } else {
        None
    }
}

/// The two-character operator rows, executable.
fn operator2_exec(a: char, b: char) -> (r: Option<Token>)
    ensures
        match r {
            Some(t) => operator2_token(a, b) == Some(t@),
            None => operator2_token(a, b) is None,
        },
{
    if a == '=' && b == '=' {
        Some(Token::Equals)
    } else if a == '<' && b == '>' {
        Some(Token::NotEqual)
    } else if a == '>' && b == '=' {
        Some(Token::GreaterEqual)
    } else if a == '<' && b == '=' {
        Some(Token::LesserEqual)
    } else if a == '+' && b == '+' {
        Some(Token::Increment)
    } else if a == '-' && b == '-' {
        Some(Token::Decrement)
    } else if a == '!' && b == '=' {
        Some(Token::ExclamationAssign)
    } else if a == '&' && b == '=' {
        Some(Token::AmpersandAssign)
    } else if a == '|' && b == '=' {
        Some(Token::VerticalPipeAssign)
    } else if a == '^' && b == '=' {
        Some(Token::CaretAssign)
    } else if a == '-' && b == '=' {
        Some(Token::MinusAssign)
    } else if a == '*' && b == '=' {
        Some(Token::StarAssign)
    } else if a == '/' && b == '=' {
        Some(Token::SlashAssign)
    } else if a == '%' && b == '=' {
        Some(Token::PercentAssign)
    } else if a == '~' && b == '=' {
        Some(Token::TildeAssign)
    } else if a == '@' && b == '=' {
        Some(Token::AtAssign)
    } else if a == '#' && b == '=' {
        Some(Token::PoundAssign)
    } else if a == '$' && b == '=' {
        Some(Token::DolarAssign)
    } else {
        None
    }
}

/// The one-character operator rows, executable.
fn operator1_exec(c: char) -> (r: Option<Token>)
    ensures
        match r {
            Some(t) => operator1_token(c) == Some(t@),
            None => operator1_token(c) is None,
        },
{
    if c == '=' {
        Some(Token::Assign)
    } else if c == '>' {
        Some(Token::Greater)
    } else if c == '<' {
        Some(Token::Lesser)
    } else if c == '!' {
        Some(Token::Exclamation)
    } else if c == '&' {
        Some(Token::Ampersand)
    } else if c == '|' {
        Some(Token::VerticalPipe)
    } else if c == '^' {
        Some(Token::Caret)
    } else if c == '+' {
        Some(Token::Plus)
    } else if c == '-' {
        Some(Token::Minus)
    } else if c == '*' {
        Some(Token::Star)
    } else if c == '/' {
        Some(Token::Slash)
    } else if c == '%' {
        Some(Token::Percent)
    } else if c == '~' {
        Some(Token::Tilde)
    } else if c == '@' {
        Some(Token::At)
    } else if c == '#' {
        Some(Token::NumberSign)
    } else if c == '$' {
        Some(Token::Dolar)
    } else {
        None
    }
}

/// Recognizes an operator at the start of `text`; two-character operators
/// take precedence over their one-character prefixes.
pub fn tokenize_operators(text: &str) -> (r: Option<(Token, usize)>)
    ensures
        tok_result(r) == op_match(text@),
{
    let len = text.unicode_len();
    if len >= 2 {
        let a = text.get_char(0);
        let b = text.get_char(1);
        match operator2_exec(a, b) {
            Some(t) => {
                return Some((t, 2));
            },
            None => {},
        }
    }
    if len >= 1 {
        let c = text.get_char(0);
        match operator1_exec(c) {
            Some(t) => {
                return Some((t, 1));
            },
            None => {},
        }
    }
    None
}

// ---------------------------------------------------------------------------
// Keywords and boolean literals
// ---------------------------------------------------------------------------
/// The keyword table, in order: the first row whose pattern is a prefix of
/// `s`, with the pattern's length.
pub open spec fn kw_first(s: Seq<char>) -> Option<(TokenView, nat)> {
    if "module"@.is_prefix_of(s) {
        Some((TokenView::Module, "module"@.len()))
    } else if "import"@.is_prefix_of(s) {
        Some((TokenView::Import, "import"@.len()))
    } else if "export"@.is_prefix_of(s) {
        Some((TokenView::Export, "export"@.len()))
    } else if "var"@.is_prefix_of(s) {
        Some((TokenView::Variable, "var"@.len()))
    } else if "fun"@.is_prefix_of(s) {
        Some((TokenView::Function, "fun"@.len()))
    } else if "return"@.is_prefix_of(s) {
        Some((TokenView::Ret, "return"@.len()))
    } else if "as"@.is_prefix_of(s) {
        Some((TokenView::As, "as"@.len()))
    } else if "is"@.is_prefix_of(s) {
        Some((TokenView::Is, "is"@.len()))
    } else if "type"@.is_prefix_of(s) {
        Some((TokenView::Type, "type"@.len()))
    } else if "match"@.is_prefix_of(s) {
        Some((TokenView::Match, "match"@.len()))
    } else if "if"@.is_prefix_of(s) {
        Some((TokenView::If, "if"@.len()))
    } else if "else"@.is_prefix_of(s) {
        Some((TokenView::Else, "else"@.len()))
    } else if "_"@.is_prefix_of(s) {
        Some((TokenView::Discard, "_"@.len()))
    } else if "This"@.is_prefix_of(s) {
        Some((TokenView::ThisType, "This"@.len()))
    } else if "this"@.is_prefix_of(s) {
        Some((TokenView::ThisObj, "this"@.len()))
    } else {
        None
    }
}

/// A pattern match of length `n` in `s` stands on a word boundary: nothing
/// follows it, or what follows is neither a letter nor a digit.
pub open spec fn boundary_ok(s: Seq<char>, n: nat) -> bool {
    !(n < s.len() && is_word_char(s[n as int]))
}

/// What the keyword recognizer returns on `s`: the first matching row,
/// accepted only on a word boundary.  A boundary rejection ends the whole
/// call; later rows are not tried.
pub open spec fn kw_match(s: Seq<char>) -> Option<(TokenView, nat)> {
    match kw_first(s) {
        None => None,
        Some((t, n)) => if boundary_ok(s, n) {
            Some((t, n))
        } else {
            None
        },
    }
}

/// The keyword table, executable.
fn kw_first_exec(text: &str) -> (r: Option<(Token, usize)>)
    ensures
        tok_result(r) == kw_first(text@),
        r matches Some((t, n)) ==> n <= text@.len(),
{
    if match_prefix(text, "module") {
        Some((Token::Module, "module".unicode_len()))
    } else if match_prefix(text, "import") {
        Some((Token::Import, "import".unicode_len()))
    } else if match_prefix(text, "export") {
        Some((Token::Export, "export".unicode_len()))
    } else if match_prefix(text, "var") {
        Some((Token::Variable, "var".unicode_len()))
    } else if match_prefix(text, "fun") {
        Some((Token::Function, "fun".unicode_len()))
    } else if match_prefix(text, "return") {
        Some((Token::Ret, "return".unicode_len()))
    } else if match_prefix(text, "as") {
        Some((Token::As, "as".unicode_len()))
    } else if match_prefix(text, "is") {
        Some((Token::Is, "is".unicode_len()))
    } else if match_prefix(text, "type") {
        Some((Token::Type, "type".unicode_len()))
    } else if match_prefix(text, "match") {
        Some((Token::Match, "match".unicode_len()))
    } else if match_prefix(text, "if") {
        Some((Token::If, "if".unicode_len()))
    } else if match_prefix(text, "else") {
        Some((Token::Else, "else".unicode_len()))
    } else if match_prefix(text, "_") {
        Some((Token::Discard, "_".unicode_len()))
    } else if match_prefix(text, "This") {
        Some((Token::ThisType, "This".unicode_len()))
    } else if match_prefix(text, "this") {
        Some((Token::ThisObj, "this".unicode_len()))
    } else {
        None
    }
}

/// Recognizes a keyword at the start of `text`.  A match immediately
/// followed by a letter or digit is rejected, so that `if` is not found
/// inside `iffy`; a match at the end of the input is accepted.
pub fn tokenize_keyword(text: &str) -> (r: Option<(Token, usize)>)
    ensures
        tok_result(r) == kw_match(text@),
{
    match kw_first_exec(text) {
        None => None,
        Some((t, n)) => {
            let len = text.unicode_len();
            if n < len && is_word_char_char(text.get_char(n)) {
                None
            } else {
                Some((t, n))
            }
        },
    }
}

/// The boolean-literal table, in order.
pub open spec fn bool_first(s: Seq<char>) -> Option<(TokenView, nat)> {
    if "true"@.is_prefix_of(s) {
        Some((TokenView::Boolean(true), "true"@.len()))
    } else if "false"@.is_prefix_of(s) {
        Some((TokenView::Boolean(false), "false"@.len()))
    } else {
        None
    }
}

/// What the boolean recognizer returns on `s`: the first matching row,
/// accepted only on a word boundary, as for keywords.
pub open spec fn bool_match(s: Seq<char>) -> Option<(TokenView, nat)> {
    match bool_first(s) {
        None => None,
        Some((t, n)) => if boundary_ok(s, n) {
            Some((t, n))
        } else {
            None
        },
    }
}

/// The boolean-literal table, executable.
fn bool_first_exec(text: &str) -> (r: Option<(Token, usize)>)
    ensures
        tok_result(r) == bool_first(text@),
        r matches Some((t, n)) ==> n <= text@.len(),
{
    if match_prefix(text, "true") {
        Some((Token::Boolean(true), "true".unicode_len()))
    } else if match_prefix(text, "false") {
        Some((Token::Boolean(false), "false".unicode_len()))
    } else {
        None
    }
}

/// Recognizes a boolean literal (`true` or `false`) at the start of `text`,
/// with the same word-boundary rule as keywords.
pub fn tokenize_boolean(text: &str) -> (r: Option<(Token, usize)>)
    ensures
        tok_result(r) == bool_match(text@),
{
    match bool_first_exec(text) {
        None => None,
        Some((t, n)) => {
            let len = text.unicode_len();
            if n < len && is_word_char_char(text.get_char(n)) {
                None
            } else {
                Some((t, n))
            }
        },
    }
}

// ---------------------------------------------------------------------------
// Identifiers
// ---------------------------------------------------------------------------
/// A character that may stand at position `consumed` of an identifier: an
/// underscore or a letter anywhere, a decimal digit anywhere but first.
pub open spec fn is_ident_char(c: char, first: bool) -> bool {
    c == '_' || is_alpha(c) || (!first && is_digit10(c))
}

/// The length of the identifier run at the start of `s`, having already
/// consumed `consumed` identifier characters.
pub open spec fn ident_scan(s: Seq<char>, consumed: nat) -> nat
    decreases s.len(),
{
    if s.len() > 0 && is_ident_char(s[0], consumed == 0) {
        ident_scan(s.skip(1), consumed + 1)
    } else {
        consumed
    }
}

/// The identifier run never extends past the end of the text.
pub proof fn lemma_ident_scan_bounds(s: Seq<char>, consumed: nat)
    ensures
        consumed <= ident_scan(s, consumed) <= consumed + s.len(),
    decreases s.len(),
{
    if s.len() > 0 && is_ident_char(s[0], consumed == 0) {
        lemma_ident_scan_bounds(s.skip(1), consumed + 1);
    }
}

/// What the identifier recognizer returns on `s`: the maximal identifier
/// run, if it is not empty; a run that reaches the end of the input is a
/// valid identifier.
pub open spec fn ident_match(s: Seq<char>) -> Option<(TokenView, nat)> {
    let n = ident_scan(s, 0);
    if n == 0 {
        None
    } else {
        Some((TokenView::Identifier(s.subrange(0, n as int)), n))
    }
}

/// Recognizes an identifier at the start of `text`: an underscore or letter,
/// then underscores, letters and digits, up to the first character that fits
/// none of these or the end of the input.
pub fn tokenize_identifier(text: &str) -> (r: Option<(Token, usize)>)
    ensures
        tok_result(r) == ident_match(text@),
{
    let len = text.unicode_len();
    let mut i: usize = 0;
    proof {
        assert(text@.skip(0) =~= text@);
    }
    while i < len
        invariant
            i <= len,
            len == text@.len(),
            ident_scan(text@, 0) == ident_scan(text@.skip(i as int), i as nat),
        ensures
            i <= len,
            len == text@.len(),
            ident_scan(text@, 0) == i,
        decreases len - i,
    {
        let c = text.get_char(i);
        if !(c == '_' || is_alpha_char(c) || (i != 0 && is_digit10_char(c))) {
            proof {
                assert(text@.skip(i as int)[0] == text@[i as int]);
            }
            break;
        }
        proof {
            lemma_skip_succ(text@, i as int);
        }
        i += 1;
        proof {
            if i == len {
                assert(text@.skip(len as int).len() == 0);
            }
        }
    }
    if i == 0 {
        return None;
    }
    let payload = text.substring_char(0, i).to_owned();
    Some((Token::Identifier(payload), i))
}

// ---------------------------------------------------------------------------
// Numbers
// ---------------------------------------------------------------------------
/// The base-prefix table: `0b`/`0B` select binary, `0o`/`0O` octal,
/// `0x`/`0X` hexadecimal, each with a two-character prefix; anything else is
/// decimal with no prefix.
pub open spec fn base_prefix(s: Seq<char>) -> (u32, nat) {
    if s.len() >= 2 && s[0] == '0' && (s[1] == 'b' || s[1] == 'B') {
        (2u32, 2nat)
    } else if s.len() >= 2 && s[0] == '0' && (s[1] == 'o' || s[1] == 'O') {
        (8u32, 2nat)
    } else if s.len() >= 2 && s[0] == '0' && (s[1] == 'x' || s[1] == 'X') {
        (16u32, 2nat)
    } else {
        (10u32, 0nat)
    }
}

/// The scan over the characters after the base prefix.  `consumed` counts
/// accepted characters; `flt` records a consumed decimal point; `sep` is
/// true when a digit separator would be illegal here (at the start, or right
/// after another separator).  A digit of the radix is always accepted; a
/// separator only where `sep` allows it; a decimal point only in radix 10,
/// only once, and only after at least one accepted character.  The first
/// character that fits no rule ends the scan.
pub open spec fn num_scan(s: Seq<char>, radix: u32, consumed: nat, flt: bool, sep: bool) -> (
    nat,
    bool,
    bool,
)
    decreases s.len(),
{
    if s.len() == 0 {
        (consumed, flt, sep)
    } else if is_digit_radix(s[0], radix) {
        num_scan(s.skip(1), radix, consumed + 1, flt, false)
    } else if s[0] == '\'' && !sep {
        num_scan(s.skip(1), radix, consumed + 1, flt, true)
    } else if radix == 10 && s[0] == '.' && !flt && consumed > 0 {
        num_scan(s.skip(1), radix, consumed + 1, true, sep)
    } else {
        (consumed, flt, sep)
    }
}

/// The numeric scan never counts more characters than the text holds.
pub proof fn lemma_num_scan_bounds(s: Seq<char>, radix: u32, consumed: nat, flt: bool, sep: bool)
    ensures
        consumed <= num_scan(s, radix, consumed, flt, sep).0 <= consumed + s.len(),
    decreases s.len(),
{
    if s.len() == 0 {
    } else if is_digit_radix(s[0], radix) {
        lemma_num_scan_bounds(s.skip(1), radix, consumed + 1, flt, false);
    } else if s[0] == '\'' && !sep {
        lemma_num_scan_bounds(s.skip(1), radix, consumed + 1, flt, true);
    } else if radix == 10 && s[0] == '.' && !flt && consumed > 0 {
        lemma_num_scan_bounds(s.skip(1), radix, consumed + 1, true, sep);
    }
}

/// What the number recognizer returns on `s`: the base prefix plus the
/// scanned span, a `Float` when a decimal point was consumed and an
/// `Integer` otherwise, the payload being the exact matched text, prefix,
/// separators and point included.  No match when nothing was scanned or the
/// span ends on a digit separator.
pub open spec fn num_match(s: Seq<char>) -> Option<(TokenView, nat)> {
    let (radix, plen) = base_prefix(s);
    let (consumed, flt, sep) = num_scan(s.skip(plen as int), radix, 0, false, true);
    if consumed > 0 && !sep {
        let total = (plen + consumed) as nat;
        if flt {
            Some((TokenView::Float(s.subrange(0, total as int)), total))
        } else {
            Some((TokenView::Integer(s.subrange(0, total as int)), total))
        }
    } else {
        None
    }
}

/// Recognizes a numeric literal at the start of `text`.
pub fn tokenize_number(text: &str) -> (r: Option<(Token, usize)>)
    ensures
        tok_result(r) == num_match(text@),
{
    let len = text.unicode_len();
    let mut radix: u32 = 10;
    let mut plen: usize = 0;
    if len >= 2 && text.get_char(0) == '0' {
        let b = text.get_char(1);
        if b == 'b' || b == 'B' {
            radix = 2;
            plen = 2;
        } else if b == 'o' || b == 'O' {
            radix = 8;
            plen = 2;
        } else if b == 'x' || b == 'X' {
            radix = 16;
            plen = 2;
        }
    }
    proof {
        assert(base_prefix(text@) == (radix, plen as nat));
    }
    let mut i: usize = plen;
    let mut flt: bool = false;
    let mut sep: bool = true;
    while i < len
        invariant
            plen <= i <= len,
            len == text@.len(),
            base_prefix(text@) == (radix, plen as nat),
            num_scan(text@.skip(plen as int), radix, 0, false, true) == num_scan(
                text@.skip(i as int),
                radix,
                (i - plen) as nat,
                flt,
                sep,
            ),
        ensures
            plen <= i <= len,
            len == text@.len(),
            num_scan(text@.skip(plen as int), radix, 0, false, true) == ((i - plen) as nat, flt, sep),
        decreases len - i,
    {
        let c = text.get_char(i);
        proof {
            assert(text@.skip(i as int)[0] == text@[i as int]);
        }
        if is_digit_radix_char(c, radix) {
            sep = false;
        } else if c == '\'' && !sep {
            sep = true;
        } else if radix == 10 && c == '.' && !flt && i > plen {
            flt = true;
        } else {
            proof {
                assert(num_scan(text@.skip(i as int), radix, (i - plen) as nat, flt, sep) == ((i
                    - plen) as nat, flt, sep));
            }
            break;
        }
        proof {
            lemma_skip_succ(text@, i as int);
        }
        i += 1;
        proof {
            if i == len {
                assert(text@.skip(len as int).len() == 0);
            }
        }
    }
    if i > plen && !sep {
        let payload = text.substring_char(0, i).to_owned();
        let t = if flt {
            Token::Float(payload)
        } else {
            Token::Integer(payload)
        };
        Some((t, i))
    } else {
        None
    }
}

// ---------------------------------------------------------------------------
// Escape sequences, character literals, string literals
// ---------------------------------------------------------------------------
/// The escape table: a backslash then a selector character, each row
/// decoding to one character.
pub open spec fn esc_match(s: Seq<char>) -> Option<(char, nat)> {
    if s.len() >= 2 && s[0] == '\\' {
        if s[1] == '\'' {
            Some(('\'', 2nat))
        } else if s[1] == '"' {
            Some(('"', 2nat))
        } else if s[1] == '\\' {
            Some(('\\', 2nat))
        } else if s[1] == '0' {
            Some(('\0', 2nat))
        } else if s[1] == 't' {
            Some(('\t', 2nat))
        } else if s[1] == 'r' {
            Some(('\r', 2nat))
        } else if s[1] == 'n' {
            Some(('\n', 2nat))
        } else {
            None
        }
    } else {
        None
    }
}

/// Decodes one escape sequence at the start of `text`: the decoded character
/// and the length of the matched sequence.
pub fn parse_escape_sequence(text: &str) -> (r: Option<(char, usize)>)
    ensures
        match r {
            Some((c, l)) => esc_match(text@) == Some((c, l as nat)),
            None => esc_match(text@) is None,
        },
{
    let len = text.unicode_len();
    if len < 2 {
        return None;
    }
    if text.get_char(0) != '\\' {
        return None;
    }
    let b = text.get_char(1);
    if b == '\'' {
        Some(('\'', 2))
    } else if b == '"' {
        Some(('"', 2))
    } else if b == '\\' {
        Some(('\\', 2))
    } else if b == '0' {
        Some(('\0', 2))
    } else if b == 't' {
        Some(('\t', 2))
    } else if b == 'r' {
        Some(('\r', 2))
    } else if b == 'n' {
        Some(('\n', 2))
    } else {
        None
    }
}

/// What the character-literal recognizer returns on `s`: a quote, a body
/// that is one escape sequence or exactly one raw character, and the closing
/// quote immediately after.  Any deviation is a plain no-match.
pub open spec fn char_match(s: Seq<char>) -> Option<(TokenView, nat)> {
    if s.len() >= 1 && s[0] == '\'' {
        let inside = s.skip(1);
        match esc_match(inside) {
            Some((c, l)) => if inside.len() > l && inside[l as int] == '\'' {
                Some((TokenView::Character(c), (l + 2) as nat))
            } else {
                None
            },
            None => if s.len() >= 3 && s[2] == '\'' {
                Some((TokenView::Character(s[1]), 3nat))
            } else {
                None
            },
        }
    } else {
        None
    }
}

/// Recognizes a character literal at the start of `text`.
pub fn tokenize_char(text: &str) -> (r: Option<(Token, usize)>)
    ensures
        tok_result(r) == char_match(text@),
{
    let len = text.unicode_len();
    if len == 0 || text.get_char(0) != '\'' {
        return None;
    }
    let inside = text.substring_char(1, len);
    proof {
        assert(inside@ =~= text@.skip(1));
    }
    match parse_escape_sequence(inside) {
        Some((c, l)) => {
            proof {
                assert(l == 2);
            }
            if l < len - 1 && inside.get_char(l) == '\'' {
                Some((Token::Character(c), l + 2))
            } else {
                None
            }
        },
        None => {
            if len >= 3 && text.get_char(2) == '\'' {
                Some((Token::Character(text.get_char(1)), 3))
            } else {
                None
            }
        },
    }
}

/// How an attempt at a token can fail.  `NoMatch`: the text does not begin
/// the expected form.  `UnterminatedLiteral`: an opening quote with no
/// closing quote before the end of the input; it carries the character
/// offset at which the scan ran out of text.
#[derive(Clone, Copy, Debug, PartialEq, Eq, Structural)]
pub enum LexError {
    NoMatch,
    UnterminatedLiteral(usize),
}

/// Scans the body of a string literal in `s` (the opening quote already
/// consumed), `acc` holding the characters decoded so far: at each position
/// a closing quote ends the literal, else an escape sequence decodes to one
/// character, else one raw character is taken verbatim.  On success, the
/// decoded body and the count of consumed characters, closing quote
/// included; `None` when the input ends first.
pub open spec fn str_scan(s: Seq<char>, acc: Seq<char>) -> Option<(Seq<char>, nat)>
    decreases s.len(),
{
    if s.len() == 0 {
        None
    } else if s[0] == '"' {
        Some((acc, 1nat))
    } else {
        match esc_match(s) {
            Some((c, l)) => match str_scan(s.skip(l as int), acc.push(c)) {
                Some((body, n)) => Some((body, (l + n) as nat)),
                None => None,
            },
            None => match str_scan(s.skip(1), acc.push(s[0])) {
                Some((body, n)) => Some((body, (1 + n) as nat)),
                None => None,
            },
        }
    }
}

/// A string body that closes consumes at least its closing quote and never
/// more than the text holds.
pub proof fn lemma_str_scan_bounds(s: Seq<char>, acc: Seq<char>)
    ensures
        str_scan(s, acc) matches Some((body, n)) ==> 1 <= n <= s.len(),
    decreases s.len(),
{
    if s.len() == 0 {
    } else if s[0] == '"' {
    } else {
        match esc_match(s) {
            Some((c, l)) => {
                lemma_str_scan_bounds(s.skip(l as int), acc.push(c));
            },
            None => {
                lemma_str_scan_bounds(s.skip(1), acc.push(s[0]));
            },
        }
    }
}

/// What scanning a string literal at the start of `s` yields: the decoded
/// token and the total consumed length, or the failure that stopped the
/// scan.
pub open spec fn str_scan_result(s: Seq<char>) -> Result<(TokenView, nat), LexError> {
    if s.len() >= 1 && s[0] == '"' {
        match str_scan(s.skip(1), Seq::<char>::empty()) {
            Some((body, n)) => Ok((TokenView::String(body), (1 + n) as nat)),
            None => Err(LexError::UnterminatedLiteral(s.len() as usize)),
        }
    } else {
        Err(LexError::NoMatch)
    }
}

/// [`str_scan_result`] with every failure collapsed to a plain no-match.
pub open spec fn str_match(s: Seq<char>) -> Option<(TokenView, nat)> {
    match str_scan_result(s) {
        Ok(r) => Some(r),
        Err(_) => None,
    }
}

/// Lifts the string scanner's result to the spec level.
pub open spec fn str_result(r: Result<(Token, usize), LexError>) -> Result<
    (TokenView, nat),
    LexError,
> {
    match r {
        Ok((t, n)) => Ok((t@, n as nat)),
        Err(e) => Err(e),
    }
}

/// Scans a string literal at the start of `text`: an opening quote, decoded
/// body characters, a closing quote.  The scan checks for the end of the
/// input at every step; a missing closing quote is reported as
/// [`LexError::UnterminatedLiteral`], never read past.
pub fn scan_string(text: &str) -> (r: Result<(Token, usize), LexError>)
    ensures
        str_result(r) == str_scan_result(text@),
{
    let len = text.unicode_len();
    if len == 0 || text.get_char(0) != '"' {
        return Err(LexError::NoMatch);
    }
    let mut stream = String::new();
    let mut i: usize = 1;
    while i < len
        invariant
            1 <= i <= len,
            len == text@.len(),
            text@[0] == '"',
            (match str_scan(text@.skip(i as int), stream@) {
                Some((body, n)) => str_scan(text@.skip(1), Seq::<char>::empty()) == Some::<
                    (Seq<char>, nat),
                >((body, (i - 1 + n) as nat)),
                None => str_scan(text@.skip(1), Seq::<char>::empty()) is None,
            }),
        decreases len - i,
    {
        let c = text.get_char(i);
        proof {
            assert(text@.skip(i as int)[0] == text@[i as int]);
        }
        if c == '"' {
            return Ok((Token::String(stream), i + 1));
        }
        let rest = text.substring_char(i, len);
        proof {
            assert(rest@ =~= text@.skip(i as int));
        }
        match parse_escape_sequence(rest) {
            Some((c2, l)) => {
                proof {
                    assert(l == 2);
                    lemma_skip_add(text@, i as int, 2);
                }
                push_char(&mut stream, c2);
                i += 2;
            },
            None => {
                proof {
                    lemma_skip_succ(text@, i as int);
                }
                push_char(&mut stream, c);
                i += 1;
            },
        }
    }
    proof {
        assert(text@.skip(len as int).len() == 0);
    }
    Err(LexError::UnterminatedLiteral(len))
}

/// Recognizes a string literal at the start of `text`; any failure,
/// including an unterminated literal, is a plain no-match here.
pub fn tokenize_string(text: &str) -> (r: Option<(Token, usize)>)
    ensures
        tok_result(r) == str_match(text@),
{
    match scan_string(text) {
        Ok((t, n)) => Some((t, n)),
        Err(_) => None,
    }
}

// ---------------------------------------------------------------------------
// Literals, combined
// ---------------------------------------------------------------------------
/// What the literal recognizer returns on `s`: booleans, then numbers, then
/// character literals, then string literals; the first success wins.
pub open spec fn lit_match(s: Seq<char>) -> Option<(TokenView, nat)> {
    match bool_match(s) {
        Some(r) => Some(r),
        None => match num_match(s) {
            Some(r) => Some(r),
            None => match char_match(s) {
                Some(r) => Some(r),
                None => str_match(s),
            },
        },
    }
}

/// Recognizes any literal at the start of `text`: boolean, number,
/// character or string, tried in that order.
pub fn tokenize_literal(text: &str) -> (r: Option<(Token, usize)>)
    ensures
        tok_result(r) == lit_match(text@),
{
    if let Some((t, n)) = tokenize_boolean(text) {
        return Some((t, n));
    }
    if let Some((t, n)) = tokenize_number(text) {
        return Some((t, n));
    }
    if let Some((t, n)) = tokenize_char(text) {
        return Some((t, n));
    }
    if let Some((t, n)) = tokenize_string(text) {
        return Some((t, n));
    }
    None
}

// ---------------------------------------------------------------------------
// Every recognizer consumes within bounds
// ---------------------------------------------------------------------------
/// A successful separator match consumes one character of the text.
pub proof fn lemma_sep_match_bounds(s: Seq<char>)
    ensures
        sep_match(s) matches Some((t, n)) ==> 0 < n <= s.len(),
{
}

/// A successful operator match consumes one or two characters of the text.
pub proof fn lemma_op_match_bounds(s: Seq<char>)
    ensures
        op_match(s) matches Some((t, n)) ==> 0 < n <= s.len(),
{
}

/// A successful keyword match consumes its pattern, which is never empty and
/// never longer than the text.
pub proof fn lemma_kw_match_bounds(s: Seq<char>)
    ensures
        kw_match(s) matches Some((t, n)) ==> 0 < n <= s.len(),
{
    reveal_strlit("module");
    reveal_strlit("import");
    reveal_strlit("export");
    reveal_strlit("var");
    reveal_strlit("fun");
    reveal_strlit("return");
    reveal_strlit("as");
    reveal_strlit("is");
    reveal_strlit("type");
    reveal_strlit("match");
    reveal_strlit("if");
    reveal_strlit("else");
    reveal_strlit("_");
    reveal_strlit("This");
    reveal_strlit("this");
}

/// A successful boolean match consumes its pattern, which is never empty and
/// never longer than the text.
pub proof fn lemma_bool_match_bounds(s: Seq<char>)
    ensures
        bool_match(s) matches Some((t, n)) ==> 0 < n <= s.len(),
{
    reveal_strlit("true");
    reveal_strlit("false");
}

/// A successful number match consumes at least one character and never more
/// than the text holds.
pub proof fn lemma_num_match_bounds(s: Seq<char>)
    ensures
        num_match(s) matches Some((t, n)) ==> 0 < n <= s.len(),
{
    let (radix, plen) = base_prefix(s);
    lemma_num_scan_bounds(s.skip(plen as int), radix, 0, false, true);
}

/// A successful character-literal match consumes three or four characters of
/// the text.
pub proof fn lemma_char_match_bounds(s: Seq<char>)
    ensures
        char_match(s) matches Some((t, n)) ==> 0 < n <= s.len(),
{
}

/// A successful string-literal match consumes at least its two quotes and
/// never more than the text holds.
pub proof fn lemma_str_match_bounds(s: Seq<char>)
    ensures
        str_match(s) matches Some((t, n)) ==> 0 < n <= s.len(),
{
    if s.len() >= 1 && s[0] == '"' {
        lemma_str_scan_bounds(s.skip(1), Seq::<char>::empty());
    }
}

/// A successful identifier match consumes at least one character and never
/// more than the text holds.
pub proof fn lemma_ident_match_bounds(s: Seq<char>)
    ensures
        ident_match(s) matches Some((t, n)) ==> 0 < n <= s.len(),
{
    lemma_ident_scan_bounds(s, 0);
}

/// A successful literal match consumes at least one character and never more
/// than the text holds.
pub proof fn lemma_lit_match_bounds(s: Seq<char>)
    ensures
        lit_match(s) matches Some((t, n)) ==> 0 < n <= s.len(),
{
    lemma_bool_match_bounds(s);
    lemma_num_match_bounds(s);
    lemma_char_match_bounds(s);
    lemma_str_match_bounds(s);
}

} // verus!
