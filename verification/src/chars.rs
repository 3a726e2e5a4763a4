use vstd::prelude::*;

verus! {

/// Whitespace that the skip function bypasses between tokens: space, tab,
/// newline and carriage return.
pub open spec fn is_wsp(c: char) -> bool {
    c == ' ' || c == '\t' || c == '\n' || c == '\r'
}

/// Executable mirror of [`is_wsp`].
pub fn is_wsp_char(c: char) -> (r: bool)
    ensures
        r == is_wsp(c),
{
    c == ' ' || c == '\t' || c == '\n' || c == '\r'
}

/// Letters as the lexical grammar understands them: the ASCII alphabet.
pub open spec fn is_alpha(c: char) -> bool {
    ('a' as u32 <= c as u32 && c as u32 <= 'z' as u32) || ('A' as u32 <= c as u32 && c as u32
        <= 'Z' as u32)
}

/// Executable mirror of [`is_alpha`].
pub fn is_alpha_char(c: char) -> (r: bool)
    ensures
        r == is_alpha(c),
{
    let u = c as u32;
    ('a' as u32 <= u && u <= 'z' as u32) || ('A' as u32 <= u && u <= 'Z' as u32)
}

/// Decimal digits.
pub open spec fn is_digit10(c: char) -> bool {
    '0' as u32 <= c as u32 && c as u32 <= '9' as u32
}

/// Executable mirror of [`is_digit10`].
pub fn is_digit10_char(c: char) -> (r: bool)
    ensures
        r == is_digit10(c),
{
    let u = c as u32;
    '0' as u32 <= u && u <= '9' as u32
}

/// A digit of the given radix (2, 8, 10 or 16); hexadecimal accepts both
/// letter cases.  No other radix has digits.
pub open spec fn is_digit_radix(c: char, radix: u32) -> bool {
    if radix == 2 {
        '0' as u32 <= c as u32 && c as u32 <= '1' as u32
    } else if radix == 8 {
        '0' as u32 <= c as u32 && c as u32 <= '7' as u32
    } else if radix == 10 {
        is_digit10(c)
    } else if radix == 16 {
        is_digit10(c) || ('a' as u32 <= c as u32 && c as u32 <= 'f' as u32) || ('A' as u32 <= c
            as u32 && c as u32 <= 'F' as u32)
    } else {
        false
    }
}

/// Executable mirror of [`is_digit_radix`].
pub fn is_digit_radix_char(c: char, radix: u32) -> (r: bool)
    ensures
        r == is_digit_radix(c, radix),
{
    let u = c as u32;
    if radix == 2 {
        '0' as u32 <= u && u <= '1' as u32
    } else if radix == 8 {
        '0' as u32 <= u && u <= '7' as u32
    } else if radix == 10 {
        '0' as u32 <= u && u <= '9' as u32
    } else if radix == 16 {
        ('0' as u32 <= u && u <= '9' as u32) || ('a' as u32 <= u && u <= 'f' as u32) || ('A' as u32
            <= u && u <= 'F' as u32)
    } else {
        false
    }
}

/// A character that may continue a word (keywords reject a match that is
/// immediately followed by one): a letter or a decimal digit.
pub open spec fn is_word_char(c: char) -> bool {
    is_alpha(c) || is_digit10(c)
}

/// Executable mirror of [`is_word_char`].
pub fn is_word_char_char(c: char) -> (r: bool)
    ensures
        r == is_word_char(c),
{
    is_alpha_char(c) || is_digit10_char(c)
}

/// Whether `pat` is a literal prefix of `text`, compared character by
/// character.
pub fn match_prefix(text: &str, pat: &str) -> (r: bool)
    ensures
        r == pat@.is_prefix_of(text@),
{
    let n = pat.unicode_len();
    let m = text.unicode_len();
    if n > m {
        return false;
    }
    let mut i: usize = 0;
    while i < n
        invariant
            i <= n,
            n == pat@.len(),
            m == text@.len(),
            n <= m,
            forall|j: int| 0 <= j < i ==> pat@[j] == text@[j],
        decreases n - i,
    {
        if text.get_char(i) != pat.get_char(i) {
            proof {
                assert(text@.subrange(0, n as int)[i as int] == text@[i as int]);
            }
            return false;
        }
        i += 1;
    }
    proof {
        assert(pat@ =~= text@.subrange(0, n as int));
    }
    true
}

/// Relies on `String::push` of std: appends the one character to the end of
/// the string.
#[verifier::external_body]
pub fn push_char(s: &mut String, c: char)
    ensures
        final (s)@ == old(s)@.push(c),
{
    s.push(c)
}

/// Dropping `i` characters and then one more is dropping `i + 1`.
pub proof fn lemma_skip_succ(s: Seq<char>, i: int)
    requires
        0 <= i < s.len(),
    ensures
        s.skip(i).skip(1) == s.skip(i + 1),
{
    assert(s.skip(i).skip(1) =~= s.skip(i + 1));
}

/// Dropping `i` characters and then `k` more is dropping `i + k`.
pub proof fn lemma_skip_add(s: Seq<char>, i: int, k: int)
    requires
        0 <= i,
        0 <= k,
        i + k <= s.len(),
    ensures
        s.skip(i).skip(k) == s.skip(i + k),
{
    assert(s.skip(i).skip(k) =~= s.skip(i + k));
}

} // verus!
