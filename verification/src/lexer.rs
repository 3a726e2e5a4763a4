use vstd::prelude::*;
use vstd::slice::slice_to_vec;

use crate::chars::is_wsp;
use crate::lexers::{
    char_match, ident_match, kw_match, lemma_char_match_bounds, lemma_ident_match_bounds,
    lemma_kw_match_bounds, lemma_lit_match_bounds, lemma_num_match_bounds, lemma_op_match_bounds,
    lemma_sep_match_bounds, lemma_skip_count_all, lemma_skip_count_bounds, lemma_str_match_bounds,
    lit_match, num_match, op_match, sep_match, skip, skip_count, str_match, tokenize_boolean,
    tokenize_char, tokenize_identifier, tokenize_keyword, tokenize_literal, tokenize_number,
    tokenize_operators, tokenize_separators, tokenize_string, bool_match,
};
use crate::token::{records_view, tok3_result, tok_result, Token, TokenView};

verus! {

/// One recognizer that the engine can register: each variant stands for one
/// of the token families of [`crate::lexers`].
#[derive(Clone, Copy, Debug, PartialEq, Eq, Structural)]
pub enum Recognizer {
    Separators,
    Operators,
    Keywords,
    Literals,
    Identifiers,
    Booleans,
    Numbers,
    Characters,
    Strings,
}

/// What one registered recognizer returns on `s`.
pub open spec fn rec_match(r: Recognizer, s: Seq<char>) -> Option<(TokenView, nat)> {
    match r {
        Recognizer::Separators => sep_match(s),
        Recognizer::Operators => op_match(s),
        Recognizer::Keywords => kw_match(s),
        Recognizer::Literals => lit_match(s),
        Recognizer::Identifiers => ident_match(s),
        Recognizer::Booleans => bool_match(s),
        Recognizer::Numbers => num_match(s),
        Recognizer::Characters => char_match(s),
        Recognizer::Strings => str_match(s),
    }
}

/// A successful recognizer consumes at least one character and never more
/// than the text holds; the engine's progress rests on this.
pub proof fn lemma_rec_match_bounds(r: Recognizer, s: Seq<char>)
    ensures
        rec_match(r, s) matches Some((t, n)) ==> 0 < n <= s.len(),
{
    lemma_sep_match_bounds(s);
    lemma_op_match_bounds(s);
    lemma_kw_match_bounds(s);
    lemma_lit_match_bounds(s);
    lemma_ident_match_bounds(s);
    lemma_num_match_bounds(s);
    lemma_char_match_bounds(s);
    lemma_str_match_bounds(s);
}

impl Recognizer {
    /// Runs this recognizer on the start of `text`.
    pub fn attempt(&self, text: &str) -> (r: Option<(Token, usize)>)
        ensures
            tok_result(r) == rec_match(*self, text@),
    {
        match self {
            Recognizer::Separators => tokenize_separators(text),
            Recognizer::Operators => tokenize_operators(text),
            Recognizer::Keywords => tokenize_keyword(text),
            Recognizer::Literals => tokenize_literal(text),
            Recognizer::Identifiers => tokenize_identifier(text),
            Recognizer::Booleans => tokenize_boolean(text),
            Recognizer::Numbers => tokenize_number(text),
            Recognizer::Characters => tokenize_char(text),
            Recognizer::Strings => tokenize_string(text),
        }
    }
}

/// What a registered sequence of recognizers returns on `s`: each is tried
/// in registration order and the first success wins.
pub open spec fn attempt_spec(rs: Seq<Recognizer>, s: Seq<char>) -> Option<(TokenView, nat)>
    decreases rs.len(),
{
    if rs.len() == 0 {
        None
    } else {
        match rec_match(rs[0], s) {
            Some(r) => Some(r),
            None => attempt_spec(rs.skip(1), s),
        }
    }
}

/// A successful attempt consumes at least one character and never more than
/// the text holds.
pub proof fn lemma_attempt_bounds(rs: Seq<Recognizer>, s: Seq<char>)
    ensures
        attempt_spec(rs, s) matches Some((t, n)) ==> 0 < n <= s.len(),
    decreases rs.len(),
{
    if rs.len() > 0 {
        lemma_rec_match_bounds(rs[0], s);
        lemma_attempt_bounds(rs.skip(1), s);
    }
}

/// What one whole scan step returns on `s`: the whitespace count, then the
/// first recognizer success on the rest; `(token, skip, consumed)`.
pub open spec fn tokenize_spec(rs: Seq<Recognizer>, s: Seq<char>) -> Option<(TokenView, nat, nat)> {
    let k = skip_count(s);
    match attempt_spec(rs, s.skip(k as int)) {
        None => None,
        Some((t, c)) => Some((t, k, c)),
    }
}

/// What a full scan of `s` from position `pos` produces: the match records,
/// each `(token, absolute start, length)`, and the final consumed length.
/// The scan stops at the end of the input or at the first position where,
/// after skipping whitespace, no recognizer matches; whitespace skipped
/// before that failure still counts as consumed.
pub open spec fn scan_spec(rs: Seq<Recognizer>, s: Seq<char>, pos: nat) -> (
    Seq<(TokenView, nat, nat)>,
    nat,
)
    decreases s.len() - pos,
    when pos <= s.len()
    via scan_spec_decreases
{
    if pos >= s.len() {
        (Seq::<(TokenView, nat, nat)>::empty(), pos)
    } else {
        let rest = s.skip(pos as int);
        let k = skip_count(rest);
        match attempt_spec(rs, rest.skip(k as int)) {
            None => (Seq::<(TokenView, nat, nat)>::empty(), (pos + k) as nat),
            Some((t, c)) => {
                let sub = scan_spec(rs, s, (pos + k + c) as nat);
                (seq![(t, (pos + k) as nat, c)] + sub.0, sub.1)
            },
        }
    }
}

#[via_fn]
proof fn scan_spec_decreases(rs: Seq<Recognizer>, s: Seq<char>, pos: nat) {
    if pos < s.len() {
        let rest = s.skip(pos as int);
        lemma_skip_count_bounds(rest);
        lemma_attempt_bounds(rs, rest.skip(skip_count(rest) as int));
    }
}

/// A scan never consumes past the end of the text nor gives consumed length
/// back.
pub proof fn lemma_scan_spec_bounds(rs: Seq<Recognizer>, s: Seq<char>, pos: nat)
    requires
        pos <= s.len(),
    ensures
        pos <= scan_spec(rs, s, pos).1 <= s.len(),
    decreases s.len() - pos,
{
    if pos < s.len() {
        let rest = s.skip(pos as int);
        let k = skip_count(rest);
        lemma_skip_count_bounds(rest);
        lemma_attempt_bounds(rs, rest.skip(k as int));
        match attempt_spec(rs, rest.skip(k as int)) {
            None => {},
            Some((t, c)) => {
                lemma_scan_spec_bounds(rs, s, (pos + k + c) as nat);
            },
        }
    }
}

/// Law: on input that is whitespace alone, a scan consumes the whole input
/// and produces no tokens.
pub proof fn lemma_scan_whitespace_only(rs: Seq<Recognizer>, s: Seq<char>)
    requires
        forall|i: int| 0 <= i < s.len() ==> is_wsp(s[i]),
    ensures
        scan_spec(rs, s, 0).0 == Seq::<(TokenView, nat, nat)>::empty(),
        scan_spec(rs, s, 0).1 == s.len(),
{
    if s.len() > 0 {
        assert(s.skip(0) =~= s);
        lemma_skip_count_all(s);
        assert(s.skip(s.len() as int).len() == 0);
        lemma_attempt_bounds(rs, s.skip(s.len() as int));
    }
}

/// The pieces of a scan laid end to end: before each match record the gap
/// that was skipped to reach it, then the record's span, and after the last
/// record the gap up to the final consumed position `fin`.
pub open spec fn glue(
    s: Seq<char>,
    records: Seq<(TokenView, nat, nat)>,
    from: nat,
    fin: nat,
) -> Seq<char>
    decreases records.len(),
{
    if records.len() == 0 {
        s.subrange(from as int, fin as int)
    } else {
        let (t, start, l) = records[0];
        s.subrange(from as int, start as int) + s.subrange(start as int, (start + l) as int)
            + glue(s, records.skip(1), (start + l) as nat, fin)
    }
}

/// Law: concatenating, in order, every skip-gap and every match span of a
/// scan yields exactly the consumed part of the input.
pub proof fn lemma_scan_reconstructs(rs: Seq<Recognizer>, s: Seq<char>, pos: nat)
    requires
        pos <= s.len(),
    ensures
        glue(s, scan_spec(rs, s, pos).0, pos, scan_spec(rs, s, pos).1) == s.subrange(
            pos as int,
            scan_spec(rs, s, pos).1 as int,
        ),
    decreases s.len() - pos,
{
    if pos < s.len() {
        let rest = s.skip(pos as int);
        let k = skip_count(rest);
        lemma_skip_count_bounds(rest);
        lemma_attempt_bounds(rs, rest.skip(k as int));
        match attempt_spec(rs, rest.skip(k as int)) {
            None => {},
            Some((t, c)) => {
                let next = (pos + k + c) as nat;
                lemma_scan_spec_bounds(rs, s, next);
                lemma_scan_reconstructs(rs, s, next);
                let sub = scan_spec(rs, s, next);
                let fin = sub.1;
                let rec = (t, (pos + k) as nat, c);
                let records = scan_spec(rs, s, pos).0;
                assert(records == seq![rec] + sub.0);
                assert(records[0] == rec);
                assert(records.skip(1) =~= sub.0);
                assert(s.subrange(pos as int, (pos + k) as int) + s.subrange(
                    (pos + k) as int,
                    next as int,
                ) + s.subrange(next as int, fin as int) =~= s.subrange(pos as int, fin as int));
            },
        }
    }
}

/// Match records chained from position `from`: each record's span starts at
/// or after `from` and ends within the input, only whitespace stands between
/// `from` and the span, and the remaining records chain on from the span's
/// end.
pub open spec fn records_chained(
    s: Seq<char>,
    records: Seq<(TokenView, nat, nat)>,
    from: nat,
) -> bool
    decreases records.len(),
{
    if records.len() == 0 {
        true
    } else {
        let (t, start, l) = records[0];
        &&& from <= start
        &&& start + l <= s.len()
        &&& (forall|j: int| from <= j < start ==> is_wsp(s[j]))
        &&& records_chained(s, records.skip(1), (start + l) as nat)
    }
}

/// Law: a scan's match records come in source order — every span lies within
/// the input, spans do not overlap, offsets never decrease, and each gap
/// between consecutive spans holds whitespace alone.
pub proof fn lemma_scan_records_chained(rs: Seq<Recognizer>, s: Seq<char>, pos: nat)
    requires
        pos <= s.len(),
    ensures
        records_chained(s, scan_spec(rs, s, pos).0, pos),
    decreases s.len() - pos,
{
    if pos < s.len() {
        let rest = s.skip(pos as int);
        let k = skip_count(rest);
        lemma_skip_count_bounds(rest);
        lemma_attempt_bounds(rs, rest.skip(k as int));
        match attempt_spec(rs, rest.skip(k as int)) {
            None => {},
            Some((t, c)) => {
                let next = (pos + k + c) as nat;
                lemma_scan_records_chained(rs, s, next);
                let sub = scan_spec(rs, s, next);
                let rec = (t, (pos + k) as nat, c);
                let records = scan_spec(rs, s, pos).0;
                assert(records[0] == rec);
                assert(records.skip(1) =~= sub.0);
                assert forall|j: int| pos <= j < pos + k implies is_wsp(s[j]) by {
                    assert(is_wsp(rest[j - pos]));
                }
            },
        }
    }
}

/// Law: when a scan consumes its whole input, its skip-gaps and match spans,
/// concatenated in order, rebuild the input exactly.
pub proof fn lemma_scan_reconstructs_input(rs: Seq<Recognizer>, s: Seq<char>)
    requires
        scan_spec(rs, s, 0).1 == s.len(),
    ensures
        glue(s, scan_spec(rs, s, 0).0, 0, s.len() as nat) == s,
{
    lemma_scan_reconstructs(rs, s, 0);
    assert(s.subrange(0, s.len() as int) =~= s);
}

/// The lexing engine: an ordered collection of recognizers, tried first to
/// last at each position, with whitespace skipped before every attempt.
pub struct Lexer {
    tokenizers: Vec<Recognizer>,
}

impl View for Lexer {
    type V = Seq<Recognizer>;

    closed spec fn view(&self) -> Seq<Recognizer> {
        self.tokenizers@
    }
}

impl Lexer {
    /// Builds an engine over the given recognizers, kept in order.
    pub fn new(tokenizers: &[Recognizer]) -> (r: Self)
        ensures
            r@ == tokenizers@,
    {
        Lexer { tokenizers: slice_to_vec(tokenizers) }
    }

    /// Registers one more recognizer, tried after every previously
    /// registered one.
    pub fn add(&mut self, tokenizer: Recognizer)
        ensures
            final (self)@ == old(self)@.push(tokenizer),
    {
        self.tokenizers.push(tokenizer);
    }

    /// Tries to read one token at the very start of `text`, without skipping
    /// whitespace: the first registered recognizer that matches wins.
    pub fn tokenize_skipless(&self, text: &str) -> (r: Option<(Token, usize)>)
        ensures
            tok_result(r) == attempt_spec(self@, text@),
            r matches Some((t, c)) ==> 0 < c <= text@.len(),
    {
        let n = self.tokenizers.len();
        let mut i: usize = 0;
        proof {
            assert(self@.skip(0) =~= self@);
        }
        while i < n
            invariant
                i <= n,
                n == self@.len(),
                attempt_spec(self@, text@) == attempt_spec(self@.skip(i as int), text@),
            decreases n - i,
        {
            proof {
                assert(self@.skip(i as int)[0] == self@[i as int]);
            }
            let rec = self.tokenizers[i];
            match rec.attempt(text) {
                Some((t, c)) => {
                    proof {
                        lemma_rec_match_bounds(rec, text@);
                    }
                    return Some((t, c));
                },
                None => {},
            }
            proof {
                assert(self@.skip(i as int).skip(1) =~= self@.skip(i + 1));
            }
            i += 1;
        }
        proof {
            assert(self@.skip(n as int).len() == 0);
        }
        None
    }

    /// Tries to read one token of `text`: counts the leading whitespace,
    /// then attempts the rest; `(token, skip, consumed)` on success.  A
    /// failure is silent, not an error signal.
    pub fn tokenize(&self, text: &str) -> (r: Option<(Token, usize, usize)>)
        ensures
            tok3_result(r) == tokenize_spec(self@, text@),
            r matches Some((t, k, c)) ==> 0 < k + c <= text@.len(),
    {
        let k = skip(text);
        let len = text.unicode_len();
        let rest = text.substring_char(k, len);
        proof {
            assert(rest@ =~= text@.skip(k as int));
        }
        match self.tokenize_skipless(rest) {
            Some((t, c)) => Some((t, k, c)),
            None => None,
        }
    }

    /// Scans `text` from the start: skips whitespace, reads one token,
    /// appends its `(token, absolute offset, length)` record to `out`, and
    /// repeats on the rest.  The scan stops at the end of the input, or at
    /// the first position where no recognizer matches — the rest of the text
    /// is silently dropped.  Returns the total consumed length, trailing
    /// skipped whitespace included; callers detect incomplete lexing by
    /// comparing it against the input length.
    pub fn tokenize_into_list(&self, text: &str, out: &mut Vec<(Token, usize, usize)>) -> (r:
        usize)
        ensures
            records_view(final (out)@) == records_view(old(out)@) + scan_spec(
                self@,
                text@,
                0,
            ).0,
            r == scan_spec(self@, text@, 0).1,
            r <= text@.len(),
    {
        let len = text.unicode_len();
        let mut acc: usize = 0;
        let ghost mut done: Seq<(TokenView, nat, nat)> = Seq::<(TokenView, nat, nat)>::empty();
        proof {
            assert(done + scan_spec(self@, text@, 0).0 =~= scan_spec(self@, text@, 0).0);
        }
        while acc < len
            invariant
                acc <= len,
                len == text@.len(),
                records_view(out@) == records_view(old(out)@) + done,
                scan_spec(self@, text@, 0).0 == done + scan_spec(self@, text@, acc as nat).0,
                scan_spec(self@, text@, 0).1 == scan_spec(self@, text@, acc as nat).1,
            decreases len - acc,
        {
            let ghost pos0 = acc as nat;
            let remainder = text.substring_char(acc, len);
            proof {
                assert(remainder@ =~= text@.skip(acc as int));
            }
            let sk = skip(remainder);
            let rlen = len - acc;
            let rest = remainder.substring_char(sk, rlen);
            proof {
                assert(rest@ =~= remainder@.skip(sk as int));
            }
            match self.tokenize_skipless(rest) {
                Some((t, c)) => {
                    proof {
                        let rec = (t@, (pos0 + sk) as nat, c as nat);
                        let sub = scan_spec(self@, text@, (pos0 + sk + c) as nat);
                        assert(scan_spec(self@, text@, pos0).0 == seq![rec] + sub.0);
                        assert(done + (seq![rec] + sub.0) =~= done.push(rec) + sub.0);
                        assert(records_view(out@.push((t, (pos0 + sk) as usize, c))) =~=
                            records_view(out@).push(rec));
                        done = done.push(rec);
                    }
                    out.push((t, acc + sk, c));
                    acc = acc + sk + c;
                },
                None => {
                    proof {
                        assert(scan_spec(self@, text@, pos0).0 =~= Seq::<(
                            TokenView,
                            nat,
                            nat,
                        )>::empty());
                        assert(done + scan_spec(self@, text@, pos0).0 =~= done);
                    }
                    acc = acc + sk;
                    return acc;
                },
            }
        }
        proof {
            assert(scan_spec(self@, text@, acc as nat).0 =~= Seq::<(TokenView, nat, nat)>::empty());
            assert(done + scan_spec(self@, text@, acc as nat).0 =~= done);
        }
        acc
    }
}

} // verus!
