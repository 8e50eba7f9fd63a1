use vstd::prelude::*;
use crate::types::{ParseError, ParseErrorView, TimeClue, result_view};
use crate::lexer::{Token, skip_ws, token_at, lemma_skip_ws, lemma_token_at, lemma_digit_end};
use crate::grammar::{GState, scan, tokens_of, expected, expected_exec, tokenize};
use crate::reducer::{reduce, tokens_wf, parse_time_clue};
use crate::vocab::chars_of;

verus! {

/// The grammar of time phrases: splits a string into the tokens of one phrase.
pub struct TimeParser;

/// What parsing `s` gives: a syntax error where `s` is not a phrase of the
/// grammar, else the descriptor that its tokens reduce to.
pub open spec fn clue_of(s: Seq<char>) -> Result<TimeClue, ParseErrorView> {
    match tokens_of(s) {
        Err((p, st)) => Err(ParseErrorView::Syntax { pos: p as nat, expected: expected(st) }),
        Ok(ts) => reduce(s, ts),
    }
}

proof fn lemma_scan_wf(s: Seq<char>, i: int, st: GState)
    requires
        0 <= i <= s.len(),
        s.len() <= usize::MAX,
    ensures
        scan(s, i, st) matches Ok(ts) ==> tokens_wf(s, ts),
        scan(s, i, st) matches Err((p, _)) ==> 0 <= p <= s.len(),
    decreases s.len() - i,
{
    lemma_skip_ws(s, i);
    let j = skip_ws(s, i);
    if j < s.len() {
        lemma_token_at(s, j);
        if let Some((k, n)) = token_at(s, j) {
            if let Some(next) = crate::grammar::step(st, k) {
                lemma_scan_wf(s, j + n, next);
                if crate::lexer::is_digit(s[j]) {
                    lemma_digit_end(s, j);
                }
                if let Ok(rest) = scan(s, j + n, next) {
                    let t = Token { kind: k, start: j as usize, end: (j + n) as usize };
                    let ts = seq![t] + rest;
                    assert forall|m: int| 0 <= m < ts.len() implies crate::reducer::token_wf(s, #[trigger] ts[m]) by {
                        if m > 0 {
                            assert(ts[m] == rest[m - 1]);
                        }
                    }
                }
            }
        }
    }
}

impl TimeParser {
    /// The tokens of `s` where `s` is one phrase of the grammar, else a
    /// syntax error with the position and the token kinds expected there.
    pub fn tokenize(s: &str) -> (r: Result<Vec<Token>, ParseError>)
        ensures
            match r {
                Ok(ts) => tokens_of(s@) == Ok::<Seq<Token>, (int, GState)>(ts@),
                Err(e) => match tokens_of(s@) {
                    Err((p, st)) => e@ == ParseErrorView::Syntax { pos: p as nat, expected: expected(st) },
                    Ok(_) => false,
                },
            },
    {
        let chars = chars_of(s);
        let _n = chars.len();
        proof { lemma_scan_wf(s@, 0, GState::Start); }
        match tokenize(&chars) {
            Ok(ts) => Ok(ts),
            Err((pos, st)) => Err(ParseError::Syntax { pos, expected: expected_exec(st) }),
        }
    }
}

/// Parses a time phrase into its descriptor.
pub fn parse_time_clue_from_str(s: &str) -> (r: Result<TimeClue, ParseError>)
    ensures
        result_view(r) == clue_of(s@),
{
    let chars = chars_of(s);
    let _n = chars.len();
    proof { lemma_scan_wf(s@, 0, GState::Start); }
    match tokenize(&chars) {
        Ok(ts) => parse_time_clue(s, &chars, &ts),
        Err((pos, st)) => Err(ParseError::Syntax { pos, expected: expected_exec(st) }),
    }
}

} // verus!
