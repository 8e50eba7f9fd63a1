use vstd::prelude::*;
use crate::types::TokenKind;
use crate::lexer::{Token, skip_ws, token_at, lemma_skip_ws, lemma_token_at, skip_ws_exec, token_at_exec};

verus! {

/// Where a clock time stands: alone, after a day name, or after a date.
#[derive(Debug, Clone, Copy, PartialEq, Eq, Structural)]
pub enum TimeContext {
    Bare,
    Day,
    Iso,
}

/// The states of the recognizer that the phrases of the grammar walk through.
#[derive(Debug, Clone, Copy, PartialEq, Eq, Structural)]
pub enum GState {
    Start,
    AfterNow,
    Hour(TimeContext),
    HourColon(TimeContext),
    Minute(TimeContext),
    MinuteColon(TimeContext),
    Second(TimeContext),
    Quantified,
    Relative,
    YearSign,
    Year,
    YearDash,
    Month,
    MonthDash,
    Day,
    DateAt,
    Modified,
    DayName,
    DayAt,
}

/// The grammar, one token at a time.
pub open spec fn step(st: GState, k: TokenKind) -> Option<GState> {
    match (st, k) {
        (GState::Start, TokenKind::Now) => Some(GState::AfterNow),
        (GState::Start, TokenKind::Int) => Some(GState::Hour(TimeContext::Bare)),
        (GState::Start, TokenKind::Dash) => Some(GState::YearSign),
        (GState::Start, TokenKind::Plus) => Some(GState::YearSign),
        (GState::Start, TokenKind::Modifier) => Some(GState::Modified),
        (GState::Start, TokenKind::Weekday) => Some(GState::DayName),
        (GState::Start, TokenKind::ShortcutDay) => Some(GState::DayName),
        (GState::Hour(c), TokenKind::Colon) => Some(GState::HourColon(c)),
        (GState::Hour(TimeContext::Bare), TokenKind::Quantifier) => Some(GState::Quantified),
        (GState::Hour(TimeContext::Bare), TokenKind::Dash) => Some(GState::YearDash),
        (GState::HourColon(c), TokenKind::Int) => Some(GState::Minute(c)),
        (GState::Minute(c), TokenKind::Colon) => Some(GState::MinuteColon(c)),
        (GState::MinuteColon(c), TokenKind::Int) => Some(GState::Second(c)),
        (GState::Quantified, TokenKind::Ago) => Some(GState::Relative),
        (GState::YearSign, TokenKind::Int) => Some(GState::Year),
        (GState::Year, TokenKind::Dash) => Some(GState::YearDash),
        (GState::YearDash, TokenKind::Int) => Some(GState::Month),
        (GState::Month, TokenKind::Dash) => Some(GState::MonthDash),
        (GState::MonthDash, TokenKind::Int) => Some(GState::Day),
        (GState::Day, TokenKind::At) => Some(GState::DateAt),
        (GState::DateAt, TokenKind::Int) => Some(GState::Hour(TimeContext::Iso)),
        (GState::Modified, TokenKind::Weekday) => Some(GState::DayName),
        (GState::DayName, TokenKind::At) => Some(GState::DayAt),
        (GState::DayAt, TokenKind::Int) => Some(GState::Hour(TimeContext::Day)),
        _ => None,
    }
}

/// The states in which a whole phrase has been read.
pub open spec fn accepting(st: GState) -> bool {
    match st {
        GState::AfterNow | GState::Hour(_) | GState::Minute(_) | GState::Second(_)
        | GState::Relative | GState::DayName => true,
        _ => false,
    }
}

pub fn step_exec(st: GState, k: TokenKind) -> (r: Option<GState>)
    ensures
        r == step(st, k),
{
    match (st, k) {
        (GState::Start, TokenKind::Now) => Some(GState::AfterNow),
        (GState::Start, TokenKind::Int) => Some(GState::Hour(TimeContext::Bare)),
        (GState::Start, TokenKind::Dash) => Some(GState::YearSign),
        (GState::Start, TokenKind::Plus) => Some(GState::YearSign),
        (GState::Start, TokenKind::Modifier) => Some(GState::Modified),
        (GState::Start, TokenKind::Weekday) => Some(GState::DayName),
        (GState::Start, TokenKind::ShortcutDay) => Some(GState::DayName),
        (GState::Hour(c), TokenKind::Colon) => Some(GState::HourColon(c)),
        (GState::Hour(TimeContext::Bare), TokenKind::Quantifier) => Some(GState::Quantified),
        (GState::Hour(TimeContext::Bare), TokenKind::Dash) => Some(GState::YearDash),
        (GState::HourColon(c), TokenKind::Int) => Some(GState::Minute(c)),
        (GState::Minute(c), TokenKind::Colon) => Some(GState::MinuteColon(c)),
        (GState::MinuteColon(c), TokenKind::Int) => Some(GState::Second(c)),
        (GState::Quantified, TokenKind::Ago) => Some(GState::Relative),
        (GState::YearSign, TokenKind::Int) => Some(GState::Year),
        (GState::Year, TokenKind::Dash) => Some(GState::YearDash),
        (GState::YearDash, TokenKind::Int) => Some(GState::Month),
        (GState::Month, TokenKind::Dash) => Some(GState::MonthDash),
        (GState::MonthDash, TokenKind::Int) => Some(GState::Day),
        (GState::Day, TokenKind::At) => Some(GState::DateAt),
        (GState::DateAt, TokenKind::Int) => Some(GState::Hour(TimeContext::Iso)),
        (GState::Modified, TokenKind::Weekday) => Some(GState::DayName),
        (GState::DayName, TokenKind::At) => Some(GState::DayAt),
        (GState::DayAt, TokenKind::Int) => Some(GState::Hour(TimeContext::Day)),
        _ => None,
    }
}

pub fn accepting_exec(st: GState) -> (r: bool)
    ensures
        r == accepting(st),
{
    match st {
        GState::AfterNow | GState::Hour(_) | GState::Minute(_) | GState::Second(_)
        | GState::Relative | GState::DayName => true,
        _ => false,
    }
}

/// Token kinds, in their declared order, indexed from 0 to 10.
pub open spec fn kind_at(i: int) -> TokenKind {
    if i == 0 { TokenKind::Now }
    else if i == 1 { TokenKind::Int }
    else if i == 2 { TokenKind::Colon }
    else if i == 3 { TokenKind::Dash }
    else if i == 4 { TokenKind::Plus }
    else if i == 5 { TokenKind::At }
    else if i == 6 { TokenKind::Ago }
    else if i == 7 { TokenKind::Quantifier }
    else if i == 8 { TokenKind::Modifier }
    else if i == 9 { TokenKind::Weekday }
    else { TokenKind::ShortcutDay }
}

fn kind_at_exec(i: usize) -> (r: TokenKind)
    ensures
        r == kind_at(i as int),
{
    if i == 0 { TokenKind::Now }
    else if i == 1 { TokenKind::Int }
    else if i == 2 { TokenKind::Colon }
    else if i == 3 { TokenKind::Dash }
    else if i == 4 { TokenKind::Plus }
    else if i == 5 { TokenKind::At }
    else if i == 6 { TokenKind::Ago }
    else if i == 7 { TokenKind::Quantifier }
    else if i == 8 { TokenKind::Modifier }
    else if i == 9 { TokenKind::Weekday }
    else { TokenKind::ShortcutDay }
}

/// The token kinds, from index `i` on, that could come next in state `st`.
pub open spec fn expected_from(st: GState, i: int) -> Seq<TokenKind>
    decreases 11 - i,
{
    if i < 0 || i >= 11 {
        seq![]
    } else if step(st, kind_at(i)) is Some {
        seq![kind_at(i)] + expected_from(st, i + 1)
    } else {
        expected_from(st, i + 1)
    }
}

/// The token kinds that could come next in state `st`.
pub open spec fn expected(st: GState) -> Seq<TokenKind> {
    expected_from(st, 0)
}

pub fn expected_exec(st: GState) -> (r: Vec<TokenKind>)
    ensures
        r@ == expected(st),
{
    let mut r: Vec<TokenKind> = Vec::new();
    let mut i: usize = 0;
    while i < 11
        invariant
            i <= 11,
            r@ + expected_from(st, i as int) == expected(st),
        decreases 11 - i,
    {
        let k = kind_at_exec(i);
        if step_exec(st, k).is_some() {
            proof {
                assert(r@.push(k) + expected_from(st, i + 1) =~= r@ + expected_from(st, i as int));
            }
            r.push(k);
        }
        i = i + 1;
    }
    assert(r@ + expected_from(st, 11) =~= r@);
    r
}

/// Reads `s` from index `i` on, in state `st`: the tokens of the rest of a
/// phrase, or the index where the phrase could not go on with the state there.
pub open spec fn scan(s: Seq<char>, i: int, st: GState) -> Result<Seq<Token>, (int, GState)>
    decreases s.len() - i,
    via scan_decreases
{
    if i < 0 || i > s.len() {
        Err((i, st))
    } else {
        let j = skip_ws(s, i);
        if j >= s.len() {
            if accepting(st) { Ok(seq![]) } else { Err((s.len() as int, st)) }
        } else {
            match token_at(s, j) {
                None => Err((j, st)),
                Some((k, n)) => match step(st, k) {
                    None => Err((j, st)),
                    Some(next) => match scan(s, j + n, next) {
                        Ok(ts) => Ok(seq![Token { kind: k, start: j as usize, end: (j + n) as usize }] + ts),
                        Err(e) => Err(e),
                    },
                },
            }
        }
    }
}

#[via_fn]
proof fn scan_decreases(s: Seq<char>, i: int, st: GState) {
    if 0 <= i <= s.len() {
        lemma_skip_ws(s, i);
        let j = skip_ws(s, i);
        if j < s.len() {
            lemma_token_at(s, j);
        }
    }
}

/// The tokens of the whole input, or where and in which state it stopped being a phrase.
pub open spec fn tokens_of(s: Seq<char>) -> Result<Seq<Token>, (int, GState)> {
    scan(s, 0, GState::Start)
}

/// Splits `s` into the tokens of one phrase, or reports where it stops being one.
pub fn tokenize(s: &Vec<char>) -> (r: Result<Vec<Token>, (usize, GState)>)
    ensures
        match r {
            Ok(ts) => tokens_of(s@) == Ok::<Seq<Token>, (int, GState)>(ts@),
            Err((p, st)) => tokens_of(s@) == Err::<Seq<Token>, (int, GState)>((p as int, st)),
        },
{
    let n = s.len();
    let mut ts: Vec<Token> = Vec::new();
    let mut i: usize = 0;
    let mut st = GState::Start;
    loop
        invariant
            n == s@.len(),
            i <= n,
            tokens_of(s@) == match scan(s@, i as int, st) {
                Ok(rest) => Ok(ts@ + rest),
                Err(e) => Err::<Seq<Token>, (int, GState)>(e),
            },
        decreases n - i,
    {
        proof { lemma_skip_ws(s@, i as int); }
        let j = skip_ws_exec(s, i);
        if j >= n {
            if accepting_exec(st) {
                assert(ts@ + seq![] =~= ts@);
                return Ok(ts);
            } else {
                return Err((n, st));
            }
        }
        match token_at_exec(s, j) {
            None => {
                return Err((j, st));
            },
            Some(t) => {
                match step_exec(st, t.kind) {
                    None => {
                        return Err((j, st));
                    },
                    Some(next) => {
                        proof {
                            lemma_token_at(s@, j as int);
                            let ghost tok = Token { kind: t.kind, start: j as usize, end: t.end };
                            assert(t == tok);
                            match scan(s@, t.end as int, next) {
                                Ok(rest) => {
                                    assert(ts@.push(t) + rest =~= ts@ + (seq![tok] + rest));
                                },
                                Err(e) => {},
                            }
                        }
                        ts.push(t);
                        i = t.end;
                        st = next;
                    },
                }
            },
        }
    }
}

} // verus!
