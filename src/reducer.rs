use vstd::prelude::*;
use vstd::string::*;
use crate::types::{ParseError, ParseErrorView, TimeClue, TokenKind, HMS, result_view};
use crate::lexer::{Token, is_digit};
use crate::number::{digits_val, parse_bounded};
use crate::vocab::{weekday_of, shortcut_day_of, modifier_of, quantifier_of, weekday_from,
    shortcut_day_from, modifier_from, quantifier_from};

verus! {

/// The characters of the input that token `t` covers.
pub open spec fn text(s: Seq<char>, t: Token) -> Seq<char> {
    s.subrange(t.start as int, t.end as int)
}

pub open spec fn token_wf(s: Seq<char>, t: Token) -> bool {
    &&& t.start <= t.end <= s.len()
    &&& t.kind == TokenKind::Int ==> forall|k: int| t.start <= k < t.end ==> is_digit(#[trigger] s[k])
}

pub open spec fn tokens_wf(s: Seq<char>, ts: Seq<Token>) -> bool {
    forall|i: int| 0 <= i < ts.len() ==> token_wf(s, #[trigger] ts[i])
}

/// An unsigned 32-bit field written by the digits of `t`.
pub open spec fn u32_of(s: Seq<char>, t: Token) -> Result<u32, ParseErrorView> {
    if digits_val(text(s, t)) <= u32::MAX {
        Ok(digits_val(text(s, t)) as u32)
    } else {
        Err(ParseErrorView::ParseInt(text(s, t)))
    }
}

/// A count written by the digits of `t`.
pub open spec fn usize_of(s: Seq<char>, t: Token) -> Result<usize, ParseErrorView> {
    if digits_val(text(s, t)) <= usize::MAX {
        Ok(digits_val(text(s, t)) as usize)
    } else {
        Err(ParseErrorView::ParseInt(text(s, t)))
    }
}

/// A year written by the digits of `t`, after the `sign` token if there is
/// one (a dash makes it negative); the text of an error is the sign's and
/// the digits'.
pub open spec fn year_of(s: Seq<char>, sign: Option<Token>, t: Token) -> Result<i32, ParseErrorView> {
    let negative = sign matches Some(g) && g.kind == TokenKind::Dash;
    let v = digits_val(text(s, t));
    if !negative && v <= i32::MAX {
        Ok(v as i32)
    } else if negative && v <= 0x8000_0000 {
        Ok((-v) as i32)
    } else {
        match sign {
            Some(g) => Err(ParseErrorView::ParseInt(text(s, g) + text(s, t))),
            None => Err(ParseErrorView::ParseInt(text(s, t))),
        }
    }
}

/// The clock time written by the tokens from index `i` to the end:
/// hour, hour:minute or hour:minute:second, omitted fields being zero.
pub open spec fn time_spec(s: Seq<char>, ts: Seq<Token>, i: int) -> Result<HMS, ParseErrorView> {
    let n = ts.len() - i;
    if 0 <= i && n == 1 && ts[i].kind == TokenKind::Int {
        match u32_of(s, ts[i]) {
            Ok(h) => Ok((h, 0u32, 0u32)),
            Err(e) => Err(e),
        }
    } else if 0 <= i && n == 3 && ts[i].kind == TokenKind::Int && ts[i + 1].kind == TokenKind::Colon
        && ts[i + 2].kind == TokenKind::Int {
        match (u32_of(s, ts[i]), u32_of(s, ts[i + 2])) {
            (Err(e), _) => Err(e),
            (Ok(_), Err(e)) => Err(e),
            (Ok(h), Ok(m)) => Ok((h, m, 0u32)),
        }
    } else if 0 <= i && n == 5 && ts[i].kind == TokenKind::Int && ts[i + 1].kind == TokenKind::Colon
        && ts[i + 2].kind == TokenKind::Int && ts[i + 3].kind == TokenKind::Colon
        && ts[i + 4].kind == TokenKind::Int {
        match (u32_of(s, ts[i]), u32_of(s, ts[i + 2]), u32_of(s, ts[i + 4])) {
            (Err(e), _, _) => Err(e),
            (Ok(_), Err(e), _) => Err(e),
            (Ok(_), Ok(_), Err(e)) => Err(e),
            (Ok(h), Ok(m), Ok(sec)) => Ok((h, m, sec)),
        }
    } else {
        Err(ParseErrorView::UnexpectedNonMatchingPattern)
    }
}

/// The optional "at <time>" that closes a day phrase, from index `i` on.
pub open spec fn opt_time_spec(s: Seq<char>, ts: Seq<Token>, i: int) -> Result<Option<HMS>, ParseErrorView> {
    if i == ts.len() {
        Ok(None)
    } else if 0 <= i < ts.len() && ts[i].kind == TokenKind::At {
        match time_spec(s, ts, i + 1) {
            Ok(t) => Ok(Some(t)),
            Err(e) => Err(e),
        }
    } else {
        Err(ParseErrorView::UnexpectedNonMatchingPattern)
    }
}

/// The date at `b` (year, dash, month, dash, day, "at") and the time after
/// it, the year's sign being the token before `b` where `b` is 1. The time
/// is read first, then year, month and day.
pub open spec fn iso_spec(s: Seq<char>, ts: Seq<Token>, b: int) -> Result<TimeClue, ParseErrorView> {
    let sign = if b == 1 { Some(ts[0]) } else { None };
    match time_spec(s, ts, b + 6) {
        Err(e) => Err(e),
        Ok(t) => match (year_of(s, sign, ts[b]), u32_of(s, ts[b + 2]), u32_of(s, ts[b + 4])) {
            (Err(e), _, _) => Err(e),
            (Ok(_), Err(e), _) => Err(e),
            (Ok(_), Ok(_), Err(e)) => Err(e),
            (Ok(y), Ok(m), Ok(d)) => Ok(TimeClue::ISO((y, m, d), t)),
        },
    }
}

pub open spec fn is_date_at(ts: Seq<Token>, b: int) -> bool {
    &&& 0 <= b
    &&& b + 6 <= ts.len()
    &&& ts[b].kind == TokenKind::Int
    &&& ts[b + 1].kind == TokenKind::Dash
    &&& ts[b + 2].kind == TokenKind::Int
    &&& ts[b + 3].kind == TokenKind::Dash
    &&& ts[b + 4].kind == TokenKind::Int
    &&& ts[b + 5].kind == TokenKind::At
}

/// The descriptor that a phrase's tokens stand for.
pub open spec fn reduce(s: Seq<char>, ts: Seq<Token>) -> Result<TimeClue, ParseErrorView> {
    if ts.len() == 0 {
        Err(ParseErrorView::UnexpectedNonMatchingPattern)
    } else if ts[0].kind == TokenKind::Now {
        if ts.len() == 1 { Ok(TimeClue::Now) } else { Err(ParseErrorView::UnexpectedNonMatchingPattern) }
    } else if ts.len() == 3 && ts[0].kind == TokenKind::Int && ts[1].kind == TokenKind::Quantifier
        && ts[2].kind == TokenKind::Ago {
        match (usize_of(s, ts[0]), quantifier_of(text(s, ts[1]))) {
            (Err(e), _) => Err(e),
            (Ok(_), None) => Err(ParseErrorView::UnknownQuantifier(text(s, ts[1]))),
            (Ok(n), Some(q)) => Ok(TimeClue::Relative(n, q)),
        }
    } else if is_date_at(ts, 0) {
        iso_spec(s, ts, 0)
    } else if (ts[0].kind == TokenKind::Dash || ts[0].kind == TokenKind::Plus) && is_date_at(ts, 1) {
        iso_spec(s, ts, 1)
    } else if ts[0].kind == TokenKind::Int {
        match time_spec(s, ts, 0) {
            Ok(t) => Ok(TimeClue::Time(t)),
            Err(e) => Err(e),
        }
    } else if ts[0].kind == TokenKind::Modifier && ts.len() >= 2 && ts[1].kind == TokenKind::Weekday {
        match opt_time_spec(s, ts, 2) {
            Err(e) => Err(e),
            Ok(t) => match (modifier_of(text(s, ts[0])), weekday_of(text(s, ts[1]))) {
                (None, _) => Err(ParseErrorView::UnknownModifier(text(s, ts[0]))),
                (Some(_), None) => Err(ParseErrorView::UnknownWeekday(text(s, ts[1]))),
                (Some(m), Some(w)) => Ok(TimeClue::RelativeDayAt(m, w, t)),
            },
        }
    } else if ts[0].kind == TokenKind::Weekday {
        match opt_time_spec(s, ts, 1) {
            Err(e) => Err(e),
            Ok(t) => match weekday_of(text(s, ts[0])) {
                None => Err(ParseErrorView::UnknownWeekday(text(s, ts[0]))),
                Some(w) => Ok(TimeClue::SameWeekDayAt(w, t)),
            },
        }
    } else if ts[0].kind == TokenKind::ShortcutDay {
        match opt_time_spec(s, ts, 1) {
            Err(e) => Err(e),
            Ok(t) => match shortcut_day_of(text(s, ts[0])) {
                None => Err(ParseErrorView::UnknownShortcutDay(text(s, ts[0]))),
                Some(d) => Ok(TimeClue::ShortcutDayAt(d, t)),
            },
        }
    } else {
        Err(ParseErrorView::UnexpectedNonMatchingPattern)
    }
}

fn text_string(s: &str, t: Token) -> (r: String)
    requires
        t.start <= t.end <= s@.len(),
    ensures
        r@ == text(s@, t),
{
    s.substring_char(t.start, t.end).to_string()
}

fn u32_field(s: &str, chars: &Vec<char>, t: Token) -> (r: Result<u32, ParseError>)
    requires
        chars@ == s@,
        t.kind == TokenKind::Int,
        token_wf(s@, t),
    ensures
        result_view(r) == u32_of(s@, t),
{
    match parse_bounded(chars, t.start, t.end, u32::MAX as u64) {
        Some(v) => Ok(v as u32),
        None => Err(ParseError::ParseInt(text_string(s, t))),
    }
}

fn usize_field(s: &str, chars: &Vec<char>, t: Token) -> (r: Result<usize, ParseError>)
    requires
        chars@ == s@,
        t.kind == TokenKind::Int,
        token_wf(s@, t),
    ensures
        result_view(r) == usize_of(s@, t),
{
    match parse_bounded(chars, t.start, t.end, usize::MAX as u64) {
        Some(v) => Ok(v as usize),
        None => Err(ParseError::ParseInt(text_string(s, t))),
    }
}

fn year_field(s: &str, chars: &Vec<char>, sign: Option<Token>, t: Token) -> (r: Result<i32, ParseError>)
    requires
        chars@ == s@,
        t.kind == TokenKind::Int,
        token_wf(s@, t),
        sign matches Some(g) ==> token_wf(s@, g),
    ensures
        result_view(r) == year_of(s@, sign, t),
{
    let negative = match sign { Some(g) => g.kind == TokenKind::Dash, None => false };
    let max: u64 = if negative { 0x8000_0000 } else { i32::MAX as u64 };
    match parse_bounded(chars, t.start, t.end, max) {
        Some(v) => {
            if negative {
                Ok((0i64 - v as i64) as i32)
            } else {
                Ok(v as i32)
            }
        },
        None => match sign {
            Some(g) => Err(ParseError::ParseInt(text_string(s, g).concat(s.substring_char(t.start, t.end)))),
            None => Err(ParseError::ParseInt(text_string(s, t))),
        },
    }
}

/// The clock time written by `ts[i..]`.
pub fn parse_time_hms(s: &str, chars: &Vec<char>, ts: &Vec<Token>, i: usize) -> (r: Result<HMS, ParseError>)
    requires
        chars@ == s@,
        tokens_wf(s@, ts@),
        i <= ts@.len(),
    ensures
        result_view(r) == time_spec(s@, ts@, i as int),
{
    let n = ts.len() - i;
    if n == 1 && ts[i].kind == TokenKind::Int {
        let h = match u32_field(s, chars, ts[i]) { Ok(v) => v, Err(e) => return Err(e) };
        Ok((h, 0, 0))
    } else if n == 3 && ts[i].kind == TokenKind::Int && ts[i + 1].kind == TokenKind::Colon
        && ts[i + 2].kind == TokenKind::Int {
        let h = match u32_field(s, chars, ts[i]) { Ok(v) => v, Err(e) => return Err(e) };
        let m = match u32_field(s, chars, ts[i + 2]) { Ok(v) => v, Err(e) => return Err(e) };
        Ok((h, m, 0))
    } else if n == 5 && ts[i].kind == TokenKind::Int && ts[i + 1].kind == TokenKind::Colon
        && ts[i + 2].kind == TokenKind::Int && ts[i + 3].kind == TokenKind::Colon
        && ts[i + 4].kind == TokenKind::Int {
        let h = match u32_field(s, chars, ts[i]) { Ok(v) => v, Err(e) => return Err(e) };
        let m = match u32_field(s, chars, ts[i + 2]) { Ok(v) => v, Err(e) => return Err(e) };
        let sec = match u32_field(s, chars, ts[i + 4]) { Ok(v) => v, Err(e) => return Err(e) };
        Ok((h, m, sec))
    } else {
        Err(ParseError::UnexpectedNonMatchingPattern)
    }
}

fn parse_opt_time(s: &str, chars: &Vec<char>, ts: &Vec<Token>, i: usize) -> (r: Result<Option<HMS>, ParseError>)
    requires
        chars@ == s@,
        tokens_wf(s@, ts@),
        i <= ts@.len(),
    ensures
        result_view(r) == opt_time_spec(s@, ts@, i as int),
{
    if i == ts.len() {
        Ok(None)
    } else if ts[i].kind == TokenKind::At {
        match parse_time_hms(s, chars, ts, i + 1) {
            Ok(t) => Ok(Some(t)),
            Err(e) => Err(e),
        }
    } else {
        Err(ParseError::UnexpectedNonMatchingPattern)
    }
}

fn parse_iso(s: &str, chars: &Vec<char>, ts: &Vec<Token>, b: usize) -> (r: Result<TimeClue, ParseError>)
    requires
        chars@ == s@,
        tokens_wf(s@, ts@),
        is_date_at(ts@, b as int),
    ensures
        result_view(r) == iso_spec(s@, ts@, b as int),
{
    let _n = ts.len();
    let t = match parse_time_hms(s, chars, ts, b + 6) { Ok(v) => v, Err(e) => return Err(e) };
    let sign = if b == 1 { Some(ts[0]) } else { None };
    let y = match year_field(s, chars, sign, ts[b]) { Ok(v) => v, Err(e) => return Err(e) };
    let m = match u32_field(s, chars, ts[b + 2]) { Ok(v) => v, Err(e) => return Err(e) };
    let d = match u32_field(s, chars, ts[b + 4]) { Ok(v) => v, Err(e) => return Err(e) };
    Ok(TimeClue::ISO((y, m, d), t))
}

fn is_date_at_exec(ts: &Vec<Token>, b: usize) -> (r: bool)
    ensures
        r == is_date_at(ts@, b as int),
{
    b <= ts.len() && ts.len() - b >= 6 && ts[b].kind == TokenKind::Int
        && ts[b + 1].kind == TokenKind::Dash && ts[b + 2].kind == TokenKind::Int
        && ts[b + 3].kind == TokenKind::Dash && ts[b + 4].kind == TokenKind::Int
        && ts[b + 5].kind == TokenKind::At
}

/// Folds the tokens of a phrase into the descriptor they stand for.
pub fn parse_time_clue(s: &str, chars: &Vec<char>, ts: &Vec<Token>) -> (r: Result<TimeClue, ParseError>)
    requires
        chars@ == s@,
        tokens_wf(s@, ts@),
    ensures
        result_view(r) == reduce(s@, ts@),
{
    if ts.len() == 0 {
        Err(ParseError::UnexpectedNonMatchingPattern)
    } else if ts[0].kind == TokenKind::Now {
        if ts.len() == 1 { Ok(TimeClue::Now) } else { Err(ParseError::UnexpectedNonMatchingPattern) }
    } else if ts.len() == 3 && ts[0].kind == TokenKind::Int && ts[1].kind == TokenKind::Quantifier
        && ts[2].kind == TokenKind::Ago {
        let n = match usize_field(s, chars, ts[0]) { Ok(v) => v, Err(e) => return Err(e) };
        let q = match quantifier_from(s.substring_char(ts[1].start, ts[1].end)) {
            Ok(v) => v,
            Err(e) => return Err(e),
        };
        Ok(TimeClue::Relative(n, q))
    } else if is_date_at_exec(ts, 0) {
        parse_iso(s, chars, ts, 0)
    } else if (ts[0].kind == TokenKind::Dash || ts[0].kind == TokenKind::Plus) && is_date_at_exec(ts, 1) {
        parse_iso(s, chars, ts, 1)
    } else if ts[0].kind == TokenKind::Int {
        match parse_time_hms(s, chars, ts, 0) {
            Ok(t) => Ok(TimeClue::Time(t)),
            Err(e) => Err(e),
        }
    } else if ts[0].kind == TokenKind::Modifier && ts.len() >= 2 && ts[1].kind == TokenKind::Weekday {
        let t = match parse_opt_time(s, chars, ts, 2) { Ok(v) => v, Err(e) => return Err(e) };
        let m = match modifier_from(s.substring_char(ts[0].start, ts[0].end)) {
            Ok(v) => v,
            Err(e) => return Err(e),
        };
        let w = match weekday_from(s.substring_char(ts[1].start, ts[1].end)) {
            Ok(v) => v,
            Err(e) => return Err(e),
        };
        Ok(TimeClue::RelativeDayAt(m, w, t))
    } else if ts[0].kind == TokenKind::Weekday {
        let t = match parse_opt_time(s, chars, ts, 1) { Ok(v) => v, Err(e) => return Err(e) };
        let w = match weekday_from(s.substring_char(ts[0].start, ts[0].end)) {
            Ok(v) => v,
            Err(e) => return Err(e),
        };
        Ok(TimeClue::SameWeekDayAt(w, t))
    } else if ts[0].kind == TokenKind::ShortcutDay {
        let t = match parse_opt_time(s, chars, ts, 1) { Ok(v) => v, Err(e) => return Err(e) };
        let d = match shortcut_day_from(s.substring_char(ts[0].start, ts[0].end)) {
            Ok(v) => v,
            Err(e) => return Err(e),
        };
        Ok(TimeClue::ShortcutDayAt(d, t))
    } else {
        Err(ParseError::UnexpectedNonMatchingPattern)
    }
}

} // verus!
