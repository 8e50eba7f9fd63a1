use vstd::prelude::*;
use vstd::string::*;
use crate::types::{ParseError, ParseErrorView, Weekday, ShortcutDay, Modifier, Quantifier, TokenKind};

verus! {

/// The fixed vocabulary, indexed from 0 to 15, all in lower case.
pub open spec fn word(i: int) -> Seq<char> {
    if i == 0 { seq!['n', 'o', 'w'] }
    else if i == 1 { seq!['a', 't'] }
    else if i == 2 { seq!['a', 'g', 'o'] }
    else if i == 3 { seq!['m', 'i', 'n'] }
    else if i == 4 { seq!['d', 'a', 'y', 's'] }
    else if i == 5 { seq!['l', 'a', 's', 't'] }
    else if i == 6 { seq!['n', 'e', 'x', 't'] }
    else if i == 7 { seq!['t', 'o', 'd', 'a', 'y'] }
    else if i == 8 { seq!['y', 'e', 's', 't', 'e', 'r', 'd', 'a', 'y'] }
    else if i == 9 { seq!['m', 'o', 'n', 'd', 'a', 'y'] }
    else if i == 10 { seq!['t', 'u', 'e', 's', 'd', 'a', 'y'] }
    else if i == 11 { seq!['w', 'e', 'd', 'n', 'e', 's', 'd', 'a', 'y'] }
    else if i == 12 { seq!['t', 'h', 'u', 'r', 's', 'd', 'a', 'y'] }
    else if i == 13 { seq!['f', 'r', 'i', 'd', 'a', 'y'] }
    else if i == 14 { seq!['s', 'a', 't', 'u', 'r', 'd', 'a', 'y'] }
    else { seq!['s', 'u', 'n', 'd', 'a', 'y'] }
}

/// Number of words in the vocabulary.
pub const VOCAB_LEN: usize = 16;

/// The token kind of each vocabulary word.
pub open spec fn word_kind(i: int) -> TokenKind {
    if i == 0 { TokenKind::Now }
    else if i == 1 { TokenKind::At }
    else if i == 2 { TokenKind::Ago }
    else if i <= 4 { TokenKind::Quantifier }
    else if i <= 6 { TokenKind::Modifier }
    else if i <= 8 { TokenKind::ShortcutDay }
    else { TokenKind::Weekday }
}

/// `c` is the lower-case letter `w`, in either case (`w` a lower-case ASCII letter).
pub open spec fn same_letter(c: char, w: char) -> bool {
    c == w || (w as u32 >= 32 && c as u32 == w as u32 - 32)
}

/// `w` occurs at index `j` of `s`, letters compared without regard to case.
pub open spec fn word_at(s: Seq<char>, j: int, w: Seq<char>) -> bool {
    &&& 0 <= j
    &&& j + w.len() <= s.len()
    &&& forall|k: int| 0 <= k < w.len() ==> same_letter(#[trigger] s[j + k], w[k])
}

/// `t` is the word `w`, letters compared without regard to case.
pub open spec fn is_word(t: Seq<char>, w: Seq<char>) -> bool {
    t.len() == w.len() && word_at(t, 0, w)
}

pub fn vocab_word(i: usize) -> (r: Vec<char>)
    requires
        i < VOCAB_LEN,
    ensures
        r@ == word(i as int),
{
    let r = if i == 0 { vec!['n', 'o', 'w'] }
    else if i == 1 { vec!['a', 't'] }
    else if i == 2 { vec!['a', 'g', 'o'] }
    else if i == 3 { vec!['m', 'i', 'n'] }
    else if i == 4 { vec!['d', 'a', 'y', 's'] }
    else if i == 5 { vec!['l', 'a', 's', 't'] }
    else if i == 6 { vec!['n', 'e', 'x', 't'] }
    else if i == 7 { vec!['t', 'o', 'd', 'a', 'y'] }
    else if i == 8 { vec!['y', 'e', 's', 't', 'e', 'r', 'd', 'a', 'y'] }
    else if i == 9 { vec!['m', 'o', 'n', 'd', 'a', 'y'] }
    else if i == 10 { vec!['t', 'u', 'e', 's', 'd', 'a', 'y'] }
    else if i == 11 { vec!['w', 'e', 'd', 'n', 'e', 's', 'd', 'a', 'y'] }
    else if i == 12 { vec!['t', 'h', 'u', 'r', 's', 'd', 'a', 'y'] }
    else if i == 13 { vec!['f', 'r', 'i', 'd', 'a', 'y'] }
    else if i == 14 { vec!['s', 'a', 't', 'u', 'r', 'd', 'a', 'y'] }
    else { vec!['s', 'u', 'n', 'd', 'a', 'y'] };
    assert(r@ =~= word(i as int));
    r
}

pub fn vocab_kind(i: usize) -> (r: TokenKind)
    requires
        i < VOCAB_LEN,
    ensures
        r == word_kind(i as int),
{
    if i == 0 { TokenKind::Now }
    else if i == 1 { TokenKind::At }
    else if i == 2 { TokenKind::Ago }
    else if i <= 4 { TokenKind::Quantifier }
    else if i <= 6 { TokenKind::Modifier }
    else if i <= 8 { TokenKind::ShortcutDay }
    else { TokenKind::Weekday }
}

/// Whether `w` occurs at index `j` of `s`, without regard to case.
pub fn has_word_at(s: &Vec<char>, j: usize, w: &Vec<char>) -> (r: bool)
    ensures
        r == word_at(s@, j as int, w@),
{
    if j > s.len() || w.len() > s.len() - j {
        return false;
    }
    let n = s.len();
    let mut k: usize = 0;
    while k < w.len()
        invariant
            n == s@.len(),
            j + w@.len() <= n,
            k <= w@.len(),
            forall|m: int| 0 <= m < k ==> same_letter(#[trigger] s@[j + m], w@[m]),
        decreases w@.len() - k,
    {
        let c = s[j + k];
        let l = w[k];
        if !(c == l || (l as u32 >= 32 && c as u32 == l as u32 - 32)) {
            return false;
        }
        k = k + 1;
    }
    true
}

/// The characters of `s`, in order.
pub fn chars_of(s: &str) -> (r: Vec<char>)
    ensures
        r@ == s@,
{
    let n = s.unicode_len();
    let mut r: Vec<char> = Vec::new();
    let mut i: usize = 0;
    while i < n
        invariant
            n == s@.len(),
            i <= n,
            r@ == s@.subrange(0, i as int),
        decreases n - i,
    {
        r.push(s.get_char(i));
        i = i + 1;
        assert(r@ =~= s@.subrange(0, i as int));
    }
    assert(r@ =~= s@);
    r
}

/// Whether the whole of `s` is the vocabulary word `i`, without regard to case.
fn text_is(s: &Vec<char>, i: usize) -> (r: bool)
    requires
        i < VOCAB_LEN,
    ensures
        r == is_word(s@, word(i as int)),
{
    let w = vocab_word(i);
    s.len() == w.len() && has_word_at(s, 0, &w)
}

pub open spec fn weekday_of(t: Seq<char>) -> Option<Weekday> {
    if is_word(t, word(9)) { Some(Weekday::Mon) }
    else if is_word(t, word(10)) { Some(Weekday::Tue) }
    else if is_word(t, word(11)) { Some(Weekday::Wed) }
    else if is_word(t, word(12)) { Some(Weekday::Thu) }
    else if is_word(t, word(13)) { Some(Weekday::Fri) }
    else if is_word(t, word(14)) { Some(Weekday::Sat) }
    else if is_word(t, word(15)) { Some(Weekday::Sun) }
    else { None }
}

pub open spec fn shortcut_day_of(t: Seq<char>) -> Option<ShortcutDay> {
    if is_word(t, word(7)) { Some(ShortcutDay::Today) }
    else if is_word(t, word(8)) { Some(ShortcutDay::Yesterday) }
    else { None }
}

pub open spec fn modifier_of(t: Seq<char>) -> Option<Modifier> {
    if is_word(t, word(5)) { Some(Modifier::Last) }
    else if is_word(t, word(6)) { Some(Modifier::Next) }
    else { None }
}

pub open spec fn quantifier_of(t: Seq<char>) -> Option<Quantifier> {
    if is_word(t, word(3)) { Some(Quantifier::Min) }
    else if is_word(t, word(4)) { Some(Quantifier::Days) }
    else { None }
}

/// Reads a weekday name, in any letter case.
pub fn weekday_from(s: &str) -> (r: Result<Weekday, ParseError>)
    ensures
        match r {
            Ok(w) => weekday_of(s@) == Some(w),
            Err(e) => weekday_of(s@) is None && e@ == ParseErrorView::UnknownWeekday(s@),
        },
{
    let t = chars_of(s);
    if text_is(&t, 9) { Ok(Weekday::Mon) }
    else if text_is(&t, 10) { Ok(Weekday::Tue) }
    else if text_is(&t, 11) { Ok(Weekday::Wed) }
    else if text_is(&t, 12) { Ok(Weekday::Thu) }
    else if text_is(&t, 13) { Ok(Weekday::Fri) }
    else if text_is(&t, 14) { Ok(Weekday::Sat) }
    else if text_is(&t, 15) { Ok(Weekday::Sun) }
    else { Err(ParseError::UnknownWeekday(s.to_string())) }
}

/// Reads "today" or "yesterday", in any letter case.
pub fn shortcut_day_from(s: &str) -> (r: Result<ShortcutDay, ParseError>)
    ensures
        match r {
            Ok(d) => shortcut_day_of(s@) == Some(d),
            Err(e) => shortcut_day_of(s@) is None && e@ == ParseErrorView::UnknownShortcutDay(s@),
        },
{
    let t = chars_of(s);
    if text_is(&t, 7) { Ok(ShortcutDay::Today) }
    else if text_is(&t, 8) { Ok(ShortcutDay::Yesterday) }
    else { Err(ParseError::UnknownShortcutDay(s.to_string())) }
}

/// Reads "last" or "next", in any letter case.
pub fn modifier_from(s: &str) -> (r: Result<Modifier, ParseError>)
    ensures
        match r {
            Ok(m) => modifier_of(s@) == Some(m),
            Err(e) => modifier_of(s@) is None && e@ == ParseErrorView::UnknownModifier(s@),
        },
{
    let t = chars_of(s);
    if text_is(&t, 5) { Ok(Modifier::Last) }
    else if text_is(&t, 6) { Ok(Modifier::Next) }
    else { Err(ParseError::UnknownModifier(s.to_string())) }
}

/// Reads "min" or "days", in any letter case.
pub fn quantifier_from(s: &str) -> (r: Result<Quantifier, ParseError>)
    ensures
        match r {
            Ok(q) => quantifier_of(s@) == Some(q),
            Err(e) => quantifier_of(s@) is None && e@ == ParseErrorView::UnknownQuantifier(s@),
        },
{
    let t = chars_of(s);
    if text_is(&t, 3) { Ok(Quantifier::Min) }
    else if text_is(&t, 4) { Ok(Quantifier::Days) }
    else { Err(ParseError::UnknownQuantifier(s.to_string())) }
}

} // verus!
