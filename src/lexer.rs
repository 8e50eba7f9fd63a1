use vstd::prelude::*;
use crate::types::TokenKind;
use crate::vocab::{word, word_kind, word_at, vocab_word, vocab_kind, has_word_at, VOCAB_LEN};

verus! {

/// A token: its kind and the character range `start..end` of the input it covers.
#[derive(Debug, Clone, Copy, PartialEq, Eq, Structural)]
pub struct Token {
    pub kind: TokenKind,
    pub start: usize,
    pub end: usize,
}

/// Whitespace that may stand between tokens.
pub open spec fn is_ws(c: char) -> bool {
    c == ' ' || c == '\t'
}

pub open spec fn is_digit(c: char) -> bool {
    '0' <= c && c <= '9'
}

/// The first index at or after `i` that is not whitespace.
pub open spec fn skip_ws(s: Seq<char>, i: int) -> int
    decreases s.len() - i,
{
    if 0 <= i < s.len() && is_ws(s[i]) {
        skip_ws(s, i + 1)
    } else {
        i
    }
}

/// The end of the run of digits that starts at `i`.
pub open spec fn digit_end(s: Seq<char>, i: int) -> int
    decreases s.len() - i,
{
    if 0 <= i < s.len() && is_digit(s[i]) {
        digit_end(s, i + 1)
    } else {
        i
    }
}

/// The first vocabulary word, from index `i` on, that occurs at `j`.
pub open spec fn first_word(s: Seq<char>, j: int, i: int) -> Option<int>
    decreases VOCAB_LEN - i,
{
    if i < 0 || i >= VOCAB_LEN {
        None
    } else if word_at(s, j, word(i)) {
        Some(i)
    } else {
        first_word(s, j, i + 1)
    }
}

/// The token that starts at `j`, with its length: a run of digits, a colon,
/// a dash, a plus sign, or a vocabulary word in any letter case.
pub open spec fn token_at(s: Seq<char>, j: int) -> Option<(TokenKind, int)> {
    if j < 0 || j >= s.len() {
        None
    } else if is_digit(s[j]) {
        Some((TokenKind::Int, digit_end(s, j) - j))
    } else if s[j] == ':' {
        Some((TokenKind::Colon, 1))
    } else if s[j] == '-' {
        Some((TokenKind::Dash, 1))
    } else if s[j] == '+' {
        Some((TokenKind::Plus, 1))
    } else {
        match first_word(s, j, 0) {
            Some(i) => Some((word_kind(i), word(i).len() as int)),
            None => None,
        }
    }
}

pub proof fn lemma_skip_ws(s: Seq<char>, i: int)
    requires
        0 <= i <= s.len(),
    ensures
        i <= skip_ws(s, i) <= s.len(),
        skip_ws(s, i) < s.len() ==> !is_ws(s[skip_ws(s, i)]),
    decreases s.len() - i,
{
    if i < s.len() && is_ws(s[i]) {
        lemma_skip_ws(s, i + 1);
    }
}

pub proof fn lemma_digit_end(s: Seq<char>, i: int)
    requires
        0 <= i <= s.len(),
    ensures
        i <= digit_end(s, i) <= s.len(),
        forall|k: int| i <= k < digit_end(s, i) ==> is_digit(#[trigger] s[k]),
        digit_end(s, i) < s.len() ==> !is_digit(s[digit_end(s, i)]),
    decreases s.len() - i,
{
    if i < s.len() && is_digit(s[i]) {
        lemma_digit_end(s, i + 1);
    }
}

pub proof fn lemma_first_word(s: Seq<char>, j: int, i: int)
    ensures
        first_word(s, j, i) matches Some(w) ==> 0 <= w < VOCAB_LEN && word_at(s, j, word(w)),
    decreases VOCAB_LEN - i,
{
    if 0 <= i < VOCAB_LEN && !word_at(s, j, word(i)) {
        lemma_first_word(s, j, i + 1);
    }
}

/// A token found at `j` is not empty and lies within `s`.
pub proof fn lemma_token_at(s: Seq<char>, j: int)
    requires
        0 <= j,
    ensures
        token_at(s, j) matches Some((k, n)) ==> 1 <= n && j + n <= s.len(),
{
    if 0 <= j < s.len() {
        if is_digit(s[j]) {
            lemma_digit_end(s, j);
            lemma_digit_end(s, j + 1);
        } else {
            lemma_first_word(s, j, 0);
            if let Some(i) = first_word(s, j, 0) {
                assert(word(i).len() >= 1);
            }
        }
    }
}

pub fn skip_ws_exec(s: &Vec<char>, i: usize) -> (r: usize)
    requires
        i <= s@.len(),
    ensures
        r == skip_ws(s@, i as int),
{
    let mut j = i;
    while j < s.len() && (s[j] == ' ' || s[j] == '\t')
        invariant
            i <= j <= s@.len(),
            skip_ws(s@, j as int) == skip_ws(s@, i as int),
        decreases s@.len() - j,
    {
        j = j + 1;
    }
    j
}

pub fn digit_end_exec(s: &Vec<char>, i: usize) -> (r: usize)
    requires
        i <= s@.len(),
    ensures
        r == digit_end(s@, i as int),
{
    let mut j = i;
    while j < s.len() && ('0' <= s[j] && s[j] <= '9')
        invariant
            i <= j <= s@.len(),
            digit_end(s@, j as int) == digit_end(s@, i as int),
        decreases s@.len() - j,
    {
        j = j + 1;
    }
    j
}

fn first_word_exec(s: &Vec<char>, j: usize) -> (r: Option<usize>)
    ensures
        r matches Some(i) ==> first_word(s@, j as int, 0) == Some(i as int),
        r is None ==> first_word(s@, j as int, 0) is None,
{
    let mut i: usize = 0;
    while i < VOCAB_LEN
        invariant
            i <= VOCAB_LEN,
            first_word(s@, j as int, i as int) == first_word(s@, j as int, 0),
        decreases VOCAB_LEN - i,
    {
        let w = vocab_word(i);
        if has_word_at(s, j, &w) {
            return Some(i);
        }
        i = i + 1;
    }
    None
}

/// The token that starts at `j`, if one does.
pub fn token_at_exec(s: &Vec<char>, j: usize) -> (r: Option<Token>)
    requires
        j < s@.len(),
    ensures
        match r {
            Some(t) => token_at(s@, j as int) == Some((t.kind, t.end - j)) && t.start == j,
            None => token_at(s@, j as int) is None,
        },
{
    proof { lemma_token_at(s@, j as int); }
    let n = s.len();
    let c = s[j];
    if '0' <= c && c <= '9' {
        let e = digit_end_exec(s, j);
        Some(Token { kind: TokenKind::Int, start: j, end: e })
    } else if c == ':' {
        Some(Token { kind: TokenKind::Colon, start: j, end: j + 1 })
    } else if c == '-' {
        Some(Token { kind: TokenKind::Dash, start: j, end: j + 1 })
    } else if c == '+' {
        Some(Token { kind: TokenKind::Plus, start: j, end: j + 1 })
    } else {
        match first_word_exec(s, j) {
            Some(i) => {
                proof { lemma_first_word(s@, j as int, 0); }
                let w = vocab_word(i);
                Some(Token { kind: vocab_kind(i), start: j, end: j + w.len() })
            },
            None => None,
        }
    }
}

} // verus!
