use vstd::prelude::*;
use crate::types::{TokenKind, ParseErrorView, TimeClue};
use crate::lexer::{Token, is_ws, is_digit, skip_ws, digit_end, first_word, token_at};
use crate::vocab::{word, word_kind, word_at, is_word, same_letter, VOCAB_LEN};
use crate::grammar::{GState, step, accepting, scan, tokens_of};
use crate::reducer::{text, reduce};
use crate::parser::clue_of;
use crate::number::digits_val;

verus! {

pub open spec fn is_lower(c: char) -> bool {
    'a' <= c && c <= 'z'
}

proof fn lemma_word_shape(i: int)
    requires
        0 <= i < VOCAB_LEN,
    ensures
        word(i).len() >= 2,
        forall|k: int| 0 <= k < word(i).len() ==> is_lower(#[trigger] word(i)[k]),
{
}

/// Two different words of the vocabulary differ in their first or second letter.
proof fn lemma_words_differ_early(a: int, b: int)
    requires
        0 <= a < VOCAB_LEN,
        0 <= b < VOCAB_LEN,
        a != b,
    ensures
        word(a)[0] != word(b)[0] || word(a)[1] != word(b)[1],
{
}

proof fn lemma_same_letter_unique(c: char, a: char, b: char)
    requires
        is_lower(a),
        is_lower(b),
        same_letter(c, a),
        same_letter(c, b),
    ensures
        a == b,
{
}

/// Where word `i` occurs at `j`, the search from `from` finds it and no other.
proof fn lemma_first_word_finds(s: Seq<char>, j: int, i: int, from: int)
    requires
        0 <= from <= i < VOCAB_LEN,
        word_at(s, j, word(i)),
    ensures
        first_word(s, j, from) == Some(i),
    decreases i - from,
{
    if from < i {
        lemma_word_shape(i);
        lemma_word_shape(from);
        if word_at(s, j, word(from)) {
            assert(same_letter(s[j + 0], word(from)[0]));
            assert(same_letter(s[j + 0], word(i)[0]));
            assert(same_letter(s[j + 1], word(from)[1]));
            assert(same_letter(s[j + 1], word(i)[1]));
            lemma_same_letter_unique(s[j + 0], word(from)[0], word(i)[0]);
            lemma_same_letter_unique(s[j + 1], word(from)[1], word(i)[1]);
            lemma_words_differ_early(from, i);
        }
        lemma_first_word_finds(s, j, i, from + 1);
    }
}

/// The index of the first vocabulary word, from `i` on, that `w` is.
pub open spec fn word_index_from(w: Seq<char>, i: int) -> Option<int>
    decreases VOCAB_LEN - i,
{
    if i < 0 || i >= VOCAB_LEN {
        None
    } else if is_word(w, word(i)) {
        Some(i)
    } else {
        word_index_from(w, i + 1)
    }
}

proof fn lemma_word_index(w: Seq<char>, i: int)
    ensures
        word_index_from(w, i) matches Some(x) ==> 0 <= x < VOCAB_LEN && is_word(w, word(x)),
    decreases VOCAB_LEN - i,
{
    if 0 <= i < VOCAB_LEN && !is_word(w, word(i)) {
        lemma_word_index(w, i + 1);
    }
}

pub open spec fn all_digits(w: Seq<char>) -> bool {
    w.len() > 0 && forall|k: int| 0 <= k < w.len() ==> is_digit(#[trigger] w[k])
}

pub open spec fn all_ws(g: Seq<char>) -> bool {
    forall|k: int| 0 <= k < g.len() ==> is_ws(#[trigger] g[k])
}

/// The kind of token that the text `w` is, whole, if it is one.
pub open spec fn piece_kind(w: Seq<char>) -> Option<TokenKind> {
    if all_digits(w) {
        Some(TokenKind::Int)
    } else if w == seq![':'] {
        Some(TokenKind::Colon)
    } else if w == seq!['-'] {
        Some(TokenKind::Dash)
    } else {
        match word_index_from(w, 0) {
            Some(i) => Some(word_kind(i)),
            None => None,
        }
    }
}

/// The token texts `p` with the whitespace runs `g` around and between them.
pub open spec fn join(p: Seq<Seq<char>>, g: Seq<Seq<char>>) -> Seq<char>
    decreases p.len(),
{
    if p.len() == 0 || g.len() == 0 {
        if g.len() == 0 { seq![] } else { g[0] }
    } else {
        g[0] + p[0] + join(p.drop_first(), g.drop_first())
    }
}

pub open spec fn kinds(p: Seq<Seq<char>>) -> Seq<TokenKind> {
    p.map_values(|w: Seq<char>| piece_kind(w).unwrap())
}

/// The state that the grammar reaches on the kinds `ks` from `st`.
pub open spec fn walk(ks: Seq<TokenKind>, st: GState) -> Option<GState>
    decreases ks.len(),
{
    if ks.len() == 0 {
        Some(st)
    } else {
        match step(st, ks[0]) {
            None => None,
            Some(n) => walk(ks.drop_first(), n),
        }
    }
}

/// Every piece is one token, and no two numbers stand side by side.
pub open spec fn pieces_ok(p: Seq<Seq<char>>) -> bool {
    &&& forall|m: int| 0 <= m < p.len() ==> (#[trigger] piece_kind(p[m])) is Some
    &&& forall|m: int| 0 <= m < p.len() - 1 ==> !(all_digits(#[trigger] p[m]) && all_digits(p[m + 1]))
}

/// One whitespace run before, between and after the pieces.
pub open spec fn gaps_ok(p: Seq<Seq<char>>, g: Seq<Seq<char>>) -> bool {
    &&& g.len() == p.len() + 1
    &&& forall|m: int| 0 <= m < g.len() ==> all_ws(#[trigger] g[m])
}

/// A phrase of the grammar, given by its token texts.
pub open spec fn phrase(p: Seq<Seq<char>>) -> bool {
    &&& pieces_ok(p)
    &&& walk(kinds(p), GState::Start) matches Some(f) && accepting(f)
}

proof fn lemma_skip_gap(s: Seq<char>, i: int, e: int)
    requires
        0 <= i <= e <= s.len(),
        forall|k: int| i <= k < e ==> is_ws(#[trigger] s[k]),
        e == s.len() || !is_ws(s[e]),
    ensures
        skip_ws(s, i) == e,
    decreases e - i,
{
    if i < e {
        lemma_skip_gap(s, i + 1, e);
    }
}

proof fn lemma_digit_run(s: Seq<char>, i: int, e: int)
    requires
        0 <= i <= e <= s.len(),
        forall|k: int| i <= k < e ==> is_digit(#[trigger] s[k]),
        e == s.len() || !is_digit(s[e]),
    ensures
        digit_end(s, i) == e,
    decreases e - i,
{
    if i < e {
        lemma_digit_run(s, i + 1, e);
    }
}

/// The text `w` of one token, standing at `j` and not followed by a digit
/// where it is a number, is the token found there.
proof fn lemma_piece_token(s: Seq<char>, j: int, w: Seq<char>)
    requires
        0 <= j,
        j + w.len() <= s.len(),
        s.subrange(j, j + w.len()) == w,
        piece_kind(w) is Some,
        all_digits(w) ==> (j + w.len() == s.len() || !is_digit(s[j + w.len()])),
    ensures
        token_at(s, j) == Some((piece_kind(w).unwrap(), w.len() as int)),
        w.len() > 0,
        !is_ws(s[j]),
{
    assert(forall|k: int| 0 <= k < w.len() ==> s[j + k] == #[trigger] w[k]) by {
        assert forall|k: int| 0 <= k < w.len() implies s[j + k] == #[trigger] w[k] by {
            assert(s.subrange(j, j + w.len())[k] == s[j + k]);
        }
    }
    if all_digits(w) {
        assert(s[j + 0] == w[0]);
        assert forall|k: int| j <= k < j + w.len() implies is_digit(#[trigger] s[k]) by {
            assert(s[j + (k - j)] == w[k - j]);
        }
        lemma_digit_run(s, j, j + w.len());
    } else if w == seq![':'] {
        assert(s[j + 0] == w[0]);
    } else if w == seq!['-'] {
        assert(s[j + 0] == w[0]);
    } else {
        lemma_word_index(w, 0);
        let i = word_index_from(w, 0).unwrap();
        lemma_word_shape(i);
        assert(word_at(s, j, word(i))) by {
            assert forall|k: int| 0 <= k < word(i).len() implies same_letter(#[trigger] s[j + k], word(i)[k]) by {
                assert(same_letter(w[0int + k], word(i)[k]));
            }
        }
        lemma_first_word_finds(s, j, i, 0);
        assert(same_letter(w[0int + 0int], word(i)[0]));
        assert(s[j + 0] == w[0]);
        assert(is_lower(word(i)[0]));
    }
}

proof fn lemma_piece_first(w: Seq<char>)
    requires
        piece_kind(w) is Some,
    ensures
        w.len() > 0,
        !is_ws(w[0]),
        !all_digits(w) ==> !is_digit(w[0]),
{
    if !all_digits(w) && w != seq![':'] && w != seq!['-'] {
        lemma_word_index(w, 0);
        let i = word_index_from(w, 0).unwrap();
        lemma_word_shape(i);
        assert(same_letter(w[0int + 0int], word(i)[0]));
        assert(is_lower(word(i)[0]));
    }
}

/// Scanning the pieces `p` of a phrase, with any whitespace runs `g` around
/// them, yields one token per piece, of the piece's kind and with its text.
proof fn lemma_scan_join(s: Seq<char>, i: int, p: Seq<Seq<char>>, g: Seq<Seq<char>>, st: GState)
    requires
        0 <= i <= s.len(),
        s.len() <= usize::MAX,
        s.subrange(i, s.len() as int) == join(p, g),
        pieces_ok(p),
        gaps_ok(p, g),
        walk(kinds(p), st) matches Some(f) && accepting(f),
    ensures
        scan(s, i, st) matches Ok(ts) && ts.len() == p.len() && forall|m: int| 0 <= m < p.len()
            ==> (#[trigger] ts[m]).kind == kinds(p)[m] && text(s, ts[m]) == p[m],
    decreases p.len(),
{
    let lead_gap = g[0];
    if p.len() == 0 {
        assert forall|k: int| i <= k < s.len() implies is_ws(#[trigger] s[k]) by {
            assert(s.subrange(i, s.len() as int)[k - i] == s[k]);
            assert(all_ws(lead_gap));
        }
        lemma_skip_gap(s, i, s.len() as int);
        assert(scan(s, i, st) == Ok::<Seq<Token>, (int, GState)>(seq![]));
    } else {
        let first_piece = p[0];
        let pr = p.drop_first();
        let gr = g.drop_first();
        let rest_text = join(pr, gr);
        assert(join(p, g) == lead_gap + first_piece + rest_text);
        let j = i + lead_gap.len();
        let e = j + first_piece.len();
        let whole = s.subrange(i, s.len() as int);
        assert(whole == lead_gap + first_piece + rest_text);
        assert(s.subrange(j, e) =~= first_piece) by {
            assert forall|k: int| 0 <= k < first_piece.len() implies s.subrange(j, e)[k] == first_piece[k] by {
                assert(whole[lead_gap.len() + k] == s[j + k]);
                assert((lead_gap + first_piece + rest_text)[lead_gap.len() + k] == first_piece[k]);
            }
        }
        assert(s.subrange(e, s.len() as int) =~= rest_text) by {
            assert forall|k: int| 0 <= k < rest_text.len() implies s.subrange(e, s.len() as int)[k] == rest_text[k] by {
                assert(whole[lead_gap.len() + first_piece.len() + k] == s[e + k]);
                assert((lead_gap + first_piece + rest_text)[lead_gap.len() + first_piece.len() + k] == rest_text[k]);
            }
        }
        assert(piece_kind(first_piece) is Some);
        lemma_piece_first(first_piece);
        assert(gaps_ok(pr, gr)) by {
            assert forall|m: int| 0 <= m < gr.len() implies all_ws(#[trigger] gr[m]) by {
                assert(gr[m] == g[m + 1]);
            }
        }
        assert(pieces_ok(pr)) by {
            assert forall|m: int| 0 <= m < pr.len() implies (#[trigger] piece_kind(pr[m])) is Some by {
                assert(pr[m] == p[m + 1]);
            }
            assert forall|m: int| 0 <= m < pr.len() - 1 implies !(all_digits(#[trigger] pr[m]) && all_digits(pr[m + 1])) by {
                assert(pr[m] == p[m + 1]);
                assert(pr[m + 1] == p[m + 2]);
            }
        }
        // What follows the piece cannot extend a number.
        if all_digits(first_piece) && e < s.len() {
            let g1 = gr[0];
            assert(rest_text.len() > 0);
            if pr.len() == 0 {
                assert(rest_text == g1);
                assert(all_ws(g1));
                assert(s[e] == rest_text[0]);
            } else {
                assert(rest_text == g1 + pr[0] + join(pr.drop_first(), gr.drop_first()));
                assert(s[e] == rest_text[0]);
                if g1.len() > 0 {
                    assert(all_ws(g1));
                    assert(rest_text[0] == g1[0]);
                } else {
                    assert(piece_kind(pr[0]) is Some);
                    lemma_piece_first(pr[0]);
                    assert(!(all_digits(p[0]) && all_digits(p[0int + 1])));
                    assert(rest_text[0] == pr[0][0]);
                }
            }
        }
        lemma_piece_token(s, j, first_piece);
        assert forall|k: int| i <= k < j implies is_ws(#[trigger] s[k]) by {
            assert(whole[k - i] == s[k]);
            assert((lead_gap + first_piece + rest_text)[k - i] == lead_gap[k - i]);
            assert(all_ws(lead_gap));
        }
        lemma_skip_gap(s, i, j);
        let k0 = piece_kind(first_piece).unwrap();
        assert(kinds(p)[0] == k0);
        assert(kinds(pr) =~= kinds(p).drop_first());
        let next = step(st, k0).unwrap();
        lemma_scan_join(s, e, pr, gr, next);
        let rest = scan(s, e, next)->Ok_0;
        let tok = Token { kind: k0, start: j as usize, end: e as usize };
        assert(scan(s, i, st) == Ok::<Seq<Token>, (int, GState)>(seq![tok] + rest));
        let ts = seq![tok] + rest;
        assert forall|m: int| 0 <= m < p.len()
            implies (#[trigger] ts[m]).kind == kinds(p)[m] && text(s, ts[m]) == p[m] by {
            if m > 0 {
                assert(ts[m] == rest[m - 1]);
                assert(pr[m - 1] == p[m]);
                assert(kinds(pr)[m - 1] == kinds(p)[m]);
            }
        }
    }
}

pub open spec fn same_tokens(s1: Seq<char>, ts1: Seq<Token>, s2: Seq<char>, ts2: Seq<Token>) -> bool {
    &&& ts1.len() == ts2.len()
    &&& forall|m: int| 0 <= m < ts1.len() ==> (#[trigger] ts1[m]).kind == ts2[m].kind
        && text(s1, ts1[m]) == text(s2, ts2[m])
}

/// The reducer reads only the kinds and the texts of the tokens.
#[verifier::spinoff_prover]
#[verifier::rlimit(40)]
proof fn lemma_reduce_same_tokens(s1: Seq<char>, ts1: Seq<Token>, s2: Seq<char>, ts2: Seq<Token>)
    requires
        same_tokens(s1, ts1, s2, ts2),
    ensures
        reduce(s1, ts1) == reduce(s2, ts2),
{
    assert forall|m: int| 0 <= m < ts1.len() implies
        crate::reducer::u32_of(s1, #[trigger] ts1[m]) == crate::reducer::u32_of(s2, ts2[m])
        && crate::reducer::usize_of(s1, ts1[m]) == crate::reducer::usize_of(s2, ts2[m])
        && crate::reducer::year_of(s1, None, ts1[m]) == crate::reducer::year_of(s2, None, ts2[m])
        && (m >= 1 ==> crate::reducer::year_of(s1, Some(ts1[0]), ts1[m])
            == crate::reducer::year_of(s2, Some(ts2[0]), ts2[m])) by {
        assert(text(s1, ts1[m]) == text(s2, ts2[m]));
        assert(text(s1, ts1[0]) == text(s2, ts2[0]));
    }
}

/// Parsing depends on the input alone: equal inputs give equal results.
pub proof fn lemma_parse_deterministic(s1: Seq<char>, s2: Seq<char>)
    requires
        s1 == s2,
    ensures
        clue_of(s1) == clue_of(s2),
{
}

/// Inserting or removing whitespace between the tokens of a phrase (and
/// around it) does not change what the phrase parses to.
pub proof fn lemma_whitespace_insensitive(p: Seq<Seq<char>>, g1: Seq<Seq<char>>, g2: Seq<Seq<char>>)
    requires
        phrase(p),
        gaps_ok(p, g1),
        gaps_ok(p, g2),
        join(p, g1).len() <= usize::MAX,
        join(p, g2).len() <= usize::MAX,
    ensures
        clue_of(join(p, g1)) == clue_of(join(p, g2)),
{
    let s1 = join(p, g1);
    let s2 = join(p, g2);
    assert(s1.subrange(0, s1.len() as int) =~= s1);
    assert(s2.subrange(0, s2.len() as int) =~= s2);
    lemma_scan_join(s1, 0, p, g1, GState::Start);
    lemma_scan_join(s2, 0, p, g2, GState::Start);
    let ts1 = scan(s1, 0, GState::Start)->Ok_0;
    let ts2 = scan(s2, 0, GState::Start)->Ok_0;
    assert(same_tokens(s1, ts1, s2, ts2)) by {
        assert forall|m: int| 0 <= m < ts1.len() implies (#[trigger] ts1[m]).kind == ts2[m].kind
            && text(s1, ts1[m]) == text(s2, ts2[m]) by {
            assert(ts2[m].kind == kinds(p)[m]);
        }
    }
    lemma_reduce_same_tokens(s1, ts1, s2, ts2);
}

/// The pieces of "<year>-<month>-<day> at " followed by a clock time of `n`
/// fields (see `time_pieces`).
pub open spec fn iso_pieces(y: Seq<char>, mo: Seq<char>, d: Seq<char>, h: Seq<char>, mi: Seq<char>, se: Seq<char>, n: int) -> Seq<Seq<char>> {
    seq![y, seq!['-'], mo, seq!['-'], d, word(1)] + time_pieces(h, mi, se, n)
}

proof fn lemma_piece_at()
    ensures
        piece_kind(word(1)) == Some(TokenKind::At),
        piece_kind(seq![':']) == Some(TokenKind::Colon),
        piece_kind(seq!['-']) == Some(TokenKind::Dash),
{
    assert(!is_digit(word(1)[0]));
    assert(!is_digit(seq![':'][0]));
    assert(!is_digit(seq!['-'][0]));
    assert(!is_word(word(1), word(0)));
    assert(is_word(word(1), word(1)));
    reveal_with_fuel(word_index_from, 3);
}

/// A full date with a clock time, in ISO order, gives `ISO` with every
/// number exactly as written; only omitted trailing time fields are zero.
pub proof fn lemma_iso_composition(
    y: Seq<char>,
    mo: Seq<char>,
    d: Seq<char>,
    h: Seq<char>,
    mi: Seq<char>,
    se: Seq<char>,
    n: int,
    g: Seq<Seq<char>>,
)
    requires
        1 <= n <= 3,
        time_fields_ok(h, mi, se, n),
        all_digits(y) && all_digits(mo) && all_digits(d),
        digits_val(y) <= i32::MAX,
        digits_val(mo) <= u32::MAX && digits_val(d) <= u32::MAX,
        gaps_ok(iso_pieces(y, mo, d, h, mi, se, n), g),
        join(iso_pieces(y, mo, d, h, mi, se, n), g).len() <= usize::MAX,
    ensures
        clue_of(join(iso_pieces(y, mo, d, h, mi, se, n), g)) == Ok::<TimeClue, ParseErrorView>(TimeClue::ISO(
            (digits_val(y) as i32, digits_val(mo) as u32, digits_val(d) as u32),
            day_time(h, mi, se, n)->Some_0,
        )),
{
    let p = iso_pieces(y, mo, d, h, mi, se, n);
    let s = join(p, g);
    lemma_piece_at();
    assert(!all_digits(seq![':'])) by { assert(!is_digit(seq![':'][0])); }
    assert(!all_digits(seq!['-'])) by { assert(!is_digit(seq!['-'][0])); }
    assert(!all_digits(word(1))) by { assert(!is_digit(word(1)[0])); }
    assert(pieces_ok(p)) by {
        assert forall|m: int| 0 <= m < p.len() implies (#[trigger] piece_kind(p[m])) is Some by {}
        assert forall|m: int| 0 <= m < p.len() - 1 implies !(all_digits(#[trigger] p[m]) && all_digits(p[m + 1])) by {}
    }
    let tk = if n == 1 {
        seq![TokenKind::Int]
    } else if n == 2 {
        seq![TokenKind::Int, TokenKind::Colon, TokenKind::Int]
    } else {
        seq![TokenKind::Int, TokenKind::Colon, TokenKind::Int, TokenKind::Colon, TokenKind::Int]
    };
    let ks = seq![TokenKind::Int, TokenKind::Dash, TokenKind::Int, TokenKind::Dash, TokenKind::Int,
        TokenKind::At] + tk;
    assert(kinds(p) =~= ks);
    reveal_with_fuel(walk, 12);
    assert(walk(ks, GState::Start) is Some);
    assert(accepting(walk(ks, GState::Start)->Some_0));
    assert(s.subrange(0, s.len() as int) =~= s);
    lemma_scan_join(s, 0, p, g, GState::Start);
    let ts = scan(s, 0, GState::Start)->Ok_0;
    assert(ts[0].kind == ks[0] && text(s, ts[0]) == y);
    assert(ts[2].kind == ks[2] && text(s, ts[2]) == mo);
    assert(ts[4].kind == ks[4] && text(s, ts[4]) == d);
    assert(ts[1].kind == ks[1] && ts[3].kind == ks[3] && ts[5].kind == ks[5]);
    assert(ts[6].kind == ks[6] && text(s, ts[6]) == h);
    if n >= 2 {
        assert(ts[7].kind == ks[7] && ts[8].kind == ks[8] && text(s, ts[8]) == mi);
    }
    if n == 3 {
        assert(ts[9].kind == ks[9] && ts[10].kind == ks[10] && text(s, ts[10]) == se);
    }
}

proof fn lemma_skip_ws_stops(s: Seq<char>, i: int, k: int)
    requires
        0 <= i <= k < s.len(),
        !is_ws(s[k]),
    ensures
        i <= skip_ws(s, i) <= k,
    decreases k - i,
{
    if i < k && is_ws(s[i]) {
        lemma_skip_ws_stops(s, i + 1, k);
    }
}

/// "now" followed by anything but whitespace fails with a syntax error.
pub proof fn lemma_now_then_more(t: Seq<char>, k: int)
    requires
        0 <= k < t.len(),
        !is_ws(t[k]),
        word(0).len() + t.len() <= usize::MAX,
    ensures
        clue_of(word(0) + t) is Err,
        clue_of(word(0) + t)->Err_0 is Syntax,
{
    let s = word(0) + t;
    assert(word(0).len() == 3);
    assert(!is_ws(s[0]));
    lemma_skip_gap(s, 0, 0);
    assert(word_at(s, 0, word(0))) by {
        assert forall|m: int| 0 <= m < word(0).len() implies same_letter(#[trigger] s[0 + m], word(0)[m]) by {
            assert(s[0 + m] == word(0)[m]);
        }
    }
    lemma_first_word_finds(s, 0, 0, 0);
    assert(token_at(s, 0) == Some((TokenKind::Now, 3int)));
    assert(s[3 + k] == t[k]);
    lemma_skip_ws_stops(s, 3, 3 + k);
    let j = skip_ws(s, 3);
    crate::lexer::lemma_token_at(s, j);
    assert(scan(s, 3, GState::AfterNow) is Err);
    assert(scan(s, 0, GState::Start) is Err);
}

proof fn lemma_skipped_are_ws(s: Seq<char>, i: int)
    requires
        0 <= i <= s.len(),
    ensures
        forall|k: int| i <= k < skip_ws(s, i) ==> is_ws(#[trigger] s[k]),
    decreases s.len() - i,
{
    if i < s.len() && is_ws(s[i]) {
        lemma_skipped_are_ws(s, i + 1);
    }
}

pub open spec fn covered(ts: Seq<Token>, k: int) -> bool {
    exists|m: int| 0 <= m < ts.len() && (#[trigger] ts[m]).start <= k < ts[m].end
}

/// Every character of `s` from `i` on that is not whitespace lies within one of `ts`.
pub open spec fn covers(s: Seq<char>, i: int, ts: Seq<Token>) -> bool {
    forall|k: int| i <= k < s.len() && !is_ws(#[trigger] s[k]) ==> covered(ts, k)
}

proof fn lemma_scan_covers(s: Seq<char>, i: int, st: GState)
    requires
        0 <= i <= s.len(),
        s.len() <= usize::MAX,
    ensures
        scan(s, i, st) matches Ok(ts) ==> covers(s, i, ts),
    decreases s.len() - i,
{
    crate::lexer::lemma_skip_ws(s, i);
    lemma_skipped_are_ws(s, i);
    let j = skip_ws(s, i);
    if j < s.len() {
        crate::lexer::lemma_token_at(s, j);
        if let Some((kd, n)) = token_at(s, j) {
            if let Some(next) = step(st, kd) {
                lemma_scan_covers(s, j + n, next);
                if let Ok(rest) = scan(s, j + n, next) {
                    let tok = Token { kind: kd, start: j as usize, end: (j + n) as usize };
                    let ts = seq![tok] + rest;
                    assert(scan(s, i, st) == Ok::<Seq<Token>, (int, GState)>(ts));
                    assert forall|k: int| i <= k < s.len() && !is_ws(#[trigger] s[k]) implies covered(ts, k) by {
                        if k < j {
                            assert(is_ws(s[k]));
                        } else if k < j + n {
                            assert(ts[0] == tok);
                            assert(ts[0].start <= k < ts[0].end);
                        } else {
                            assert(covered(rest, k));
                            let m = choose|m: int| 0 <= m < rest.len() && (#[trigger] rest[m]).start <= k < rest[m].end;
                            assert(ts[m + 1] == rest[m]);
                            assert(ts[m + 1].start <= k < ts[m + 1].end);
                        }
                    }
                }
            }
        }
    } else {
        assert forall|k: int| i <= k < s.len() implies is_ws(#[trigger] s[k]) by {}
    }
}

/// A successful parse leaves nothing over: every character of the input
/// that is not whitespace lies within one of the tokens of the phrase.
pub proof fn lemma_ok_consumes_input(s: Seq<char>, k: int)
    requires
        s.len() <= usize::MAX,
        clue_of(s) is Ok,
        0 <= k < s.len(),
        !is_ws(s[k]),
    ensures
        tokens_of(s) matches Ok(ts) && covered(ts, k),
{
    lemma_scan_covers(s, 0, GState::Start);
}

/// The pieces of "<hour>", "<hour>:<minute>" or "<hour>:<minute>:<second>",
/// as `n` is 1, 2 or 3.
pub open spec fn time_pieces(h: Seq<char>, mi: Seq<char>, se: Seq<char>, n: int) -> Seq<Seq<char>> {
    if n == 1 {
        seq![h]
    } else if n == 2 {
        seq![h, seq![':'], mi]
    } else {
        seq![h, seq![':'], mi, seq![':'], se]
    }
}

/// A clock time alone gives `Time`, each omitted trailing field being zero.
pub proof fn lemma_time_defaults(h: Seq<char>, mi: Seq<char>, se: Seq<char>, n: int, g: Seq<Seq<char>>)
    requires
        1 <= n <= 3,
        all_digits(h) && all_digits(mi) && all_digits(se),
        digits_val(h) <= u32::MAX && digits_val(mi) <= u32::MAX && digits_val(se) <= u32::MAX,
        gaps_ok(time_pieces(h, mi, se, n), g),
        join(time_pieces(h, mi, se, n), g).len() <= usize::MAX,
    ensures
        clue_of(join(time_pieces(h, mi, se, n), g)) == Ok::<TimeClue, ParseErrorView>(TimeClue::Time((
            digits_val(h) as u32,
            if n >= 2 { digits_val(mi) as u32 } else { 0u32 },
            if n == 3 { digits_val(se) as u32 } else { 0u32 },
        ))),
{
    let p = time_pieces(h, mi, se, n);
    let s = join(p, g);
    lemma_piece_at();
    assert(!all_digits(seq![':'])) by { assert(!is_digit(seq![':'][0])); }
    assert(pieces_ok(p)) by {
        assert forall|m: int| 0 <= m < p.len() implies (#[trigger] piece_kind(p[m])) is Some by {}
        assert forall|m: int| 0 <= m < p.len() - 1 implies !(all_digits(#[trigger] p[m]) && all_digits(p[m + 1])) by {}
    }
    let ks = if n == 1 {
        seq![TokenKind::Int]
    } else if n == 2 {
        seq![TokenKind::Int, TokenKind::Colon, TokenKind::Int]
    } else {
        seq![TokenKind::Int, TokenKind::Colon, TokenKind::Int, TokenKind::Colon, TokenKind::Int]
    };
    assert(kinds(p) =~= ks);
    reveal_with_fuel(walk, 6);
    assert(walk(ks, GState::Start) is Some);
    assert(accepting(walk(ks, GState::Start)->Some_0));
    assert(s.subrange(0, s.len() as int) =~= s);
    lemma_scan_join(s, 0, p, g, GState::Start);
    let ts = scan(s, 0, GState::Start)->Ok_0;
    assert(ts[0].kind == ks[0] && text(s, ts[0]) == h);
    if n >= 2 {
        assert(ts[1].kind == ks[1] && ts[2].kind == ks[2] && text(s, ts[2]) == mi);
    }
    if n == 3 {
        assert(ts[3].kind == ks[3] && ts[4].kind == ks[4] && text(s, ts[4]) == se);
    }
}

proof fn lemma_word_index_finds(w: Seq<char>, i: int, from: int)
    requires
        0 <= from <= i < VOCAB_LEN,
        is_word(w, word(i)),
    ensures
        word_index_from(w, from) == Some(i),
    decreases i - from,
{
    if from < i {
        lemma_word_shape(i);
        lemma_word_shape(from);
        if is_word(w, word(from)) {
            assert(same_letter(w[0int + 0int], word(from)[0]));
            assert(same_letter(w[0int + 0int], word(i)[0]));
            assert(same_letter(w[0int + 1int], word(from)[1]));
            assert(same_letter(w[0int + 1int], word(i)[1]));
            lemma_same_letter_unique(w[0], word(from)[0], word(i)[0]);
            lemma_same_letter_unique(w[1], word(from)[1], word(i)[1]);
            lemma_words_differ_early(from, i);
        }
        lemma_word_index_finds(w, i, from + 1);
    }
}

/// A text that is vocabulary word `i` is one token of that word's kind.
proof fn lemma_word_piece(w: Seq<char>, i: int)
    requires
        0 <= i < VOCAB_LEN,
        is_word(w, word(i)),
    ensures
        piece_kind(w) == Some(word_kind(i)),
        !all_digits(w),
{
    lemma_word_shape(i);
    assert(same_letter(w[0int + 0int], word(i)[0]));
    assert(is_lower(word(i)[0]));
    assert(!is_digit(w[0]));
    assert(w != seq![':']) by {
        if w == seq![':'] { assert(w.len() == 1); }
    }
    assert(w != seq!['-']) by {
        if w == seq!['-'] { assert(w.len() == 1); }
    }
    lemma_word_index_finds(w, i, 0);
}

/// The pieces of a day phrase: `head`, then "at" and a clock time of `n`
/// fields where `n` is 1 to 3, or nothing more where `n` is 0.
pub open spec fn day_pieces(head: Seq<Seq<char>>, h: Seq<char>, mi: Seq<char>, se: Seq<char>, n: int) -> Seq<Seq<char>> {
    if n == 0 {
        head
    } else {
        head + seq![word(1)] + time_pieces(h, mi, se, n)
    }
}

/// The clock time that a day phrase's trailing fields give.
pub open spec fn day_time(h: Seq<char>, mi: Seq<char>, se: Seq<char>, n: int) -> Option<(u32, u32, u32)> {
    if n == 0 {
        None
    } else {
        Some((
            digits_val(h) as u32,
            if n >= 2 { digits_val(mi) as u32 } else { 0u32 },
            if n == 3 { digits_val(se) as u32 } else { 0u32 },
        ))
    }
}

pub open spec fn time_fields_ok(h: Seq<char>, mi: Seq<char>, se: Seq<char>, n: int) -> bool {
    &&& 0 <= n <= 3
    &&& all_digits(h) && all_digits(mi) && all_digits(se)
    &&& digits_val(h) <= u32::MAX && digits_val(mi) <= u32::MAX && digits_val(se) <= u32::MAX
}

/// Scanning a day phrase whose head has the kinds `hk`.
proof fn lemma_day_scan(head: Seq<Seq<char>>, hk: Seq<TokenKind>, h: Seq<char>, mi: Seq<char>, se: Seq<char>, n: int, g: Seq<Seq<char>>)
    requires
        hk == seq![TokenKind::Modifier, TokenKind::Weekday] || hk == seq![TokenKind::Weekday]
            || hk == seq![TokenKind::ShortcutDay],
        head.len() == hk.len(),
        forall|m: int| 0 <= m < head.len() ==> piece_kind(#[trigger] head[m]) == Some(hk[m]) && !all_digits(head[m]),
        time_fields_ok(h, mi, se, n),
        gaps_ok(day_pieces(head, h, mi, se, n), g),
        join(day_pieces(head, h, mi, se, n), g).len() <= usize::MAX,
    ensures
        ({
            let p = day_pieces(head, h, mi, se, n);
            let s = join(p, g);
            let b = head.len() as int + 1;
            scan(s, 0, GState::Start) matches Ok(ts) && ts.len() == p.len()
            && (forall|m: int| 0 <= m < head.len() ==> (#[trigger] ts[m]).kind == hk[m] && text(s, ts[m]) == head[m])
            && (n == 0 ==> ts.len() == head.len())
            && (n >= 1 ==> ts[b - 1].kind == TokenKind::At && ts[b].kind == TokenKind::Int && text(s, ts[b]) == h)
            && (n == 1 ==> ts.len() == b + 1)
            && (n >= 2 ==> ts[b + 1].kind == TokenKind::Colon && ts[b + 2].kind == TokenKind::Int && text(s, ts[b + 2]) == mi)
            && (n == 2 ==> ts.len() == b + 3)
            && (n == 3 ==> ts[b + 3].kind == TokenKind::Colon && ts[b + 4].kind == TokenKind::Int && text(s, ts[b + 4]) == se
                && ts.len() == b + 5)
        }),
{
    let p = day_pieces(head, h, mi, se, n);
    let s = join(p, g);
    lemma_piece_at();
    assert(!all_digits(seq![':'])) by { assert(!is_digit(seq![':'][0])); }
    assert(!all_digits(word(1))) by { assert(!is_digit(word(1)[0])); }
    let tk = if n == 0 {
        seq![]
    } else if n == 1 {
        seq![TokenKind::At, TokenKind::Int]
    } else if n == 2 {
        seq![TokenKind::At, TokenKind::Int, TokenKind::Colon, TokenKind::Int]
    } else {
        seq![TokenKind::At, TokenKind::Int, TokenKind::Colon, TokenKind::Int, TokenKind::Colon, TokenKind::Int]
    };
    let ks = hk + tk;
    assert(forall|m: int| 0 <= m < head.len() ==> p[m] == head[m]);
    assert(pieces_ok(p)) by {
        assert forall|m: int| 0 <= m < p.len() implies (#[trigger] piece_kind(p[m])) is Some by {
            if m < head.len() {
                assert(piece_kind(head[m]) == Some(hk[m]));
            }
        }
        assert forall|m: int| 0 <= m < p.len() - 1 implies !(all_digits(#[trigger] p[m]) && all_digits(p[m + 1])) by {
            if m < head.len() {
                assert(!all_digits(head[m]));
            }
        }
    }
    assert(kinds(p) =~= ks) by {
        assert forall|m: int| 0 <= m < p.len() implies kinds(p)[m] == ks[m] by {
            if m < head.len() {
                assert(piece_kind(head[m]) == Some(hk[m]));
            }
        }
    }
    reveal_with_fuel(walk, 9);
    assert(walk(ks, GState::Start) is Some);
    assert(accepting(walk(ks, GState::Start)->Some_0));
    assert(s.subrange(0, s.len() as int) =~= s);
    lemma_scan_join(s, 0, p, g, GState::Start);
}

/// A weekday name alone gives `SameWeekDayAt`, with no time unless one
/// follows "at".
pub proof fn lemma_same_week_day(w: Seq<char>, h: Seq<char>, mi: Seq<char>, se: Seq<char>, n: int, g: Seq<Seq<char>>)
    requires
        crate::vocab::weekday_of(w) is Some,
        time_fields_ok(h, mi, se, n),
        gaps_ok(day_pieces(seq![w], h, mi, se, n), g),
        join(day_pieces(seq![w], h, mi, se, n), g).len() <= usize::MAX,
    ensures
        clue_of(join(day_pieces(seq![w], h, mi, se, n), g)) == Ok::<TimeClue, ParseErrorView>(
            TimeClue::SameWeekDayAt(crate::vocab::weekday_of(w)->Some_0, day_time(h, mi, se, n))),
{
    let i: int = choose|i: int| 9 <= i < VOCAB_LEN && is_word(w, word(i));
    assert(exists|i: int| 9 <= i < VOCAB_LEN && is_word(w, word(i))) by {
        if is_word(w, word(9)) { assert(is_word(w, word(9))); }
        else if is_word(w, word(10)) { assert(is_word(w, word(10))); }
        else if is_word(w, word(11)) { assert(is_word(w, word(11))); }
        else if is_word(w, word(12)) { assert(is_word(w, word(12))); }
        else if is_word(w, word(13)) { assert(is_word(w, word(13))); }
        else if is_word(w, word(14)) { assert(is_word(w, word(14))); }
        else { assert(is_word(w, word(15))); }
    }
    lemma_word_piece(w, i);
    lemma_day_scan(seq![w], seq![TokenKind::Weekday], h, mi, se, n, g);
}

/// A modifier and a weekday name give `RelativeDayAt`, with no time unless
/// one follows "at".
pub proof fn lemma_relative_day(md: Seq<char>, w: Seq<char>, h: Seq<char>, mi: Seq<char>, se: Seq<char>, n: int, g: Seq<Seq<char>>)
    requires
        crate::vocab::modifier_of(md) is Some,
        crate::vocab::weekday_of(w) is Some,
        time_fields_ok(h, mi, se, n),
        gaps_ok(day_pieces(seq![md, w], h, mi, se, n), g),
        join(day_pieces(seq![md, w], h, mi, se, n), g).len() <= usize::MAX,
    ensures
        clue_of(join(day_pieces(seq![md, w], h, mi, se, n), g)) == Ok::<TimeClue, ParseErrorView>(
            TimeClue::RelativeDayAt(crate::vocab::modifier_of(md)->Some_0, crate::vocab::weekday_of(w)->Some_0,
                day_time(h, mi, se, n))),
{
    assert(exists|i: int| 9 <= i < VOCAB_LEN && is_word(w, word(i))) by {
        if is_word(w, word(9)) { assert(is_word(w, word(9))); }
        else if is_word(w, word(10)) { assert(is_word(w, word(10))); }
        else if is_word(w, word(11)) { assert(is_word(w, word(11))); }
        else if is_word(w, word(12)) { assert(is_word(w, word(12))); }
        else if is_word(w, word(13)) { assert(is_word(w, word(13))); }
        else if is_word(w, word(14)) { assert(is_word(w, word(14))); }
        else { assert(is_word(w, word(15))); }
    }
    let i: int = choose|i: int| 9 <= i < VOCAB_LEN && is_word(w, word(i));
    lemma_word_piece(w, i);
    let im: int = if is_word(md, word(5)) { 5 } else { 6 };
    lemma_word_piece(md, im);
    let head = seq![md, w];
    let hk = seq![TokenKind::Modifier, TokenKind::Weekday];
    assert(forall|m: int| 0 <= m < head.len() ==> piece_kind(#[trigger] head[m]) == Some(hk[m]) && !all_digits(head[m])) by {
        assert(head[0] == md && head[1] == w);
    }
    lemma_day_scan(head, hk, h, mi, se, n, g);
}

/// "today" or "yesterday" gives `ShortcutDayAt`, with no time unless one
/// follows "at".
pub proof fn lemma_shortcut_day(d: Seq<char>, h: Seq<char>, mi: Seq<char>, se: Seq<char>, n: int, g: Seq<Seq<char>>)
    requires
        crate::vocab::shortcut_day_of(d) is Some,
        time_fields_ok(h, mi, se, n),
        gaps_ok(day_pieces(seq![d], h, mi, se, n), g),
        join(day_pieces(seq![d], h, mi, se, n), g).len() <= usize::MAX,
    ensures
        clue_of(join(day_pieces(seq![d], h, mi, se, n), g)) == Ok::<TimeClue, ParseErrorView>(
            TimeClue::ShortcutDayAt(crate::vocab::shortcut_day_of(d)->Some_0, day_time(h, mi, se, n))),
{
    let i: int = if is_word(d, word(7)) { 7 } else { 8 };
    lemma_word_piece(d, i);
    lemma_day_scan(seq![d], seq![TokenKind::ShortcutDay], h, mi, se, n, g);
}

pub open spec fn tok_kinds(ts: Seq<Token>) -> Seq<TokenKind> {
    ts.map_values(|t: Token| t.kind)
}

/// A token of a name kind holds a name of that kind.
pub open spec fn name_ok(s: Seq<char>, t: Token) -> bool {
    &&& t.kind == TokenKind::Weekday ==> crate::vocab::weekday_of(text(s, t)) is Some
    &&& t.kind == TokenKind::Modifier ==> crate::vocab::modifier_of(text(s, t)) is Some
    &&& t.kind == TokenKind::Quantifier ==> crate::vocab::quantifier_of(text(s, t)) is Some
    &&& t.kind == TokenKind::ShortcutDay ==> crate::vocab::shortcut_day_of(text(s, t)) is Some
}

proof fn lemma_word_token_name(s: Seq<char>, j: int, idx: int)
    requires
        0 <= j,
        0 <= idx < VOCAB_LEN,
        s.len() <= usize::MAX,
        word_at(s, j, word(idx)),
    ensures
        name_ok(s, Token { kind: word_kind(idx), start: j as usize, end: (j + word(idx).len()) as usize }),
{
    let t = Token { kind: word_kind(idx), start: j as usize, end: (j + word(idx).len()) as usize };
    let w = text(s, t);
    assert(is_word(w, word(idx))) by {
        assert forall|k: int| 0 <= k < word(idx).len() implies same_letter(#[trigger] w[0 + k], word(idx)[k]) by {
            assert(w[0 + k] == s[j + k]);
        }
    }
}

proof fn lemma_scan_sound(s: Seq<char>, i: int, st: GState)
    requires
        0 <= i <= s.len(),
        s.len() <= usize::MAX,
    ensures
        scan(s, i, st) matches Ok(ts) ==> (walk(tok_kinds(ts), st) matches Some(f) && accepting(f))
            && forall|m: int| 0 <= m < ts.len() ==> name_ok(s, #[trigger] ts[m]),
    decreases s.len() - i,
{
    crate::lexer::lemma_skip_ws(s, i);
    let j = skip_ws(s, i);
    if j < s.len() {
        crate::lexer::lemma_token_at(s, j);
        if let Some((kd, n)) = token_at(s, j) {
            if let Some(next) = step(st, kd) {
                lemma_scan_sound(s, j + n, next);
                if let Ok(rest) = scan(s, j + n, next) {
                    let tok = Token { kind: kd, start: j as usize, end: (j + n) as usize };
                    let ts = seq![tok] + rest;
                    assert(scan(s, i, st) == Ok::<Seq<Token>, (int, GState)>(ts));
                    assert(tok_kinds(ts).drop_first() =~= tok_kinds(rest));
                    if !crate::lexer::is_digit(s[j]) && s[j] != ':' && s[j] != '-' && s[j] != '+' {
                        crate::lexer::lemma_first_word(s, j, 0);
                        let idx = first_word(s, j, 0)->Some_0;
                        lemma_word_token_name(s, j, idx);
                    }
                    assert forall|m: int| 0 <= m < ts.len() implies name_ok(s, #[trigger] ts[m]) by {
                        if m > 0 {
                            assert(ts[m] == rest[m - 1]);
                        }
                    }
                }
            }
        }
    }
}

/// The grammar run over the kinds `ks` from index `i` on.
pub open spec fn walk_from(ks: Seq<TokenKind>, i: int, st: GState) -> Option<GState> {
    walk(ks.subrange(i, ks.len() as int), st)
}

pub open spec fn walk_accepts(ks: Seq<TokenKind>, i: int, st: GState) -> bool {
    walk_from(ks, i, st) matches Some(f) && accepting(f)
}

proof fn lemma_walk_from_step(ks: Seq<TokenKind>, i: int, st: GState)
    requires
        0 <= i <= ks.len(),
    ensures
        i == ks.len() ==> walk_from(ks, i, st) == Some(st),
        i < ks.len() ==> walk_from(ks, i, st) == match step(st, ks[i]) {
            None => None,
            Some(n) => walk_from(ks, i + 1, n),
        },
{
    if i < ks.len() {
        assert(ks.subrange(i, ks.len() as int).drop_first() =~= ks.subrange(i + 1, ks.len() as int));
    } else {
        assert(ks.subrange(i, ks.len() as int) =~= Seq::<TokenKind>::empty());
    }
}

/// The kinds from `i` on are a clock time: hour, hour:minute or hour:minute:second.
pub open spec fn time_shape(ks: Seq<TokenKind>, i: int) -> bool {
    ||| ks.len() == i + 1 && ks[i] == TokenKind::Int
    ||| ks.len() == i + 3 && ks[i] == TokenKind::Int && ks[i + 1] == TokenKind::Colon && ks[i + 2] == TokenKind::Int
    ||| ks.len() == i + 5 && ks[i] == TokenKind::Int && ks[i + 1] == TokenKind::Colon && ks[i + 2] == TokenKind::Int
        && ks[i + 3] == TokenKind::Colon && ks[i + 4] == TokenKind::Int
}

proof fn lemma_after_colon(ks: Seq<TokenKind>, i: int, c: crate::grammar::TimeContext)
    requires
        0 <= i <= ks.len(),
        walk_accepts(ks, i, GState::HourColon(c)),
    ensures
        ks.len() == i + 1 || ks.len() == i + 3,
        ks[i] == TokenKind::Int,
        ks.len() == i + 3 ==> ks[i + 1] == TokenKind::Colon && ks[i + 2] == TokenKind::Int,
{
    lemma_walk_from_step(ks, i, GState::HourColon(c));
    lemma_walk_from_step(ks, i + 1, GState::Minute(c));
    if ks.len() > i + 1 {
        lemma_walk_from_step(ks, i + 2, GState::MinuteColon(c));
        lemma_walk_from_step(ks, i + 3, GState::Second(c));
    }
}

/// After the hour of a time that follows a day or a date, only
/// ":<minute>" and then ":<second>" may come.
proof fn lemma_hour_tail(ks: Seq<TokenKind>, i: int, c: crate::grammar::TimeContext)
    requires
        1 <= i <= ks.len(),
        ks[i - 1] == TokenKind::Int,
        c != crate::grammar::TimeContext::Bare,
        walk_accepts(ks, i, GState::Hour(c)),
    ensures
        time_shape(ks, i - 1),
{
    lemma_walk_from_step(ks, i, GState::Hour(c));
    if i < ks.len() {
        lemma_after_colon(ks, i + 1, c);
        if ks.len() == i + 2 {
        } else {
            lemma_walk_from_step(ks, i + 1, GState::HourColon(c));
            lemma_walk_from_step(ks, i + 2, GState::Minute(c));
            lemma_walk_from_step(ks, i + 3, GState::MinuteColon(c));
        }
    }
}

/// What may follow a day name: nothing, or "at" and a clock time.
proof fn lemma_day_tail(ks: Seq<TokenKind>, i: int)
    requires
        0 <= i <= ks.len(),
        walk_accepts(ks, i, GState::DayName),
    ensures
        ks.len() == i || (ks[i] == TokenKind::At && time_shape(ks, i + 1)),
{
    lemma_walk_from_step(ks, i, GState::DayName);
    if i < ks.len() {
        lemma_walk_from_step(ks, i + 1, GState::DayAt);
        lemma_hour_tail(ks, i + 2, crate::grammar::TimeContext::Day);
    }
}

/// What may follow the dash after a year: month, dash, day, "at", a clock time.
proof fn lemma_date_tail(ks: Seq<TokenKind>, i: int)
    requires
        0 <= i <= ks.len(),
        walk_accepts(ks, i, GState::YearDash),
    ensures
        ks.len() >= i + 5,
        ks[i] == TokenKind::Int && ks[i + 1] == TokenKind::Dash && ks[i + 2] == TokenKind::Int,
        ks[i + 3] == TokenKind::At,
        time_shape(ks, i + 4),
{
    lemma_walk_from_step(ks, i, GState::YearDash);
    lemma_walk_from_step(ks, i + 1, GState::Month);
    lemma_walk_from_step(ks, i + 2, GState::MonthDash);
    lemma_walk_from_step(ks, i + 3, GState::Day);
    lemma_walk_from_step(ks, i + 4, GState::DateAt);
    lemma_hour_tail(ks, i + 5, crate::grammar::TimeContext::Iso);
}

proof fn lemma_time_in_sync(s: Seq<char>, ts: Seq<Token>, i: int)
    requires
        0 <= i,
        time_shape(tok_kinds(ts), i),
    ensures
        crate::reducer::time_spec(s, ts, i) matches Err(e) ==> e is ParseInt,
{
    assert(forall|m: int| 0 <= m < ts.len() ==> tok_kinds(ts)[m] == (#[trigger] ts[m]).kind);
}

#[verifier::spinoff_prover]
#[verifier::rlimit(60)]
proof fn lemma_reduce_in_sync(s: Seq<char>, ts: Seq<Token>)
    requires
        walk(tok_kinds(ts), GState::Start) matches Some(f) && accepting(f),
        forall|m: int| 0 <= m < ts.len() ==> name_ok(s, #[trigger] ts[m]),
    ensures
        reduce(s, ts) matches Err(e) ==> e is ParseInt,
{
    let ks = tok_kinds(ts);
    let n = ks.len();
    assert(forall|m: int| 0 <= m < ts.len() ==> ks[m] == (#[trigger] ts[m]).kind);
    assert(ks.subrange(0, n as int) =~= ks);
    assert(walk_accepts(ks, 0, GState::Start));
    lemma_walk_from_step(ks, 0, GState::Start);
    assert(n > 0);
    assert(name_ok(s, ts[0]));
    let k0 = ks[0];
    if k0 == TokenKind::Now {
        lemma_walk_from_step(ks, 1, GState::AfterNow);
    } else if k0 == TokenKind::Int {
        lemma_walk_from_step(ks, 1, GState::Hour(crate::grammar::TimeContext::Bare));
        if n > 1 {
            assert(name_ok(s, ts[1]));
            let k1 = ks[1];
            if k1 == TokenKind::Colon {
                lemma_after_colon(ks, 2, crate::grammar::TimeContext::Bare);
                lemma_time_in_sync(s, ts, 0);
            } else if k1 == TokenKind::Quantifier {
                lemma_walk_from_step(ks, 2, GState::Quantified);
                lemma_walk_from_step(ks, 3, GState::Relative);
            } else {
                lemma_date_tail(ks, 2);
                lemma_time_in_sync(s, ts, 6);
            }
        } else {
            lemma_time_in_sync(s, ts, 0);
        }
    } else if k0 == TokenKind::Dash || k0 == TokenKind::Plus {
        lemma_walk_from_step(ks, 1, GState::YearSign);
        lemma_walk_from_step(ks, 2, GState::Year);
        lemma_date_tail(ks, 3);
        lemma_time_in_sync(s, ts, 7);
    } else if k0 == TokenKind::Modifier {
        lemma_walk_from_step(ks, 1, GState::Modified);
        assert(name_ok(s, ts[1]));
        lemma_day_tail(ks, 2);
        if n > 2 {
            lemma_time_in_sync(s, ts, 3);
        }
    } else {
        lemma_day_tail(ks, 1);
        if n > 1 {
            lemma_time_in_sync(s, ts, 2);
        }
    }
}

/// The grammar and the reducer agree: whatever the input, parsing fails only
/// with a syntax error or with a number too large for its field, never with
/// an unknown name or a token shape that the reducer has no case for.
pub proof fn lemma_reducer_in_sync(s: Seq<char>)
    requires
        s.len() <= usize::MAX,
    ensures
        clue_of(s) matches Err(e) ==> (e is Syntax || e is ParseInt),
{
    lemma_scan_sound(s, 0, GState::Start);
    if let Ok(ts) = tokens_of(s) {
        lemma_reduce_in_sync(s, ts);
    }
}

/// Every token of a successful scan is the token found at its start.
proof fn lemma_scan_tokens(s: Seq<char>, i: int, st: GState)
    requires
        0 <= i <= s.len(),
        s.len() <= usize::MAX,
    ensures
        scan(s, i, st) matches Ok(ts) ==> forall|m: int| 0 <= m < ts.len() ==> i <= (#[trigger] ts[m]).start
            && token_at(s, ts[m].start as int) == Some((ts[m].kind, ts[m].end - ts[m].start)),
    decreases s.len() - i,
{
    crate::lexer::lemma_skip_ws(s, i);
    let j = skip_ws(s, i);
    if j < s.len() {
        crate::lexer::lemma_token_at(s, j);
        if let Some((kd, n)) = token_at(s, j) {
            if let Some(next) = step(st, kd) {
                lemma_scan_tokens(s, j + n, next);
                if let Ok(rest) = scan(s, j + n, next) {
                    let tok = Token { kind: kd, start: j as usize, end: (j + n) as usize };
                    let ts = seq![tok] + rest;
                    assert(scan(s, i, st) == Ok::<Seq<Token>, (int, GState)>(ts));
                    assert forall|m: int| 0 <= m < ts.len() implies i <= (#[trigger] ts[m]).start
                        && token_at(s, ts[m].start as int) == Some((ts[m].kind, ts[m].end - ts[m].start)) by {
                        if m > 0 {
                            assert(ts[m] == rest[m - 1]);
                        }
                    }
                }
            }
        }
    }
}

/// No token holds whitespace.
proof fn lemma_token_chars(s: Seq<char>, j: int)
    requires
        0 <= j,
    ensures
        token_at(s, j) matches Some((k, n)) ==> forall|q: int| j <= q < j + n ==> !is_ws(#[trigger] s[q]),
{
    crate::lexer::lemma_token_at(s, j);
    if 0 <= j < s.len() {
        if is_digit(s[j]) {
            crate::lexer::lemma_digit_end(s, j);
        } else if s[j] != ':' && s[j] != '-' && s[j] != '+' {
            crate::lexer::lemma_first_word(s, j, 0);
            if let Some(i) = first_word(s, j, 0) {
                lemma_word_shape(i);
                assert forall|q: int| j <= q < j + word(i).len() implies !is_ws(#[trigger] s[q]) by {
                    assert(same_letter(s[j + (q - j)], word(i)[q - j]));
                    assert(is_lower(word(i)[q - j]));
                }
            }
        }
    }
}

/// `w` and the vocabulary word `v` differ within their common length.
pub open spec fn differs_early(w: Seq<char>, v: Seq<char>) -> bool {
    exists|k: int| 0 <= k < w.len() && k < v.len() && !same_letter(#[trigger] w[k], v[k])
}

/// A word outside the vocabulary, at the start of the input or after
/// whitespace, makes the input fail with a syntax error. The word may not
/// begin like a number or a sign or a colon, and it shares no prefix with any
/// vocabulary word that is the whole of either.
pub proof fn lemma_unknown_word_fails(a: Seq<char>, w: Seq<char>, b: Seq<char>)
    requires
        a.len() == 0 || is_ws(a.last()),
        w.len() > 0,
        !is_ws(w[0]) && !is_digit(w[0]) && w[0] != ':' && w[0] != '-' && w[0] != '+',
        forall|i: int| 0 <= i < VOCAB_LEN ==> differs_early(w, #[trigger] word(i)),
        (a + w + b).len() <= usize::MAX,
    ensures
        clue_of(a + w + b) is Err,
        clue_of(a + w + b)->Err_0 is Syntax,
{
    let s = a + w + b;
    let j = a.len() as int;
    assert(s[j] == w[0]);
    lemma_scan_covers(s, 0, GState::Start);
    lemma_scan_tokens(s, 0, GState::Start);
    if let Ok(ts) = scan(s, 0, GState::Start) {
        assert(covered(ts, j));
        let m = choose|m: int| 0 <= m < ts.len() && (#[trigger] ts[m]).start <= j < ts[m].end;
        let t = ts[m];
        let st = t.start as int;
        lemma_token_chars(s, st);
        if st < j {
            assert(s[j - 1] == a.last());
            assert(!is_ws(s[j - 1]));
        } else {
            crate::lexer::lemma_first_word(s, j, 0);
            let i = first_word(s, j, 0)->Some_0;
            assert(differs_early(w, word(i)));
            let k = choose|k: int| 0 <= k < w.len() && k < word(i).len() && !same_letter(#[trigger] w[k], word(i)[k]);
            assert(s[j + k] == w[k]);
        }
    }
}

proof fn lemma_no_now_after(ks: Seq<TokenKind>, i: int, st: GState)
    requires
        0 <= i <= ks.len(),
        st != GState::Start,
        walk_from(ks, i, st) is Some,
    ensures
        forall|m: int| i <= m < ks.len() ==> ks[m] != TokenKind::Now,
    decreases ks.len() - i,
{
    lemma_walk_from_step(ks, i, st);
    if i < ks.len() {
        let next = step(st, ks[i])->Some_0;
        lemma_no_now_after(ks, i + 1, next);
    }
}

/// Of the vocabulary, only "now" ends in `w`.
proof fn lemma_only_now_ends_in_w(i: int)
    requires
        0 <= i < VOCAB_LEN,
        word(i)[word(i).len() - 1] == 'w',
    ensures
        i == 0,
{
}

/// Anything but whitespace before "now" makes the input fail with a syntax error.
#[verifier::spinoff_prover]
#[verifier::rlimit(60)]
pub proof fn lemma_more_then_now_fails(t: Seq<char>, k: int)
    requires
        0 <= k < t.len(),
        !is_ws(t[k]),
        t.len() + word(0).len() <= usize::MAX,
    ensures
        clue_of(t + word(0)) is Err,
        clue_of(t + word(0))->Err_0 is Syntax,
{
    let s = t + word(0);
    let n_all = s.len() as int;
    assert(word(0).len() == 3);
    assert(s[n_all - 1] == 'w');
    assert(s[k] == t[k]);
    lemma_scan_covers(s, 0, GState::Start);
    lemma_scan_tokens(s, 0, GState::Start);
    lemma_scan_sound(s, 0, GState::Start);
    if let Ok(ts) = scan(s, 0, GState::Start) {
        assert(covered(ts, n_all - 1));
        let m = choose|m: int| 0 <= m < ts.len() && (#[trigger] ts[m]).start <= n_all - 1 < ts[m].end;
        let tk = ts[m];
        let st = tk.start as int;
        crate::lexer::lemma_token_at(s, st);
        assert(tk.end == n_all);
        if is_digit(s[st]) {
            crate::lexer::lemma_digit_end(s, st);
            assert(is_digit(s[n_all - 1]));
        } else if s[st] == ':' || s[st] == '-' || s[st] == '+' {
        } else {
            crate::lexer::lemma_first_word(s, st, 0);
            let i = first_word(s, st, 0)->Some_0;
            lemma_word_shape(i);
            let last = word(i).len() - 1;
            assert(same_letter(s[st + last], word(i)[last]));
            lemma_same_letter_unique(s[n_all - 1], word(i)[last], 'w');
            lemma_only_now_ends_in_w(i);
            assert(tk.kind == TokenKind::Now);
            let ks = tok_kinds(ts);
            assert(ks[m] == TokenKind::Now);
            assert(ks.subrange(0, ks.len() as int) =~= ks);
            lemma_walk_from_step(ks, 0, GState::Start);
            lemma_no_now_after(ks, 1, step(GState::Start, ks[0])->Some_0);
            assert(m == 0);
            lemma_walk_from_step(ks, 1, GState::AfterNow);
            assert(ts.len() == 1);
            assert(covered(ts, k));
            assert(ts[0].start <= k);
        }
    }
}

} // verus!
