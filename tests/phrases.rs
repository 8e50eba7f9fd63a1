use time_clue::lexer::Token;
use time_clue::reducer::parse_time_clue;
use time_clue::{
    modifier_from, parse_time_clue_from_str, quantifier_from, shortcut_day_from, weekday_from,
    Modifier, ParseError, Quantifier, ShortcutDay, TimeClue, TimeParser, TokenKind, Weekday,
};

#[test]
fn iso_carries_all_six_fields() {
    assert_eq!(
        TimeClue::ISO((2024, 3, 1), (14, 30, 0)),
        parse_time_clue_from_str("2024-03-01 at 14:30").unwrap()
    );
    assert_eq!(
        TimeClue::ISO((2024, 3, 1), (14, 30, 5)),
        parse_time_clue_from_str("2024-03-01 at 14:30:05").unwrap()
    );
    assert_eq!(
        TimeClue::ISO((-44, 3, 15), (12, 0, 0)),
        parse_time_clue_from_str("-44-03-15 at 12").unwrap()
    );
}

#[test]
fn iso_needs_a_time() {
    assert!(matches!(
        parse_time_clue_from_str("2024-03-01"),
        Err(ParseError::Syntax { pos: 10, .. })
    ));
}

#[test]
fn out_of_range_fields_are_kept() {
    assert_eq!(
        TimeClue::ISO((2024, 13, 40), (99, 99, 99)),
        parse_time_clue_from_str("2024-13-40 at 99:99:99").unwrap()
    );
}

#[test]
fn next_weekday_and_days() {
    assert_eq!(
        TimeClue::RelativeDayAt(Modifier::Next, Weekday::Mon, Some((8, 15, 0))),
        parse_time_clue_from_str("next monday at 8:15").unwrap()
    );
    assert_eq!(
        TimeClue::Relative(3, Quantifier::Days),
        parse_time_clue_from_str("3 days ago").unwrap()
    );
    assert_eq!(
        TimeClue::SameWeekDayAt(Weekday::Sun, None),
        parse_time_clue_from_str("sunday").unwrap()
    );
}

#[test]
fn every_weekday_name() {
    let names = ["monday", "tuesday", "wednesday", "thursday", "friday", "saturday", "sunday"];
    let days = [
        Weekday::Mon, Weekday::Tue, Weekday::Wed, Weekday::Thu, Weekday::Fri, Weekday::Sat,
        Weekday::Sun,
    ];
    for (n, d) in names.iter().zip(days.iter()) {
        assert_eq!(TimeClue::SameWeekDayAt(*d, None), parse_time_clue_from_str(n).unwrap());
        assert_eq!(*d, weekday_from(n).unwrap());
    }
}

#[test]
fn names_ignore_letter_case() {
    assert_eq!(
        TimeClue::RelativeDayAt(Modifier::Last, Weekday::Fri, None),
        parse_time_clue_from_str("Last FRIDAY").unwrap()
    );
    assert_eq!(ShortcutDay::Today, shortcut_day_from("ToDay").unwrap());
}

#[test]
fn whitespace_between_tokens_is_insignificant() {
    let expected = TimeClue::ShortcutDayAt(ShortcutDay::Today, Some((7, 5, 0)));
    for s in ["today at 7:05", "todayat7:05", "today  at  7 : 05", "\ttoday at 7:05 "] {
        assert_eq!(expected, parse_time_clue_from_str(s).unwrap());
    }
}

#[test]
fn parsing_is_deterministic() {
    for s in ["last friday at 9", "2 min ago", "bogus", "9:99999999999"] {
        assert_eq!(parse_time_clue_from_str(s), parse_time_clue_from_str(s));
    }
}

#[test]
fn now_must_stand_alone() {
    assert_eq!(
        Err(ParseError::Syntax { pos: 4, expected: vec![] }),
        parse_time_clue_from_str("now 9")
    );
    assert_eq!(
        Err(ParseError::Syntax { pos: 4, expected: vec![] }),
        parse_time_clue_from_str("now x")
    );
    assert!(parse_time_clue_from_str("today now").is_err());
}

#[test]
fn unknown_word_is_a_syntax_error() {
    assert_eq!(
        Err(ParseError::Syntax {
            pos: 5,
            expected: vec![TokenKind::Weekday],
        }),
        parse_time_clue_from_str("last fryday")
    );
}

#[test]
fn incomplete_phrase_reports_the_end() {
    assert_eq!(
        Err(ParseError::Syntax { pos: 8, expected: vec![TokenKind::Int] }),
        parse_time_clue_from_str("today at")
    );
    assert_eq!(
        Err(ParseError::Syntax { pos: 0, expected: vec![
            TokenKind::Now, TokenKind::Int, TokenKind::Dash, TokenKind::Plus, TokenKind::Modifier,
            TokenKind::Weekday, TokenKind::ShortcutDay,
        ] }),
        parse_time_clue_from_str("")
    );
}

#[test]
fn too_large_field_is_an_integer_error() {
    assert_eq!(
        Err(ParseError::ParseInt("4294967296".to_string())),
        parse_time_clue_from_str("4294967296")
    );
    assert_eq!(
        TimeClue::Time((4294967295, 0, 0)),
        parse_time_clue_from_str("4294967295").unwrap()
    );
    assert_eq!(
        Err(ParseError::ParseInt("2147483648".to_string())),
        parse_time_clue_from_str("2147483648-01-01 at 0")
    );
    assert_eq!(
        TimeClue::ISO((-2147483648, 1, 1), (0, 0, 0)),
        parse_time_clue_from_str("-2147483648-01-01 at 0").unwrap()
    );
}

#[test]
fn unknown_names_give_typed_errors() {
    assert_eq!(Err(ParseError::UnknownWeekday("fryday".to_string())), weekday_from("fryday"));
    assert_eq!(
        Err(ParseError::UnknownShortcutDay("tomorrow".to_string())),
        shortcut_day_from("tomorrow")
    );
    assert_eq!(Err(ParseError::UnknownModifier("this".to_string())), modifier_from("this"));
    assert_eq!(Err(ParseError::UnknownQuantifier("hours".to_string())), quantifier_from("hours"));
    assert_eq!(Modifier::Next, modifier_from("next").unwrap());
    assert_eq!(Quantifier::Days, quantifier_from("days").unwrap());
}

#[test]
fn tokenize_lists_the_phrase() {
    let ts = TimeParser::tokenize("2min ago").unwrap();
    let kinds: Vec<TokenKind> = ts.iter().map(|t| t.kind).collect();
    assert_eq!(vec![TokenKind::Int, TokenKind::Quantifier, TokenKind::Ago], kinds);
    assert_eq!((1, 4), (ts[1].start, ts[1].end));
    assert!(TimeParser::tokenize("2 min").is_err());
}

#[test]
fn optional_time_on_every_day_phrase() {
    assert_eq!(
        TimeClue::SameWeekDayAt(Weekday::Fri, None),
        parse_time_clue_from_str("friday").unwrap()
    );
    assert_eq!(
        TimeClue::SameWeekDayAt(Weekday::Fri, Some((7, 0, 0))),
        parse_time_clue_from_str("friday at 7").unwrap()
    );
    assert_eq!(
        TimeClue::RelativeDayAt(Modifier::Next, Weekday::Sun, None),
        parse_time_clue_from_str("next sunday").unwrap()
    );
    assert_eq!(
        TimeClue::RelativeDayAt(Modifier::Next, Weekday::Sun, Some((7, 5, 9))),
        parse_time_clue_from_str("next sunday at 7:05:09").unwrap()
    );
    assert_eq!(
        TimeClue::ShortcutDayAt(ShortcutDay::Yesterday, Some((23, 0, 0))),
        parse_time_clue_from_str("yesterday at 23").unwrap()
    );
}

#[test]
fn extra_tokens_around_now_fail() {
    assert!(parse_time_clue_from_str("x now").is_err());
    assert!(parse_time_clue_from_str("9 now").is_err());
    assert!(parse_time_clue_from_str("nownow").is_err());
    assert_eq!(TimeClue::Now, parse_time_clue_from_str("  now\t").unwrap());
}

#[test]
fn trailing_content_is_rejected() {
    assert_eq!(
        Err(ParseError::Syntax { pos: 10, expected: vec![] }),
        parse_time_clue_from_str("2 min ago x")
    );
    assert_eq!(
        Err(ParseError::Syntax { pos: 12, expected: vec![TokenKind::At] }),
        parse_time_clue_from_str("last friday friday")
    );
    assert!(parse_time_clue_from_str("9:30:56:12").is_err());
    assert!(parse_time_clue_from_str("today at 7 pm").is_err());
}

#[test]
fn modified_and_bare_weekday_stay_distinct() {
    let bare = parse_time_clue_from_str("friday at 19:43").unwrap();
    let last = parse_time_clue_from_str("last friday at 19:43").unwrap();
    assert_eq!(TimeClue::SameWeekDayAt(Weekday::Fri, Some((19, 43, 0))), bare);
    assert_eq!(TimeClue::RelativeDayAt(Modifier::Last, Weekday::Fri, Some((19, 43, 0))), last);
    assert_ne!(bare, last);
}

#[test]
fn relative_count_may_be_large() {
    assert_eq!(
        TimeClue::Relative(123456, Quantifier::Days),
        parse_time_clue_from_str("123456days ago").unwrap()
    );
    assert_eq!(
        Err(ParseError::ParseInt("99999999999999999999999".to_string())),
        parse_time_clue_from_str("99999999999999999999999 min ago")
    );
}

#[test]
fn signed_years() {
    assert_eq!(
        TimeClue::ISO((2024, 3, 1), (9, 0, 0)),
        parse_time_clue_from_str("+2024-03-01 at 9").unwrap()
    );
    assert_eq!(
        Err(ParseError::ParseInt("-2147483649".to_string())),
        parse_time_clue_from_str("-2147483649-01-01 at 0")
    );
    assert_eq!(
        Err(ParseError::ParseInt("+2147483648".to_string())),
        parse_time_clue_from_str("+2147483648-01-01 at 0")
    );
}

#[test]
fn iso_with_shorter_times() {
    assert_eq!(
        TimeClue::ISO((2024, 3, 1), (14, 0, 0)),
        parse_time_clue_from_str("2024-03-01 at 14").unwrap()
    );
    assert_eq!(
        TimeClue::ISO((2024, 3, 1), (14, 30, 0)),
        parse_time_clue_from_str("2024-03-01at14:30").unwrap()
    );
}

fn tok(kind: TokenKind, start: usize, end: usize) -> Token {
    Token { kind, start, end }
}

#[test]
fn date_without_time_is_an_unmatched_shape() {
    let s = "2147483648-01-01 at";
    let chars: Vec<char> = s.chars().collect();
    let ts = vec![
        tok(TokenKind::Int, 0, 10),
        tok(TokenKind::Dash, 10, 11),
        tok(TokenKind::Int, 11, 13),
        tok(TokenKind::Dash, 13, 14),
        tok(TokenKind::Int, 14, 16),
        tok(TokenKind::At, 17, 19),
    ];
    assert_eq!(Err(ParseError::UnexpectedNonMatchingPattern), parse_time_clue(s, &chars, &ts));
}

#[test]
fn day_with_bad_tail_is_an_unmatched_shape() {
    let s = "xx friday 9";
    let chars: Vec<char> = s.chars().collect();
    let ts = vec![
        tok(TokenKind::Modifier, 0, 2),
        tok(TokenKind::Weekday, 3, 9),
        tok(TokenKind::Int, 10, 11),
    ];
    assert_eq!(Err(ParseError::UnexpectedNonMatchingPattern), parse_time_clue(s, &chars, &ts));
    let ts = vec![tok(TokenKind::Modifier, 0, 2), tok(TokenKind::Weekday, 3, 9)];
    assert_eq!(Err(ParseError::UnknownModifier("xx".to_string())), parse_time_clue(s, &chars, &ts));
}

#[test]
fn unknown_words_in_phrases_fail() {
    assert!(matches!(parse_time_clue_from_str("tomorrow at 7"), Err(ParseError::Syntax { pos: 0, .. })));
    assert!(matches!(parse_time_clue_from_str("previous friday"), Err(ParseError::Syntax { pos: 0, .. })));
    assert!(matches!(parse_time_clue_from_str("just now"), Err(ParseError::Syntax { pos: 0, .. })));
    assert_eq!(
        Err(ParseError::Syntax {
            pos: 2,
            expected: vec![TokenKind::Colon, TokenKind::Dash, TokenKind::Quantifier],
        }),
        parse_time_clue_from_str("2 hours ago")
    );
    assert!(matches!(parse_time_clue_from_str("now now"), Err(ParseError::Syntax { .. })));
    assert!(matches!(parse_time_clue_from_str("now at 9"), Err(ParseError::Syntax { .. })));
}
