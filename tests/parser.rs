use time_clue::{parse_time_clue_from_str, Modifier, Quantifier, ShortcutDay, TimeClue, Weekday};

#[test]
fn test_parse_time_ok() {
    assert_eq!(
        TimeClue::Time((9, 0, 0)),
        parse_time_clue_from_str("9").unwrap()
    );
    assert_eq!(
        TimeClue::Time((9, 30, 0)),
        parse_time_clue_from_str("9:30").unwrap()
    );
    assert_eq!(
        TimeClue::Time((9, 30, 56)),
        parse_time_clue_from_str("9:30:56").unwrap()
    );
}

#[test]
fn test_parse_relative_ok() {
    assert_eq!(
        TimeClue::Relative(2, Quantifier::Min),
        parse_time_clue_from_str("2 min ago").unwrap()
    );
    assert_eq!(
        TimeClue::Relative(2, Quantifier::Min),
        parse_time_clue_from_str("2min ago").unwrap()
    );
    assert_eq!(
        TimeClue::Relative(2, Quantifier::Min),
        parse_time_clue_from_str("2minago").unwrap()
    );
    assert_eq!(
        TimeClue::Relative(2, Quantifier::Min),
        parse_time_clue_from_str("2  min   ago").unwrap()
    );
}

#[test]
fn test_parse_shortcut_day_ok() {
    assert_eq!(
        TimeClue::ShortcutDayAt(ShortcutDay::Today, None),
        parse_time_clue_from_str("today").unwrap()
    );
    assert_eq!(
        TimeClue::ShortcutDayAt(ShortcutDay::Today, Some((7, 0, 0))),
        parse_time_clue_from_str("today at 7").unwrap()
    );
    assert_eq!(
        TimeClue::ShortcutDayAt(ShortcutDay::Yesterday, None),
        parse_time_clue_from_str("yesterday").unwrap()
    );
    assert_eq!(
        TimeClue::ShortcutDayAt(ShortcutDay::Yesterday, Some((19, 43, 0))),
        parse_time_clue_from_str("yesterday at 19:43").unwrap()
    );
    assert_eq!(
        TimeClue::ShortcutDayAt(ShortcutDay::Yesterday, Some((19, 43, 0))),
        parse_time_clue_from_str("yesterday at 19:43:00").unwrap()
    );
}

#[test]
fn test_parse_relative_day_ok() {
    assert_eq!(TimeClue::Now, parse_time_clue_from_str("now").unwrap());
    assert_eq!(
        TimeClue::SameWeekDayAt(Weekday::Fri, Some((19, 43, 0))),
        parse_time_clue_from_str("friday at 19:43").unwrap()
    );
    assert_eq!(
        TimeClue::RelativeDayAt(Modifier::Last, Weekday::Fri, None),
        parse_time_clue_from_str("last friday").unwrap()
    );
    assert_eq!(
        TimeClue::RelativeDayAt(Modifier::Last, Weekday::Fri, Some((9, 0, 0))),
        parse_time_clue_from_str("last friday at 9").unwrap()
    );
}

#[test]
fn test_parse_same_week_ok() {
    assert_eq!(
        TimeClue::SameWeekDayAt(Weekday::Fri, Some((19, 43, 0))),
        parse_time_clue_from_str("friday at 19:43").unwrap()
    );
}

#[test]
fn test_parse_now_ok() {
    assert_eq!(TimeClue::Now, parse_time_clue_from_str("now").unwrap());
}
