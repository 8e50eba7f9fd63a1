use vstd::prelude::*;

verus! {

/// Clock time as (hour, minute, second).
pub type HMS = (u32, u32, u32);

/// Calendar date as (year, month, day).
pub type YMD = (i32, u32, u32);

#[derive(Debug, Clone, Copy, PartialEq, Eq, Structural)]
pub enum Weekday {
    Mon,
    Tue,
    Wed,
    Thu,
    Fri,
    Sat,
    Sun,
}

#[derive(Debug, Clone, Copy, PartialEq, Eq, Structural)]
pub enum ShortcutDay {
    Today,
    Yesterday,
}

#[derive(Debug, Clone, Copy, PartialEq, Eq, Structural)]
pub enum Modifier {
    Last,
    Next,
}

#[derive(Debug, Clone, Copy, PartialEq, Eq, Structural)]
pub enum Quantifier {
    Min,
    Days,
}

/// The structured descriptor produced by a successful parse.
#[derive(Debug, Clone, Copy, PartialEq, Eq)]
pub enum TimeClue {
    Now,
    Time(HMS),
    Relative(usize, Quantifier),
    RelativeDayAt(Modifier, Weekday, Option<HMS>),
    SameWeekDayAt(Weekday, Option<HMS>),
    ShortcutDayAt(ShortcutDay, Option<HMS>),
    ISO(YMD, HMS),
}

/// The kinds of token that the grammar is written over.
#[derive(Debug, Clone, Copy, PartialEq, Eq, Structural)]
pub enum TokenKind {
    Now,
    Int,
    Colon,
    Dash,
    Plus,
    At,
    Ago,
    Quantifier,
    Modifier,
    Weekday,
    ShortcutDay,
}

/// Why a parse failed.
#[derive(Debug, Clone, PartialEq, Eq)]
pub enum ParseError {
    /// A digit run that does not fit its field; holds the digits.
    ParseInt(String),
    /// The input is not a phrase: `pos` is the character index where the
    /// phrase could not go on, `expected` the token kinds that could have
    /// stood there.
    Syntax { pos: usize, expected: Vec<TokenKind> },
    /// The token sequence has a shape the reducer has no case for.
    UnexpectedNonMatchingPattern,
    UnknownWeekday(String),
    UnknownShortcutDay(String),
    UnknownModifier(String),
    UnknownQuantifier(String),
}

/// What a `ParseError` says, over mathematical values.
pub enum ParseErrorView {
    ParseInt(Seq<char>),
    Syntax { pos: nat, expected: Seq<TokenKind> },
    UnexpectedNonMatchingPattern,
    UnknownWeekday(Seq<char>),
    UnknownShortcutDay(Seq<char>),
    UnknownModifier(Seq<char>),
    UnknownQuantifier(Seq<char>),
}

impl View for ParseError {
    type V = ParseErrorView;

    open spec fn view(&self) -> ParseErrorView {
        match self {
            ParseError::ParseInt(t) => ParseErrorView::ParseInt(t@),
            ParseError::Syntax { pos, expected } => ParseErrorView::Syntax {
                pos: *pos as nat,
                expected: expected@,
            },
            ParseError::UnexpectedNonMatchingPattern => ParseErrorView::UnexpectedNonMatchingPattern,
            ParseError::UnknownWeekday(t) => ParseErrorView::UnknownWeekday(t@),
            ParseError::UnknownShortcutDay(t) => ParseErrorView::UnknownShortcutDay(t@),
            ParseError::UnknownModifier(t) => ParseErrorView::UnknownModifier(t@),
            ParseError::UnknownQuantifier(t) => ParseErrorView::UnknownQuantifier(t@),
        }
    }
}

/// A result with its error seen through `ParseError`'s view.
pub open spec fn result_view<T>(r: Result<T, ParseError>) -> Result<T, ParseErrorView> {
    match r {
        Ok(v) => Ok(v),
        Err(e) => Err(e@),
    }
}

} // verus!
