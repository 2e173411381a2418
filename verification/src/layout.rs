//! The fixed-width column layout of an event line.
//!
//! Offsets count characters from the start of the line. A line may stop short
//! of any column: what is missing reads as blank, exactly as if the line had
//! been padded with spaces on the right.

use crate::text::{
    is_trimmed, lemma_trim_ignores_padding, lemma_trim_unique, spaces, trim, trim_range,
};
use vstd::prelude::*;

verus! {

/// Offset at which the customer column starts.
pub const CUSTOMER: usize = 0;

/// Offset at which the date column starts.
pub const DATE: usize = 41;

/// Offset at which the adder column starts.
pub const ADDER: usize = 54;

/// Offset at which the hours column starts.
pub const HOURS: usize = 76;

/// Offset at which the MSR column starts.
pub const MSR: usize = 89;

/// Offset at which the time-in column starts.
pub const TIME_IN: usize = 101;

/// Offset at which the time-out column starts.
pub const TIME_OUT: usize = 115;

/// Offset at which the meals column starts.
pub const MEALS: usize = 129;

/// Offset at which the travel meet time column starts.
pub const TRAVEL_MEET_TIME: usize = 139;

/// Offset at which the travel return time column starts.
pub const TRAVEL_RTN_TIME: usize = 154;

/// The columns of an event line, in the order in which they stand.
#[derive(Debug, Clone, Copy, PartialEq, Eq, Structural)]
pub enum Column {
    Customer,
    Date,
    Adder,
    Hours,
    Msr,
    TimeIn,
    TimeOut,
    Meals,
    TravelMeetTime,
    TravelReturnTime,
}

impl Column {
    /// Offset of the column's first character.
    pub open spec fn start(self) -> nat {
        match self {
            Column::Customer => CUSTOMER as nat,
            Column::Date => DATE as nat,
            Column::Adder => ADDER as nat,
            Column::Hours => HOURS as nat,
            Column::Msr => MSR as nat,
            Column::TimeIn => TIME_IN as nat,
            Column::TimeOut => TIME_OUT as nat,
            Column::Meals => MEALS as nat,
            Column::TravelMeetTime => TRAVEL_MEET_TIME as nat,
            Column::TravelReturnTime => TRAVEL_RTN_TIME as nat,
        }
    }

    /// Offset just past the column's last character; `None` for the last
    /// column, which runs to the end of the line.
    pub open spec fn end(self) -> Option<nat> {
        match self {
            Column::Customer => Some(DATE as nat),
            Column::Date => Some(ADDER as nat),
            Column::Adder => Some(HOURS as nat),
            Column::Hours => Some(MSR as nat),
            Column::Msr => Some(TIME_IN as nat),
            Column::TimeIn => Some(TIME_OUT as nat),
            Column::TimeOut => Some(MEALS as nat),
            Column::Meals => Some(TRAVEL_MEET_TIME as nat),
            Column::TravelMeetTime => Some(TRAVEL_RTN_TIME as nat),
            Column::TravelReturnTime => None,
        }
    }

    /// The column's bounds: its start, and its end where it has one.
    pub fn bounds(self) -> (r: (usize, Option<usize>))
        ensures
            r.0 == self.start(),
            r.1 matches Some(e) ==> self.end() == Some(e as nat) && r.0 <= e,
            r.1 is None ==> self.end() is None,
    {
        match self {
            Column::Customer => (CUSTOMER, Some(DATE)),
            Column::Date => (DATE, Some(ADDER)),
            Column::Adder => (ADDER, Some(HOURS)),
            Column::Hours => (HOURS, Some(MSR)),
            Column::Msr => (MSR, Some(TIME_IN)),
            Column::TimeIn => (TIME_IN, Some(TIME_OUT)),
            Column::TimeOut => (TIME_OUT, Some(MEALS)),
            Column::Meals => (MEALS, Some(TRAVEL_MEET_TIME)),
            Column::TravelMeetTime => (TRAVEL_MEET_TIME, Some(TRAVEL_RTN_TIME)),
            Column::TravelReturnTime => (TRAVEL_RTN_TIME, None),
        }
    }
}

/// `offset`, or the length of `line` where the line is shorter.
pub open spec fn clamp(offset: nat, line: Seq<char>) -> int {
    if offset <= line.len() {
        offset as int
    } else {
        line.len() as int
    }
}

/// The characters of `line` that stand in `col`.
pub open spec fn column_slice(line: Seq<char>, col: Column) -> Seq<char> {
    let end = match col.end() {
        Some(e) => clamp(e, line),
        None => line.len() as int,
    };
    line.subrange(clamp(col.start(), line), end)
}

/// The content of `col` in `line`: what stands in the column, trimmed.
pub open spec fn column_text(line: Seq<char>, col: Column) -> Seq<char> {
    trim(column_slice(line, col))
}

/// The characters from `col.start()` to `col.end()` of a line long enough to
/// hold every column: no offset needs clamping there.
pub open spec fn plain_slice(line: Seq<char>, col: Column) -> Seq<char>
    recommends
        line.len() >= TRAVEL_RTN_TIME,
{
    let end = match col.end() {
        Some(e) => e as int,
        None => line.len() as int,
    };
    line.subrange(col.start() as int, end)
}

/// Spaces added on the right of a line change the content of no column.
pub proof fn lemma_padding_is_immaterial(line: Seq<char>, n: nat, col: Column)
    ensures
        column_text(line + spaces(n), col) == column_text(line, col),
{
    let padded = line + spaces(n);
    let short = column_slice(line, col);
    let long = column_slice(padded, col);
    let k = (long.len() - short.len()) as nat;
    assert(long == short + spaces(k));
    lemma_trim_ignores_padding(short, k);
}

/// Reading a column is slicing the padded line: once enough spaces stand on
/// the right for the line to reach the last column, however many they are, the
/// content of a column is what stands between its two offsets, trimmed.
pub proof fn lemma_column_text_is_padded_slice(line: Seq<char>, n: nat, col: Column)
    requires
        line.len() + n >= TRAVEL_RTN_TIME,
    ensures
        column_text(line, col) == trim(plain_slice(line + spaces(n), col)),
{
    lemma_padding_is_immaterial(line, n, col);
}

impl Column {
    /// Whether `text` can stand in the column as its content: it is trimmed,
    /// and no wider than the column.
    pub open spec fn holds(self, text: Seq<char>) -> bool {
        is_trimmed(text) && match self.end() {
            Some(e) => text.len() <= e - self.start(),
            None => true,
        }
    }
}

/// Whether offset `i` lies in column `col`.
pub open spec fn in_column(col: Column, i: int) -> bool {
    col.start() <= i && match col.end() {
        Some(e) => i < e,
        None => true,
    }
}

/// Whether `text` was placed in column `col` of `line`: it stands at the
/// column's offset, and spaces alone fill what is left of the column. An
/// empty text is placed in a column that the line stops short of.
pub open spec fn placed_at(line: Seq<char>, col: Column, text: Seq<char>) -> bool {
    let start = col.start() as int;
    let stop = start + text.len();
    &&& col.holds(text)
    &&& text.len() > 0 ==> stop <= line.len() && line.subrange(start, stop) == text
    &&& forall|i: int| stop <= i < line.len() && in_column(col, i) ==> line[i] == ' '
}

/// Slicing is exact: the content of a column is the text that was placed in
/// it.
pub proof fn lemma_placed_text_is_read(line: Seq<char>, col: Column, text: Seq<char>)
    requires
        placed_at(line, col, text),
    ensures
        column_text(line, col) == text,
{
    lemma_trim_unique(column_slice(line, col), 0, text.len() as int);
}

/// Locates the content of `col` in `line`: the result `(a, b)` bounds it.
pub fn column_range(line: &Vec<char>, col: Column) -> (r: (usize, usize))
    ensures
        r.0 <= r.1 <= line.len(),
        line@.subrange(r.0 as int, r.1 as int) == column_text(line@, col),
{
    let n = line.len();
    let (start, end) = col.bounds();
    let lo = if start <= n {
        start
    } else {
        n
    };
    let hi = match end {
        Some(e) => if e <= n {
            e
        } else {
            n
        },
        None => n,
    };
    trim_range(line, lo, hi)
}

} // verus!
