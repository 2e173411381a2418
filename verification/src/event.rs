//! One pay event: reading it from a fixed-width line and writing it as a CSV
//! row.

use crate::layout::{column_range, column_text, lemma_placed_text_is_read, placed_at, Column};
use crate::numeral::{decimal, parse_u8_range, push_decimal, u8_numeral};
use crate::text::{
    chars_of, is_trimmed, join, join_vecs, lemma_trim_is_trimmed, string_of, string_of_range,
    vec_texts,
};
use crate::time::{midnight, parse_time_range, push_time, time_of_text, time_text, Time};
use vstd::prelude::*;

verus! {

/// One pay event.
///
/// `hours` and `msr` hold decimal amounts as text: the column's content when
/// the event was read from a line, and whatever is to appear in the row when
/// it is written. No arithmetic is done on them here.
#[derive(Debug, PartialEq, Eq)]
pub struct Event {
    /// Who the event is for.
    pub name: String,
    /// The day of the event, as the report writes it.
    pub date: String,
    /// A note on the event; absent where the report has none.
    pub adder: Option<String>,
    /// Hours worked, as decimal text.
    pub hours: String,
    /// The MSR amount, as decimal text.
    pub msr: String,
    /// When work began; midnight where the report gives no time.
    pub time_in: Time,
    /// When work ended; midnight where the report gives no time.
    pub time_out: Time,
    /// How many meals were taken; absent where there were none.
    pub meals: Option<u8>,
    /// When travel to the meeting point began, if there was any.
    pub travel_meet_time: Option<Time>,
    /// When travel back ended, if there was any.
    pub travel_rtn_time: Option<Time>,
}

/// What an [`Event`] holds, with its texts as character sequences.
pub struct EventView {
    pub name: Seq<char>,
    pub date: Seq<char>,
    pub adder: Option<Seq<char>>,
    pub hours: Seq<char>,
    pub msr: Seq<char>,
    pub time_in: Time,
    pub time_out: Time,
    pub meals: Option<u8>,
    pub travel_meet_time: Option<Time>,
    pub travel_rtn_time: Option<Time>,
}

impl View for Event {
    type V = EventView;

    open spec fn view(&self) -> EventView {
        EventView {
            name: self.name@,
            date: self.date@,
            adder: match self.adder {
                Some(a) => Some(a@),
                None => None,
            },
            hours: self.hours@,
            msr: self.msr@,
            time_in: self.time_in,
            time_out: self.time_out,
            meals: self.meals,
            travel_meet_time: self.travel_meet_time,
            travel_rtn_time: self.travel_rtn_time,
        }
    }
}

impl EventView {
    /// What holds of every event that was read from a line: its texts are
    /// trimmed, an adder that is present is not blank, and a meal count
    /// that is present is not zero.
    pub open spec fn well_formed(self) -> bool {
        &&& is_trimmed(self.name)
        &&& is_trimmed(self.date)
        &&& is_trimmed(self.hours)
        &&& is_trimmed(self.msr)
        &&& self.adder matches Some(a) ==> a.len() > 0 && is_trimmed(a)
        &&& self.meals matches Some(n) ==> n > 0
    }
}

/// `text`, or nothing where it is empty.
pub open spec fn non_empty(text: Seq<char>) -> Option<Seq<char>> {
    if text.len() == 0 {
        None
    } else {
        Some(text)
    }
}

/// The meal count that `text` denotes: a `u8` numeral other than zero.
pub open spec fn meals_of_text(text: Seq<char>) -> Option<u8> {
    match u8_numeral(text) {
        Some(n) => if n == 0 {
            None
        } else {
            Some(n)
        },
        None => None,
    }
}

/// The time that `text` denotes, or midnight where it denotes none.
pub open spec fn time_or_midnight(text: Seq<char>) -> Time {
    match time_of_text(text) {
        Some(t) => t,
        None => midnight(),
    }
}

/// The event that `line` holds. Every line holds one: a column that cannot be
/// read falls back to blank, midnight or absent.
pub open spec fn event_of_line(line: Seq<char>) -> EventView {
    EventView {
        name: column_text(line, Column::Customer),
        date: column_text(line, Column::Date),
        adder: non_empty(column_text(line, Column::Adder)),
        hours: column_text(line, Column::Hours),
        msr: column_text(line, Column::Msr),
        time_in: time_or_midnight(column_text(line, Column::TimeIn)),
        time_out: time_or_midnight(column_text(line, Column::TimeOut)),
        meals: meals_of_text(column_text(line, Column::Meals)),
        travel_meet_time: time_of_text(column_text(line, Column::TravelMeetTime)),
        travel_rtn_time: time_of_text(column_text(line, Column::TravelReturnTime)),
    }
}

/// How an optional text is written: as it is, or as nothing.
pub open spec fn optional_text(text: Option<Seq<char>>) -> Seq<char> {
    match text {
        Some(t) => t,
        None => Seq::empty(),
    }
}

/// How a meal count is written: absent counts as zero.
pub open spec fn meals_text(meals: Option<u8>) -> Seq<char> {
    match meals {
        Some(n) => decimal(n as nat),
        None => seq!['0'],
    }
}

/// How an optional time is written: `HH:MM`, or nothing.
pub open spec fn optional_time_text(t: Option<Time>) -> Seq<char> {
    match t {
        Some(t) => time_text(t),
        None => Seq::empty(),
    }
}

/// The ten fields of the CSV row for `e`, in column order.
pub open spec fn csv_fields(e: EventView) -> Seq<Seq<char>> {
    seq![
        e.name,
        e.date,
        optional_text(e.adder),
        e.hours,
        e.msr,
        time_text(e.time_in),
        time_text(e.time_out),
        meals_text(e.meals),
        optional_time_text(e.travel_meet_time),
        optional_time_text(e.travel_rtn_time),
    ]
}

/// The CSV row for `e`: its fields with commas between them. Nothing is
/// quoted or escaped.
pub open spec fn csv_row(e: EventView) -> Seq<char> {
    join(csv_fields(e), seq![','])
}

/// Every line holds a well-formed event.
pub proof fn lemma_event_of_line_well_formed(line: Seq<char>)
    ensures
        event_of_line(line).well_formed(),
{
    lemma_trim_is_trimmed(crate::layout::column_slice(line, Column::Customer));
    lemma_trim_is_trimmed(crate::layout::column_slice(line, Column::Date));
    lemma_trim_is_trimmed(crate::layout::column_slice(line, Column::Adder));
    lemma_trim_is_trimmed(crate::layout::column_slice(line, Column::Hours));
    lemma_trim_is_trimmed(crate::layout::column_slice(line, Column::Msr));
}

/// Reading a line gives back what was placed in it: where `texts` holds one
/// text for each column, in column order, and each was placed in its column,
/// the event of the line is made of those texts.
pub proof fn lemma_event_of_placed_texts(line: Seq<char>, texts: Seq<Seq<char>>)
    requires
        texts.len() == 10,
        placed_at(line, Column::Customer, texts[0]),
        placed_at(line, Column::Date, texts[1]),
        placed_at(line, Column::Adder, texts[2]),
        placed_at(line, Column::Hours, texts[3]),
        placed_at(line, Column::Msr, texts[4]),
        placed_at(line, Column::TimeIn, texts[5]),
        placed_at(line, Column::TimeOut, texts[6]),
        placed_at(line, Column::Meals, texts[7]),
        placed_at(line, Column::TravelMeetTime, texts[8]),
        placed_at(line, Column::TravelReturnTime, texts[9]),
    ensures
        event_of_line(line) == (EventView {
            name: texts[0],
            date: texts[1],
            adder: non_empty(texts[2]),
            hours: texts[3],
            msr: texts[4],
            time_in: time_or_midnight(texts[5]),
            time_out: time_or_midnight(texts[6]),
            meals: meals_of_text(texts[7]),
            travel_meet_time: time_of_text(texts[8]),
            travel_rtn_time: time_of_text(texts[9]),
        }),
{
    lemma_placed_text_is_read(line, Column::Customer, texts[0]);
    lemma_placed_text_is_read(line, Column::Date, texts[1]);
    lemma_placed_text_is_read(line, Column::Adder, texts[2]);
    lemma_placed_text_is_read(line, Column::Hours, texts[3]);
    lemma_placed_text_is_read(line, Column::Msr, texts[4]);
    lemma_placed_text_is_read(line, Column::TimeIn, texts[5]);
    lemma_placed_text_is_read(line, Column::TimeOut, texts[6]);
    lemma_placed_text_is_read(line, Column::Meals, texts[7]);
    lemma_placed_text_is_read(line, Column::TravelMeetTime, texts[8]);
    lemma_placed_text_is_read(line, Column::TravelReturnTime, texts[9]);
}

/// The content of `col` in `line`, as a `String`.
pub fn column_string(line: &Vec<char>, col: Column) -> (out: String)
    ensures
        out@ == column_text(line@, col),
{
    let (a, b) = column_range(line, col);
    string_of_range(line, a, b)
}

/// The time in `col` of `line`, if the column holds one.
pub fn column_time(line: &Vec<char>, col: Column) -> (r: Option<Time>)
    ensures
        r == time_of_text(column_text(line@, col)),
{
    let (a, b) = column_range(line, col);
    parse_time_range(line, a, b)
}

/// The meal count in the meals column of `line`, if it holds one.
pub fn column_meals(line: &Vec<char>) -> (r: Option<u8>)
    ensures
        r == meals_of_text(column_text(line@, Column::Meals)),
{
    let (a, b) = column_range(line, Column::Meals);
    match parse_u8_range(line, a, b) {
        Some(n) => if n == 0 {
            None
        } else {
            Some(n)
        },
        None => None,
    }
}

/// Reads the event that the characters `line` hold.
pub fn parse_event(line: &Vec<char>) -> (e: Event)
    ensures
        e@ == event_of_line(line@),
        e@.well_formed(),
{
    proof {
        lemma_event_of_line_well_formed(line@);
    }
    let name = column_string(line, Column::Customer);
    let date = column_string(line, Column::Date);
    let adder = column_string(line, Column::Adder);
    let adder = if adder.as_str().is_empty() {
        None
    } else {
        Some(adder)
    };
    let hours = column_string(line, Column::Hours);
    let msr = column_string(line, Column::Msr);
    let time_in = match column_time(line, Column::TimeIn) {
        Some(t) => t,
        None => Time { hour: 0, minute: 0 },
    };
    let time_out = match column_time(line, Column::TimeOut) {
        Some(t) => t,
        None => Time { hour: 0, minute: 0 },
    };
    let meals = column_meals(line);
    let travel_meet_time = column_time(line, Column::TravelMeetTime);
    let travel_rtn_time = column_time(line, Column::TravelReturnTime);
    Event {
        name,
        date,
        adder,
        hours,
        msr,
        time_in,
        time_out,
        meals,
        travel_meet_time,
        travel_rtn_time,
    }
}

impl Event {
    /// Reads an event from a line. This never fails: whatever the line holds,
    /// each column yields its content or its fallback.
    pub fn from_str(event: &str) -> (r: Result<Event, ()>)
        ensures
            r matches Ok(e) && e@ == event_of_line(event@) && e@.well_formed(),
    {
        let line = chars_of(event);
        Ok(parse_event(&line))
    }

    /// The characters of the CSV row for this event.
    pub fn csv_chars(&self) -> (out: Vec<char>)
        ensures
            out@ == csv_row(self@),
    {
        let mut time_in: Vec<char> = Vec::new();
        push_time(&mut time_in, &self.time_in);
        let mut time_out: Vec<char> = Vec::new();
        push_time(&mut time_out, &self.time_out);
        let mut meals: Vec<char> = Vec::new();
        match self.meals {
            Some(n) => push_decimal(&mut meals, n),
            None => meals.push('0'),
        }
        let mut travel_meet_time: Vec<char> = Vec::new();
        match &self.travel_meet_time {
            Some(t) => push_time(&mut travel_meet_time, t),
            None => {},
        }
        let mut travel_rtn_time: Vec<char> = Vec::new();
        match &self.travel_rtn_time {
            Some(t) => push_time(&mut travel_rtn_time, t),
            None => {},
        }
        let adder = match &self.adder {
            Some(a) => chars_of(a.as_str()),
            None => Vec::new(),
        };
        let mut fields: Vec<Vec<char>> = Vec::new();
        fields.push(chars_of(self.name.as_str()));
        fields.push(chars_of(self.date.as_str()));
        fields.push(adder);
        fields.push(chars_of(self.hours.as_str()));
        fields.push(chars_of(self.msr.as_str()));
        fields.push(time_in);
        fields.push(time_out);
        fields.push(meals);
        fields.push(travel_meet_time);
        fields.push(travel_rtn_time);
        let mut comma: Vec<char> = Vec::new();
        comma.push(',');
        assert(vec_texts(fields@) == csv_fields(self@));
        join_vecs(&fields, &comma)
    }

    /// The CSV row for this event.
    pub fn to_csv(&self) -> (out: String)
        ensures
            out@ == csv_row(self@),
    {
        let chars = self.csv_chars();
        string_of(&chars)
    }
}

} // verus!
