//! The events of a report: reading every table of it, and writing the whole
//! as CSV.

use crate::event::{
    csv_row, event_of_line, lemma_event_of_line_well_formed, parse_event, Event, EventView,
};
use crate::layout::{column_slice, column_text, Column};
use crate::numeral::{all_digits, char_is_digit, is_digit};
use crate::segment::{footer_marker, segment_tables, table_texts};
use crate::text::{
    chars_of, copy_range, is_trimmed, join, join_vecs, lemma_trim_bounds, lemma_trim_is_trimmed,
    lines, range_starts_with, split_lines, starts_with, string_of, string_texts, trim, trim_range,
    vec_texts,
};
use vstd::prelude::*;

verus! {

/// How many lines open every table before its first row.
pub const PREAMBLE_LINES: usize = 4;

/// From which character on a row made of digits alone counts as a summary.
pub const SUMMARY_OFFSET: usize = 5;

/// The events of a report, in the order in which the report holds them.
#[derive(Debug, PartialEq, Eq)]
pub struct EventTable {
    pub events: Vec<Event>,
}

/// What each of `events` holds.
pub open spec fn event_views(events: Seq<Event>) -> Seq<EventView> {
    events.map_values(|e: Event| e@)
}

impl View for EventTable {
    type V = Seq<EventView>;

    open spec fn view(&self) -> Seq<EventView> {
        event_views(self.events@)
    }
}

/// The word that opens a week separator.
pub open spec fn week_marker() -> Seq<char> {
    "Week"@
}

/// The first line of the CSV text.
pub open spec fn csv_header() -> Seq<char> {
    "Customer,Date,Adder,Hours,MSR,Time In,Time Out,Meals,Travel Meet Time,Travel Return Time"@
}

/// `row` from offset `n` on; empty where the row is shorter.
pub open spec fn tail_from(row: Seq<char>, n: nat) -> Seq<char> {
    if n <= row.len() {
        row.skip(n as int)
    } else {
        Seq::empty()
    }
}

/// Whether `row` stands for an event. A week separator does not, and neither
/// does a row that holds nothing but digits from `SUMMARY_OFFSET` on, which
/// every row too short to reach that offset is.
pub open spec fn is_event_line(row: Seq<char>) -> bool {
    !starts_with(row, week_marker()) && !all_digits(tail_from(row, SUMMARY_OFFSET as nat))
}

/// Index of the first of `rows` that starts with `marker`, or `rows.len()`
/// when none does.
pub open spec fn first_starting_with(rows: Seq<Seq<char>>, marker: Seq<char>) -> nat
    decreases rows.len(),
{
    if rows.len() == 0 || starts_with(rows.first(), marker) {
        0
    } else {
        1 + first_starting_with(rows.drop_first(), marker)
    }
}

/// Whether `block` has the shape of a table: the lines of its preamble are
/// all there.
pub open spec fn is_table(block: Seq<char>) -> bool {
    lines(block).len() >= PREAMBLE_LINES
}

/// The lines of `block` after the preamble, each trimmed.
pub open spec fn body_rows(block: Seq<char>) -> Seq<Seq<char>>
    recommends
        is_table(block),
{
    lines(block).skip(PREAMBLE_LINES as int).map_values(|l: Seq<char>| trim(l))
}

/// The rows of `block` that stand for events: those of the body that come
/// before the first row starting with the footer phrase, all of them where
/// there is no such row, without week separators and summaries.
pub open spec fn event_rows(block: Seq<char>) -> Seq<Seq<char>>
    recommends
        is_table(block),
{
    let rows = body_rows(block);
    rows.take(first_starting_with(rows, footer_marker()) as int).filter(
        |r: Seq<char>| is_event_line(r),
    )
}

/// The events of the table `block`.
pub open spec fn table_events(block: Seq<char>) -> Seq<EventView>
    recommends
        is_table(block),
{
    event_rows(block).map_values(|r: Seq<char>| event_of_line(r))
}

/// What `block` adds to the events of a report: its events where it is a
/// table, nothing where it is not.
pub open spec fn block_events(block: Seq<char>) -> Seq<EventView> {
    if is_table(block) {
        table_events(block)
    } else {
        Seq::empty()
    }
}

/// The events of the report `stub`: those of its tables, table after table.
pub open spec fn stub_events(stub: Seq<char>) -> Seq<EventView> {
    table_texts(stub).map_values(|b: Seq<char>| block_events(b)).flatten()
}

/// The CSV text for `events`: the header line, then one row for each event,
/// with a line feed between lines and none after the last.
pub open spec fn csv_text(events: Seq<EventView>) -> Seq<char> {
    join(seq![csv_header()] + events.map_values(|e: EventView| csv_row(e)), seq!['\n'])
}

/// `first_starting_with` stays within `rows`, points at a row that starts
/// with `marker` unless it is the end, and has no such row before it.
pub proof fn lemma_first_starting_with_bounds(rows: Seq<Seq<char>>, marker: Seq<char>)
    ensures
        first_starting_with(rows, marker) <= rows.len(),
        first_starting_with(rows, marker) < rows.len() ==> starts_with(
            rows[first_starting_with(rows, marker) as int],
            marker,
        ),
        forall|i: int|
            0 <= i < first_starting_with(rows, marker) ==> !starts_with(
                #[trigger] rows[i],
                marker,
            ),
    decreases rows.len(),
{
    if rows.len() == 0 || starts_with(rows.first(), marker) {
    } else {
        let rest = rows.drop_first();
        lemma_first_starting_with_bounds(rest, marker);
        let p = first_starting_with(rest, marker);
        assert forall|i: int| 0 <= i < 1 + p implies !starts_with(#[trigger] rows[i], marker) by {
            if i > 0 {
                assert(rows[i] == rest[i - 1]);
            }
        }
    }
}

/// A position that starts with `marker`, or the end, with no such row before
/// it, is the one that `first_starting_with` finds.
pub proof fn lemma_first_starting_with_unique(rows: Seq<Seq<char>>, marker: Seq<char>, k: int)
    requires
        0 <= k <= rows.len(),
        k < rows.len() ==> starts_with(rows[k], marker),
        forall|i: int| 0 <= i < k ==> !starts_with(#[trigger] rows[i], marker),
    ensures
        first_starting_with(rows, marker) == k,
{
    lemma_first_starting_with_bounds(rows, marker);
}

/// Serialising no events gives the header line and nothing else.
pub proof fn lemma_csv_of_no_events()
    ensures
        csv_text(Seq::empty()) == csv_header(),
{
}

/// Whether every one of `events` is well formed.
pub open spec fn all_well_formed(events: Seq<EventView>) -> bool {
    forall|i: int| 0 <= i < events.len() ==> (#[trigger] events[i]).well_formed()
}

/// Whether the name of none of `events` starts with the week marker.
pub open spec fn none_named_week(events: Seq<EventView>) -> bool {
    forall|i: int| 0 <= i < events.len() ==> !starts_with((#[trigger] events[i]).name, week_marker())
}

/// The name of the event of a trimmed row starts as the row does.
pub proof fn lemma_name_starts_as_row(row: Seq<char>, prefix: Seq<char>)
    requires
        is_trimmed(row),
        starts_with(event_of_line(row).name, prefix),
    ensures
        starts_with(row, prefix),
{
    lemma_trim_bounds(column_slice(row, Column::Customer));
    let name = column_text(row, Column::Customer);
    if prefix.len() == 0 {
        assert(row.subrange(0, 0) == prefix);
    } else {
        assert(row.subrange(0, prefix.len() as int) == name.subrange(0, prefix.len() as int));
    }
}

/// Every row that gives an event is trimmed and stands for an event: it is
/// no week separator and no summary.
pub proof fn lemma_event_rows(block: Seq<char>, i: int)
    requires
        is_table(block),
        0 <= i < event_rows(block).len(),
    ensures
        is_trimmed(event_rows(block)[i]),
        is_event_line(event_rows(block)[i]),
{
    let rows = body_rows(block);
    let body = rows.take(first_starting_with(rows, footer_marker()) as int);
    let keep = |r: Seq<char>| is_event_line(r);
    lemma_first_starting_with_bounds(rows, footer_marker());
    let row = body.filter(keep)[i];
    body.lemma_filter_contains_rev(keep, row);
    let j = choose|j: int| 0 <= j < body.len() && body[j] == row;
    lemma_trim_is_trimmed(lines(block).skip(PREAMBLE_LINES as int)[j]);
}

/// A week separator never gives an event: whatever else a row that starts
/// with the week marker holds, no row that gives an event starts with it, and
/// no event that a block adds to a report has a name that does.
pub proof fn lemma_week_rows_give_no_event(block: Seq<char>)
    ensures
        is_table(block) ==> forall|i: int|
            0 <= i < event_rows(block).len() ==> !starts_with(
                #[trigger] event_rows(block)[i],
                week_marker(),
            ),
        none_named_week(block_events(block)),
{
    if is_table(block) {
        assert forall|i: int| 0 <= i < table_events(block).len() implies !starts_with(
            (#[trigger] table_events(block)[i]).name,
            week_marker(),
        ) by {
            lemma_event_rows(block, i);
            if starts_with(table_events(block)[i].name, week_marker()) {
                lemma_name_starts_as_row(event_rows(block)[i], week_marker());
            }
        }
    }
}

/// Every event of a table is well formed.
pub proof fn lemma_table_events_well_formed(block: Seq<char>)
    requires
        is_table(block),
    ensures
        all_well_formed(table_events(block)),
{
    assert forall|i: int| 0 <= i < table_events(block).len() implies (
    #[trigger] table_events(block)[i]).well_formed() by {
        lemma_event_of_line_well_formed(event_rows(block)[i]);
    }
}

/// Where an element of a flattened sequence comes from.
pub proof fn lemma_flatten_index<A>(parts: Seq<Seq<A>>, i: int) -> (r: (int, int))
    requires
        0 <= i < parts.flatten().len(),
    ensures
        0 <= r.0 < parts.len(),
        0 <= r.1 < parts[r.0].len(),
        parts.flatten()[i] == parts[r.0][r.1],
    decreases parts.len(),
{
    if i < parts.first().len() {
        (0, i)
    } else {
        let rest = parts.drop_first();
        let (j, k) = lemma_flatten_index(rest, i - parts.first().len());
        (j + 1, k)
    }
}

/// What holds of the events of every table holds of the events of a report:
/// they are well formed, and none is named after a week separator.
pub proof fn lemma_stub_events(stub: Seq<char>)
    ensures
        all_well_formed(stub_events(stub)),
        none_named_week(stub_events(stub)),
{
    let per_block = table_texts(stub).map_values(|b: Seq<char>| block_events(b));
    assert forall|i: int| 0 <= i < stub_events(stub).len() implies (#[trigger] stub_events(
        stub,
    )[i]).well_formed() && !starts_with(stub_events(stub)[i].name, week_marker()) by {
        let (j, k) = lemma_flatten_index(per_block, i);
        let block = table_texts(stub)[j];
        lemma_table_events_well_formed(block);
        lemma_week_rows_give_no_event(block);
    }
}

/// Whether `chars[lo..hi]` stands for an event.
pub fn is_event_row(chars: &Vec<char>, lo: usize, hi: usize) -> (b: bool)
    requires
        lo <= hi <= chars.len(),
    ensures
        b == is_event_line(chars@.subrange(lo as int, hi as int)),
{
    let ghost row = chars@.subrange(lo as int, hi as int);
    let week = chars_of("Week");
    if range_starts_with(chars, lo, hi, &week) {
        return false;
    }
    if hi - lo < SUMMARY_OFFSET {
        return false;
    }
    let ghost tail = tail_from(row, SUMMARY_OFFSET as nat);
    let mut i: usize = lo + SUMMARY_OFFSET;
    while i < hi
        invariant
            lo + SUMMARY_OFFSET <= i <= hi <= chars.len(),
            row == chars@.subrange(lo as int, hi as int),
            !starts_with(row, week_marker()),
            tail == tail_from(row, SUMMARY_OFFSET as nat),
            tail == row.skip(SUMMARY_OFFSET as int),
            forall|j: int| 0 <= j < i - lo - SUMMARY_OFFSET ==> is_digit(#[trigger] tail[j]),
        decreases hi - i,
    {
        assert(tail[i - lo - SUMMARY_OFFSET] == chars@[i as int]);
        if !char_is_digit(chars[i]) {
            return true;
        }
        i = i + 1;
    }
    false
}

impl EventTable {
    /// Reads the events of a report: every table embedded in `stub` is read,
    /// and their events follow one another in the order of the tables. A block
    /// that is no table adds nothing.
    pub fn parse_stub(stub: &str) -> (table: EventTable)
        ensures
            table@ == stub_events(stub@),
            all_well_formed(table@),
    {
        proof {
            lemma_stub_events(stub@);
        }
        let blocks = segment_tables(stub);
        let ghost texts = table_texts(stub@);
        let ghost per_block = |b: Seq<char>| block_events(b);
        let mut events: Vec<Event> = Vec::new();
        let mut i: usize = 0;
        while i < blocks.len()
            invariant
                i <= blocks.len(),
                texts == string_texts(blocks@),
                per_block == |b: Seq<char>| block_events(b),
                event_views(events@) == texts.take(i as int).map_values(per_block).flatten(),
            decreases blocks.len() - i,
        {
            let ghost text = blocks@[i as int]@;
            match EventTable::from_str(blocks[i].as_str()) {
                Ok(mut found) => events.append(&mut found.events),
                Err(_) => {},
            }
            proof {
                let sofar = texts.take(i as int).map_values(per_block);
                assert(texts.take(i + 1).map_values(per_block) == sofar.push(block_events(text)));
                sofar.lemma_flatten_push(block_events(text));
            }
            i = i + 1;
        }
        assert(texts.take(blocks.len() as int) == texts);
        EventTable { events }
    }

    /// Reads the events of one table.
    ///
    /// The first `PREAMBLE_LINES` lines are passed over, and a block without
    /// them is no table. Of the lines after them, trimmed, those up to the
    /// first that starts with the footer phrase are the body; week separators
    /// and summaries are left out of it, and every other row gives one event.
    pub fn from_str(block: &str) -> (r: Result<EventTable, ()>)
        ensures
            match r {
                Ok(table) => is_table(block@) && table@ == table_events(block@) && all_well_formed(
                    table@,
                ),
                Err(_) => !is_table(block@),
            },
    {
        let chars = chars_of(block);
        let all = split_lines(&chars);
        let n = all.len();
        if n < PREAMBLE_LINES {
            return Err(());
        }
        let footer = chars_of("Note: Travel Pay is paid at the prevailing minimum wage.");
        let ghost rows = body_rows(block@);
        let ghost keep = |r: Seq<char>| is_event_line(r);
        let ghost read = |r: Seq<char>| event_of_line(r);
        let mut events: Vec<Event> = Vec::new();
        let mut i: usize = PREAMBLE_LINES;
        let mut closed = false;
        while i < n && !closed
            invariant
                PREAMBLE_LINES <= i <= n,
                n == all.len(),
                vec_texts(all@) == lines(block@),
                rows == body_rows(block@),
                rows.len() == n - PREAMBLE_LINES,
                footer@ == footer_marker(),
                keep == |r: Seq<char>| is_event_line(r),
                read == |r: Seq<char>| event_of_line(r),
                forall|j: int|
                    0 <= j < i - PREAMBLE_LINES ==> !starts_with(#[trigger] rows[j], footer_marker()),
                closed ==> i < n && starts_with(rows[i - PREAMBLE_LINES], footer_marker()),
                event_views(events@) == rows.take(i - PREAMBLE_LINES).filter(keep).map_values(read),
            decreases n - i + (if closed { 0int } else { 1int }),
        {
            let line = &all[i];
            let ghost k = i - PREAMBLE_LINES;
            let (a, b) = trim_range(line, 0, line.len());
            assert(line@.subrange(0, line@.len() as int) == line@);
            if range_starts_with(line, a, b, &footer) {
                closed = true;
            } else {
                if is_event_row(line, a, b) {
                    let row = copy_range(line, a, b);
                    events.push(parse_event(&row));
                }
                proof {
                    let head = rows.take(k);
                    assert(rows.take(k + 1) == head.push(rows[k]));
                    head.lemma_filter_push(rows[k], keep);
                    if is_event_line(rows[k]) {
                        assert(head.filter(keep).push(rows[k]).map_values(read) == head.filter(
                            keep,
                        ).map_values(read).push(event_of_line(rows[k])));
                    }
                }
                i = i + 1;
            }
        }
        proof {
            lemma_first_starting_with_unique(rows, footer_marker(), i - PREAMBLE_LINES);
            lemma_table_events_well_formed(block@);
        }
        Ok(EventTable { events })
    }

    /// Writes the events as CSV text: the header line, then one row for each
    /// event, with a line feed between lines and none after the last.
    pub fn to_csv(&self) -> (out: String)
        ensures
            out@ == csv_text(self@),
    {
        let ghost row_of = |e: EventView| csv_row(e);
        let mut csv: Vec<Vec<char>> = Vec::new();
        csv.push(
            chars_of(
                "Customer,Date,Adder,Hours,MSR,Time In,Time Out,Meals,Travel Meet Time,Travel Return Time",
            ),
        );
        let mut i: usize = 0;
        while i < self.events.len()
            invariant
                i <= self.events.len(),
                row_of == |e: EventView| csv_row(e),
                vec_texts(csv@) == seq![csv_header()] + self@.take(i as int).map_values(row_of),
            decreases self.events.len() - i,
        {
            let ghost before = vec_texts(csv@);
            let row = self.events[i].csv_chars();
            csv.push(row);
            proof {
                assert(vec_texts(csv@) == before.push(csv_row(self@[i as int])));
            }
            i = i + 1;
        }
        assert(self@.take(self.events.len() as int) == self@);
        let mut newline: Vec<char> = Vec::new();
        newline.push('\n');
        let text = join_vecs(&csv, &newline);
        string_of(&text)
    }
}

} // verus!
