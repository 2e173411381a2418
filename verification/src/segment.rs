//! Finding the tables embedded in a report.
//!
//! A table opens at a line that ends with the header phrase and closes at the
//! next line that ends with the footer phrase, both lines included. A table
//! still open when the text ends runs to its last line. Whatever stands outside
//! a table is dropped, a stray footer line included.

use crate::text::{
    chars_of, copy_range, ends_with, join, join_vecs, lines, split_lines, string_of, string_texts,
    vec_ends_with, vec_texts,
};
use vstd::prelude::*;

verus! {

/// The phrase that ends the line on which a table opens.
pub open spec fn header_marker() -> Seq<char> {
    "Pay Details"@
}

/// The phrase that ends the line on which a table closes.
pub open spec fn footer_marker() -> Seq<char> {
    "Note: Travel Pay is paid at the prevailing minimum wage."@
}

/// Index of the first of `lines` that ends with `marker`, or `lines.len()`
/// when none does.
pub open spec fn first_ending_with(lines: Seq<Seq<char>>, marker: Seq<char>) -> nat
    decreases lines.len(),
{
    if lines.len() == 0 || ends_with(lines.first(), marker) {
        0
    } else {
        1 + first_ending_with(lines.drop_first(), marker)
    }
}

/// The tables among `lines`, each as its run of lines, in order.
pub open spec fn table_blocks(lines: Seq<Seq<char>>) -> Seq<Seq<Seq<char>>>
    decreases lines.len(),
{
    let h = first_ending_with(lines, header_marker()) as int;
    if h >= lines.len() {
        Seq::empty()
    } else {
        let open = lines.skip(h);
        let f = first_ending_with(open, footer_marker()) as int;
        if f >= open.len() {
            seq![open]
        } else {
            seq![open.take(f + 1)] + table_blocks(open.skip(f + 1))
        }
    }
}

/// The lines of one block as a single text, a line feed between neighbours.
pub open spec fn block_text(block: Seq<Seq<char>>) -> Seq<char> {
    join(block, seq!['\n'])
}

/// The tables embedded in `stub`, each as one text, in order.
pub open spec fn table_texts(stub: Seq<char>) -> Seq<Seq<char>> {
    table_blocks(lines(stub)).map_values(|b: Seq<Seq<char>>| block_text(b))
}

/// `first_ending_with` stays within `lines`, points at a line that ends with
/// `marker` unless it is the end, and has no such line before it.
pub proof fn lemma_first_ending_with_bounds(lines: Seq<Seq<char>>, marker: Seq<char>)
    ensures
        first_ending_with(lines, marker) <= lines.len(),
        first_ending_with(lines, marker) < lines.len() ==> ends_with(
            lines[first_ending_with(lines, marker) as int],
            marker,
        ),
        forall|i: int|
            0 <= i < first_ending_with(lines, marker) ==> !ends_with(#[trigger] lines[i], marker),
    decreases lines.len(),
{
    if lines.len() == 0 || ends_with(lines.first(), marker) {
    } else {
        let rest = lines.drop_first();
        lemma_first_ending_with_bounds(rest, marker);
        let p = first_ending_with(rest, marker);
        assert forall|i: int| 0 <= i < 1 + p implies !ends_with(#[trigger] lines[i], marker) by {
            if i > 0 {
                assert(lines[i] == rest[i - 1]);
            }
        }
    }
}

/// A position that ends with `marker`, or the end, with no such line before
/// it, is the one that `first_ending_with` finds.
pub proof fn lemma_first_ending_with_unique(lines: Seq<Seq<char>>, marker: Seq<char>, k: int)
    requires
        0 <= k <= lines.len(),
        k < lines.len() ==> ends_with(lines[k], marker),
        forall|i: int| 0 <= i < k ==> !ends_with(#[trigger] lines[i], marker),
    ensures
        first_ending_with(lines, marker) == k,
{
    lemma_first_ending_with_bounds(lines, marker);
}

/// A line that opens no table does not matter to the tables after it.
pub proof fn lemma_table_blocks_skip_line(lines: Seq<Seq<char>>)
    requires
        lines.len() > 0,
        !ends_with(lines.first(), header_marker()),
    ensures
        table_blocks(lines) == table_blocks(lines.drop_first()),
{
    let rest = lines.drop_first();
    let h = first_ending_with(rest, header_marker()) as int;
    if h < rest.len() {
        assert(lines.skip(h + 1) == rest.skip(h));
    }
}

/// A table that opens on the first line and closes on line `f` is the first
/// block; the tables after it are those of the lines after `f`.
pub proof fn lemma_table_blocks_close(lines: Seq<Seq<char>>, f: int)
    requires
        0 <= f < lines.len(),
        ends_with(lines.first(), header_marker()),
        ends_with(lines[f], footer_marker()),
        forall|i: int| 0 <= i < f ==> !ends_with(#[trigger] lines[i], footer_marker()),
    ensures
        table_blocks(lines) == seq![lines.take(f + 1)] + table_blocks(lines.skip(f + 1)),
{
    assert(lines.skip(0) == lines);
    lemma_first_ending_with_unique(lines, footer_marker(), f);
}

/// A table that opens on the first line and never closes is the only block.
pub proof fn lemma_table_blocks_open_end(lines: Seq<Seq<char>>)
    requires
        lines.len() > 0,
        ends_with(lines.first(), header_marker()),
        forall|i: int| 0 <= i < lines.len() ==> !ends_with(#[trigger] lines[i], footer_marker()),
    ensures
        table_blocks(lines) == seq![lines],
{
    assert(lines.skip(0) == lines);
    lemma_first_ending_with_unique(lines, footer_marker(), lines.len() as int);
}

/// The shape of a table: its first line ends with the header phrase, no line
/// before its last ends with the footer phrase, and the last line does,
/// unless the table is the last of all and was still open where the lines end.
pub proof fn lemma_table_block_shape(lines: Seq<Seq<char>>, i: int)
    requires
        0 <= i < table_blocks(lines).len(),
    ensures
        ({
            let block = table_blocks(lines)[i];
            &&& block.len() > 0
            &&& ends_with(block.first(), header_marker())
            &&& forall|j: int|
                0 <= j < block.len() - 1 ==> !ends_with(#[trigger] block[j], footer_marker())
            &&& i < table_blocks(lines).len() - 1 ==> ends_with(block.last(), footer_marker())
        }),
    decreases lines.len(),
{
    let h = first_ending_with(lines, header_marker()) as int;
    lemma_first_ending_with_bounds(lines, header_marker());
    let open = lines.skip(h);
    let f = first_ending_with(open, footer_marker()) as int;
    lemma_first_ending_with_bounds(open, footer_marker());
    if f < open.len() {
        let rest = open.skip(f + 1);
        if i > 0 {
            lemma_table_block_shape(rest, i - 1);
        }
    }
}

/// Splits `stub` into the texts of its tables.
///
/// The lines are scanned once. A line that ends with the header phrase opens
/// a table unless one is open; every line of an open table is kept; a line
/// that ends with the footer phrase closes the table it is in.
pub fn segment_tables(stub: &str) -> (out: Vec<String>)
    ensures
        string_texts(out@) == table_texts(stub@),
{
    let chars = chars_of(stub);
    let all = split_lines(&chars);
    let header = chars_of("Pay Details");
    let footer = chars_of("Note: Travel Pay is paid at the prevailing minimum wage.");
    let mut newline: Vec<char> = Vec::new();
    newline.push('\n');
    let ghost ls = lines(stub@);
    let ghost to_text = |b: Seq<Seq<char>>| block_text(b);
    let n = all.len();
    let mut out: Vec<String> = Vec::new();
    let mut current: Vec<Vec<char>> = Vec::new();
    let mut in_table = false;
    let ghost mut done: Seq<Seq<Seq<char>>> = Seq::empty();
    let ghost mut start: int = 0;
    let mut i: usize = 0;
    assert(ls.skip(0) == ls);
    while i < n
        invariant
            i <= n,
            n == all.len(),
            ls == vec_texts(all@),
            header@ == header_marker(),
            footer@ == footer_marker(),
            newline@ == seq!['\n'],
            to_text == |b: Seq<Seq<char>>| block_text(b),
            string_texts(out@) == done.map_values(to_text),
            !in_table ==> current@.len() == 0 && table_blocks(ls) == done + table_blocks(
                ls.skip(i as int),
            ),
            in_table ==> {
                &&& 0 <= start < i
                &&& ends_with(ls[start], header_marker())
                &&& vec_texts(current@) == ls.subrange(start, i as int)
                &&& forall|j: int| start <= j < i ==> !ends_with(#[trigger] ls[j], footer_marker())
                &&& table_blocks(ls) == done + table_blocks(ls.skip(start))
            },
        decreases n - i,
    {
        let line = &all[i];
        if !in_table {
            if vec_ends_with(line, &header) {
                in_table = true;
                proof {
                    start = i as int;
                }
            } else {
                proof {
                    lemma_table_blocks_skip_line(ls.skip(i as int));
                    assert(ls.skip(i as int).drop_first() == ls.skip(i + 1));
                }
            }
        }
        if in_table {
            current.push(copy_range(line, 0, line.len()));
            proof {
                assert(line@.subrange(0, line@.len() as int) == line@);
                assert(vec_texts(current@) == ls.subrange(start, i + 1));
            }
            if vec_ends_with(line, &footer) {
                let text = join_vecs(&current, &newline);
                out.push(string_of(&text));
                proof {
                    let open = ls.skip(start);
                    let block = ls.subrange(start, i + 1);
                    lemma_table_blocks_close(open, i - start);
                    assert(open.take(i - start + 1) == block);
                    assert(open.skip(i - start + 1) == ls.skip(i + 1));
                    assert(done.push(block).map_values(to_text) == done.map_values(to_text).push(
                        block_text(block),
                    ));
                    done = done.push(block);
                }
                current = Vec::new();
                in_table = false;
            }
        }
        i = i + 1;
    }
    if in_table {
        let text = join_vecs(&current, &newline);
        out.push(string_of(&text));
        proof {
            let open = ls.skip(start);
            lemma_table_blocks_open_end(open);
            assert(done.push(open).map_values(to_text) == done.map_values(to_text).push(
                block_text(open),
            ));
            assert(done + seq![open] == done.push(open));
        }
    }
    out
}

} // verus!
