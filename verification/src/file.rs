//! The text form of a book: one record on each line, `name -> month/day/year`.
//!
//! A line is cut at its first `->`. What stands before it, without the white
//! space around it, is the name; what stands after it, without the white
//! space around it, is the date. Lines end with a line feed, before which a
//! carriage return may stand; the last line needs no line feed. Empty lines
//! are passed over. One line that is no record makes the whole text invalid.

use crate::book::{collect, distinct_names, lemma_collect_of_distinct, to_map, DateBook};
use crate::date::{lemma_date_round_trip, parse_date, read_date, render_date, Date, DateError};
use crate::number::{decimal_digits, is_digit, lemma_decimal_digits};
use crate::text::{
    arrow_at, arrow_position, chars_of, find_arrow, find_char, is_space,
    lemma_arrow_position_is, lemma_position_bounds, lemma_position_is, lemma_position_skip,
    position, trim, trim_bounds, trim_end, trim_start,
};
use vstd::prelude::*;
use vstd::slice::slice_subrange;

verus! {

/// Why a line is no record.
#[derive(Clone, Copy, Debug, PartialEq, Eq, Structural)]
pub enum LineError {
    /// The line holds no `->`.
    MissingDelimiter,
    /// What follows the first `->` is no date.
    BadDate(DateError),
}

/// Why a text is no book: its first line that is no record, counted from 1,
/// and what is wrong with it.
#[derive(Clone, Copy, Debug, PartialEq, Eq, Structural)]
pub struct LoadError {
    pub line: usize,
    pub kind: LineError,
}

/// The record that the line `l` denotes.
pub open spec fn parse_line(l: Seq<char>) -> Result<(Seq<char>, Date), LineError> {
    let a = arrow_position(l, 0);
    if a >= l.len() {
        Err(LineError::MissingDelimiter)
    } else {
        match parse_date(trim(l.subrange(a + 2, l.len() as int))) {
            Ok(date) => Ok((trim(l.subrange(0, a)), date)),
            Err(e) => Err(LineError::BadDate(e)),
        }
    }
}

/// The line for `name` with `date`, without a line feed.
pub open spec fn render_line(name: Seq<char>, date: Date) -> Seq<char> {
    name + " -> "@ + render_date(date)
}

/// The first line of `s`, without its line ending.
pub open spec fn first_line(s: Seq<char>) -> Seq<char> {
    let e = position(s, '\n', 0);
    let piece = s.take(e);
    if e < s.len() && piece.len() > 0 && piece.last() == '\r' {
        piece.drop_last()
    } else {
        piece
    }
}

/// What follows the first line of `s` and its line feed.
pub open spec fn after_first_line(s: Seq<char>) -> Seq<char> {
    let e = position(s, '\n', 0);
    if 0 <= e < s.len() {
        s.skip(e + 1)
    } else {
        Seq::empty()
    }
}

/// The records that the lines of `s` denote, in the order of the lines,
/// where the first line of `s` has the number `number`: an error for the
/// first line that is no record, if there is one.
pub open spec fn parse_text(s: Seq<char>, number: nat) -> Result<Seq<(Seq<char>, Date)>, LoadError>
    decreases s.len(),
{
    if s.len() == 0 {
        Ok(Seq::empty())
    } else {
        let line = first_line(s);
        let rest = after_first_line(s);
        if line.len() == 0 {
            parse_text(rest, number + 1)
        } else {
            match parse_line(line) {
                Err(kind) => Err(LoadError { line: number as usize, kind }),
                Ok(record) => match parse_text(rest, number + 1) {
                    Ok(records) => Ok(seq![record] + records),
                    Err(e) => Err(e),
                },
            }
        }
    }
}

/// The text that holds a line for each of `records`, in their order, each
/// ended by a line feed.
pub open spec fn render_text(records: Seq<(Seq<char>, Date)>) -> Seq<char>
    decreases records.len(),
{
    if records.len() == 0 {
        Seq::empty()
    } else {
        render_line(records.first().0, records.first().1) + seq!['\n'] + render_text(
            records.drop_first(),
        )
    }
}

/// Whether `s` neither begins nor ends with white space.
pub open spec fn is_trimmed(s: Seq<char>) -> bool {
    s.len() == 0 || (!is_space(s.first()) && !is_space(s.last()))
}

/// Whether `name` can be written to a line and read back: it has no white
/// space at either end, no line feed and no `->`.
pub open spec fn storable(name: Seq<char>) -> bool {
    &&& is_trimmed(name)
    &&& forall|i: int| 0 <= i < name.len() ==> name[i] != '\n'
    &&& forall|i: int| !arrow_at(name, i)
}

/// `records` after those of `more`, where `more` is not an error.
pub open spec fn prepend(
    records: Seq<(Seq<char>, Date)>,
    more: Result<Seq<(Seq<char>, Date)>, LoadError>,
) -> Result<Seq<(Seq<char>, Date)>, LoadError> {
    match more {
        Ok(rest) => Ok(records + rest),
        Err(e) => Err(e),
    }
}

/// The text form of a date begins and ends with a digit and holds digits
/// and `/` only.
pub proof fn lemma_date_text(d: Date)
    ensures
        render_date(d).len() > 0,
        is_digit(render_date(d).first()),
        is_digit(render_date(d).last()),
        forall|k: int|
            0 <= k < render_date(d).len() ==> is_digit(#[trigger] render_date(d)[k]) || render_date(
                d,
            )[k] == '/',
{
    lemma_decimal_digits(d.month as nat);
    lemma_decimal_digits(d.day as nat);
    lemma_decimal_digits(d.year as nat);
    let m = decimal_digits(d.month as nat);
    let dd = decimal_digits(d.day as nat);
    let y = decimal_digits(d.year as nat);
    let s = render_date(d);
    assert(s.first() == m[0]);
    assert(s.last() == y[y.len() - 1]);
    assert forall|k: int| 0 <= k < s.len() implies is_digit(#[trigger] s[k]) || s[k] == '/' by {
        if k < m.len() {
            assert(s[k] == m[k]);
        } else if k == m.len() {
        } else if k < m.len() + 1 + dd.len() {
            assert(s[k] == dd[k - m.len() - 1]);
        } else if k == m.len() + 1 + dd.len() {
        } else {
            assert(s[k] == y[k - m.len() - dd.len() - 2]);
        }
    }
}

/// Reading the line that was written for a record gives the record back,
/// where its name has no white space at either end and no `->`.
pub proof fn lemma_line_round_trip(name: Seq<char>, date: Date)
    requires
        is_trimmed(name),
        forall|i: int| !arrow_at(name, i),
    ensures
        parse_line(render_line(name, date)) == Ok::<(Seq<char>, Date), LineError>((name, date)),
{
    reveal_strlit(" -> ");
    let text = render_date(date);
    let l = render_line(name, date);
    let n = name.len() as int;
    lemma_date_text(date);
    assert(l.len() == n + 4 + text.len());
    assert(l[n] == ' ' && l[n + 1] == '-' && l[n + 2] == '>' && l[n + 3] == ' ');
    assert forall|k: int| 0 <= k < n + 1 implies !arrow_at(l, k) by {
        if k + 1 < n {
            assert(l[k] == name[k] && l[k + 1] == name[k + 1]);
            assert(!arrow_at(name, k));
        }
    }
    lemma_arrow_position_is(l, 0, n + 1);
    let left = l.subrange(0, n + 1);
    assert(left =~= name.push(' '));
    assert(left.drop_last() =~= name);
    assert(trim_end(left) == trim_end(name));
    assert(trim(left) == name);
    let right = l.subrange(n + 3, l.len() as int);
    assert(right =~= seq![' '] + text);
    assert(right.last() == text.last());
    assert(trim_end(right) == right);
    assert(right.drop_first() =~= text);
    assert(trim_start(right) == trim_start(text));
    assert(trim(right) == text);
    lemma_date_round_trip(date);
}

/// Reading the text that was written for records gives the records back,
/// where each name can be written to a line and read back.
pub proof fn lemma_text_round_trip(records: Seq<(Seq<char>, Date)>, number: nat)
    requires
        forall|i: int| 0 <= i < records.len() ==> storable(#[trigger] records[i].0),
    ensures
        parse_text(render_text(records), number) == Ok::<Seq<(Seq<char>, Date)>, LoadError>(
            records,
        ),
    decreases records.len(),
{
    if records.len() > 0 {
        reveal_strlit(" -> ");
        let name = records.first().0;
        let date = records.first().1;
        let rest = records.drop_first();
        let line = render_line(name, date);
        let s = render_text(records);
        let text = render_date(date);
        assert(storable(records[0].0));
        lemma_date_text(date);
        assert(line.len() == name.len() + 4 + text.len());
        assert forall|k: int| 0 <= k < line.len() implies line[k] != '\n' by {
            if k < name.len() {
                assert(line[k] == name[k]);
            } else if k < name.len() + 4 {
            } else {
                assert(line[k] == text[k - name.len() - 4]);
            }
        }
        assert forall|k: int| 0 <= k < line.len() implies s[k] != '\n' by {
            assert(s[k] == line[k]);
        }
        assert(s[line.len() as int] == '\n');
        lemma_position_is(s, '\n', 0, line.len() as int);
        assert(s.take(line.len() as int) =~= line);
        assert(line.last() == text.last());
        assert(first_line(s) == line);
        assert(after_first_line(s) =~= render_text(rest));
        lemma_line_round_trip(name, date);
        assert forall|i: int| 0 <= i < rest.len() implies storable(#[trigger] rest[i].0) by {
            assert(rest[i] == records[i + 1]);
        }
        lemma_text_round_trip(rest, number + 1);
        assert(seq![(name, date)] + rest =~= records);
        assert(s.len() > 0 && line.len() > 0);
        assert(parse_text(after_first_line(s), number + 1) == Ok::<
            Seq<(Seq<char>, Date)>,
            LoadError,
        >(rest));
    } else {
        assert(records =~= Seq::<(Seq<char>, Date)>::empty());
    }
}

/// Writing a book and reading the text back gives a book with the same
/// records, so with the same names and the same date for each, where each
/// name of the book can be written to a line and read back.
pub proof fn lemma_book_round_trip(records: Seq<(Seq<char>, Date)>)
    requires
        distinct_names(records),
        forall|i: int| 0 <= i < records.len() ==> storable(#[trigger] records[i].0),
    ensures
        parse_text(render_text(records), 1) is Ok,
        collect(parse_text(render_text(records), 1)->Ok_0) == records,
        to_map(collect(parse_text(render_text(records), 1)->Ok_0)) == to_map(records),
{
    lemma_text_round_trip(records, 1);
    lemma_collect_of_distinct(records);
}

/// The text for records with one more at the end is the text for the
/// records and then the line of the one more.
pub proof fn lemma_render_text_push(records: Seq<(Seq<char>, Date)>, name: Seq<char>, date: Date)
    ensures
        render_text(records.push((name, date))) == render_text(records) + render_line(name, date)
            + seq!['\n'],
    decreases records.len(),
{
    let more = records.push((name, date));
    if records.len() == 0 {
        assert(more.drop_first() =~= Seq::<(Seq<char>, Date)>::empty());
        assert(render_text(more.drop_first()) =~= Seq::<char>::empty());
        assert(more.first() == (name, date));
        assert(render_text(more) =~=render_text(records) + render_line(name, date) + seq!['\n']);
    } else {
        assert(more.drop_first() =~= records.drop_first().push((name, date)));
        lemma_render_text_push(records.drop_first(), name, date);
        assert(render_text(more) =~= render_text(records) + render_line(name, date) + seq!['\n']);
    }
}

/// Where the line that begins at `pos` in `s` ends: at the next line feed or
/// at the end of `s`, and before the carriage return that may stand before
/// the line feed.
pub open spec fn line_end(s: Seq<char>, pos: int) -> int {
    let e = position(s, '\n', pos);
    if e < s.len() && e > pos && s[e - 1] == '\r' {
        e - 1
    } else {
        e
    }
}

/// Where the line after the one that begins at `pos` in `s` begins: after
/// the next line feed, or at the end of `s`.
pub open spec fn next_line(s: Seq<char>, pos: int) -> int {
    let e = position(s, '\n', pos);
    if e < s.len() {
        e + 1
    } else {
        e
    }
}

/// What is read from the whole of `s` is what is read from its part from 0
/// on, after no records.
pub proof fn lemma_read_from_start(s: Seq<char>, number: nat)
    ensures
        parse_text(s, number) == prepend(Seq::empty(), parse_text(s.skip(0), number)),
{
    assert(s.skip(0) =~= s);
    let read = parse_text(s, number);
    if read is Ok {
        assert(Seq::<(Seq<char>, Date)>::empty() + read->Ok_0 =~= read->Ok_0);
    }
}

/// Nothing is read from the end of `s`.
pub proof fn lemma_read_to_end(done: Seq<(Seq<char>, Date)>, s: Seq<char>)
    ensures
        forall|number: nat|
            prepend(done, #[trigger] parse_text(s.skip(s.len() as int), number)) == Ok::<
                Seq<(Seq<char>, Date)>,
                LoadError,
            >(done),
{
    assert(s.skip(s.len() as int).len() == 0);
    assert(done + Seq::<(Seq<char>, Date)>::empty() =~= done);
}

/// Reading `s` from `pos` on, after the records `done`, one line further:
/// the line from `pos` to `line_end(s, pos)` is passed over if it is empty,
/// ends the reading if it is no record, and else gives one more record,
/// before what is read from `next_line(s, pos)` on.
pub proof fn lemma_read_on(done: Seq<(Seq<char>, Date)>, s: Seq<char>, pos: int, number: nat)
    requires
        0 <= pos < s.len(),
    ensures
        pos <= line_end(s, pos) <= position(s, '\n', pos) <= s.len(),
        pos < next_line(s, pos) <= s.len(),
        prepend(done, parse_text(s.skip(pos), number)) == ({
            let line = s.subrange(pos, line_end(s, pos));
            let rest = parse_text(s.skip(next_line(s, pos)), number + 1);
            if line.len() == 0 {
                prepend(done, rest)
            } else {
                match parse_line(line) {
                    Err(kind) => Err(LoadError { line: number as usize, kind }),
                    Ok(record) => prepend(done.push(record), rest),
                }
            }
        }),
{
    let tail = s.skip(pos);
    let e = position(s, '\n', pos);
    lemma_position_skip(s, '\n', pos, pos);
    lemma_position_bounds(s, '\n', pos);
    assert(tail.take(e - pos) =~= s.subrange(pos, e));
    assert(first_line(tail) =~= s.subrange(pos, line_end(s, pos)));
    assert(after_first_line(tail) =~= s.skip(next_line(s, pos)));
    let line = first_line(tail);
    let rest = parse_text(after_first_line(tail), number + 1);
    if line.len() > 0 {
        match parse_line(line) {
            Ok(record) => {
                if rest is Ok {
                    assert(done + (seq![record] + rest->Ok_0) =~= done.push(record) + rest->Ok_0);
                }
            },
            Err(_) => {},
        }
    }
}

/// Reads the record that the line `line` denotes: where in `line` its name
/// begins and ends, and its date.
pub fn read_line(line: &[char]) -> (r: Result<(usize, usize, Date), LineError>)
    ensures
        match parse_line(line@) {
            Ok(record) => r is Ok && r->Ok_0.0 <= r->Ok_0.1 <= line.len() && line@.subrange(
                r->Ok_0.0 as int,
                r->Ok_0.1 as int,
            ) == record.0 && r->Ok_0.2 == record.1,
            Err(kind) => r == Err::<(usize, usize, Date), LineError>(kind),
        },
{
    let a: usize = find_arrow(line);
    if a >= line.len() {
        return Err(LineError::MissingDelimiter);
    }
    let left = slice_subrange(line, 0, a);
    let right = slice_subrange(line, a + 2, line.len());
    let (from, to) = trim_bounds(right);
    match read_date(slice_subrange(right, from, to)) {
        Err(e) => Err(LineError::BadDate(e)),
        Ok(date) => {
            let (lo, hi) = trim_bounds(left);
            assert(line@.subrange(lo as int, hi as int) =~= left@.subrange(lo as int, hi as int));
            Ok((lo, hi, date))
        },
    }
}

/// Reads a book from its text form.
pub fn get_dates(content: String) -> (r: Result<DateBook, LoadError>)
    ensures
        match parse_text(content@, 1) {
            Ok(records) => r is Ok && r->Ok_0.wf() && r->Ok_0.records() == collect(records),
            Err(e) => r is Err && r->Err_0 == e,
        },
{
    let chars = chars_of(content.as_str());
    let s = chars.as_slice();
    let mut book = DateBook::new();
    let mut pos: usize = 0;
    let mut count: usize = 0;
    let ghost mut done: Seq<(Seq<char>, Date)> = Seq::empty();
    proof {
        lemma_read_from_start(s@, 1);
    }
    while pos < s.len()
        invariant
            s@ == content@,
            pos <= s.len(),
            count <= pos,
            book.wf(),
            book.records() == collect(done),
            parse_text(content@, 1) == prepend(
                done,
                parse_text(s@.skip(pos as int), (count + 1) as nat),
            ),
        decreases s.len() - pos,
    {
        proof {
            lemma_read_on(done, s@, pos as int, (count + 1) as nat);
        }
        let e: usize = find_char(s, '\n', pos);
        let end: usize = if e < s.len() && e > pos && s[e - 1] == '\r' {
            e - 1
        } else {
            e
        };
        let next: usize = if e < s.len() {
            e + 1
        } else {
            e
        };
        if end > pos {
            let line = slice_subrange(s, pos, end);
            match read_line(line) {
                Err(kind) => {
                    return Err(LoadError { line: count + 1, kind });
                },
                Ok((lo, hi, date)) => {
                    let name = content.as_str().substring_char(pos + lo, pos + hi).to_owned();
                    assert(name@ =~= line@.subrange(lo as int, hi as int));
                    book.insert(name, date);
                    proof {
                        assert(done.push((name@, date)).drop_last() =~= done);
                        done = done.push((name@, date));
                    }
                },
            }
        }
        pos = next;
        count = count + 1;
    }
    proof {
        lemma_read_to_end(done, s@);
    }
    Ok(book)
}

impl DateBook {
    /// The text form of the book: a line for each record, in the order in
    /// which the book walks them.
    pub fn to_text(&self) -> (r: String)
        ensures
            r@ == render_text(self.records()),
    {
        let mut out = String::new();
        let n: usize = self.len();
        let mut i: usize = 0;
        assert(self.records().take(0) =~= Seq::<(Seq<char>, Date)>::empty());
        while i < n
            invariant
                i <= n,
                n == self.records().len(),
                out@ == render_text(self.records().take(i as int)),
            decreases n - i,
        {
            let ghost before = out@;
            let ghost record = self.records()[i as int];
            out.append(self.name_at(i).as_str());
            out.append(" -> ");
            let date = self.date_at(i).format();
            out.append(date.as_str());
            out.append("\n");
            proof {
                reveal_strlit("\n");
                lemma_render_text_push(self.records().take(i as int), record.0, record.1);
                assert(self.records().take(i as int).push(record) =~= self.records().take(i + 1));
                assert(out@ =~= before + render_line(record.0, record.1) + seq!['\n']);
            }
            i += 1;
        }
        assert(self.records().take(i as int) =~= self.records());
        out
    }
}

} // verus!
