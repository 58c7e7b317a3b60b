//! The book: each name with one date.
//!
//! A book is modelled by the sequence of its records, in the order in which
//! it walks them, and no name stands in it twice. Its view is the map from
//! names to dates that the records make up.

use crate::date::{listing_line, Date};
use vstd::prelude::*;

verus! {

/// The least index at or after `from` whose record is for `name`, or
/// `records.len()` where there is none.
pub open spec fn find_name(records: Seq<(Seq<char>, Date)>, name: Seq<char>, from: int) -> int
    decreases records.len() - from,
{
    if from < 0 || from >= records.len() {
        records.len() as int
    } else if records[from].0 == name {
        from
    } else {
        find_name(records, name, from + 1)
    }
}

/// Whether no two records are for the same name.
pub open spec fn distinct_names(records: Seq<(Seq<char>, Date)>) -> bool {
    forall|i: int, j: int|
        0 <= i < j < records.len() ==> (#[trigger] records[i]).0 != (#[trigger] records[j]).0
}

/// The date that `records` holds for `name`.
pub open spec fn lookup(records: Seq<(Seq<char>, Date)>, name: Seq<char>) -> Option<Date> {
    let i = find_name(records, name, 0);
    if i < records.len() {
        Some(records[i].1)
    } else {
        None
    }
}

/// `records` with `date` for `name`: in place of the date that `name` had,
/// or as a new record at the end.
pub open spec fn upsert(records: Seq<(Seq<char>, Date)>, name: Seq<char>, date: Date) -> Seq<
    (Seq<char>, Date),
> {
    let i = find_name(records, name, 0);
    if i < records.len() {
        records.update(i, (name, date))
    } else {
        records.push((name, date))
    }
}

/// The records of the book that is empty at first and is then given each of
/// `records` in turn; a later date for a name replaces the earlier one.
pub open spec fn collect(records: Seq<(Seq<char>, Date)>) -> Seq<(Seq<char>, Date)>
    decreases records.len(),
{
    if records.len() == 0 {
        Seq::empty()
    } else {
        upsert(collect(records.drop_last()), records.last().0, records.last().1)
    }
}

/// The name of the last of `records` whose date is `date`.
pub open spec fn last_with_date(records: Seq<(Seq<char>, Date)>, date: Date) -> Option<Seq<char>>
    decreases records.len(),
{
    if records.len() == 0 {
        None
    } else if records.last().1 == date {
        Some(records.last().0)
    } else {
        last_with_date(records.drop_last(), date)
    }
}

/// The map from each name in `records` to the date of its first record.
pub open spec fn to_map(records: Seq<(Seq<char>, Date)>) -> Map<Seq<char>, Date> {
    Map::new(
        |name: Seq<char>| find_name(records, name, 0) < records.len(),
        |name: Seq<char>| records[find_name(records, name, 0)].1,
    )
}

/// The lines that a listing of `records` shows, one for each record.
pub open spec fn listing(records: Seq<(Seq<char>, Date)>) -> Seq<Seq<char>> {
    Seq::new(records.len(), |i: int| listing_line(records[i].0, records[i].1))
}

/// What `find_name` gives: an index from `from` on, before which no record
/// from `from` on is for `name`, and at which, if it is an index of
/// `records`, the record is for `name`.
pub proof fn lemma_find_name(records: Seq<(Seq<char>, Date)>, name: Seq<char>, from: int)
    requires
        0 <= from <= records.len(),
    ensures
        from <= find_name(records, name, from) <= records.len(),
        find_name(records, name, from) < records.len() ==> records[find_name(
            records,
            name,
            from,
        )].0 == name,
        forall|k: int| from <= k < find_name(records, name, from) ==> records[k].0 != name,
    decreases records.len() - from,
{
    if from < records.len() && records[from].0 != name {
        lemma_find_name(records, name, from + 1);
    }
}

/// The index that `find_name` gives is the first at which a record is for
/// `name`.
pub proof fn lemma_find_name_is(
    records: Seq<(Seq<char>, Date)>,
    name: Seq<char>,
    from: int,
    at: int,
)
    requires
        0 <= from <= at <= records.len(),
        forall|k: int| from <= k < at ==> records[k].0 != name,
        at < records.len() ==> records[at].0 == name,
    ensures
        find_name(records, name, from) == at,
    decreases at - from,
{
    if from < at {
        lemma_find_name_is(records, name, from + 1, at);
    }
}

/// Giving a name a date keeps the names distinct, and changes what is looked
/// up for that name only.
pub proof fn lemma_upsert(records: Seq<(Seq<char>, Date)>, name: Seq<char>, date: Date)
    requires
        distinct_names(records),
    ensures
        distinct_names(upsert(records, name, date)),
        lookup(upsert(records, name, date), name) == Some(date),
        forall|other: Seq<char>|
            other != name ==> lookup(upsert(records, name, date), other) == lookup(
                records,
                other,
            ),
        to_map(upsert(records, name, date)) == to_map(records).insert(name, date),
{
    let after = upsert(records, name, date);
    let i = find_name(records, name, 0);
    lemma_find_name(records, name, 0);
    assert(distinct_names(after)) by {
        assert forall|a: int, b: int| 0 <= a < b < after.len() implies (#[trigger] after[a]).0 != (
        #[trigger] after[b]).0 by {
            if i < records.len() {
                assert(after[a].0 == records[a].0);
                assert(after[b].0 == records[b].0);
            } else {
                if b < records.len() {
                    assert(after[a].0 == records[a].0);
                    assert(after[b].0 == records[b].0);
                }
            }
        }
    }
    lemma_find_name_is(after, name, 0, i);
    assert forall|other: Seq<char>| other != name implies lookup(after, other) == lookup(
        records,
        other,
    ) by {
        let k = find_name(records, other, 0);
        lemma_find_name(records, other, 0);
        if k < records.len() {
            assert(after[k] == records[k]);
            assert forall|m: int| 0 <= m < k implies after[m].0 != other by {
                if m != i {
                    assert(after[m] == records[m]);
                }
            }
            lemma_find_name_is(after, other, 0, k);
        } else {
            assert forall|m: int| 0 <= m < after.len() implies after[m].0 != other by {
                if m != i {
                    assert(after[m] == records[m]);
                }
            }
            lemma_find_name_is(after, other, 0, after.len() as int);
        }
    }
    assert(to_map(after) =~= to_map(records).insert(name, date)) by {
        assert forall|n: Seq<char>| #[trigger]
            to_map(after).dom().contains(n) == to_map(records).insert(name, date).dom().contains(
                n,
            ) by {
            if n != name {
                assert(lookup(after, n) == lookup(records, n));
            }
        }
        assert forall|n: Seq<char>| #[trigger] to_map(after).dom().contains(n) implies to_map(
            after,
        )[n] == to_map(records).insert(name, date)[n] by {
            if n != name {
                assert(lookup(after, n) == lookup(records, n));
            }
        }
    }
}

/// Giving a name a date and then another leaves the name with the second
/// date only, as if the first had never been given.
pub proof fn lemma_upsert_twice(
    records: Seq<(Seq<char>, Date)>,
    name: Seq<char>,
    first: Date,
    second: Date,
)
    requires
        distinct_names(records),
    ensures
        upsert(upsert(records, name, first), name, second) == upsert(records, name, second),
        lookup(upsert(upsert(records, name, first), name, second), name) == Some(second),
        to_map(upsert(upsert(records, name, first), name, second)) == to_map(records).insert(
            name,
            second,
        ),
{
    let once = upsert(records, name, first);
    let i = find_name(records, name, 0);
    lemma_find_name(records, name, 0);
    lemma_find_name_is(once, name, 0, i);
    assert(upsert(once, name, second) =~= upsert(records, name, second));
    lemma_upsert(records, name, second);
}

/// Records with distinct names, but for the last: their names are distinct
/// too, and none of them is the name of the last.
pub proof fn lemma_distinct_front(records: Seq<(Seq<char>, Date)>)
    requires
        distinct_names(records),
        records.len() > 0,
    ensures
        distinct_names(records.drop_last()),
        find_name(records.drop_last(), records.last().0, 0) == records.len() - 1,
        upsert(records.drop_last(), records.last().0, records.last().1) == records,
{
    let front = records.drop_last();
    assert forall|a: int, b: int| 0 <= a < b < front.len() implies (#[trigger] front[a]).0 != (
    #[trigger] front[b]).0 by {
        assert(front[a] == records[a]);
        assert(front[b] == records[b]);
    }
    assert forall|k: int| 0 <= k < front.len() implies front[k].0 != records.last().0 by {
        assert(front[k] == records[k]);
        assert(records[k].0 != records[records.len() - 1].0);
    }
    lemma_find_name_is(front, records.last().0, 0, front.len() as int);
    assert(front.push(records.last()) =~= records);
}

/// Collecting records whose names are distinct gives the same records.
pub proof fn lemma_collect_of_distinct(records: Seq<(Seq<char>, Date)>)
    requires
        distinct_names(records),
    ensures
        collect(records) == records,
    decreases records.len(),
{
    if records.len() > 0 {
        lemma_distinct_front(records);
        lemma_collect_of_distinct(records.drop_last());
    }
}

/// One record of a book.
struct Entry {
    name: String,
    date: Date,
}

/// A book of names and their dates.
pub struct DateBook {
    entries: Vec<Entry>,
}

impl View for DateBook {
    type V = Map<Seq<char>, Date>;

    /// The map from the names in the book to their dates.
    open spec fn view(&self) -> Map<Seq<char>, Date> {
        to_map(self.records())
    }
}

impl DateBook {
    /// The records of the book, in the order in which it walks them.
    pub closed spec fn records(&self) -> Seq<(Seq<char>, Date)> {
        Seq::new(self.entries@.len(), |i: int| (self.entries@[i].name@, self.entries@[i].date))
    }

    /// Whether the book is well formed: no name stands in it twice. Every
    /// book that this module hands out is.
    pub open spec fn wf(&self) -> bool {
        distinct_names(self.records())
    }

    /// The empty book.
    pub fn new() -> (book: DateBook)
        ensures
            book.wf(),
            book.records() == Seq::<(Seq<char>, Date)>::empty(),
            book@ == Map::<Seq<char>, Date>::empty(),
    {
        let book = DateBook { entries: Vec::new() };
        assert(book.records() =~= Seq::<(Seq<char>, Date)>::empty());
        assert(book@ =~= Map::<Seq<char>, Date>::empty());
        book
    }

    /// The number of names in the book.
    pub fn len(&self) -> (n: usize)
        ensures
            n == self.records().len(),
            self.wf() ==> self@.dom().finite() && n == self@.dom().len(),
    {
        proof {
            if self.wf() {
                lemma_domain_size(self.records());
            }
        }
        self.entries.len()
    }

    /// The name of the record at index `i`, in the order in which the book
    /// walks its records.
    pub fn name_at(&self, i: usize) -> (name: &String)
        requires
            i < self.records().len(),
        ensures
            name@ == self.records()[i as int].0,
    {
        &self.entries[i].name
    }

    /// The date of the record at index `i`, in the order in which the book
    /// walks its records.
    pub fn date_at(&self, i: usize) -> (date: Date)
        requires
            i < self.records().len(),
        ensures
            date == self.records()[i as int].1,
    {
        self.entries[i].date
    }

    /// Whether the book holds no name.
    pub fn is_empty(&self) -> (b: bool)
        ensures
            b == (self.records().len() == 0),
            b == (self@ == Map::<Seq<char>, Date>::empty()),
    {
        proof {
            if self.entries.len() == 0 {
                assert(self@ =~= Map::<Seq<char>, Date>::empty());
            } else {
                assert(find_name(self.records(), self.records()[0].0, 0) == 0);
                assert(self@.dom().contains(self.records()[0].0));
            }
        }
        self.entries.len() == 0
    }

    /// Finds the record for `name`.
    fn index_of(&self, name: &String) -> (i: usize)
        ensures
            i == find_name(self.records(), name@, 0),
            i <= self.entries.len(),
    {
        let mut i: usize = 0;
        while i < self.entries.len() && !(self.entries[i].name == *name)
            invariant
                i <= self.entries.len(),
                find_name(self.records(), name@, 0) == find_name(self.records(), name@, i as int),
            decreases self.entries.len() - i,
        {
            i += 1;
        }
        i
    }

    /// The date that the book holds for `name`.
    pub fn get(&self, name: &String) -> (r: Option<Date>)
        ensures
            r == lookup(self.records(), name@),
            r is Some <==> self@.contains_key(name@),
            r is Some ==> r->0 == self@[name@],
    {
        let i: usize = self.index_of(name);
        if i < self.entries.len() {
            Some(self.entries[i].date)
        } else {
            None
        }
    }

    /// Gives `name` the date `date`, in place of the date it had, if any.
    pub fn insert(&mut self, name: String, date: Date)
        requires
            old(self).wf(),
        ensures
            final(self).wf(),
            final(self).records() == upsert(old(self).records(), name@, date),
            final(self)@ == old(self)@.insert(name@, date),
    {
        proof {
            lemma_upsert(self.records(), name@, date);
        }
        let i: usize = self.index_of(&name);
        let ghost before = self.records();
        if i < self.entries.len() {
            self.entries.set(i, Entry { name, date });
        } else {
            self.entries.push(Entry { name, date });
        }
        assert(self.records() =~= upsert(before, name@, date));
    }

    /// The name of a record whose date is `date`: of the last one, in the
    /// order in which the book walks its records.
    pub fn find_name_by_date(&self, date: &Date) -> (r: Option<String>)
        requires
            self.wf(),
        ensures
            match r {
                Some(name) => Some(name@) == last_with_date(self.records(), *date)
                    && self@.contains_key(name@) && self@[name@] == *date,
                None => last_with_date(self.records(), *date) is None && forall|n: Seq<char>|
                    self@.contains_key(n) ==> self@[n] != *date,
            },
            forall|n: Seq<char>| only_name_with_date(self@, n, *date) ==> r is Some && r->0@ == n,
    {
        proof {
            lemma_last_with_date(self.records(), *date);
        }
        let mut i: usize = self.entries.len();
        assert(self.records().take(i as int) =~= self.records());
        let mut found: Option<String> = None;
        while i > 0 && found.is_none()
            invariant
                i <= self.entries.len(),
                match found {
                    Some(name) => Some(name@) == last_with_date(self.records(), *date),
                    None => last_with_date(self.records(), *date) == last_with_date(
                        self.records().take(i as int),
                        *date,
                    ),
                },
            decreases i,
        {
            assert(self.records().take(i as int).drop_last() =~= self.records().take(i - 1));
            assert(self.records().take(i as int).last() == self.records()[i - 1]);
            if self.entries[i - 1].date.equals(date) {
                found = Some(self.entries[i - 1].name.clone());
            }
            i -= 1;
        }
        found
    }

    /// The lines of a listing of the book: one for each record, in the order
    /// in which the book walks them.
    pub fn lines(&self) -> (r: Vec<String>)
        ensures
            r.len() == self.records().len(),
            forall|i: int| 0 <= i < r.len() ==> (#[trigger] r[i])@ == listing(self.records())[i],
    {
        let mut out: Vec<String> = Vec::new();
        let mut i: usize = 0;
        while i < self.entries.len()
            invariant
                i <= self.entries.len(),
                out.len() == i,
                forall|k: int| 0 <= k < i ==> (#[trigger] out[k])@ == listing(self.records())[k],
            decreases self.entries.len() - i,
        {
            let line = self.entries[i].date.as_line(&self.entries[i].name);
            out.push(line);
            i += 1;
        }
        out
    }
}

/// Whether `name` is the one name to which `book` gives the date `date`.
pub open spec fn only_name_with_date(book: Map<Seq<char>, Date>, name: Seq<char>, date: Date)
    -> bool {
    &&& book.contains_key(name)
    &&& book[name] == date
    &&& forall|other: Seq<char>| book.contains_key(other) && book[other] == date ==> other == name
}

/// What `last_with_date` gives, in terms of the map that records with
/// distinct names make up: a name with that date, where there is one, and so
/// the one name with that date, where there is just one.
pub proof fn lemma_last_with_date(records: Seq<(Seq<char>, Date)>, date: Date)
    requires
        distinct_names(records),
    ensures
        match last_with_date(records, date) {
            Some(name) => to_map(records).contains_key(name) && to_map(records)[name] == date,
            None => forall|n: Seq<char>|
                to_map(records).contains_key(n) ==> to_map(records)[n] != date,
        },
        forall|n: Seq<char>|
            only_name_with_date(to_map(records), n, date) ==> last_with_date(records, date)
                == Some(n),
    decreases records.len(),
{
    if records.len() > 0 {
        let front = records.drop_last();
        let last = records.last();
        lemma_distinct_front(records);
        lemma_upsert(front, last.0, last.1);
        lemma_last_with_date(front, date);
        assert(!to_map(front).contains_key(last.0));
    }
    assert forall|n: Seq<char>| only_name_with_date(to_map(records), n, date) implies last_with_date(
        records,
        date,
    ) == Some(n) by {
        match last_with_date(records, date) {
            Some(name) => {
                assert(to_map(records).contains_key(name) && to_map(records)[name] == date);
            },
            None => {
                assert(to_map(records).contains_key(n));
            },
        }
    }
}

/// Records with distinct names make up a map with as many names as there are
/// records.
pub proof fn lemma_domain_size(records: Seq<(Seq<char>, Date)>)
    requires
        distinct_names(records),
    ensures
        to_map(records).dom().finite(),
        to_map(records).dom().len() == records.len(),
    decreases records.len(),
{
    if records.len() == 0 {
        assert(to_map(records).dom() =~= Set::<Seq<char>>::empty());
    } else {
        let front = records.drop_last();
        let last = records.last();
        lemma_distinct_front(records);
        lemma_upsert(front, last.0, last.1);
        lemma_domain_size(front);
        assert(to_map(records).dom() =~= to_map(front).dom().insert(last.0));
        assert(!to_map(front).dom().contains(last.0));
    }
}

} // verus!
