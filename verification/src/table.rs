//! The registry that runs: the stored records, and the operations that add,
//! delete, choose, read back and list them.

use vstd::prelude::*;
use vstd::string::StringExecFns;
use crate::address::is_address;
use crate::host::Host;
use crate::laws::{
    law_add, law_delete, law_select, law_upsert, lemma_without_absent, lemma_without_at,
};
use crate::model::{
    ascending, default_of, deleted, dense, empty, fresh, has_key, holds, mark_of, marked,
    no_default, outcome, rejection, renumbered, same_key, selectable, selected, single_default,
    stored, well_formed, AddOutcome, Rejection, Row, Table,
};

verus! {

/// One stored record, as the store holds it.
#[derive(Debug)]
pub struct Record {
    pub id: i64,
    pub df: bool,
    pub ip: String,
    pub user: String,
    pub pswd: String,
}

impl View for Record {
    type V = Row;

    open spec fn view(&self) -> Row {
        Row { id: self.id as int, df: self.df, ip: self.ip@, user: self.user@, pswd: self.pswd@ }
    }
}

/// What a listing shows of one record: its id, the mark of the default, its
/// address and its user, and not its secret.
#[derive(Debug)]
pub struct Listing {
    pub id: i64,
    pub mark: char,
    pub ip: String,
    pub user: String,
}

/// A `Listing` in contracts.
pub struct Line {
    pub id: int,
    pub mark: char,
    pub ip: Seq<char>,
    pub user: Seq<char>,
}

impl View for Listing {
    type V = Line;

    open spec fn view(&self) -> Line {
        Line { id: self.id as int, mark: self.mark, ip: self.ip@, user: self.user@ }
    }
}

/// The rows that a vector of records stands for.
pub open spec fn rows_of(records: Seq<Record>) -> Seq<Row> {
    records.map_values(|r: Record| r@)
}

/// The lines that a vector of listings stands for.
pub open spec fn lines_of(listings: Seq<Listing>) -> Seq<Line> {
    listings.map_values(|l: Listing| l@)
}

/// What a listing shows of the rows: every row, in insertion order.
pub open spec fn listed(rows: Seq<Row>) -> Seq<Line> {
    rows.map_values(|r: Row| Line { id: r.id, mark: mark_of(r.df), ip: r.ip, user: r.user })
}

/// The records of the registry in insertion order, with the counter from
/// which the store would number the next one.
#[derive(Debug)]
pub struct HostTable {
    rows: Vec<Record>,
    counter: i64,
}

impl View for HostTable {
    type V = Table;

    closed spec fn view(&self) -> Table {
        Table { rows: rows_of(self.rows@), counter: self.counter as int }
    }
}

/// Where ids are positive and grow, row `j` has an id above `j`.
proof fn lemma_id_above_index(rows: Seq<Row>, j: int)
    requires
        ascending(rows),
        0 <= j < rows.len(),
    ensures
        rows[j].id >= j + 1,
    decreases j,
{
    if j > 0 {
        lemma_id_above_index(rows, j - 1);
        assert(rows[j - 1].id < rows[j].id);
    }
}

/// A table of records never has more rows than there are ids.
proof fn lemma_len_bounded(records: Seq<Record>)
    requires
        ascending(rows_of(records)),
    ensures
        records.len() <= i64::MAX,
{
    if records.len() > 0 {
        lemma_id_above_index(rows_of(records), records.len() - 1);
        assert(rows_of(records)[records.len() - 1].id == records[records.len() - 1].id);
    }
}

fn copy_with(r: &Record, id: i64, df: bool) -> (c: Record)
    ensures
        c@ == (Row { id: id as int, df, ip: r@.ip, user: r@.user, pswd: r@.pswd }),
{
    Record { id, df, ip: r.ip.clone(), user: r.user.clone(), pswd: r.pswd.clone() }
}

/// The renumbering pass: gives every record the number of its place,
/// starting at 1, and rewrites only the records whose id is another.
fn renumber(rows: &mut Vec<Record>)
    requires
        old(rows)@.len() <= i64::MAX,
    ensures
        rows_of(final(rows)@) == renumbered(rows_of(old(rows)@)),
{
    let ghost before = rows_of(rows@);
    let n = rows.len();
    let mut i: usize = 0;
    while i < n
        invariant
            i <= n,
            n <= i64::MAX,
            rows@.len() == n,
            before.len() == n,
            forall|j: int| 0 <= j < i ==> (#[trigger] rows@[j])@ == renumbered(before)[j],
            forall|j: int| i <= j < n ==> (#[trigger] rows@[j])@ == before[j],
        decreases n - i,
    {
        let want = (i + 1) as i64;
        if rows[i].id != want {
            let fixed = copy_with(&rows[i], want, rows[i].df);
            rows.set(i, fixed);
        }
        i += 1;
    }
    assert(rows_of(rows@) =~= renumbered(before));
}

impl HostTable {
    /// The registry before anything was stored in it.
    pub fn new() -> (t: HostTable)
        ensures
            t@ == empty(),
            well_formed(t@),
    {
        let t = HostTable { rows: Vec::new(), counter: 0 };
        assert(t@.rows =~= empty().rows);
        t
    }

    /// Takes over records as a store holds them, in insertion order, with
    /// its counter; `None` where their ids are not positive and growing or
    /// two of them share an address and a user.
    pub fn from_records(records: Vec<Record>, counter: i64) -> (t: Option<HostTable>)
        ensures
            match t {
                Some(t) => t@ == (Table { rows: rows_of(records@), counter: counter as int })
                    && well_formed(t@),
                None => !well_formed(Table { rows: rows_of(records@), counter: counter as int }),
            },
    {
        let ghost rows = rows_of(records@);
        let n = records.len();
        let mut i: usize = 0;
        while i < n
            invariant
                i <= n,
                n == records@.len(),
                rows == rows_of(records@),
                forall|a: int| 0 <= a < i ==> (#[trigger] rows[a]).id >= 1,
                forall|a: int, b: int|
                    0 <= a < b < i ==> (#[trigger] rows[a]).id < (#[trigger] rows[b]).id,
                forall|a: int, b: int|
                    0 <= a < b < i ==> !same_key(#[trigger] rows[a], #[trigger] rows[b]),
            decreases n - i,
        {
            assert(rows[i as int] == records@[i as int]@);
            if records[i].id < 1 {
                return None;
            }
            if i > 0 {
                assert(rows[i - 1] == records@[i - 1]@);
                if records[i - 1].id >= records[i].id {
                    return None;
                }
            }
            let mut j: usize = 0;
            while j < i
                invariant
                    j <= i < n,
                    n == records@.len(),
                    rows == rows_of(records@),
                    forall|a: int| 0 <= a < j ==> !same_key(#[trigger] rows[a], rows[i as int]),
                decreases i - j,
            {
                assert(rows[j as int] == records@[j as int]@);
                assert(rows[i as int] == records@[i as int]@);
                if records[j].ip == records[i].ip && records[j].user == records[i].user {
                    assert(same_key(rows[j as int], rows[i as int]));
                    return None;
                }
                j += 1;
            }
            proof {
                assert forall|a: int, b: int| 0 <= a < b < i + 1 implies (#[trigger] rows[a]).id
                    < (#[trigger] rows[b]).id by {
                    if b == i && a < i - 1 {
                        assert(rows[a].id < rows[i - 1].id);
                    }
                }
            }
            i += 1;
        }
        Some(HostTable { rows: records, counter })
    }

    /// The records in insertion order.
    pub fn records(&self) -> (r: &Vec<Record>)
        ensures
            rows_of(r@) == self@.rows,
    {
        &self.rows
    }

    /// The counter from which the store would number the next record.
    pub fn counter(&self) -> (c: i64)
        ensures
            c == self@.counter,
    {
        self.counter
    }

    /// The number of records.
    pub fn len(&self) -> (n: usize)
        ensures
            n == self@.rows.len(),
    {
        self.rows.len()
    }
}

impl Host {
    /// Adds a record, or gives the record with the same address and user a
    /// new secret. A field that is the sentinel, or an address that is no
    /// literal, rejects the record and changes nothing. A new record goes
    /// last; all records are then numbered anew and the counter is set to
    /// their count.
    pub fn add(table: &mut HostTable, host: &Host) -> (out: AddOutcome)
        requires
            well_formed(old(table)@),
            old(table)@.rows.len() < i64::MAX,
        ensures
            final(table)@ == stored(old(table)@, host@),
            out == outcome(old(table)@, host@),
            well_formed(final(table)@),
            dense(old(table)@.rows) ==> dense(final(table)@.rows),
            (out matches AddOutcome::Stored { created, .. } && created) ==> dense(
                final(table)@.rows,
            ) && final(table)@.counter == final(table)@.rows.len(),
            single_default(old(table)@.rows) ==> single_default(final(table)@.rows),
    {
        let ghost before = table@;
        proof {
            law_add(before, host@);
        }
        let unknown = String::from_str("UNKNOWN");
        if host.ip == unknown || host.user == unknown || host.pswd == unknown {
            return AddOutcome::Rejected(Rejection::Sentinel);
        }
        if !is_address(host.ip.as_str()) {
            return AddOutcome::Rejected(Rejection::InvalidAddress);
        }
        let n = table.rows.len();
        let mut i: usize = 0;
        while i < n
            invariant
                i <= n,
                n == table.rows@.len(),
                table@ == before,
                before == old(table)@,
                well_formed(before),
                rejection(host@) is None,
                forall|j: int| 0 <= j < i ==> !has_key(#[trigger] before.rows[j], host@),
            decreases n - i,
        {
            assert(before.rows[i as int] == table.rows@[i as int]@);
            if table.rows[i].ip == host.ip && table.rows[i].user == host.user {
                let id = table.rows[i].id;
                let changed = Record {
                    id,
                    df: table.rows[i].df,
                    ip: table.rows[i].ip.clone(),
                    user: table.rows[i].user.clone(),
                    pswd: host.pswd.clone(),
                };
                table.rows.set(i, changed);
                proof {
                    law_add(before, host@);
                    law_upsert(before, host@, i as int);
                    assert(table@.rows =~= stored(before, host@).rows);
                }
                return AddOutcome::Stored { id, created: false };
            }
            i += 1;
        }
        assert(!holds(before.rows, host@));
        let added = Record {
            id: 0,
            df: false,
            ip: host.ip.clone(),
            user: host.user.clone(),
            pswd: host.pswd.clone(),
        };
        table.rows.push(added);
        assert(rows_of(table.rows@) =~= before.rows.push(fresh(host@)));
        renumber(&mut table.rows);
        let count = table.rows.len() as i64;
        table.counter = count;
        AddOutcome::Stored { id: count, created: true }
    }

    /// Deletes the record with this id, if there is one, then numbers the
    /// records anew and sets the counter to their count, also where nothing
    /// was deleted.
    pub fn del(table: &mut HostTable, id: i64)
        requires
            well_formed(old(table)@),
        ensures
            final(table)@ == deleted(old(table)@, id as int),
            well_formed(final(table)@),
            dense(final(table)@.rows),
            final(table)@.counter == final(table)@.rows.len(),
            single_default(old(table)@.rows) ==> single_default(final(table)@.rows),
    {
        let ghost before = table@;
        proof {
            law_delete(before, id as int);
            lemma_len_bounded(table.rows@);
        }
        let n = table.rows.len();
        let mut i: usize = 0;
        while i < n && table.rows[i].id != id
            invariant
                i <= n,
                n == table.rows@.len(),
                table@ == before,
                forall|j: int| 0 <= j < i ==> (#[trigger] before.rows[j]).id != id,
            decreases n - i,
        {
            assert(before.rows[i as int] == table.rows@[i as int]@);
            i += 1;
        }
        if i < n {
            assert(before.rows[i as int] == table.rows@[i as int]@);
            table.rows.remove(i);
            proof {
                lemma_without_at(before.rows, id as int, i as int);
                assert(rows_of(table.rows@) =~= before.rows.remove(i as int));
            }
        } else {
            proof {
                lemma_without_absent(before.rows, id as int);
            }
        }
        renumber(&mut table.rows);
        table.counter = table.rows.len() as i64;
    }

    /// Chooses the record with this id as the default and takes the mark
    /// from every other; 0 only takes the marks away. An id that no record
    /// has changes nothing and gives `false`.
    pub fn set(table: &mut HostTable, id: i64) -> (ok: bool)
        requires
            well_formed(old(table)@),
        ensures
            ok == selectable(old(table)@.rows, id as int),
            final(table)@ == selected(old(table)@, id as int),
            well_formed(final(table)@),
            ok ==> single_default(final(table)@.rows),
            id == 0 ==> no_default(final(table)@.rows),
    {
        let ghost before = table@;
        proof {
            law_select(before, id as int);
        }
        let n = table.rows.len();
        let mut present = id == 0;
        let mut i: usize = 0;
        while i < n && !present
            invariant
                i <= n,
                n == table.rows@.len(),
                table@ == before,
                present ==> selectable(before.rows, id as int),
                !present ==> id != 0 && forall|j: int|
                    0 <= j < i ==> (#[trigger] before.rows[j]).id != id,
            decreases n - i,
        {
            assert(before.rows[i as int] == table.rows@[i as int]@);
            if table.rows[i].id == id {
                present = true;
            }
            i += 1;
        }
        if !present {
            return false;
        }
        let mut i: usize = 0;
        while i < n
            invariant
                i <= n,
                n == table.rows@.len(),
                before.rows.len() == n,
                table.counter == before.counter,
                forall|j: int| 0 <= j < i ==> (#[trigger] table.rows@[j])@ == marked(
                    before.rows,
                    id as int,
                )[j],
                forall|j: int| i <= j < n ==> (#[trigger] table.rows@[j])@ == before.rows[j],
            decreases n - i,
        {
            let want = id != 0 && table.rows[i].id == id;
            if table.rows[i].df != want {
                let changed = copy_with(&table.rows[i], table.rows[i].id, want);
                table.rows.set(i, changed);
            }
            i += 1;
        }
        assert(table@.rows =~= marked(before.rows, id as int));
        true
    }

    /// The credentials of the default record, `None` where there is none.
    pub fn get(table: &HostTable) -> (r: Option<Host>)
        ensures
            match r {
                Some(h) => default_of(table@.rows) == Some(h@),
                None => default_of(table@.rows) is None,
            },
    {
        let ghost rows = table@.rows;
        let mut i: usize = table.rows.len();
        assert(rows.take(i as int) =~= rows);
        while i > 0
            invariant
                i <= table.rows@.len(),
                rows == table@.rows,
                default_of(rows) == default_of(rows.take(i as int)),
            decreases i,
        {
            i -= 1;
            proof {
                assert(rows.take(i + 1).drop_last() =~= rows.take(i as int));
                assert(rows.take(i + 1).last() == table.rows@[i as int]@);
            }
            if table.rows[i].df {
                let r = &table.rows[i];
                return Some(Host { ip: r.ip.clone(), user: r.user.clone(), pswd: r.pswd.clone() });
            }
        }
        None
    }

    /// Whether there is any record, and what a listing shows of each, in
    /// insertion order.
    pub fn list(table: &HostTable) -> (r: (bool, Vec<Listing>))
        ensures
            r.0 == (table@.rows.len() > 0),
            lines_of(r.1@) == listed(table@.rows),
    {
        let n = table.rows.len();
        let mut lines: Vec<Listing> = Vec::new();
        let mut i: usize = 0;
        while i < n
            invariant
                i <= n,
                n == table.rows@.len(),
                lines@.len() == i,
                forall|j: int| 0 <= j < i ==> (#[trigger] lines@[j])@ == listed(table@.rows)[j],
            decreases n - i,
        {
            let r = &table.rows[i];
            let mark = if r.df { '*' } else { ' ' };
            lines.push(Listing { id: r.id, mark, ip: r.ip.clone(), user: r.user.clone() });
            i += 1;
        }
        assert(lines_of(lines@) =~= listed(table@.rows));
        (n > 0, lines)
    }
}

} // verus!
