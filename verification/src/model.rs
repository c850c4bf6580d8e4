//! The registry as mathematics: a sequence of rows in insertion order with a
//! next-id counter, the predicates that describe a healthy registry, and the
//! table that each operation leaves behind.

use vstd::prelude::*;
use crate::address::is_address_literal;
use crate::host::HostView;

verus! {

/// Why a record was not stored.
#[derive(Debug, Clone, Copy, PartialEq, Eq)]
pub enum Rejection {
    /// One of the three fields is the word that stands for "no value".
    Sentinel,
    /// The address is neither an IPv4 nor an IPv6 literal.
    InvalidAddress,
}

/// How an attempt to add a record ended.
#[derive(Debug, Clone, Copy, PartialEq, Eq)]
pub enum AddOutcome {
    /// The record is in the registry under `id`; `created` tells a new row
    /// from a changed secret.
    Stored { id: i64, created: bool },
    /// Nothing was changed.
    Rejected(Rejection),
}

/// One stored record.
pub struct Row {
    pub id: int,
    pub df: bool,
    pub ip: Seq<char>,
    pub user: Seq<char>,
    pub pswd: Seq<char>,
}

/// The rows in insertion order, and the counter from which the store would
/// number the next row.
pub struct Table {
    pub rows: Seq<Row>,
    pub counter: int,
}

/// The word that stands for "no value supplied".
pub open spec fn sentinel() -> Seq<char> {
    "UNKNOWN"@
}

/// Ids are positive and grow along the insertion order.
pub open spec fn ascending(rows: Seq<Row>) -> bool {
    &&& forall|i: int| 0 <= i < rows.len() ==> (#[trigger] rows[i]).id >= 1
    &&& forall|i: int, j: int|
        0 <= i < j < rows.len() ==> (#[trigger] rows[i]).id < (#[trigger] rows[j]).id
}

/// Two rows have the same address and the same user.
pub open spec fn same_key(a: Row, b: Row) -> bool {
    a.ip == b.ip && a.user == b.user
}

/// No two rows share an address and a user.
pub open spec fn unique_keys(rows: Seq<Row>) -> bool {
    forall|i: int, j: int|
        0 <= i < j < rows.len() ==> !same_key(#[trigger] rows[i], #[trigger] rows[j])
}

/// What holds of every table that the registry hands out or takes.
pub open spec fn well_formed(t: Table) -> bool {
    ascending(t.rows) && unique_keys(t.rows)
}

/// The ids are 1, 2, ... in insertion order.
pub open spec fn dense(rows: Seq<Row>) -> bool {
    forall|i: int| 0 <= i < rows.len() ==> (#[trigger] rows[i]).id == i + 1
}

/// At most one row is marked as the default.
pub open spec fn single_default(rows: Seq<Row>) -> bool {
    forall|i: int, j: int|
        0 <= i < rows.len() && 0 <= j < rows.len() && (#[trigger] rows[i]).df
            && (#[trigger] rows[j]).df ==> i == j
}

/// No row is marked as the default.
pub open spec fn no_default(rows: Seq<Row>) -> bool {
    forall|i: int| 0 <= i < rows.len() ==> !(#[trigger] rows[i]).df
}

/// Whether a record with these fields may be stored, and if not, why.
pub open spec fn rejection(h: HostView) -> Option<Rejection> {
    if h.ip == sentinel() || h.user == sentinel() || h.pswd == sentinel() {
        Some(Rejection::Sentinel)
    } else if !is_address_literal(h.ip) {
        Some(Rejection::InvalidAddress)
    } else {
        None
    }
}

/// Every row carries an address literal and no sentinel.
pub open spec fn valid_fields(rows: Seq<Row>) -> bool {
    forall|i: int|
        0 <= i < rows.len() ==> rejection(
            HostView { ip: (#[trigger] rows[i]).ip, user: rows[i].user, pswd: rows[i].pswd },
        ) is None
}

/// The same rows, numbered 1, 2, ... in their order.
pub open spec fn renumbered(rows: Seq<Row>) -> Seq<Row> {
    Seq::new(
        rows.len(),
        |i: int| Row { id: i + 1, df: rows[i].df, ip: rows[i].ip, user: rows[i].user, pswd: rows[i].pswd },
    )
}

/// The row has the address and the user of `h`.
pub open spec fn has_key(r: Row, h: HostView) -> bool {
    r.ip == h.ip && r.user == h.user
}

/// Some row has the address and the user of `h`.
pub open spec fn holds(rows: Seq<Row>, h: HostView) -> bool {
    exists|i: int| 0 <= i < rows.len() && has_key(#[trigger] rows[i], h)
}

/// The id of the row with the address and the user of `h`.
pub open spec fn id_of(rows: Seq<Row>, h: HostView) -> int {
    rows[choose|i: int| 0 <= i < rows.len() && has_key(#[trigger] rows[i], h)].id
}

/// The rows with the secret of `h` in the row that has its address and user.
pub open spec fn resecreted(rows: Seq<Row>, h: HostView) -> Seq<Row> {
    rows.map_values(
        |r: Row|
            if has_key(r, h) {
                Row { id: r.id, df: r.df, ip: r.ip, user: r.user, pswd: h.pswd }
            } else {
                r
            },
    )
}

/// The row that a new record starts as, before it is numbered.
pub open spec fn fresh(h: HostView) -> Row {
    Row { id: 0, df: false, ip: h.ip, user: h.user, pswd: h.pswd }
}

/// The table after an attempt to add `h`: unchanged where `h` is rejected;
/// with a new secret where its address and user are already there; else with
/// a new last row, all rows numbered anew and the counter at their count.
pub open spec fn stored(t: Table, h: HostView) -> Table {
    if rejection(h) is Some {
        t
    } else if holds(t.rows, h) {
        Table { rows: resecreted(t.rows, h), counter: t.counter }
    } else {
        Table { rows: renumbered(t.rows.push(fresh(h))), counter: t.rows.len() as int + 1 }
    }
}

/// What an attempt to add `h` reports.
pub open spec fn outcome(t: Table, h: HostView) -> AddOutcome {
    match rejection(h) {
        Some(why) => AddOutcome::Rejected(why),
        None => if holds(t.rows, h) {
            AddOutcome::Stored { id: id_of(t.rows, h) as i64, created: false }
        } else {
            AddOutcome::Stored { id: (t.rows.len() + 1) as i64, created: true }
        },
    }
}

/// The rows whose id is not `id`.
pub open spec fn without(rows: Seq<Row>, id: int) -> Seq<Row> {
    rows.filter(|r: Row| r.id != id)
}

/// The table after the record `id` is deleted: the other rows, numbered
/// anew, and the counter at their count, whether or not a row had that id.
pub open spec fn deleted(t: Table, id: int) -> Table {
    Table { rows: renumbered(without(t.rows, id)), counter: without(t.rows, id).len() as int }
}

/// Whether `id` may be chosen as the default: 0 clears, any other id must
/// be there.
pub open spec fn selectable(rows: Seq<Row>, id: int) -> bool {
    id == 0 || exists|i: int| 0 <= i < rows.len() && (#[trigger] rows[i]).id == id
}

/// The rows with the mark on the row `id` and on no other.
pub open spec fn marked(rows: Seq<Row>, id: int) -> Seq<Row> {
    rows.map_values(
        |r: Row| Row { id: r.id, df: id != 0 && r.id == id, ip: r.ip, user: r.user, pswd: r.pswd },
    )
}

/// The table after `id` is chosen as the default: unchanged where it cannot
/// be chosen.
pub open spec fn selected(t: Table, id: int) -> Table {
    if selectable(t.rows, id) {
        Table { rows: marked(t.rows, id), counter: t.counter }
    } else {
        t
    }
}

/// The credentials of the default record: those of the last marked row,
/// `None` where no row is marked.
pub open spec fn default_of(rows: Seq<Row>) -> Option<HostView>
    decreases rows.len(),
{
    if rows.len() == 0 {
        None
    } else if rows.last().df {
        Some(HostView { ip: rows.last().ip, user: rows.last().user, pswd: rows.last().pswd })
    } else {
        default_of(rows.drop_last())
    }
}

/// One change that a caller may ask of the registry.
pub enum Op {
    /// Add a record with these fields.
    Add(HostView),
    /// Delete the record with this id.
    Del(int),
    /// Choose the record with this id as the default; 0 clears the choice.
    Use(int),
}

/// The registry before anything was stored in it.
pub open spec fn empty() -> Table {
    Table { rows: Seq::empty(), counter: 0 }
}

/// The table after one change.
pub open spec fn applied(t: Table, op: Op) -> Table {
    match op {
        Op::Add(h) => stored(t, h),
        Op::Del(id) => deleted(t, id),
        Op::Use(id) => selected(t, id),
    }
}

/// The table after a history of changes to a new registry.
pub open spec fn replay(ops: Seq<Op>) -> Table
    decreases ops.len(),
{
    if ops.len() == 0 {
        empty()
    } else {
        applied(replay(ops.drop_last()), ops.last())
    }
}

/// The ids of the rows, in their order.
pub open spec fn ids(rows: Seq<Row>) -> Seq<int> {
    rows.map_values(|r: Row| r.id)
}

/// The mark shown before the id of a listed record.
pub open spec fn mark_of(df: bool) -> char {
    if df {
        '*'
    } else {
        ' '
    }
}

} // verus!
