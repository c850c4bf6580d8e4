//! What holds of the registry whatever is asked of it: ids stay dense, an
//! address and a user name one record, and one record at most is the default.

use vstd::prelude::*;
use crate::host::HostView;
use crate::model::{
    ascending, default_of, deleted, dense, fresh, has_key, holds, ids, marked, no_default,
    outcome, rejection, renumbered, replay, resecreted, same_key, selectable, selected,
    single_default, stored, unique_keys, valid_fields, well_formed, without, AddOutcome, Op, Row,
    Table,
};

verus! {

/// Deleting an id that no row has leaves the rows as they are.
pub proof fn lemma_without_absent(rows: Seq<Row>, id: int)
    requires
        forall|i: int| 0 <= i < rows.len() ==> (#[trigger] rows[i]).id != id,
    ensures
        without(rows, id) == rows,
    decreases rows.len(),
{
    reveal(Seq::filter);
    if rows.len() > 0 {
        let init = rows.drop_last();
        assert forall|i: int| 0 <= i < init.len() implies (#[trigger] init[i]).id != id by {
            assert(init[i] == rows[i]);
        }
        lemma_without_absent(init, id);
        assert(rows.last() == rows[rows.len() - 1]);
        assert(init.push(rows.last()) =~= rows);
    }
}

/// Where ids grow along the rows, deleting the id of row `k` takes out that
/// row and no other.
pub proof fn lemma_without_at(rows: Seq<Row>, id: int, k: int)
    requires
        ascending(rows),
        0 <= k < rows.len(),
        rows[k].id == id,
    ensures
        without(rows, id) == rows.remove(k),
    decreases rows.len(),
{
    reveal(Seq::filter);
    let init = rows.drop_last();
    let last = rows.len() - 1;
    assert(rows.last() == rows[last]);
    assert forall|i: int| 0 <= i < init.len() implies (#[trigger] init[i]) == rows[i] by {}
    if k == last {
        assert forall|i: int| 0 <= i < init.len() implies (#[trigger] init[i]).id != id by {
            assert(rows[i].id < rows[k].id);
        }
        lemma_without_absent(init, id);
        assert(rows.remove(k) =~= init);
    } else {
        assert(rows[k].id < rows[last].id);
        assert(ascending(init)) by {
            assert forall|i: int, j: int| 0 <= i < j < init.len() implies (#[trigger] init[i]).id
                < (#[trigger] init[j]).id by {
                assert(rows[i].id < rows[j].id);
            }
        }
        lemma_without_at(init, id, k);
        assert(init.remove(k).push(rows.last()) =~= rows.remove(k));
    }
}

/// Taking one row out keeps the order of the ids, the distinct keys, the
/// single default and the valid fields.
pub proof fn lemma_remove_keeps(rows: Seq<Row>, k: int)
    requires
        0 <= k < rows.len(),
    ensures
        ascending(rows) ==> ascending(rows.remove(k)),
        unique_keys(rows) ==> unique_keys(rows.remove(k)),
        single_default(rows) ==> single_default(rows.remove(k)),
        valid_fields(rows) ==> valid_fields(rows.remove(k)),
        unique_keys(rows) ==> forall|i: int|
            0 <= i < rows.remove(k).len() ==> !same_key(#[trigger] rows.remove(k)[i], rows[k]),
{
    let out = rows.remove(k);
    assert forall|i: int| 0 <= i < out.len() implies #[trigger] out[i] == rows[if i < k {
        i
    } else {
        i + 1
    }] by {}
    if ascending(rows) {
        assert forall|i: int, j: int| 0 <= i < j < out.len() implies (#[trigger] out[i]).id
            < (#[trigger] out[j]).id by {
            let a = if i < k { i } else { i + 1 };
            let b = if j < k { j } else { j + 1 };
            assert(rows[a].id < rows[b].id);
        }
    }
    if unique_keys(rows) {
        assert forall|i: int, j: int| 0 <= i < j < out.len() implies !same_key(
            #[trigger] out[i],
            #[trigger] out[j],
        ) by {
            let a = if i < k { i } else { i + 1 };
            let b = if j < k { j } else { j + 1 };
            assert(!same_key(rows[a], rows[b]));
        }
        assert forall|i: int| 0 <= i < out.len() implies !same_key(#[trigger] out[i], rows[k]) by {
            let a = if i < k { i } else { i + 1 };
            if a < k {
                assert(!same_key(rows[a], rows[k]));
            } else {
                assert(!same_key(rows[k], rows[a]));
            }
        }
    }
    if single_default(rows) {
        assert forall|i: int, j: int|
            0 <= i < out.len() && 0 <= j < out.len() && (#[trigger] out[i]).df && (
            #[trigger] out[j]).df implies i == j by {
            let a = if i < k { i } else { i + 1 };
            let b = if j < k { j } else { j + 1 };
            assert(rows[a].df && rows[b].df);
        }
    }
    if valid_fields(rows) {
        assert forall|i: int| 0 <= i < out.len() implies rejection(
            HostView { ip: (#[trigger] out[i]).ip, user: out[i].user, pswd: out[i].pswd },
        ) is None by {
            let a = if i < k { i } else { i + 1 };
            assert(out[i] == rows[a]);
        }
    }
}

/// Numbering the rows anew gives dense, growing ids and changes nothing
/// else.
pub proof fn lemma_renumbered_keeps(rows: Seq<Row>)
    ensures
        dense(renumbered(rows)),
        ascending(renumbered(rows)),
        unique_keys(rows) ==> unique_keys(renumbered(rows)),
        single_default(rows) ==> single_default(renumbered(rows)),
        valid_fields(rows) ==> valid_fields(renumbered(rows)),
        dense(rows) ==> renumbered(rows) == rows,
{
    let out = renumbered(rows);
    if unique_keys(rows) {
        assert forall|i: int, j: int| 0 <= i < j < out.len() implies !same_key(
            #[trigger] out[i],
            #[trigger] out[j],
        ) by {
            assert(!same_key(rows[i], rows[j]));
        }
    }
    if single_default(rows) {
        assert forall|i: int, j: int|
            0 <= i < out.len() && 0 <= j < out.len() && (#[trigger] out[i]).df && (
            #[trigger] out[j]).df implies i == j by {
            assert(rows[i].df && rows[j].df);
        }
    }
    if valid_fields(rows) {
        assert forall|i: int| 0 <= i < out.len() implies rejection(
            HostView { ip: (#[trigger] out[i]).ip, user: out[i].user, pswd: out[i].pswd },
        ) is None by {
            assert(out[i].ip == rows[i].ip);
        }
    }
    if dense(rows) {
        assert forall|i: int| 0 <= i < out.len() implies out[i] == rows[i] by {
            assert(rows[i].id == i + 1);
        }
        assert(out =~= rows);
    }
}

/// Density: dense ids are exactly the numbers from 1 to the count of the
/// rows, each once.
pub proof fn law_dense_ids(rows: Seq<Row>)
    requires
        dense(rows),
    ensures
        ids(rows).no_duplicates(),
        ids(rows).to_set() == Set::new(|k: int| 1 <= k <= rows.len()),
{
    let s = ids(rows);
    assert forall|i: int, j: int| 0 <= i < s.len() && 0 <= j < s.len() && i != j implies s[i]
        != s[j] by {
        assert(rows[i].id == i + 1 && rows[j].id == j + 1);
    }
    assert forall|k: int| s.to_set().contains(k) <==> 1 <= k <= rows.len() by {
        if s.to_set().contains(k) {
            let i = choose|i: int| 0 <= i < s.len() && s[i] == k;
            assert(rows[i].id == i + 1);
        }
        if 1 <= k <= rows.len() {
            assert(rows[k - 1].id == k);
            assert(s[k - 1] == k);
        }
    }
    assert(s.to_set() =~= Set::new(|k: int| 1 <= k <= rows.len()));
}

/// Deleting by id, whether or not the id is there, leaves a well-formed
/// table with dense ids and the counter at the count of the rows. The row
/// that had the id is gone, the others keep their order and their fields,
/// and no row that stays has the address and user of the one that left.
pub proof fn law_delete(t: Table, id: int)
    requires
        well_formed(t),
    ensures
        well_formed(deleted(t, id)),
        dense(deleted(t, id).rows),
        deleted(t, id).counter == deleted(t, id).rows.len(),
        single_default(t.rows) ==> single_default(deleted(t, id).rows),
        valid_fields(t.rows) ==> valid_fields(deleted(t, id).rows),
        !selectable(t.rows, id) || id == 0 ==> deleted(t, id).rows == renumbered(t.rows),
        forall|k: int|
            0 <= k < t.rows.len() && (#[trigger] t.rows[k]).id == id ==> {
                &&& deleted(t, id).rows == renumbered(t.rows.remove(k))
                &&& deleted(t, id).rows.len() == t.rows.len() - 1
                &&& forall|i: int|
                    0 <= i < deleted(t, id).rows.len() ==> !same_key(
                        #[trigger] deleted(t, id).rows[i],
                        t.rows[k],
                    )
            },
{
    let rest = without(t.rows, id);
    if exists|k: int| 0 <= k < t.rows.len() && (#[trigger] t.rows[k]).id == id {
        let k = choose|k: int| 0 <= k < t.rows.len() && (#[trigger] t.rows[k]).id == id;
        lemma_without_at(t.rows, id, k);
        lemma_remove_keeps(t.rows, k);
        lemma_renumbered_keeps(rest);
        assert forall|j: int| 0 <= j < t.rows.len() && (#[trigger] t.rows[j]).id == id implies j
            == k by {
            if j < k {
                assert(t.rows[j].id < t.rows[k].id);
            } else if k < j {
                assert(t.rows[k].id < t.rows[j].id);
            }
        }
        assert forall|i: int| 0 <= i < deleted(t, id).rows.len() implies !same_key(
            #[trigger] deleted(t, id).rows[i],
            t.rows[k],
        ) by {
            assert(!same_key(rest[i], t.rows[k]));
        }
    } else {
        lemma_without_absent(t.rows, id);
        lemma_renumbered_keeps(t.rows);
    }
}

/// Adding a record leaves a well-formed table. Where a row is created, the
/// ids are dense afterwards and the counter is the count of the rows; where
/// not, ids and counter stay as they were. The single default and the valid
/// fields are kept.
pub proof fn law_add(t: Table, h: HostView)
    requires
        well_formed(t),
    ensures
        well_formed(stored(t, h)),
        rejection(h) is None && !holds(t.rows, h) ==> dense(stored(t, h).rows) && stored(
            t,
            h,
        ).counter == stored(t, h).rows.len(),
        dense(t.rows) ==> dense(stored(t, h).rows),
        t.counter == t.rows.len() ==> stored(t, h).counter == stored(t, h).rows.len(),
        single_default(t.rows) ==> single_default(stored(t, h).rows),
        valid_fields(t.rows) ==> valid_fields(stored(t, h).rows),
{
    if rejection(h) is Some {
    } else if holds(t.rows, h) {
        let out = resecreted(t.rows, h);
        assert forall|i: int, j: int| 0 <= i < j < out.len() implies !same_key(
            #[trigger] out[i],
            #[trigger] out[j],
        ) by {
            assert(!same_key(t.rows[i], t.rows[j]));
        }
        assert forall|i: int, j: int| 0 <= i < j < out.len() implies (#[trigger] out[i]).id
            < (#[trigger] out[j]).id by {
            assert(t.rows[i].id < t.rows[j].id);
        }
        assert forall|i: int| 0 <= i < out.len() implies (#[trigger] out[i]).id >= 1 by {
            assert(t.rows[i].id >= 1);
        }
        if dense(t.rows) {
            assert forall|i: int| 0 <= i < out.len() implies (#[trigger] out[i]).id == i + 1 by {
                assert(t.rows[i].id == i + 1);
            }
        }
        if single_default(t.rows) {
            assert forall|i: int, j: int|
                0 <= i < out.len() && 0 <= j < out.len() && (#[trigger] out[i]).df && (
                #[trigger] out[j]).df implies i == j by {
                assert(t.rows[i].df && t.rows[j].df);
            }
        }
        if valid_fields(t.rows) {
            assert forall|i: int| 0 <= i < out.len() implies rejection(
                HostView { ip: (#[trigger] out[i]).ip, user: out[i].user, pswd: out[i].pswd },
            ) is None by {
                assert(rejection(
                    HostView { ip: t.rows[i].ip, user: t.rows[i].user, pswd: t.rows[i].pswd },
                ) is None);
            }
        }
    } else {
        let grown = t.rows.push(fresh(h));
        assert forall|i: int, j: int| 0 <= i < j < grown.len() implies !same_key(
            #[trigger] grown[i],
            #[trigger] grown[j],
        ) by {
            if j < t.rows.len() {
                assert(!same_key(t.rows[i], t.rows[j]));
            } else {
                assert(!has_key(t.rows[i], h));
            }
        }
        if single_default(t.rows) {
            assert forall|i: int, j: int|
                0 <= i < grown.len() && 0 <= j < grown.len() && (#[trigger] grown[i]).df && (
                #[trigger] grown[j]).df implies i == j by {
                assert(t.rows[i].df && t.rows[j].df);
            }
        }
        if valid_fields(t.rows) {
            assert forall|i: int| 0 <= i < grown.len() implies rejection(
                HostView { ip: (#[trigger] grown[i]).ip, user: grown[i].user, pswd: grown[i].pswd },
            ) is None by {
                if i < t.rows.len() {
                    assert(grown[i] == t.rows[i]);
                } else {
                    assert(HostView { ip: grown[i].ip, user: grown[i].user, pswd: grown[i].pswd }
                        == h);
                }
            }
        }
        lemma_renumbered_keeps(grown);
    }
}

/// Uniqueness: adding a record whose address and user are those of row `k`
/// gives that row the new secret and changes nothing else: not its id, not
/// its mark, no other row, not the count, not the counter.
pub proof fn law_upsert(t: Table, h: HostView, k: int)
    requires
        well_formed(t),
        rejection(h) is None,
        0 <= k < t.rows.len(),
        has_key(t.rows[k], h),
    ensures
        stored(t, h).rows.len() == t.rows.len(),
        stored(t, h).counter == t.counter,
        stored(t, h).rows[k] == (Row {
            id: t.rows[k].id,
            df: t.rows[k].df,
            ip: t.rows[k].ip,
            user: t.rows[k].user,
            pswd: h.pswd,
        }),
        forall|i: int| 0 <= i < t.rows.len() && i != k ==> stored(t, h).rows[i] == t.rows[i],
        outcome(t, h) == (AddOutcome::Stored { id: t.rows[k].id as i64, created: false }),
{
    assert(holds(t.rows, h));
    assert forall|i: int| 0 <= i < t.rows.len() && i != k implies !has_key(
        #[trigger] t.rows[i],
        h,
    ) by {
        if i < k {
            assert(!same_key(t.rows[i], t.rows[k]));
        } else {
            assert(!same_key(t.rows[k], t.rows[i]));
        }
    }
    let c = choose|i: int| 0 <= i < t.rows.len() && has_key(#[trigger] t.rows[i], h);
    assert(c == k);
}

/// Single default: choosing a default leaves a well-formed table with the
/// same ids in which at most one row is marked, the row with the chosen id;
/// choosing 0 leaves none marked; an id that is not there changes nothing.
pub proof fn law_select(t: Table, id: int)
    requires
        well_formed(t),
    ensures
        well_formed(selected(t, id)),
        ids(selected(t, id).rows) == ids(t.rows),
        selected(t, id).counter == t.counter,
        selectable(t.rows, id) ==> single_default(selected(t, id).rows),
        selectable(t.rows, id) ==> forall|i: int|
            0 <= i < t.rows.len() ==> (#[trigger] selected(t, id).rows[i]).df == (id != 0
                && t.rows[i].id == id),
        id == 0 ==> no_default(selected(t, id).rows),
        !selectable(t.rows, id) ==> selected(t, id) == t,
        single_default(t.rows) ==> single_default(selected(t, id).rows),
        dense(t.rows) ==> dense(selected(t, id).rows),
        valid_fields(t.rows) ==> valid_fields(selected(t, id).rows),
{
    if selectable(t.rows, id) {
        let out = marked(t.rows, id);
        assert(ids(out) =~= ids(t.rows));
        assert forall|i: int, j: int| 0 <= i < j < out.len() implies !same_key(
            #[trigger] out[i],
            #[trigger] out[j],
        ) by {
            assert(!same_key(t.rows[i], t.rows[j]));
        }
        assert forall|i: int, j: int| 0 <= i < j < out.len() implies (#[trigger] out[i]).id
            < (#[trigger] out[j]).id by {
            assert(t.rows[i].id < t.rows[j].id);
        }
        assert forall|i: int| 0 <= i < out.len() implies (#[trigger] out[i]).id >= 1 by {
            assert(t.rows[i].id >= 1);
        }
        assert forall|i: int, j: int|
            0 <= i < out.len() && 0 <= j < out.len() && (#[trigger] out[i]).df && (
            #[trigger] out[j]).df implies i == j by {
            if i < j {
                assert(t.rows[i].id < t.rows[j].id);
            } else if j < i {
                assert(t.rows[j].id < t.rows[i].id);
            }
        }
        if dense(t.rows) {
            assert forall|i: int| 0 <= i < out.len() implies (#[trigger] out[i]).id == i + 1 by {
                assert(t.rows[i].id == i + 1);
            }
        }
        if valid_fields(t.rows) {
            assert forall|i: int| 0 <= i < out.len() implies rejection(
                HostView { ip: (#[trigger] out[i]).ip, user: out[i].user, pswd: out[i].pswd },
            ) is None by {
                assert(out[i].ip == t.rows[i].ip);
            }
        }
    }
}

/// The default that is read back: where one row at most is marked and row
/// `k` is, the default is that row's credentials.
pub proof fn law_default_is_marked(rows: Seq<Row>, k: int)
    requires
        single_default(rows),
        0 <= k < rows.len(),
        rows[k].df,
    ensures
        default_of(rows) == Some(HostView { ip: rows[k].ip, user: rows[k].user, pswd: rows[k].pswd }),
    decreases rows.len(),
{
    let last = rows.len() - 1;
    if k < last {
        assert(!rows[last].df);
        let init = rows.drop_last();
        assert forall|i: int, j: int|
            0 <= i < init.len() && 0 <= j < init.len() && (#[trigger] init[i]).df && (
            #[trigger] init[j]).df implies i == j by {
            assert(rows[i].df && rows[j].df);
        }
        law_default_is_marked(init, k);
    }
}

/// Where no row is marked there is no default.
pub proof fn law_no_default(rows: Seq<Row>)
    requires
        no_default(rows),
    ensures
        default_of(rows) is None,
    decreases rows.len(),
{
    if rows.len() > 0 {
        assert(!rows[rows.len() - 1].df);
        let init = rows.drop_last();
        assert forall|i: int| 0 <= i < init.len() implies !(#[trigger] init[i]).df by {
            assert(!rows[i].df);
        }
        law_no_default(init);
    }
}

/// Whatever history of additions, deletions and choices of a default a new
/// registry has seen, its table is well formed, its ids are the numbers from
/// 1 to the count of its rows in insertion order, each once, its counter is
/// that count, one row at most is marked, and every row carries an address
/// literal and no sentinel.
pub proof fn law_history(ops: Seq<Op>)
    ensures
        well_formed(replay(ops)),
        dense(replay(ops).rows),
        ids(replay(ops).rows).no_duplicates(),
        ids(replay(ops).rows).to_set() == Set::new(|k: int| 1 <= k <= replay(ops).rows.len()),
        replay(ops).counter == replay(ops).rows.len(),
        single_default(replay(ops).rows),
        valid_fields(replay(ops).rows),
    decreases ops.len(),
{
    if ops.len() > 0 {
        let before = replay(ops.drop_last());
        law_history(ops.drop_last());
        match ops.last() {
            Op::Add(h) => law_add(before, h),
            Op::Del(id) => law_delete(before, id),
            Op::Use(id) => law_select(before, id),
        }
    }
    law_dense_ids(replay(ops).rows);
}

} // verus!
