//! Tables of keyed rows: ordering, lookup and counting.

use vstd::prelude::*;

use crate::model::Keyed;

verus! {

/// Keys strictly increase along the table, every key is positive and none
/// exceeds `last`, the largest key handed out so far.
pub open spec fn keys_ordered<T: Keyed>(rows: Seq<T>, last: int) -> bool {
    &&& forall|i: int, j: int| 0 <= i < j < rows.len() ==> #[trigger] rows[i].key() < #[trigger] rows[j].key()
    &&& forall|i: int| 0 <= i < rows.len() ==> 1 <= #[trigger] rows[i].key() <= last
}

pub open spec fn has_key<T: Keyed>(rows: Seq<T>, k: i64) -> bool {
    exists|i: int| 0 <= i < rows.len() && #[trigger] rows[i].key() == k
}

/// The index of the row with key `k` (meaningful when there is one).
pub open spec fn position<T: Keyed>(rows: Seq<T>, k: i64) -> int {
    choose|i: int| 0 <= i < rows.len() && #[trigger] rows[i].key() == k
}

/// The row with key `k` (meaningful when there is one).
pub open spec fn row<T: Keyed>(rows: Seq<T>, k: i64) -> T {
    rows[position(rows, k)]
}

/// In a table with increasing keys, a row found at index `i` is the one
/// that `position` names.
pub proof fn lemma_position_unique<T: Keyed>(rows: Seq<T>, last: int, i: int)
    requires
        keys_ordered(rows, last),
        0 <= i < rows.len(),
    ensures
        has_key(rows, rows[i].key()),
        position(rows, rows[i].key()) == i,
{
    let k = rows[i].key();
    assert(0 <= i < rows.len() && rows[i].key() == k);
    let p = position(rows, k);
    if p < i {
        assert(rows[p].key() < rows[i].key());
    } else if p > i {
        assert(rows[i].key() < rows[p].key());
    }
}

/// Finds the index of the row with key `k`.
pub fn find_row<T: Keyed>(rows: &Vec<T>, k: i64, Ghost(last): Ghost<int>) -> (r: Option<usize>)
    requires
        keys_ordered(rows@, last),
    ensures
        match r {
            Some(i) => {
                &&& has_key(rows@, k)
                &&& i < rows@.len()
                &&& i == position(rows@, k)
                &&& rows@[i as int].key() == k
            },
            None => !has_key(rows@, k),
        },
{
    let mut i: usize = 0;
    while i < rows.len()
        invariant
            i <= rows@.len(),
            keys_ordered(rows@, last),
            forall|j: int| 0 <= j < i ==> #[trigger] rows@[j].key() != k,
        decreases rows@.len() - i,
    {
        if rows[i].row_key() == k {
            proof {
                lemma_position_unique(rows@, last, i as int);
            }
            return Some(i);
        }
        i += 1;
    }
    None
}

/// A table with ordered keys holds no more rows than its largest key.
pub proof fn lemma_len_bounded<T: Keyed>(rows: Seq<T>, last: int)
    requires
        keys_ordered(rows, last),
        0 <= last,
    ensures
        rows.len() <= last,
    decreases rows.len(),
{
    if rows.len() > 0 {
        let rest = rows.drop_last();
        let top = rows[rows.len() - 1].key();
        assert(1 <= top <= last);
        if rows.len() > 1 {
            assert(rows[rows.len() - 2].key() < top);
        }
        assert forall|i: int| 0 <= i < rest.len() implies 1 <= #[trigger] rest[i].key() <= top - 1 by {
            assert(rest[i] == rows[i]);
            assert(rows[i].key() < rows[rows.len() - 1].key());
            assert(1 <= rows[i].key());
        }
        assert(keys_ordered(rest, top - 1));
        lemma_len_bounded(rest, top - 1);
    }
}

/// How many rows satisfy `p`.
pub open spec fn count<T>(rows: Seq<T>, p: spec_fn(T) -> bool) -> nat
    decreases rows.len(),
{
    if rows.len() == 0 {
        0
    } else {
        count(rows.drop_last(), p) + if p(rows.last()) {
            1nat
        } else {
            0nat
        }
    }
}

pub proof fn lemma_count_bounded<T>(rows: Seq<T>, p: spec_fn(T) -> bool)
    ensures
        count(rows, p) <= rows.len(),
    decreases rows.len(),
{
    if rows.len() > 0 {
        lemma_count_bounded(rows.drop_last(), p);
    }
}

pub proof fn lemma_count_push<T>(rows: Seq<T>, p: spec_fn(T) -> bool, x: T)
    ensures
        count(rows.push(x), p) == count(rows, p) + if p(x) {
            1nat
        } else {
            0nat
        },
{
    assert(rows.push(x).drop_last() =~= rows);
}

pub proof fn lemma_count_take_step<T>(rows: Seq<T>, p: spec_fn(T) -> bool, i: int)
    requires
        0 <= i < rows.len(),
    ensures
        count(rows.take(i + 1), p) == count(rows.take(i), p) + if p(rows[i]) {
            1nat
        } else {
            0nat
        },
{
    assert(rows.take(i + 1).drop_last() =~= rows.take(i));
}

/// Replacing one row changes the count by what the old and new row add.
pub proof fn lemma_count_update<T>(rows: Seq<T>, p: spec_fn(T) -> bool, j: int, x: T)
    requires
        0 <= j < rows.len(),
    ensures
        count(rows.update(j, x), p) + (if p(rows[j]) {
            1int
        } else {
            0int
        }) == count(rows, p) + (if p(x) {
            1int
        } else {
            0int
        }),
    decreases rows.len(),
{
    let n = rows.len();
    if j == n - 1 {
        assert(rows.update(j, x).drop_last() =~= rows.drop_last());
    } else {
        assert(rows.update(j, x).drop_last() =~= rows.drop_last().update(j, x));
        lemma_count_update(rows.drop_last(), p, j, x);
    }
}

/// Appending a row whose key exceeds every key keeps the table ordered and
/// keeps every existing row where it was.
pub proof fn lemma_push_ordered<T: Keyed>(rows: Seq<T>, last: int, x: T)
    requires
        keys_ordered(rows, last),
        0 <= last,
        x.key() == last + 1,
    ensures
        keys_ordered(rows.push(x), last + 1),
        has_key(rows.push(x), x.key()),
        position(rows.push(x), x.key()) == rows.len(),
        forall|k: i64| #[trigger] has_key(rows, k) ==> has_key(rows.push(x), k) && position(rows.push(x), k)
            == position(rows, k),
{
    let r2 = rows.push(x);
    assert forall|i: int, j: int| 0 <= i < j < r2.len() implies #[trigger] r2[i].key() < #[trigger] r2[j].key() by {
        if j < rows.len() {
            assert(rows[i].key() < rows[j].key());
        } else {
            assert(rows[i].key() <= last);
        }
    }
    assert forall|i: int| 0 <= i < r2.len() implies 1 <= #[trigger] r2[i].key() <= last + 1 by {
        if i < rows.len() {
            assert(1 <= rows[i].key() <= last);
        } else {
            assert(r2[i] == x);
        }
    }
    lemma_position_unique(r2, last + 1, rows.len() as int);
    assert forall|k: i64| #[trigger] has_key(rows, k) implies has_key(r2, k) && position(r2, k) == position(rows, k) by {
        let p = position(rows, k);
        assert(r2[p] == rows[p]);
        lemma_position_unique(r2, last + 1, p);
    }
}

/// Replacing a row by one with the same key keeps the table ordered and
/// every key where it was.
pub proof fn lemma_update_ordered<T: Keyed>(rows: Seq<T>, last: int, j: int, x: T)
    requires
        keys_ordered(rows, last),
        0 <= j < rows.len(),
        x.key() == rows[j].key(),
    ensures
        keys_ordered(rows.update(j, x), last),
        forall|k: i64| #[trigger] has_key(rows.update(j, x), k) == has_key(rows, k),
        forall|k: i64| has_key(rows, k) ==> #[trigger] position(rows.update(j, x), k) == position(rows, k),
{
    let r2 = rows.update(j, x);
    assert forall|a: int, b: int| 0 <= a < b < r2.len() implies #[trigger] r2[a].key() < #[trigger] r2[b].key() by {
        assert(rows[a].key() < rows[b].key());
    }
    assert forall|a: int| 0 <= a < r2.len() implies 1 <= #[trigger] r2[a].key() <= last by {
        assert(1 <= rows[a].key() <= last);
    }
    assert forall|k: i64| #[trigger] has_key(r2, k) == has_key(rows, k) by {
        if has_key(rows, k) {
            let p = position(rows, k);
            assert(r2[p].key() == k);
        }
        if has_key(r2, k) {
            let p = position(r2, k);
            assert(rows[p].key() == k);
        }
    }
    assert forall|k: i64| has_key(rows, k) implies #[trigger] position(r2, k) == position(rows, k) by {
        let p = position(rows, k);
        assert(r2[p].key() == k);
        lemma_position_unique(r2, last, p);
    }
}

/// Removing a row keeps the table ordered and every other key present.
pub proof fn lemma_remove_ordered<T: Keyed>(rows: Seq<T>, last: int, j: int)
    requires
        keys_ordered(rows, last),
        0 <= j < rows.len(),
    ensures
        keys_ordered(rows.remove(j), last),
        forall|k: i64| #[trigger] has_key(rows.remove(j), k) == (has_key(rows, k) && k != rows[j].key()),
{
    let r2 = rows.remove(j);
    assert forall|a: int, b: int| 0 <= a < b < r2.len() implies #[trigger] r2[a].key() < #[trigger] r2[b].key() by {
        let a0 = if a < j { a } else { a + 1 };
        let b0 = if b < j { b } else { b + 1 };
        assert(rows[a0].key() < rows[b0].key());
    }
    assert forall|a: int| 0 <= a < r2.len() implies 1 <= #[trigger] r2[a].key() <= last by {
        let a0 = if a < j { a } else { a + 1 };
        assert(1 <= rows[a0].key() <= last);
    }
    assert forall|k: i64| #[trigger] has_key(r2, k) == (has_key(rows, k) && k != rows[j].key()) by {
        if has_key(rows, k) && k != rows[j].key() {
            let p = position(rows, k);
            if p < j {
                assert(r2[p].key() == k);
            } else {
                assert(p != j);
                assert(r2[p - 1].key() == k);
            }
        }
        if has_key(r2, k) {
            let p = position(r2, k);
            let p0 = if p < j { p } else { p + 1 };
            assert(rows[p0].key() == k);
            if p0 < j {
                assert(rows[p0].key() < rows[j].key());
            } else {
                assert(rows[j].key() < rows[p0].key());
            }
        }
    }
}

} // verus!
