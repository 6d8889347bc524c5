//! First-match lookup over rows of a table, generic in the row type and in
//! the key a row is indexed by, with the lemmas the table operations need.

use vstd::prelude::*;

verus! {

/// The first row whose key is `id`, searching from the front.
pub open spec fn find_by<T, K>(rows: Seq<T>, key: spec_fn(T) -> K, id: K) -> Option<T>
    decreases rows.len(),
{
    if rows.len() == 0 {
        None
    } else if key(rows[0]) == id {
        Some(rows[0])
    } else {
        find_by(rows.skip(1), key, id)
    }
}

/// No two rows share a key.
pub open spec fn unique_by<T, K>(rows: Seq<T>, key: spec_fn(T) -> K) -> bool {
    forall|i: int, j: int|
        0 <= i < j < rows.len() ==> key(#[trigger] rows[i]) != key(#[trigger] rows[j])
}

/// A matching row with no earlier match is what the search finds.
pub proof fn lemma_find_at<T, K>(rows: Seq<T>, key: spec_fn(T) -> K, i: int)
    requires
        0 <= i < rows.len(),
        forall|j: int| 0 <= j < i ==> key(#[trigger] rows[j]) != key(rows[i]),
    ensures
        find_by(rows, key, key(rows[i])) == Some(rows[i]),
    decreases i,
{
    if i > 0 {
        assert forall|j: int| 0 <= j < i - 1 implies key(#[trigger] rows.skip(1)[j]) != key(
            rows.skip(1)[i - 1],
        ) by {
            assert(rows.skip(1)[j] == rows[j + 1]);
            assert(rows.skip(1)[i - 1] == rows[i]);
        }
        assert(rows.skip(1)[i - 1] == rows[i]);
        lemma_find_at(rows.skip(1), key, i - 1);
    }
}

/// With unique keys, every row is what the search finds for its own key.
pub proof fn lemma_find_unique_at<T, K>(rows: Seq<T>, key: spec_fn(T) -> K, i: int)
    requires
        unique_by(rows, key),
        0 <= i < rows.len(),
    ensures
        find_by(rows, key, key(rows[i])) == Some(rows[i]),
{
    lemma_find_at(rows, key, i);
}

/// A key on no row finds nothing.
pub proof fn lemma_find_none<T, K>(rows: Seq<T>, key: spec_fn(T) -> K, id: K)
    requires
        forall|j: int| 0 <= j < rows.len() ==> key(#[trigger] rows[j]) != id,
    ensures
        find_by(rows, key, id) is None,
    decreases rows.len(),
{
    if rows.len() > 0 {
        assert forall|j: int| 0 <= j < rows.skip(1).len() implies key(
            #[trigger] rows.skip(1)[j],
        ) != id by {
            assert(rows.skip(1)[j] == rows[j + 1]);
        }
        lemma_find_none(rows.skip(1), key, id);
    }
}

/// A successful search names some row.
pub proof fn lemma_find_index<T, K>(rows: Seq<T>, key: spec_fn(T) -> K, id: K)
    requires
        find_by(rows, key, id) is Some,
    ensures
        exists|i: int|
            0 <= i < rows.len() && key(#[trigger] rows[i]) == id && rows[i] == find_by(
                rows,
                key,
                id,
            )->Some_0,
    decreases rows.len(),
{
    if rows.len() > 0 && key(rows[0]) != id {
        lemma_find_index(rows.skip(1), key, id);
        let j = choose|j: int|
            0 <= j < rows.skip(1).len() && key(#[trigger] rows.skip(1)[j]) == id && rows.skip(
                1,
            )[j] == find_by(rows.skip(1), key, id)->Some_0;
        assert(rows[j + 1] == rows.skip(1)[j]);
    }
}

/// Replacing row `i` without changing its key changes that key's search
/// result and no other, and keeps keys unique.
pub proof fn lemma_find_update<T, K>(rows: Seq<T>, updated: Seq<T>, key: spec_fn(T) -> K, i: int)
    requires
        unique_by(rows, key),
        0 <= i < rows.len(),
        updated.len() == rows.len(),
        key(updated[i]) == key(rows[i]),
        forall|j: int| 0 <= j < rows.len() && j != i ==> updated[j] == rows[j],
    ensures
        unique_by(updated, key),
        find_by(updated, key, key(rows[i])) == Some(updated[i]),
        forall|other: K|
            other != key(rows[i]) ==> #[trigger] find_by(updated, key, other) == find_by(
                rows,
                key,
                other,
            ),
    decreases rows.len(),
{
    assert forall|p: int, q: int| 0 <= p < q < updated.len() implies key(#[trigger] updated[p])
        != key(#[trigger] updated[q]) by {
        assert(key(rows[p]) != key(rows[q]));
        assert(key(updated[p]) == key(rows[p]));
        assert(key(updated[q]) == key(rows[q]));
    }
    if i == 0 {
        assert(find_by(updated, key, key(rows[0])) == Some(updated[0]));
        assert forall|other: K| other != key(rows[i]) implies #[trigger] find_by(
            updated,
            key,
            other,
        ) == find_by(rows, key, other) by {
            assert(updated.skip(1) =~= rows.skip(1));
        }
    } else {
        assert forall|p: int, q: int| 0 <= p < q < rows.skip(1).len() implies key(
            #[trigger] rows.skip(1)[p],
        ) != key(#[trigger] rows.skip(1)[q]) by {
            assert(rows.skip(1)[p] == rows[p + 1]);
            assert(rows.skip(1)[q] == rows[q + 1]);
        }
        assert(rows.skip(1)[i - 1] == rows[i]);
        assert forall|j: int| 0 <= j < rows.skip(1).len() && j != i - 1 implies updated.skip(
            1,
        )[j] == rows.skip(1)[j] by {
            assert(updated.skip(1)[j] == updated[j + 1]);
            assert(rows.skip(1)[j] == rows[j + 1]);
        }
        assert(updated.skip(1)[i - 1] == updated[i]);
        lemma_find_update(rows.skip(1), updated.skip(1), key, i - 1);
        assert(updated[0] == rows[0]);
        assert(key(rows[0]) != key(rows[i]));
        assert(find_by(updated, key, key(rows[i])) == find_by(updated.skip(1), key, key(rows[i])));
        assert forall|other: K| other != key(rows[i]) implies #[trigger] find_by(
            updated,
            key,
            other,
        ) == find_by(rows, key, other) by {
            if key(rows[0]) != other {
                assert(find_by(updated, key, other) == find_by(updated.skip(1), key, other));
                assert(find_by(rows, key, other) == find_by(rows.skip(1), key, other));
                assert(find_by(updated.skip(1), key, other) == find_by(rows.skip(1), key, other));
            }
        }
    }
}

/// Appending a row with a fresh key adds exactly that key's search result
/// and keeps keys unique.
pub proof fn lemma_find_push<T, K>(rows: Seq<T>, key: spec_fn(T) -> K, row: T)
    requires
        unique_by(rows, key),
        forall|j: int| 0 <= j < rows.len() ==> key(#[trigger] rows[j]) != key(row),
    ensures
        unique_by(rows.push(row), key),
        find_by(rows.push(row), key, key(row)) == Some(row),
        forall|other: K|
            other != key(row) ==> #[trigger] find_by(rows.push(row), key, other) == find_by(
                rows,
                key,
                other,
            ),
    decreases rows.len(),
{
    let p = rows.push(row);
    assert forall|i: int, j: int| 0 <= i < j < p.len() implies key(#[trigger] p[i]) != key(
        #[trigger] p[j],
    ) by {
        if j == rows.len() {
            assert(p[i] == rows[i]);
            assert(p[j] == row);
        } else {
            assert(p[i] == rows[i]);
            assert(p[j] == rows[j]);
        }
    }
    if rows.len() == 0 {
        assert(p[0] == row);
        assert forall|other: K| other != key(row) implies #[trigger] find_by(p, key, other)
            == find_by(rows, key, other) by {
            assert(p.skip(1) =~= Seq::<T>::empty());
            assert(find_by(p, key, other) == find_by(p.skip(1), key, other));
        }
    } else {
        assert forall|j: int| 0 <= j < rows.skip(1).len() implies key(
            #[trigger] rows.skip(1)[j],
        ) != key(row) by {
            assert(rows.skip(1)[j] == rows[j + 1]);
        }
        assert forall|p2: int, q: int| 0 <= p2 < q < rows.skip(1).len() implies key(
            #[trigger] rows.skip(1)[p2],
        ) != key(#[trigger] rows.skip(1)[q]) by {
            assert(rows.skip(1)[p2] == rows[p2 + 1]);
            assert(rows.skip(1)[q] == rows[q + 1]);
        }
        lemma_find_push(rows.skip(1), key, row);
        assert(p[0] == rows[0]);
        assert(key(rows[0]) != key(row));
        assert(p.skip(1) =~= rows.skip(1).push(row));
        assert(find_by(p, key, key(row)) == find_by(p.skip(1), key, key(row)));
        assert forall|other: K| other != key(row) implies #[trigger] find_by(p, key, other)
            == find_by(rows, key, other) by {
            if key(rows[0]) != other {
                assert(find_by(p, key, other) == find_by(p.skip(1), key, other));
                assert(find_by(rows, key, other) == find_by(rows.skip(1), key, other));
                assert(find_by(rows.skip(1).push(row), key, other) == find_by(
                    rows.skip(1),
                    key,
                    other,
                ));
            }
        }
    }
}


/// The first row satisfying a predicate, searching from the front.
pub open spec fn find_where<T>(rows: Seq<T>, pred: spec_fn(T) -> bool) -> Option<T>
    decreases rows.len(),
{
    if rows.len() == 0 {
        None
    } else if pred(rows[0]) {
        Some(rows[0])
    } else {
        find_where(rows.skip(1), pred)
    }
}

/// A matching row with no earlier match is what the predicate search finds.
pub proof fn lemma_find_where_at<T>(rows: Seq<T>, pred: spec_fn(T) -> bool, i: int)
    requires
        0 <= i < rows.len(),
        pred(rows[i]),
        forall|j: int| 0 <= j < i ==> !pred(#[trigger] rows[j]),
    ensures
        find_where(rows, pred) == Some(rows[i]),
    decreases i,
{
    if i > 0 {
        assert forall|j: int| 0 <= j < i - 1 implies !pred(#[trigger] rows.skip(1)[j]) by {
            assert(rows.skip(1)[j] == rows[j + 1]);
        }
        assert(rows.skip(1)[i - 1] == rows[i]);
        lemma_find_where_at(rows.skip(1), pred, i - 1);
    }
}

/// A predicate no row satisfies finds nothing.
pub proof fn lemma_find_where_none<T>(rows: Seq<T>, pred: spec_fn(T) -> bool)
    requires
        forall|j: int| 0 <= j < rows.len() ==> !pred(#[trigger] rows[j]),
    ensures
        find_where(rows, pred) is None,
    decreases rows.len(),
{
    if rows.len() > 0 {
        assert forall|j: int| 0 <= j < rows.skip(1).len() implies !pred(
            #[trigger] rows.skip(1)[j],
        ) by {
            assert(rows.skip(1)[j] == rows[j + 1]);
        }
        lemma_find_where_none(rows.skip(1), pred);
    }
}

/// Filtering rows keeps their keys unique.
pub proof fn lemma_filter_unique_by<T, K>(
    rows: Seq<T>,
    key: spec_fn(T) -> K,
    pred: spec_fn(T) -> bool,
)
    requires
        unique_by(rows, key),
    ensures
        unique_by(rows.filter(pred), key),
    decreases rows.len(),
{
    reveal_with_fuel(Seq::filter, 2);
    if rows.len() > 0 {
        let rest = rows.drop_last();
        let last = rows.last();
        assert forall|i: int, j: int| 0 <= i < j < rest.len() implies key(#[trigger] rest[i])
            != key(#[trigger] rest[j]) by {
            assert(key(rows[i]) != key(rows[j]));
        }
        lemma_filter_unique_by(rest, key, pred);
        if pred(last) {
            assert(rows.filter(pred) == rest.filter(pred).push(last));
            assert forall|i: int, j: int| 0 <= i < j < rows.filter(pred).len() implies key(
                #[trigger] rows.filter(pred)[i],
            ) != key(#[trigger] rows.filter(pred)[j]) by {
                if j == rows.filter(pred).len() - 1 {
                    let elem = rest.filter(pred)[i];
                    rest.lemma_filter_contains_rev(pred, elem);
                    let q = choose|q: int| 0 <= q < rest.len() && rest[q] == elem;
                    assert(rows[q] == rest[q]);
                    assert(key(rows[q]) != key(rows[rows.len() - 1]));
                }
            }
        } else {
            assert(rows.filter(pred) == rest.filter(pred));
        }
    }
}

/// Every filtered row keeps the facts the predicate search relies on: it
/// satisfies the filter and appears among the original rows.
pub proof fn lemma_filter_rows_contained<T>(rows: Seq<T>, pred: spec_fn(T) -> bool)
    ensures
        forall|j: int|
            0 <= j < rows.filter(pred).len() ==> pred(#[trigger] rows.filter(pred)[j])
                && rows.contains(rows.filter(pred)[j]),
{
    assert forall|j: int| 0 <= j < rows.filter(pred).len() implies pred(
        #[trigger] rows.filter(pred)[j],
    ) && rows.contains(rows.filter(pred)[j]) by {
        rows.lemma_filter_pred(pred, j);
        rows.lemma_filter_contains_rev(pred, rows.filter(pred)[j]);
    }
}


/// What a keep-filter does to the search: a kept row is still found, a
/// dropped key finds nothing.
pub proof fn lemma_find_filter<T, K>(
    rows: Seq<T>,
    key: spec_fn(T) -> K,
    keep: spec_fn(T) -> bool,
    id: K,
)
    requires
        unique_by(rows, key),
    ensures
        find_by(rows.filter(keep), key, id) == (match find_by(rows, key, id) {
            Some(r) => if keep(r) {
                Some(r)
            } else {
                None
            },
            None => None,
        }),
{
    lemma_filter_unique_by(rows, key, keep);
    let f = rows.filter(keep);
    match find_by(rows, key, id) {
        Some(r) => {
            lemma_find_index(rows, key, id);
            let i = choose|i: int|
                0 <= i < rows.len() && key(#[trigger] rows[i]) == id && rows[i] == find_by(
                    rows,
                    key,
                    id,
                )->Some_0;
            if keep(r) {
                rows.lemma_filter_contains(keep, i);
                let j = choose|j: int| 0 <= j < f.len() && f[j] == rows[i];
                lemma_find_unique_at(f, key, j);
            } else {
                assert forall|j: int| 0 <= j < f.len() implies key(#[trigger] f[j]) != id by {
                    rows.lemma_filter_contains_rev(keep, f[j]);
                    let q = choose|q: int| 0 <= q < rows.len() && rows[q] == f[j];
                    if key(rows[q]) == id {
                        lemma_find_unique_at(rows, key, q);
                    }
                }
                lemma_find_none(f, key, id);
            }
        },
        None => {
            assert forall|j: int| 0 <= j < rows.len() implies key(#[trigger] rows[j]) != id by {
                if key(rows[j]) == id {
                    lemma_find_unique_at(rows, key, j);
                }
            }
            assert forall|j: int| 0 <= j < f.len() implies key(#[trigger] f[j]) != id by {
                rows.lemma_filter_contains_rev(keep, f[j]);
                let q = choose|q: int| 0 <= q < rows.len() && rows[q] == f[j];
            }
            lemma_find_none(f, key, id);
        },
    }
}

/// Filtering preserves any property that holds of every ordered pair.
pub proof fn lemma_filter_pairwise<T>(
    rows: Seq<T>,
    keep: spec_fn(T) -> bool,
    p: spec_fn(T, T) -> bool,
)
    requires
        forall|i: int, j: int| 0 <= i < j < rows.len() ==> p(#[trigger] rows[i], #[trigger] rows[j]),
    ensures
        forall|i: int, j: int|
            0 <= i < j < rows.filter(keep).len() ==> p(
                #[trigger] rows.filter(keep)[i],
                #[trigger] rows.filter(keep)[j],
            ),
    decreases rows.len(),
{
    reveal_with_fuel(Seq::filter, 2);
    if rows.len() > 0 {
        let rest = rows.drop_last();
        let last = rows.last();
        assert forall|i: int, j: int| 0 <= i < j < rest.len() implies p(
            #[trigger] rest[i],
            #[trigger] rest[j],
        ) by {
            assert(p(rows[i], rows[j]));
        }
        lemma_filter_pairwise(rest, keep, p);
        if keep(last) {
            assert(rows.filter(keep) == rest.filter(keep).push(last));
            assert forall|i: int, j: int| 0 <= i < j < rows.filter(keep).len() implies p(
                #[trigger] rows.filter(keep)[i],
                #[trigger] rows.filter(keep)[j],
            ) by {
                if j == rows.filter(keep).len() - 1 {
                    let elem = rest.filter(keep)[i];
                    rest.lemma_filter_contains_rev(keep, elem);
                    let q = choose|q: int| 0 <= q < rest.len() && rest[q] == elem;
                    assert(rows[q] == rest[q]);
                    assert(p(rows[q], rows[rows.len() - 1]));
                }
            }
        } else {
            assert(rows.filter(keep) == rest.filter(keep));
        }
    }
}

} // verus!
