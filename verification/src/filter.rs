//! The store filter.
//!
//! The caller supplies a list of store identifiers; the filter keeps, for
//! each identifier in turn, every row whose store/PO key contains `-`
//! followed by that identifier.  The separator prefix keeps a short
//! identifier from matching inside an unrelated number (`014` must not
//! match `1140`, but still matches `X-014`).  The scan is identifier-major
//! and duplicates in the list are kept, so a row is emitted once per
//! matching identifier occurrence.

use vstd::prelude::*;
use vstd::string::StrSliceExecFns;

use crate::row::{Row, RowModel};

verus! {

/// A key matches an identifier when `-` immediately followed by the
/// identifier occurs in the key.
pub open spec fn key_matches(key: Seq<char>, id: Seq<char>) -> bool {
    exists|i: int|
        0 <= i && i + 1 + id.len() <= key.len() && key[i] == '-' && key.subrange(
            i + 1,
            i + 1 + id.len(),
        ) == id
}

/// The rows of `rows`, in order, whose key matches `id`.
pub open spec fn matches_for_id(rows: Seq<RowModel>, id: Seq<char>) -> Seq<RowModel>
    decreases rows.len(),
{
    if rows.len() == 0 {
        Seq::empty()
    } else {
        matches_for_id(rows.drop_last(), id) + if key_matches(rows.last().po, id) {
            seq![rows.last()]
        } else {
            Seq::empty()
        }
    }
}

/// The filter's result: for each identifier in turn, the full row sequence
/// is scanned and every matching row is appended.
pub open spec fn filter_rows(rows: Seq<RowModel>, ids: Seq<Seq<char>>) -> Seq<RowModel>
    decreases ids.len(),
{
    if ids.len() == 0 {
        Seq::empty()
    } else {
        filter_rows(rows, ids.drop_last()) + matches_for_id(rows, ids.last())
    }
}

/// Whether `id@` occurs in `key@` starting at position `at`.
fn matches_at(key: &str, id: &str, at: usize) -> (r: bool)
    requires
        at + id@.len() <= key@.len(),
    ensures
        r == (key@.subrange(at as int, at as int + id@.len()) == id@),
{
    let key_len: usize = key.unicode_len();
    let id_len: usize = id.unicode_len();
    let mut j: usize = 0;
    while j < id_len
        invariant
            j <= id_len,
            id_len == id@.len(),
            key_len == key@.len(),
            at + id@.len() <= key@.len(),
            forall|m: int| 0 <= m < j ==> key@[at + m] == id@[m],
        decreases id_len - j,
    {
        if key.get_char(at + j) != id.get_char(j) {
            proof {
                assert(key@.subrange(at as int, at as int + id@.len())[j as int] != id@[j as int]);
            }
            return false;
        }
        j = j + 1;
    }
    proof {
        assert(key@.subrange(at as int, at as int + id@.len()) =~= id@);
    }
    true
}

/// Whether the row key `key` matches the store identifier `id`.
pub fn store_key_matches(key: &str, id: &str) -> (r: bool)
    ensures
        r == key_matches(key@, id@),
{
    let key_len: usize = key.unicode_len();
    let id_len: usize = id.unicode_len();
    let mut i: usize = 0;
    while i < key_len
        invariant
            i <= key_len,
            key_len == key@.len(),
            id_len == id@.len(),
            forall|m: int|
                0 <= m < i ==> !(m + 1 + id@.len() <= key@.len() && key@[m] == '-' && key@.subrange(
                    m + 1,
                    m + 1 + id@.len(),
                ) == id@),
        decreases key_len - i,
    {
        if key.get_char(i) == '-' && id_len <= key_len - (i + 1) {
            if matches_at(key, id, i + 1) {
                proof {
                    assert(0 <= i as int && i as int + 1 + id@.len() <= key@.len() && key@[i as int]
                        == '-' && key@.subrange(i as int + 1, i as int + 1 + id@.len()) == id@);
                }
                return true;
            }
        }
        i = i + 1;
    }
    false
}

/// For each identifier in `list` in turn, scans all of `records` and keeps
/// every row whose key matches; a row that matches several listed
/// identifier occurrences is kept once per occurrence.
pub fn filter_store(records: Vec<Row>, list: Vec<String>) -> (r: Vec<Row>)
    ensures
        r.deep_view() == filter_rows(records.deep_view(), list.deep_view()),
{
    let mut out: Vec<Row> = Vec::new();
    let mut n: usize = 0;
    while n < list.len()
        invariant
            n <= list@.len(),
            out.deep_view() == filter_rows(records.deep_view(), list.deep_view().take(n as int)),
        decreases list@.len() - n,
    {
        let id: &String = &list[n];
        let ghost ids_n: Seq<Seq<char>> = list.deep_view().take(n as int + 1);
        proof {
            assert(ids_n.drop_last() =~= list.deep_view().take(n as int));
            assert(ids_n.last() == id@);
        }
        let mut k: usize = 0;
        while k < records.len()
            invariant
                k <= records@.len(),
                n < list@.len(),
                id@ == list.deep_view()[n as int],
                ids_n == list.deep_view().take(n as int + 1),
                ids_n.drop_last() == list.deep_view().take(n as int),
                ids_n.last() == id@,
                out.deep_view() == filter_rows(records.deep_view(), ids_n.drop_last())
                    + matches_for_id(records.deep_view().take(k as int), id@),
            decreases records@.len() - k,
        {
            let item: &Row = &records[k];
            let ghost dv_k: Seq<RowModel> = records.deep_view().take(k as int + 1);
            proof {
                assert(dv_k.drop_last() =~= records.deep_view().take(k as int));
                assert(dv_k.last() == item.deep_view());
            }
            if store_key_matches(item.po.as_str(), id.as_str()) {
                let ghost old_out: Seq<RowModel> = out.deep_view();
                out.push(item.clone());
                proof {
                    assert(out.deep_view() =~= old_out.push(item.deep_view()));
                    assert(old_out.push(item.deep_view()) =~= old_out + seq![item.deep_view()]);
                }
            } else {
                proof {
                    assert(matches_for_id(dv_k, id@) =~= matches_for_id(dv_k.drop_last(), id@));
                }
            }
            k = k + 1;
        }
        proof {
            assert(records.deep_view().take(records@.len() as int) =~= records.deep_view());
            assert(filter_rows(records.deep_view(), ids_n) == filter_rows(
                records.deep_view(),
                ids_n.drop_last(),
            ) + matches_for_id(records.deep_view(), id@));
        }
        n = n + 1;
    }
    proof {
        assert(list.deep_view().take(list@.len() as int) =~= list.deep_view());
    }
    out
}

proof fn lemma_matches_for_id_len(rows: Seq<RowModel>, id: Seq<char>)
    ensures
        matches_for_id(rows, id).len() <= rows.len(),
    decreases rows.len(),
{
    if rows.len() == 0 {
    } else {
        lemma_matches_for_id_len(rows.drop_last(), id);
    }
}

/// The filtered sequence holds at most one row per pair of a listed
/// identifier occurrence and an input row.
pub proof fn lemma_filter_rows_len(rows: Seq<RowModel>, ids: Seq<Seq<char>>)
    ensures
        filter_rows(rows, ids).len() <= ids.len() * rows.len(),
    decreases ids.len(),
{
    if ids.len() == 0 {
    } else {
        lemma_filter_rows_len(rows, ids.drop_last());
        lemma_matches_for_id_len(rows, ids.last());
        assert((ids.len() - 1) * rows.len() + rows.len() == ids.len() * rows.len())
            by (nonlinear_arith);
    }
}

/// How often `r` occurs in `s`.
pub open spec fn count_row(s: Seq<RowModel>, r: RowModel) -> nat
    decreases s.len(),
{
    if s.len() == 0 {
        0
    } else {
        count_row(s.drop_last(), r) + if s.last() == r {
            1nat
        } else {
            0nat
        }
    }
}

/// How many identifier occurrences in `ids` the key `key` matches.
pub open spec fn count_matching_ids(ids: Seq<Seq<char>>, key: Seq<char>) -> nat
    decreases ids.len(),
{
    if ids.len() == 0 {
        0
    } else {
        count_matching_ids(ids.drop_last(), key) + if key_matches(key, ids.last()) {
            1nat
        } else {
            0nat
        }
    }
}

proof fn lemma_count_row_concat(a: Seq<RowModel>, b: Seq<RowModel>, r: RowModel)
    ensures
        count_row(a + b, r) == count_row(a, r) + count_row(b, r),
    decreases b.len(),
{
    if b.len() == 0 {
        assert(a + b =~= a);
    } else {
        assert((a + b).drop_last() =~= a + b.drop_last());
        assert((a + b).last() == b.last());
        lemma_count_row_concat(a, b.drop_last(), r);
    }
}

proof fn lemma_count_matches_for_id(rows: Seq<RowModel>, id: Seq<char>, r: RowModel)
    ensures
        count_row(matches_for_id(rows, id), r) == if key_matches(r.po, id) {
            count_row(rows, r)
        } else {
            0nat
        },
    decreases rows.len(),
{
    if rows.len() == 0 {
    } else {
        let pre = matches_for_id(rows.drop_last(), id);
        lemma_count_matches_for_id(rows.drop_last(), id, r);
        if key_matches(rows.last().po, id) {
            assert(matches_for_id(rows, id) == pre + seq![rows.last()]);
            lemma_count_row_concat(pre, seq![rows.last()], r);
            assert(seq![rows.last()].drop_last() =~= Seq::<RowModel>::empty());
            assert(count_row(Seq::<RowModel>::empty(), r) == 0);
            assert(seq![rows.last()].last() == rows.last());
            assert(count_row(seq![rows.last()], r) == if rows.last() == r {
                1nat
            } else {
                0nat
            });
            if rows.last() == r {
                assert(rows.last().po == r.po);
            }
        } else {
            assert(matches_for_id(rows, id) == pre + Seq::<RowModel>::empty());
            lemma_count_row_concat(pre, Seq::empty(), r);
            if rows.last() == r {
                assert(key_matches(r.po, id) == key_matches(rows.last().po, id));
            }
        }
    }
}

/// The filter's duplication law: a row occurs in the filtered sequence
/// once per occurrence in the input for each matching identifier
/// occurrence in the list, and never otherwise.
pub proof fn lemma_filter_count(rows: Seq<RowModel>, ids: Seq<Seq<char>>, r: RowModel)
    ensures
        count_row(filter_rows(rows, ids), r) == count_matching_ids(ids, r.po) * count_row(rows, r),
    decreases ids.len(),
{
    if ids.len() == 0 {
        assert(count_matching_ids(ids, r.po) * count_row(rows, r) == 0) by (nonlinear_arith)
            requires
                count_matching_ids(ids, r.po) == 0,
        ;
    } else {
        lemma_filter_count(rows, ids.drop_last(), r);
        lemma_count_row_concat(filter_rows(rows, ids.drop_last()), matches_for_id(rows, ids.last()), r);
        lemma_count_matches_for_id(rows, ids.last(), r);
        let c0: nat = count_matching_ids(ids.drop_last(), r.po);
        let c1: nat = count_matching_ids(ids, r.po);
        let n: nat = count_row(rows, r);
        if key_matches(r.po, ids.last()) {
            assert(c1 * n == c0 * n + n) by (nonlinear_arith)
                requires
                    c1 == c0 + 1,
            ;
        } else {
            assert(c1 == c0);
        }
    }
}

proof fn lemma_matches_for_id_sound(rows: Seq<RowModel>, id: Seq<char>)
    ensures
        forall|k: int|
            0 <= k < matches_for_id(rows, id).len() ==> key_matches(
                #[trigger] matches_for_id(rows, id)[k].po,
                id,
            ),
    decreases rows.len(),
{
    if rows.len() == 0 {
    } else {
        lemma_matches_for_id_sound(rows.drop_last(), id);
        let pre = matches_for_id(rows.drop_last(), id);
        let all = matches_for_id(rows, id);
        assert forall|k: int| 0 <= k < all.len() implies key_matches(all[k].po, id) by {
            if k < pre.len() {
                assert(all[k] == pre[k]);
                assert(key_matches(pre[k].po, id));
            } else {
                assert(all[k] == rows.last());
            }
        }
    }
}

/// The filter keeps only matching rows: everything in the filtered
/// sequence has a key that matches some identifier in the list.
pub proof fn lemma_filter_membership(rows: Seq<RowModel>, ids: Seq<Seq<char>>)
    ensures
        forall|k: int|
            0 <= k < filter_rows(rows, ids).len() ==> exists|j: int|
                0 <= j < ids.len() && key_matches(#[trigger] filter_rows(rows, ids)[k].po, ids[j]),
    decreases ids.len(),
{
    if ids.len() == 0 {
    } else {
        lemma_filter_membership(rows, ids.drop_last());
        lemma_matches_for_id_sound(rows, ids.last());
        let pre = filter_rows(rows, ids.drop_last());
        let tail = matches_for_id(rows, ids.last());
        assert forall|k: int| 0 <= k < filter_rows(rows, ids).len() implies exists|j: int|
            0 <= j < ids.len() && key_matches(#[trigger] filter_rows(rows, ids)[k].po, ids[j]) by {
            if k < pre.len() {
                assert(filter_rows(rows, ids)[k] == pre[k]);
                let j0 = choose|j: int|
                    0 <= j < ids.drop_last().len() && key_matches(pre[k].po, ids.drop_last()[j]);
                assert(ids.drop_last()[j0] == ids[j0]);
                assert(0 <= j0 < ids.len() && key_matches(filter_rows(rows, ids)[k].po, ids[j0]));
            } else {
                assert(filter_rows(rows, ids)[k] == tail[k - pre.len()]);
                assert(key_matches(tail[k - pre.len()].po, ids.last()));
                assert(ids.last() == ids[ids.len() - 1]);
                assert(0 <= ids.len() - 1 < ids.len() && key_matches(
                    filter_rows(rows, ids)[k].po,
                    ids[ids.len() - 1],
                ));
            }
        }
    }
}

} // verus!
