//! The report aggregator.
//!
//! Instead of writing files, the report mode sums the filtered rows per
//! distinct store key: the quantity of each row is counted as tagged or
//! untagged according to the `$` marker, never both, and each store gets
//! a shipping-box estimate of its total divided by sixty, rounded up.
//! Grand totals close the report.  A quantity field that does not parse
//! aborts the run with `InvalidQuantity`.

use vstd::prelude::*;

use crate::error::PipelineError;
use crate::filter::{filter_rows, filter_store, lemma_filter_rows_len};
use crate::qty::{
    box_estimate, is_qty_str, lemma_qty_val_in_range, lemma_zero_qty, parse_qty, qty_val,
};
use crate::row::{has_marker, has_rfid, Row, RowModel};
use crate::store_list::{parse_store_list, store_ids};
use crate::writer::{distinct_keys, distinct_keys_of, lemma_normalize_fields, normalize_model, normalized_rows_for_key};

verus! {

/// Whether every row's quantity field is a well-formed quantity.
pub open spec fn all_quantities_ok(rows: Seq<RowModel>) -> bool {
    forall|i: int| 0 <= i < rows.len() ==> is_qty_str((#[trigger] rows[i]).qty)
}

/// The summed quantity of the rows with key `key` that are untagged and
/// so still need a tag printed.
pub open spec fn untagged_total(rows: Seq<RowModel>, key: Seq<char>) -> int
    decreases rows.len(),
{
    if rows.len() == 0 {
        0
    } else {
        untagged_total(rows.drop_last(), key) + if rows.last().po == key && !has_marker(
            rows.last(),
        ) {
            qty_val(rows.last().qty)
        } else {
            0
        }
    }
}

/// The summed quantity of the rows with key `key` that carry the tag
/// marker.
pub open spec fn tagged_total(rows: Seq<RowModel>, key: Seq<char>) -> int
    decreases rows.len(),
{
    if rows.len() == 0 {
        0
    } else {
        tagged_total(rows.drop_last(), key) + if rows.last().po == key && has_marker(rows.last()) {
            qty_val(rows.last().qty)
        } else {
            0
        }
    }
}

/// The summed quantity of all untagged rows.
pub open spec fn grand_untagged(rows: Seq<RowModel>) -> int
    decreases rows.len(),
{
    if rows.len() == 0 {
        0
    } else {
        grand_untagged(rows.drop_last()) + if !has_marker(rows.last()) {
            qty_val(rows.last().qty)
        } else {
            0
        }
    }
}

/// The summed quantity of all tagged rows.
pub open spec fn grand_tagged(rows: Seq<RowModel>) -> int
    decreases rows.len(),
{
    if rows.len() == 0 {
        0
    } else {
        grand_tagged(rows.drop_last()) + if has_marker(rows.last()) {
            qty_val(rows.last().qty)
        } else {
            0
        }
    }
}

/// The untagged totals of a list of keys, summed.
pub open spec fn keys_total_untagged(rows: Seq<RowModel>, keys: Seq<Seq<char>>) -> int
    decreases keys.len(),
{
    if keys.len() == 0 {
        0
    } else {
        keys_total_untagged(rows, keys.drop_last()) + untagged_total(rows, keys.last())
    }
}

/// The tagged totals of a list of keys, summed.
pub open spec fn keys_total_tagged(rows: Seq<RowModel>, keys: Seq<Seq<char>>) -> int
    decreases keys.len(),
{
    if keys.len() == 0 {
        0
    } else {
        keys_total_tagged(rows, keys.drop_last()) + tagged_total(rows, keys.last())
    }
}

/// The summed quantity of the untagged rows whose key is listed in
/// `keys`.
spec fn untagged_in(rows: Seq<RowModel>, keys: Seq<Seq<char>>) -> int
    decreases rows.len(),
{
    if rows.len() == 0 {
        0
    } else {
        untagged_in(rows.drop_last(), keys) + if keys.contains(rows.last().po) && !has_marker(
            rows.last(),
        ) {
            qty_val(rows.last().qty)
        } else {
            0
        }
    }
}

/// The summed quantity of the tagged rows whose key is listed in `keys`.
spec fn tagged_in(rows: Seq<RowModel>, keys: Seq<Seq<char>>) -> int
    decreases rows.len(),
{
    if rows.len() == 0 {
        0
    } else {
        tagged_in(rows.drop_last(), keys) + if keys.contains(rows.last().po) && has_marker(
            rows.last(),
        ) {
            qty_val(rows.last().qty)
        } else {
            0
        }
    }
}

/// Whether no key occurs twice in the list.
pub open spec fn distinct_list(keys: Seq<Seq<char>>) -> bool {
    forall|i: int, j: int| 0 <= i < j < keys.len() ==> keys[i] != keys[j]
}

/// The distinct-key list of any row sequence has no duplicate, and holds
/// exactly the keys that some row carries.
pub proof fn lemma_distinct_keys_sound(rows: Seq<RowModel>)
    ensures
        distinct_list(distinct_keys(rows)),
        forall|p: Seq<char>|
            #[trigger] distinct_keys(rows).contains(p) <==> (exists|i: int|
                0 <= i < rows.len() && (#[trigger] rows[i]).po == p),
    decreases rows.len(),
{
    if rows.len() == 0 {
        assert forall|p: Seq<char>| !(#[trigger] distinct_keys(rows).contains(p)) by {
            assert(distinct_keys(rows).len() == 0);
        }
    } else {
        lemma_distinct_keys_sound(rows.drop_last());
        let d = distinct_keys(rows.drop_last());
        let dk = distinct_keys(rows);
        let x = rows.last();
        assert forall|p: Seq<char>| #[trigger] dk.contains(p) implies (exists|i: int|
            0 <= i < rows.len() && (#[trigger] rows[i]).po == p) by {
            let k = choose|k: int| 0 <= k < dk.len() && dk[k] == p;
            if k < d.len() {
                assert(d.contains(p));
                let i0 = choose|i: int| 0 <= i < rows.drop_last().len() && rows.drop_last()[i].po == p;
                assert(rows[i0] == rows.drop_last()[i0]);
                assert(0 <= i0 < rows.len() && rows[i0].po == p);
            } else {
                assert(dk[k] == x.po);
                assert(rows[rows.len() - 1].po == p);
            }
        }
        assert forall|p: Seq<char>| (exists|i: int|
            0 <= i < rows.len() && (#[trigger] rows[i]).po == p) implies #[trigger] dk.contains(
            p,
        ) by {
            let i0 = choose|i: int| 0 <= i < rows.len() && rows[i].po == p;
            if i0 < rows.len() - 1 {
                assert(rows.drop_last()[i0] == rows[i0]);
                assert(rows.drop_last()[i0].po == p);
                assert(d.contains(p));
                let k = choose|k: int| 0 <= k < d.len() && d[k] == p;
                if d.contains(x.po) {
                    assert(dk[k] == p);
                } else {
                    assert(dk[k] == p);
                }
            } else {
                assert(p == x.po);
                if d.contains(x.po) {
                    let k = choose|k: int| 0 <= k < d.len() && d[k] == x.po;
                    assert(dk[k] == p);
                } else {
                    assert(dk[dk.len() - 1] == x.po);
                }
            }
        }
        if !d.contains(x.po) {
            assert forall|i: int, j: int| 0 <= i < j < dk.len() implies dk[i] != dk[j] by {
                if j < d.len() {
                    assert(dk[i] == d[i] && dk[j] == d[j]);
                } else {
                    assert(dk[j] == x.po);
                    assert(dk[i] == d[i]);
                    assert(!d.contains(x.po));
                    assert(d[i] != x.po);
                }
            }
        }
    }
}

/// Appending one row adds its quantity to the summed per-key totals at
/// most once, because no key is listed twice.
proof fn lemma_keys_total_push_row(rows: Seq<RowModel>, x: RowModel, keys: Seq<Seq<char>>)
    requires
        distinct_list(keys),
    ensures
        keys_total_untagged(rows.push(x), keys) == keys_total_untagged(rows, keys) + if keys.contains(x.po) && !has_marker(x) {
            qty_val(x.qty)
        } else {
            0
        },
        keys_total_tagged(rows.push(x), keys) == keys_total_tagged(rows, keys) + if keys.contains(x.po) && has_marker(x) {
            qty_val(x.qty)
        } else {
            0
        },
    decreases keys.len(),
{
    if keys.len() == 0 {
        assert(!keys.contains(x.po));
    } else {
        let d = keys.drop_last();
        assert(distinct_list(d)) by {
            assert(forall|i: int| 0 <= i < d.len() ==> d[i] == keys[i]);
        }
        lemma_keys_total_push_row(rows, x, d);
        assert((rows.push(x)).drop_last() =~= rows);
        assert((rows.push(x)).last() == x);
        assert(untagged_total(rows.push(x), keys.last()) == untagged_total(rows, keys.last())
            + if x.po == keys.last() && !has_marker(x) {
            qty_val(x.qty)
        } else {
            0
        });
        assert(tagged_total(rows.push(x), keys.last()) == tagged_total(rows, keys.last())
            + if x.po == keys.last() && has_marker(x) {
            qty_val(x.qty)
        } else {
            0
        });
        if keys.contains(x.po) {
            let k = choose|k: int| 0 <= k < keys.len() && keys[k] == x.po;
            if k == keys.len() - 1 {
                assert(keys.last() == x.po);
                assert(!d.contains(x.po)) by {
                    if d.contains(x.po) {
                        let m = choose|m: int| 0 <= m < d.len() && d[m] == x.po;
                        assert(keys[m] == x.po && keys[keys.len() - 1] == x.po);
                        assert(keys[m] == keys[keys.len() - 1]);
                    }
                }
            } else {
                assert(d[k] == keys[k]);
                assert(d.contains(x.po));
                assert(keys.last() != x.po) by {
                    if keys.last() == x.po {
                        assert(keys[k] == keys[keys.len() - 1]);
                    }
                }
            }
        } else {
            assert(!d.contains(x.po)) by {
                if d.contains(x.po) {
                    let m = choose|m: int| 0 <= m < d.len() && d[m] == x.po;
                    assert(keys[m] == x.po);
                    assert(keys.contains(x.po));
                }
            }
            assert(keys.last() != x.po) by {
                if keys.last() == x.po {
                    assert(keys[keys.len() - 1] == x.po);
                    assert(keys.contains(x.po));
                }
            }
        }
    }
}

proof fn lemma_keys_total_empty_rows(keys: Seq<Seq<char>>)
    ensures
        keys_total_untagged(Seq::empty(), keys) == 0,
        keys_total_tagged(Seq::empty(), keys) == 0,
    decreases keys.len(),
{
    if keys.len() == 0 {
    } else {
        lemma_keys_total_empty_rows(keys.drop_last());
    }
}

/// Summing per key over a duplicate-free key list counts exactly the
/// rows whose key is listed.
proof fn lemma_partition_eq(rows: Seq<RowModel>, keys: Seq<Seq<char>>)
    requires
        distinct_list(keys),
    ensures
        keys_total_untagged(rows, keys) == untagged_in(rows, keys),
        keys_total_tagged(rows, keys) == tagged_in(rows, keys),
    decreases rows.len(),
{
    if rows.len() == 0 {
        lemma_keys_total_empty_rows(keys);
        assert(rows =~= Seq::<RowModel>::empty());
    } else {
        lemma_partition_eq(rows.drop_last(), keys);
        lemma_keys_total_push_row(rows.drop_last(), rows.last(), keys);
        assert(rows.drop_last().push(rows.last()) =~= rows);
    }
}

/// When every row's key is listed, the restricted sums are the grand
/// sums.
proof fn lemma_in_eq_grand(rows: Seq<RowModel>, keys: Seq<Seq<char>>)
    requires
        forall|i: int| 0 <= i < rows.len() ==> keys.contains((#[trigger] rows[i]).po),
    ensures
        untagged_in(rows, keys) == grand_untagged(rows),
        tagged_in(rows, keys) == grand_tagged(rows),
    decreases rows.len(),
{
    if rows.len() == 0 {
    } else {
        assert(forall|i: int|
            0 <= i < rows.drop_last().len() ==> (#[trigger] rows.drop_last()[i]) == rows[i]);
        lemma_in_eq_grand(rows.drop_last(), keys);
        assert(keys.contains(rows[rows.len() - 1].po));
    }
}

/// The per-store totals partition the grand totals: summed over the
/// distinct keys, the per-key tagged and untagged totals equal the
/// grand tagged and untagged totals.
pub proof fn lemma_totals_partition(rows: Seq<RowModel>)
    ensures
        keys_total_untagged(rows, distinct_keys(rows)) == grand_untagged(rows),
        keys_total_tagged(rows, distinct_keys(rows)) == grand_tagged(rows),
{
    lemma_distinct_keys_sound(rows);
    lemma_partition_eq(rows, distinct_keys(rows));
    assert(forall|i: int|
        0 <= i < rows.len() ==> distinct_keys(rows).contains((#[trigger] rows[i]).po));
    lemma_in_eq_grand(rows, distinct_keys(rows));
}

/// Restricting to any key list never counts more than the grand totals.
proof fn lemma_in_le_grand(rows: Seq<RowModel>, keys: Seq<Seq<char>>)
    requires
        all_quantities_ok(rows),
    ensures
        0 <= untagged_in(rows, keys),
        0 <= tagged_in(rows, keys),
        untagged_in(rows, keys) + tagged_in(rows, keys) <= grand_untagged(rows) + grand_tagged(
            rows,
        ),
    decreases rows.len(),
{
    if rows.len() == 0 {
    } else {
        assert(forall|i: int|
            0 <= i < rows.drop_last().len() ==> (#[trigger] rows.drop_last()[i]) == rows[i]);
        lemma_in_le_grand(rows.drop_last(), keys);
        assert(is_qty_str(rows[rows.len() - 1].qty));
        lemma_qty_val_in_range(rows.last().qty);
    }
}

/// The grand totals are non-negative and no larger than one maximal
/// quantity per row.
proof fn lemma_grand_bounds(rows: Seq<RowModel>)
    requires
        all_quantities_ok(rows),
    ensures
        0 <= grand_untagged(rows),
        0 <= grand_tagged(rows),
        grand_untagged(rows) + grand_tagged(rows) <= rows.len() * (u32::MAX as int),
    decreases rows.len(),
{
    if rows.len() == 0 {
    } else {
        assert(forall|i: int|
            0 <= i < rows.drop_last().len() ==> (#[trigger] rows.drop_last()[i]) == rows[i]);
        lemma_grand_bounds(rows.drop_last());
        assert(is_qty_str(rows[rows.len() - 1].qty));
        lemma_qty_val_in_range(rows.last().qty);
        assert((rows.len() - 1) * (u32::MAX as int) + (u32::MAX as int) == rows.len() * (
        u32::MAX as int)) by (nonlinear_arith);
    }
}

/// The per-row classification built in the aggregator's first pass: the
/// row's key and its quantity on the tagged or the untagged side, never
/// both.
struct Store {
    store_number: String,
    qty_high: u64,
    qty_low: u64,
}

/// One store's line of the report.  `qty_high` is the untagged total
/// (tags still to print), `qty_low` the tagged total (tags the factory
/// may have applied).
#[derive(Debug, PartialEq, Eq)]
pub struct StoreLine {
    pub store: String,
    pub qty_high: u64,
    pub qty_low: u64,
    pub total: u64,
    pub boxes: u64,
}

/// The whole report: one line per distinct store key in first-occurrence
/// order, then the grand totals.
#[derive(Debug, PartialEq, Eq)]
pub struct Report {
    pub lines: Vec<StoreLine>,
    pub t_stores: u64,
    pub t_labels: u64,
    pub t_high: u64,
    pub t_low: u64,
    pub t_boxes: u64,
}

/// What one report line must say for the key `key`.
pub open spec fn line_matches(rows: Seq<RowModel>, key: Seq<char>, line: StoreLine) -> bool {
    &&& line.store@ == key
    &&& line.qty_high == untagged_total(rows, key)
    &&& line.qty_low == tagged_total(rows, key)
    &&& line.total == untagged_total(rows, key) + tagged_total(rows, key)
    &&& line.boxes == box_estimate(untagged_total(rows, key) + tagged_total(rows, key))
}

/// What the whole report must say for the row sequence `rows`.
pub open spec fn report_matches(rows: Seq<RowModel>, rep: Report) -> bool {
    &&& rep.lines@.len() == distinct_keys(rows).len()
    &&& forall|i: int|
        0 <= i < distinct_keys(rows).len() ==> line_matches(
            rows,
            distinct_keys(rows)[i],
            #[trigger] rep.lines@[i],
        )
    &&& rep.t_stores == distinct_keys(rows).len()
    &&& rep.t_high == grand_untagged(rows)
    &&& rep.t_low == grand_tagged(rows)
    &&& rep.t_labels == grand_untagged(rows) + grand_tagged(rows)
    &&& rep.t_boxes == box_estimate(grand_untagged(rows) + grand_tagged(rows))
}

/// Aggregates rows into the report.  Succeeds exactly when every row's
/// quantity parses; the report then holds, per distinct key in
/// first-occurrence order and in the grand totals, the tagged and
/// untagged sums and the box estimates.
pub fn aggregate(records: &Vec<Row>) -> (r: Result<Report, PipelineError>)
    requires
        records.deep_view().len() <= u32::MAX as int,
    ensures
        r is Ok <==> all_quantities_ok(records.deep_view()),
        r matches Ok(rep) ==> report_matches(records.deep_view(), rep),
        r is Err ==> r == Err::<Report, PipelineError>(PipelineError::InvalidQuantity),
{
    let ghost rows: Seq<RowModel> = records.deep_view();
    let mut stores: Vec<Store> = Vec::new();
    let mut i: usize = 0;
    while i < records.len()
        invariant
            i <= records@.len(),
            rows == records.deep_view(),
            stores@.len() == i,
            forall|j: int| 0 <= j < i ==> is_qty_str((#[trigger] rows[j]).qty),
            forall|j: int| 0 <= j < i ==> (#[trigger] stores@[j]).store_number@ == rows[j].po,
            forall|j: int|
                0 <= j < i ==> (#[trigger] stores@[j]).qty_high == (if !has_marker(rows[j]) {
                    qty_val(rows[j].qty)
                } else {
                    0
                }),
            forall|j: int|
                0 <= j < i ==> (#[trigger] stores@[j]).qty_low == (if has_marker(rows[j]) {
                    qty_val(rows[j].qty)
                } else {
                    0
                }),
            forall|j: int|
                0 <= j < i ==> (#[trigger] stores@[j]).qty_high + stores@[j].qty_low <= u32::MAX,
        decreases records@.len() - i,
    {
        let item: &Row = &records[i];
        proof {
            assert(item.deep_view() == rows[i as int]);
        }
        let qty: u32 = match parse_qty(item.qty.as_str()) {
            Ok(v) => v,
            Err(_) => {
                proof {
                    assert(!is_qty_str(rows[i as int].qty));
                }
                return Err(PipelineError::InvalidQuantity);
            },
        };
        let tagged: bool = has_rfid(item);
        if tagged {
            stores.push(Store { store_number: item.po.clone(), qty_high: 0, qty_low: qty as u64 });
        } else {
            stores.push(Store { store_number: item.po.clone(), qty_high: qty as u64, qty_low: 0 });
        }
        i = i + 1;
    }
    proof {
        assert(all_quantities_ok(rows));
        lemma_distinct_keys_sound(rows);
        lemma_grand_bounds(rows);
    }
    let keys: Vec<String> = distinct_keys_of(records);
    let ghost dk: Seq<Seq<char>> = distinct_keys(rows);
    let mut lines: Vec<StoreLine> = Vec::new();
    let mut t_high: u64 = 0;
    let mut t_low: u64 = 0;
    let mut m: usize = 0;
    while m < keys.len()
        invariant
            m <= keys@.len(),
            rows == records.deep_view(),
            rows.len() <= u32::MAX as int,
            all_quantities_ok(rows),
            distinct_list(dk),
            keys.deep_view() == dk,
            dk == distinct_keys(rows),
            stores@.len() == rows.len(),
            forall|j: int|
                0 <= j < rows.len() ==> (#[trigger] stores@[j]).store_number@ == rows[j].po,
            forall|j: int|
                0 <= j < rows.len() ==> (#[trigger] stores@[j]).qty_high == (if !has_marker(
                    rows[j],
                ) {
                    qty_val(rows[j].qty)
                } else {
                    0
                }),
            forall|j: int|
                0 <= j < rows.len() ==> (#[trigger] stores@[j]).qty_low == (if has_marker(
                    rows[j],
                ) {
                    qty_val(rows[j].qty)
                } else {
                    0
                }),
            forall|j: int|
                0 <= j < rows.len() ==> (#[trigger] stores@[j]).qty_high + stores@[j].qty_low
                    <= u32::MAX,
            lines@.len() == m,
            forall|i2: int| 0 <= i2 < m ==> line_matches(rows, dk[i2], #[trigger] lines@[i2]),
            t_high == keys_total_untagged(rows, dk.take(m as int)),
            t_low == keys_total_tagged(rows, dk.take(m as int)),
        decreases keys@.len() - m,
    {
        let key: &String = &keys[m];
        proof {
            assert(key@ == dk[m as int]);
        }
        let mut high: u64 = 0;
        let mut low: u64 = 0;
        let mut j: usize = 0;
        while j < stores.len()
            invariant
                j <= stores@.len(),
                rows == records.deep_view(),
                rows.len() <= u32::MAX as int,
                stores@.len() == rows.len(),
                key@ == dk[m as int],
                forall|j2: int|
                    0 <= j2 < rows.len() ==> (#[trigger] stores@[j2]).store_number@ == rows[j2].po,
                forall|j2: int|
                    0 <= j2 < rows.len() ==> (#[trigger] stores@[j2]).qty_high == (if !has_marker(
                        rows[j2],
                    ) {
                        qty_val(rows[j2].qty)
                    } else {
                        0
                    }),
                forall|j2: int|
                    0 <= j2 < rows.len() ==> (#[trigger] stores@[j2]).qty_low == (if has_marker(
                        rows[j2],
                    ) {
                        qty_val(rows[j2].qty)
                    } else {
                        0
                    }),
                forall|j2: int|
                    0 <= j2 < rows.len() ==> (#[trigger] stores@[j2]).qty_high + stores@[j2].qty_low
                        <= u32::MAX,
                high == untagged_total(rows.take(j as int), key@),
                low == tagged_total(rows.take(j as int), key@),
                high + low <= j * (u32::MAX as int),
            decreases stores@.len() - j,
        {
            proof {
                assert(rows.take(j as int + 1).drop_last() =~= rows.take(j as int));
                assert(rows.take(j as int + 1).last() == rows[j as int]);
                assert(j * (u32::MAX as int) + (u32::MAX as int) == (j + 1) * (u32::MAX as int))
                    by (nonlinear_arith);
                assert((j as int + 1) * (u32::MAX as int) <= rows.len() * (u32::MAX as int))
                    by (nonlinear_arith)
                    requires
                        j as int + 1 <= rows.len(),
                ;
                assert(rows.len() * (u32::MAX as int) <= (u32::MAX as int) * (u32::MAX as int))
                    by (nonlinear_arith)
                    requires
                        0 <= rows.len() <= u32::MAX as int,
                ;
            }
            let s: &Store = &stores[j];
            if s.store_number == *key {
                high = high + s.qty_high;
                low = low + s.qty_low;
            }
            j = j + 1;
        }
        proof {
            assert(rows.take(rows.len() as int) =~= rows);
            assert(distinct_list(dk.take(m as int + 1))) by {
                assert(forall|a: int|
                    0 <= a < m + 1 ==> #[trigger] dk.take(m as int + 1)[a] == dk[a]);
            }
            lemma_partition_eq(rows, dk.take(m as int + 1));
            lemma_in_le_grand(rows, dk.take(m as int + 1));
            lemma_grand_bounds(rows);
            assert(dk.take(m as int + 1).drop_last() =~= dk.take(m as int));
            assert(dk.take(m as int + 1).last() == dk[m as int]);
            assert(rows.len() * (u32::MAX as int) <= (u32::MAX as int) * (u32::MAX as int))
                by (nonlinear_arith)
                requires
                    0 <= rows.len() <= u32::MAX as int,
            ;
        }
        let total: u64 = high + low;
        let boxes: u64 = (total + 59) / 60;
        t_high = t_high + high;
        t_low = t_low + low;
        lines.push(StoreLine { store: key.clone(), qty_high: high, qty_low: low, total, boxes });
        m = m + 1;
    }
    proof {
        assert(dk.take(dk.len() as int) =~= dk);
        lemma_totals_partition(rows);
        lemma_grand_bounds(rows);
    }
    let t_stores: u64 = keys.len() as u64;
    let t_labels: u64 = t_high + t_low;
    let t_boxes: u64 = (t_labels + 59) / 60;
    Ok(Report { lines, t_stores, t_labels, t_high, t_low, t_boxes })
}

/// The whole report pipeline on in-memory values: parses the store list,
/// filters the rows, and aggregates what remains.  The one precondition
/// is a machine limit: one maximal quantity per filtered row must fit in
/// the sixty-four-bit totals, which holds whenever the identifier count
/// times the row count stays within 32 bits.
pub fn produce_report(list_text: &str, records: Vec<Row>) -> (r: Result<Report, PipelineError>)
    requires
        store_ids(list_text@).len() * records.deep_view().len() <= u32::MAX as int,
    ensures
        r is Ok <==> all_quantities_ok(filter_rows(records.deep_view(), store_ids(list_text@))),
        r matches Ok(rep) ==> report_matches(
            filter_rows(records.deep_view(), store_ids(list_text@)),
            rep,
        ),
        r is Err ==> r == Err::<Report, PipelineError>(PipelineError::InvalidQuantity),
{
    let ghost rows: Seq<RowModel> = records.deep_view();
    let list: Vec<String> = parse_store_list(list_text);
    proof {
        lemma_filter_rows_len(rows, store_ids(list_text@));
    }
    let filtered: Vec<Row> = filter_store(records, list);
    aggregate(&filtered)
}

/// An empty filtered result aggregates to a report with zero stores and
/// zero totals, and is no error: there is no quantity left to reject.
pub proof fn lemma_empty_rows_zero_report(rows: Seq<RowModel>)
    requires
        rows.len() == 0,
    ensures
        all_quantities_ok(rows),
        distinct_keys(rows).len() == 0,
        grand_untagged(rows) == 0,
        grand_tagged(rows) == 0,
        box_estimate(0) == 0,
{
}

proof fn lemma_totals_concat(a: Seq<RowModel>, b: Seq<RowModel>, key: Seq<char>)
    ensures
        untagged_total(a + b, key) == untagged_total(a, key) + untagged_total(b, key),
        tagged_total(a + b, key) == tagged_total(a, key) + tagged_total(b, key),
    decreases b.len(),
{
    if b.len() == 0 {
        assert(a + b =~= a);
    } else {
        assert((a + b).drop_last() =~= a + b.drop_last());
        assert((a + b).last() == b.last());
        lemma_totals_concat(a, b.drop_last(), key);
    }
}

/// Re-aggregating a store's written file reproduces the aggregator's
/// split for that store: with the override on, the tagged and untagged
/// totals both come back unchanged; with the override off, the untagged
/// total comes back unchanged and the tagged total re-aggregates to
/// zero, because every tagged quantity was forced to `0`.
pub proof fn lemma_split_file_totals(rows: Seq<RowModel>, key: Seq<char>)
    ensures
        untagged_total(normalized_rows_for_key(rows, key, true), key) == untagged_total(rows, key),
        tagged_total(normalized_rows_for_key(rows, key, true), key) == tagged_total(rows, key),
        untagged_total(normalized_rows_for_key(rows, key, false), key) == untagged_total(rows, key),
        tagged_total(normalized_rows_for_key(rows, key, false), key) == 0,
    decreases rows.len(),
{
    if rows.len() == 0 {
    } else {
        lemma_split_file_totals(rows.drop_last(), key);
        let x = rows.last();
        lemma_normalize_fields(x, true);
        lemma_normalize_fields(x, false);
        lemma_zero_qty();
        let pre_t = normalized_rows_for_key(rows.drop_last(), key, true);
        let pre_f = normalized_rows_for_key(rows.drop_last(), key, false);
        if x.po == key {
            let y_t = normalize_model(x, true);
            let y_f = normalize_model(x, false);
            lemma_totals_concat(pre_t, seq![y_t], key);
            lemma_totals_concat(pre_f, seq![y_f], key);
            assert(seq![y_t].drop_last() =~= Seq::<RowModel>::empty());
            assert(seq![y_f].drop_last() =~= Seq::<RowModel>::empty());
            assert(seq![y_t].last() == y_t);
            assert(seq![y_f].last() == y_f);
            assert(untagged_total(Seq::<RowModel>::empty(), key) == 0);
            assert(tagged_total(Seq::<RowModel>::empty(), key) == 0);
            assert(untagged_total(seq![y_t], key) == if !has_marker(x) {
                qty_val(x.qty)
            } else {
                0
            });
            assert(tagged_total(seq![y_t], key) == if has_marker(x) {
                qty_val(x.qty)
            } else {
                0
            });
            assert(untagged_total(seq![y_f], key) == if !has_marker(x) {
                qty_val(x.qty)
            } else {
                0
            });
            assert(tagged_total(seq![y_f], key) == if has_marker(x) {
                qty_val(seq!['0'])
            } else {
                0
            });
        } else {
            lemma_totals_concat(pre_t, Seq::empty(), key);
            lemma_totals_concat(pre_f, Seq::empty(), key);
        }
    }
}

} // verus!
