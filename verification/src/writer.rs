//! The partitioned writer.
//!
//! Filtered rows are grouped by their store/PO key, in order of each
//! key's first occurrence, and one normalized output file is rendered per
//! distinct key.  A normalized row keeps the source fields except that the
//! store number is always emptied and the quantity is forced to `0` for a
//! tagged row unless the override flag is set.  Writing the rendered
//! contents to disk is left to the caller.

use vstd::prelude::*;
use vstd::string::StringExecFns;

use crate::filter::filter_rows;
use crate::filter::filter_store;
use crate::row::{has_marker, has_rfid, Row, RowModel};
use crate::store_list::{parse_store_list, store_ids};

verus! {

/// The normalized output shape of a row: the store number is emptied, and
/// the quantity is zeroed for tagged rows unless the override is set.
pub open spec fn normalize_model(r: RowModel, print_all: bool) -> RowModel {
    RowModel {
        store_num: Seq::empty(),
        qty: if has_marker(r) && !print_all {
            seq!['0']
        } else {
            r.qty
        },
        ..r
    }
}

/// Builds the normalized output row for `item`.
pub fn normalize_order(item: &Row, print_all: bool) -> (r: Row)
    ensures
        r.deep_view() == normalize_model(item.deep_view(), print_all),
{
    let qty: String = if has_rfid(item) && !print_all {
        String::from_str("0")
    } else {
        item.qty.clone()
    };
    proof {
        reveal_strlit("0");
        assert("0"@ =~= seq!['0']);
    }
    Row {
        po: item.po.clone(),
        style_code: item.style_code.clone(),
        color_code: item.color_code.clone(),
        msrp_size: item.msrp_size.clone(),
        style_desc: item.style_desc.clone(),
        color_desc: item.color_desc.clone(),
        upc: item.upc.clone(),
        store_num: String::new(),
        qty,
    }
}

/// The distinct store/PO keys of `rows`, each in order of its first
/// occurrence.
pub open spec fn distinct_keys(rows: Seq<RowModel>) -> Seq<Seq<char>>
    decreases rows.len(),
{
    if rows.len() == 0 {
        Seq::empty()
    } else {
        let d = distinct_keys(rows.drop_last());
        if d.contains(rows.last().po) {
            d
        } else {
            d.push(rows.last().po)
        }
    }
}

/// Collects the distinct store/PO keys of `records` in first-occurrence
/// order.
pub fn distinct_keys_of(records: &Vec<Row>) -> (r: Vec<String>)
    ensures
        r.deep_view() == distinct_keys(records.deep_view()),
{
    let mut keys: Vec<String> = Vec::new();
    let mut k: usize = 0;
    while k < records.len()
        invariant
            k <= records@.len(),
            keys.deep_view() == distinct_keys(records.deep_view().take(k as int)),
        decreases records@.len() - k,
    {
        let item: &Row = &records[k];
        proof {
            assert(records.deep_view().take(k as int + 1).drop_last() =~= records.deep_view().take(
                k as int,
            ));
            assert(records.deep_view().take(k as int + 1).last() == item.deep_view());
        }
        let mut found: bool = false;
        let mut j: usize = 0;
        while j < keys.len()
            invariant
                j <= keys@.len(),
                found ==> keys.deep_view().contains(item.po@),
                !found ==> forall|m: int| 0 <= m < j ==> keys.deep_view()[m] != item.po@,
            decreases keys@.len() - j,
        {
            if keys[j] == item.po {
                proof {
                    assert(keys.deep_view()[j as int] == item.po@);
                }
                found = true;
            }
            j = j + 1;
        }
        if !found {
            let ghost old_dv: Seq<Seq<char>> = keys.deep_view();
            proof {
                assert(!old_dv.contains(item.po@));
            }
            keys.push(item.po.clone());
            proof {
                assert(keys.deep_view() =~= old_dv.push(item.po@));
            }
        }
        k = k + 1;
    }
    proof {
        assert(records.deep_view().take(records@.len() as int) =~= records.deep_view());
    }
    keys
}

/// The normalized rows of `rows` whose key equals `key`, in source order.
pub open spec fn normalized_rows_for_key(
    rows: Seq<RowModel>,
    key: Seq<char>,
    print_all: bool,
) -> Seq<RowModel>
    decreases rows.len(),
{
    if rows.len() == 0 {
        Seq::empty()
    } else {
        normalized_rows_for_key(rows.drop_last(), key, print_all) + if rows.last().po == key {
            seq![normalize_model(rows.last(), print_all)]
        } else {
            Seq::empty()
        }
    }
}

/// Builds the normalized rows that belong to one store's output file.
pub fn rows_for_key(records: &Vec<Row>, key: &String, print_all: bool) -> (r: Vec<Row>)
    ensures
        r.deep_view() == normalized_rows_for_key(records.deep_view(), key@, print_all),
{
    let mut out: Vec<Row> = Vec::new();
    let mut k: usize = 0;
    while k < records.len()
        invariant
            k <= records@.len(),
            out.deep_view() == normalized_rows_for_key(
                records.deep_view().take(k as int),
                key@,
                print_all,
            ),
        decreases records@.len() - k,
    {
        let item: &Row = &records[k];
        proof {
            assert(records.deep_view().take(k as int + 1).drop_last() =~= records.deep_view().take(
                k as int,
            ));
            assert(records.deep_view().take(k as int + 1).last() == item.deep_view());
        }
        if item.po == *key {
            let ghost old_dv: Seq<RowModel> = out.deep_view();
            out.push(normalize_order(item, print_all));
            proof {
                assert(out.deep_view() =~= old_dv.push(
                    normalize_model(item.deep_view(), print_all),
                ));
                assert(old_dv.push(normalize_model(item.deep_view(), print_all)) =~= old_dv
                    + seq![normalize_model(item.deep_view(), print_all)]);
            }
        }
        k = k + 1;
    }
    proof {
        assert(records.deep_view().take(records@.len() as int) =~= records.deep_view());
    }
    out
}

/// What the tabular encoder renders for a list of records: one
/// comma-delimited line per record, in order.
pub uninterp spec fn csv_text(records: Seq<Seq<Seq<char>>>) -> Seq<char>;

/// The nine output column names, in order.
pub open spec fn header_fields() -> Seq<Seq<char>> {
    seq![
        "Po"@,
        "StyleCode"@,
        "ColorCode"@,
        "MsrpSize"@,
        "StyleDesc"@,
        "ColorDesc"@,
        "Upc"@,
        "StoreNum"@,
        "Qty"@,
    ]
}

/// The nine fields of a row, in column order.
pub open spec fn fields_of_row(r: RowModel) -> Seq<Seq<char>> {
    seq![
        r.po,
        r.style_code,
        r.color_code,
        r.msrp_size,
        r.style_desc,
        r.color_desc,
        r.upc,
        r.store_num,
        r.qty,
    ]
}

/// The record list of one output file: the header row first, then the
/// fields of each row, in order.
pub open spec fn file_records(rows: Seq<RowModel>) -> Seq<Seq<Seq<char>>> {
    seq![header_fields()] + rows.map_values(|r: RowModel| fields_of_row(r))
}

/// The text of one output file: the fixed nine-column header line
/// followed by the rows, as the tabular encoder renders them.
pub open spec fn csv_encoding(rows: Seq<RowModel>) -> Seq<char> {
    csv_text(file_records(rows))
}

/// An output file starts with the header record and continues with one
/// record per row, each holding that row's nine fields in column order.
pub proof fn lemma_file_layout(rows: Seq<RowModel>)
    ensures
        file_records(rows).len() == rows.len() + 1,
        file_records(rows)[0] == header_fields(),
        forall|i: int|
            0 <= i < rows.len() ==> file_records(rows)[i + 1] == fields_of_row(#[trigger] rows[i]),
{
}

/// The nine fields of a row, in column order.
fn row_fields(r: &Row) -> (out: Vec<String>)
    ensures
        out.deep_view() == fields_of_row(r.deep_view()),
{
    let mut out: Vec<String> = Vec::new();
    out.push(r.po.clone());
    out.push(r.style_code.clone());
    out.push(r.color_code.clone());
    out.push(r.msrp_size.clone());
    out.push(r.style_desc.clone());
    out.push(r.color_desc.clone());
    out.push(r.upc.clone());
    out.push(r.store_num.clone());
    out.push(r.qty.clone());
    proof {
        assert(out.deep_view() =~= fields_of_row(r.deep_view()));
    }
    out
}

/// The header row of every output file, under the fixed column names.
fn header_row() -> (out: Vec<String>)
    ensures
        out.deep_view() == header_fields(),
{
    let mut out: Vec<String> = Vec::new();
    out.push(String::from_str("Po"));
    out.push(String::from_str("StyleCode"));
    out.push(String::from_str("ColorCode"));
    out.push(String::from_str("MsrpSize"));
    out.push(String::from_str("StyleDesc"));
    out.push(String::from_str("ColorDesc"));
    out.push(String::from_str("Upc"));
    out.push(String::from_str("StoreNum"));
    out.push(String::from_str("Qty"));
    proof {
        assert(out.deep_view() =~= header_fields());
    }
    out
}

/// Builds one output file's record list: the header row first, then the
/// fields of each row, in order.
fn file_record_list(rows: &Vec<Row>) -> (out: Vec<Vec<String>>)
    ensures
        out.deep_view() == file_records(rows.deep_view()),
{
    let mut out: Vec<Vec<String>> = Vec::new();
    out.push(header_row());
    proof {
        assert(out.deep_view() =~= file_records(rows.deep_view().take(0)));
    }
    let mut k: usize = 0;
    while k < rows.len()
        invariant
            k <= rows@.len(),
            out.deep_view() == file_records(rows.deep_view().take(k as int)),
        decreases rows@.len() - k,
    {
        let ghost old_dv: Seq<Seq<Seq<char>>> = out.deep_view();
        out.push(row_fields(&rows[k]));
        proof {
            assert(out.deep_view() =~= old_dv.push(fields_of_row(rows.deep_view()[k as int])));
            assert(out.deep_view() =~= file_records(rows.deep_view().take(k as int + 1)));
        }
        k = k + 1;
    }
    proof {
        assert(rows.deep_view().take(rows@.len() as int) =~= rows.deep_view());
    }
    out
}

/// Relies on csv::Writer over an in-memory buffer: `write_record` renders
/// one comma-delimited line per record, so the text is a function of the
/// records alone.
#[verifier::external_body]
fn encode_records(records: &Vec<Vec<String>>) -> (r: String)
    ensures
        r@ == csv_text(records.deep_view()),
{
    let mut w = csv::Writer::from_writer(Vec::new());
    for rec in records.iter() {
        let _ = w.write_record(rec);
    }
    let buf: Vec<u8> = w.into_inner().unwrap_or_default();
    String::from_utf8(buf).unwrap_or_default()
}

/// One rendered output file: the store key it is named after and the text
/// to write.
#[derive(Debug, PartialEq, Eq)]
pub struct StoreFile {
    pub store: String,
    pub content: String,
}

/// Renders one output file per distinct store key of `records`, in
/// first-occurrence order.  Each file holds the normalized rows whose key
/// matches; no file is rendered for a key that no row has, so an empty
/// input yields no files at all.
pub fn split_outputs(records: Vec<Row>, print_all: bool) -> (r: Vec<StoreFile>)
    ensures
        r@.len() == distinct_keys(records.deep_view()).len(),
        forall|i: int|
            0 <= i < r@.len() ==> (#[trigger] r@[i]).store@ == distinct_keys(
                records.deep_view(),
            )[i],
        forall|i: int|
            0 <= i < r@.len() ==> (#[trigger] r@[i]).content@ == csv_encoding(
                normalized_rows_for_key(
                    records.deep_view(),
                    distinct_keys(records.deep_view())[i],
                    print_all,
                ),
            ),
{
    let keys: Vec<String> = distinct_keys_of(&records);
    let mut out: Vec<StoreFile> = Vec::new();
    let mut j: usize = 0;
    while j < keys.len()
        invariant
            j <= keys@.len(),
            keys.deep_view() == distinct_keys(records.deep_view()),
            out@.len() == j,
            forall|i: int|
                0 <= i < j ==> (#[trigger] out@[i]).store@ == distinct_keys(
                    records.deep_view(),
                )[i],
            forall|i: int|
                0 <= i < j ==> (#[trigger] out@[i]).content@ == csv_encoding(
                    normalized_rows_for_key(
                        records.deep_view(),
                        distinct_keys(records.deep_view())[i],
                        print_all,
                    ),
                ),
        decreases keys@.len() - j,
    {
        let key: &String = &keys[j];
        proof {
            assert(key@ == keys.deep_view()[j as int]);
        }
        let rows: Vec<Row> = rows_for_key(&records, key, print_all);
        let file: Vec<Vec<String>> = file_record_list(&rows);
        let content: String = encode_records(&file);
        out.push(StoreFile { store: key.clone(), content });
        j = j + 1;
    }
    out
}

/// The whole split pipeline on in-memory values: parses the store list,
/// filters the rows, and renders one normalized output file per distinct
/// matched key.
pub fn produce_po_files(list_text: &str, records: Vec<Row>, print_all: bool) -> (r: Vec<StoreFile>)
    ensures
        r@.len() == distinct_keys(
            filter_rows(records.deep_view(), store_ids(list_text@)),
        ).len(),
        forall|i: int|
            0 <= i < r@.len() ==> (#[trigger] r@[i]).store@ == distinct_keys(
                filter_rows(records.deep_view(), store_ids(list_text@)),
            )[i],
        forall|i: int|
            0 <= i < r@.len() ==> (#[trigger] r@[i]).content@ == csv_encoding(
                normalized_rows_for_key(
                    filter_rows(records.deep_view(), store_ids(list_text@)),
                    distinct_keys(filter_rows(records.deep_view(), store_ids(list_text@)))[i],
                    print_all,
                ),
            ),
{
    let list: Vec<String> = parse_store_list(list_text);
    let filtered: Vec<Row> = filter_store(records, list);
    split_outputs(filtered, print_all)
}

/// Whether the `k`-th row of the rendered store file for `key` is the
/// normalization of some source row carrying that key.
pub open spec fn written_from_source(
    rows: Seq<RowModel>,
    key: Seq<char>,
    print_all: bool,
    k: int,
) -> bool {
    exists|m: int|
        0 <= m < rows.len() && rows[m].po == key && normalized_rows_for_key(rows, key, print_all)[k]
            == #[trigger] normalize_model(rows[m], print_all)
}

/// Every row of a rendered store file is the normalization of a source
/// row carrying that store key: its store number is empty and its
/// quantity is `0` exactly when the source row is tagged and the override
/// is off, and the source quantity otherwise.
pub proof fn lemma_written_rows_normalized(rows: Seq<RowModel>, key: Seq<char>, print_all: bool)
    ensures
        forall|k: int|
            0 <= k < normalized_rows_for_key(rows, key, print_all).len()
                ==> #[trigger] written_from_source(rows, key, print_all, k),
    decreases rows.len(),
{
    if rows.len() == 0 {
        assert(normalized_rows_for_key(rows, key, print_all).len() == 0);
    } else {
        lemma_written_rows_normalized(rows.drop_last(), key, print_all);
        let pre = normalized_rows_for_key(rows.drop_last(), key, print_all);
        let all = normalized_rows_for_key(rows, key, print_all);
        assert forall|k: int| 0 <= k < all.len() implies #[trigger] written_from_source(
            rows,
            key,
            print_all,
            k,
        ) by {
            if k < pre.len() {
                assert(all[k] == pre[k]);
                assert(written_from_source(rows.drop_last(), key, print_all, k));
                let m0 = choose|m: int|
                    0 <= m < rows.drop_last().len() && rows.drop_last()[m].po == key
                        && normalized_rows_for_key(rows.drop_last(), key, print_all)[k]
                        == #[trigger] normalize_model(rows.drop_last()[m], print_all);
                assert(rows.drop_last()[m0] == rows[m0]);
                assert(0 <= m0 < rows.len() && rows[m0].po == key && normalized_rows_for_key(
                    rows,
                    key,
                    print_all,
                )[k] == normalize_model(rows[m0], print_all));
            } else {
                assert(all[k] == normalize_model(rows.last(), print_all));
                let m1 = rows.len() - 1;
                assert(0 <= m1 < rows.len() && rows[m1].po == key && normalized_rows_for_key(
                    rows,
                    key,
                    print_all,
                )[k] == normalize_model(rows[m1], print_all));
            }
        }
    }
}

/// What normalization does to one row, field by field: the key, the
/// descriptions and the tag classification are untouched, the store
/// number is emptied, and the quantity is zeroed exactly for a tagged row
/// without the override.
pub proof fn lemma_normalize_fields(r: RowModel, print_all: bool)
    ensures
        normalize_model(r, print_all).po == r.po,
        normalize_model(r, print_all).style_desc == r.style_desc,
        normalize_model(r, print_all).store_num == Seq::<char>::empty(),
        has_marker(r) && !print_all ==> normalize_model(r, print_all).qty == seq!['0'],
        !(has_marker(r) && !print_all) ==> normalize_model(r, print_all).qty == r.qty,
        has_marker(normalize_model(r, print_all)) == has_marker(r),
{
    crate::row::lemma_marker_reads_only_style_desc(normalize_model(r, print_all), r);
}

/// An empty filtered result makes no files: there is no distinct key, so
/// the writer renders nothing.
pub proof fn lemma_no_rows_no_files(rows: Seq<RowModel>)
    requires
        rows.len() == 0,
    ensures
        distinct_keys(rows).len() == 0,
{
}

} // verus!
