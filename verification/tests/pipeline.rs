use lisa::error::PipelineError;
use lisa::filter::filter_store;
use lisa::loader::load_records;
use lisa::message_box::{ErrorMsgBox, StateMsgBox};
use lisa::report::{aggregate, produce_report};
use lisa::row::{has_rfid, Row};
use lisa::store_list::parse_store_list;
use lisa::writer::{normalize_order, produce_po_files, split_outputs};

fn row(po: &str, style_desc: &str, qty: &str) -> Row {
    Row {
        po: po.to_string(),
        style_code: "ST1".to_string(),
        color_code: "C1".to_string(),
        msrp_size: "M".to_string(),
        style_desc: style_desc.to_string(),
        color_desc: "BLUE".to_string(),
        upc: "123456789012".to_string(),
        store_num: "7".to_string(),
        qty: qty.to_string(),
    }
}

#[test]
fn message_box_values() {
    assert_eq!(ErrorMsgBox::EmptyInputField.value(), "The input field can not be empty.");
    assert_eq!(ErrorMsgBox::EmptyOutputField.value(), "The output field can not be empty.");
    assert_eq!(ErrorMsgBox::EmptyListField.value(), "The list field can not be empty.");
    assert_eq!(StateMsgBox::Success.value(), "Success!");
}

#[test]
fn store_list_splits_on_commas() {
    let ids = parse_store_list("001,002,003");
    assert_eq!(ids, vec!["001", "002", "003"]);
}

#[test]
fn store_list_strips_newlines_before_splitting() {
    assert_eq!(parse_store_list("001,\n002\n"), vec!["001", "002"]);
    assert_eq!(parse_store_list("001,\r\n002\r\n"), vec!["001", "002"]);
}

#[test]
fn store_list_keeps_duplicates_and_empty_tokens() {
    assert_eq!(parse_store_list("01,01"), vec!["01", "01"]);
    assert_eq!(parse_store_list("01,,02,"), vec!["01", "", "02", ""]);
    assert_eq!(parse_store_list(""), vec![""]);
}

#[test]
fn store_list_keeps_a_lone_carriage_return() {
    // Only `\n`, and `\r` directly before `\n`, are line endings.
    assert_eq!(parse_store_list("001\r,002"), vec!["001\r", "002"]);
}

#[test]
fn empty_identifier_matches_any_key_with_a_separator() {
    // An empty token is kept, and the separator prefix alone is its
    // pattern.
    let rows = vec![row("PO-1", "A", "1"), row("PO1", "B", "2")];
    let out = filter_store(rows, parse_store_list(""));
    assert_eq!(out.len(), 1);
    assert_eq!(out[0].po, "PO-1");
}

#[test]
fn marker_is_read_from_style_desc_only() {
    assert!(has_rfid(&row("PO-001", "SHIRT$", "10")));
    assert!(has_rfid(&row("PO-001", "SHI$RT", "10")));
    assert!(!has_rfid(&row("PO-001", "SHIRT", "10")));
    // A `$` anywhere else does not make the row tagged.
    let mut r = row("PO-$01", "SHIRT", "10");
    r.qty = "$".to_string();
    assert!(!has_rfid(&r));
}

#[test]
fn filter_matches_only_with_separator_prefix() {
    let rows = vec![row("PO-014", "A", "1"), row("PO1140", "B", "2"), row("X-014", "C", "3")];
    let out = filter_store(rows, vec!["014".to_string()]);
    assert_eq!(out.len(), 2);
    assert_eq!(out[0].po, "PO-014");
    assert_eq!(out[1].po, "X-014");
}

#[test]
fn filter_keeps_one_copy_per_matching_identifier_occurrence() {
    // A duplicated identifier duplicates every matching row.
    let rows = vec![row("A-01", "A", "4")];
    let out = filter_store(rows, vec!["01".to_string(), "01".to_string()]);
    assert_eq!(out.len(), 2);
    assert_eq!(out[0], out[1]);
    // A row that matches two listed identifiers is also kept twice.
    let rows = vec![row("A-01-B-02", "A", "4")];
    let out = filter_store(rows, vec!["01".to_string(), "02".to_string()]);
    assert_eq!(out.len(), 2);
}

#[test]
fn filter_is_identifier_major() {
    let rows = vec![row("A-01", "A", "1"), row("B-02", "B", "2")];
    let out = filter_store(rows, vec!["02".to_string(), "01".to_string()]);
    assert_eq!(out[0].po, "B-02");
    assert_eq!(out[1].po, "A-01");
}

#[test]
fn normalize_zeroes_tagged_quantity_and_store_number() {
    let tagged = normalize_order(&row("PO-1", "D$", "10"), false);
    assert_eq!(tagged.qty, "0");
    assert_eq!(tagged.store_num, "");
    let untagged = normalize_order(&row("PO-1", "D", "5"), false);
    assert_eq!(untagged.qty, "5");
    assert_eq!(untagged.store_num, "");
    let overridden = normalize_order(&row("PO-1", "D$", "10"), true);
    assert_eq!(overridden.qty, "10");
    assert_eq!(overridden.store_num, "");
}

#[test]
fn split_writes_two_rows_for_one_store() {
    // Two rows of one store: the tagged one comes out zeroed, the other
    // keeps its quantity; the report splits the totals the same way.
    let rows = vec![row("S1", "desc$", "10"), row("S1", "desc", "5")];
    let files = split_outputs(rows.clone(), false);
    assert_eq!(files.len(), 1);
    assert_eq!(files[0].store, "S1");
    let loaded = load_records(&files[0].content).unwrap();
    assert_eq!(loaded.len(), 2);
    assert_eq!(loaded[0].qty, "0");
    assert_eq!(loaded[0].store_num, "");
    assert_eq!(loaded[0].style_desc, "desc$");
    assert_eq!(loaded[1].qty, "5");
    assert_eq!(loaded[1].store_num, "");
    let report = aggregate(&rows).unwrap();
    assert_eq!(report.t_stores, 1);
    assert_eq!(report.lines.len(), 1);
    assert_eq!(report.lines[0].store, "S1");
    assert_eq!(report.lines[0].qty_low, 10);
    assert_eq!(report.lines[0].qty_high, 5);
    assert_eq!(report.lines[0].total, 15);
    assert_eq!(report.lines[0].boxes, 1);
}

#[test]
fn split_groups_by_first_occurrence_and_keeps_row_order() {
    let rows = vec![
        row("B-2", "X", "1"),
        row("A-1", "Y", "2"),
        row("B-2", "Z", "3"),
    ];
    let files = split_outputs(rows, true);
    assert_eq!(files.len(), 2);
    assert_eq!(files[0].store, "B-2");
    assert_eq!(files[1].store, "A-1");
    let first = load_records(&files[0].content).unwrap();
    assert_eq!(first.len(), 2);
    assert_eq!(first[0].style_desc, "X");
    assert_eq!(first[1].style_desc, "Z");
}

#[test]
fn split_file_headers_round_trip() {
    let rows = vec![row("S1", "D", "5")];
    let files = split_outputs(rows, false);
    assert!(files[0].content.starts_with(
        "Po,StyleCode,ColorCode,MsrpSize,StyleDesc,ColorDesc,Upc,StoreNum,Qty"
    ));
}

#[test]
fn box_estimate_boundaries() {
    let report = aggregate(&vec![row("S1", "D", "60")]).unwrap();
    assert_eq!(report.lines[0].boxes, 1);
    assert_eq!(report.t_boxes, 1);
    let report = aggregate(&vec![row("S1", "D", "61")]).unwrap();
    assert_eq!(report.lines[0].boxes, 2);
    assert_eq!(report.t_boxes, 2);
    let report = aggregate(&vec![row("S1", "D", "0")]).unwrap();
    assert_eq!(report.lines[0].boxes, 0);
    assert_eq!(report.t_boxes, 0);
}

#[test]
fn empty_filtered_result_means_no_files_and_zero_report() {
    let rows = vec![row("PO-001", "D", "5")];
    let files = produce_po_files("999", rows.clone(), false);
    assert!(files.is_empty());
    let report = produce_report("999", rows).unwrap();
    assert_eq!(report.t_stores, 0);
    assert_eq!(report.t_labels, 0);
    assert_eq!(report.t_high, 0);
    assert_eq!(report.t_low, 0);
    assert_eq!(report.t_boxes, 0);
    assert!(report.lines.is_empty());
}

#[test]
fn report_rejects_unparseable_quantity() {
    assert_eq!(aggregate(&vec![row("S1", "D", "abc")]), Err(PipelineError::InvalidQuantity));
    assert_eq!(aggregate(&vec![row("S1", "D", "")]), Err(PipelineError::InvalidQuantity));
    assert_eq!(aggregate(&vec![row("S1", "D", "-1")]), Err(PipelineError::InvalidQuantity));
    assert_eq!(aggregate(&vec![row("S1", "D", "4294967296")]), Err(PipelineError::InvalidQuantity));
    assert_eq!(
        aggregate(&vec![row("S1", "D", "4294967295")]).unwrap().lines[0].qty_high,
        4294967295
    );
    assert_eq!(aggregate(&vec![row("S1", "D", "+7")]).unwrap().lines[0].qty_high, 7);
}

#[test]
fn loader_rejects_short_records() {
    // Consistent rows with fewer than the nine positions.
    let text = "A,B,C\n1,2,3\n";
    assert_eq!(load_records(text), Err(PipelineError::MalformedRecord));
    // Inconsistent field counts are a decoding error.
    let text = "A,B\nonly\n";
    assert_eq!(load_records(text), Err(PipelineError::MalformedRecord));
}

#[test]
fn loader_skips_header_and_keeps_order() {
    let text = "Po,StyleCode,ColorCode,MsrpSize,StyleDesc,ColorDesc,Upc,StoreNum,Qty\n\
                PO-001,S,C,M,D,B,U,7,10\n\
                PO-002,S,C,M,E,B,U,8,20\n";
    let rows = load_records(text).unwrap();
    assert_eq!(rows.len(), 2);
    assert_eq!(rows[0].po, "PO-001");
    assert_eq!(rows[0].qty, "10");
    assert_eq!(rows[0].store_num, "7");
    assert_eq!(rows[1].style_desc, "E");
    let empty = load_records("").unwrap();
    assert!(empty.is_empty());
}

#[test]
fn full_pipeline_splits_and_reports() {
    let text = "Po,StyleCode,ColorCode,MsrpSize,StyleDesc,ColorDesc,Upc,StoreNum,Qty\n\
                PO-001,S,C,M,D$,B,U,7,10\n\
                PO-002,S,C,M,D,B,U,7,8\n\
                PO-001,S,C,M,D,B,U,7,5\n";
    let rows = load_records(text).unwrap();
    let files = produce_po_files("001,002", rows.clone(), false);
    assert_eq!(files.len(), 2);
    assert_eq!(files[0].store, "PO-001");
    assert_eq!(files[1].store, "PO-002");
    let first = load_records(&files[0].content).unwrap();
    assert_eq!(first.len(), 2);
    assert_eq!(first[0].qty, "0");
    assert_eq!(first[1].qty, "5");
    let report = produce_report("001,002", rows).unwrap();
    assert_eq!(report.t_stores, 2);
    assert_eq!(report.t_low, 10);
    assert_eq!(report.t_high, 13);
    assert_eq!(report.t_labels, 23);
    assert_eq!(report.t_boxes, 1);
}

#[test]
fn duplicated_identifier_double_counts_the_report() {
    let rows = vec![row("A-01", "D", "4")];
    let files = produce_po_files("01,01", rows.clone(), false);
    assert_eq!(files.len(), 1);
    let lines = load_records(&files[0].content).unwrap();
    assert_eq!(lines.len(), 2);
    assert_eq!(lines[0], lines[1]);
    let report = produce_report("01,01", rows).unwrap();
    assert_eq!(report.t_stores, 1);
    assert_eq!(report.t_labels, 8);
}

#[test]
fn written_file_reaggregates_to_the_same_split() {
    // With the override on, re-aggregating each written file reproduces
    // the tagged/untagged split the aggregator computed before the split.
    let rows = vec![
        row("S1", "D$", "10"),
        row("S2", "D", "7"),
        row("S1", "D", "5"),
        row("S2", "E$", "60"),
    ];
    let before = aggregate(&rows).unwrap();
    let files = split_outputs(rows.clone(), true);
    assert_eq!(files.len(), before.lines.len());
    for (file, line) in files.iter().zip(before.lines.iter()) {
        let loaded = load_records(&file.content).unwrap();
        let after = aggregate(&loaded).unwrap();
        assert_eq!(after.t_stores, 1);
        assert_eq!(after.lines[0].store, line.store);
        assert_eq!(after.lines[0].qty_high, line.qty_high);
        assert_eq!(after.lines[0].qty_low, line.qty_low);
        assert_eq!(after.lines[0].total, line.total);
    }
    // Without the override, the untagged side is reproduced and the
    // tagged side re-aggregates to zero.
    let files = split_outputs(rows, false);
    for (file, line) in files.iter().zip(before.lines.iter()) {
        let loaded = load_records(&file.content).unwrap();
        let after = aggregate(&loaded).unwrap();
        assert_eq!(after.lines[0].qty_high, line.qty_high);
        assert_eq!(after.lines[0].qty_low, 0);
    }
}
