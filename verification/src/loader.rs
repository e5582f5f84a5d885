//! The record loader.
//!
//! The input resource is comma-delimited text with a header row and nine
//! columns.  The tabular decoder turns the text after the header into raw
//! records; the loader then demands at least the nine fixed positions of
//! every record and builds the row values, in source order.  A record
//! that cannot be decoded, or that lacks a position, aborts the run with
//! `MalformedRecord`.

use vstd::prelude::*;

use crate::error::PipelineError;
use crate::row::{Row, RowModel};

verus! {

/// What the tabular decoder yields for the raw text of the input
/// resource: the field texts of each record after the header row, or
/// nothing when some record cannot be decoded.
pub uninterp spec fn csv_records(text: Seq<char>) -> Option<Seq<Seq<Seq<char>>>>;

/// Relies on csv::Reader over the text's bytes: with the default
/// configuration it skips the header row, yields one record of field
/// strings per remaining line, and reports an error for a record it
/// cannot decode; the outcome is a function of the text alone.
#[verifier::external_body]
fn decode_csv(data: &str) -> (r: Result<Vec<Vec<String>>, PipelineError>)
    ensures
        match r {
            Ok(recs) => csv_records(data@) == Some(recs.deep_view()),
            Err(e) => csv_records(data@) is None && e == PipelineError::MalformedRecord,
        },
{
    let mut rdr = csv::Reader::from_reader(data.as_bytes());
    let mut out: Vec<Vec<String>> = Vec::new();
    for rec in rdr.records() {
        match rec {
            Ok(fields) => out.push(fields.iter().map(|f| f.to_string()).collect()),
            Err(_) => return Err(PipelineError::MalformedRecord),
        }
    }
    Ok(out)
}

/// The row built from the first nine fields of a record.
pub open spec fn row_of_fields(fields: Seq<Seq<char>>) -> RowModel {
    RowModel {
        po: fields[0],
        style_code: fields[1],
        color_code: fields[2],
        msrp_size: fields[3],
        style_desc: fields[4],
        color_desc: fields[5],
        upc: fields[6],
        store_num: fields[7],
        qty: fields[8],
    }
}

/// The rows built from a sequence of records.
pub open spec fn rows_of_records(recs: Seq<Seq<Seq<char>>>) -> Seq<RowModel> {
    recs.map_values(|fields: Seq<Seq<char>>| row_of_fields(fields))
}

/// Builds the ordered rows from the decoder's raw records.  Succeeds
/// exactly when every record has the nine fixed positions; a shorter
/// record is a fatal `MalformedRecord`.
pub fn rows_from_records(records: Vec<Vec<String>>) -> (r: Result<Vec<Row>, PipelineError>)
    ensures
        r is Ok <==> (forall|i: int|
            0 <= i < records.deep_view().len() ==> (#[trigger] records.deep_view()[i]).len() >= 9),
        r matches Ok(v) ==> v.deep_view() == rows_of_records(records.deep_view()),
        r is Err ==> r == Err::<Vec<Row>, PipelineError>(PipelineError::MalformedRecord),
{
    let mut out: Vec<Row> = Vec::new();
    let mut i: usize = 0;
    while i < records.len()
        invariant
            i <= records@.len(),
            forall|j: int|
                0 <= j < i ==> (#[trigger] records.deep_view()[j]).len() >= 9,
            out.deep_view() == rows_of_records(records.deep_view().take(i as int)),
        decreases records@.len() - i,
    {
        let rec: &Vec<String> = &records[i];
        if rec.len() < 9 {
            proof {
                assert(records.deep_view()[i as int].len() < 9);
            }
            return Err(PipelineError::MalformedRecord);
        }
        let ghost old_dv: Seq<RowModel> = out.deep_view();
        out.push(
            Row {
                po: rec[0].clone(),
                style_code: rec[1].clone(),
                color_code: rec[2].clone(),
                msrp_size: rec[3].clone(),
                style_desc: rec[4].clone(),
                color_desc: rec[5].clone(),
                upc: rec[6].clone(),
                store_num: rec[7].clone(),
                qty: rec[8].clone(),
            },
        );
        proof {
            assert(out.deep_view() =~= old_dv.push(row_of_fields(records.deep_view()[i as int])));
            assert(out.deep_view() =~= rows_of_records(records.deep_view().take(i as int + 1)));
        }
        i = i + 1;
    }
    proof {
        assert(records.deep_view().take(records@.len() as int) =~= records.deep_view());
    }
    Ok(out)
}

/// Whether the raw text of the input resource loads cleanly: the decoder
/// accepts every record and each record has the nine fixed positions.
pub open spec fn loadable(text: Seq<char>) -> bool {
    match csv_records(text) {
        Some(recs) => forall|i: int| 0 <= i < recs.len() ==> (#[trigger] recs[i]).len() >= 9,
        None => false,
    }
}

/// The rows that a cleanly loading text yields.
pub open spec fn loaded_rows(text: Seq<char>) -> Seq<RowModel> {
    match csv_records(text) {
        Some(recs) => rows_of_records(recs),
        None => Seq::empty(),
    }
}

/// Loads the ordered rows from the raw text of the input resource.
/// Fails with `MalformedRecord` when the decoder rejects a record or a
/// record lacks one of the nine fixed positions; otherwise every decoded
/// record becomes one row, in source order.
pub fn load_records(data: &str) -> (r: Result<Vec<Row>, PipelineError>)
    ensures
        r is Ok <==> loadable(data@),
        r matches Ok(v) ==> v.deep_view() == loaded_rows(data@),
        r is Err ==> r == Err::<Vec<Row>, PipelineError>(PipelineError::MalformedRecord),
{
    match decode_csv(data) {
        Ok(recs) => {
            let ghost recs_dv: Seq<Seq<Seq<char>>> = recs.deep_view();
            let r = rows_from_records(recs);
            proof {
                assert(csv_records(data@) == Some(recs_dv));
                if r is Ok {
                    assert(loadable(data@));
                }
                if loadable(data@) {
                    assert forall|i: int| 0 <= i < recs_dv.len() implies (#[trigger] recs_dv[i]).len()
                        >= 9 by {
                        let s = csv_records(data@)->Some_0;
                        assert(s == recs_dv);
                        assert(s[i].len() >= 9);
                    }
                    assert(r is Ok);
                }
            }
            r
        },
        Err(_) => Err(PipelineError::MalformedRecord),
    }
}

} // verus!
