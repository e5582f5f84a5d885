//! The row record of the purchase-order export.
//!
//! A row has exactly nine textual fields in a fixed order: store/PO key,
//! style code, color code, size, style description, color description,
//! item identifier (UPC), store number, and quantity.  Rows are created by
//! the loader and read by every later stage; none is mutated in place.

use vstd::prelude::*;

verus! {

/// One row of the purchase-order export.
#[derive(Debug, PartialEq, Eq)]
pub struct Row {
    pub po: String,
    pub style_code: String,
    pub color_code: String,
    pub msrp_size: String,
    pub style_desc: String,
    pub color_desc: String,
    pub upc: String,
    pub store_num: String,
    pub qty: String,
}

/// The mathematical model of a row: each field as a sequence of characters.
pub ghost struct RowModel {
    pub po: Seq<char>,
    pub style_code: Seq<char>,
    pub color_code: Seq<char>,
    pub msrp_size: Seq<char>,
    pub style_desc: Seq<char>,
    pub color_desc: Seq<char>,
    pub upc: Seq<char>,
    pub store_num: Seq<char>,
    pub qty: Seq<char>,
}

impl View for Row {
    type V = RowModel;

    open spec fn view(&self) -> RowModel {
        RowModel {
            po: self.po@,
            style_code: self.style_code@,
            color_code: self.color_code@,
            msrp_size: self.msrp_size@,
            style_desc: self.style_desc@,
            color_desc: self.color_desc@,
            upc: self.upc@,
            store_num: self.store_num@,
            qty: self.qty@,
        }
    }
}

impl DeepView for Row {
    type V = RowModel;

    open spec fn deep_view(&self) -> RowModel {
        self.view()
    }
}

impl Clone for Row {
    fn clone(&self) -> (r: Row)
        ensures
            r@ == self@,
    {
        Row {
            po: self.po.clone(),
            style_code: self.style_code.clone(),
            color_code: self.color_code.clone(),
            msrp_size: self.msrp_size.clone(),
            style_desc: self.style_desc.clone(),
            color_desc: self.color_desc.clone(),
            upc: self.upc.clone(),
            store_num: self.store_num.clone(),
            qty: self.qty.clone(),
        }
    }
}

/// A row is tagged exactly when its style description carries the `$`
/// marker somewhere; no other field takes part in the decision.
pub open spec fn has_marker(r: RowModel) -> bool {
    exists|i: int| 0 <= i < r.style_desc.len() && r.style_desc[i] == '$'
}

/// Tagged rows carry a `$` marker in the style description: such an item
/// is thought to already have an RFID tag applied, so no new tag is
/// printed for it and its output quantity is zeroed unless overridden.
pub fn has_rfid(record: &Row) -> (r: bool)
    ensures
        r == has_marker(record@),
{
    let desc: &str = record.style_desc.as_str();
    let len: usize = desc.unicode_len();
    let mut i: usize = 0;
    while i < len
        invariant
            i <= len,
            len == desc@.len(),
            desc@ == record.style_desc@,
            forall|j: int| 0 <= j < i ==> desc@[j] != '$',
        decreases len - i,
    {
        if desc.get_char(i) == '$' {
            proof {
                assert(record@.style_desc[i as int] == '$');
            }
            return true;
        }
        i = i + 1;
    }
    false
}

/// The tag decision reads the style description alone: two rows that agree
/// on that field are classified alike, whatever their other fields hold.
pub proof fn lemma_marker_reads_only_style_desc(a: RowModel, b: RowModel)
    requires
        a.style_desc == b.style_desc,
    ensures
        has_marker(a) == has_marker(b),
{
}

} // verus!
