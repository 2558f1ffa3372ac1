//! Tallying a batch of records.

use crate::model::{invoice_views, Invoice, InvoiceView};
use crate::text::str_eq;
use crate::words::{STATUS_DUPLICATE, STATUS_FAILED, STATUS_NORMAL};
use vstd::prelude::*;

verus! {

/// What is known of a batch as a whole. The two sums are kept as printed
/// text.
#[derive(Debug, Clone)]
pub struct ProcessingStats {
    pub total_amount: String,
    pub total_tax: String,
    pub invoice_count: usize,
    pub duplicate_count: usize,
    pub success_count: usize,
    pub fail_count: usize,
}

/// What a `ProcessingStats` stands for.
pub struct StatsView {
    pub total_amount: Seq<char>,
    pub total_tax: Seq<char>,
    pub invoice_count: nat,
    pub duplicate_count: nat,
    pub success_count: nat,
    pub fail_count: nat,
}

impl View for ProcessingStats {
    type V = StatsView;

    open spec fn view(&self) -> StatsView {
        StatsView {
            total_amount: self.total_amount@,
            total_tax: self.total_tax@,
            invoice_count: self.invoice_count as nat,
            duplicate_count: self.duplicate_count as nat,
            success_count: self.success_count as nat,
            fail_count: self.fail_count as nat,
        }
    }
}

impl Default for ProcessingStats {
    fn default() -> (stats: ProcessingStats)
        ensures
            stats@ == (StatsView {
                total_amount: Seq::empty(),
                total_tax: Seq::empty(),
                invoice_count: 0,
                duplicate_count: 0,
                success_count: 0,
                fail_count: 0,
            }),
    {
        ProcessingStats {
            total_amount: String::new(),
            total_tax: String::new(),
            invoice_count: 0,
            duplicate_count: 0,
            success_count: 0,
            fail_count: 0,
        }
    }
}

/// How many of the first `upto` records have the given status.
pub open spec fn count_status(records: Seq<InvoiceView>, status: Seq<char>, upto: int) -> nat
    decreases upto,
{
    if upto <= 0 {
        0
    } else if records[upto - 1].status == status {
        count_status(records, status, upto - 1) + 1
    } else {
        count_status(records, status, upto - 1)
    }
}

/// The tally of a batch whose sums are `total_amount` and `total_tax`: the
/// number of records, and how many of them are normal, duplicates and
/// failed. A record with any other status counts only as a record.
pub open spec fn tally_of(records: Seq<InvoiceView>, total_amount: Seq<char>, total_tax: Seq<char>)
    -> StatsView {
    StatsView {
        total_amount: total_amount,
        total_tax: total_tax,
        invoice_count: records.len(),
        duplicate_count: count_status(records, STATUS_DUPLICATE@, records.len() as int),
        success_count: count_status(records, STATUS_NORMAL@, records.len() as int),
        fail_count: count_status(records, STATUS_FAILED@, records.len() as int),
    }
}

/// Whether the amount and the tax of the record count toward the sums of
/// its batch: they do if the record is normal.
pub fn counts_toward_sums(invoice: &Invoice) -> (counts: bool)
    ensures
        counts == (invoice@.status == STATUS_NORMAL@),
{
    str_eq(invoice.status.as_str(), STATUS_NORMAL)
}

/// How many of the records have the given status.
pub fn count_with_status(invoices: &[Invoice], status: &str) -> (count: usize)
    ensures
        count == count_status(invoice_views(invoices@), status@, invoices.len() as int),
{
    let ghost records = invoice_views(invoices@);
    let mut count: usize = 0;
    let mut i: usize = 0;
    while i < invoices.len()
        invariant
            i <= invoices.len(),
            records == invoice_views(invoices@),
            count == count_status(records, status@, i as int),
            count <= i,
        decreases invoices.len() - i,
    {
        assert(records[i as int] == invoices[i as int]@);
        if str_eq(invoices[i].status.as_str(), status) {
            count += 1;
        }
        i += 1;
    }
    count
}

/// The tally of a batch. The two sums are handed in as printed text; the
/// counts are taken from the records.
pub fn tally(invoices: &[Invoice], total_amount: String, total_tax: String) -> (stats:
    ProcessingStats)
    ensures
        stats@ == tally_of(invoice_views(invoices@), total_amount@, total_tax@),
{
    ProcessingStats {
        total_amount: total_amount,
        total_tax: total_tax,
        invoice_count: invoices.len(),
        duplicate_count: count_with_status(invoices, STATUS_DUPLICATE),
        success_count: count_with_status(invoices, STATUS_NORMAL),
        fail_count: count_with_status(invoices, STATUS_FAILED),
    }
}

} // verus!
