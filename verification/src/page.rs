//! Reading one page after another into records.

use crate::geometry::UNIT;
use crate::items::{extract_invoice_items, or_stand_in, stand_in_item, with_items};
use crate::model::{
    create_empty_invoice, empty_invoice, fragments, invoice_views, Fragment, Invoice, InvoiceView,
    TextItem,
};
use crate::nearby::{extract_nearby_text, find_landmark, matching, nearby_text};
use crate::party::{extract_party_info, with_party};
use crate::pattern::{pattern_compiles, pattern_ready};
use crate::remark::{extract_remark_info, with_remark};
use crate::scan::first_index;
use crate::text::{
    append_chars, chars_of, contains_str, decimal, decimal_chars, has_substring, string_of,
};
use crate::totals::{extract_total_amount_and_tax, with_totals};
use crate::words::{
    AMOUNT_FORMAT, BUYER_HEADER, CHECKSUM_PATTERN, CODE_PATTERN, DATE_PATTERN, DRAWER_PATTERN,
    GENERIC_TITLE, INVOICE_TYPE_GENERAL, INVOICE_TYPE_VAT, IN_FIGURES_PATTERN, MONEY_FORMAT,
    NUMBER_FORMAT, NUMBER_PATTERN, PARTY_ADDRESS_PATTERN, PARTY_BANK_PATTERN, PARTY_NAME_PATTERN,
    PARTY_TAX_CODE_PATTERN, PAYEE_PATTERN, QUANTITY_FORMAT, REMARK_FAULT, REMARK_NO_INVOICE,
    REMARK_NO_TEXT, REVIEWER_PATTERN, RIGHT, SELLER_HEADER, STATUS_FAILED, STATUS_PENDING,
    TITLE_PAGE_CLOSE, TITLE_PAGE_OPEN, TITLE_PATTERN, UNRECOGNIZED_ITEM, VAT_KEYWORD,
};
use vstd::prelude::*;

verus! {

/// How far to the right of its label the invoice code may start.
pub const CODE_REACH: i64 = 100 * UNIT;

/// How far to the right of its label the invoice number may start.
pub const NUMBER_REACH: i64 = 100 * UNIT;

/// How far to the right of its label the date of issue may start.
pub const DATE_REACH: i64 = 150 * UNIT;

/// How far to the right of its label the checksum may start.
pub const CHECKSUM_REACH: i64 = 250 * UNIT;

/// How far to the right of its label the name of a signatory may start.
pub const SIGNATORY_REACH: i64 = 100 * UNIT;

/// What the title of a page carries behind it: nothing on the first page,
/// the page's number in brackets on a later one.
pub open spec fn page_suffix(page_index: nat) -> Seq<char> {
    if page_index == 0 {
        Seq::empty()
    } else {
        TITLE_PAGE_OPEN@ + decimal(page_index + 1) + TITLE_PAGE_CLOSE@
    }
}

/// The title of a page: the text of the title fragment that was found, or
/// the generic title where none was, and behind it the page suffix.
pub open spec fn title_text(found: Option<Seq<char>>, page_index: nat) -> Seq<char> {
    match found {
        Some(text) => text + page_suffix(page_index),
        None => GENERIC_TITLE@ + page_suffix(page_index),
    }
}

/// The type of an invoice with the given title: the VAT type if the title
/// names the value-added tax, the general type if not.
pub open spec fn type_of_title(text: Seq<char>) -> Seq<char> {
    if has_substring(text, VAT_KEYWORD@) {
        INVOICE_TYPE_VAT@
    } else {
        INVOICE_TYPE_GENERAL@
    }
}

/// The record after the title has been read. With a title fragment, the
/// title is its text and the type follows from it; without one, the title is
/// the generic one and the type stays as it is. Either way the page suffix
/// follows the title.
pub open spec fn with_title(invoice: InvoiceView, frags: Seq<Fragment>, page_index: nat)
    -> InvoiceView {
    let at = first_index(frags, matching(TITLE_PATTERN@));
    if at < frags.len() {
        InvoiceView {
            title: title_text(Some(frags[at].text), page_index),
            invoice_type: type_of_title(frags[at].text),
            ..invoice
        }
    } else {
        InvoiceView { title: title_text(None, page_index), ..invoice }
    }
}

/// The text to the right of the first fragment that the label pattern
/// matches, no further away than `reach`.
pub open spec fn labelled(frags: Seq<Fragment>, pattern: Seq<char>, reach: int) -> Seq<char> {
    nearby_text(frags, pattern, RIGHT@, reach)
}

/// The record after code, number, date and checksum have been read.
pub open spec fn with_codes(invoice: InvoiceView, frags: Seq<Fragment>) -> InvoiceView {
    InvoiceView {
        code: labelled(frags, CODE_PATTERN@, CODE_REACH as int),
        number: labelled(frags, NUMBER_PATTERN@, NUMBER_REACH as int),
        date: labelled(frags, DATE_PATTERN@, DATE_REACH as int),
        checksum: labelled(frags, CHECKSUM_PATTERN@, CHECKSUM_REACH as int),
        ..invoice
    }
}

/// The record after drawer, payee and the checking person have been read.
pub open spec fn with_signatories(invoice: InvoiceView, frags: Seq<Fragment>) -> InvoiceView {
    InvoiceView {
        drawer: labelled(frags, DRAWER_PATTERN@, SIGNATORY_REACH as int),
        payee: labelled(frags, PAYEE_PATTERN@, SIGNATORY_REACH as int),
        reviewer: labelled(frags, REVIEWER_PATTERN@, SIGNATORY_REACH as int),
        ..invoice
    }
}

/// The record of a page after every stage has run on it, in this order:
/// index, title and type, codes, buyer, seller, signatories, remark, table
/// of goods, totals. A record that has no item after the table stage gets
/// the stand-in item, so a parsed page always has an item.
pub open spec fn parsed_page(invoice: InvoiceView, frags: Seq<Fragment>, page_index: nat)
    -> InvoiceView {
    let indexed = InvoiceView { index: page_index + 1, ..invoice };
    let titled = with_title(indexed, frags, page_index);
    let coded = with_codes(titled, frags);
    let bought = with_party(coded, frags, BUYER_HEADER@, false);
    let sold = with_party(bought, frags, SELLER_HEADER@, true);
    let signed = with_signatories(sold, frags);
    let remarked = with_remark(signed, frags);
    let itemized = with_items(remarked, frags);
    let filled = InvoiceView { items: or_stand_in(itemized.items), ..itemized };
    with_totals(filled, frags)
}

/// Whether the `regex` crate accepts every pattern that the engine brings
/// along.
pub open spec fn engine_ready() -> bool {
    &&& pattern_compiles(TITLE_PATTERN@)
    &&& pattern_compiles(CODE_PATTERN@)
    &&& pattern_compiles(NUMBER_PATTERN@)
    &&& pattern_compiles(DATE_PATTERN@)
    &&& pattern_compiles(CHECKSUM_PATTERN@)
    &&& pattern_compiles(DRAWER_PATTERN@)
    &&& pattern_compiles(PAYEE_PATTERN@)
    &&& pattern_compiles(REVIEWER_PATTERN@)
    &&& pattern_compiles(PARTY_NAME_PATTERN@)
    &&& pattern_compiles(PARTY_TAX_CODE_PATTERN@)
    &&& pattern_compiles(PARTY_ADDRESS_PATTERN@)
    &&& pattern_compiles(PARTY_BANK_PATTERN@)
    &&& pattern_compiles(IN_FIGURES_PATTERN@)
    &&& pattern_compiles(QUANTITY_FORMAT@)
    &&& pattern_compiles(MONEY_FORMAT@)
    &&& pattern_compiles(AMOUNT_FORMAT@)
    &&& pattern_compiles(NUMBER_FORMAT@)
}

/// The record of a page that could not be parsed: the empty record with the
/// failure status, the page's number and a remark that says why.
pub open spec fn failed_record(filename: Seq<char>, page_index: nat, remark: Seq<char>)
    -> InvoiceView {
    InvoiceView {
        index: page_index + 1,
        remark: remark,
        ..empty_invoice(filename, STATUS_FAILED@, page_index)
    }
}

/// The record of one page, where `ready` says whether the engine can run. A
/// page without fragments fails; so does every page if the engine cannot
/// run; any other page is parsed.
pub open spec fn page_record(
    filename: Seq<char>,
    frags: Seq<Fragment>,
    page_index: nat,
    ready: bool,
) -> InvoiceView {
    if frags.len() == 0 {
        failed_record(filename, page_index, REMARK_NO_TEXT@)
    } else if !ready {
        failed_record(filename, page_index, REMARK_FAULT@)
    } else {
        parsed_page(empty_invoice(filename, STATUS_PENDING@, page_index), frags, page_index)
    }
}

/// The records of a batch: one per page and in the order of the pages, or a
/// single failed record if there is no page. The engine can run if all its
/// patterns are accepted.
pub open spec fn batch_records(filename: Seq<char>, pages: Seq<Seq<Fragment>>) -> Seq<
    InvoiceView,
> {
    if pages.len() == 0 {
        seq![failed_record(filename, 0, REMARK_NO_INVOICE@)]
    } else {
        Seq::new(pages.len(), |i: int| page_record(filename, pages[i], i as nat, engine_ready()))
    }
}

/// What a list of pages stands for.
pub open spec fn page_views(pages: Seq<Vec<TextItem>>) -> Seq<Seq<Fragment>> {
    Seq::new(pages.len(), |i: int| fragments(pages[i]@))
}

/// Whether the record is a failed one for the given page: the failure
/// status, the page's number, a remark that is not empty, and every other
/// field as in the empty record.
pub open spec fn is_failed_record(record: InvoiceView, filename: Seq<char>, page_index: nat)
    -> bool {
    record == failed_record(filename, page_index, record.remark) && record.remark.len() > 0
}

/// The status of a page that awaits tallying differs from the status of a
/// failed one, and none of the failure remarks is empty.
pub proof fn lemma_status_words()
    ensures
        STATUS_PENDING@ != STATUS_FAILED@,
        REMARK_NO_TEXT@.len() > 0,
        REMARK_FAULT@.len() > 0,
        REMARK_NO_INVOICE@.len() > 0,
{
    reveal_strlit("待统计");
    reveal_strlit("parse failed");
    reveal_strlit("该页没有可识别的文本");
    reveal_strlit("发票解析过程中出现错误");
    reveal_strlit("未能识别任何发票信息");
    assert(STATUS_PENDING@.len() == 3);
    assert(STATUS_FAILED@.len() == 12);
}

/// Parsing a page changes neither the status nor the file name of its
/// record, numbers the record by the page, and leaves it with an item.
pub proof fn lemma_parsed_page_keeps_status(
    invoice: InvoiceView,
    frags: Seq<Fragment>,
    page_index: nat,
)
    ensures
        parsed_page(invoice, frags, page_index).status == invoice.status,
        parsed_page(invoice, frags, page_index).filename == invoice.filename,
        parsed_page(invoice, frags, page_index).index == page_index + 1,
        parsed_page(invoice, frags, page_index).items.len() > 0,
{
}

/// The status of the record of a page is one of two: awaiting tallying, or
/// failed. A record with the failure status is a failed record: it has a
/// remark, and every other field but the index is as in the empty record. A
/// page fails if it has no fragments or the engine cannot run, and only
/// then. Every record carries the page's number, and a record that awaits
/// tallying has an item.
pub proof fn lemma_page_record_status(
    filename: Seq<char>,
    frags: Seq<Fragment>,
    page_index: nat,
    ready: bool,
)
    ensures
        page_record(filename, frags, page_index, ready).status == STATUS_PENDING@ || page_record(
            filename,
            frags,
            page_index,
            ready,
        ).status == STATUS_FAILED@,
        page_record(filename, frags, page_index, ready).status == STATUS_FAILED@
            ==> is_failed_record(
            page_record(filename, frags, page_index, ready),
            filename,
            page_index,
        ),
        page_record(filename, frags, page_index, ready).status == STATUS_FAILED@ <==> (frags.len()
            == 0 || !ready),
        page_record(filename, frags, page_index, ready).index == page_index + 1,
        page_record(filename, frags, page_index, ready).status == STATUS_PENDING@ ==> page_record(
            filename,
            frags,
            page_index,
            ready,
        ).items.len() > 0,
{
    lemma_status_words();
    lemma_parsed_page_keeps_status(
        empty_invoice(filename, STATUS_PENDING@, page_index),
        frags,
        page_index,
    );
}

/// A batch yields one record per page, or one record if it has no page;
/// every record carries its place in the batch, counted from one; every
/// record awaits tallying or has failed; every failed record has a remark
/// and is otherwise empty; and every other record has an item.
pub proof fn lemma_batch_records(filename: Seq<char>, pages: Seq<Seq<Fragment>>)
    ensures
        pages.len() > 0 ==> batch_records(filename, pages).len() == pages.len(),
        pages.len() == 0 ==> batch_records(filename, pages).len() == 1 && is_failed_record(
            batch_records(filename, pages)[0],
            filename,
            0,
        ),
        forall|i: int|
            0 <= i < batch_records(filename, pages).len() ==> {
                let record = #[trigger] batch_records(filename, pages)[i];
                &&& (record.status == STATUS_PENDING@ || record.status == STATUS_FAILED@)
                &&& (record.status == STATUS_FAILED@ ==> is_failed_record(
                    record,
                    filename,
                    i as nat,
                ))
                &&& record.index == i + 1
                &&& (record.status == STATUS_PENDING@ ==> record.items.len() > 0)
            },
{
    lemma_status_words();
    let records = batch_records(filename, pages);
    assert forall|i: int| 0 <= i < records.len() implies {
        let record = #[trigger] records[i];
        &&& (record.status == STATUS_PENDING@ || record.status == STATUS_FAILED@)
        &&& (record.status == STATUS_FAILED@ ==> is_failed_record(record, filename, i as nat))
        &&& record.index == i + 1
        &&& (record.status == STATUS_PENDING@ ==> record.items.len() > 0)
    } by {
        if pages.len() > 0 {
            lemma_page_record_status(filename, pages[i], i as nat, engine_ready());
        }
    }
}

/// Reading the same pages of the same file twice gives the same records.
pub proof fn lemma_extraction_repeats(
    filename: Seq<char>,
    pages: Seq<Seq<Fragment>>,
    first: Seq<InvoiceView>,
    second: Seq<InvoiceView>,
)
    requires
        first == batch_records(filename, pages),
        second == batch_records(filename, pages),
    ensures
        first == second,
{
}

/// Whether the `regex` crate accepts every pattern that the engine brings
/// along.
pub fn check_engine() -> (ready: bool)
    ensures
        ready == engine_ready(),
{
    pattern_ready(TITLE_PATTERN) && pattern_ready(CODE_PATTERN) && pattern_ready(NUMBER_PATTERN)
        && pattern_ready(DATE_PATTERN) && pattern_ready(CHECKSUM_PATTERN) && pattern_ready(
        DRAWER_PATTERN,
    ) && pattern_ready(PAYEE_PATTERN) && pattern_ready(REVIEWER_PATTERN) && pattern_ready(
        PARTY_NAME_PATTERN,
    ) && pattern_ready(PARTY_TAX_CODE_PATTERN) && pattern_ready(PARTY_ADDRESS_PATTERN)
        && pattern_ready(PARTY_BANK_PATTERN) && pattern_ready(IN_FIGURES_PATTERN) && pattern_ready(
        QUANTITY_FORMAT,
    ) && pattern_ready(MONEY_FORMAT) && pattern_ready(AMOUNT_FORMAT) && pattern_ready(
        NUMBER_FORMAT,
    )
}

/// The title of a page: the text of the title item that was found, or the
/// generic title where none was, and behind it the page's number in brackets
/// on every page but the first.
pub fn title_for(found: Option<&str>, page_index: usize) -> (title: String)
    ensures
        title@ == title_text(
            match found {
                Some(text) => Some(text@),
                None => None,
            },
            page_index as nat,
        ),
{
    match found {
        Some(text) => title_of_page(text, page_index),
        None => title_of_page(GENERIC_TITLE, page_index),
    }
}

/// The type of an invoice with the given title.
pub fn type_for(title: &str) -> (invoice_type: String)
    ensures
        invoice_type@ == type_of_title(title@),
{
    if contains_str(title, VAT_KEYWORD) {
        INVOICE_TYPE_VAT.to_owned()
    } else {
        INVOICE_TYPE_GENERAL.to_owned()
    }
}

/// The title followed by the page suffix.
fn title_of_page(title: &str, page_index: usize) -> (full: String)
    ensures
        full@ == title@ + page_suffix(page_index as nat),
{
    if page_index == 0 {
        assert(title@ + page_suffix(0) =~= title@);
        title.to_owned()
    } else {
        let mut full = chars_of(title);
        append_chars(&mut full, &chars_of(TITLE_PAGE_OPEN));
        append_chars(&mut full, &decimal_chars(page_index as u128 + 1));
        append_chars(&mut full, &chars_of(TITLE_PAGE_CLOSE));
        assert(full@ =~= title@ + page_suffix(page_index as nat));
        string_of(&full)
    }
}

/// Reads title and type into the record.
fn extract_title(text_items: &[TextItem], invoice: &mut Invoice, page_index: usize)
    ensures
        final(invoice)@ == with_title(old(invoice)@, fragments(text_items@), page_index as nat),
{
    let at = find_landmark(text_items, TITLE_PATTERN);
    if at < text_items.len() {
        let text: &str = text_items[at].text.as_str();
        invoice.title = title_for(Some(text), page_index);
        invoice.invoice_type = type_for(text);
    } else {
        invoice.title = title_for(None, page_index);
    }
}

/// Reads a page into its record, stage by stage: index, title and type,
/// codes, buyer, seller, signatories, remark, table of goods, totals. A
/// field whose landmark is missing keeps what `invoice` holds, except that a
/// record without an item gets the stand-in item.
pub fn parse_generic_fapiao(text_items: &[TextItem], invoice: Invoice, page_index: usize) -> (parsed:
    Invoice)
    requires
        page_index < usize::MAX,
    ensures
        parsed@ == parsed_page(invoice@, fragments(text_items@), page_index as nat),
        parsed@.status == invoice@.status,
        parsed@.index == page_index + 1,
        parsed.items.len() > 0,
{
    let mut invoice = invoice;
    invoice.index = page_index + 1;
    extract_title(text_items, &mut invoice, page_index);
    invoice.code = extract_nearby_text(text_items, CODE_PATTERN, RIGHT, CODE_REACH);
    invoice.number = extract_nearby_text(text_items, NUMBER_PATTERN, RIGHT, NUMBER_REACH);
    invoice.date = extract_nearby_text(text_items, DATE_PATTERN, RIGHT, DATE_REACH);
    invoice.checksum = extract_nearby_text(text_items, CHECKSUM_PATTERN, RIGHT, CHECKSUM_REACH);
    extract_party_info(text_items, &mut invoice, BUYER_HEADER, false);
    extract_party_info(text_items, &mut invoice, SELLER_HEADER, true);
    invoice.drawer = extract_nearby_text(text_items, DRAWER_PATTERN, RIGHT, SIGNATORY_REACH);
    invoice.payee = extract_nearby_text(text_items, PAYEE_PATTERN, RIGHT, SIGNATORY_REACH);
    invoice.reviewer = extract_nearby_text(text_items, REVIEWER_PATTERN, RIGHT, SIGNATORY_REACH);
    extract_remark_info(text_items, &mut invoice);
    extract_invoice_items(text_items, &mut invoice);
    if invoice.items.len() == 0 {
        invoice.items.push(stand_in_item(UNRECOGNIZED_ITEM));
        assert(invoice@.items =~= or_stand_in(Seq::empty()));
    }
    extract_total_amount_and_tax(text_items, &mut invoice);
    invoice
}

/// The record of a page that could not be parsed.
pub fn failed_invoice(filename: &str, page_index: usize, remark: &str) -> (invoice: Invoice)
    requires
        page_index < usize::MAX,
    ensures
        invoice@ == failed_record(filename@, page_index as nat, remark@),
{
    let mut invoice = create_empty_invoice(filename, STATUS_FAILED, page_index);
    invoice.index = page_index + 1;
    invoice.remark = remark.to_owned();
    invoice
}

/// Reads one page into its record. `ready` says whether the engine can run:
/// where it cannot, a page with fragments fails too.
pub fn parse_page(filename: &str, text_items: &[TextItem], page_index: usize, ready: bool) -> (invoice:
    Invoice)
    requires
        page_index < usize::MAX,
    ensures
        invoice@ == page_record(filename@, fragments(text_items@), page_index as nat, ready),
{
    if text_items.len() == 0 {
        failed_invoice(filename, page_index, REMARK_NO_TEXT)
    } else if !ready {
        failed_invoice(filename, page_index, REMARK_FAULT)
    } else {
        let invoice = create_empty_invoice(filename, STATUS_PENDING, page_index);
        parse_generic_fapiao(text_items, invoice, page_index)
    }
}

/// Reads the pages of one file into records: one record per page, in the
/// order of the pages. A page without fragments, and every page if the
/// engine cannot run, gives a failed record; no page at all gives a single
/// failed record. Nothing else fails, and no failure ends the batch.
pub fn parse_invoice_text(filename: &str, pages_text_items: Vec<Vec<TextItem>>) -> (invoices: Vec<
    Invoice,
>)
    ensures
        invoice_views(invoices@) == batch_records(filename@, page_views(pages_text_items@)),
        pages_text_items.len() > 0 ==> invoices.len() == pages_text_items.len(),
        pages_text_items.len() == 0 ==> invoices.len() == 1,
        forall|i: int|
            0 <= i < invoices.len() ==> {
                let record = (#[trigger] invoices[i])@;
                &&& (record.status == STATUS_PENDING@ || record.status == STATUS_FAILED@)
                &&& (record.status == STATUS_FAILED@ ==> is_failed_record(
                    record,
                    filename@,
                    i as nat,
                ))
                &&& record.index == i + 1
                &&& (record.status == STATUS_PENDING@ ==> record.items.len() > 0)
            },
{
    let ghost pages = page_views(pages_text_items@);
    let mut invoices: Vec<Invoice> = Vec::new();
    if pages_text_items.len() == 0 {
        invoices.push(failed_invoice(filename, 0, REMARK_NO_INVOICE));
    } else {
        let ready = check_engine();
        let mut page_index: usize = 0;
        while page_index < pages_text_items.len()
            invariant
                page_index <= pages_text_items.len(),
                ready == engine_ready(),
                pages == page_views(pages_text_items@),
                invoices.len() == page_index,
                forall|i: int|
                    0 <= i < page_index ==> (#[trigger] invoices[i])@ == page_record(
                        filename@,
                        pages[i],
                        i as nat,
                        ready,
                    ),
            decreases pages_text_items.len() - page_index,
        {
            let invoice = parse_page(
                filename,
                pages_text_items[page_index].as_slice(),
                page_index,
                ready,
            );
            invoices.push(invoice);
            page_index += 1;
        }
    }
    proof {
        assert(invoice_views(invoices@) =~= batch_records(filename@, pages));
        lemma_batch_records(filename@, pages);
        assert forall|i: int| 0 <= i < invoices.len() implies {
            let record = (#[trigger] invoices[i])@;
            &&& (record.status == STATUS_PENDING@ || record.status == STATUS_FAILED@)
            &&& (record.status == STATUS_FAILED@ ==> is_failed_record(record, filename@, i as nat))
            &&& record.index == i + 1
            &&& (record.status == STATUS_PENDING@ ==> record.items.len() > 0)
        } by {
            assert(invoice_views(invoices@)[i] == invoices[i]@);
            assert(batch_records(filename@, pages)[i] == invoices[i]@);
        }
    }
    invoices
}

} // verus!
