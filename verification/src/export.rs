//! What a sheet of records shows: its columns, the text of each cell, and
//! the groups of duplicates that share a colour.

use crate::model::{invoice_views, Invoice, InvoiceView};
use crate::scan::{first_index, lemma_first_index};
use crate::text::{decimal, decimal_chars, str_eq, string_of};
use crate::words::STATUS_DUPLICATE;
use vstd::prelude::*;

verus! {

/// Heading of the column that shows the record's number.
pub const FIELD_INDEX: &'static str = "序号";

/// Heading of the column that shows the file name.
pub const FIELD_FILENAME: &'static str = "文件名";

/// Heading of the column that shows the status.
pub const FIELD_STATUS: &'static str = "状态";

/// Heading of the column that shows the invoice code.
pub const FIELD_CODE: &'static str = "发票代码";

/// Heading of the column that shows the invoice number.
pub const FIELD_NUMBER: &'static str = "发票号码";

/// Heading of the column that shows the date of issue.
pub const FIELD_DATE: &'static str = "开票日期";

/// Heading of the column that shows the buyer's name.
pub const FIELD_BUYER_NAME: &'static str = "购买方名称";

/// Heading of the column that shows the buyer's taxpayer number.
pub const FIELD_BUYER_TAX_CODE: &'static str = "购买方税号";

/// Heading of the column that shows the buyer's address and telephone.
pub const FIELD_BUYER_ADDRESS_PHONE: &'static str = "购买方地址、电话";

/// Heading of the column that shows the buyer's bank and account.
pub const FIELD_BUYER_BANK_ACCOUNT: &'static str = "购买方开户行账号";

/// Heading of the column that shows the seller's name.
pub const FIELD_SELLER_NAME: &'static str = "销售方名称";

/// Heading of the column that shows the seller's taxpayer number.
pub const FIELD_SELLER_TAX_CODE: &'static str = "销售方税号";

/// Heading of the column that shows the seller's address and telephone.
pub const FIELD_SELLER_ADDRESS_PHONE: &'static str = "销售方地址电话";

/// Heading of the column that shows the seller's bank and account.
pub const FIELD_SELLER_BANK_ACCOUNT: &'static str = "销售方开户行账号";

/// Heading of the column that shows the payee.
pub const FIELD_PAYEE: &'static str = "收款人";

/// Heading of the column that shows the person who checked the invoice.
pub const FIELD_REVIEWER: &'static str = "复核人";

/// Heading of the column that shows the drawer.
pub const FIELD_DRAWER: &'static str = "开票人";

/// Heading of the column that shows the total amount.
pub const FIELD_TOTAL_AMOUNT: &'static str = "金额";

/// Heading of the column that shows the total tax.
pub const FIELD_TOTAL_TAX: &'static str = "税额";

/// Heading of the column that shows the total with tax.
pub const FIELD_TOTAL_AMOUNT_TAX: &'static str = "价税合计";

/// Heading of the column that shows the remark.
pub const FIELD_REMARK: &'static str = "备注";

/// Heading of the column that shows what is known of a duplicate.
pub const FIELD_DUPLICATE_INFO: &'static str = "重复信息";

/// How many colours the groups of duplicates take turns with.
pub const GROUP_COLOURS: usize = 5;

/// A column of the sheet.
#[derive(Debug, Clone, Copy)]
pub enum Field {
    Index,
    Filename,
    Status,
    Code,
    Number,
    Date,
    BuyerName,
    BuyerTaxCode,
    BuyerAddressPhone,
    BuyerBankAccount,
    SellerName,
    SellerTaxCode,
    SellerAddressPhone,
    SellerBankAccount,
    Payee,
    Reviewer,
    Drawer,
    TotalAmount,
    TotalTax,
    TotalAmountTax,
    Remark,
    DuplicateInfo,
}

/// The column with the given heading, if there is one.
pub open spec fn field_named(name: Seq<char>) -> Option<Field> {
    if name == FIELD_INDEX@ {
        Some(Field::Index)
    } else if name == FIELD_FILENAME@ {
        Some(Field::Filename)
    } else if name == FIELD_STATUS@ {
        Some(Field::Status)
    } else if name == FIELD_CODE@ {
        Some(Field::Code)
    } else if name == FIELD_NUMBER@ {
        Some(Field::Number)
    } else if name == FIELD_DATE@ {
        Some(Field::Date)
    } else if name == FIELD_BUYER_NAME@ {
        Some(Field::BuyerName)
    } else if name == FIELD_BUYER_TAX_CODE@ {
        Some(Field::BuyerTaxCode)
    } else if name == FIELD_BUYER_ADDRESS_PHONE@ {
        Some(Field::BuyerAddressPhone)
    } else if name == FIELD_BUYER_BANK_ACCOUNT@ {
        Some(Field::BuyerBankAccount)
    } else if name == FIELD_SELLER_NAME@ {
        Some(Field::SellerName)
    } else if name == FIELD_SELLER_TAX_CODE@ {
        Some(Field::SellerTaxCode)
    } else if name == FIELD_SELLER_ADDRESS_PHONE@ {
        Some(Field::SellerAddressPhone)
    } else if name == FIELD_SELLER_BANK_ACCOUNT@ {
        Some(Field::SellerBankAccount)
    } else if name == FIELD_PAYEE@ {
        Some(Field::Payee)
    } else if name == FIELD_REVIEWER@ {
        Some(Field::Reviewer)
    } else if name == FIELD_DRAWER@ {
        Some(Field::Drawer)
    } else if name == FIELD_TOTAL_AMOUNT@ {
        Some(Field::TotalAmount)
    } else if name == FIELD_TOTAL_TAX@ {
        Some(Field::TotalTax)
    } else if name == FIELD_TOTAL_AMOUNT_TAX@ {
        Some(Field::TotalAmountTax)
    } else if name == FIELD_REMARK@ {
        Some(Field::Remark)
    } else if name == FIELD_DUPLICATE_INFO@ {
        Some(Field::DuplicateInfo)
    } else {
        None
    }
}

/// The heading of a column.
pub open spec fn heading(field: Field) -> Seq<char> {
    match field {
        Field::Index => FIELD_INDEX@,
        Field::Filename => FIELD_FILENAME@,
        Field::Status => FIELD_STATUS@,
        Field::Code => FIELD_CODE@,
        Field::Number => FIELD_NUMBER@,
        Field::Date => FIELD_DATE@,
        Field::BuyerName => FIELD_BUYER_NAME@,
        Field::BuyerTaxCode => FIELD_BUYER_TAX_CODE@,
        Field::BuyerAddressPhone => FIELD_BUYER_ADDRESS_PHONE@,
        Field::BuyerBankAccount => FIELD_BUYER_BANK_ACCOUNT@,
        Field::SellerName => FIELD_SELLER_NAME@,
        Field::SellerTaxCode => FIELD_SELLER_TAX_CODE@,
        Field::SellerAddressPhone => FIELD_SELLER_ADDRESS_PHONE@,
        Field::SellerBankAccount => FIELD_SELLER_BANK_ACCOUNT@,
        Field::Payee => FIELD_PAYEE@,
        Field::Reviewer => FIELD_REVIEWER@,
        Field::Drawer => FIELD_DRAWER@,
        Field::TotalAmount => FIELD_TOTAL_AMOUNT@,
        Field::TotalTax => FIELD_TOTAL_TAX@,
        Field::TotalAmountTax => FIELD_TOTAL_AMOUNT_TAX@,
        Field::Remark => FIELD_REMARK@,
        Field::DuplicateInfo => FIELD_DUPLICATE_INFO@,
    }
}

/// The width of a column, in characters.
pub open spec fn width_of(field: Field) -> u16 {
    match field {
        Field::Index => 10,
        Field::Filename => 30,
        Field::Status => 10,
        Field::Code => 20,
        Field::Number => 20,
        Field::Date => 15,
        Field::BuyerName => 30,
        Field::BuyerTaxCode => 25,
        Field::BuyerAddressPhone => 40,
        Field::BuyerBankAccount => 40,
        Field::SellerName => 30,
        Field::SellerTaxCode => 25,
        Field::SellerAddressPhone => 40,
        Field::SellerBankAccount => 40,
        Field::Payee => 15,
        Field::Reviewer => 15,
        Field::Drawer => 15,
        Field::TotalAmount => 15,
        Field::TotalTax => 15,
        Field::TotalAmountTax => 15,
        Field::Remark => 30,
        Field::DuplicateInfo => 20,
    }
}

/// The text that a record shows in a column.
pub open spec fn cell_text(invoice: InvoiceView, field: Field) -> Seq<char> {
    match field {
        Field::Index => decimal(invoice.index),
        Field::Filename => invoice.filename,
        Field::Status => invoice.status,
        Field::Code => invoice.code,
        Field::Number => invoice.number,
        Field::Date => invoice.date,
        Field::BuyerName => invoice.buyer.name,
        Field::BuyerTaxCode => invoice.buyer.tax_code,
        Field::BuyerAddressPhone => invoice.buyer.address_phone,
        Field::BuyerBankAccount => invoice.buyer.bank_account,
        Field::SellerName => invoice.seller.name,
        Field::SellerTaxCode => invoice.seller.tax_code,
        Field::SellerAddressPhone => invoice.seller.address_phone,
        Field::SellerBankAccount => invoice.seller.bank_account,
        Field::Payee => invoice.payee,
        Field::Reviewer => invoice.reviewer,
        Field::Drawer => invoice.drawer,
        Field::TotalAmount => invoice.total_amount,
        Field::TotalTax => invoice.total_tax,
        Field::TotalAmountTax => invoice.total_amount_tax,
        Field::Remark => invoice.remark,
        Field::DuplicateInfo => invoice.duplicate_info,
    }
}

/// The columns of a sheet for which none were chosen: all of them.
pub open spec fn all_fields() -> Seq<Field> {
    seq![
        Field::Index,
        Field::Filename,
        Field::Status,
        Field::Code,
        Field::Number,
        Field::Date,
        Field::BuyerName,
        Field::BuyerTaxCode,
        Field::BuyerAddressPhone,
        Field::BuyerBankAccount,
        Field::SellerName,
        Field::SellerTaxCode,
        Field::SellerAddressPhone,
        Field::SellerBankAccount,
        Field::Payee,
        Field::Reviewer,
        Field::Drawer,
        Field::TotalAmount,
        Field::TotalTax,
        Field::TotalAmountTax,
        Field::Remark,
        Field::DuplicateInfo,
    ]
}

/// Accepts the records that share code and number with `record`.
pub open spec fn same_invoice(record: InvoiceView) -> spec_fn(InvoiceView) -> bool {
    |other: InvoiceView| other.code == record.code && other.number == record.number
}

/// Whether the record is marked as a duplicate.
pub open spec fn is_duplicate(record: InvoiceView) -> bool {
    record.status == STATUS_DUPLICATE@
}

/// One record for each group of duplicates among the first `upto` records:
/// the first duplicate with its code and number, in the order of the
/// records.
pub open spec fn group_leaders(records: Seq<InvoiceView>, upto: int) -> Seq<InvoiceView>
    decreases upto,
{
    if upto <= 0 {
        Seq::empty()
    } else {
        let before = group_leaders(records, upto - 1);
        let record = records[upto - 1];
        if is_duplicate(record) && first_index(before, same_invoice(record)) >= before.len() {
            before.push(record)
        } else {
            before
        }
    }
}

/// The number of the group of duplicates that the record at `position`
/// belongs to. Groups are numbered from zero in the order in which their
/// first record comes. A record that is not a duplicate has no group.
pub open spec fn group_of(records: Seq<InvoiceView>, position: int) -> Option<nat> {
    if is_duplicate(records[position]) {
        Some(
            first_index(
                group_leaders(records, records.len() as int),
                same_invoice(records[position]),
            ) as nat,
        )
    } else {
        None
    }
}

/// The group of each record.
pub open spec fn groups(records: Seq<InvoiceView>) -> Seq<Option<nat>> {
    Seq::new(records.len(), |i: int| group_of(records, i))
}

/// What a list of groups stands for.
pub open spec fn group_views(found: Seq<Option<usize>>) -> Seq<Option<nat>> {
    Seq::new(
        found.len(),
        |i: int|
            match found[i] {
                Some(g) => Some(g as nat),
                None => None,
            },
    )
}

/// The colour of a group, as its place among the colours.
pub open spec fn colour_of(group: nat) -> nat {
    group % (GROUP_COLOURS as nat)
}

/// The greatest row number that the plan of a sheet may use.
pub const LAST_ROW: u64 = 0xFFFF_FFFF;

/// The first row of the second sheet that is free once the first `upto`
/// records have been set down: the row behind the heading, and one row
/// further for every item of these records.
pub open spec fn free_row(records: Seq<InvoiceView>, upto: int) -> nat
    decreases upto,
{
    if upto <= 0 {
        1
    } else {
        free_row(records, upto - 1) + records[upto - 1].items.len()
    }
}

/// The rows that the record at `position` takes on the second sheet, first
/// and last: one row for each of its items. A record without items takes
/// none.
pub open spec fn rows_of(records: Seq<InvoiceView>, position: int) -> Option<(nat, nat)> {
    if records[position].items.len() == 0 {
        None
    } else {
        Some(
            (
                free_row(records, position),
                (free_row(records, position) + records[position].items.len() - 1) as nat,
            ),
        )
    }
}

/// What a plan of rows stands for.
pub open spec fn plan_view(plan: Seq<Option<(u32, u32)>>) -> Seq<Option<(nat, nat)>> {
    Seq::new(
        plan.len(),
        |i: int|
            match plan[i] {
                Some((first, last)) => Some((first as nat, last as nat)),
                None => None,
            },
    )
}

/// The rows of each record on the second sheet.
pub open spec fn row_plan(records: Seq<InvoiceView>) -> Seq<Option<(nat, nat)>> {
    Seq::new(records.len(), |i: int| rows_of(records, i))
}

/// The free row lies behind the heading.
pub proof fn lemma_free_row_is_behind_heading(records: Seq<InvoiceView>, upto: int)
    ensures
        1 <= free_row(records, upto),
    decreases upto,
{
    if upto > 0 {
        lemma_free_row_is_behind_heading(records, upto - 1);
    }
}

/// The free row never moves back.
pub proof fn lemma_free_row_grows(records: Seq<InvoiceView>, upto: int, later: int)
    requires
        upto <= later,
    ensures
        free_row(records, upto) <= free_row(records, later),
    decreases later - upto,
{
    if upto < later {
        lemma_free_row_grows(records, upto, later - 1);
        lemma_free_row_is_behind_heading(records, later - 1);
    }
}

/// The column with the given heading, if there is one.
pub fn field_of(name: &str) -> (field: Option<Field>)
    ensures
        field == field_named(name@),
{

    if str_eq(name, FIELD_INDEX) {
        Some(Field::Index)
    } else if str_eq(name, FIELD_FILENAME) {
        Some(Field::Filename)
    } else if str_eq(name, FIELD_STATUS) {
        Some(Field::Status)
    } else if str_eq(name, FIELD_CODE) {
        Some(Field::Code)
    } else if str_eq(name, FIELD_NUMBER) {
        Some(Field::Number)
    } else if str_eq(name, FIELD_DATE) {
        Some(Field::Date)
    } else if str_eq(name, FIELD_BUYER_NAME) {
        Some(Field::BuyerName)
    } else if str_eq(name, FIELD_BUYER_TAX_CODE) {
        Some(Field::BuyerTaxCode)
    } else if str_eq(name, FIELD_BUYER_ADDRESS_PHONE) {
        Some(Field::BuyerAddressPhone)
    } else if str_eq(name, FIELD_BUYER_BANK_ACCOUNT) {
        Some(Field::BuyerBankAccount)
    } else if str_eq(name, FIELD_SELLER_NAME) {
        Some(Field::SellerName)
    } else if str_eq(name, FIELD_SELLER_TAX_CODE) {
        Some(Field::SellerTaxCode)
    } else if str_eq(name, FIELD_SELLER_ADDRESS_PHONE) {
        Some(Field::SellerAddressPhone)
    } else if str_eq(name, FIELD_SELLER_BANK_ACCOUNT) {
        Some(Field::SellerBankAccount)
    } else if str_eq(name, FIELD_PAYEE) {
        Some(Field::Payee)
    } else if str_eq(name, FIELD_REVIEWER) {
        Some(Field::Reviewer)
    } else if str_eq(name, FIELD_DRAWER) {
        Some(Field::Drawer)
    } else if str_eq(name, FIELD_TOTAL_AMOUNT) {
        Some(Field::TotalAmount)
    } else if str_eq(name, FIELD_TOTAL_TAX) {
        Some(Field::TotalTax)
    } else if str_eq(name, FIELD_TOTAL_AMOUNT_TAX) {
        Some(Field::TotalAmountTax)
    } else if str_eq(name, FIELD_REMARK) {
        Some(Field::Remark)
    } else if str_eq(name, FIELD_DUPLICATE_INFO) {
        Some(Field::DuplicateInfo)
    } else {
        None
    }
}

/// The heading of a column.
pub fn heading_of(field: Field) -> (name: &'static str)
    ensures
        name@ == heading(field),
{
    match field {
        Field::Index => FIELD_INDEX,
        Field::Filename => FIELD_FILENAME,
        Field::Status => FIELD_STATUS,
        Field::Code => FIELD_CODE,
        Field::Number => FIELD_NUMBER,
        Field::Date => FIELD_DATE,
        Field::BuyerName => FIELD_BUYER_NAME,
        Field::BuyerTaxCode => FIELD_BUYER_TAX_CODE,
        Field::BuyerAddressPhone => FIELD_BUYER_ADDRESS_PHONE,
        Field::BuyerBankAccount => FIELD_BUYER_BANK_ACCOUNT,
        Field::SellerName => FIELD_SELLER_NAME,
        Field::SellerTaxCode => FIELD_SELLER_TAX_CODE,
        Field::SellerAddressPhone => FIELD_SELLER_ADDRESS_PHONE,
        Field::SellerBankAccount => FIELD_SELLER_BANK_ACCOUNT,
        Field::Payee => FIELD_PAYEE,
        Field::Reviewer => FIELD_REVIEWER,
        Field::Drawer => FIELD_DRAWER,
        Field::TotalAmount => FIELD_TOTAL_AMOUNT,
        Field::TotalTax => FIELD_TOTAL_TAX,
        Field::TotalAmountTax => FIELD_TOTAL_AMOUNT_TAX,
        Field::Remark => FIELD_REMARK,
        Field::DuplicateInfo => FIELD_DUPLICATE_INFO,
    }
}

/// The width of a column, in characters.
pub fn column_width(field: Field) -> (width: u16)
    ensures
        width == width_of(field),
{
    match field {
        Field::Index => 10,
        Field::Filename => 30,
        Field::Status => 10,
        Field::Code => 20,
        Field::Number => 20,
        Field::Date => 15,
        Field::BuyerName => 30,
        Field::BuyerTaxCode => 25,
        Field::BuyerAddressPhone => 40,
        Field::BuyerBankAccount => 40,
        Field::SellerName => 30,
        Field::SellerTaxCode => 25,
        Field::SellerAddressPhone => 40,
        Field::SellerBankAccount => 40,
        Field::Payee => 15,
        Field::Reviewer => 15,
        Field::Drawer => 15,
        Field::TotalAmount => 15,
        Field::TotalTax => 15,
        Field::TotalAmountTax => 15,
        Field::Remark => 30,
        Field::DuplicateInfo => 20,
    }
}

/// The text that a record shows in a column.
pub fn export_cell(invoice: &Invoice, field: Field) -> (text: String)
    ensures
        text@ == cell_text(invoice@, field),
{
    match field {
        Field::Index => string_of(&decimal_chars(invoice.index as u128)),
        Field::Filename => invoice.filename.clone(),
        Field::Status => invoice.status.clone(),
        Field::Code => invoice.code.clone(),
        Field::Number => invoice.number.clone(),
        Field::Date => invoice.date.clone(),
        Field::BuyerName => invoice.buyer.name.clone(),
        Field::BuyerTaxCode => invoice.buyer.tax_code.clone(),
        Field::BuyerAddressPhone => invoice.buyer.address_phone.clone(),
        Field::BuyerBankAccount => invoice.buyer.bank_account.clone(),
        Field::SellerName => invoice.seller.name.clone(),
        Field::SellerTaxCode => invoice.seller.tax_code.clone(),
        Field::SellerAddressPhone => invoice.seller.address_phone.clone(),
        Field::SellerBankAccount => invoice.seller.bank_account.clone(),
        Field::Payee => invoice.payee.clone(),
        Field::Reviewer => invoice.reviewer.clone(),
        Field::Drawer => invoice.drawer.clone(),
        Field::TotalAmount => invoice.total_amount.clone(),
        Field::TotalTax => invoice.total_tax.clone(),
        Field::TotalAmountTax => invoice.total_amount_tax.clone(),
        Field::Remark => invoice.remark.clone(),
        Field::DuplicateInfo => invoice.duplicate_info.clone(),
    }
}

/// The columns of a sheet for which none were chosen: all of them.
pub fn default_fields() -> (fields: Vec<Field>)
    ensures
        fields@ == all_fields(),
{
    let mut fields: Vec<Field> = Vec::new();
    fields.push(Field::Index);
    fields.push(Field::Filename);
    fields.push(Field::Status);
    fields.push(Field::Code);
    fields.push(Field::Number);
    fields.push(Field::Date);
    fields.push(Field::BuyerName);
    fields.push(Field::BuyerTaxCode);
    fields.push(Field::BuyerAddressPhone);
    fields.push(Field::BuyerBankAccount);
    fields.push(Field::SellerName);
    fields.push(Field::SellerTaxCode);
    fields.push(Field::SellerAddressPhone);
    fields.push(Field::SellerBankAccount);
    fields.push(Field::Payee);
    fields.push(Field::Reviewer);
    fields.push(Field::Drawer);
    fields.push(Field::TotalAmount);
    fields.push(Field::TotalTax);
    fields.push(Field::TotalAmountTax);
    fields.push(Field::Remark);
    fields.push(Field::DuplicateInfo);
    assert(fields@ =~= all_fields());
    fields
}

/// The colour of a group, as its place among the colours.
pub fn group_colour(group: usize) -> (colour: usize)
    ensures
        colour == colour_of(group as nat),
        colour < GROUP_COLOURS,
{
    group % GROUP_COLOURS
}

/// The group of duplicates of each record. Records with the duplicate
/// status that share code and number form a group; groups are numbered from
/// zero in the order in which their first record comes.
pub fn duplicate_groups(invoices: &[Invoice]) -> (found: Vec<Option<usize>>)
    ensures
        group_views(found@) == groups(invoice_views(invoices@)),
        found.len() == invoices.len(),
{
    let ghost records = invoice_views(invoices@);
    let mut leaders: Vec<usize> = Vec::new();
    let mut i: usize = 0;
    while i < invoices.len()
        invariant
            i <= invoices.len(),
            records == invoice_views(invoices@),
            leaders.len() == group_leaders(records, i as int).len(),
            forall|k: int|
                0 <= k < leaders.len() ==> (#[trigger] leaders[k]) < i && records[leaders[k] as int]
                    == group_leaders(records, i as int)[k],
        decreases invoices.len() - i,
    {
        let invoice: &Invoice = &invoices[i];
        assert(records[i as int] == invoice@);
        if str_eq(invoice.status.as_str(), STATUS_DUPLICATE) {
            let at = find_leader(invoices, &leaders, invoice, Ghost(group_leaders(records, i as int)));
            if at >= leaders.len() {
                leaders.push(i);
            }
        }
        i += 1;
    }
    let mut found: Vec<Option<usize>> = Vec::new();
    let mut n: usize = 0;
    while n < invoices.len()
        invariant
            n <= invoices.len(),
            found.len() == n,
            records == invoice_views(invoices@),
            leaders.len() == group_leaders(records, invoices.len() as int).len(),
            forall|k: int|
                0 <= k < leaders.len() ==> (#[trigger] leaders[k]) < invoices.len()
                    && records[leaders[k] as int] == group_leaders(
                    records,
                    invoices.len() as int,
                )[k],
            forall|k: int|
                0 <= k < n ==> match #[trigger] found[k] {
                    Some(g) => Some(g as nat),
                    None => None,
                } == group_of(records, k),
        decreases invoices.len() - n,
    {
        let invoice: &Invoice = &invoices[n];
        assert(records[n as int] == invoice@);
        if str_eq(invoice.status.as_str(), STATUS_DUPLICATE) {
            let at = find_leader(
                invoices,
                &leaders,
                invoice,
                Ghost(group_leaders(records, invoices.len() as int)),
            );
            found.push(Some(at));
        } else {
            found.push(None);
        }
        n += 1;
    }
    assert(group_views(found@) =~= groups(records));
    found
}

/// The rows that each record takes on the second sheet, first and last:
/// one row for each item, the records one below the other from the row
/// behind the heading. A record without items takes no row. There is no
/// plan if the items need a row beyond `LAST_ROW`.
pub fn detail_rows(invoices: &[Invoice]) -> (plan: Option<Vec<Option<(u32, u32)>>>)
    ensures
        plan is Some <==> free_row(invoice_views(invoices@), invoices.len() as int) <= LAST_ROW
            + 1,
        plan matches Some(rows) ==> plan_view(rows@) == row_plan(invoice_views(invoices@)),
{
    let ghost records = invoice_views(invoices@);
    let mut rows: Vec<Option<(u32, u32)>> = Vec::new();
    let mut row: u64 = 1;
    let mut i: usize = 0;
    while i < invoices.len()
        invariant
            i <= invoices.len(),
            records == invoice_views(invoices@),
            rows.len() == i,
            row == free_row(records, i as int),
            1 <= row <= LAST_ROW + 1,
            forall|k: int|
                0 <= k < i ==> match #[trigger] rows[k] {
                    Some((first, last)) => Some((first as nat, last as nat)),
                    None => None,
                } == rows_of(records, k),
        decreases invoices.len() - i,
    {
        let count: usize = invoices[i].items.len();
        assert(records[i as int] == invoices[i as int]@);
        assert(records[i as int].items.len() == count);
        if count == 0 {
            rows.push(None);
        } else {
            if count as u64 > LAST_ROW + 1 - row {
                proof {
                    lemma_free_row_grows(records, i + 1, invoices.len() as int);
                }
                return None;
            }
            let last: u64 = row + count as u64 - 1;
            rows.push(Some((row as u32, last as u32)));
            row = last + 1;
        }
        i += 1;
    }
    assert(plan_view(rows@) =~= row_plan(records));
    Some(rows)
}

/// The place among the leaders of the first one that shares code and number
/// with `invoice`, or the number of leaders if none does.
fn find_leader(
    invoices: &[Invoice],
    leaders: &Vec<usize>,
    invoice: &Invoice,
    Ghost(spec_leaders): Ghost<Seq<InvoiceView>>,
) -> (at: usize)
    requires
        leaders.len() == spec_leaders.len(),
        forall|k: int|
            0 <= k < leaders.len() ==> (#[trigger] leaders[k]) < invoices.len() && invoice_views(
                invoices@,
            )[leaders[k] as int] == spec_leaders[k],
    ensures
        at == first_index(spec_leaders, same_invoice(invoice@)),
        at <= leaders.len(),
{
    let ghost want = same_invoice(invoice@);
    let mut k: usize = 0;
    while k < leaders.len()
        invariant
            k <= leaders.len(),
            want == same_invoice(invoice@),
            leaders.len() == spec_leaders.len(),
            forall|j: int|
                0 <= j < leaders.len() ==> (#[trigger] leaders[j]) < invoices.len()
                    && invoice_views(invoices@)[leaders[j] as int] == spec_leaders[j],
            forall|j: int| 0 <= j < k ==> !want(#[trigger] spec_leaders[j]),
        decreases leaders.len() - k,
    {
        let leader: &Invoice = &invoices[leaders[k]];
        assert(invoice_views(invoices@)[leaders[k as int] as int] == leader@);
        if str_eq(leader.code.as_str(), invoice.code.as_str()) && str_eq(
            leader.number.as_str(),
            invoice.number.as_str(),
        ) {
            proof {
                lemma_first_index(spec_leaders, want, k as int);
            }
            return k;
        }
        k += 1;
    }
    proof {
        lemma_first_index(spec_leaders, want, k as int);
    }
    k
}

} // verus!
