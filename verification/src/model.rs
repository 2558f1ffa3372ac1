//! The records the engine reads and writes, each with its mathematical view.

use crate::text::{append_chars, chars_of, decimal, decimal_chars, string_of};
use crate::words::{FILENAME_PAGE_CLOSE, FILENAME_PAGE_OPEN, ZERO_AMOUNT};
use vstd::prelude::*;

verus! {

/// One positioned piece of text on a page. Coordinates and sizes are in
/// thousandths of a page unit; `x` and `y` give the top-left corner.
#[derive(Debug, Clone)]
pub struct TextItem {
    pub text: String,
    pub x: i64,
    pub y: i64,
    pub width: i64,
    pub height: i64,
    pub page_index: usize,
    pub font_name: Option<String>,
}

/// What a `TextItem` stands for.
pub struct Fragment {
    pub text: Seq<char>,
    pub x: int,
    pub y: int,
    pub width: int,
    pub height: int,
    pub page_index: nat,
    pub font_name: Option<Seq<char>>,
}

impl View for TextItem {
    type V = Fragment;

    open spec fn view(&self) -> Fragment {
        Fragment {
            text: self.text@,
            x: self.x as int,
            y: self.y as int,
            width: self.width as int,
            height: self.height as int,
            page_index: self.page_index as nat,
            font_name: match self.font_name {
                Some(name) => Some(name@),
                None => None,
            },
        }
    }
}

/// The fragments that a list of text items stands for.
pub open spec fn fragments(items: Seq<TextItem>) -> Seq<Fragment> {
    items.map_values(|t: TextItem| t@)
}

/// The fragments that a list of borrowed text items stands for.
pub open spec fn fragments_of_refs(items: Seq<&TextItem>) -> Seq<Fragment> {
    items.map_values(|t: &TextItem| t@)
}

/// One line of the table of goods. Every field keeps the printed text.
#[derive(Debug, Clone)]
pub struct InvoiceItem {
    pub name: String,
    pub quantity: String,
    pub price: String,
    pub amount: String,
    pub tax_rate: String,
    pub tax: String,
}

/// What an `InvoiceItem` stands for.
pub struct ItemView {
    pub name: Seq<char>,
    pub quantity: Seq<char>,
    pub price: Seq<char>,
    pub amount: Seq<char>,
    pub tax_rate: Seq<char>,
    pub tax: Seq<char>,
}

impl View for InvoiceItem {
    type V = ItemView;

    open spec fn view(&self) -> ItemView {
        ItemView {
            name: self.name@,
            quantity: self.quantity@,
            price: self.price@,
            amount: self.amount@,
            tax_rate: self.tax_rate@,
            tax: self.tax@,
        }
    }
}

/// The buyer or the seller of an invoice.
#[derive(Debug, Clone)]
pub struct InvoiceParty {
    pub name: String,
    pub tax_code: String,
    pub address_phone: String,
    pub bank_account: String,
}

/// What an `InvoiceParty` stands for.
pub struct PartyView {
    pub name: Seq<char>,
    pub tax_code: Seq<char>,
    pub address_phone: Seq<char>,
    pub bank_account: Seq<char>,
}

impl View for InvoiceParty {
    type V = PartyView;

    open spec fn view(&self) -> PartyView {
        PartyView {
            name: self.name@,
            tax_code: self.tax_code@,
            address_phone: self.address_phone@,
            bank_account: self.bank_account@,
        }
    }
}

/// The record of one page.
#[derive(Debug, Clone)]
pub struct Invoice {
    pub filename: String,
    pub index: usize,
    pub title: String,
    pub invoice_type: String,
    pub code: String,
    pub number: String,
    pub date: String,
    pub checksum: String,
    pub machine_number: String,
    pub password: String,
    pub remark: String,
    pub buyer: InvoiceParty,
    pub seller: InvoiceParty,
    pub items: Vec<InvoiceItem>,
    pub total_amount: String,
    pub total_tax: String,
    pub total_amount_tax: String,
    pub payee: String,
    pub reviewer: String,
    pub drawer: String,
    pub status: String,
    pub duplicate_info: String,
}

/// What an `Invoice` stands for.
pub struct InvoiceView {
    pub filename: Seq<char>,
    pub index: nat,
    pub title: Seq<char>,
    pub invoice_type: Seq<char>,
    pub code: Seq<char>,
    pub number: Seq<char>,
    pub date: Seq<char>,
    pub checksum: Seq<char>,
    pub machine_number: Seq<char>,
    pub password: Seq<char>,
    pub remark: Seq<char>,
    pub buyer: PartyView,
    pub seller: PartyView,
    pub items: Seq<ItemView>,
    pub total_amount: Seq<char>,
    pub total_tax: Seq<char>,
    pub total_amount_tax: Seq<char>,
    pub payee: Seq<char>,
    pub reviewer: Seq<char>,
    pub drawer: Seq<char>,
    pub status: Seq<char>,
    pub duplicate_info: Seq<char>,
}

/// What a list of items stands for.
pub open spec fn item_views(items: Seq<InvoiceItem>) -> Seq<ItemView> {
    items.map_values(|i: InvoiceItem| i@)
}

impl View for Invoice {
    type V = InvoiceView;

    open spec fn view(&self) -> InvoiceView {
        InvoiceView {
            filename: self.filename@,
            index: self.index as nat,
            title: self.title@,
            invoice_type: self.invoice_type@,
            code: self.code@,
            number: self.number@,
            date: self.date@,
            checksum: self.checksum@,
            machine_number: self.machine_number@,
            password: self.password@,
            remark: self.remark@,
            buyer: self.buyer@,
            seller: self.seller@,
            items: item_views(self.items@),
            total_amount: self.total_amount@,
            total_tax: self.total_tax@,
            total_amount_tax: self.total_amount_tax@,
            payee: self.payee@,
            reviewer: self.reviewer@,
            drawer: self.drawer@,
            status: self.status@,
            duplicate_info: self.duplicate_info@,
        }
    }
}

/// What a list of records stands for.
pub open spec fn invoice_views(invoices: Seq<Invoice>) -> Seq<InvoiceView> {
    invoices.map_values(|i: Invoice| i@)
}

/// A party of which nothing is known.
pub open spec fn empty_party() -> PartyView {
    PartyView {
        name: Seq::empty(),
        tax_code: Seq::empty(),
        address_phone: Seq::empty(),
        bank_account: Seq::empty(),
    }
}

/// The file name of a record: the source's name, and from the second page on
/// the page's number behind it.
pub open spec fn page_filename(filename: Seq<char>, page_index: nat) -> Seq<char> {
    if page_index > 0 {
        filename + FILENAME_PAGE_OPEN@ + decimal(page_index + 1) + FILENAME_PAGE_CLOSE@
    } else {
        filename
    }
}

/// The record a page starts with: every text empty, the three totals
/// `0.00`, no items, index zero.
pub open spec fn empty_invoice(filename: Seq<char>, status: Seq<char>, page_index: nat)
    -> InvoiceView {
    InvoiceView {
        filename: page_filename(filename, page_index),
        index: 0,
        title: Seq::empty(),
        invoice_type: Seq::empty(),
        code: Seq::empty(),
        number: Seq::empty(),
        date: Seq::empty(),
        checksum: Seq::empty(),
        machine_number: Seq::empty(),
        password: Seq::empty(),
        remark: Seq::empty(),
        buyer: empty_party(),
        seller: empty_party(),
        items: Seq::empty(),
        total_amount: ZERO_AMOUNT@,
        total_tax: ZERO_AMOUNT@,
        total_amount_tax: ZERO_AMOUNT@,
        payee: Seq::empty(),
        reviewer: Seq::empty(),
        drawer: Seq::empty(),
        status: status,
        duplicate_info: Seq::empty(),
    }
}

/// A party of which nothing is known.
pub fn new_party() -> (p: InvoiceParty)
    ensures
        p@ == empty_party(),
{
    InvoiceParty {
        name: String::new(),
        tax_code: String::new(),
        address_phone: String::new(),
        bank_account: String::new(),
    }
}

/// The record a page starts with.
pub fn create_empty_invoice(filename: &str, status: &str, page_index: usize) -> (invoice: Invoice)
    ensures
        invoice@ == empty_invoice(filename@, status@, page_index as nat),
{
    let filename_with_page = if page_index > 0 {
        let mut name = chars_of(filename);
        append_chars(&mut name, &chars_of(FILENAME_PAGE_OPEN));
        append_chars(&mut name, &decimal_chars(page_index as u128 + 1));
        append_chars(&mut name, &chars_of(FILENAME_PAGE_CLOSE));
        string_of(&name)
    } else {
        filename.to_owned()
    };
    let invoice = Invoice {
        filename: filename_with_page,
        index: 0,
        title: String::new(),
        invoice_type: String::new(),
        code: String::new(),
        number: String::new(),
        date: String::new(),
        checksum: String::new(),
        machine_number: String::new(),
        password: String::new(),
        remark: String::new(),
        buyer: new_party(),
        seller: new_party(),
        items: Vec::new(),
        total_amount: ZERO_AMOUNT.to_owned(),
        total_tax: ZERO_AMOUNT.to_owned(),
        total_amount_tax: ZERO_AMOUNT.to_owned(),
        payee: String::new(),
        reviewer: String::new(),
        drawer: String::new(),
        status: status.to_owned(),
        duplicate_info: String::new(),
    };
    assert(invoice@.items =~= Seq::empty());
    invoice
}

} // verus!
