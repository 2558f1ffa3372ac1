//! Reading the table of goods.

use crate::geometry::UNIT;
use crate::model::{
    fragments, fragments_of_refs, item_views, Fragment, Invoice, InvoiceItem, InvoiceView,
    ItemView, TextItem,
};
use crate::nearby::texts_of;
use crate::pattern::{hits, pattern_hits};
use crate::rows::{group_items_by_row, group_rows, rows_view};
use crate::scan::{first_index, lemma_first_index, lemma_select_step, select};
use crate::text::{
    append_chars, chars_of, contains_char, contains_str, has_substring, starts_with_char, str_eq,
    string_of,
};
use crate::words::{
    GOODS_WORD, MONEY_FORMAT, PROJECT_WORD, QUANTITY_FORMAT, TOTAL_FIRST_GLYPH, TOTAL_WORD,
    UNRECOGNIZED, UNRECOGNIZED_ITEM, ZERO,
};
use vstd::prelude::*;

verus! {

/// How far above the header word the table may start.
pub const TABLE_HEAD_PAD: i64 = 2 * UNIT;

/// How far below the top of the header word its row reaches.
pub const TABLE_HEAD_HEIGHT: i64 = 5 * UNIT;

/// How far above the totals row the last row of the table must start.
pub const TABLE_FOOT_GUARD: i64 = 5 * UNIT;

/// How far apart the fragments of one row of the table may start.
pub const TABLE_ROW_TOLERANCE: i64 = 2 * UNIT;

/// The character that marks the first line of an item's name.
pub const ITEM_MARK: char = '*';

/// The character by which a tax rate is known.
pub const PERCENT: char = '%';

/// Accepts the fragments that hold a word of the table's header row.
pub open spec fn is_table_header() -> spec_fn(Fragment) -> bool {
    |f: Fragment| has_substring(f.text, GOODS_WORD@) || has_substring(f.text, PROJECT_WORD@)
}

/// Accepts the fragments that start the row behind the table.
pub open spec fn is_table_footer() -> spec_fn(Fragment) -> bool {
    |f: Fragment| f.text == TOTAL_FIRST_GLYPH@ || f.text == TOTAL_WORD@
}

/// The height at which the table starts: a little above the header word,
/// but not above the top of the page.
pub open spec fn table_top(header: Fragment) -> int {
    if header.y > TABLE_HEAD_PAD {
        header.y - TABLE_HEAD_PAD
    } else {
        0
    }
}

/// Accepts the fragments of the rows between the header row and the row
/// behind the table.
pub open spec fn in_table(header: Fragment, footer: Fragment) -> spec_fn(Fragment) -> bool {
    |f: Fragment|
        f.y >= table_top(header) && f.y < footer.y && footer.y - f.y >= TABLE_FOOT_GUARD && f.y
            >= header.y + TABLE_HEAD_HEIGHT
}

/// An item of which nothing is known.
pub open spec fn blank_item() -> ItemView {
    ItemView {
        name: Seq::empty(),
        quantity: Seq::empty(),
        price: Seq::empty(),
        amount: Seq::empty(),
        tax_rate: Seq::empty(),
        tax: Seq::empty(),
    }
}

/// The item that stands in where none was read.
pub open spec fn stand_in(name: Seq<char>) -> ItemView {
    ItemView {
        name: name,
        quantity: ZERO@,
        price: ZERO@,
        amount: ZERO@,
        tax_rate: ZERO@,
        tax: ZERO@,
    }
}

/// One cell of a row of the table, with what the formats say of its text.
#[derive(Debug, Clone)]
pub struct TableCell {
    pub text: String,
    pub is_quantity: bool,
    pub is_money: bool,
}

/// What a `TableCell` stands for.
pub struct TableCellView {
    pub text: Seq<char>,
    pub is_quantity: bool,
    pub is_money: bool,
}

impl View for TableCell {
    type V = TableCellView;

    open spec fn view(&self) -> TableCellView {
        TableCellView {
            text: self.text@,
            is_quantity: self.is_quantity,
            is_money: self.is_money,
        }
    }
}

/// What a list of cells stands for.
pub open spec fn cell_views(cells: Seq<TableCell>) -> Seq<TableCellView> {
    Seq::new(cells.len(), |i: int| cells[i]@)
}

/// The cell with the given text: it is a quantity if the quantity format
/// matches the text, and money if the money format does.
pub open spec fn judged_cell(text: Seq<char>) -> TableCellView {
    TableCellView {
        text: text,
        is_quantity: pattern_hits(QUANTITY_FORMAT@, text),
        is_money: pattern_hits(MONEY_FORMAT@, text),
    }
}

/// The cells with the given texts.
pub open spec fn judged_cells(texts: Seq<Seq<char>>) -> Seq<TableCellView> {
    Seq::new(texts.len(), |i: int| judged_cell(texts[i]))
}

/// The item after a cell of the quantity and price columns has been read:
/// a quantity is a quantity, any other money text is a price, and a cell is
/// never both.
pub open spec fn with_count_cell(item: ItemView, cell: TableCellView) -> ItemView {
    if cell.is_quantity {
        ItemView { quantity: cell.text, ..item }
    } else if cell.is_money {
        ItemView { price: cell.text, ..item }
    } else {
        item
    }
}

/// The item that a row of cells describes. The first cell is the name. The
/// other fields are counted from the end of the row: the last cell is the
/// tax, the one before it the tax rate, the one before that the amount, and
/// in a row of more than five cells the two before that hold quantity and
/// price. Amount and tax must be money, the tax rate must hold a percent
/// sign; a cell that is not what its field asks for leaves the field empty.
/// A row without cells gives the blank item.
pub open spec fn row_item(cells: Seq<TableCellView>) -> ItemView {
    let n = cells.len() as int;
    if n == 0 {
        blank_item()
    } else {
        let named = ItemView { name: cells[0].text, ..blank_item() };
        let counted = if n > 5 {
            with_count_cell(with_count_cell(named, cells[n - 5]), cells[n - 4])
        } else {
            named
        };
        ItemView {
            amount: if n > 3 && cells[n - 3].is_money {
                cells[n - 3].text
            } else {
                Seq::empty()
            },
            tax_rate: if n > 2 && cells[n - 2].text.contains(PERCENT) {
                cells[n - 2].text
            } else {
                Seq::empty()
            },
            tax: if n > 1 && cells[n - 1].is_money {
                cells[n - 1].text
            } else {
                Seq::empty()
            },
            ..counted
        }
    }
}

/// Whether the row at `position` carries on the name of the item before it:
/// it is short, does not begin with the item mark, is not the first row, and
/// an item exists.
pub open spec fn continues_item(row: Seq<Fragment>, position: int, items: Seq<ItemView>) -> bool {
    row.len() <= 3 && !(row[0].text.len() > 0 && row[0].text[0] == ITEM_MARK) && position > 0
        && items.len() > 0
}

/// The items after one row has been read.
pub open spec fn with_row(items: Seq<ItemView>, row: Seq<Fragment>, position: int) -> Seq<
    ItemView,
> {
    if row.len() == 0 {
        items
    } else if continues_item(row, position, items) {
        items.update(
            items.len() - 1,
            ItemView { name: items.last().name + row[0].text, ..items.last() },
        )
    } else {
        items.push(row_item(judged_cells(texts_of(row))))
    }
}

/// The items after the first `upto` rows have been read.
pub open spec fn with_rows(items: Seq<ItemView>, rows: Seq<Seq<Fragment>>, upto: int) -> Seq<
    ItemView,
>
    decreases upto,
{
    if upto <= 0 {
        items
    } else {
        with_row(with_rows(items, rows, upto - 1), rows[upto - 1], upto - 1)
    }
}

/// The items, or a stand-in where there is none.
pub open spec fn or_stand_in(items: Seq<ItemView>) -> Seq<ItemView> {
    if items.len() == 0 {
        seq![stand_in(UNRECOGNIZED_ITEM@)]
    } else {
        items
    }
}

/// The rows of the table between `header` and `footer`.
pub open spec fn table_rows(frags: Seq<Fragment>, header: Fragment, footer: Fragment) -> Seq<
    Seq<Fragment>,
> {
    group_rows(select(frags, in_table(header, footer)), TABLE_ROW_TOLERANCE as int)
}

/// The items after the table has been read. Without a header word a
/// stand-in is added. With a header word but nothing behind the table the
/// items stay as they are. Otherwise the rows are read one by one, and a
/// stand-in is added if no item exists after that.
pub open spec fn table_items(items: Seq<ItemView>, frags: Seq<Fragment>) -> Seq<ItemView> {
    let head = first_index(frags, is_table_header());
    if head >= frags.len() {
        items.push(stand_in(UNRECOGNIZED@))
    } else {
        let foot = first_index(frags, is_table_footer());
        if foot >= frags.len() {
            items
        } else {
            let rows = table_rows(frags, frags[head], frags[foot]);
            or_stand_in(with_rows(items, rows, rows.len() as int))
        }
    }
}

/// The record after the table of goods has been read.
pub open spec fn with_items(invoice: InvoiceView, frags: Seq<Fragment>) -> InvoiceView {
    InvoiceView { items: table_items(invoice.items, frags), ..invoice }
}

/// Whether the page shows where the table lies: it has a header word and
/// something behind the table.
pub open spec fn has_table(frags: Seq<Fragment>) -> bool {
    first_index(frags, is_table_header()) < frags.len() && first_index(frags, is_table_footer())
        < frags.len()
}

/// Reading the table leaves at least one item, unless the page has a header
/// word and nothing behind the table.
pub proof fn lemma_table_leaves_an_item(items: Seq<ItemView>, frags: Seq<Fragment>)
    requires
        has_table(frags) || first_index(frags, is_table_header()) >= frags.len(),
    ensures
        table_items(items, frags).len() > 0,
{
}

/// An item with the given name and every other field zero.
pub fn stand_in_item(name: &str) -> (item: InvoiceItem)
    ensures
        item@ == stand_in(name@),
{
    InvoiceItem {
        name: name.to_owned(),
        quantity: ZERO.to_owned(),
        price: ZERO.to_owned(),
        amount: ZERO.to_owned(),
        tax_rate: ZERO.to_owned(),
        tax: ZERO.to_owned(),
    }
}

/// The position of the first item that holds a word of the table's header
/// row, or the number of items if there is none.
fn find_table_header(text_items: &[TextItem]) -> (at: usize)
    ensures
        at == first_index(fragments(text_items@), is_table_header()),
        at <= text_items.len(),
{
    let ghost frags = fragments(text_items@);
    let mut i: usize = 0;
    while i < text_items.len()
        invariant
            i <= text_items.len(),
            frags == fragments(text_items@),
            forall|j: int| 0 <= j < i ==> !is_table_header()(#[trigger] frags[j]),
        decreases text_items.len() - i,
    {
        let text: &str = text_items[i].text.as_str();
        if contains_str(text, GOODS_WORD) || contains_str(text, PROJECT_WORD) {
            proof {
                lemma_first_index(frags, is_table_header(), i as int);
            }
            return i;
        }
        i += 1;
    }
    proof {
        lemma_first_index(frags, is_table_header(), i as int);
    }
    i
}

/// The position of the first item that starts the row behind the table, or
/// the number of items if there is none.
fn find_table_footer(text_items: &[TextItem]) -> (at: usize)
    ensures
        at == first_index(fragments(text_items@), is_table_footer()),
        at <= text_items.len(),
{
    let ghost frags = fragments(text_items@);
    let mut i: usize = 0;
    while i < text_items.len()
        invariant
            i <= text_items.len(),
            frags == fragments(text_items@),
            forall|j: int| 0 <= j < i ==> !is_table_footer()(#[trigger] frags[j]),
        decreases text_items.len() - i,
    {
        let text: &str = text_items[i].text.as_str();
        if str_eq(text, TOTAL_FIRST_GLYPH) || str_eq(text, TOTAL_WORD) {
            proof {
                lemma_first_index(frags, is_table_footer(), i as int);
            }
            return i;
        }
        i += 1;
    }
    proof {
        lemma_first_index(frags, is_table_footer(), i as int);
    }
    i
}

/// The items of the rows between `header` and `footer`.
fn collect_table<'a>(text_items: &'a [TextItem], header: &TextItem, footer: &TextItem) -> (found:
    Vec<&'a TextItem>)
    ensures
        fragments_of_refs(found@) == select(
            fragments(text_items@),
            in_table(header@, footer@),
        ),
{
    let ghost frags = fragments(text_items@);
    let ghost want = in_table(header@, footer@);
    let top: i128 = if header.y > TABLE_HEAD_PAD {
        header.y as i128 - TABLE_HEAD_PAD as i128
    } else {
        0
    };
    let bottom: i128 = footer.y as i128;
    let below_header: i128 = header.y as i128 + TABLE_HEAD_HEIGHT as i128;
    let mut found: Vec<&'a TextItem> = Vec::new();
    let mut i: usize = 0;
    assert(fragments_of_refs(found@) =~= select(frags.take(0), want));
    while i < text_items.len()
        invariant
            i <= text_items.len(),
            frags == fragments(text_items@),
            want == in_table(header@, footer@),
            top == table_top(header@),
            bottom == footer@.y,
            below_header == header@.y + TABLE_HEAD_HEIGHT,
            fragments_of_refs(found@) == select(frags.take(i as int), want),
        decreases text_items.len() - i,
    {
        let item: &'a TextItem = &text_items[i];
        let y: i128 = item.y as i128;
        proof {
            lemma_select_step(frags, want, i as int);
        }
        if y >= top && y < bottom && bottom - y >= TABLE_FOOT_GUARD as i128 && y >= below_header {
            let ghost before = fragments_of_refs(found@);
            found.push(item);
            assert(fragments_of_refs(found@) =~= before.push(item@));
        }
        i += 1;
    }
    assert(frags.take(text_items.len() as int) == frags);
    found
}

/// The item after a cell of the quantity and price columns has been read.
fn read_count_cell(item: InvoiceItem, cell: &TableCell) -> (read: InvoiceItem)
    ensures
        read@ == with_count_cell(item@, cell@),
{
    let mut read = item;
    if cell.is_quantity {
        read.quantity = cell.text.clone();
    } else if cell.is_money {
        read.price = cell.text.clone();
    }
    read
}

/// The item that a row of cells describes. The first cell gives the name;
/// the other fields are taken from the end of the row, each only from a cell
/// that is what the field asks for.
pub fn item_of_row(cells: &Vec<TableCell>) -> (item: InvoiceItem)
    ensures
        item@ == row_item(cell_views(cells@)),
{
    let n: usize = cells.len();
    let mut item = InvoiceItem {
        name: String::new(),
        quantity: String::new(),
        price: String::new(),
        amount: String::new(),
        tax_rate: String::new(),
        tax: String::new(),
    };
    if n == 0 {
        return item;
    }
    assert forall|k: int| 0 <= k < n implies cell_views(cells@)[k] == (#[trigger] cells[k])@ by {}
    item.name = cells[0].text.clone();
    if n > 5 {
        item = read_count_cell(item, &cells[n - 5]);
        item = read_count_cell(item, &cells[n - 4]);
    }
    if n > 3 && cells[n - 3].is_money {
        item.amount = cells[n - 3].text.clone();
    }
    if n > 2 && contains_char(cells[n - 2].text.as_str(), PERCENT) {
        item.tax_rate = cells[n - 2].text.clone();
    }
    if n > 1 && cells[n - 1].is_money {
        item.tax = cells[n - 1].text.clone();
    }
    item
}

/// The cells of a row, each judged by the two formats.
fn judge_row(row: &Vec<&TextItem>) -> (cells: Vec<TableCell>)
    ensures
        cell_views(cells@) == judged_cells(texts_of(fragments_of_refs(row@))),
{
    let ghost texts = texts_of(fragments_of_refs(row@));
    let mut cells: Vec<TableCell> = Vec::new();
    let mut i: usize = 0;
    while i < row.len()
        invariant
            i <= row.len(),
            cells.len() == i,
            texts == texts_of(fragments_of_refs(row@)),
            forall|k: int| 0 <= k < i ==> (#[trigger] cells[k])@ == judged_cell(texts[k]),
        decreases row.len() - i,
    {
        let text: &str = row[i].text.as_str();
        assert(texts[i as int] == text@);
        cells.push(
            TableCell {
                text: text.to_owned(),
                is_quantity: hits(QUANTITY_FORMAT, text),
                is_money: hits(MONEY_FORMAT, text),
            },
        );
        i += 1;
    }
    assert(cell_views(cells@) =~= judged_cells(texts));
    cells
}

/// The item that a row describes.
fn read_row(row: &Vec<&TextItem>) -> (item: InvoiceItem)
    ensures
        item@ == row_item(judged_cells(texts_of(fragments_of_refs(row@)))),
{
    let cells = judge_row(row);
    item_of_row(&cells)
}

/// Reads the rows into the items, one after another.
fn read_rows(items: &mut Vec<InvoiceItem>, rows: &Vec<Vec<&TextItem>>)
    ensures
        item_views(final(items)@) == with_rows(
            item_views(old(items)@),
            rows_view(rows@),
            rows.len() as int,
        ),
{
    let ghost start = item_views(items@);
    let ghost all = rows_view(rows@);
    let mut i: usize = 0;
    while i < rows.len()
        invariant
            i <= rows.len(),
            all == rows_view(rows@),
            item_views(items@) == with_rows(start, all, i as int),
        decreases rows.len() - i,
    {
        let row: &Vec<&TextItem> = &rows[i];
        let ghost before = item_views(items@);
        let ghost frags = fragments_of_refs(row@);
        assert(all[i as int] == frags);
        if row.len() > 0 {
            assert(frags[0] == row[0]@);
            let first: &str = row[0].text.as_str();
            if row.len() <= 3 && !starts_with_char(first, ITEM_MARK) && i > 0 && items.len() > 0 {
                let mut last = items.pop().unwrap();
                let ghost kept = item_views(items@);
                let ghost last_view = last@;
                assert(kept =~= before.drop_last());
                assert(last_view == before.last());
                let mut name = chars_of(last.name.as_str());
                append_chars(&mut name, &chars_of(first));
                last.name = string_of(&name);
                items.push(last);
                assert(item_views(items@) =~= with_row(before, frags, i as int));
            } else {
                items.push(read_row(row));
                assert(item_views(items@) =~= with_row(before, frags, i as int));
            }
        }
        i += 1;
    }
}

/// Reads the table of goods into the record. The table lies below the first
/// item that holds a word of the header row and above the first item that
/// starts the row behind the table. Without a header word a stand-in item
/// is added; with a header word but nothing behind the table the record
/// stays as it is; otherwise every row becomes an item or carries on the
/// name of the item before it, and a stand-in is added if no item exists
/// after that.
pub fn extract_invoice_items(text_items: &[TextItem], invoice: &mut Invoice)
    ensures
        final(invoice)@ == with_items(old(invoice)@, fragments(text_items@)),
        has_table(fragments(text_items@)) || first_index(
            fragments(text_items@),
            is_table_header(),
        ) >= text_items.len() ==> final(invoice).items.len() > 0,
{
    let ghost frags = fragments(text_items@);
    let ghost start = item_views(invoice.items@);
    let head = find_table_header(text_items);
    if head >= text_items.len() {
        invoice.items.push(stand_in_item(UNRECOGNIZED));
        assert(item_views(invoice.items@) =~= start.push(stand_in(UNRECOGNIZED@)));
        return ;
    }
    let foot = find_table_footer(text_items);
    if foot >= text_items.len() {
        return ;
    }
    let found = collect_table(text_items, &text_items[head], &text_items[foot]);
    let rows = group_items_by_row(found.as_slice(), TABLE_ROW_TOLERANCE);
    read_rows(&mut invoice.items, &rows);
    if invoice.items.len() == 0 {
        invoice.items.push(stand_in_item(UNRECOGNIZED_ITEM));
        assert(item_views(invoice.items@) =~= seq![stand_in(UNRECOGNIZED_ITEM@)]);
    }
}

} // verus!
