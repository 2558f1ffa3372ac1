use fapiao::items::{extract_invoice_items, item_of_row, TableCell};
use fapiao::model::{create_empty_invoice, Invoice, InvoiceItem, TextItem};

fn item(text: &str, x: i64, y: i64) -> TextItem {
    TextItem {
        text: text.to_string(),
        x,
        y,
        width: 20_000,
        height: 10_000,
        page_index: 0,
        font_name: None,
    }
}

fn row(texts: &[&str], y: i64) -> Vec<TextItem> {
    texts.iter().enumerate().map(|(i, t)| item(t, 30_000 + 60_000 * i as i64, y)).collect()
}

fn page(rows: Vec<Vec<TextItem>>) -> Vec<TextItem> {
    let mut items = vec![item("货物或应税劳务名称", 30_000, 300_000), item("合计", 30_000, 400_000)];
    for r in rows {
        items.extend(r);
    }
    items
}

fn fresh() -> Invoice {
    create_empty_invoice("a.pdf", "待统计", 0)
}

fn fields(i: &InvoiceItem) -> [&str; 6] {
    [&i.name, &i.quantity, &i.price, &i.amount, &i.tax_rate, &i.tax]
}

#[test]
fn a_row_of_six_fills_every_field() {
    let items = page(vec![row(&["*办公用品*", "10", "¥12.00", "¥120.00", "13%", "¥15.60"], 320_000)]);
    let mut invoice = fresh();
    extract_invoice_items(&items, &mut invoice);
    assert_eq!(invoice.items.len(), 1);
    assert_eq!(
        fields(&invoice.items[0]),
        ["*办公用品*", "10", "¥12.00", "¥120.00", "13%", "¥15.60"]
    );
}

#[test]
fn without_a_header_a_stand_in_is_added() {
    let items = vec![item("合计", 30_000, 400_000), item("x", 30_000, 320_000)];
    let mut invoice = fresh();
    extract_invoice_items(&items, &mut invoice);
    assert_eq!(invoice.items.len(), 1);
    assert_eq!(fields(&invoice.items[0]), ["unrecognized", "0", "0", "0", "0", "0"]);
}

#[test]
fn without_a_footer_the_items_stay() {
    let items = vec![item("项目名称", 30_000, 300_000), item("x", 30_000, 320_000)];
    let mut invoice = fresh();
    extract_invoice_items(&items, &mut invoice);
    assert!(invoice.items.is_empty());
}

#[test]
fn a_table_without_rows_gets_a_stand_in() {
    let items = page(vec![]);
    let mut invoice = fresh();
    extract_invoice_items(&items, &mut invoice);
    assert_eq!(invoice.items.len(), 1);
    assert_eq!(fields(&invoice.items[0]), ["unrecognized item", "0", "0", "0", "0", "0"]);
}

#[test]
fn a_short_row_carries_on_the_name() {
    let items = page(vec![
        row(&["*办公用品*纸", "箱", "10", "¥12.00", "¥120.00", "13%", "¥15.60"], 320_000),
        row(&["张(A4)", "ignored"], 332_000),
        row(&["*服务*", "6%", "1.00"], 344_000),
    ]);
    let mut invoice = fresh();
    extract_invoice_items(&items, &mut invoice);
    assert_eq!(invoice.items.len(), 2);
    assert_eq!(
        fields(&invoice.items[0]),
        ["*办公用品*纸张(A4)", "10", "¥12.00", "¥120.00", "13%", "¥15.60"]
    );
    assert_eq!(fields(&invoice.items[1]), ["*服务*", "", "", "", "6%", "1.00"]);
}

#[test]
fn a_short_first_row_is_an_item() {
    let items = page(vec![row(&["纸张", "1.5"], 320_000), row(&["more"], 332_000)]);
    let mut invoice = fresh();
    extract_invoice_items(&items, &mut invoice);
    assert_eq!(invoice.items.len(), 1);
    assert_eq!(fields(&invoice.items[0]), ["纸张more", "", "", "", "", "1.5"]);
}

#[test]
fn cells_that_do_not_fit_leave_fields_empty() {
    let items = page(vec![row(&["*A*", "x", "y", "12,00", "13", "n/a"], 320_000)]);
    let mut invoice = fresh();
    extract_invoice_items(&items, &mut invoice);
    assert_eq!(fields(&invoice.items[0]), ["*A*", "", "", "", "", ""]);
}

#[test]
fn digits_are_a_quantity_before_they_are_a_price() {
    let items = page(vec![row(&["*A*", "5", "7", "-1.5", "0%", "￥0"], 320_000)]);
    let mut invoice = fresh();
    extract_invoice_items(&items, &mut invoice);
    // Both cells are digits: each is a quantity, the later one stays, and
    // neither becomes the price.
    assert_eq!(fields(&invoice.items[0]), ["*A*", "7", "", "-1.5", "0%", "￥0"]);
    let items = page(vec![row(&["*A*", "2.50", "4", "3", "1%", "2"], 320_000)]);
    let mut invoice = fresh();
    extract_invoice_items(&items, &mut invoice);
    assert_eq!(fields(&invoice.items[0]), ["*A*", "4", "2.50", "3", "1%", "2"]);
}

#[test]
fn a_row_of_five_has_no_quantity_or_price() {
    let items = page(vec![row(&["*A*", "10", "¥120.00", "13%", "¥15.60"], 320_000)]);
    let mut invoice = fresh();
    extract_invoice_items(&items, &mut invoice);
    assert_eq!(fields(&invoice.items[0]), ["*A*", "", "", "¥120.00", "13%", "¥15.60"]);
}

#[test]
fn a_long_row_counts_from_its_end() {
    let items = page(vec![row(
        &["*A*", "型号", "个", "3", "2.00", "6.00", "免税", "***"],
        320_000,
    )]);
    let mut invoice = fresh();
    extract_invoice_items(&items, &mut invoice);
    assert_eq!(fields(&invoice.items[0]), ["*A*", "3", "2.00", "6.00", "", ""]);
}

#[test]
fn only_the_band_between_header_and_footer_is_read() {
    let mut items = page(vec![
        row(&["*in*", "1%", "1"], 305_000),
        row(&["*last*", "2%", "2"], 395_000),
    ]);
    items.push(item("*head*", 30_000, 304_999));
    items.push(item("*foot*", 30_000, 395_001));
    items.push(item("*above*", 30_000, 100_000));
    items.push(item("*below*", 30_000, 500_000));
    let mut invoice = fresh();
    extract_invoice_items(&items, &mut invoice);
    let names: Vec<&str> = invoice.items.iter().map(|i| i.name.as_str()).collect();
    assert_eq!(names, vec!["*in*", "*last*"]);
}

#[test]
fn rows_are_read_top_to_bottom_whatever_their_order() {
    let items = page(vec![
        row(&["*b*", "2%", "2"], 340_000),
        row(&["*a*", "1%", "1"], 320_000),
    ]);
    let mut invoice = fresh();
    extract_invoice_items(&items, &mut invoice);
    let names: Vec<&str> = invoice.items.iter().map(|i| i.name.as_str()).collect();
    assert_eq!(names, vec!["*a*", "*b*"]);
}

#[test]
fn items_that_exist_are_kept() {
    let items = page(vec![row(&["*a*", "1%", "1"], 320_000)]);
    let mut invoice = fresh();
    invoice.items.push(InvoiceItem {
        name: "old".to_string(),
        quantity: "".to_string(),
        price: "".to_string(),
        amount: "".to_string(),
        tax_rate: "".to_string(),
        tax: "".to_string(),
    });
    extract_invoice_items(&items, &mut invoice);
    let names: Vec<&str> = invoice.items.iter().map(|i| i.name.as_str()).collect();
    assert_eq!(names, vec!["old", "*a*"]);
}

#[test]
fn the_split_footer_glyph_ends_the_table() {
    let items = vec![
        item("项目名称", 30_000, 300_000),
        item("合", 30_000, 400_000),
        item("计", 40_000, 400_000),
        item("*a*", 30_000, 320_000),
    ];
    let mut invoice = fresh();
    extract_invoice_items(&items, &mut invoice);
    assert_eq!(invoice.items.len(), 1);
    assert_eq!(invoice.items[0].name, "*a*");
}

fn cell(text: &str, is_quantity: bool, is_money: bool) -> TableCell {
    TableCell { text: text.to_string(), is_quantity, is_money }
}

#[test]
fn cells_become_an_item_by_what_is_said_of_them() {
    let cells = vec![
        cell("*办公用品*", false, false),
        cell("10", true, true),
        cell("¥12.00", false, true),
        cell("¥120.00", false, true),
        cell("13%", false, false),
        cell("¥15.60", false, true),
    ];
    let item = item_of_row(&cells);
    assert_eq!(fields(&item), ["*办公用品*", "10", "¥12.00", "¥120.00", "13%", "¥15.60"]);
}

#[test]
fn what_is_said_of_a_cell_decides_and_not_its_text() {
    let cells = vec![
        cell("name", true, true),
        cell("a", false, true),
        cell("b", true, false),
        cell("c", false, false),
        cell("d%", true, true),
        cell("e", false, false),
    ];
    // "a" is money only: the price. "b" is a quantity. "c" is no money, so
    // no amount; "e" is no money, so no tax.
    assert_eq!(fields(&item_of_row(&cells)), ["name", "b", "a", "", "d%", ""]);
    let cells = vec![cell("n", false, false), cell("1", true, true), cell("2", true, true)];
    assert_eq!(fields(&item_of_row(&cells)), ["n", "", "", "", "", "2"]);
    let cells = vec![cell("only%", true, true)];
    assert_eq!(fields(&item_of_row(&cells)), ["only%", "", "", "", "", ""]);
    let cells = vec![cell("n%", false, true), cell("t", false, true)];
    assert_eq!(fields(&item_of_row(&cells)), ["n%", "", "", "", "", "t"]);
    let cells = vec![
        cell("n", false, false),
        cell("x", false, true),
        cell("r%", false, false),
        cell("t", false, true),
    ];
    assert_eq!(fields(&item_of_row(&cells)), ["n", "", "", "x", "r%", "t"]);
    assert_eq!(fields(&item_of_row(&Vec::new())), ["", "", "", "", "", ""]);
}
