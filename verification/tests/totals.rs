use fapiao::model::{create_empty_invoice, Invoice, TextItem};
use fapiao::totals::{amounts_of, extract_total_amount_and_tax, without_currency, TotalsCell};

fn item(text: &str, x: i64, y: i64) -> TextItem {
    TextItem {
        text: text.to_string(),
        x,
        y,
        width: 20_000,
        height: 10_000,
        page_index: 0,
        font_name: None,
    }
}

fn line(texts: &[&str]) -> Vec<TextItem> {
    texts.iter().enumerate().map(|(i, t)| item(t, 30_000 + 50_000 * i as i64, 400_000)).collect()
}

fn fresh() -> Invoice {
    create_empty_invoice("a.pdf", "待统计", 0)
}

#[test]
fn split_signs_and_numbers_are_read_as_amounts() {
    let items = line(&["合计", "¥", "128.50", "¥", "8.90"]);
    let mut invoice = fresh();
    extract_total_amount_and_tax(&items, &mut invoice);
    assert_eq!(invoice.total_amount, "128.50");
    assert_eq!(invoice.total_tax, "8.90");
}

#[test]
fn amounts_with_their_sign_lose_it() {
    let mut items = line(&["计", "¥128.50", "text", "￥8.90", "7"]);
    items.push(item("(小写)", 300_000, 420_000));
    items.push(item("¥137.40", 350_000, 420_000));
    let mut invoice = fresh();
    extract_total_amount_and_tax(&items, &mut invoice);
    assert_eq!(invoice.total_amount, "128.50");
    assert_eq!(invoice.total_tax, "8.90");
    assert_eq!(invoice.total_amount_tax, "137.40");
}

#[test]
fn without_the_totals_word_nothing_changes() {
    let mut items = line(&["合", "¥128.50", "￥8.90"]);
    items.push(item("(小写)", 300_000, 420_000));
    items.push(item("¥137.40", 350_000, 420_000));
    let mut invoice = fresh();
    extract_total_amount_and_tax(&items, &mut invoice);
    assert_eq!(invoice.total_amount, "0.00");
    assert_eq!(invoice.total_tax, "0.00");
    assert_eq!(invoice.total_amount_tax, "0.00");
}

#[test]
fn a_single_amount_leaves_the_tax() {
    let items = line(&["合计", "12"]);
    let mut invoice = fresh();
    extract_total_amount_and_tax(&items, &mut invoice);
    assert_eq!(invoice.total_amount, "12");
    assert_eq!(invoice.total_tax, "0.00");
    assert_eq!(invoice.total_amount_tax, "");
}

#[test]
fn a_row_without_amounts_leaves_both() {
    let items = line(&["合计", "¥", "abc", "1.", ".5", "-3"]);
    let mut invoice = fresh();
    extract_total_amount_and_tax(&items, &mut invoice);
    assert_eq!(invoice.total_amount, "0.00");
    assert_eq!(invoice.total_tax, "0.00");
}

#[test]
fn a_number_behind_a_sign_is_read_once() {
    // "5" follows a sign and is taken with it; it is not read again as an
    // amount of its own, so the tax is "6".
    let items = line(&["合计", "¥", "5", "6", "7"]);
    let mut invoice = fresh();
    extract_total_amount_and_tax(&items, &mut invoice);
    assert_eq!(invoice.total_amount, "5");
    assert_eq!(invoice.total_tax, "6");
}

#[test]
fn only_what_stands_right_of_the_word_on_its_line_counts() {
    let items = vec![
        item("1.00", 10_000, 400_000),
        item("合计", 30_000, 400_000),
        item("2.00", 100_000, 405_000),
        item("3.00", 60_000, 395_001),
        item("4.00", 80_000, 404_999),
        item("5.00", 30_000, 400_000),
    ];
    let mut invoice = fresh();
    extract_total_amount_and_tax(&items, &mut invoice);
    assert_eq!(invoice.total_amount, "3.00");
    assert_eq!(invoice.total_tax, "4.00");
}

#[test]
fn the_total_in_figures_is_read_next_to_its_label() {
    let items = vec![
        item("合计", 30_000, 400_000),
        item("价税合计(大写)", 30_000, 420_000),
        item("（小写）", 300_000, 420_000),
        item("¥", 350_000, 420_000),
        item("137.40", 360_000, 421_000),
        item("far", 400_000, 420_000),
    ];
    let mut invoice = fresh();
    extract_total_amount_and_tax(&items, &mut invoice);
    assert_eq!(invoice.total_amount_tax, " 137.40");
}

#[test]
fn currency_signs_are_removed_everywhere() {
    assert_eq!(without_currency("¥1￥2¥"), "12");
    assert_eq!(without_currency(""), "");
    assert_eq!(without_currency("abc"), "abc");
}

fn cell(text: &str, is_amount: bool, is_number: bool) -> TotalsCell {
    TotalsCell { text: text.to_string(), is_amount, is_number }
}

#[test]
fn amounts_are_read_from_cells_by_what_is_said_of_them() {
    let cells = vec![
        cell("¥", false, false),
        cell("128.50", true, true),
        cell("¥", false, false),
        cell("8.90", true, true),
    ];
    assert_eq!(amounts_of(&cells), vec!["128.50", "8.90"]);
    let cells = vec![
        cell("¥1￥", true, false),
        cell("x", false, true),
        cell("￥", false, false),
        cell("n", false, true),
        cell("¥", false, false),
        cell("m", true, false),
        cell("¥", false, false),
    ];
    // "x" is a bare number without a sign before it: not read. "n" follows a
    // sign. "m" is an amount, though it is no bare number. The last sign has
    // nothing behind it.
    assert_eq!(amounts_of(&cells), vec!["1", "n", "m"]);
    let cells = vec![cell("¥", true, true)];
    assert_eq!(amounts_of(&cells), vec![""]);
    assert!(amounts_of(&Vec::new()).is_empty());
}
