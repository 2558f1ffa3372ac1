use fapiao::model::{create_empty_invoice, Invoice, TextItem};
use fapiao::party::{extract_party_info, field_value_at};

fn item(text: &str, x: i64, y: i64, width: i64) -> TextItem {
    TextItem {
        text: text.to_string(),
        x,
        y,
        width,
        height: 10_000,
        page_index: 0,
        font_name: None,
    }
}

fn fresh(invoice_type: &str) -> Invoice {
    let mut invoice = create_empty_invoice("a.pdf", "待统计", 0);
    invoice.invoice_type = invoice_type.to_string();
    invoice
}

fn block(header: &str) -> Vec<TextItem> {
    vec![
        item(header, 20_500, 100_200, 10_000),
        item("方", 20_500, 110_000, 10_000),
        item("信", 20_500, 120_000, 10_000),
        item("息", 20_500, 140_700, 10_000),
        item("名称:", 40_000, 100_000, 30_000),
        item("某某公司", 75_000, 101_000, 50_000),
        item("纳税人识别号:", 40_000, 112_000, 60_000),
        item("9111", 105_000, 112_000, 20_000),
        item("0000", 130_000, 113_000, 20_000),
        item("地址、电话:", 40_000, 124_000, 55_000),
        item("北京市", 100_000, 124_000, 30_000),
        item("010-1234", 135_000, 124_000, 40_000),
        item("开户行及账号:", 40_000, 136_000, 65_000),
        item("工行 123", 110_000, 136_000, 40_000),
        item("outside", 400_000, 112_000, 40_000),
    ]
}

#[test]
fn buyer_block_is_read_field_by_field() {
    let items = block("购");
    let mut invoice = fresh("VAT e-invoice");
    extract_party_info(&items, &mut invoice, "购", false);
    assert_eq!(invoice.buyer.name, "某某公司");
    assert_eq!(invoice.buyer.tax_code, "91110000");
    assert_eq!(invoice.buyer.address_phone, "北京市010-1234");
    assert_eq!(invoice.buyer.bank_account, "工行 123");
    assert_eq!(invoice.seller.name, "");
    assert_eq!(invoice.seller.tax_code, "");
}

#[test]
fn seller_block_fills_the_seller() {
    let items = block("销");
    let mut invoice = fresh("VAT e-invoice");
    extract_party_info(&items, &mut invoice, "销", true);
    assert_eq!(invoice.seller.name, "某某公司");
    assert_eq!(invoice.seller.tax_code, "91110000");
    assert_eq!(invoice.buyer.name, "");
}

#[test]
fn a_missing_header_changes_nothing() {
    let items = block("购");
    let mut invoice = fresh("VAT e-invoice");
    invoice.seller.name = "kept".to_string();
    extract_party_info(&items, &mut invoice, "销", true);
    assert_eq!(invoice.seller.name, "kept");
    assert_eq!(invoice.buyer.name, "");
}

#[test]
fn a_missing_footer_changes_nothing() {
    let items = vec![
        item("购", 20_000, 100_000, 10_000),
        item("名称:", 40_000, 100_000, 30_000),
        item("某某公司", 75_000, 100_000, 50_000),
    ];
    let mut invoice = fresh("VAT e-invoice");
    invoice.buyer.name = "kept".to_string();
    extract_party_info(&items, &mut invoice, "购", false);
    assert_eq!(invoice.buyer.name, "kept");
}

#[test]
fn a_block_without_labels_gives_empty_fields() {
    let items = vec![
        item("购", 20_000, 100_000, 10_000),
        item("息", 20_000, 140_000, 10_000),
        item("某某公司", 75_000, 100_000, 50_000),
    ];
    let mut invoice = fresh("VAT e-invoice");
    invoice.buyer.name = "old".to_string();
    invoice.buyer.bank_account = "old".to_string();
    extract_party_info(&items, &mut invoice, "购", false);
    assert_eq!(invoice.buyer.name, "");
    assert_eq!(invoice.buyer.tax_code, "");
    assert_eq!(invoice.buyer.address_phone, "");
    assert_eq!(invoice.buyer.bank_account, "");
}

#[test]
fn the_short_closing_glyph_serves_where_the_long_one_is_missing() {
    let items = vec![
        item("购", 20_000, 100_000, 10_000),
        item("方", 20_000, 130_000, 10_000),
        item("名称:", 40_000, 100_000, 30_000),
        item("甲", 75_000, 100_000, 10_000),
        item("电话:", 40_000, 136_000, 30_000),
        item("乙", 75_000, 136_000, 10_000),
        item("开户行及账号:", 40_000, 139_000, 30_000),
        item("丙", 75_000, 139_000, 10_000),
    ];
    let mut invoice = fresh("VAT e-invoice");
    extract_party_info(&items, &mut invoice, "购", false);
    // The block ends 8 below the closing glyph at 130: 138 is inside, 139 is not.
    assert_eq!(invoice.buyer.name, "甲");
    assert_eq!(invoice.buyer.address_phone, "乙");
    assert_eq!(invoice.buyer.bank_account, "");
}

#[test]
fn the_short_closing_glyph_must_be_near() {
    let items = vec![
        item("购", 20_000, 100_000, 10_000),
        item("⽅", 20_000, 150_000, 10_000),
        item("名称:", 40_000, 100_000, 30_000),
        item("甲", 75_000, 100_000, 10_000),
    ];
    let mut invoice = fresh("VAT e-invoice");
    extract_party_info(&items, &mut invoice, "购", false);
    assert_eq!(invoice.buyer.name, "");
    let items = vec![
        item("购", 20_000, 100_000, 10_000),
        item("⽅", 20_000, 149_999, 10_000),
        item("名称:", 40_000, 100_000, 30_000),
        item("甲", 75_000, 100_000, 10_000),
    ];
    extract_party_info(&items, &mut invoice, "购", false);
    assert_eq!(invoice.buyer.name, "甲");
}

#[test]
fn the_last_long_closing_glyph_ends_the_block() {
    let items = vec![
        item("购", 20_000, 100_000, 10_000),
        item("息", 20_000, 110_000, 10_000),
        item("方", 20_000, 105_000, 10_000),
        item("息", 20_000, 140_000, 10_000),
        item("电话:", 40_000, 136_000, 30_000),
        item("乙", 75_000, 136_000, 10_000),
    ];
    let mut invoice = fresh("VAT e-invoice");
    extract_party_info(&items, &mut invoice, "购", false);
    assert_eq!(invoice.buyer.address_phone, "乙");
}

#[test]
fn the_closing_glyph_must_stand_in_the_header_column() {
    let items = vec![
        item("购", 20_000, 100_000, 10_000),
        item("息", 21_001, 140_000, 10_000),
        item("名称:", 40_000, 100_000, 30_000),
        item("甲", 75_000, 100_000, 10_000),
    ];
    let mut invoice = fresh("VAT e-invoice");
    extract_party_info(&items, &mut invoice, "购", false);
    assert_eq!(invoice.buyer.name, "");
    let items = vec![
        item("购", 20_000, 100_000, 10_000),
        item("息", 21_000, 140_000, 10_000),
        item("名称:", 40_000, 100_000, 30_000),
        item("甲", 75_000, 100_000, 10_000),
    ];
    extract_party_info(&items, &mut invoice, "购", false);
    assert_eq!(invoice.buyer.name, "甲");
}

#[test]
fn the_extent_of_the_block_depends_on_the_type() {
    // Header at 20.5: whole units 20. General: 28..270, no padding.
    // Otherwise: 35..320, 8 above and below.
    let items = vec![
        item("购", 20_500, 100_000, 10_000),
        item("息", 20_500, 140_000, 10_000),
        item("名称:", 28_000, 100_000, 5_000),
        item("甲", 34_000, 100_000, 5_000),
        item("乙", 300_000, 100_000, 5_000),
        item("丙", 100_000, 94_000, 5_000),
    ];
    let mut general = fresh("general invoice");
    extract_party_info(&items, &mut general, "购", false);
    assert_eq!(general.buyer.name, "甲");
    let mut other = fresh("VAT e-invoice");
    extract_party_info(&items, &mut other, "购", false);
    // The label at 28 lies outside, so nothing is found.
    assert_eq!(other.buyer.name, "");
    let items = vec![
        item("购", 20_500, 100_000, 10_000),
        item("息", 20_500, 140_000, 10_000),
        item("名称:", 35_000, 100_000, 5_000),
        item("乙", 300_000, 100_000, 5_000),
        item("丙", 100_000, 94_000, 5_000),
        item("丁", 320_001, 100_000, 5_000),
    ];
    let mut other = fresh("");
    extract_party_info(&items, &mut other, "购", false);
    assert_eq!(other.buyer.name, "乙丙");
    let mut general = fresh("general invoice");
    extract_party_info(&items, &mut general, "购", false);
    assert_eq!(general.buyer.name, "");
}

#[test]
fn values_must_start_on_the_line_of_the_label() {
    let items = vec![
        item("购", 20_000, 100_000, 10_000),
        item("息", 20_000, 140_000, 10_000),
        item("名称：", 40_000, 110_000, 30_000),
        item("on", 75_000, 116_000, 10_000),
        item("off", 90_000, 116_001, 10_000),
        item("left", 50_000, 110_000, 20_000),
        item("over", 50_000, 110_000, 21_000),
        item("a:b", 100_000, 110_000, 10_000),
    ];
    let mut invoice = fresh("VAT e-invoice");
    extract_party_info(&items, &mut invoice, "购", false);
    assert_eq!(invoice.buyer.name, "on");
}

#[test]
fn values_must_start_behind_the_label() {
    // The label ends at 70. A value must start to the right of that; to
    // reach beyond it is not enough.
    let items = vec![
        item("购", 20_000, 100_000, 10_000),
        item("息", 20_000, 140_000, 10_000),
        item("名称", 40_000, 110_000, 30_000),
        item("wide", 60_000, 110_000, 50_000),
        item("edge", 70_000, 110_000, 10_000),
        item("first", 70_001, 110_000, 10_000),
        item("narrow", 90_000, 110_000, 0),
    ];
    let mut invoice = fresh("VAT e-invoice");
    extract_party_info(&items, &mut invoice, "购", false);
    assert_eq!(invoice.buyer.name, "firstnarrow");
}

#[test]
fn a_value_is_read_behind_a_given_label() {
    let a = item("label", 40_000, 110_000, 30_000);
    let b = item("x", 80_000, 104_000, 10_000);
    let c = item("y", 75_000, 116_000, 10_000);
    let d = item("z:", 90_000, 110_000, 10_000);
    let e = item("w", 60_000, 110_000, 30_000);
    let f = item("v", 95_000, 103_999, 10_000);
    let pool = vec![&a, &b, &c, &d, &e, &f];
    assert_eq!(field_value_at(&pool, 0), "xy");
    assert_eq!(field_value_at(&pool, 4), "");
    // Behind "x", which ends at 90 and starts at height 104, stands "v".
    assert_eq!(field_value_at(&pool, 1), "v");
    assert_eq!(field_value_at(&pool, 6), "");
    assert_eq!(field_value_at(&[], 0), "");
}

#[test]
fn a_block_on_another_page_than_its_footer_is_left_out() {
    let mut items = vec![
        item("购", 20_000, 100_000, 10_000),
        item("息", 20_000, 140_000, 10_000),
        item("名称:", 40_000, 100_000, 30_000),
        item("甲", 75_000, 100_000, 10_000),
        item("乙", 90_000, 100_000, 10_000),
    ];
    items[4].page_index = 1;
    let mut invoice = fresh("VAT e-invoice");
    extract_party_info(&items, &mut invoice, "购", false);
    assert_eq!(invoice.buyer.name, "甲");
}
