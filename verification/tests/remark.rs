use fapiao::model::{create_empty_invoice, TextItem};
use fapiao::remark::extract_remark_info;

fn item(text: &str, x: i64, y: i64, width: i64) -> TextItem {
    TextItem {
        text: text.to_string(),
        x,
        y,
        width,
        height: 10_000,
        page_index: 0,
        font_name: None,
    }
}

#[test]
fn remark_is_read_line_by_line() {
    let items = vec![
        item("备", 300_000, 200_000, 10_000),
        item("注", 300_000, 215_000, 10_000),
        item("first ", 320_000, 195_000, 30_000),
        item("line", 360_000, 195_000, 30_000),
        item("second", 320_000, 210_000, 30_000),
        item("too low", 320_000, 233_001, 30_000),
        item("too high", 320_000, 185_999, 30_000),
        item("left", 309_999, 200_000, 30_000),
        item("third", 310_000, 233_000, 30_000),
        item("again", 330_000, 195_000, 30_000),
    ];
    let mut invoice = create_empty_invoice("a.pdf", "待统计", 0);
    extract_remark_info(&items, &mut invoice);
    assert_eq!(invoice.remark, "first line\nsecond\nthird\nagain");
}

#[test]
fn without_the_header_the_remark_stays() {
    let items = vec![item("注", 300_000, 215_000, 10_000), item("text", 320_000, 215_000, 10_000)];
    let mut invoice = create_empty_invoice("a.pdf", "待统计", 0);
    invoice.remark = "kept".to_string();
    extract_remark_info(&items, &mut invoice);
    assert_eq!(invoice.remark, "kept");
}

#[test]
fn an_empty_block_gives_an_empty_remark() {
    let items = vec![item("备", 300_000, 200_000, 10_000)];
    let mut invoice = create_empty_invoice("a.pdf", "待统计", 0);
    invoice.remark = "old".to_string();
    extract_remark_info(&items, &mut invoice);
    assert_eq!(invoice.remark, "");
}

#[test]
fn the_first_header_counts() {
    let items = vec![
        item("备", 300_000, 200_000, 10_000),
        item("备", 0, 0, 10_000),
        item("a", 320_000, 200_000, 10_000),
        item("b", 20_000, 0, 10_000),
    ];
    let mut invoice = create_empty_invoice("a.pdf", "待统计", 0);
    extract_remark_info(&items, &mut invoice);
    assert_eq!(invoice.remark, "a");
}
