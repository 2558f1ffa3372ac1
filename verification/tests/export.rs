use fapiao::export::{
    column_width, default_fields, detail_rows, duplicate_groups, export_cell, field_of,
    group_colour, heading_of, Field,
};
use fapiao::items::stand_in_item;
use fapiao::model::{create_empty_invoice, Invoice};

fn record(status: &str, code: &str, number: &str) -> Invoice {
    let mut invoice = create_empty_invoice("a.pdf", status, 0);
    invoice.code = code.to_string();
    invoice.number = number.to_string();
    invoice
}

#[test]
fn every_column_is_known_by_its_heading() {
    let fields = default_fields();
    assert_eq!(fields.len(), 22);
    let headings: Vec<&str> = fields.iter().map(|f| heading_of(*f)).collect();
    assert_eq!(
        headings,
        vec![
            "序号", "文件名", "状态", "发票代码", "发票号码", "开票日期", "购买方名称",
            "购买方税号", "购买方地址、电话", "购买方开户行账号", "销售方名称", "销售方税号",
            "销售方地址电话", "销售方开户行账号", "收款人", "复核人", "开票人", "金额", "税额",
            "价税合计", "备注", "重复信息"
        ]
    );
    for (i, h) in headings.iter().enumerate() {
        let found = field_of(h).unwrap();
        assert_eq!(format!("{:?}", found), format!("{:?}", fields[i]));
    }
    assert!(field_of("").is_none());
    assert!(field_of("序号 ").is_none());
    assert!(field_of("index").is_none());
}

#[test]
fn columns_have_their_widths() {
    let widths: Vec<u16> = default_fields().iter().map(|f| column_width(*f)).collect();
    assert_eq!(
        widths,
        vec![10, 30, 10, 20, 20, 15, 30, 25, 40, 40, 30, 25, 40, 40, 15, 15, 15, 15, 15, 15, 30, 20]
    );
}

#[test]
fn a_cell_shows_the_field_of_the_record() {
    let mut invoice = create_empty_invoice("a.pdf", "normal", 1);
    invoice.index = 12;
    invoice.code = "c".to_string();
    invoice.number = "n".to_string();
    invoice.date = "d".to_string();
    invoice.buyer.name = "bn".to_string();
    invoice.buyer.tax_code = "bt".to_string();
    invoice.buyer.address_phone = "ba".to_string();
    invoice.buyer.bank_account = "bb".to_string();
    invoice.seller.name = "sn".to_string();
    invoice.seller.tax_code = "st".to_string();
    invoice.seller.address_phone = "sa".to_string();
    invoice.seller.bank_account = "sb".to_string();
    invoice.payee = "p".to_string();
    invoice.reviewer = "r".to_string();
    invoice.drawer = "dr".to_string();
    invoice.total_amount = "1.00".to_string();
    invoice.total_tax = "2.00".to_string();
    invoice.total_amount_tax = "3.00".to_string();
    invoice.remark = "rm".to_string();
    invoice.duplicate_info = "di".to_string();
    let cells: Vec<String> = default_fields().iter().map(|f| export_cell(&invoice, *f)).collect();
    assert_eq!(
        cells,
        vec![
            "12", "a.pdf#第2页", "normal", "c", "n", "d", "bn", "bt", "ba", "bb", "sn", "st", "sa",
            "sb", "p", "r", "dr", "1.00", "2.00", "3.00", "rm", "di"
        ]
    );
    invoice.index = 0;
    assert_eq!(export_cell(&invoice, Field::Index), "0");
}

#[test]
fn duplicates_with_the_same_code_and_number_share_a_group() {
    let invoices = vec![
        record("normal", "1", "a"),
        record("duplicate", "1", "a"),
        record("duplicate", "2", "b"),
        record("parse failed", "2", "b"),
        record("duplicate", "1", "a"),
        record("duplicate", "1", "b"),
        record("duplicate", "2", "b"),
        record("duplicate", "1-", "a"),
        record("duplicate", "1", "-a"),
    ];
    assert_eq!(
        duplicate_groups(&invoices),
        vec![None, Some(0), Some(1), None, Some(0), Some(2), Some(1), Some(3), Some(4)]
    );
    assert!(duplicate_groups(&[]).is_empty());
}

#[test]
fn groups_take_turns_with_five_colours() {
    let colours: Vec<usize> = (0..12).map(group_colour).collect();
    assert_eq!(colours, vec![0, 1, 2, 3, 4, 0, 1, 2, 3, 4, 0, 1]);
}

fn with_items(count: usize) -> Invoice {
    let mut invoice = create_empty_invoice("a.pdf", "normal", 0);
    for _ in 0..count {
        invoice.items.push(stand_in_item("x"));
    }
    invoice
}

#[test]
fn every_item_takes_a_row_below_the_heading() {
    let invoices = vec![with_items(1), with_items(0), with_items(3), with_items(2), with_items(0)];
    assert_eq!(
        detail_rows(&invoices),
        Some(vec![Some((1, 1)), None, Some((2, 4)), Some((5, 6)), None])
    );
    assert_eq!(detail_rows(&[]), Some(Vec::new()));
    assert_eq!(detail_rows(&[with_items(0)]), Some(vec![None]));
}
