use fapiao::model::create_empty_invoice;

#[test]
fn empty_invoice_of_first_page_keeps_the_file_name() {
    let invoice = create_empty_invoice("a.pdf", "parse failed", 0);
    assert_eq!(invoice.filename, "a.pdf");
    assert_eq!(invoice.index, 0);
    assert_eq!(invoice.status, "parse failed");
    assert_eq!(invoice.total_amount, "0.00");
    assert_eq!(invoice.total_tax, "0.00");
    assert_eq!(invoice.total_amount_tax, "0.00");
    assert!(invoice.items.is_empty());
    assert_eq!(invoice.title, "");
}

#[test]
fn empty_invoice_of_later_page_has_a_page_suffix() {
    let invoice = create_empty_invoice("a.pdf", "待统计", 1);
    assert_eq!(invoice.filename, "a.pdf#第2页");
    let invoice = create_empty_invoice("a.pdf", "待统计", 11);
    assert_eq!(invoice.filename, "a.pdf#第12页");
}
