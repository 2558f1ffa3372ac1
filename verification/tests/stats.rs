use fapiao::model::{create_empty_invoice, Invoice};
use fapiao::stats::{count_with_status, counts_toward_sums, tally, ProcessingStats};

fn with_status(status: &str) -> Invoice {
    create_empty_invoice("a.pdf", status, 0)
}

#[test]
fn a_batch_is_tallied_by_status() {
    let invoices = vec![
        with_status("normal"),
        with_status("duplicate"),
        with_status("parse failed"),
        with_status("normal"),
        with_status("待统计"),
        with_status("duplicate"),
        with_status("normal"),
        with_status("Normal"),
    ];
    let stats = tally(&invoices, "12.50".to_string(), "1.00".to_string());
    assert_eq!(stats.invoice_count, 8);
    assert_eq!(stats.success_count, 3);
    assert_eq!(stats.duplicate_count, 2);
    assert_eq!(stats.fail_count, 1);
    assert_eq!(stats.total_amount, "12.50");
    assert_eq!(stats.total_tax, "1.00");
}

#[test]
fn an_empty_batch_has_no_counts() {
    let stats = tally(&[], "0.00".to_string(), "0.00".to_string());
    assert_eq!(stats.invoice_count, 0);
    assert_eq!(stats.success_count, 0);
    assert_eq!(stats.duplicate_count, 0);
    assert_eq!(stats.fail_count, 0);
}

#[test]
fn only_normal_records_count_toward_the_sums() {
    assert!(counts_toward_sums(&with_status("normal")));
    assert!(!counts_toward_sums(&with_status("duplicate")));
    assert!(!counts_toward_sums(&with_status("parse failed")));
    assert!(!counts_toward_sums(&with_status("待统计")));
    assert!(!counts_toward_sums(&with_status("")));
}

#[test]
fn records_are_counted_by_any_status() {
    let invoices = vec![with_status("x"), with_status("y"), with_status("x")];
    assert_eq!(count_with_status(&invoices, "x"), 2);
    assert_eq!(count_with_status(&invoices, "y"), 1);
    assert_eq!(count_with_status(&invoices, "z"), 0);
}

#[test]
fn fresh_stats_are_empty() {
    let stats = ProcessingStats::default();
    assert_eq!(stats.total_amount, "");
    assert_eq!(stats.total_tax, "");
    assert_eq!(stats.invoice_count, 0);
    assert_eq!(stats.duplicate_count, 0);
    assert_eq!(stats.success_count, 0);
    assert_eq!(stats.fail_count, 0);
}
