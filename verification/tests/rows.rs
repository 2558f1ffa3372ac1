use fapiao::model::TextItem;
use fapiao::rows::group_items_by_row;

fn item(text: &str, x: i64, y: i64) -> TextItem {
    TextItem {
        text: text.to_string(),
        x,
        y,
        width: 10_000,
        height: 10_000,
        page_index: 0,
        font_name: None,
    }
}

fn texts(rows: &Vec<Vec<&TextItem>>) -> Vec<Vec<String>> {
    rows.iter().map(|r| r.iter().map(|t| t.text.clone()).collect()).collect()
}

#[test]
fn no_items_give_no_rows() {
    let items: Vec<&TextItem> = Vec::new();
    assert!(group_items_by_row(&items, 2_000).is_empty());
}

#[test]
fn items_within_tolerance_share_a_row() {
    let a = item("a", 50_000, 100_000);
    let b = item("b", 10_000, 101_500);
    let c = item("c", 30_000, 98_000);
    let d = item("d", 5_000, 102_001);
    let items = vec![&a, &b, &c, &d];
    let rows = group_items_by_row(&items, 2_000);
    // a opens the row; b (1.5 below) and c (2.0 above) join it; d is 2.001 below.
    assert_eq!(
        texts(&rows),
        vec![
            vec!["b".to_string(), "c".to_string(), "a".to_string()],
            vec!["d".to_string()]
        ]
    );
}

#[test]
fn rows_come_top_to_bottom_and_left_to_right() {
    let a = item("a", 30_000, 300_000);
    let b = item("b", 20_000, 100_000);
    let c = item("c", 10_000, 300_000);
    let d = item("d", 10_000, 200_000);
    let e = item("e", 10_000, 100_000);
    let items = vec![&a, &b, &c, &d, &e];
    let rows = group_items_by_row(&items, 2_000);
    let got = texts(&rows);
    assert_eq!(got.len(), 3);
    assert_eq!(got[0], vec!["e".to_string(), "b".to_string()]);
    assert_eq!(got[1], vec!["d".to_string()]);
    assert_eq!(got[2], vec!["c".to_string(), "a".to_string()]);
    for w in rows.windows(2) {
        assert!(w[0][0].y <= w[1][0].y);
    }
    for row in &rows {
        for w in row.windows(2) {
            assert!(w[0].x <= w[1].x);
        }
    }
}

#[test]
fn the_first_item_of_a_row_decides_who_joins() {
    // 100 opens a row; 102 joins it; 104 is within 2 of 102 but not of 100.
    let a = item("a", 0, 100_000);
    let b = item("b", 10_000, 102_000);
    let c = item("c", 20_000, 104_000);
    let items = vec![&a, &b, &c];
    let rows = group_items_by_row(&items, 2_000);
    let got = texts(&rows);
    assert_eq!(got, vec![vec!["a".to_string(), "b".to_string()], vec!["c".to_string()]]);
}

#[test]
fn equal_left_edges_keep_their_order() {
    let a = item("first", 10_000, 100_000);
    let b = item("second", 10_000, 100_000);
    let c = item("third", 10_000, 100_000);
    let items = vec![&a, &b, &c];
    let rows = group_items_by_row(&items, 0);
    assert_eq!(
        texts(&rows),
        vec![vec!["first".to_string(), "second".to_string(), "third".to_string()]]
    );
}

#[test]
fn a_negative_tolerance_gives_every_item_its_own_row() {
    let a = item("a", 0, 100_000);
    let b = item("b", 10_000, 100_000);
    let items = vec![&a, &b];
    let rows = group_items_by_row(&items, -1);
    assert_eq!(rows.len(), 2);
}
