use fapiao::model::TextItem;
use fapiao::nearby::{direction_of, extract_nearby_text, nearby_text_at, Direction};

fn item(text: &str, x: i64, y: i64) -> TextItem {
    TextItem {
        text: text.to_string(),
        x,
        y,
        width: 20_000,
        height: 10_000,
        page_index: 0,
        font_name: None,
    }
}

#[test]
fn no_landmark_gives_an_empty_text() {
    let items = vec![item("abc", 10_000, 10_000), item("def", 50_000, 10_000)];
    assert_eq!(extract_nearby_text(&items, "发票代码[:：]?", "right", 100_000), "");
}

#[test]
fn no_items_give_an_empty_text() {
    let items: Vec<TextItem> = Vec::new();
    assert_eq!(extract_nearby_text(&items, "a", "right", 100_000), "");
}

#[test]
fn right_reads_the_line_from_left_to_right() {
    let items = vec![
        item("far", 300_000, 50_000),
        item("456", 180_000, 49_000),
        item("发票代码:", 100_000, 50_000),
        item("123", 150_000, 52_000),
        item("before", 60_000, 50_000),
        item("below", 150_000, 70_000),
    ];
    assert_eq!(extract_nearby_text(&items, "发票代码[:：]?", "right", 100_000), "123 456");
}

#[test]
fn left_reads_from_right_to_left() {
    let items = vec![
        item("a", 10_000, 50_000),
        item("b", 60_000, 50_000),
        item("mark", 100_000, 50_000),
        item("c", 150_000, 50_000),
    ];
    assert_eq!(extract_nearby_text(&items, "^mark$", "left", 100_000), "b a");
}

#[test]
fn up_reads_toward_the_landmark_from_the_greatest_height() {
    let items = vec![
        item("mark", 100_000, 50_000),
        item("one", 100_000, 70_000),
        item("two", 110_000, 90_000),
        item("under", 100_000, 30_000),
        item("aside", 150_000, 70_000),
    ];
    // aside is 50 to the right, which is not less than half of 100.
    assert_eq!(extract_nearby_text(&items, "^mark$", "up", 100_000), "two one");
    assert_eq!(extract_nearby_text(&items, "^mark$", "down", 100_000), "under");
}

#[test]
fn up_keeps_within_half_the_distance_sideways() {
    let items = vec![
        item("mark", 100_000, 50_000),
        item("out", 150_000, 60_000),
        item("in", 149_999, 60_000),
    ];
    assert_eq!(extract_nearby_text(&items, "^mark$", "up", 100_000), "in");
}

#[test]
fn same_line_reads_both_sides() {
    let items = vec![
        item("c", 150_000, 50_000),
        item("mark", 100_000, 50_000),
        item("a", 40_000, 55_000),
        item("other", 100_000, 80_000),
    ];
    assert_eq!(extract_nearby_text(&items, "^mark$", "same-line", 100_000), "a c");
}

#[test]
fn an_unknown_direction_gives_an_empty_text() {
    let items = vec![item("mark", 100_000, 50_000), item("c", 150_000, 50_000)];
    assert_eq!(extract_nearby_text(&items, "^mark$", "sideways", 100_000), "");
    assert_eq!(extract_nearby_text(&items, "^mark$", "", 100_000), "");
    assert_eq!(extract_nearby_text(&items, "^mark$", "Right", 100_000), "");
}

#[test]
fn texts_with_a_colon_are_passed_over() {
    let items = vec![
        item("mark", 100_000, 50_000),
        item("label:", 120_000, 50_000),
        item("value", 140_000, 50_000),
        item("标签：", 160_000, 50_000),
        item("a:b", 170_000, 50_000),
        item("end", 180_000, 50_000),
    ];
    let text = extract_nearby_text(&items, "^mark$", "right", 100_000);
    assert_eq!(text, "value end");
    assert!(!text.contains(':'));
    assert!(!text.contains('：'));
}

#[test]
fn the_result_is_trimmed_but_keeps_inner_spaces() {
    let items = vec![
        item("mark", 100_000, 50_000),
        item("  a b ", 120_000, 50_000),
        item(" c\t", 140_000, 50_000),
    ];
    assert_eq!(extract_nearby_text(&items, "^mark$", "right", 100_000), "a b   c");
}

#[test]
fn only_whitespace_gives_an_empty_text() {
    let items = vec![item("mark", 100_000, 50_000), item(" \u{3000} ", 120_000, 50_000)];
    assert_eq!(extract_nearby_text(&items, "^mark$", "right", 100_000), "");
}

#[test]
fn equal_reading_keys_are_told_apart_by_distance() {
    let items = vec![
        item("mark", 100_000, 50_000),
        item("far", 150_000, 55_000),
        item("near", 150_000, 51_000),
        item("first", 120_000, 50_000),
    ];
    assert_eq!(extract_nearby_text(&items, "^mark$", "right", 100_000), "first near far");
}

#[test]
fn equal_keys_and_distances_keep_the_given_order() {
    let items = vec![
        item("mark", 100_000, 50_000),
        item("one", 150_000, 51_000),
        item("two", 150_000, 49_000),
    ];
    assert_eq!(extract_nearby_text(&items, "^mark$", "right", 100_000), "one two");
}

#[test]
fn the_first_match_is_the_landmark() {
    let items = vec![
        item("x", 10_000, 10_000),
        item("mark", 100_000, 50_000),
        item("a", 120_000, 50_000),
        item("mark", 100_000, 200_000),
        item("b", 120_000, 200_000),
    ];
    assert_eq!(extract_nearby_text(&items, "^mark$", "right", 100_000), "a");
}

#[test]
fn a_second_landmark_text_counts_as_a_value() {
    let items = vec![
        item("mark", 100_000, 50_000),
        item("mark", 120_000, 50_000),
    ];
    assert_eq!(extract_nearby_text(&items, "^mark$", "right", 100_000), "mark");
}

#[test]
fn the_line_tolerance_is_exclusive() {
    let items = vec![
        item("mark", 100_000, 50_000),
        item("out", 120_000, 60_000),
        item("in", 130_000, 59_999),
        item("up", 140_000, 40_001),
        item("upout", 150_000, 40_000),
    ];
    assert_eq!(extract_nearby_text(&items, "^mark$", "right", 100_000), "in up");
}

#[test]
fn the_distance_bound_is_exclusive() {
    let items = vec![
        item("mark", 100_000, 50_000),
        item("in", 199_999, 50_000),
        item("out", 200_000, 50_000),
        item("same", 100_000, 51_000),
    ];
    assert_eq!(extract_nearby_text(&items, "^mark$", "right", 100_000), "in");
}

#[test]
fn a_pattern_that_is_not_accepted_matches_nothing() {
    let items = vec![item("(", 100_000, 50_000), item("a", 120_000, 50_000)];
    assert_eq!(extract_nearby_text(&items, "(", "right", 100_000), "");
}

#[test]
fn the_pattern_is_searched_anywhere_in_the_text() {
    let items = vec![
        item("No. 发票号码", 100_000, 50_000),
        item("0042", 150_000, 50_000),
    ];
    assert_eq!(extract_nearby_text(&items, "发票号码[:：]?", "right", 100_000), "0042");
}

#[test]
fn extreme_coordinates_are_handled() {
    let items = vec![
        item("mark", i64::MIN, i64::MIN),
        item("a", i64::MAX, i64::MAX),
        item("b", i64::MIN + 5, i64::MIN + 1),
    ];
    assert_eq!(extract_nearby_text(&items, "^mark$", "right", i64::MAX), "b");
    assert_eq!(extract_nearby_text(&items, "^mark$", "up", i64::MAX), "b");
    assert_eq!(extract_nearby_text(&items, "^mark$", "right", -1), "");
}

#[test]
fn the_text_around_a_given_item_is_read() {
    let items = vec![
        item("c", 150_000, 50_000),
        item("mark", 100_000, 50_000),
        item("a", 40_000, 55_000),
        item("label:", 120_000, 50_000),
        item(" d ", 180_000, 45_000),
        item("up", 100_000, 80_000),
    ];
    assert_eq!(nearby_text_at(&items, 1, Direction::Right, 100_000), "c  d");
    assert_eq!(nearby_text_at(&items, 1, Direction::Left, 100_000), "a");
    assert_eq!(nearby_text_at(&items, 1, Direction::SameLine, 100_000), "a c  d");
    assert_eq!(nearby_text_at(&items, 1, Direction::Up, 100_000), "up");
    assert_eq!(nearby_text_at(&items, 1, Direction::Down, 100_000), "");
    assert_eq!(nearby_text_at(&items, 0, Direction::Left, 100_000), "mark");
    assert_eq!(nearby_text_at(&items, 6, Direction::Right, 100_000), "");
    assert_eq!(nearby_text_at(&[], 0, Direction::Right, 100_000), "");
}

#[test]
fn directions_have_their_names() {
    assert!(matches!(direction_of("right"), Some(Direction::Right)));
    assert!(matches!(direction_of("left"), Some(Direction::Left)));
    assert!(matches!(direction_of("up"), Some(Direction::Up)));
    assert!(matches!(direction_of("down"), Some(Direction::Down)));
    assert!(matches!(direction_of("same-line"), Some(Direction::SameLine)));
    assert!(direction_of("same line").is_none());
}

#[test]
fn one_more_text_with_a_colon_changes_nothing() {
    let mut items = vec![
        item("mark", 100_000, 50_000),
        item("b", 150_000, 50_000),
        item("a", 120_000, 52_000),
    ];
    let before = extract_nearby_text(&items, "^mark$", "right", 100_000);
    items.push(item("x:", 130_000, 50_000));
    assert_eq!(extract_nearby_text(&items, "^mark$", "right", 100_000), before);
    items.push(item("：", 120_000, 50_000));
    assert_eq!(extract_nearby_text(&items, "^mark$", "right", 100_000), before);
    assert_eq!(before, "a b");
}
