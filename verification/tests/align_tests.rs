use winsnap::{cell, format_row, pad_center, pad_left, pad_right, red, truncate, Alignment, DisplayWidth};

#[test]
fn test_pad_left() {
    assert_eq!(pad_left("你好", 6), "你好  ");
    assert_eq!(pad_left("abc", 5), "abc  ");
    // Text wider than the column is returned unchanged.
    assert_eq!(pad_left("过长文本", 2), "过长文本");
}

#[test]
fn test_pad_right() {
    assert_eq!(pad_right("你好", 6), "  你好");
}

#[test]
fn test_pad_center() {
    assert_eq!(pad_center("你好", 6), " 你好 ");
    assert_eq!(pad_center("a", 4), " a  ");
}

#[test]
fn test_truncate_short() {
    assert_eq!(truncate("hello", 10), "hello");
}

#[test]
fn test_truncate_cjk() {
    let r = truncate("你好世界", 6);
    assert_eq!(r, "你...");
    assert!(r.display_width() <= 6);
}

#[test]
fn test_format_row() {
    let cells = vec![
        cell("A".into(), 4, Alignment::Left),
        cell("B".into(), 4, Alignment::Right),
    ];
    assert_eq!(format_row(&cells, "  "), "A        B");
}

#[test]
fn test_format_row_with_color() {
    let cells = vec![
        cell(red("名称"), 8, Alignment::Left),
        cell("值".into(), 6, Alignment::Left),
    ];
    let row = format_row(&cells, " ");
    assert_eq!(row.display_width(), 15);
}

#[test]
fn wider_text_is_left_as_is_by_every_alignment() {
    assert_eq!(pad_right("过长文本", 3), "过长文本");
    assert_eq!(pad_center("abcdef", 4), "abcdef");
    assert_eq!(pad_center("abcd", 4), "abcd");
}

#[test]
fn row_width_is_cells_plus_separators() {
    let cells = vec![
        cell(red("名称"), 8, Alignment::Left),
        cell("值".into(), 6, Alignment::Right),
        cell("x".into(), 5, Alignment::Center),
        // Wider than its column: counts with its own width.
        cell("宽宽宽".into(), 2, Alignment::Left),
    ];
    let row = format_row(&cells, "   ");
    assert_eq!(row.display_width(), 8 + 6 + 5 + 6 + 3 * 3);
    let one = vec![cell("ab".into(), 7, Alignment::Center)];
    assert_eq!(format_row(&one, " ").display_width(), 7);
}

#[test]
fn truncate_doc_examples() {
    assert_eq!(truncate("hello world", 8), "hello...");
    assert_eq!(truncate("你好世界", 6), "你...");
    assert_eq!(truncate("短文本", 10), "短文本");
}

#[test]
fn truncate_never_exceeds_the_limit() {
    // Fewer than three columns: only as many dots as fit.
    assert_eq!(truncate("hello", 2), "..");
    assert_eq!(truncate("hello", 1), ".");
    assert_eq!(truncate("hello", 0), "");
    // Control characters count one column each inside a string.
    let r = truncate("\u{1}\u{2}\u{3}\u{4}", 3);
    assert_eq!(r, "...");
    assert!(r.display_width() <= 3);
    // Colour codes take no columns.
    let r = truncate(&red("hello world"), 8);
    assert_eq!(r, "\u{1b}[31mhello...");
    assert_eq!(r.display_width(), 8);
    for max in 0..14 {
        for t in ["hello world", "你好世界", "a你b好c", "\u{1}x\u{2}y"] {
            assert!(truncate(t, max).display_width() <= max, "{t:?} {max}");
        }
    }
}

#[test]
fn row_width_with_other_separators() {
    let cells = vec![
        cell("名".into(), 4, Alignment::Right),
        cell(red("ab"), 3, Alignment::Center),
        cell("x".into(), 2, Alignment::Left),
    ];
    assert_eq!(format_row(&cells, ", ").display_width(), 4 + 3 + 2 + 2 * 2);
    assert_eq!(format_row(&cells, " | ").display_width(), 4 + 3 + 2 + 2 * 3);
    assert_eq!(format_row(&cells, "-").display_width(), 4 + 3 + 2 + 2);
}
