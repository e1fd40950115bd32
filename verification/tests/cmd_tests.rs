use winsnap::cmd::{
    command_of, compute_layout, contains, find_window, first_title_match, is_meaningful, list_json,
    list_windows_json, parse_align, parse_cmd_args, parse_i32, parse_u32, parse_usize, pick_by_pid,
    restore_json, scale_basis, screen_json, serde_json_title, snap_json, window_json, Align, Command,
    WinInfo,
};

fn win(hwnd: isize, pid: u32, title: &str, w: i32, h: i32) -> WinInfo {
    WinInfo { hwnd, pid, title: title.to_string(), x: 10, y: 20, w, h }
}

fn args(list: &[&str]) -> Vec<String> {
    list.iter().map(|s| s.to_string()).collect()
}

#[test]
fn meaningful_windows() {
    assert!(is_meaningful(&win(1, 1, "Editor", 800, 600)));
    assert!(!is_meaningful(&win(1, 1, "Editor", 100, 600)));
    assert!(!is_meaningful(&win(1, 1, "", 800, 600)));
    assert!(!is_meaningful(&win(1, 1, "New Tab", 800, 600)));
    assert!(!is_meaningful(&win(1, 1, "新标签页", 800, 600)));
    assert!(!is_meaningful(&win(1, 1, "还原页面", 800, 600)));
    assert!(!is_meaningful(&win(1, 1, "Restore pages", 800, 600)));
}

#[test]
fn by_pid_prefers_meaningful_then_largest() {
    let wins = vec![
        win(1, 7, "", 2000, 2000),
        win(2, 7, "Main", 800, 600),
        win(3, 7, "Tool", 300, 200),
        win(4, 8, "Other", 1900, 1000),
    ];
    assert_eq!(pick_by_pid(&wins, 7).map(|w| w.hwnd), Some(2));
    assert_eq!(pick_by_pid(&wins, 9).map(|w| w.hwnd), None);
    // No meaningful window: the largest of all, the last one on ties.
    let small = vec![win(5, 3, "", 40, 40), win(6, 3, "", 40, 40), win(7, 3, "", 10, 10)];
    assert_eq!(pick_by_pid(&small, 3).map(|w| w.hwnd), Some(6));
}

#[test]
fn substring_search() {
    assert!(contains("visual studio code", "studio"));
    assert!(contains("abc", ""));
    assert!(contains("abc", "abc"));
    assert!(!contains("abc", "abcd"));
    assert!(!contains("ab", "ba"));
    assert!(contains("记事本 - 无标题", "无标题"));
}

#[test]
fn by_title_ignores_case() {
    let wins = vec![
        win(1, 1, "New Tab", 800, 600),
        win(2, 2, "Notes - Notepad", 50, 600),
        win(3, 3, "Notes - NOTEPAD", 800, 600),
        win(4, 4, "Other Notepad", 800, 600),
    ];
    assert_eq!(find_window(&wins, None, Some("notepad")).map(|w| w.hwnd), Some(3));
    assert_eq!(find_window(&wins, None, Some("missing")).map(|w| w.hwnd), None);
    assert_eq!(find_window(&wins, Some(4), Some("notes")).map(|w| w.hwnd), Some(4));
    assert_eq!(find_window(&wins, None, None).map(|w| w.hwnd), None);
}

#[test]
fn title_match_with_given_lowercase() {
    let wins = vec![win(1, 1, "Alpha", 800, 600), win(2, 2, "Beta", 800, 600)];
    let lowered = vec!["alpha".to_string(), "beta".to_string()];
    assert_eq!(first_title_match(&wins, &lowered, "eta").map(|w| w.hwnd), Some(2));
    assert_eq!(first_title_match(&wins, &lowered, "ALPHA").map(|w| w.hwnd), None);
}

#[test]
fn json_titles() {
    assert_eq!(serde_json_title("plain"), "\"plain\"");
    assert_eq!(serde_json_title("a\"b\\c"), "\"a\\\"b\\\\c\"");
    assert_eq!(serde_json_title("l1\nl2\r\t"), "\"l1\\nl2\\r\\t\"");
    assert_eq!(serde_json_title("\u{1}\u{1f}"), "\"\\u0001\\u001f\"");
    assert_eq!(serde_json_title("中文"), "\"中文\"");
}

#[test]
fn window_entries() {
    let w = WinInfo { hwnd: 0x1A2B, pid: 42, title: "T".to_string(), x: -8, y: 0, w: 1936, h: 1048 };
    assert_eq!(
        window_json(&w),
        "{\"hwnd\":\"1A2B\",\"pid\":42,\"title\":\"T\",\"x\":-8,\"y\":0,\"w\":1936,\"h\":1048}"
    );
    let neg = WinInfo { hwnd: -1, pid: 1, title: String::new(), x: 0, y: 0, w: 0, h: 0 };
    let expect = format!("{{\"hwnd\":\"{:X}\",\"pid\":1,\"title\":\"\",\"x\":0,\"y\":0,\"w\":0,\"h\":0}}", -1isize);
    assert_eq!(window_json(&neg), expect);
}

#[test]
fn list_output() {
    let wins = vec![
        win(1, 1, "Alpha", 800, 600),
        win(2, 1, "Tiny", 40, 40),
        win(3, 2, "Beta", 800, 600),
        win(4, 1, "alphabet", 300, 300),
    ];
    let all = list_windows_json(&wins, None, None, 100);
    assert!(all.starts_with("{\"count\":3,\"windows\":["));
    assert!(all.ends_with("]}"));
    assert_eq!(
        list_windows_json(&wins, Some(1), Some("ALPHA"), 1),
        format!("{{\"count\":2,\"windows\":[{}]}}", window_json(&wins[0]))
    );
    assert_eq!(
        list_windows_json(&wins, Some(1), None, 5),
        format!("{{\"count\":2,\"windows\":[{},{}]}}", window_json(&wins[0]), window_json(&wins[3]))
    );
    assert_eq!(list_windows_json(&wins, Some(9), None, 5), "{\"count\":0,\"windows\":[]}");
    let lowered = vec!["alpha".to_string(), "tiny".to_string(), "beta".to_string(), "alphabet".to_string()];
    assert_eq!(
        list_json(&wins, &lowered, None, Some("bet"), 0),
        "{\"count\":2,\"windows\":[]}"
    );
}

#[test]
fn other_outputs() {
    assert_eq!(
        screen_json(1920, 1080, (0, 0, 1920, 1040)),
        "{\"screen\":{\"w\":1920,\"h\":1080},\"workArea\":{\"x\":0,\"y\":0,\"w\":1920,\"h\":1040}}"
    );
    let w = WinInfo { hwnd: 255, pid: 7, title: "Ed".to_string(), x: 0, y: 0, w: 10, h: 10 };
    assert_eq!(
        snap_json(&w, "left", (-7, 8, 966, 1031), true),
        "{\"hwnd\":\"FF\",\"pid\":7,\"title\":\"Ed\",\"align\":\"left\",\"rect\":{\"x\":-7,\"y\":8,\"w\":966,\"h\":1031},\"ok\":true}"
    );
    assert_eq!(restore_json(&w), "{\"hwnd\":\"FF\",\"pid\":7,\"restored\":true}");
}

#[test]
fn number_parsing() {
    assert_eq!(parse_u32("42"), Some(42));
    assert_eq!(parse_u32("+42"), Some(42));
    assert_eq!(parse_u32("-1"), None);
    assert_eq!(parse_u32("4294967295"), Some(u32::MAX));
    assert_eq!(parse_u32("4294967296"), None);
    assert_eq!(parse_u32(""), None);
    assert_eq!(parse_u32("+"), None);
    assert_eq!(parse_u32("1 "), None);
    assert_eq!(parse_i32("-8"), Some(-8));
    assert_eq!(parse_i32("-2147483648"), Some(i32::MIN));
    assert_eq!(parse_i32("2147483648"), None);
    assert_eq!(parse_i32("-"), None);
    assert_eq!(parse_usize("100"), Some(100));
    assert_eq!(parse_usize("99999999999999999999999999"), None);
    for s in ["0", "007", "12x", "x", "+-1", "-0", "18446744073709551615", "4294967295"] {
        assert_eq!(parse_u32(s), s.parse::<u32>().ok(), "{s}");
        assert_eq!(parse_i32(s), s.parse::<i32>().ok(), "{s}");
        assert_eq!(parse_usize(s), s.parse::<usize>().ok(), "{s}");
    }
}

#[test]
fn command_line_options() {
    let a = parse_cmd_args(&args(&["winsnap", "--cmd", "snap", "--pid", "1234", "--align", "left", "--gap", "-3"]));
    assert_eq!(a.sub, "snap");
    assert_eq!(a.pid, Some(1234));
    assert_eq!(a.title, None);
    assert_eq!(a.align, "left");
    assert_eq!(a.scale, None);
    assert_eq!(a.gap, -3);
    assert_eq!(a.top, 100);
    let b = parse_cmd_args(&args(&["winsnap", "--cmd", "list", "--title", "Code", "--top", "x", "--scale", "0.5", "--pid"]));
    assert_eq!(b.sub, "list");
    assert_eq!(b.pid, None);
    assert_eq!(b.title, Some("Code".to_string()));
    assert_eq!(b.align, "proportional");
    assert_eq!(b.scale, Some("0.5".to_string()));
    assert_eq!(b.gap, 8);
    assert_eq!(b.top, 100);
    let c = parse_cmd_args(&args(&["winsnap", "--cmd"]));
    assert_eq!(c.sub, "");
    // The first occurrence of a flag counts.
    let d = parse_cmd_args(&args(&["--gap", "4", "--gap", "6"]));
    assert_eq!(d.gap, 4);
}

#[test]
fn commands() {
    assert_eq!(command_of("screen"), Command::Screen);
    assert_eq!(command_of("list"), Command::List);
    assert_eq!(command_of("snap"), Command::Snap);
    assert_eq!(command_of("restore"), Command::Restore);
    assert_eq!(command_of(""), Command::Usage);
    assert_eq!(command_of("Snap"), Command::Usage);
}

#[test]
fn layouts() {
    assert_eq!(parse_align("left"), Align::Left);
    assert_eq!(parse_align("right-edge"), Align::RightEdge);
    assert_eq!(parse_align("full"), Align::Full);
    assert_eq!(parse_align("bogus"), Align::Full);
    let wa = (0, 0, 1920, 1040);
    let off = (7, 0, 7, 7);
    // Inside the 8 px gap: 1904 x 1024.
    assert_eq!(compute_layout(Align::Full, wa, 8, off, (0, 0)), (1, 8, 1918, 1031));
    assert_eq!(compute_layout(Align::Left, wa, 8, off, (0, 0)), (1, 8, 966, 1031));
    assert_eq!(compute_layout(Align::Right, wa, 8, off, (0, 0)), (953, 8, 966, 1031));
    assert_eq!(compute_layout(Align::LeftEdge, wa, 8, off, (0, 0)), (1, 8, 490, 1031));
    assert_eq!(compute_layout(Align::RightEdge, wa, 8, off, (0, 0)), (1429, 8, 490, 1031));
    assert_eq!(scale_basis(Align::Center, wa, 8), Some((1904, 1024)));
    assert_eq!(scale_basis(Align::Proportional, wa, 8), Some((1920, 1040)));
    assert_eq!(scale_basis(Align::Left, wa, 8), None);
    // 1904 * 0.7 and 1024 * 0.7, truncated.
    assert_eq!(compute_layout(Align::Center, wa, 8, off, (1332, 716)), (287, 162, 1346, 723));
    // 1920 * 0.8 and 1040 * 0.8, truncated.
    assert_eq!(compute_layout(Align::Proportional, wa, 8, off, (1536, 832)), (185, 104, 1550, 839));
}

#[test]
fn half_and_quarter_widths_match_float_scaling() {
    for vw in [-7, -1, 0, 1, 2, 3, 5, 1903, 1904, 1905] {
        let wa = (0, 0, vw + 16, 100);
        let half = compute_layout(Align::Left, wa, 8, (0, 0, 0, 0), (0, 0)).2;
        assert_eq!(half, (vw as f64 * 0.5) as i32);
        let quarter = compute_layout(Align::LeftEdge, wa, 8, (0, 0, 0, 0), (0, 0)).2;
        assert_eq!(quarter, (vw as f64 * 0.25) as i32);
    }
}
