use winsnap::{format_size, gray, green, strip_ansi};

#[test]
fn test_strip_ansi_simple() {
    assert_eq!(strip_ansi("\x1b[31m红\x1b[0m"), "红");
}

#[test]
fn test_strip_ansi_complex() {
    assert_eq!(strip_ansi("\x1b[1;31m粗体红\x1b[0m"), "粗体红");
}

#[test]
fn test_strip_ansi_no_codes() {
    assert_eq!(strip_ansi("普通文本"), "普通文本");
}

#[test]
fn test_strip_ansi_empty() {
    assert_eq!(strip_ansi(""), "");
}

#[test]
fn test_strip_ansi_mixed() {
    let input = format!("{} 完成 {}", green("✓"), gray("1.2秒"));
    let cleaned = strip_ansi(&input);
    assert_eq!(cleaned, "✓ 完成 1.2秒");
}

#[test]
fn test_bytes() {
    assert_eq!(format_size(0), "0B");
    assert_eq!(format_size(512), "512B");
    assert_eq!(format_size(1023), "1023B");
}

#[test]
fn test_kb() {
    assert_eq!(format_size(1024), "1.0KB");
    assert_eq!(format_size(1536), "1.5KB");
    assert_eq!(format_size(10_240), "10KB");
    assert_eq!(format_size(102_400), "100KB");
}

#[test]
fn test_mb() {
    assert_eq!(format_size(1_048_576), "1.0MB");
    assert_eq!(format_size(1_572_864), "1.5MB");
}

#[test]
fn test_gb() {
    assert_eq!(format_size(1_073_741_824), "1.0GB");
}

#[test]
fn test_tb() {
    assert_eq!(format_size(1_099_511_627_776), "1.0TB");
}

#[test]
fn painting_strips_back_to_the_text() {
    use_style_paint();
}

fn use_style_paint() {
    for t in ["plain", "中文", "", "a\u{1b}[1mb"] {
        let painted = winsnap::Style::new(31).bold().paint(t);
        assert_eq!(strip_ansi(&painted), strip_ansi(t));
        assert_eq!(strip_ansi(&green(t)), strip_ansi(t));
    }
}

#[test]
fn other_escape_sequences_are_kept() {
    assert_eq!(strip_ansi("\x1b7ab"), "\x1b7ab");
    assert_eq!(strip_ansi("\x1b[2Jab"), "\x1b[2Jab");
    assert_eq!(strip_ansi("a\x1b[31"), "a\x1b[31");
    assert_eq!(strip_ansi("a\x1b"), "a\x1b");
    assert_eq!(strip_ansi("\x1b[3中\x1b[1mx"), "\x1b[3中x");
    assert_eq!(strip_ansi("\x1b\x1b[1mb"), "\x1bb");
    assert_eq!(strip_ansi("\x1b[1;31m粗\x1b[0m\x1b[K"), "粗\x1b[K");
}
