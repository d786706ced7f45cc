use filmcraft::story::{
    clean_text_rules, parse_chapter_range, parse_mb_limit, source_base_slug,
    story_import_max_bytes_for,
};

#[test]
fn parse_mb_limit_covers_default_zero_garbage() {
    assert_eq!(parse_mb_limit("", 64), 64, "空值回缺省");
    assert_eq!(parse_mb_limit(" 8 ", 64), 8, "空白容忍");
    assert_eq!(parse_mb_limit("0", 64), 0, "0=无限标记");
    assert_eq!(parse_mb_limit("abc", 64), 64, "垃圾值回缺省");
    assert_eq!(parse_mb_limit("-1", 64), 64, "负数解析失败回缺省");
    // env 缺省口径：未设 env 时上限=64MB（超宽护栏；0 才是无限）
    assert_eq!(story_import_max_bytes_for(None), Some(64 * 1024 * 1024));
}

#[test]
fn clean_text_rules_strips_ads_blanks_and_punct() {
    let text = "\n\n  第一章 风起  \n更多精彩请访问 www.abc.com\n\n\n小说正文,清晨的雾:他喊了一声!\n英文 keep a,b: c? ok.\n\n求收藏求月票\n";
    let (out, report) = clean_text_rules(text);
    assert!(!out.contains("www.abc.com") && !out.contains("更多精彩"), "{out}");
    assert!(!out.contains("求收藏"), "{out}");
    assert!(out.starts_with("第一章 风起"), "首尾空行+行首空白归一: {out:?}");
    assert!(
        out.contains("小说正文，清晨的雾：他喊了一声！"),
        "CJK 邻接标点归一: {out}"
    );
    assert!(out.contains("keep a,b: c? ok."), "纯 ASCII 语境不动: {out}");
    assert_eq!(report.ad_lines_removed, 2, "两条广告行");
    assert_eq!(report.chars_out, out.chars().count(), "报告口径一致");
    assert!(report.blank_lines_removed >= 2, "空行折叠+首尾去除: {report:?}");
    assert!(!out.contains("\n\n\n"), "连续空行折叠为单空行");
}

#[test]
fn source_base_slug_and_chapter_range() {
    assert_eq!(source_base_slug("story/source-小说原文.txt"), "小说原文");
    assert_eq!(source_base_slug("story/cleaned-novel.txt"), "novel");
    assert_eq!(source_base_slug("story/x.md"), "x");
    assert_eq!(parse_chapter_range("1-5"), Some((1, 5)));
    assert_eq!(parse_chapter_range("3"), Some((3, 3)));
    assert_eq!(parse_chapter_range(" 2-4 "), Some((2, 4)));
    assert_eq!(parse_chapter_range("5-1"), None, "倒序非法");
    assert_eq!(parse_chapter_range("x"), None);
}

#[test]
fn cleaned_text_exact_form() {
    let (out, r) = clean_text_rules("\n\n  第一章 风起  \n更多精彩请访问 www.abc.com\n\n\n小说正文,清晨的雾:他喊了一声!\n英文 keep a,b: c? ok.\n\n求收藏求月票\n");
    assert_eq!(out, "第一章 风起\n\n小说正文，清晨的雾：他喊了一声！\n英文 keep a,b: c? ok.");
    assert_eq!(r.blank_lines_removed, 4);
    assert_eq!(r.chars_in, 80);
    let (empty, r0) = clean_text_rules("");
    assert_eq!((empty.as_str(), r0.ad_lines_removed, r0.blank_lines_removed), ("", 0, 0));
    let (t, _) = clean_text_rules("a\r\nhttps://x.y\r\n\r\nb;c\n");
    assert_eq!(t, "a\n\nb;c");
}

#[test]
fn story_limits_and_names_edge_cases() {
    assert_eq!(story_import_max_bytes_for(Some("0")), None);
    assert_eq!(story_import_max_bytes_for(Some(" 3 ")), Some(3 * 1024 * 1024));
    assert_eq!(story_import_max_bytes_for(Some("x")), Some(64 * 1024 * 1024));
    assert_eq!(source_base_slug("story/source-.txt"), "source");
    assert_eq!(source_base_slug("my novel"), "my-novel");
    assert_eq!(parse_chapter_range("0"), None);
    assert_eq!(parse_chapter_range("2 - 2"), Some((2, 2)));
    assert_eq!(parse_chapter_range("1-"), None);
}
