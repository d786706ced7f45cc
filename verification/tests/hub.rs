use filmcraft::paths::{percent_decode, slugify};

#[test]
fn slugify_keeps_cjk_and_folds_punctuation() {
    assert_eq!(slugify("小明"), "小明");
    assert_eq!(slugify(" 小明 & 小红 v2 "), "小明-小红-v2");
    assert_eq!(slugify("!!!"), "", "全符号 slug 为空（调用面须兜底）");
    assert_eq!(slugify("a/b\\c"), "a-b-c", "路径分隔符折叠");
}

#[test]
fn percent_decode_segments() {
    assert_eq!(percent_decode("%E5%B0%8F%E6%98%8E"), "小明");
    assert_eq!(percent_decode("plain-name"), "plain-name");
    assert_eq!(percent_decode("100%"), "100%", "非法序列原样保留");
}
