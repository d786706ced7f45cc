use filmcraft::model::FilmCharacter;
use filmcraft::prompts::roster_entries;
use filmcraft::prompts::{
    build_extract_prompt, build_retry_prompt, build_script_prompt, build_story_prompt,
    build_storyboard_prompt, build_storyboard_retry_prompt, default_portrait_prompt,
    default_view_prompt, truncate_chars,
};
use filmcraft::script::{script_candidates, strip_think_blocks};

const HARD_CONSTRAINT_FRAGMENTS: [&str; 3] = ["禁止更换题材", "禁止另编", "直接服务于该创意的叙事"];

#[test]
fn retry_prompt_tightens_output() {
    let p = build_retry_prompt("一只猫在霓虹城市里寻找回家路", &[]);
    assert!(p.contains('[') && p.contains(']'), "应要求数组本体: {p}");
    assert!(p.contains("markdown"), "应禁 markdown 标记: {p}");
}

#[test]
fn script_prompt_carries_idea_ratio_style() {
    let p = build_script_prompt("创意X", "9:16", Some("水墨"), &[]);
    assert!(p.contains("创意X") && p.contains("9:16") && p.contains("水墨"));
    assert!(p.contains("duration_secs") && p.contains("image_prompt"));
    assert!(!p.contains("角色表"), "空角色表不注入角色段: {p}");
    let p2 = build_script_prompt("创意Y", "16:9", None, &[]);
    assert!(p2.contains("电影感"), "缺省风格提示: {p2}");
}

#[test]
fn script_prompt_has_hard_topic_constraints_and_double_anchor() {
    let idea = "一只猫在霓虹城市里寻找回家路";
    let p = build_script_prompt(idea, "16:9", None, &[]);
    for frag in HARD_CONSTRAINT_FRAGMENTS {
        assert!(p.contains(frag), "script 提示词应含硬约束「{frag}」: {p}");
    }
    assert!(p.matches(idea).count() >= 2, "创意应首尾双锚定: {p}");
}

#[test]
fn retry_prompt_has_hard_topic_constraints_and_idea_anchored() {
    let idea = "一只猫在霓虹城市里寻找回家路";
    let p = build_retry_prompt(idea, &[]);
    for frag in HARD_CONSTRAINT_FRAGMENTS {
        assert!(p.contains(frag), "retry 提示词应含硬约束「{frag}」: {p}");
    }
    assert!(p.contains(idea), "retry 提示词应嵌创意原文: {p}");
}

#[test]
fn default_portrait_prompt_uses_description() {
    let p = default_portrait_prompt("小明", "黑发少年");
    assert!(p.contains("小明") && p.contains("黑发少年"), "{p}");
    assert!(p.contains("定妆照"), "定妆口径: {p}");
}

#[test]
fn story_prompt_double_anchor_and_source_block() {
    let p = build_story_prompt("猫回家", "16:9", Some("水墨"), None);
    assert!(p.matches("猫回家").count() >= 2, "创意首尾双锚定: {p}");
    assert!(p.contains("禁止更换题材") && p.contains("禁止另编"));
    assert!(p.contains("【第一幕】") && p.contains("3 到 6 幕"));
    assert!(!p.contains("改编原文"));
    let p2 = build_story_prompt("猫回家", "16:9", None, Some("原文内容 ABC"));
    assert!(p2.contains("【改编原文】") && p2.contains("原文内容 ABC"), "{p2}");
    assert!(p2.contains("改编浓缩"));
}

#[test]
fn storyboard_prompt_reads_story_and_casting_slots() {
    let story = "【第一幕】灯塔下的猫。\n【第二幕】屋顶追逐。";
    let p = build_storyboard_prompt(Some(story), "创意X", "9:16", None, &[]);
    assert!(p.contains("【剧情】") && p.contains("灯塔下的猫"), "{p}");
    assert!(p.contains("从剧情逐幕分析"));
    assert!(p.contains("禁止更换题材"), "题材硬约束同款: {p}");
    for f in ["\"characters\"", "\"props\"", "\"pets\"", "\"scenes\"", "\"actions\""] {
        assert!(p.contains(f), "casting 空槽字段 {f}: {p}");
    }
    assert!(p.contains("定妆阶段建定妆对象"), "引用语义说明: {p}");
    let p2 = build_storyboard_prompt(None, "创意X", "16:9", None, &[]);
    assert!(p2.contains("【创意】") && p2.contains("创意X"), "{p2}");
    let p3 = build_storyboard_prompt(None, "创意X", "16:9", None, &["小明".into(), "小红".into()]);
    assert!(p3.contains("【角色表】") && p3.contains("小明"), "{p3}");
}

#[test]
fn extract_prompt_defines_six_classes_and_frequency_rule() {
    let shots = r#"[{"actions":[],"characters":[],"desc":"镜头1画面","pets":[],"props":[],"scenes":[],"shot":1}]"#;
    let p = build_extract_prompt("剧情正文", shots);
    for k in ["characters", "weapons", "pets", "formations", "actions", "scenes"] {
        assert!(p.contains(&format!("- {k}：")), "六类定义 {k}: {p}");
    }
    assert!(p.contains("frequency 必须是整数"), "统计要求: {p}");
    assert!(p.contains("出场的镜头数"), "{p}");
    assert!(p.contains("只输出一个 JSON 对象"), "{p}");
    assert!(p.contains("【剧情】剧情正文\n【分镜】[{"), "{p}");
}

#[test]
fn storyboard_retry_prompt_anchors_story_or_idea() {
    let p = build_storyboard_retry_prompt(Some("【第一幕】灯塔"), "创意Z");
    assert!(p.contains("灯塔"), "{p}");
    let p2 = build_storyboard_retry_prompt(None, "创意Z");
    assert!(p2.contains("创意Z"), "{p2}");
}

#[test]
fn view_prompt_wording_by_class() {
    assert_eq!(
        default_view_prompt("characters", "黑发少年", "正面"),
        "同一定妆对象的多视图：黑发少年，正面 视图，严格一致外形"
    );
    assert_eq!(
        default_view_prompt("scenes", "灯塔顶", "全景"),
        "定妆对象（scenes）的 全景 视图定妆图：灯塔顶，严格一致外形"
    );
}

#[test]
fn truncate_chars_counts_characters() {
    assert_eq!(truncate_chars("猫回家", 3), "猫回家");
    let t = truncate_chars("猫回家了", 2);
    assert!(t.starts_with("猫回\n"), "{t}");
    assert!(t.contains("2 字符"), "{t}");
}

#[test]
fn strip_think_blocks_drops_closed_and_open_blocks() {
    assert_eq!(strip_think_blocks("<think>a[0]</think>前言<think>b</think>[1]"), "前言[1]");
    assert_eq!(strip_think_blocks("[1]<think>还没想好"), "[1]");
    assert_eq!(strip_think_blocks("无思考"), "无思考");
}

#[test]
fn script_candidates_skip_reasoning_brackets() {
    let c = script_candidates("<think>噪声 [9]</think>好的：[{\"desc\":\"d\"}] 完");
    assert!(!c.is_empty());
    assert!(c.iter().all(|s| !s.contains("噪声")), "{c:?}");
    assert!(c.iter().any(|s| s == "[{\"desc\":\"d\"}]"), "{c:?}");
}

#[test]
fn roster_entries_number_characters() {
    let mk = |name: &str, desc: &str| FilmCharacter {
        id: "char-1".into(),
        project_id: "film-1".into(),
        name: name.into(),
        description: desc.into(),
        voice: None,
        portrait_ref: None,
        created_at: String::new(),
        updated_at: String::new(),
    };
    let e = roster_entries(&[mk("小明", "黑发少年"), mk("小红", "双马尾")]);
    assert_eq!(e, vec!["1. 小明：黑发少年".to_string(), "2. 小红：双马尾".to_string()]);
}
