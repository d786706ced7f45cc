use filmcraft::hub::{story_doc, story_source_candidates};
use filmcraft::model::ScriptShot;
use filmcraft::script::unknown_character_bindings;
use filmcraft::doc::{render_doc, split_front_matter, FrontMatter};
use filmcraft::hub::{
    bgm_info_doc, card_doc, card_of, count_acts, project_md_content, read_bgm_info,
    readme_content, select_bgm_input, stage_label, status_to_stage, story_summary,
    validate_trigger, BgmTrack, CastingCard,
};
use filmcraft::model::FilmProject;

fn table(pairs: &[(&str, &str)]) -> FrontMatter {
    let mut fm = FrontMatter::new();
    for (k, v) in pairs {
        fm.insert(k.to_string(), v.to_string());
    }
    fm
}

fn project(export_dir: Option<&str>, style_hint: Option<&str>) -> FilmProject {
    FilmProject {
        id: "film-1".into(),
        title: "落日航线".into(),
        idea: "一只猫回家".into(),
        ratio: "16:9".into(),
        style_hint: style_hint.map(String::from),
        status: "draft".into(),
        dir: "/data/film-1".into(),
        export_dir: export_dir.map(String::from),
        created_at: String::new(),
        updated_at: String::new(),
    }
}

#[test]
fn front_matter_roundtrip_and_quote_escaping() {
    let mut fm = FrontMatter::new();
    fm.insert("title".to_string(), "落日: 航线 #1".to_string());
    fm.insert("summary".to_string(), "一句话梗概".to_string());
    let doc = render_doc(&fm, "正文第一幕……");
    let (parsed, body) = split_front_matter(&doc);
    assert_eq!(parsed.get("title").unwrap(), "落日: 航线 #1", "含冒号/井号值加引号往返: {doc}");
    assert_eq!(parsed.get("summary").unwrap(), "一句话梗概");
    assert!(body.contains("正文第一幕"));
    let (m2, b2) = split_front_matter("纯正文");
    assert!(m2.is_empty());
    assert_eq!(b2, "纯正文");
}

#[test]
fn render_doc_exact_text_and_key_order() {
    let fm = table(&[("title", "落日: 航线"), ("ratio", "16:9"), ("note", "")]);
    assert_eq!(
        render_doc(&fm, "正文"),
        "---\nnote: \"\"\nratio: \"16:9\"\ntitle: \"落日: 航线\"\n---\n\n正文"
    );
    assert_eq!(render_doc(&fm, ""), "---\nnote: \"\"\nratio: \"16:9\"\ntitle: \"落日: 航线\"\n---\n");
    assert_eq!(render_doc(&FrontMatter::new(), "正文"), "正文");
    let quoted = table(&[("say", "他说\"走\""), ("pad", " x ")]);
    assert_eq!(render_doc(&quoted, ""), "---\npad: \" x \"\nsay: \"他说\\\"走\\\"\"\n---\n");
}

#[test]
fn render_is_the_same_whatever_the_insert_order() {
    let a = table(&[("b", "2"), ("a", "1"), ("c", "3")]);
    let b = table(&[("c", "3"), ("a", "1"), ("b", "2")]);
    assert_eq!(render_doc(&a, "x"), render_doc(&b, "x"));
    let keys: Vec<&str> = a.entries().iter().map(|(k, _)| k.as_str()).collect();
    assert_eq!(keys, vec!["a", "b", "c"]);
}

#[test]
fn insert_replaces_existing_key() {
    let mut fm = table(&[("k", "old")]);
    fm.insert("k".to_string(), "new".to_string());
    assert_eq!(fm.len(), 1);
    assert_eq!(fm.get("k").unwrap(), "new");
    assert!(fm.get("missing").is_none());
}

#[test]
fn split_reads_quotes_escapes_bom_and_later_lines() {
    let text = "\u{feff}---\ntitle: \"a \\\"b\\\" c\"\nk: 1\nk: 2\n: skipped\nno colon\n---\n\n\nbody";
    let (fm, body) = split_front_matter(text);
    assert_eq!(fm.get("title").unwrap(), "a \"b\" c");
    assert_eq!(fm.get("k").unwrap(), "2", "later line wins");
    assert_eq!(fm.len(), 2);
    assert_eq!(body, "body");
    let (m, b) = split_front_matter("---\nk: v\nno closing line");
    assert!(m.is_empty());
    assert_eq!(b, "---\nk: v\nno closing line");
}

#[test]
fn roundtrip_of_many_values() {
    let values = ["plain", "a:b", "#tag", "\"q\"", " lead", "trail ", "\\\"", "", "中文 值"];
    for v in values {
        let fm = table(&[("key", v), ("other", "x")]);
        let (back, body) = split_front_matter(&render_doc(&fm, "正文"));
        assert_eq!(back.get("key").unwrap(), v, "value {v:?}");
        assert_eq!(back.get("other").unwrap(), "x");
        assert_eq!(body, "正文");
    }
}

#[test]
fn stage_labels_and_initial_stages() {
    assert_eq!(stage_label("story"), "剧情");
    assert_eq!(stage_label("storyboard"), "分镜");
    assert_eq!(stage_label("casting"), "定妆");
    assert_eq!(stage_label("audio"), "音频");
    assert_eq!(stage_label("compose"), "合成");
    assert_eq!(stage_label("other"), "未知");
    assert_eq!(status_to_stage("scripted"), "storyboard");
    assert_eq!(status_to_stage("producing"), "audio");
    assert_eq!(status_to_stage("done"), "compose");
    assert_eq!(status_to_stage("draft"), "story");
}

#[test]
fn readme_content_front_matter_and_body() {
    let r = readme_content("casting", "定妆进行中");
    assert_eq!(
        r,
        "---\nprogress: 定妆进行中\nstage: casting\n---\n\n# FilmHub 项目\n\n- 当前阶段：casting（定妆）\n- 进度：定妆进行中\n\n阶段序：story → storyboard → casting → audio → compose。\n详细契约见 docs/FILM_STUDIO.md。\n"
    );
    let (fm, _) = split_front_matter(&r);
    assert_eq!(fm.get("stage").unwrap(), "casting");
}

#[test]
fn project_md_lists_present_fields_in_key_order() {
    assert_eq!(
        project_md_content(&project(None, None)),
        "---\nratio: \"16:9\"\ntitle: 落日航线\n---\n\n一只猫回家"
    );
    assert_eq!(
        project_md_content(&project(Some(" /exports/a "), Some("  水墨 "))),
        "---\nexport_dir: /exports/a\nratio: \"16:9\"\nstyle_hint: 水墨\ntitle: 落日航线\n---\n\n一只猫回家"
    );
    assert_eq!(
        project_md_content(&project(Some("  "), Some(""))),
        "---\nratio: \"16:9\"\ntitle: 落日航线\n---\n\n一只猫回家"
    );
}

#[test]
fn validate_trigger_accepts_global_and_scenes() {
    assert_eq!(validate_trigger(" global ").unwrap(), "global");
    assert_eq!(validate_trigger("scene: 灯塔顶 ").unwrap(), "scene:灯塔顶");
    let err = validate_trigger("scene:a/b").unwrap_err();
    assert_eq!(err, "trigger 须为 global 或 scene:<场景名>（当前 scene:a/b）");
    assert!(validate_trigger("scene:  ").is_err());
    assert!(validate_trigger("Global").is_err());
    let once = validate_trigger(" scene:  港口 ").unwrap();
    assert_eq!(validate_trigger(&once).unwrap(), once, "validation is idempotent");
}

#[test]
fn select_bgm_input_prefers_pick_then_global_then_legacy() {
    let tracks = vec![
        BgmTrack { track: "a".into(), trigger: "scene:x".into(), has_track: true },
        BgmTrack { track: "b".into(), trigger: "global".into(), has_track: false },
        BgmTrack { track: "c".into(), trigger: "global".into(), has_track: true },
    ];
    assert_eq!(
        select_bgm_input(Some(" a "), true, &tracks, true),
        (Some("hub/audio/bgm/a/track.mp3".to_string()), Some("a".to_string()))
    );
    assert_eq!(select_bgm_input(Some("zz"), false, &tracks, true), (None, None));
    assert_eq!(
        select_bgm_input(None, false, &tracks, true),
        (Some("hub/audio/bgm/c/track.mp3".to_string()), Some("c".to_string()))
    );
    assert_eq!(
        select_bgm_input(Some("  "), false, &tracks[..2].to_vec(), true),
        (Some("bgm.mp3".to_string()), None)
    );
    assert_eq!(select_bgm_input(None, false, &vec![], false), (None, None));
}

#[test]
fn bgm_info_written_and_read_back() {
    let doc = bgm_info_doc("scene:港口", Some(" 紧张 "), Some(90));
    assert_eq!(doc, "---\nduration: 90\nmood: 紧张\ntrigger: \"scene:港口\"\n---\n");
    let info = read_bgm_info(&doc);
    assert_eq!(info.trigger, "scene:港口");
    assert_eq!(info.mood, "紧张");
    assert_eq!(info.duration, Some(90));
    assert_eq!(info.note, "");
    let bare = read_bgm_info("只有说明");
    assert_eq!(bare.trigger, "global");
    assert_eq!(bare.mood, "");
    assert_eq!(bare.duration, None);
    assert_eq!(bare.note, "只有说明");
    let odd = read_bgm_info("---\nduration: 9x\ntrigger: \"\"\n---\n");
    assert_eq!(odd.duration, None);
    assert_eq!(odd.trigger, "global");
}

#[test]
fn casting_card_written_and_read_back() {
    let card = CastingCard {
        name: "小明".into(),
        voice: Some(" onyx ".into()),
        portrait: None,
        desc: "  黑发少年  ".into(),
    };
    let doc = card_doc(&card);
    assert_eq!(doc, "---\nname: 小明\nvoice: onyx\n---\n\n黑发少年");
    let back = card_of(&doc, "xiao-ming");
    assert_eq!(back.name, "小明");
    assert_eq!(back.voice.as_deref(), Some("onyx"));
    assert_eq!(back.portrait, None);
    assert_eq!(back.desc, "黑发少年");
    let plain = card_of("只有描述", "slug-1");
    assert_eq!(plain.name, "slug-1");
    assert_eq!(plain.voice, None);
}

#[test]
fn story_summary_and_act_count() {
    let story = "# 标题\n\n【第一幕】灯塔\n  猫在灯塔下醒来。  \n【第二幕】屋顶\n追逐。";
    assert_eq!(story_summary(story), "猫在灯塔下醒来。");
    assert_eq!(count_acts(story), 2);
    assert_eq!(story_summary("【第一幕】\n# x\n"), "（无梗概）");
    let long: String = "长".repeat(70);
    assert_eq!(story_summary(&long).chars().count(), 60);
    assert_eq!(count_acts("【注】无\n 【第三幕】 尾声"), 1);
}

#[test]
fn story_doc_front_matter_and_sources() {
    let body = "【第一幕】灯塔\n猫醒来。";
    assert_eq!(
        story_doc(body, Some(" 小说.v2.txt ")),
        "---\nsource: source-小说-v2.txt\nsummary: 猫醒来。\nwords: 12\n---\n\n【第一幕】灯塔\n猫醒来。"
    );
    assert_eq!(story_doc(body, None), "---\nsummary: 猫醒来。\nwords: 12\n---\n\n【第一幕】灯塔\n猫醒来。");
    let (direct, by_slug) = story_source_candidates("小说.txt");
    assert_eq!(direct, "story/小说.txt");
    assert_eq!(by_slug, "story/source-小说.txt");
}

#[test]
fn unknown_bindings_reported_only_with_a_roster() {
    let shot = |n: u32, chars: &[&str]| ScriptShot {
        shot: n,
        desc: String::new(),
        image_prompt: String::new(),
        video_prompt: String::new(),
        line: String::new(),
        duration_secs: 5,
        characters: chars.iter().map(|s| s.to_string()).collect(),
        props: vec![],
        pets: vec![],
        scenes: vec![],
        actions: vec![],
    };
    let shots = vec![shot(1, &["小明", "路人"]), shot(2, &["小红"])];
    let names = vec!["小明".to_string(), "小红".to_string()];
    assert_eq!(unknown_character_bindings(&shots, &names), vec![(1, "路人".to_string())]);
    assert!(unknown_character_bindings(&shots, &vec![]).is_empty());
}
