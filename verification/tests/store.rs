use filmcraft::assets::{asset_entry, register_asset_item, AssetItem};
use filmcraft::codec::{decode_payload, decode_upload, image_payload, sha256_hex, to_b64};
use filmcraft::hub::{
    compose_output_arg, final_version_name, hub_dirs, is_casting_type, legacy_card_doc,
    missing_videos_message, story_source_path, storyboard_stale, unknown_casting_type_message,
};
use filmcraft::model::{FilmCharacter, FilmProject, FilmTask, TASK_LOG_MAX_LINES};
use filmcraft::tasks::{activity_author, push_bounded, task_summary, ACTIVITY_MAX};

fn task() -> FilmTask {
    FilmTask {
        id: "task-1".into(),
        project_id: "film-1".into(),
        stage: "compose".into(),
        status: "running".into(),
        log: vec![],
        output: None,
        error: None,
        created_at: 0,
        finished_at: None,
    }
}

fn item(path: &str, source: &str) -> AssetItem {
    asset_entry(path, path.as_bytes(), source, "characters/x")
}

#[test]
fn task_log_keeps_last_lines_and_skips_blank_ones() {
    let mut t = task();
    t.append_log("第一行\n\n   \n第二行\r\n");
    assert_eq!(t.log, vec!["第一行".to_string(), "第二行".to_string()]);
    for i in 0..250 {
        t.append_log(&format!("line {i}"));
    }
    assert_eq!(t.log.len(), TASK_LOG_MAX_LINES);
    assert_eq!(t.log.first().unwrap(), "line 50");
    assert_eq!(t.log.last().unwrap(), "line 249");
    t.append_log("  ");
    assert_eq!(t.log.len(), TASK_LOG_MAX_LINES, "blank text adds nothing");
}

#[test]
fn push_bounded_drops_oldest_entries() {
    let mut v: Vec<u32> = (0..ACTIVITY_MAX as u32).collect();
    push_bounded(&mut v, 999, ACTIVITY_MAX);
    assert_eq!(v.len(), ACTIVITY_MAX);
    assert_eq!(v[0], 1);
    assert_eq!(*v.last().unwrap(), 999);
    let mut w = vec![1u8];
    push_bounded(&mut w, 2, 5);
    assert_eq!(w, vec![1, 2]);
}

#[test]
fn activity_author_defaults_to_anonymous() {
    assert_eq!(activity_author("  "), "anonymous");
    assert_eq!(activity_author(" alice "), "alice");
}

#[test]
fn base64_encode_and_upload_checks() {
    assert_eq!(to_b64(b"abc"), "YWJj");
    assert_eq!(to_b64(b"ab"), "YWI=");
    let (url, bare) = image_payload(b"\x89PNG");
    assert_eq!(bare, "iVBORw==");
    assert_eq!(url, "data:image/png;base64,iVBORw==");
    assert_eq!(decode_upload(" YWJj ", "image_b64", true).unwrap(), b"abc".to_vec());
    assert_eq!(decode_upload("  ", "content_b64", false).unwrap_err(), "content_b64 不可为空");
    assert_eq!(
        decode_upload("data:image/png;base64,YWJj", "image_b64", true).unwrap_err(),
        "image_b64 须为原始标准 b64（不带 data: 前缀）"
    );
    let bad = decode_upload("Y!Jj", "track_b64", false).unwrap_err();
    assert!(bad.starts_with("track_b64 解码失败: "), "{bad}");
    assert_eq!(decode_upload("====", "image_b64", false).is_err(), true);
    assert_eq!(decode_payload(" YWJj\n", "生图").unwrap(), b"abc".to_vec());
    assert!(decode_payload("%%%", "视频").unwrap_err().starts_with("视频 b64 解码失败: "));
}

#[test]
fn sha256_hex_of_known_inputs() {
    assert_eq!(sha256_hex(b"abc"), "ba7816bf8f01cfea414140de5dae2223b00361a396177a9cb410ff61f20015ad");
    assert_eq!(sha256_hex(b""), "e3b0c44298fc1c149afbf4c8996fb92427ae41e4649b934ca495991b7852b855");
}

#[test]
fn asset_register_replaces_by_path_and_sorts() {
    let e = item("casting/b.png", "ai");
    assert_eq!(e.bytes, 13);
    assert_eq!(e.sha256.len(), 64);
    let mut items = vec![item("z.png", "ai"), item("casting/b.png", "import"), item("a.png", "ai")];
    register_asset_item(&mut items, item("casting/b.png", "ai"));
    let paths: Vec<&str> = items.iter().map(|i| i.path.as_str()).collect();
    assert_eq!(paths, vec!["a.png", "casting/b.png", "z.png"]);
    assert_eq!(items[1].source, "ai");
    register_asset_item(&mut items, item("m.png", "import"));
    let paths: Vec<&str> = items.iter().map(|i| i.path.as_str()).collect();
    assert_eq!(paths, vec!["a.png", "casting/b.png", "m.png", "z.png"]);
}

#[test]
fn compose_names_and_output_argument() {
    assert_eq!(final_version_name("20260906-1200", 1), "final-v20260906-1200.mp4");
    assert_eq!(final_version_name("20260906-1200", 3), "final-v20260906-1200-3.mp4");
    let mut p = FilmProject {
        id: "film-1".into(),
        title: "t".into(),
        idea: "i".into(),
        ratio: "16:9".into(),
        style_hint: None,
        status: "done".into(),
        dir: "/data/film-1".into(),
        export_dir: None,
        created_at: String::new(),
        updated_at: String::new(),
    };
    assert_eq!(compose_output_arg(&p, "final-vX.mp4"), "hub/dist/final-vX.mp4");
    p.export_dir = Some("/exports/cat/".into());
    assert_eq!(compose_output_arg(&p, "final-vX.mp4"), "/exports/cat/final-vX.mp4");
    assert_eq!(
        missing_videos_message(&vec!["shot-2.mp4".into(), "shot-3.mp4".into()], &vec![]),
        "缺少镜头视频 shot-2.mp4, shot-3.mp4（先完成各镜头 video 阶段并 commit）"
    );
    assert_eq!(
        missing_videos_message(&vec!["shot-2.mp4".into()], &vec!["shot-2.mp4".into()]),
        "缺少镜头视频 shot-2.mp4（先完成各镜头 video 阶段并 commit）（hub/cache 有试生成未 commit：shot-2.mp4 —— 先 POST cache/<file>/commit 转正）"
    );
}

#[test]
fn hub_tree_and_casting_classes() {
    let d = hub_dirs("/h");
    assert_eq!(d.len(), 11);
    assert_eq!(d[0], "/h/story");
    assert_eq!(d[4], "/h/audio/bgm");
    assert_eq!(d[10], "/h/casting/scenes");
    assert!(is_casting_type("formations"));
    assert!(!is_casting_type("weapons"));
    assert_eq!(
        unknown_casting_type_message("weapons"),
        "未知定妆类别: weapons（[\"characters\", \"props\", \"pets\", \"formations\", \"actions\", \"scenes\"]）"
    );
    assert!(storyboard_stale(Some(5), Some(4)));
    assert!(!storyboard_stale(Some(4), Some(4)));
    assert!(storyboard_stale(Some(1), None));
    assert!(!storyboard_stale(None, Some(1)));
}

#[test]
fn legacy_character_card_and_import_path() {
    let c = FilmCharacter {
        id: "char-1".into(),
        project_id: "film-1".into(),
        name: "小明".into(),
        description: "黑发少年".into(),
        voice: Some(" onyx ".into()),
        portrait_ref: Some("characters/char-1/portrait.png".into()),
        created_at: String::new(),
        updated_at: String::new(),
    };
    assert_eq!(
        legacy_card_doc(&c, Some("png")),
        "---\nname: 小明\nportrait: views/front.png\nvoice: onyx\n---\n\n黑发少年"
    );
    assert_eq!(story_source_path(" 小说原文.v2.txt ").unwrap(), "story/source-小说原文-v2.txt");
    assert_eq!(story_source_path("!!!.txt").unwrap(), "story/source-source.txt");
    assert_eq!(story_source_path("a/b.txt").unwrap_err(), "filename 不可为空且不可含路径分隔符");
    assert!(story_source_path("   ").is_err());
}

#[test]
fn task_lifecycle_queued_running_finished() {
    let mut t = FilmTask::queued("ft-1".into(), "film-1".into(), "video".into(), 100);
    assert_eq!(t.status, "queued");
    assert!(t.log.is_empty() && t.finished_at.is_none());
    t.mark_running();
    assert_eq!(t.status, "running");
    t.finish("error", "上游超时", None, 160);
    assert_eq!(t.status, "error");
    assert_eq!(t.error.as_deref(), Some("上游超时"));
    assert_eq!(t.log, vec!["上游超时".to_string()]);
    assert_eq!(t.finished_at, Some(160));
    let mut d = FilmTask::queued("ft-2".into(), "film-1".into(), "compose".into(), 5);
    d.finish("done", "成片已合成", Some("/x/final.mp4".into()), 9);
    assert_eq!(d.error, None);
    assert_eq!(d.output.as_deref(), Some("/x/final.mp4"));
}

#[test]
fn task_summary_drops_the_log() {
    let mut t = task();
    t.log = vec!["a".into(), "b".into()];
    t.output = Some("final.mp4".into());
    t.finished_at = Some(7);
    let s = task_summary(&t);
    assert_eq!((s.id.as_str(), s.project_id.as_str(), s.stage.as_str(), s.status.as_str()), ("task-1", "film-1", "compose", "running"));
    assert_eq!((s.output.as_deref(), s.error.as_deref(), s.created_at, s.finished_at), (Some("final.mp4"), None, 0, Some(7)));
}
