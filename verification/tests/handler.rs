use filmcraft::handler::{files_get_target, files_missing_reply, files_put_target};
use filmcraft::ownership::{validate_ownership, OwnershipDoc, OwnershipField};
use filmcraft::replies::{chat_content, ChatChoice};
use filmcraft::casting::{view_candidates, view_generation_prompt};
use filmcraft::handler::admit_request;
use filmcraft::routes::{Endpoint, HttpMethod};
use filmcraft::handler::{missing_reply, task_created, Missing};
use filmcraft::generation::{gen_finish, route_source, GenKind, GenResult, SourceRoute};
use filmcraft::generation::{missing_track_message, track_plan};
use filmcraft::hub::story_outcome;
use filmcraft::replies::{extract_outcome, CastingItem};
use filmcraft::story::{chapter_file, check_clean_request, cleaned_paths, CleanIssue, CleanMode};
use filmcraft::casting::card_after_view;
use filmcraft::handler::{delete_plan, engine_gate, path_file_name};
use filmcraft::hub::CastingCard;
use filmcraft::model::{FilmCharacter, FilmTask, ScriptShot};
use filmcraft::paths::{is_slug_like, percent_decode, slugify};
use filmcraft::requests::{allocate_project_id, ID_ATTEMPTS};
use filmcraft::script::build_character_prompt_block;
use filmcraft::stages::{storyboard_start, storyboard_step, StoryboardAction, StoryboardEvent, StoryboardPhase};
use filmcraft::tasks::{record_activity, ActivityEntry};

fn ch(name: &str, desc: &str) -> FilmCharacter {
    FilmCharacter {
        id: format!("char-{name}"),
        project_id: "film-1".into(),
        name: name.into(),
        description: desc.into(),
        voice: None,
        portrait_ref: None,
        created_at: String::new(),
        updated_at: String::new(),
    }
}

#[test]
fn character_block_injects_each_named_character_once() {
    let roster = vec![ch("甲", "与角色「乙」同行"), ch("乙", "少女")];
    let names = vec!["甲".to_string(), "乙".to_string(), "甲".to_string()];
    assert_eq!(
        build_character_prompt_block(&names, &roster).as_deref(),
        Some("角色「甲」外形：与角色「乙」同行（与其它镜头严格同一人物）；角色「乙」外形：少女（与其它镜头严格同一人物）")
    );
}

#[test]
fn slug_cut_never_leaves_an_outer_dash() {
    let name = format!("{} b", "a".repeat(63));
    let s = slugify(&name);
    assert_eq!(s, "a".repeat(63));
    assert!(!s.ends_with('-'));
    assert_eq!(slugify(&"a".repeat(70)).chars().count(), 64);
}

#[test]
fn slug_like_counts_characters() {
    let cjk = "龙".repeat(22);
    assert!(is_slug_like(&cjk), "22 个汉字（66 字节）合法");
    assert!(is_slug_like(&slugify(&cjk)));
    assert!(is_slug_like(&"x".repeat(64)));
    assert!(!is_slug_like(&"x".repeat(65)));
}

#[test]
fn append_log_keeps_the_other_fields() {
    let mut t = FilmTask {
        id: "task-1".into(),
        project_id: "film-9".into(),
        stage: "video".into(),
        status: "running".into(),
        log: vec![],
        output: None,
        error: None,
        created_at: 42,
        finished_at: Some(43),
    };
    t.append_log("一\n\n二");
    assert_eq!(t.log, vec!["一", "二"]);
    assert_eq!((t.project_id.as_str(), t.stage.as_str(), t.created_at, t.finished_at), ("film-9", "video", 42, Some(43)));
}

#[test]
fn plain_segment_decodes_to_itself() {
    assert_eq!(percent_decode("a+b 小明"), "a+b 小明");
    assert_eq!(percent_decode("a%20b"), "a b");
}

#[test]
fn successive_allocations_never_repeat() {
    let mut counter = 100u64;
    let taken = vec!["film-101".to_string()];
    let occupied = vec!["film-102".to_string()];
    let (id, dir) = allocate_project_id("/data/film/", &mut counter, &taken, &occupied).unwrap();
    assert_eq!((id.as_str(), dir.as_str(), counter), ("film-103", "/data/film/film-103", 103));
    let (id2, _) = allocate_project_id("/data/film", &mut counter, &taken, &occupied).unwrap();
    assert_eq!(id2, "film-104");
    assert_ne!(id, id2);
}

#[test]
fn allocation_gives_up_after_all_attempts() {
    let mut counter = 0u64;
    let taken: Vec<String> = (1..=u64::from(ID_ATTEMPTS)).map(|n| format!("film-{n}")).collect();
    let r = allocate_project_id("/r", &mut counter, &taken, &vec![]);
    assert_eq!(r, Err("连续 1 万次 id 候选均冲突（DB 行或 film-* 目录异常，请排查残留）".to_string()));
    assert_eq!(counter, u64::from(ID_ATTEMPTS));
}

#[test]
fn activity_ring_truncates_at_two_hundred() {
    let mut list: Vec<ActivityEntry> = Vec::new();
    for i in 0..205 {
        record_activity(&mut list, format!("t{i}"), "alice", "files.put", &format!("f{i}"));
    }
    assert_eq!(list.len(), 200, "环形截断至 200");
    assert_eq!(list[0].target, "f5", "最旧的 5 条被逐出");
    assert_eq!(list[199].target, "f204");
    assert_eq!(list[199].author, "alice");
    record_activity(&mut list, "t".into(), "   ", "x", "y");
    assert_eq!(list[199].author, "anonymous");
}

#[test]
fn install_gate_answers_not_installed() {
    assert!(engine_gate(true).is_none());
    let r = engine_gate(false).unwrap();
    assert_eq!(r.status, 404);
    assert_eq!(r.error, "应用「film」未安装：可在 应用中心 → 商店 安装");
}

#[test]
fn delete_keeps_a_foreign_directory() {
    let p = delete_plan("film-7", "/data/film/film-7/");
    assert!(p.remove_dir && !p.dir_preserved);
    let p = delete_plan("film-7", "/data/root/innocent-bystander");
    assert!(!p.remove_dir && p.dir_preserved);
    let p = delete_plan("film-7", "/data/film-7/..");
    assert!(p.dir_preserved);
    assert_eq!(path_file_name("/a/b/./").as_deref(), Some("b"));
    assert_eq!(path_file_name("/"), None);
}

#[test]
fn view_backfills_the_portrait() {
    let card = CastingCard { name: "小明".into(), voice: None, portrait: None, desc: "黑发".into() };
    let c = card_after_view(&card, "side", "side.png");
    assert_eq!(c.portrait.as_deref(), Some("views/side.png"));
    let c2 = card_after_view(&c, "back", "back.png");
    assert_eq!(c2.portrait.as_deref(), Some("views/side.png"));
    let c3 = card_after_view(&c, "front", "front.jpg");
    assert_eq!(c3.portrait.as_deref(), Some("views/front.jpg"));
    assert_eq!(c3.name, "小明");
}

fn shot(n: u32) -> ScriptShot {
    ScriptShot {
        shot: n,
        desc: "d".into(),
        image_prompt: "i".into(),
        video_prompt: "v".into(),
        line: String::new(),
        duration_secs: 5,
        characters: vec![],
        props: vec![],
        pets: vec![],
        scenes: vec![],
        actions: vec![],
    }
}

#[test]
fn storyboard_retries_once_then_fails() {
    let s = storyboard_start("/p/hub", "/p", Some("剧情".into()), "创意".into(), true);
    assert_eq!(s.storyboard_path, "/p/hub/storyboard/storyboard.json");
    assert_eq!(s.script_path, "/p/script.json");
    let (s, a) = storyboard_step(s, StoryboardEvent::Answer(Err("bad".into())));
    assert_eq!(s.phase, StoryboardPhase::Retry);
    match a {
        StoryboardAction::Retry { prompt } => assert!(prompt.starts_with("你上一次的输出无法解析为 JSON 数组")),
        _ => panic!("应重试"),
    }
    let (_, a) = storyboard_step(s, StoryboardEvent::Answer(Err("still bad".into())));
    match a {
        StoryboardAction::Fail { message } => assert_eq!(message, "LLM 输出两次均无法解析为分镜 JSON：still bad"),
        _ => panic!("第二次应失败"),
    }
}

#[test]
fn storyboard_writes_parsed_answer_and_its_mirror() {
    let s = storyboard_start("/p/hub", "/p", None, "创意".into(), false);
    let (_, a) = storyboard_step(s, StoryboardEvent::Answer(Ok(vec![shot(1), shot(2)])));
    match a {
        StoryboardAction::Write { shots, storyboard_path, script_path, output } => {
            assert_eq!(shots.len(), 2);
            assert_eq!(storyboard_path, "/p/hub/storyboard/storyboard.json");
            assert_eq!(script_path, "/p/script.json");
            assert_eq!(output, "/p/script.json");
        }
        _ => panic!("应写入"),
    }
    let s = storyboard_start("/p/hub", "/p", None, "创意".into(), true);
    let (s, _) = storyboard_step(s, StoryboardEvent::Answer(Err("x".into())));
    let (_, a) = storyboard_step(s, StoryboardEvent::CallFailed("timeout".into()));
    match a {
        StoryboardAction::Fail { message } => assert_eq!(message, "重试调用失败: timeout"),
        _ => panic!(),
    }
}

#[test]
fn requests_pass_the_gate_then_the_router() {
    let e = admit_request(false, HttpMethod::Get, "/api/v1/film/tools", true).unwrap_err();
    assert_eq!((e.status, e.error.as_str()), (404, "应用「film」未安装：可在 应用中心 → 商店 安装"));
    let (ep, caps) = admit_request(true, HttpMethod::Post, "/api/v1/film/projects/film-3/story/clean", true).unwrap();
    assert_eq!(ep, Endpoint::StoryClean);
    assert_eq!(caps, vec!["film-3"]);
    let e = admit_request(true, HttpMethod::Get, "/api/v1/film/whatever", true).unwrap_err();
    assert_eq!((e.status, e.error.as_str()), (404, "film: 未匹配的路由"));
    // The component's own routes do not wait for the project check.
    let (ep, _) = admit_request(true, HttpMethod::Get, "/api/v1/film/projects/film-9", false).unwrap();
    assert_eq!(ep, Endpoint::GetProject);
    // Under a project that does not exist, the project is reported first.
    let e = admit_request(true, HttpMethod::Get, "/api/v1/film/projects/film-1/compose", false).unwrap_err();
    assert_eq!((e.status, e.error.as_str()), (404, "项目不存在: film-1"));
    let e = admit_request(true, HttpMethod::Get, "/api/v1/film/projects/film-1/nothing/here", false).unwrap_err();
    assert_eq!(e.error, "项目不存在: film-1");
    let e = admit_request(true, HttpMethod::Get, "/api/v1/film/projects/film-1/nothing/here", true).unwrap_err();
    assert_eq!((e.status, e.error.as_str()), (404, "film: 未匹配的路由"));
}

#[test]
fn missing_objects_and_lost_tasks_have_their_replies() {
    let r = missing_reply(Missing::Task, "ft-999");
    assert_eq!((r.status, r.error.as_str()), (404, "任务不存在: ft-999"));
    assert_eq!(missing_reply(Missing::Project, "film-1").error, "项目不存在: film-1");
    assert_eq!(missing_reply(Missing::Character, "char-2").error, "角色不存在: char-2");
    assert!(task_created(true, "ft-1").is_none());
    let r = task_created(false, "ft-1").unwrap();
    assert_eq!((r.status, r.error.as_str()), (500, "任务创建异常: ft-1"));
}

#[test]
fn generation_sources_and_endings() {
    assert!(matches!(route_source(GenKind::Image, "local"), SourceRoute::Local));
    assert!(matches!(route_source(GenKind::Video, "channel"), SourceRoute::Channel));
    match route_source(GenKind::Tts, "local") {
        SourceRoute::Refused(m) => assert_eq!(m, "本地 TTS 能力未接入（请用 source=channel）"),
        _ => panic!(),
    }
    match route_source(GenKind::Music, "cloud") {
        SourceRoute::Refused(m) => assert_eq!(m, "未知 source: cloud"),
        _ => panic!(),
    }
    let f = gen_finish(GenKind::Video, 3, "/p/hub/cache/shot-3.mp4", GenResult::Stored);
    assert_eq!(f.status, "done");
    assert_eq!(f.line, "镜头 3 视频（试生成）已存 /p/hub/cache/shot-3.mp4");
    assert_eq!(f.output.as_deref(), Some("/p/hub/cache/shot-3.mp4"));
    assert!(f.producing);
    assert_eq!(f.activity, Some(("shot.video".to_string(), "cache/shot-3.mp4".to_string())));
    let f = gen_finish(GenKind::Tts, 2, "/x/line-2.mp3", GenResult::WriteFailed("disk full".into()));
    assert_eq!((f.status.as_str(), f.line.as_str()), ("error", "写配音失败 /x/line-2.mp3: disk full"));
    assert!(f.output.is_none() && !f.producing && f.activity.is_none());
    let f = gen_finish(GenKind::Music, 0, "/p/bgm.mp3", GenResult::Stored);
    assert_eq!(f.line, "BGM 已存 /p/bgm.mp3");
    assert_eq!(f.activity, Some(("music.generate".to_string(), "bgm.mp3".to_string())));
    let f = gen_finish(GenKind::Image, 1, "/o", GenResult::CallFailed("上游 503".into()));
    assert_eq!((f.status.as_str(), f.line.as_str()), ("error", "上游 503"));
}

#[test]
fn bgm_track_plan_paths() {
    let p = track_plan("/p/hub", "main");
    assert_eq!(p.rel, "audio/bgm/main/track.mp3");
    assert_eq!(p.out_path, "/p/hub/audio/bgm/main/track.mp3");
    assert_eq!(p.progress, "BGM 就绪：main");
    assert_eq!(p.done_line, "BGM 已存 /p/hub/audio/bgm/main/track.mp3");
    assert_eq!(missing_track_message("x"), "BGM 音轨不存在: x");
}

#[test]
fn story_answer_becomes_story_md() {
    assert_eq!(story_outcome("  \n ", None, "/h/story/story.md").err().as_deref(), Some("LLM 返回空剧情正文"));
    let w = story_outcome("\n【第一幕】猫\n【第二幕】狗\n", Some("novel.txt"), "/h/story/story.md").unwrap();
    assert_eq!(w.progress, "剧情正稿已生成（13 字 / 2 幕）");
    assert_eq!(w.done_line, "剧情正稿已存 /h/story/story.md");
    assert!(w.doc.starts_with("---\n"));
    assert!(w.doc.contains("source: source-novel.txt"), "{}", w.doc);
    assert!(w.doc.ends_with("【第一幕】猫\n【第二幕】狗\n") || w.doc.ends_with("【第一幕】猫\n【第二幕】狗"), "{}", w.doc);
}

#[test]
fn extraction_counts_all_classes() {
    let item = |n: &str| CastingItem { name: n.into(), desc: String::new(), frequency: 1, reason: String::new() };
    let parsed: Result<Vec<Vec<CastingItem>>, String> = Ok(vec![vec![item("a"), item("b")], vec![], vec![item("c")]]);
    let d = extract_outcome(&parsed, "/h/casting/extraction.json").unwrap();
    assert_eq!(d.total, 3);
    assert_eq!(d.progress, "定妆提取完成（六类共 3 个对象）");
    assert_eq!(d.done_line, "定妆提取已存 /h/casting/extraction.json");
    let bad: Result<Vec<Vec<CastingItem>>, String> = Err("无 JSON".into());
    assert_eq!(extract_outcome(&bad, "/x").err().as_deref(), Some("LLM 输出无法解析为六类定妆对象 JSON：无 JSON"));
}

#[test]
fn story_clean_requests_and_outputs() {
    assert_eq!(check_clean_request(Some("novel.txt"), "rules", false), Ok(CleanMode::Rules));
    assert_eq!(check_clean_request(Some("novel.txt"), "llm", true), Ok(CleanMode::Llm));
    assert_eq!(check_clean_request(Some("novel.txt"), "deep", true), Err(CleanIssue::BadMode));
    assert_eq!(check_clean_request(Some("novel.txt"), "llm", false), Err(CleanIssue::MissingModel));
    assert_eq!(check_clean_request(None, "rules", false), Err(CleanIssue::MissingSource));
    let (t, r) = cleaned_paths("story/source-novel.txt");
    assert_eq!(t, "story/cleaned-novel.txt");
    assert_eq!(r, "story/cleaned-novel.report.json");
    assert_eq!(chapter_file(1), "story/chapters/ch-01.md");
    assert_eq!(chapter_file(12), "story/chapters/ch-12.md");
    assert_eq!(chapter_file(123), "story/chapters/ch-123.md");
}

#[test]
fn view_generation_prompt_and_candidates() {
    let card = CastingCard { name: "小明".into(), voice: None, portrait: None, desc: String::new() };
    assert_eq!(
        view_generation_prompt(&card, "characters", "side", &None),
        "同一定妆对象的多视图：（小明），side 视图，严格一致外形"
    );
    assert_eq!(view_generation_prompt(&card, "characters", "side", &Some("  自定  ".into())), "自定");
    assert_eq!(
        view_candidates("props", "长刀", "front"),
        vec![
            "casting/props/长刀/views/front.png",
            "casting/props/长刀/views/front.jpg",
            "casting/props/长刀/views/front.webp"
        ]
    );
}

#[test]
fn delete_preserves_dir_when_row_dir_mismatches_id() {
    // The row's directory was changed to an innocent bystander's directory.
    let plan = delete_plan("film-101", "/tmp/del-gate/root/innocent-bystander");
    assert!(!plan.remove_dir, "目录不应被删");
    assert!(plan.dir_preserved, "响应应明示目录被保留");
    let own = delete_plan("film-101", "/tmp/del-gate/root/film-101");
    assert!(own.remove_dir && !own.dir_preserved);
}

fn doc(
    members: OwnershipField<Option<String>>,
    sections: OwnershipField<(String, Option<String>)>,
    casting_objects: OwnershipField<(String, Option<String>)>,
) -> OwnershipDoc {
    OwnershipDoc { is_object: true, members, sections, casting_objects }
}

fn entry(k: &str, owner: &str) -> (String, Option<String>) {
    (k.to_string(), Some(owner.to_string()))
}

#[test]
fn validate_ownership_enums_and_object_keys() {
    let ok = doc(
        OwnershipField::Items(vec![Some("alice".into())]),
        OwnershipField::Items(vec![entry("story", "alice")]),
        OwnershipField::Items(vec![entry("characters/小明", "bob")]),
    );
    assert!(validate_ownership(&ok).is_ok(), "合法形态应过");
    let bad_section = doc(OwnershipField::Absent, OwnershipField::Items(vec![entry("budget", "a")]), OwnershipField::Absent);
    let err = validate_ownership(&bad_section).unwrap_err();
    assert!(err.contains("枚举") && err.contains("budget"), "{err}");
    let bad_type = doc(OwnershipField::Absent, OwnershipField::Absent, OwnershipField::Items(vec![entry("weapons/长刀", "a")]));
    let err = validate_ownership(&bad_type).unwrap_err();
    assert!(err.contains("weapons") || err.contains("枚举"), "{err}");
    let bad_key = doc(OwnershipField::Absent, OwnershipField::Absent, OwnershipField::Items(vec![entry("characters/小明/x", "a")]));
    assert!(validate_ownership(&bad_key).is_err());
    let bad_owner = doc(OwnershipField::Absent, OwnershipField::Absent, OwnershipField::Items(vec![entry("characters/小明", " ")]));
    assert!(validate_ownership(&bad_owner).is_err());
    let future = doc(OwnershipField::Absent, OwnershipField::Absent, OwnershipField::Items(vec![entry("scenes/未来场景", "carol")]));
    assert!(validate_ownership(&future).is_ok());
}

#[test]
fn ownership_shape_errors() {
    let not_obj = OwnershipDoc {
        is_object: false,
        members: OwnershipField::Absent,
        sections: OwnershipField::Absent,
        casting_objects: OwnershipField::Absent,
    };
    assert_eq!(validate_ownership(&not_obj).unwrap_err(), "ownership.json 须为 JSON 对象");
    let d = doc(OwnershipField::WrongType, OwnershipField::Absent, OwnershipField::Absent);
    assert_eq!(validate_ownership(&d).unwrap_err(), "members 须为数组");
    let d = doc(OwnershipField::Items(vec![None]), OwnershipField::Absent, OwnershipField::Absent);
    assert_eq!(validate_ownership(&d).unwrap_err(), "members[].name 须为非空字符串");
    let d = doc(OwnershipField::Absent, OwnershipField::Items(vec![entry("story", "a/b")]), OwnershipField::Absent);
    assert_eq!(validate_ownership(&d).unwrap_err(), "sections.story.owner 不可含路径分隔符");
    let d = doc(OwnershipField::Absent, OwnershipField::Absent, OwnershipField::Items(vec![("props/长刀".into(), None)]));
    assert_eq!(validate_ownership(&d).unwrap_err(), "casting_objects[\"props/长刀\"].owner 须为非空字符串");
    let d = doc(OwnershipField::Absent, OwnershipField::Absent, OwnershipField::WrongType);
    assert_eq!(validate_ownership(&d).unwrap_err(), "casting_objects 须为对象");
}

#[test]
fn parse_chat_content_extracts_choice() {
    let ok = chat_content(Ok(vec![ChatChoice { content: Some("正文".into()) }]));
    assert_eq!(ok.unwrap(), "正文");
    assert_eq!(chat_content(Err("expected value".into())).unwrap_err(), "渠道响应非 JSON: expected value");
    assert_eq!(chat_content(Ok(vec![])).unwrap_err(), "渠道响应缺少 choices[0].message.content");
    assert!(chat_content(Ok(vec![ChatChoice { content: None }])).is_err());
}

fn segs(p: &str) -> Vec<String> {
    p.split('/').map(String::from).collect()
}

#[test]
fn files_get_refuses_traversal_with_400() {
    let root = "/data/film-1/hub";
    for bad in ["../../../etc/passwd", "story/..%2F..%2Ffilm.db", "story/../x.md", "story/./a.md"] {
        let e = files_get_target(root, &segs(bad)).unwrap_err();
        assert_eq!(e.status, 400, "{bad}: {}", e.error);
    }
    let (rel, abs, text) = files_get_target(root, &segs("story/story.md")).unwrap();
    assert_eq!((rel.as_str(), abs.as_str(), text), ("story/story.md", "/data/film-1/hub/story/story.md", true));
    let (_, _, text) = files_get_target(root, &segs("dist/final.mp4")).unwrap();
    assert!(!text);
    let e = files_get_target(root, &segs("不存在.bin")).unwrap_err();
    assert_eq!(e.status, 404, "白名单报错文案含「不存在」时按 404");
    let m = files_missing_reply("story/x.md");
    assert_eq!((m.status, m.error.as_str()), (404, "文件不存在: story/x.md"));
}

#[test]
fn files_put_refusals_are_400() {
    let root = "/data/film-1/hub";
    let e = files_put_target(root, &segs("assets.json")).unwrap_err();
    assert_eq!(e.status, 400);
    let e = files_put_target(root, &segs("story/../../x.md")).unwrap_err();
    assert_eq!(e.status, 400);
    let (rel, abs) = files_put_target(root, &segs("story/story.md")).unwrap();
    assert_eq!((rel.as_str(), abs.as_str()), ("story/story.md", "/data/film-1/hub/story/story.md"));
}
