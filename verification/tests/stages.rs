use filmcraft::model::{FilmCharacter, FilmProject, ScriptShot};
use filmcraft::media::{build_concat_args, build_concat_list, build_mix_args, build_srt};
use filmcraft::stages::{
    find_shot, first_frame, keyframe_prompt, music_prompt, plan_compose, portrait_sources,
    track_music_prompt, tts_text, ComposeInput,
};

fn shot(n: u32, line: &str, characters: &[&str]) -> ScriptShot {
    ScriptShot {
        shot: n,
        desc: format!("镜头{n}画面"),
        image_prompt: format!("镜头{n}关键帧"),
        video_prompt: format!("镜头{n}运动"),
        line: line.to_string(),
        duration_secs: 5,
        characters: characters.iter().map(|s| s.to_string()).collect(),
        props: vec![],
        pets: vec![],
        scenes: vec![],
        actions: vec![],
    }
}

fn roster() -> Vec<FilmCharacter> {
    vec![FilmCharacter {
        id: "char-1".into(),
        project_id: "film-x".into(),
        name: "小明".into(),
        description: "黑发少年".into(),
        voice: None,
        portrait_ref: None,
        created_at: String::new(),
        updated_at: String::new(),
    }]
}

fn project(style_hint: Option<&str>) -> FilmProject {
    FilmProject {
        id: "film-001".into(),
        title: "夜行".into(),
        idea: "雨夜寻猫".into(),
        ratio: "16:9".into(),
        style_hint: style_hint.map(String::from),
        status: "draft".into(),
        dir: "/data/film-001".into(),
        export_dir: None,
        created_at: String::new(),
        updated_at: String::new(),
    }
}

#[test]
fn find_shot_gives_first_index_or_message() {
    let shots = vec![shot(1, "", &[]), shot(3, "", &[]), shot(3, "x", &[])];
    assert_eq!(find_shot(&shots, 3), Ok(1));
    assert_eq!(find_shot(&shots, 1), Ok(0));
    assert_eq!(
        find_shot(&shots, 7),
        Err("镜头 7 不在分镜中（共 3 个镜头）".to_string())
    );
    assert_eq!(
        find_shot(&vec![], 1),
        Err("镜头 1 不在分镜中（共 0 个镜头）".to_string())
    );
}

#[test]
fn keyframe_prompt_puts_roster_block_first_and_style_last() {
    let r = roster();
    let s = shot(2, "", &["小明", "路人"]);
    assert_eq!(
        keyframe_prompt(&s, &r, &Some("  水墨  ".into())),
        "角色「小明」外形：黑发少年（与其它镜头严格同一人物）。镜头2关键帧，水墨"
    );
    assert_eq!(keyframe_prompt(&s, &r, &Some("   ".into())).ends_with("镜头2关键帧"), true);
    let plain = shot(4, "", &["路人"]);
    assert_eq!(keyframe_prompt(&plain, &r, &None), "镜头4关键帧");
}

#[test]
fn tts_text_prefers_given_text_then_line() {
    let s = shot(5, "你好", &[]);
    assert_eq!(tts_text(&s, &Some("  再见 ".into())), Ok("再见".to_string()));
    assert_eq!(tts_text(&s, &Some("  ".into())), Ok("你好".to_string()));
    assert_eq!(tts_text(&s, &None), Ok("你好".to_string()));
    let silent = shot(6, "", &[]);
    assert_eq!(
        tts_text(&silent, &None),
        Err("镜头 6 无台词（script.line 为空），请显式传 text".to_string())
    );
}

#[test]
fn music_prompt_falls_back_to_style_and_idea() {
    assert_eq!(
        music_prompt(&project(None), &None),
        "为影片生成背景音乐，风格：电影感，适配创意：雨夜寻猫"
    );
    assert_eq!(
        music_prompt(&project(Some(" 赛博朋克 ")), &Some(" ".into())),
        "为影片生成背景音乐，风格：赛博朋克，适配创意：雨夜寻猫"
    );
    assert_eq!(music_prompt(&project(None), &Some(" 钢琴独奏 ".into())), "钢琴独奏");
}

#[test]
fn track_music_prompt_names_mood_and_scene() {
    let p = project(Some("黑色电影"));
    assert_eq!(
        track_music_prompt(&p, &None, "global", ""),
        "为影片生成背景音乐，风格：黑色电影，适配创意：雨夜寻猫"
    );
    assert_eq!(
        track_music_prompt(&p, &None, "scene:雨巷", "紧张"),
        "为影片生成背景音乐，风格：紧张，触发场景：雨巷，适配创意：雨夜寻猫"
    );
    assert_eq!(
        track_music_prompt(&p, &None, "scene:scene:屋顶", ""),
        "为影片生成背景音乐，风格：黑色电影，触发场景：屋顶，适配创意：雨夜寻猫"
    );
    assert_eq!(track_music_prompt(&p, &Some("鼓点".into()), "global", "x"), "鼓点");
}

#[test]
fn first_frame_prefers_committed_frame() {
    assert_eq!(first_frame(false, "a.png", true, "c.png", true), None);
    assert_eq!(first_frame(true, "a.png", true, "c.png", true), Some("a.png".to_string()));
    assert_eq!(first_frame(true, "a.png", false, "c.png", true), Some("c.png".to_string()));
    assert_eq!(first_frame(true, "a.png", false, "c.png", false), Some("a.png".to_string()));
}

#[test]
fn compose_plan_refuses_missing_videos() {
    let p = project(None);
    let input = ComposeInput {
        shots: vec![shot(1, "a", &[]), shot(2, "", &[]), shot(3, "c", &[])],
        has_video: vec![true, false, false],
        in_cache: vec![false, true, false],
        has_line: vec![false, false, false],
    };
    assert_eq!(
        plan_compose(&p, &input, None, "final-v1.mp4").err().as_deref(),
        Some("缺少镜头视频 shot-2.mp4, shot-3.mp4（先完成各镜头 video 阶段并 commit）（hub/cache 有试生成未 commit：shot-2.mp4 —— 先 POST cache/<file>/commit 转正）")
    );
}

#[test]
fn compose_plan_steps() {
    let p = project(None);
    let shots = vec![shot(1, "你好", &[]), shot(2, "", &[])];
    let input = ComposeInput {
        shots: shots.clone(),
        has_video: vec![true, true],
        in_cache: vec![false, false],
        has_line: vec![true, false],
    };
    let plan = plan_compose(&p, &input, Some("hub/audio/bgm/rain/track.mp3"), "final-v2.mp4").unwrap();
    assert_eq!(plan.concat_list, build_concat_list(2));
    assert_eq!(plan.pass1, build_concat_args(1920, 1080, "compose-video.mp4"));
    assert_eq!(plan.subtitles, build_srt(&shots));
    assert_eq!(plan.voices, vec![("line-1.mp3".to_string(), 0)]);
    assert_eq!(
        plan.pass2,
        build_mix_args(&plan.voices, Some("hub/audio/bgm/rain/track.mp3"), true, "hub/dist/final-v2.mp4")
    );
    assert_eq!(plan.final_path, "/data/film-001/hub/dist/final-v2.mp4");
    assert_eq!(plan.seconds, 10);
}

#[test]
fn portrait_sources_follow_the_shot_order() {
    let mut r = roster();
    r.push(FilmCharacter {
        id: "char-2".into(),
        project_id: "film-x".into(),
        name: "小红".into(),
        description: "双马尾".into(),
        voice: None,
        portrait_ref: Some(" characters/char-2/portrait.png ".into()),
        created_at: String::new(),
        updated_at: String::new(),
    });
    let mut p = project(None);
    p.dir = "/data/film-001/".into();
    let names: Vec<String> = vec!["小红".into(), "路人".into(), "小明".into()];
    assert_eq!(
        portrait_sources(&p, &names, &r),
        vec![
            ("小红".to_string(), Some("/data/film-001/characters/char-2/portrait.png".to_string())),
            ("小明".to_string(), None),
        ]
    );
}
