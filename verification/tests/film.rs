use filmcraft::media::{
    build_concat_args, build_concat_list, build_mix_args, build_srt, ext_for_mime, fmt_srt_ts,
    image_dims, parse_stage_timeout, ratio_dims, sniff_image_ext,
};
use filmcraft::model::{validate_model_ref, FilmCharacter, ModelRef, ScriptShot};
use filmcraft::paths::files_download_url;
use filmcraft::script::{
    apply_shot_patches, build_character_prompt_block, normalize_character_names,
    resolve_shot_voice, ShotPatch, SHOT_DURATION_MAX_SECS, TTS_VOICE_FALLBACK,
};

fn shot_json(n: u32, line: &str, dur: u32) -> ScriptShot {
    bound_shot_json(n, line, dur, &[])
}

fn bound_shot_json(n: u32, line: &str, dur: u32, characters: &[&str]) -> ScriptShot {
    ScriptShot {
        shot: n,
        desc: format!("镜头{n}画面"),
        image_prompt: format!("镜头{n}关键帧"),
        video_prompt: format!("镜头{n}运动"),
        line: line.to_string(),
        duration_secs: dur,
        characters: characters.iter().map(|s| s.to_string()).collect(),
        props: vec![],
        pets: vec![],
        scenes: vec![],
        actions: vec![],
    }
}

fn roster_fixtures() -> Vec<FilmCharacter> {
    let mk = |id: &str, name: &str, desc: &str, voice: Option<&str>| FilmCharacter {
        id: id.into(),
        project_id: "film-x".into(),
        name: name.into(),
        description: desc.into(),
        voice: voice.map(String::from),
        portrait_ref: None,
        created_at: String::new(),
        updated_at: String::new(),
    };
    vec![
        mk("char-1", "小明", "黑发少年，红色围巾", Some("onyx")),
        mk("char-2", "小红", "双马尾少女，蓝色校服", None),
        mk("char-3", "老陈", "花白胡子的守夜人", Some("echo")),
    ]
}

#[test]
fn ratio_dims_covers_six_presets_and_image_dims_safe() {
    assert_eq!(ratio_dims("16:9"), Some((1920, 1080)));
    assert_eq!(ratio_dims("9:16"), Some((1080, 1920)));
    assert_eq!(ratio_dims("2.39:1"), Some((2048, 858)));
    assert_eq!(ratio_dims("1.85:1"), Some((1998, 1080)));
    assert_eq!(ratio_dims("1:1"), Some((1080, 1080)));
    assert_eq!(ratio_dims("4:3"), Some((1440, 1080)));
    assert_eq!(ratio_dims("4:5"), None, "非法画幅应 None");
    for r in ["16:9", "9:16", "2.39:1", "1.85:1", "1:1", "4:3"] {
        let (w, h) = image_dims(r).unwrap_or((0, 0));
        assert!(
            w % 8 == 0 && h % 8 == 0 && w > 0 && h > 0,
            "{r} 生图尺寸应为 8 的倍数（{w}x{h}）"
        );
    }
    assert_eq!(image_dims("4:5"), None, "非法画幅生图尺寸应 None");
    for r in ["16:9", "9:16", "2.39:1", "1.85:1", "1:1", "4:3"] {
        let (w, h) = ratio_dims(r).expect("六档必有");
        assert!(w % 2 == 0 && h % 2 == 0, "{r} 合成分辨率应为偶数");
    }
}

#[test]
fn validate_model_ref_branches() {
    let mk = |source: &str, cid: Option<&str>, cap: &str| ModelRef {
        source: source.into(),
        channel_id: cid.map(String::from),
        capability: cap.into(),
        model: None,
    };
    assert!(
        validate_model_ref(&mk("local", None, "image"), "chat").is_err(),
        "能力不匹配应拒绝"
    );
    assert!(validate_model_ref(&mk("local", None, "chat"), "chat").is_ok());
    assert!(validate_model_ref(&mk("local", None, "image"), "image").is_ok());
    for cap in ["video", "tts", "music"] {
        let err =
            validate_model_ref(&mk("local", None, cap), cap).expect_err("本地无该能力应拒绝");
        assert!(err.contains("channel"), "应提示改用渠道: {err}");
    }
    assert!(validate_model_ref(&mk("channel", None, "chat"), "chat").is_err());
    assert!(validate_model_ref(&mk("channel", Some("ch-1"), "chat"), "chat").is_ok());
    assert!(validate_model_ref(&mk(" federated ", None, "chat"), "chat").is_err());
}

#[test]
fn parse_stage_timeout_clamps_to_bounds() {
    assert_eq!(parse_stage_timeout(None, 600), 600);
    assert_eq!(parse_stage_timeout(Some("120"), 600), 120);
    assert_eq!(parse_stage_timeout(Some("10"), 600), 600, "低于下限回落缺省");
    assert_eq!(parse_stage_timeout(Some("9999"), 600), 600, "高于上限回落缺省");
    assert_eq!(parse_stage_timeout(Some("abc"), 600), 600);
}

#[test]
fn srt_timestamp_format() {
    assert_eq!(fmt_srt_ts(0), "00:00:00,000");
    assert_eq!(fmt_srt_ts(3_661_500), "01:01:01,500");
    assert_eq!(fmt_srt_ts(59_999), "00:00:59,999");
}

#[test]
fn build_srt_follows_script_timeline_and_skips_empty_lines() {
    let shots = vec![shot_json(1, "台词一", 5), shot_json(2, "", 4), shot_json(3, "台词三", 3)];
    let srt = build_srt(&shots);
    assert!(srt.contains("00:00:00,000 --> 00:00:05,000"), "首 cue 0-5s: {srt}");
    assert!(srt.contains("00:00:09,000 --> 00:00:12,000"), "第三 cue 累计 5+4=9s 起: {srt}");
    assert!(srt.contains("台词一") && srt.contains("台词三"));
    assert_eq!(srt.matches(" --> ").count(), 2, "无台词镜头不产 cue");
}

#[test]
fn build_concat_list_and_args_shape() {
    let list = build_concat_list(3);
    assert_eq!(list, "file 'shot-1.mp4'\nfile 'shot-2.mp4'\nfile 'shot-3.mp4'\n");
    let args = build_concat_args(1272, 720, "compose-video.mp4");
    assert_eq!(args[0], "-y");
    assert_eq!(&args[1..7], &["-f", "concat", "-safe", "0", "-i", "compose-concat.txt"]);
    assert!(
        args.iter()
            .any(|a| a.contains("scale=1272:720:force_original_aspect_ratio=decrease")),
        "统一尺寸: {args:?}"
    );
    assert!(args.iter().any(|a| a.contains("fps=30")), "统一 fps: {args:?}");
    assert_eq!(args.last().unwrap(), "compose-video.mp4");
}

#[test]
fn build_concat_args_clamps_odd_dims_to_even() {
    let args = build_concat_args(1999, 1081, "compose-video.mp4");
    let vf = args.iter().find(|a| a.starts_with("scale=")).expect("应有 -vf 尺寸串");
    assert!(vf.contains("scale=1998:1080"), "奇数钳到偶: {vf}");
    assert!(vf.contains("pad=1998:1080"), "pad 同步钳偶: {vf}");
    let args = build_concat_args(2048, 858, "compose-video.mp4");
    let vf = args.iter().find(|a| a.starts_with("scale=")).unwrap();
    assert!(vf.contains("scale=2048:858"), "{vf}");
}

#[test]
fn build_mix_args_full_form_voice_bgm_subtitles() {
    let voices = vec![("line-1.mp3".to_string(), 0u64), ("line-3.mp3".to_string(), 9000u64)];
    let args = build_mix_args(&voices, Some("bgm.mp3"), true, "final.mp4");
    let joined = args.join(" ");
    assert!(joined.contains("-stream_loop -1 -i bgm.mp3"), "BGM 循环: {joined}");
    let fc = args
        .iter()
        .skip_while(|a| *a != "-filter_complex")
        .nth(1)
        .expect("应有 filter_complex");
    assert!(fc.contains("[0:v]subtitles=subs.srt[vout]"), "字幕烧录: {fc}");
    assert!(fc.contains("adelay=0|0"), "首句 0ms: {fc}");
    assert!(fc.contains("adelay=9000|9000"), "第三句 9s 对齐: {fc}");
    assert!(
        fc.contains("amix=inputs=2:duration=longest:dropout_transition=0[voice]"),
        "双人声合一: {fc}"
    );
    assert!(fc.contains("volume=0.35[bgm]"), "BGM 压低: {fc}");
    assert!(
        fc.contains("amix=inputs=2:duration=longest:normalize=0[aout]"),
        "人声×BGM 终混: {fc}"
    );
    assert!(joined.contains("-map [vout]") && joined.contains("-map [aout]"));
    assert!(joined.contains("-c:v libx264"), "有字幕须重编码: {joined}");
    assert!(joined.contains("-shortest"), "BGM 循环须 -shortest 收口: {joined}");
    assert_eq!(args.last().unwrap(), "final.mp4");
}

#[test]
fn build_mix_args_voice_only_maps_single_track() {
    let voices = vec![("line-1.mp3".to_string(), 5000u64)];
    let args = build_mix_args(&voices, None, true, "final.mp4");
    let joined = args.join(" ");
    assert!(!joined.contains("stream_loop"), "无 BGM 不循环: {joined}");
    assert!(joined.contains("adelay=5000|5000"), "5s 对齐: {joined}");
    assert!(joined.contains("-map [a0]"), "单人声直映: {joined}");
    assert!(!joined.contains("amix=inputs=2:duration=longest:normalize=0"), "无终混");
}

#[test]
fn build_mix_args_no_audio_copies_video_track() {
    let args = build_mix_args(&[], None, false, "final.mp4");
    let joined = args.join(" ");
    assert!(!joined.contains("filter_complex"), "无字幕无音源零滤镜: {joined}");
    assert!(joined.contains("-map 0:v -map 0:a?"), "透传视频轨+可选音轨: {joined}");
    assert!(joined.contains("-c:v copy"), "无字幕不重编码: {joined}");
    assert!(!joined.contains("-shortest"), "无音源无需收口: {joined}");
}

#[test]
fn character_prompt_block_template_order_strict_and_stable() {
    let roster = roster_fixtures();
    let block = build_character_prompt_block(&["小红".into(), "小明".into()], &roster)
        .expect("两个命中角色应有注入块");
    assert!(
        block.contains("角色「小红」外形：双马尾少女，蓝色校服（与其它镜头严格同一人物）"),
        "固定措辞模板: {block}"
    );
    assert!(
        block.contains("角色「小明」外形：黑发少年，红色围巾（与其它镜头严格同一人物）"),
        "固定措辞模板: {block}"
    );
    let a = block.find("角色「小红」").unwrap();
    let b = block.find("角色「小明」").unwrap();
    assert!(a < b, "注入顺序应等于绑定顺序: {block}");
    assert!(block.contains('；'), "多角色以「；」连接: {block}");
    let block2 =
        build_character_prompt_block(&["小明".into(), "路人甲".into(), "小明".into()], &roster)
            .unwrap();
    assert!(!block2.contains("路人甲"), "未知名不进注入块: {block2}");
    assert_eq!(block2.matches("角色「小明」").count(), 1, "同名只注入一次: {block2}");
    assert!(build_character_prompt_block(&["路人甲".into()], &roster).is_none());
    assert!(build_character_prompt_block(&[], &roster).is_none());
}

#[test]
fn resolve_shot_voice_three_states() {
    let roster = roster_fixtures();
    assert_eq!(
        resolve_shot_voice(&["小红".into(), "小明".into()], &roster, None),
        "onyx",
        "无 voice 的小红应跳过，取小明的 onyx"
    );
    assert_eq!(
        resolve_shot_voice(&["老陈".into()], &roster, Some("nova")),
        "echo",
        "角色 voice 优先于 env"
    );
    assert_eq!(resolve_shot_voice(&[], &roster, Some("nova")), "nova");
    assert_eq!(
        resolve_shot_voice(&["小红".into()], &roster, Some(" coral ")),
        "coral",
        "env trim 后生效"
    );
    assert_eq!(resolve_shot_voice(&["小红".into()], &roster, None), TTS_VOICE_FALLBACK);
    assert_eq!(resolve_shot_voice(&["小红".into()], &roster, Some("  ")), TTS_VOICE_FALLBACK);
}

#[test]
fn normalize_character_names_trims_dedups_keeps_order() {
    assert_eq!(
        normalize_character_names(&[
            " 小明 ".into(),
            "".into(),
            "小红".into(),
            "小明".into(),
            "  ".into()
        ]),
        vec!["小明".to_string(), "小红".to_string()]
    );
    assert!(normalize_character_names(&[]).is_empty());
}

#[test]
fn sniff_image_ext_magic_and_mime_whitelist() {
    let png = vec![0x89, b'P', b'N', b'G', 0x0D, 0x0A, 0x1A, 0x0A, 0, 0];
    let jpeg = vec![0xFF, 0xD8, 0xFF, 0xE0];
    let mut webp = b"RIFF".to_vec();
    webp.extend_from_slice(b"\x10\x00\x00\x00WEBPVP8 ");
    assert_eq!(sniff_image_ext(&png), Some("png"));
    assert_eq!(sniff_image_ext(&jpeg), Some("jpg"));
    assert_eq!(sniff_image_ext(&webp), Some("webp"));
    assert_eq!(sniff_image_ext(b"GIF89axxxx"), None, "白名单外 None");
    assert_eq!(sniff_image_ext(&[]), None);
    assert_eq!(ext_for_mime("image/png"), Some("png"));
    assert_eq!(ext_for_mime("IMAGE/JPEG"), Some("jpg"), "大小写不敏感");
    assert_eq!(ext_for_mime("image/webp"), Some("webp"));
    assert_eq!(ext_for_mime("image/gif"), None, "白名单外拒绝");
}

#[test]
fn files_download_url_encodes_query_path() {
    let u = files_download_url("/tank/os-data/film/film-1/characters/char-1/portrait.png");
    assert!(u.starts_with("/api/v1/files/download?path="), "{u}");
    assert!(u.contains("/tank/os-data/film/film-1"), "路径段保留: {u}");
    let u2 = files_download_url("/t a/b.png");
    assert!(u2.contains("%20"), "空格应转义: {u2}");
}

#[test]
fn apply_shot_patches_merges_by_shot_with_aliases() {
    let mut shots = vec![bound_shot_json(1, "a", 5, &["小明"]), bound_shot_json(2, "", 4, &[])];
    let patch = |shot: Option<u32>| ShotPatch {
        shot,
        desc: None,
        image_prompt: None,
        video_prompt: None,
        line: None,
        duration_secs: None,
        characters: None,
    };
    let patches = vec![ShotPatch {
        desc: Some("新描述".into()),
        characters: Some(vec![" 小明 ".into(), "小明".into(), "老陈".into()]),
        ..patch(Some(2))
    }];
    apply_shot_patches(&mut shots, &patches).unwrap();
    assert_eq!(shots[1].desc, "新描述");
    assert_eq!(shots[1].line, "", "未提字段保留");
    assert_eq!(shots[1].duration_secs, 4, "未提字段保留");
    assert_eq!(shots[1].characters, vec!["小明".to_string(), "老陈".to_string()], "绑定归一保序");
    assert_eq!(shots[0].desc, "镜头1画面", "未命中补丁不动");
    let p2 = vec![ShotPatch { duration_secs: Some(999), ..patch(Some(1)) }];
    apply_shot_patches(&mut shots, &p2).unwrap();
    assert_eq!(shots[0].duration_secs, SHOT_DURATION_MAX_SECS, "钳到 60");
    let p3 = vec![ShotPatch { line: Some("x".into()), ..patch(Some(9)) }];
    assert!(apply_shot_patches(&mut shots, &p3).is_err(), "未知镜头应 Err");
    let p4 = vec![ShotPatch { line: Some("x".into()), ..patch(None) }];
    assert!(apply_shot_patches(&mut shots, &p4).is_err(), "缺 shot/index 应 Err");
}

#[test]
fn patching_keeps_numbering_and_repeats_change_nothing() {
    let mut shots = vec![shot_json(1, "a", 5), shot_json(2, "b", 4), shot_json(3, "", 6)];
    let patches = vec![ShotPatch {
        shot: Some(3),
        desc: Some("  夜景  ".into()),
        image_prompt: None,
        video_prompt: None,
        line: Some(" 走吧 ".into()),
        duration_secs: Some(0),
        characters: Some(vec!["老陈".into(), " 老陈".into()]),
    }];
    apply_shot_patches(&mut shots, &patches).unwrap();
    let once = shots.clone();
    apply_shot_patches(&mut shots, &patches).unwrap();
    assert_eq!(shots, once, "a second application changes nothing");
    assert_eq!(shots.iter().map(|s| s.shot).collect::<Vec<_>>(), vec![1, 2, 3]);
    assert_eq!((shots[2].desc.as_str(), shots[2].line.as_str(), shots[2].duration_secs), ("夜景", "走吧", 1));
    assert_eq!(shots[2].characters, vec!["老陈".to_string()]);
}
