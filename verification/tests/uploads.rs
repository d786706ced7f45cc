use filmcraft::casting::{
    auto_claimer, new_card, new_track, rename_target, unknown_casting_refs, update_card, CardUpdate,
};
use filmcraft::codec::to_b64;
use filmcraft::hub::CastingCard;
use filmcraft::model::ScriptShot;
use filmcraft::stages::check_cache_commit;
use filmcraft::story::story_import_max_bytes_for;
use filmcraft::uploads::{accept_image, accept_story_text, accept_track, ImageUse, UploadIssue, IMAGE_MAX_BYTES};

const PNG_B64: &str = "iVBORw0KGgoBAgM=";
const JPG_B64: &str = "/9j/4A==";
const WEBP_B64: &str = "UklGRgAAAABXRUJQ";

fn rejected(m: &str) -> UploadIssue {
    UploadIssue::Rejected(m.to_string())
}

#[test]
fn image_upload_takes_kind_from_mime_or_bytes() {
    let (b, e) = accept_image(ImageUse::Portrait, &format!("  {PNG_B64} "), None).unwrap();
    assert_eq!(e, "png");
    assert_eq!(b.len(), 11);
    assert_eq!(accept_image(ImageUse::Portrait, JPG_B64, Some(" IMAGE/JPEG ")).unwrap().1, "jpg");
    assert_eq!(accept_image(ImageUse::View, WEBP_B64, Some("image/webp")).unwrap().1, "webp");
    assert_eq!(accept_image(ImageUse::Reference, JPG_B64, Some("image/gif")).unwrap().1, "jpg");
}

#[test]
fn image_upload_refusals() {
    assert_eq!(accept_image(ImageUse::Portrait, "  ", None), Err(rejected("image_b64 不可为空")));
    assert_eq!(
        accept_image(ImageUse::Portrait, "data:image/png;base64,AAAA", None),
        Err(rejected("image_b64 须为原始标准 b64（不带 data: 前缀）"))
    );
    assert!(matches!(
        accept_image(ImageUse::View, "data:image/png;base64,AAAA", None),
        Err(UploadIssue::Rejected(m)) if m.starts_with("image_b64 解码失败: ")
    ));
    assert_eq!(
        accept_image(ImageUse::Portrait, PNG_B64, Some("image/gif")),
        Err(rejected("mime 仅支持 png/jpeg/webp（当前 image/gif）"))
    );
    assert_eq!(
        accept_image(ImageUse::Portrait, "aGVsbG8=", None),
        Err(rejected("mime 缺省时按图片魔数嗅探仅支持 png/jpeg/webp（请显式传 mime）"))
    );
    assert_eq!(
        accept_image(ImageUse::View, "aGVsbG8=", None),
        Err(rejected("mime 缺省时按魔数嗅探仅支持 png/jpeg/webp（请显式传 mime）"))
    );
    assert_eq!(
        accept_image(ImageUse::Reference, "aGVsbG8=", None),
        Err(rejected("仅支持 png/jpeg/webp 图片（魔数嗅探失败）"))
    );
    assert_eq!(
        accept_image(ImageUse::Portrait, JPG_B64, Some("image/png")),
        Err(rejected("图片内容与 mime 不符（魔数校验失败；仅支持 png/jpeg/webp）"))
    );
    assert_eq!(
        accept_image(ImageUse::View, JPG_B64, Some("image/png")),
        Err(rejected("图片内容与 mime 不符（魔数校验失败）"))
    );
}

#[test]
fn oversized_uploads_report_their_size() {
    let mut big = vec![0u8; IMAGE_MAX_BYTES + 1];
    big[..8].copy_from_slice(&[0x89, 0x50, 0x4E, 0x47, 0x0D, 0x0A, 0x1A, 0x0A]);
    let raw = to_b64(&big);
    assert_eq!(
        accept_image(ImageUse::Portrait, &raw, None),
        Err(UploadIssue::TooLarge { subject: "图片".into(), limit_mb: 10, bytes: IMAGE_MAX_BYTES + 1 })
    );
    let guard = story_import_max_bytes_for(Some("2"));
    assert_eq!(guard, Some(2 * 1024 * 1024));
    let text = vec![b'a'; 2 * 1024 * 1024 + 1];
    assert_eq!(
        accept_story_text(&to_b64(&text), guard),
        Err(UploadIssue::TooLarge { subject: "导入原文".into(), limit_mb: 2, bytes: 2 * 1024 * 1024 + 1 })
    );
    assert!(accept_story_text(&to_b64(&text), None).is_ok());
}

#[test]
fn story_and_track_imports() {
    let guard = story_import_max_bytes_for(None);
    assert_eq!(accept_story_text("56ys5LiA5bmV", guard), Ok("第一幕".to_string()));
    assert_eq!(accept_story_text("//79", guard), Err(rejected("导入原文须为 UTF-8 文本")));
    assert_eq!(accept_story_text("", guard), Err(rejected("content_b64 不可为空")));
    let three_mb = "a".repeat(3 * 1024 * 1024);
    assert_eq!(accept_story_text(&to_b64(three_mb.as_bytes()), guard).map(|t| t.len()), Ok(3 * 1024 * 1024));
    assert_eq!(accept_track("aGVsbG8="), Ok(b"hello".to_vec()));
    assert!(matches!(accept_track("!!"), Err(UploadIssue::Rejected(m)) if m.starts_with("track_b64 解码失败")));
}

fn card(name: &str) -> CastingCard {
    CastingCard {
        name: name.into(),
        voice: Some("alloy".into()),
        portrait: Some("views/front.png".into()),
        desc: "旧描述".into(),
    }
}

fn upd(name: Option<&str>, desc: Option<&str>, voice: Option<&str>, portrait: Option<&str>) -> CardUpdate {
    CardUpdate {
        name: name.map(String::from),
        desc: desc.map(String::from),
        voice: voice.map(String::from),
        portrait: portrait.map(String::from),
    }
}

#[test]
fn new_casting_cards() {
    let (c, s) = new_card(" Old Chen ", " 守夜人 ", &Some(" echo ".into())).unwrap();
    assert_eq!((c.name.as_str(), c.desc.as_str(), c.voice.as_deref(), s.as_str()), ("Old Chen", "守夜人", Some("echo"), "Old-Chen"));
    assert_eq!(new_card(" ", "x", &None).unwrap_err(), "name 不可为空");
    assert_eq!(new_card("a", " ", &None).unwrap_err(), "desc 不可为空");
    assert_eq!(new_card("!!!", "x", &None).unwrap_err(), "name 无法 slug 化: !!!");
}

#[test]
fn casting_card_edits() {
    let c = card("小明");
    let (n, s) = update_card(&c, "characters", "小明", &upd(Some(" 小明 2 "), Some("新"), Some(" "), Some(" ")), false).unwrap();
    assert_eq!((n.name.as_str(), n.desc.as_str(), n.voice.clone(), n.portrait.clone(), s.as_str()), ("小明 2", "新", None, None, "小明-2"));
    let (k, s2) = update_card(&c, "characters", "小明", &upd(None, None, None, Some("views/side.png ")), false).unwrap();
    assert_eq!((k.name.as_str(), k.portrait.as_deref(), k.voice.as_deref(), s2.as_str()), ("小明", Some("views/side.png"), Some("alloy"), "小明"));
    assert_eq!(
        update_card(&c, "characters", "小明", &upd(Some("小红"), None, None, None), true).err(),
        Some((409, "定妆对象已存在: casting/characters/小红".to_string()))
    );
    assert_eq!(
        update_card(&c, "characters", "小明", &upd(None, None, None, Some("views/../x.png")), false).err(),
        Some((400, "portrait 须为 views/ 下的相对路径（如 views/front.png）".to_string()))
    );
    assert_eq!(
        update_card(&c, "props", "x", &upd(Some("???"), None, None, None), false).err(),
        Some((400, "name 无法 slug 化: ???".to_string()))
    );
    assert_eq!(rename_target(&Some(" 小红 ".into()), "小明"), Some("小红".to_string()));
    assert_eq!(rename_target(&Some("小明".into()), "小明"), None);
    assert_eq!(rename_target(&None, "小明"), None);
}

#[test]
fn new_bgm_tracks() {
    assert_eq!(new_track(&None, &None, 2), Ok(("bgm-3".to_string(), "global".to_string())));
    assert_eq!(new_track(&Some(" Rain Theme ".into()), &Some("".into()), 0), Ok(("Rain-Theme".to_string(), "global".to_string())));
    assert_eq!(new_track(&None, &Some(" scene: 雨巷 ".into()), 0), Ok(("bgm-1".to_string(), "scene:雨巷".to_string())));
    assert_eq!(
        new_track(&None, &Some("night".into()), 0),
        Err("trigger 须为 global 或 scene:<场景名>（当前 night）".to_string())
    );
    assert_eq!(new_track(&Some("%%".into()), &None, 0), Err("name 无法 slug 化: %%".to_string()));
}

fn shot(n: u32, characters: &[&str], props: &[&str]) -> ScriptShot {
    ScriptShot {
        shot: n,
        desc: String::new(),
        image_prompt: String::new(),
        video_prompt: String::new(),
        line: String::new(),
        duration_secs: 5,
        characters: characters.iter().map(|s| s.to_string()).collect(),
        props: props.iter().map(|s| s.to_string()).collect(),
        pets: vec![],
        scenes: vec!["雨巷".into()],
        actions: vec![],
    }
}

#[test]
fn unknown_refs_listed_once_in_order() {
    let shots = vec![shot(1, &["小明", "路人"], &["伞"]), shot(2, &["路人", "小红"], &["伞", "剑"])];
    let known = vec!["小明".to_string(), "伞".to_string()];
    assert_eq!(unknown_casting_refs(&shots, &known), vec!["路人", "雨巷", "小红", "剑"]);
    assert!(unknown_casting_refs(&vec![], &known).is_empty());
}

#[test]
fn cache_commit_names() {
    assert_eq!(check_cache_commit("shot-3.png"), Ok(()));
    assert_eq!(check_cache_commit("shot-12.mp4"), Ok(()));
    assert_eq!(check_cache_commit("line-1.mp3"), Ok(()));
    for bad in ["line-1.png", "shot-.png", "shot-1a.png", "clip-1.mp4", "shot1.png", "shot-1"] {
        assert_eq!(
            check_cache_commit(bad),
            Err(format!("cache 产物名须为 shot-<n>.png / shot-<n>.mp4 / line-<n>.mp3（当前 {bad}）"))
        );
    }
}

#[test]
fn creators_claim_new_objects() {
    assert_eq!(auto_claimer(&Some(" alice ".into())), Some("alice".to_string()));
    assert_eq!(auto_claimer(&Some("  ".into())), None, "blank author is anonymous");
    assert_eq!(auto_claimer(&Some("anonymous".into())), None);
    assert_eq!(auto_claimer(&None), None);
}
