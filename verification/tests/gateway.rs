use filmcraft::channels::{
    channel_default_model, resolve_channel, resolve_local_chat, ChannelInfo, LlmInstance,
};
use filmcraft::model::ModelRef;
use filmcraft::paths::{hub_file_mime, tree_file_kind};

fn ch(id: &str, name: &str, enabled: bool, models: &[&str]) -> ChannelInfo {
    ChannelInfo {
        id: id.into(),
        name: name.into(),
        enabled,
        models: models.iter().map(|s| s.to_string()).collect(),
    }
}

fn mr(channel: Option<&str>, model: Option<&str>) -> ModelRef {
    ModelRef {
        source: "channel".into(),
        channel_id: channel.map(String::from),
        capability: "chat".into(),
        model: model.map(String::from),
    }
}

#[test]
fn channel_resolution() {
    let chs = vec![
        ch("ch-1", "OpenAI", true, &["gpt-a", "gpt-b"]),
        ch("ch-2", "Off", false, &["x"]),
        ch("ch-3", "Empty", true, &[]),
    ];
    assert_eq!(resolve_channel(Some(&chs), &mr(Some(" ch-1 "), None)), Ok((0, "gpt-a".to_string())));
    assert_eq!(resolve_channel(Some(&chs), &mr(Some("ch-1"), Some(" gpt-b "))), Ok((0, "gpt-b".to_string())));
    assert_eq!(
        resolve_channel(Some(&chs), &mr(Some("ch-9"), None)),
        Err("渠道不存在: ch-9（先在 API 网关添加渠道）".to_string())
    );
    assert_eq!(resolve_channel(Some(&chs), &mr(Some("ch-2"), None)), Err("渠道已禁用: Off（ch-2）".to_string()));
    assert_eq!(
        resolve_channel(Some(&chs), &mr(Some("ch-3"), Some("  "))),
        Err("渠道 ch-3 的 models 为空且请求未指定 model_ref.model".to_string())
    );
    assert_eq!(resolve_channel(Some(&chs), &mr(Some("ch-3"), Some("m"))), Ok((2, "m".to_string())));
    assert!(resolve_channel(None, &mr(Some("ch-1"), None)).unwrap_err().starts_with("网关渠道未接入"));
    assert_eq!(channel_default_model(Some(&chs), "ch-1"), Some("gpt-a".to_string()));
    assert_eq!(channel_default_model(Some(&chs), "ch-3"), None);
    assert_eq!(channel_default_model(None, "ch-1"), None);
}

fn inst(status: &str, port: u16, served: Option<&str>) -> LlmInstance {
    LlmInstance { status: status.into(), port, model: "/models/qwen".into(), served_model_name: served.map(String::from) }
}

#[test]
fn local_chat_resolution() {
    assert_eq!(resolve_local_chat(&Some((9000, "mock".into())), None), Ok((9000, "mock".to_string())));
    let insts = vec![inst("stopped", 1, Some("a")), inst("running", 8001, None), inst("running", 8002, Some("b"))];
    assert_eq!(resolve_local_chat(&None, Some(&insts)), Ok((8001, "/models/qwen".to_string())));
    assert_eq!(
        resolve_local_chat(&None, Some(&vec![inst("stopped", 1, None)])),
        Err("无运行中的本地 LLM 实例（先在模型管理启动实例，或改用 source=channel）".to_string())
    );
    assert_eq!(resolve_local_chat(&None, None), Err("本地 LLM 实例面未接入（film 未注入 llm 共享实例）".to_string()));
}

#[test]
fn hub_file_mime_and_kind() {
    assert_eq!(hub_file_mime("casting/characters/a/views/front.PNG"), "image/png");
    assert_eq!(hub_file_mime("dist/final.mp4"), "video/mp4");
    assert_eq!(hub_file_mime("audio/bgm/rain/track.mp3"), "audio/mpeg");
    assert_eq!(hub_file_mime("x/photo.jpeg"), "image/jpeg");
    assert_eq!(hub_file_mime("x/.png"), "application/octet-stream");
    assert_eq!(hub_file_mime("x/raw"), "application/octet-stream");
    assert_eq!(tree_file_kind("story.md"), "text");
    assert_eq!(tree_file_kind("a.WEBP"), "binary");
    assert_eq!(tree_file_kind("notes.docx"), "other");
}
