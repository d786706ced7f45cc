use filmcraft::codec::to_b64;
use filmcraft::replies::{
    answer_looks_json, audio_from_answer, casting_items, first_extraction, first_payload, first_url,
    CastingItem, RawCastingItem, RawFrequency,
};
use filmcraft::script::{json_object_candidates, strip_think_blocks};
use serde_json::Value;

fn f(v: &[Option<&str>]) -> Vec<Option<String>> {
    v.iter().map(|o| o.map(String::from)).collect()
}

#[test]
fn payload_and_url_fields() {
    // b64_json, video_base64, b64, audio of the answer, then of data[0]
    let fields = f(&[None, None, None, None, Some("data:image/png;base64,QUJD"), None, None, None]);
    assert_eq!(first_payload(&fields).as_deref(), Some("QUJD"), "data URL prefix removed");
    let fields2 = f(&[None, Some("QUJD"), None, None, None, None, None, None]);
    assert_eq!(first_payload(&fields2).as_deref(), Some("QUJD"));
    assert_eq!(first_payload(&f(&[Some("  "), None, Some(" x ")])).as_deref(), Some("x"));
    assert_eq!(first_payload(&f(&[None, None])), None);
    // url, video_url, audio_url of the answer, then of data[0]
    assert_eq!(first_url(&f(&[None, None, None, Some("https://x/y.png"), None, None])).as_deref(), Some("https://x/y.png"));
    assert_eq!(first_url(&f(&[None, Some("http://a/b.mp4"), None])).as_deref(), Some("http://a/b.mp4"));
    assert_eq!(first_url(&f(&[Some("/rel/x"), None, None])), None, "relative paths are no download address");
    assert_eq!(first_url(&f(&[Some("/rel/x"), Some(" https://ok ")])).as_deref(), Some("https://ok"));
}

#[test]
fn audio_answer_branches() {
    assert!(!answer_looks_json(b"ID3-fake-mp3"));
    assert_eq!(audio_from_answer(b"ID3-fake-mp3", None).unwrap(), b"ID3-fake-mp3".to_vec());
    let body = format!(r#"{{"audio":"{}"}}"#, to_b64(b"audio-bytes"));
    assert!(answer_looks_json(body.as_bytes()));
    assert_eq!(
        audio_from_answer(body.as_bytes(), Some(Some(to_b64(b"audio-bytes")))).unwrap(),
        b"audio-bytes".to_vec()
    );
    let err = audio_from_answer(br#"{"error":"quota"}"#, Some(None)).expect_err("no audio field");
    assert_eq!(err, r#"上游返回 JSON 但无音频字段: {"error":"quota"}"#);
    assert!(answer_looks_json(b"  \n [1,2]"));
    assert!(audio_from_answer(b"{}", Some(Some("!!".into()))).unwrap_err().starts_with("音频 b64 解码失败: "));
}

fn raw(name: Option<&str>, desc: Option<&str>, freq: Option<RawFrequency>, reason: Option<&str>) -> RawCastingItem {
    RawCastingItem {
        name: name.map(String::from),
        desc: desc.map(String::from),
        frequency: freq,
        reason: reason.map(String::from),
    }
}

fn names(c: &[CastingItem]) -> Vec<(String, u64)> {
    c.iter().map(|i| (i.name.clone(), i.frequency)).collect()
}

#[test]
fn extraction_classes_kept() {
    let characters = vec![raw(Some(" 小明 "), Some(" 黑发 "), Some(RawFrequency::Number(Some(3))), Some("主角"))];
    let weapons = vec![raw(Some("长刀"), None, Some(RawFrequency::Text(" 2次".into())), None)];
    let actions = vec![raw(Some("拔剑"), None, None, None), raw(None, Some("无名"), None, None)];
    let scenes = vec![raw(Some("灯塔顶"), None, Some(RawFrequency::Other), None)];
    let cand = Some(vec![Some(characters), Some(weapons), Some(vec![]), None, Some(actions), Some(scenes)]);
    let v = first_extraction(&vec![None, cand]).unwrap();
    assert_eq!(v.len(), 6);
    assert_eq!(names(&v[0]), vec![("小明".to_string(), 3)]);
    assert_eq!((v[0][0].desc.as_str(), v[0][0].reason.as_str()), ("黑发", "主角"));
    assert_eq!(names(&v[1]), vec![("长刀".to_string(), 2)]);
    assert!(v[2].is_empty() && v[3].is_empty());
    assert_eq!(names(&v[4]), vec![("拔剑".to_string(), 0)], "nameless entries dropped, missing frequency is 0");
    assert_eq!(names(&v[5]), vec![("灯塔顶".to_string(), 0)]);
    let empty = Some(vec![Some(vec![raw(None, Some("无名"), None, None)]), Some(vec![])]);
    assert_eq!(
        first_extraction(&vec![empty, None]).err().as_deref(),
        Some("无法从 LLM 输出解析出六类定妆对象 JSON 对象")
    );
    assert!(casting_items(&vec![raw(Some("  "), None, None, None)]).is_empty());
}

fn fields_of(v: &Value, keys: &[&str]) -> Vec<Option<String>> {
    let d0 = v.get("data").and_then(|d| d.get(0));
    [Some(v), d0]
        .into_iter()
        .flatten()
        .flat_map(|h| keys.iter().map(move |k| h.get(*k).and_then(Value::as_str).map(String::from)))
        .collect()
}

fn extract_b64(v: &Value) -> Option<String> {
    first_payload(&fields_of(v, &["b64_json", "video_base64", "b64", "audio"]))
}

fn extract_url(v: &Value) -> Option<String> {
    first_url(&fields_of(v, &["url", "video_url", "audio_url"]))
}

fn sniff_audio_bytes(bytes: &[u8]) -> Result<Vec<u8>, String> {
    let json = if answer_looks_json(bytes) {
        serde_json::from_slice::<Value>(bytes).ok().map(|v| extract_b64(&v))
    } else {
        None
    };
    audio_from_answer(bytes, json)
}

#[test]
fn extract_b64_and_url_shapes() {
    let v: Value = serde_json::from_str(r#"{"data":[{"b64_json":"data:image/png;base64,QUJD","url":"https://x/y.png"}]}"#).unwrap();
    assert_eq!(extract_b64(&v).as_deref(), Some("QUJD"), "b64 应剥 data 前缀");
    assert_eq!(extract_url(&v).as_deref(), Some("https://x/y.png"));
    let v2: Value = serde_json::from_str(r#"{"video_url":"http://a/b.mp4","video_base64":"QUJD"}"#).unwrap();
    assert_eq!(extract_url(&v2).as_deref(), Some("http://a/b.mp4"));
    assert_eq!(extract_b64(&v2).as_deref(), Some("QUJD"));
    // 非 http(s) 的 url 不认（防把相对路径当下载地址）
    let v3: Value = serde_json::from_str(r#"{"url":"/rel/x"}"#).unwrap();
    assert_eq!(extract_url(&v3), None);
}

#[test]
fn sniff_audio_bytes_branches() {
    // 二进制直通
    assert_eq!(sniff_audio_bytes(b"ID3-fake-mp3").unwrap(), b"ID3-fake-mp3".to_vec());
    // JSON b64 解码
    let b64 = to_b64(b"audio-bytes");
    let body = format!(r#"{{"audio":"{b64}"}}"#);
    assert_eq!(sniff_audio_bytes(body.as_bytes()).unwrap(), b"audio-bytes".to_vec());
    // JSON 无音频字段 → 如实报错
    let err = sniff_audio_bytes(br#"{"error":"quota"}"#).expect_err("应报错");
    assert!(err.contains("无音频字段"), "{err}");
}

const EXTRACTION_KEYS: [&str; 6] = ["characters", "weapons", "pets", "formations", "actions", "scenes"];

fn raw_item(it: &Value) -> RawCastingItem {
    let text = |f: &str| it.get(f).and_then(Value::as_str).map(String::from);
    RawCastingItem {
        name: text("name"),
        desc: text("desc"),
        frequency: it.get("frequency").map(|f| match f {
            Value::Number(n) => RawFrequency::Number(n.as_u64()),
            Value::String(s) => RawFrequency::Text(s.clone()),
            _ => RawFrequency::Other,
        }),
        reason: text("reason"),
    }
}

fn parse_extraction(text: &str) -> Result<Vec<Vec<CastingItem>>, String> {
    let stripped = strip_think_blocks(text);
    let cands: Vec<Option<Vec<Option<Vec<RawCastingItem>>>>> = json_object_candidates(&stripped)
        .iter()
        .map(|c| {
            let v = serde_json::from_str::<Value>(c).ok()?;
            let obj = v.as_object()?;
            Some(
                EXTRACTION_KEYS
                    .iter()
                    .map(|k| obj.get(*k).and_then(Value::as_array).map(|arr| arr.iter().map(raw_item).collect()))
                    .collect(),
            )
        })
        .collect();
    first_extraction(&cands)
}

#[test]
fn parse_extraction_tolerant_shapes() {
    let raw = r#"{"characters":[{"name":"小明","desc":"黑发","frequency":3,"reason":"主角"}],"weapons":[{"name":"长刀","frequency":"2次"}],"pets":[],"formations":[],"actions":[{"name":"拔剑"}],"scenes":[{"name":"灯塔顶","frequency":1}]}"#;
    let v = parse_extraction(raw).expect("纯对象应可解析");
    assert_eq!(v[0][0].name, "小明");
    assert_eq!(v[0][0].frequency, 3);
    assert_eq!(v[1][0].frequency, 2, "字符串'2次'归一");
    assert_eq!(v[4][0].frequency, 0, "缺省 frequency=0");
    assert_eq!(v[5][0].name, "灯塔顶");
    // 围栏 + 散文包裹
    let fenced = format!("好的：\n```json\n{raw}\n```\n完成");
    assert!(parse_extraction(&fenced).is_ok());
    let prose = format!("前情 {} 后记", raw);
    assert!(parse_extraction(&prose).is_ok());
    // <think> 剥离
    let think = format!("<think>噪声 {{}}</think>{raw}");
    assert!(parse_extraction(&think).is_ok());
    // 全空 / 垃圾拒绝
    assert!(parse_extraction("{\"characters\":[]}").is_err(), "全空视为失败");
    assert!(parse_extraction("我认为没有可定妆的对象").is_err());
    // 缺名条目丢弃
    let noname = r#"{"characters":[{"desc":"无名"}],"weapons":[]}"#;
    let v2 = parse_extraction(noname);
    assert!(v2.is_err(), "过滤无名后全空应 Err: {v2:?}");
}
