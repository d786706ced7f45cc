use filmcraft::model::ScriptShot;
use filmcraft::script::{
    script_candidates, shots_from_candidates, RawDuration, RawShot, SHOT_DURATION_DEFAULT_SECS,
    SHOT_DURATION_MAX_SECS,
};
use serde_json::Value;

fn two_shots_json() -> String {
    r#"[{"shot":1,"desc":"开场霓虹街景","image_prompt":"霓虹街景关键帧","video_prompt":"缓慢推进","line":"这是哪里？","duration_secs":5},{"shot":2,"desc":"猫跃上屋顶","image_prompt":"猫剪影关键帧","video_prompt":"跃起运镜","line":"回家吧。","duration_secs":4}]"#
        .to_string()
}

fn names(v: &Value, key: &str) -> Option<Vec<String>> {
    v.get(key)?.as_array().map(|a| a.iter().filter_map(|x| x.as_str().map(String::from)).collect())
}

fn raw_shot(v: &Value) -> Option<RawShot> {
    v.as_object()?;
    let text = |k: &str| v.get(k).and_then(Value::as_str).map(String::from);
    Some(RawShot {
        shot: v.get("shot").and_then(Value::as_u64).map(|n| n as u32),
        desc: text("desc"),
        image_prompt: text("image_prompt"),
        video_prompt: text("video_prompt"),
        line: text("line"),
        duration_secs: v.get("duration_secs").map(|d| match d {
            Value::Number(n) => RawDuration::Number(n.as_u64()),
            Value::String(s) => RawDuration::Text(s.clone()),
            _ => RawDuration::Other,
        }),
        characters: names(v, "characters"),
        props: names(v, "props"),
        pets: names(v, "pets"),
        scenes: names(v, "scenes"),
        actions: names(v, "actions"),
    })
}

/// The storyboard in a model's answer: the library finds the JSON
/// candidates and picks the first that gives shots; each candidate is
/// parsed here as an array of raw shots.
fn parse_script_shots(text: &str) -> Result<Vec<ScriptShot>, String> {
    let parsed: Vec<Option<Vec<RawShot>>> = script_candidates(text)
        .iter()
        .map(|c| {
            let v: Value = serde_json::from_str(c).ok()?;
            v.as_array()?.iter().map(raw_shot).collect()
        })
        .collect();
    shots_from_candidates(&parsed)
}

#[test]
fn parse_script_shots_accepts_plain_array() {
    let shots = parse_script_shots(&two_shots_json()).expect("纯数组应可解析");
    assert_eq!(shots.len(), 2);
    assert_eq!(shots[0].shot, 1);
    assert_eq!(shots[0].line, "这是哪里？");
    assert_eq!(shots[1].duration_secs, 4);
}

#[test]
fn parse_script_shots_tolerates_fenced_and_prose_wrapping() {
    let fenced = format!("好的，分镜如下：\n```json\n{}\n```\n希望有帮助！", two_shots_json());
    let shots = parse_script_shots(&fenced).expect("围栏块应可解析");
    assert_eq!(shots.len(), 2, "围栏内 JSON 应被提取");
    let prose = format!("前情提要……{}……以上。", two_shots_json());
    let shots = parse_script_shots(&prose).expect("首尾中括号切片应可解析");
    assert_eq!(shots.len(), 2);
}

#[test]
fn parse_script_shots_defaults_and_clamps() {
    let raw = r#"[{"desc":"只有描述"},{"desc":"时长字符串","duration_secs":"8秒"}]"#;
    let shots = parse_script_shots(raw).expect("缺省字段应可解析");
    assert_eq!(shots.len(), 2);
    assert_eq!(shots[0].duration_secs, SHOT_DURATION_DEFAULT_SECS, "缺省时长 5");
    assert_eq!(shots[0].shot, 1, "缺省镜头号=序号");
    assert_eq!(shots[1].duration_secs, 8, "字符串时长'8秒'应归一为 8");
    // 越界钳制
    let raw = r#"[{"desc":"超长","duration_secs":999}]"#;
    let shots = parse_script_shots(raw).unwrap();
    assert_eq!(shots[0].duration_secs, SHOT_DURATION_MAX_SECS, "钳到 60");
}

#[test]
fn parse_script_shots_rejects_garbage_and_empty_shots() {
    assert!(parse_script_shots("我认为这个创意很难拍").is_err());
    assert!(parse_script_shots("[{\"line\":\"无描述无图\"}]").is_err(), "双空镜头过滤后为空应 Err");
    assert!(parse_script_shots("[]").is_err(), "空数组应 Err");
}

#[test]
fn strip_think_blocks_removes_reasoning_and_keeps_json() {
    // 闭合思考段（含方括号噪声）——剥掉后正常解析
    let body = two_shots_json();
    let with_think = format!("<think>思考噪声 [1] 也许换个故事？</think>\n{body}");
    let shots = parse_script_shots(&with_think).expect("剥思考段后应可解析");
    assert_eq!(shots.len(), 2, "{shots:?}");
    // 多段思考 + 段间正文
    let multi = format!("<think>a[0]</think>前言<think>b</think>{body}");
    assert!(parse_script_shots(&multi).is_ok(), "多段思考全剥");
    // 未闭合思考（思考吞掉全部输出）→ Err 触发重试，不误产分镜
    assert!(parse_script_shots("<think>我还没想好……").is_err(), "未闭合思考应 Err");
    // 无思考段原文直通
    assert!(parse_script_shots(&body).is_ok());
}

#[test]
fn parse_script_shots_characters_tolerant_and_old_files_compat() {
    // characters 缺省为空（旧 script.json 兼容——不加字段即可解析）
    let old = parse_script_shots(&two_shots_json()).unwrap();
    assert!(old.iter().all(|s| s.characters.is_empty()), "旧分镜无绑定: {old:?}");
    // characters 归一：trim / 去空 / 去重保序
    let raw = r#"[{"desc":"d","image_prompt":"p","characters":[" 小明 ","","小明","小红"]}]"#;
    let shots = parse_script_shots(raw).unwrap();
    assert_eq!(shots[0].characters, vec!["小明".to_string(), "小红".to_string()], "归一保序: {shots:?}");
}

#[test]
fn parse_script_shots_casting_fields_normalized() {
    let raw = r#"[{"desc":"d","image_prompt":"p","characters":[" 小明 ","小明"],"props":[" 长刀 ","","长刀"],"pets":[],"scenes":["灯塔顶"],"actions":["拔剑","拔剑"]}]"#;
    let shots = parse_script_shots(raw).unwrap();
    assert_eq!(shots[0].characters, vec!["小明".to_string()]);
    assert_eq!(shots[0].props, vec!["长刀".to_string()], "casting 扩展同款归一");
    assert_eq!(shots[0].scenes, vec!["灯塔顶".to_string()]);
    assert_eq!(shots[0].actions, vec!["拔剑".to_string()]);
    assert!(shots[0].pets.is_empty());
}
