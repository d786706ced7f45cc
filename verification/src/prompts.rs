//! Prompt texts sent to the chat models: storyboard, retry, story,
//! extraction, portrait and view prompts, all anchored on the idea.
use vstd::prelude::*;
use crate::model::FilmCharacter;
use crate::text::{blank, chars_of, dec, is_blank, join, push_dec, strs, trim, trimmed};

verus! {

/// Style hint used when none is given.
pub open spec fn style_of(style_hint: Option<Seq<char>>) -> Seq<char> {
    match style_hint {
        Some(s) => if !is_blank(s) {
            trim(s)
        } else {
            "电影感、自然光影"@
        },
        None => "电影感、自然光影"@,
    }
}

fn style_text(style_hint: Option<&str>) -> (r: String)
    ensures
        r@ == style_of(crate::media::opt_str_view(style_hint)),
{
    match style_hint {
        Some(s) => {
            if !blank(s) {
                return trimmed(s);
            }
        },
        None => {},
    }
    String::from_str("电影感、自然光影")
}

/// The numbered roster lines `i. 名字：描述`.
pub open spec fn roster_lines(chars: Seq<FilmCharacter>) -> Seq<Seq<char>> {
    Seq::new(chars.len(), |i: int| dec((i + 1) as nat) + ". "@ + chars[i].name@ + "："@ + chars[i].description@)
}

/// The roster section of the storyboard prompt (empty for an empty roster).
pub open spec fn script_roster(chars: Seq<FilmCharacter>) -> Seq<char> {
    if chars.len() == 0 {
        seq![]
    } else {
        "\n【角色表】（分镜 characters 字段只能从下列角色名中选取）：\n"@ + join(roster_lines(chars), "\n"@) + "\n5. 每个镜头须输出 \"characters\":[\"角色名\",…] 字段（该镜头出场角色，必须从【角色表】选名字；无角色出场则空数组）。\n"@
    }
}

fn script_roster_text(chars: &[FilmCharacter]) -> (r: String)
    ensures
        r@ == script_roster(chars@),
{
    let mut r = String::new();
    if chars.len() == 0 {
        return r;
    }
    let mut lines: Vec<String> = Vec::new();
    let mut i: usize = 0;
    while i < chars.len()
        invariant
            i <= chars@.len(),
            strs(lines@) == roster_lines(chars@).take(i as int),
        decreases chars.len() - i,
    {
        let mut l = String::new();
        push_dec(&mut l, (i + 1) as u64);
        l.append(". ");
        l.append(chars[i].name.as_str());
        l.append("：");
        l.append(chars[i].description.as_str());
        crate::text::push_string(&mut lines, l);
        assert(roster_lines(chars@).take(i + 1) =~= roster_lines(chars@).take(i as int).push(
            roster_lines(chars@)[i as int],
        ));
        i = i + 1;
    }
    assert(roster_lines(chars@).take(chars@.len() as int) =~= roster_lines(chars@));
    let list = crate::text::join_strings(&lines, "\n");
    r.append("\n【角色表】（分镜 characters 字段只能从下列角色名中选取）：\n");
    r.append(list.as_str());
    r.append("\n5. 每个镜头须输出 \"characters\":[\"角色名\",…] 字段（该镜头出场角色，必须从【角色表】选名字；无角色出场则空数组）。\n");
    r
}

/// The roster entries handed to the storyboard prompt: `<n>. <name>：<description>`.
pub fn roster_entries(chars: &[FilmCharacter]) -> (r: Vec<String>)
    ensures
        strs(r@) == roster_lines(chars@),
{
    let mut lines: Vec<String> = Vec::new();
    let mut i: usize = 0;
    while i < chars.len()
        invariant
            i <= chars@.len(),
            strs(lines@) == roster_lines(chars@).take(i as int),
        decreases chars.len() - i,
    {
        let mut l = String::new();
        push_dec(&mut l, (i + 1) as u64);
        l.append(". ");
        l.append(chars[i].name.as_str());
        l.append("：");
        l.append(chars[i].description.as_str());
        crate::text::push_string(&mut lines, l);
        assert(roster_lines(chars@).take(i + 1) =~= roster_lines(chars@).take(i as int).push(
            roster_lines(chars@)[i as int],
        ));
        i = i + 1;
    }
    assert(roster_lines(chars@).take(chars@.len() as int) =~= roster_lines(chars@));
    lines
}

/// The storyboard prompt: idea, ratio and style, the shot-array contract,
/// the hard topic constraint, the roster when there is one, the idea again.
pub open spec fn script_prompt(idea: Seq<char>, ratio: Seq<char>, style: Option<Seq<char>>, chars: Seq<FilmCharacter>) -> Seq<char> {
    "请为下面的影片创意生成分镜脚本。\n【创意】"@ + idea + "\n【画幅】"@ + ratio + "\n【风格提示】"@ + style_of(style) + "\n要求：\n1. 输出 5 到 12 个镜头，按叙事顺序。\n2. 必须严格围绕【创意】的故事创作分镜：禁止更换题材、禁止另编与【创意】无关的故事；每个镜头的画面都必须直接服务于该创意的叙事。\n3. 只输出一个 JSON 数组，不要任何解释文字或 markdown 代码块标记。每个元素形如：\n{\"shot\":1,\"desc\":\"画面描述\",\"image_prompt\":\"关键帧生图提示词（含风格与 "@ + ratio + " 构图信息）\",\"video_prompt\":\"图生视频运动与镜头语言提示词\",\"line\":\"角色台词，无台词则为空字符串\",\"duration_secs\":5}\n4. duration_secs 取 2-10 的整数。\n"@ + script_roster(chars) + "最后再强调一次：所有镜头必须讲【创意】本身的故事——【创意】是："@ + idea
}

/// Storyboard user prompt (strict JSON-array contract, topic constraint and
/// the idea anchored at both ends; roster section when characters exist).
pub fn build_script_prompt(idea: &str, ratio: &str, style_hint: Option<&str>, characters: &[FilmCharacter]) -> (r: String)
    ensures
        r@ == script_prompt(idea@, ratio@, crate::media::opt_str_view(style_hint), characters@),
{
    let style = style_text(style_hint);
    let roster = script_roster_text(characters);
    let mut r = String::new();
    r.append("请为下面的影片创意生成分镜脚本。\n【创意】");
    r.append(idea);
    r.append("\n【画幅】");
    r.append(ratio);
    r.append("\n【风格提示】");
    r.append(style.as_str());
    r.append("\n要求：\n1. 输出 5 到 12 个镜头，按叙事顺序。\n2. 必须严格围绕【创意】的故事创作分镜：禁止更换题材、禁止另编与【创意】无关的故事；每个镜头的画面都必须直接服务于该创意的叙事。\n3. 只输出一个 JSON 数组，不要任何解释文字或 markdown 代码块标记。每个元素形如：\n{\"shot\":1,\"desc\":\"画面描述\",\"image_prompt\":\"关键帧生图提示词（含风格与 ");
    r.append(ratio);
    r.append(" 构图信息）\",\"video_prompt\":\"图生视频运动与镜头语言提示词\",\"line\":\"角色台词，无台词则为空字符串\",\"duration_secs\":5}\n4. duration_secs 取 2-10 的整数。\n");
    r.append(roster.as_str());
    r.append("最后再强调一次：所有镜头必须讲【创意】本身的故事——【创意】是：");
    r.append(idea);
    r
}

/// The roster reminder of the retry prompt (empty for an empty roster).
pub open spec fn retry_roster(chars: Seq<FilmCharacter>) -> Seq<char> {
    if chars.len() == 0 {
        seq![]
    } else {
        "每个镜头元素须含 characters 字段（出场角色名数组，只能用这些名字："@ + join(Seq::new(chars.len(), |i: int| chars[i].name@), "、"@) + "；无出场则为空数组）。"@
    }
}

fn names_joined(chars: &[FilmCharacter]) -> (r: String)
    ensures
        r@ == join(Seq::new(chars@.len(), |i: int| chars@[i].name@), "、"@),
{
    let mut names: Vec<String> = Vec::new();
    let mut i: usize = 0;
    while i < chars.len()
        invariant
            i <= chars@.len(),
            strs(names@) == Seq::new(chars@.len(), |k: int| chars@[k].name@).take(i as int),
        decreases chars.len() - i,
    {
        crate::text::push_str(&mut names, chars[i].name.as_str());
        assert(Seq::new(chars@.len(), |k: int| chars@[k].name@).take(i + 1) =~= Seq::new(
            chars@.len(),
            |k: int| chars@[k].name@,
        ).take(i as int).push(chars@[i as int].name@));
        i = i + 1;
    }
    assert(Seq::new(chars@.len(), |k: int| chars@[k].name@).take(chars@.len() as int) =~= Seq::new(
        chars@.len(),
        |k: int| chars@[k].name@,
    ));
    crate::text::join_strings(&names, "、")
}

/// The retry prompt after an unparsable answer.
pub open spec fn retry_prompt(idea: Seq<char>, chars: Seq<FilmCharacter>) -> Seq<char> {
    "你上一次的输出无法解析为 JSON 数组。请重新输出分镜 JSON 数组本体：只输出一个 JSON 数组（以 [ 开头、以 ] 结尾），元素字段为 shot/desc/image_prompt/video_prompt/line/duration_secs，不要 markdown 标记、不要任何解释文字。"@ + retry_roster(chars) + "必须严格围绕【创意】的故事创作分镜：禁止更换题材、禁止另编与【创意】无关的故事；每个镜头的画面都必须直接服务于该创意的叙事。【创意】是："@ + idea
}

/// Retry prompt after an unparsable storyboard: array body only, no
/// markdown, same topic constraint, the idea embedded.
pub fn build_retry_prompt(idea: &str, characters: &[FilmCharacter]) -> (r: String)
    ensures
        r@ == retry_prompt(idea@, characters@),
{
    let mut roster = String::new();
    if characters.len() > 0 {
        let names = names_joined(characters);
        let r = &mut roster;
        r.append("每个镜头元素须含 characters 字段（出场角色名数组，只能用这些名字：");
        r.append(names.as_str());
        r.append("；无出场则为空数组）。");
    }
    let mut r = String::new();
    r.append("你上一次的输出无法解析为 JSON 数组。请重新输出分镜 JSON 数组本体：只输出一个 JSON 数组（以 [ 开头、以 ] 结尾），元素字段为 shot/desc/image_prompt/video_prompt/line/duration_secs，不要 markdown 标记、不要任何解释文字。");
    r.append(roster.as_str());
    r.append("必须严格围绕【创意】的故事创作分镜：禁止更换题材、禁止另编与【创意】无关的故事；每个镜头的画面都必须直接服务于该创意的叙事。【创意】是：");
    r.append(idea);
    r
}

/// The portrait prompt of a character.
pub open spec fn portrait_prompt(name: Seq<char>, description: Seq<char>) -> Seq<char> {
    "角色「"@ + name + "」定妆照："@ + description + "。正面半身像，面部清晰，五官端正，光影干净均匀，纯色背景，细节丰富，高质量"@
}

/// Default portrait prompt built from the character's description.
pub fn default_portrait_prompt(name: &str, description: &str) -> (r: String)
    ensures
        r@ == portrait_prompt(name@, description@),
{
    let mut r = String::new();
    r.append("角色「");
    r.append(name);
    r.append("」定妆照：");
    r.append(description);
    r.append("。正面半身像，面部清晰，五官端正，光影干净均匀，纯色背景，细节丰富，高质量");
    r
}

/// The view prompt of a casting object.
pub open spec fn view_prompt(ctype: Seq<char>, desc: Seq<char>, view: Seq<char>) -> Seq<char> {
    if ctype == "characters"@ {
        "同一定妆对象的多视图："@ + desc + "，"@ + view + " 视图，严格一致外形"@
    } else {
        "定妆对象（"@ + ctype + "）的 "@ + view + " 视图定妆图："@ + desc + "，严格一致外形"@
    }
}

/// Default prompt of a casting view (characters have their own wording).
pub fn default_view_prompt(ctype: &str, desc: &str, view: &str) -> (r: String)
    ensures
        r@ == view_prompt(ctype@, desc@, view@),
{
    let mut r = String::new();
    if crate::text::str_eq(ctype, "characters") {
        r.append("同一定妆对象的多视图：");
        r.append(desc);
        r.append("，");
        r.append(view);
        r.append(" 视图，严格一致外形");
    } else {
        r.append("定妆对象（");
        r.append(ctype);
        r.append("）的 ");
        r.append(view);
        r.append(" 视图定妆图：");
        r.append(desc);
        r.append("，严格一致外形");
    }
    r
}

/// A long text cut to `max` characters with a note saying so.
pub open spec fn truncated(text: Seq<char>, max: nat) -> Seq<char> {
    if text.len() <= max {
        text
    } else {
        text.take(max as int) + "\n…（超长已截断至 "@ + dec(max as nat) + " 字符）"@
    }
}

/// Character-level truncation with a truncation note.
pub fn truncate_chars(text: &str, max: usize) -> (r: String)
    ensures
        r@ == truncated(text@, max as nat),
{
    let v = chars_of(text);
    if v.len() <= max {
        return String::from_str(text);
    }
    let cut = crate::text::string_of_range(&v, 0, max);
    assert(v@.subrange(0, max as int) =~= text@.take(max as int));
    let mut m = String::new();
    push_dec(&mut m, max as u64);
    let mut r = String::new();
    r.append(cut.as_str());
    r.append("\n…（超长已截断至 ");
    r.append(m.as_str());
    r.append(" 字符）");
    r
}

/// The adaptation section of the story prompt.
pub open spec fn story_source_block(source: Option<Seq<char>>) -> Seq<char> {
    match source {
        Some(src) => "【改编原文】请基于以下导入原文改编浓缩为分幕剧本（保留主线与关键情节，收敛为 3 到 6 幕）：\n"@ + truncated(src, 80000) + "\n"@,
        None => seq![],
    }
}

/// The first requirement of the story prompt.
pub open spec fn story_req1(source: Option<Seq<char>>) -> Seq<char> {
    match source {
        Some(_) => "1. 在改编浓缩的前提下输出分幕剧本：以「【第一幕】」「【第二幕】」……为幕标题，每幕写明场景、人物动作与关键对白，共 3 到 6 幕。"@,
        None => "1. 输出分幕剧本：以「【第一幕】」「【第二幕】」……为幕标题，每幕写明场景、人物动作与关键对白，共 3 到 6 幕。"@,
    }
}

/// The story prompt.
pub open spec fn story_prompt(idea: Seq<char>, ratio: Seq<char>, style: Option<Seq<char>>, source: Option<Seq<char>>) -> Seq<char> {
    "请为下面的影片创意创作剧情正稿（分幕剧本文本）。\n【创意】"@ + idea + "\n【画幅】"@ + ratio + "\n【风格提示】"@ + style_of(style) + "\n"@ + story_source_block(source) + "要求：\n"@ + story_req1(source) + "\n2. 必须严格围绕【创意】的故事创作：禁止更换题材、禁止另编与【创意】无关的故事；每一幕都必须直接服务于该创意的叙事。\n3. 只输出分幕剧本正文（不要 markdown 代码块标记、不要任何解释文字）；正文中反复出现的人物、武器、宠物、场景与动作请使用稳定统一的名字（后续定妆阶段将按这些名字建定妆对象）。\n最后再强调一次：所有幕必须讲【创意】本身的故事——【创意】是："@ + idea
}

/// Story user prompt: acts `【第一幕】`.., 3 to 6 acts, topic constraint,
/// idea anchored twice; with a source text, an adaptation section (source cut
/// to 80000 characters).
pub fn build_story_prompt(idea: &str, ratio: &str, style_hint: Option<&str>, source_text: Option<&str>) -> (r: String)
    ensures
        r@ == story_prompt(idea@, ratio@, crate::media::opt_str_view(style_hint), crate::media::opt_str_view(source_text)),
{
    let style = style_text(style_hint);
    let mut block = String::new();
    let req1: &str;
    match source_text {
        Some(src) => {
            let t = truncate_chars(src, 80000);
            let r = &mut block;
            r.append("【改编原文】请基于以下导入原文改编浓缩为分幕剧本（保留主线与关键情节，收敛为 3 到 6 幕）：\n");
            r.append(t.as_str());
            r.append("\n");
            req1 = "1. 在改编浓缩的前提下输出分幕剧本：以「【第一幕】」「【第二幕】」……为幕标题，每幕写明场景、人物动作与关键对白，共 3 到 6 幕。";
        },
        None => {
            req1 = "1. 输出分幕剧本：以「【第一幕】」「【第二幕】」……为幕标题，每幕写明场景、人物动作与关键对白，共 3 到 6 幕。";
        },
    }
    let mut r = String::new();
    r.append("请为下面的影片创意创作剧情正稿（分幕剧本文本）。\n【创意】");
    r.append(idea);
    r.append("\n【画幅】");
    r.append(ratio);
    r.append("\n【风格提示】");
    r.append(style.as_str());
    r.append("\n");
    r.append(block.as_str());
    r.append("要求：\n");
    r.append(req1);
    r.append("\n2. 必须严格围绕【创意】的故事创作：禁止更换题材、禁止另编与【创意】无关的故事；每一幕都必须直接服务于该创意的叙事。\n3. 只输出分幕剧本正文（不要 markdown 代码块标记、不要任何解释文字）；正文中反复出现的人物、武器、宠物、场景与动作请使用稳定统一的名字（后续定妆阶段将按这些名字建定妆对象）。\n最后再强调一次：所有幕必须讲【创意】本身的故事——【创意】是：");
    r.append(idea);
    r
}

/// Story system prompt.
pub fn story_system_prompt() -> (r: &'static str)
    ensures
        r@ == "你是专业的短片编剧。必须严格围绕用户给出的【创意】创作，禁止更换题材、禁止另编与【创意】无关的故事。只输出剧本正文，不要任何解释文字。"@,
{
    "你是专业的短片编剧。必须严格围绕用户给出的【创意】创作，禁止更换题材、禁止另编与【创意】无关的故事。只输出剧本正文，不要任何解释文字。"
}

/// What the storyboard works from: the story when there is one, else the idea.
pub open spec fn sb_label(story: Option<Seq<char>>) -> Seq<char> {
    match story {
        Some(_) => "剧情"@,
        None => "创意"@,
    }
}

/// The material section: the story cut to 60000 characters, or the idea.
pub open spec fn sb_content(story: Option<Seq<char>>, idea: Seq<char>) -> Seq<char> {
    match story {
        Some(s) => truncated(s, 60000),
        None => idea,
    }
}

/// The closing anchor: the first 80 characters of the trimmed story, or the idea.
pub open spec fn sb_anchor(story: Option<Seq<char>>, idea: Seq<char>) -> Seq<char> {
    match story {
        Some(s) => crate::paths::take_chars(trim(s), 80),
        None => idea,
    }
}

/// The roster section of the storyboard prompt.
pub open spec fn storyboard_roster(entries: Seq<Seq<char>>) -> Seq<char> {
    if entries.len() == 0 {
        seq![]
    } else {
        "\n【角色表】（分镜 characters 字段只能从下列角色名中选取）：\n"@ + join(entries, "\n"@) + "\n"@
    }
}

/// The storyboard prompt (story-driven, with the casting reference fields).
pub open spec fn storyboard_prompt(story: Option<Seq<char>>, idea: Seq<char>, ratio: Seq<char>, style: Option<Seq<char>>, entries: Seq<Seq<char>>) -> Seq<char> {
    "请为下面的影片"@ + sb_label(story) + "生成分镜脚本。\n【"@ + sb_label(story) + "】"@ + sb_content(story, idea) + "\n【画幅】"@ + ratio + "\n【风格提示】"@ + style_of(style) + "\n要求：\n1. 从"@ + sb_label(story) + "逐幕分析，输出 5 到 12 个镜头，按叙事顺序（幕结构优先对齐：一幕可拆多个镜头，不要跳幕）。\n2. 必须严格围绕【"@ + sb_label(story) + "】的故事创作分镜：禁止更换题材、禁止另编与【"@ + sb_label(story) + "】无关的故事；每个镜头的画面都必须直接服务于该创意的叙事。\n3. 只输出一个 JSON 数组，不要任何解释文字或 markdown 代码块标记。每个元素形如：\n{\"shot\":1,\"desc\":\"画面描述\",\"image_prompt\":\"关键帧生图提示词（含风格与 "@ + ratio + " 构图信息）\",\"video_prompt\":\"图生视频运动与镜头语言提示词\",\"line\":\"角色台词，无台词则为空字符串\",\"duration_secs\":5,\"characters\":[\"出场人物名\"],\"props\":[\"武器或重要道具名\"],\"pets\":[\"宠物名\"],\"scenes\":[\"场景名\"],\"actions\":[\"高频动作名\"]}\n4. duration_secs 取 2-10 的整数。\n5. casting 引用字段（characters/props/pets/scenes/actions）按名字引用"@ + sb_label(story) + "中反复出现的人物、武器、宠物、场景与动作——这些名字将在定妆阶段建定妆对象；"@ + sb_label(story) + "中没有的类别输出空数组，不要编造"@ + sb_label(story) + "里不存在的对象。\n"@ + storyboard_roster(entries) + "最后再强调一次：所有镜头必须讲【"@ + sb_label(story) + "】本身的故事——【"@ + sb_label(story) + "】是："@ + sb_anchor(story, idea)
}

fn first_chars_trimmed(s: &str, n: usize) -> (r: String)
    ensures
        r@ == crate::paths::take_chars(trim(s@), n as nat),
{
    let v = chars_of(s);
    let (a, b) = crate::text::strip_range(&v, 0, v.len(), &crate::text::CharSet::Space);
    assert(v@.subrange(0, v@.len() as int) =~= v@);
    let e = if b - a > n {
        a + n
    } else {
        b
    };
    assert(crate::paths::take_chars(v@.subrange(a as int, b as int), n as nat) =~= v@.subrange(a as int, e as int));
    crate::text::string_of_range(&v, a, e)
}

/// Storyboard user prompt: reads the story act by act (falls back to the
/// idea), asks for the casting reference fields, roster section when given.
pub fn build_storyboard_prompt(story: Option<&str>, idea: &str, ratio: &str, style_hint: Option<&str>, roster_entries: &[String]) -> (r: String)
    ensures
        r@ == storyboard_prompt(crate::media::opt_str_view(story), idea@, ratio@, crate::media::opt_str_view(style_hint), strs(roster_entries@)),
{
    let style = style_text(style_hint);
    let label: &str;
    let content: String;
    let anchor: String;
    match story {
        Some(s) => {
            label = "剧情";
            content = truncate_chars(s, 60000);
            anchor = first_chars_trimmed(s, 80);
        },
        None => {
            label = "创意";
            content = String::from_str(idea);
            anchor = String::from_str(idea);
        },
    }
    let mut roster = String::new();
    if roster_entries.len() > 0 {
        let mut v: Vec<String> = Vec::new();
        let mut i: usize = 0;
        while i < roster_entries.len()
            invariant
                i <= roster_entries@.len(),
                strs(v@) == strs(roster_entries@).take(i as int),
            decreases roster_entries.len() - i,
        {
            crate::text::push_str(&mut v, roster_entries[i].as_str());
            assert(strs(roster_entries@).take(i + 1) =~= strs(roster_entries@).take(i as int).push(
                roster_entries@[i as int]@,
            ));
            i = i + 1;
        }
        assert(strs(roster_entries@).take(roster_entries@.len() as int) =~= strs(roster_entries@));
        let list = crate::text::join_strings(&v, "\n");
        let r = &mut roster;
        r.append("\n【角色表】（分镜 characters 字段只能从下列角色名中选取）：\n");
        r.append(list.as_str());
        r.append("\n");
    }
    let mut r = String::new();
    r.append("请为下面的影片");
    r.append(label);
    r.append("生成分镜脚本。\n【");
    r.append(label);
    r.append("】");
    r.append(content.as_str());
    r.append("\n【画幅】");
    r.append(ratio);
    r.append("\n【风格提示】");
    r.append(style.as_str());
    r.append("\n要求：\n1. 从");
    r.append(label);
    r.append("逐幕分析，输出 5 到 12 个镜头，按叙事顺序（幕结构优先对齐：一幕可拆多个镜头，不要跳幕）。\n2. 必须严格围绕【");
    r.append(label);
    r.append("】的故事创作分镜：禁止更换题材、禁止另编与【");
    r.append(label);
    r.append("】无关的故事；每个镜头的画面都必须直接服务于该创意的叙事。\n3. 只输出一个 JSON 数组，不要任何解释文字或 markdown 代码块标记。每个元素形如：\n{\"shot\":1,\"desc\":\"画面描述\",\"image_prompt\":\"关键帧生图提示词（含风格与 ");
    r.append(ratio);
    r.append(" 构图信息）\",\"video_prompt\":\"图生视频运动与镜头语言提示词\",\"line\":\"角色台词，无台词则为空字符串\",\"duration_secs\":5,\"characters\":[\"出场人物名\"],\"props\":[\"武器或重要道具名\"],\"pets\":[\"宠物名\"],\"scenes\":[\"场景名\"],\"actions\":[\"高频动作名\"]}\n4. duration_secs 取 2-10 的整数。\n5. casting 引用字段（characters/props/pets/scenes/actions）按名字引用");
    r.append(label);
    r.append("中反复出现的人物、武器、宠物、场景与动作——这些名字将在定妆阶段建定妆对象；");
    r.append(label);
    r.append("中没有的类别输出空数组，不要编造");
    r.append(label);
    r.append("里不存在的对象。\n");
    r.append(roster.as_str());
    r.append("最后再强调一次：所有镜头必须讲【");
    r.append(label);
    r.append("】本身的故事——【");
    r.append(label);
    r.append("】是：");
    r.append(anchor.as_str());
    r
}

/// Storyboard system prompt.
pub fn storyboard_system_prompt() -> (r: &'static str)
    ensures
        r@ == "你是专业的短片分镜师。必须严格围绕用户给出的【剧情】创作，禁止更换题材、禁止另编与【剧情】无关的故事。只输出 JSON，不要任何解释文字。"@,
{
    "你是专业的短片分镜师。必须严格围绕用户给出的【剧情】创作，禁止更换题材、禁止另编与【剧情】无关的故事。只输出 JSON，不要任何解释文字。"
}

/// The storyboard retry prompt.
pub open spec fn storyboard_retry_prompt(story: Option<Seq<char>>, idea: Seq<char>) -> Seq<char> {
    "你上一次的输出无法解析为 JSON 数组。请重新输出分镜 JSON 数组本体：只输出一个 JSON 数组（以 [ 开头、以 ] 结尾），元素字段为 shot/desc/image_prompt/video_prompt/line/duration_secs 与 casting 引用字段 characters/props/pets/scenes/actions（按名引用"@ + sb_label(story) + "中反复出现的对象，没有的类别空数组），不要 markdown 标记、不要任何解释文字。必须严格围绕【"@ + sb_label(story) + "】的故事创作分镜：禁止更换题材、禁止另编与【"@ + sb_label(story) + "】无关的故事；每个镜头的画面都必须直接服务于该创意的叙事。【"@ + sb_label(story) + "】是："@ + sb_anchor(story, idea)
}

/// Storyboard retry prompt after an unparsable answer (casting fields kept).
pub fn build_storyboard_retry_prompt(story: Option<&str>, idea: &str) -> (r: String)
    ensures
        r@ == storyboard_retry_prompt(crate::media::opt_str_view(story), idea@),
{
    let label: &str;
    let anchor: String;
    match story {
        Some(s) => {
            label = "剧情";
            anchor = first_chars_trimmed(s, 80);
        },
        None => {
            label = "创意";
            anchor = String::from_str(idea);
        },
    }
    let mut r = String::new();
    r.append("你上一次的输出无法解析为 JSON 数组。请重新输出分镜 JSON 数组本体：只输出一个 JSON 数组（以 [ 开头、以 ] 结尾），元素字段为 shot/desc/image_prompt/video_prompt/line/duration_secs 与 casting 引用字段 characters/props/pets/scenes/actions（按名引用");
    r.append(label);
    r.append("中反复出现的对象，没有的类别空数组），不要 markdown 标记、不要任何解释文字。必须严格围绕【");
    r.append(label);
    r.append("】的故事创作分镜：禁止更换题材、禁止另编与【");
    r.append(label);
    r.append("】无关的故事；每个镜头的画面都必须直接服务于该创意的叙事。【");
    r.append(label);
    r.append("】是：");
    r.append(anchor.as_str());
    r
}

/// The casting extraction prompt over the story and the storyboard (the
/// storyboard given as its compact JSON text).
pub open spec fn extract_prompt(story: Seq<char>, shots_json: Seq<char>) -> Seq<char> {
    "请从下面的影片剧情与分镜中提取「定妆对象」清单（六类）。\n【剧情】"@ + truncated(story, 40000) + "\n【分镜】"@ + truncated(shots_json, 40000) + "\n六类定义（key 固定）：\n- characters：出场人物（主角与重要配角，按名字）\n- weapons：人物使用的武器 / 关键道具（按名字）\n- pets：出场的宠物 / 动物（按名字）\n- formations：多人同框的站位排列（如「三人前二后一」，按排列名）\n- actions：跨镜头重复出现的高频动作（如「拔剑」「雨中奔跑」）\n- scenes：跨镜头重复出现的高频场景（按场景名，如「灯塔顶」）\n要求：\n1. 只输出一个 JSON 对象（以 { 开头、以 } 结尾），不要 markdown 代码块标记或解释文字，形如：\n{\"characters\":[{\"name\":\"名字\",\"desc\":\"外形与设定描述（供定妆图与一致性注入用）\",\"frequency\":3,\"reason\":\"为何需要定妆\"}],\"weapons\":[…],\"pets\":[…],\"formations\":[…],\"actions\":[…],\"scenes\":[…]}\n2. frequency 必须是整数 = 该对象出场的镜头数（对照【分镜】逐镜头统计；仅在剧情出现而分镜未覆盖的按 0）。\n3. 每类按 frequency 降序；剧情中不存在的类别给空数组；名字须与剧情/分镜中使用的名字一致。"@
}

/// Casting extraction user prompt: six object classes, the frequency rule,
/// one strict JSON object; story and storyboard JSON each cut to 40000
/// characters.
pub fn build_extract_prompt(story: &str, shots_json: &str) -> (r: String)
    ensures
        r@ == extract_prompt(story@, shots_json@),
{
    let st = truncate_chars(story, 40000);
    let sh = truncate_chars(shots_json, 40000);
    let mut r = String::new();
    r.append("请从下面的影片剧情与分镜中提取「定妆对象」清单（六类）。\n【剧情】");
    r.append(st.as_str());
    r.append("\n【分镜】");
    r.append(sh.as_str());
    r.append("\n六类定义（key 固定）：\n- characters：出场人物（主角与重要配角，按名字）\n- weapons：人物使用的武器 / 关键道具（按名字）\n- pets：出场的宠物 / 动物（按名字）\n- formations：多人同框的站位排列（如「三人前二后一」，按排列名）\n- actions：跨镜头重复出现的高频动作（如「拔剑」「雨中奔跑」）\n- scenes：跨镜头重复出现的高频场景（按场景名，如「灯塔顶」）\n要求：\n1. 只输出一个 JSON 对象（以 { 开头、以 } 结尾），不要 markdown 代码块标记或解释文字，形如：\n{\"characters\":[{\"name\":\"名字\",\"desc\":\"外形与设定描述（供定妆图与一致性注入用）\",\"frequency\":3,\"reason\":\"为何需要定妆\"}],\"weapons\":[…],\"pets\":[…],\"formations\":[…],\"actions\":[…],\"scenes\":[…]}\n2. frequency 必须是整数 = 该对象出场的镜头数（对照【分镜】逐镜头统计；仅在剧情出现而分镜未覆盖的按 0）。\n3. 每类按 frequency 降序；剧情中不存在的类别给空数组；名字须与剧情/分镜中使用的名字一致。");
    r
}

/// Casting extraction system prompt.
pub fn extract_system_prompt() -> (r: &'static str)
    ensures
        r@ == "你是专业的影片定妆统筹。只输出 JSON 对象，不要任何解释文字。"@,
{
    "你是专业的影片定妆统筹。只输出 JSON 对象，不要任何解释文字。"
}

} // verus!
