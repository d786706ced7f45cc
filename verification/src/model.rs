//! The records the pipeline works on: projects, stage model references,
//! script shots, characters and stage tasks, with the checks on them.
use vstd::prelude::*;
use crate::text::{blank, is_blank, str_eq, strs};

verus! {

/// One row of the project table.
#[derive(Debug, Clone)]
pub struct FilmProject {
    pub id: String,
    pub title: String,
    pub idea: String,
    /// One of the six aspect-ratio presets (`16:9`, `9:16`, `2.39:1`, `1.85:1`, `1:1`, `4:3`).
    pub ratio: String,
    pub style_hint: Option<String>,
    /// `draft` / `scripted` / `producing` / `done`.
    pub status: String,
    /// Artifact directory (absolute path).
    pub dir: String,
    /// Export directory; `None` or blank means the project directory itself.
    pub export_dir: Option<String>,
    pub created_at: String,
    pub updated_at: String,
}

/// Where a stage gets its model from.
#[derive(Debug, Clone)]
pub struct ModelRef {
    /// `local` / `channel`.
    pub source: String,
    /// Required when `source` is `channel`.
    pub channel_id: Option<String>,
    /// `chat` / `image` / `video` / `tts` / `music`.
    pub capability: String,
    /// Upstream model name.
    pub model: Option<String>,
}

/// One storyboard shot (the normalized form of `script.json`).
#[derive(Debug, Clone, PartialEq)]
pub struct ScriptShot {
    /// Shot number, from 1.
    pub shot: u32,
    pub desc: String,
    pub image_prompt: String,
    pub video_prompt: String,
    /// Spoken line; empty when the shot has none.
    pub line: String,
    /// Duration in seconds, 1..=60.
    pub duration_secs: u32,
    pub characters: Vec<String>,
    pub props: Vec<String>,
    pub pets: Vec<String>,
    pub scenes: Vec<String>,
    pub actions: Vec<String>,
}

/// The value of a shot: its number, texts, duration and references.
pub struct ShotModel {
    pub shot: u32,
    pub desc: Seq<char>,
    pub image_prompt: Seq<char>,
    pub video_prompt: Seq<char>,
    pub line: Seq<char>,
    pub duration_secs: u32,
    pub characters: Seq<Seq<char>>,
    pub props: Seq<Seq<char>>,
    pub pets: Seq<Seq<char>>,
    pub scenes: Seq<Seq<char>>,
    pub actions: Seq<Seq<char>>,
}

impl View for ScriptShot {
    type V = ShotModel;

    open spec fn view(&self) -> ShotModel {
        ShotModel {
            shot: self.shot,
            desc: self.desc@,
            image_prompt: self.image_prompt@,
            video_prompt: self.video_prompt@,
            line: self.line@,
            duration_secs: self.duration_secs,
            characters: strs(self.characters@),
            props: strs(self.props@),
            pets: strs(self.pets@),
            scenes: strs(self.scenes@),
            actions: strs(self.actions@),
        }
    }
}

/// The values of a list of shots.
pub open spec fn shot_views(v: Seq<ScriptShot>) -> Seq<ShotModel> {
    v.map_values(|s: ScriptShot| s@)
}

/// One row of the character table.
#[derive(Debug, Clone)]
pub struct FilmCharacter {
    pub id: String,
    pub project_id: String,
    pub name: String,
    pub description: String,
    pub voice: Option<String>,
    pub portrait_ref: Option<String>,
    pub created_at: String,
    pub updated_at: String,
}

/// A background stage task (queued -> running -> done | error).
#[derive(Debug, Clone)]
pub struct FilmTask {
    pub id: String,
    pub project_id: String,
    pub stage: String,
    pub status: String,
    /// Ring log, at most [`TASK_LOG_MAX_LINES`] lines.
    pub log: Vec<String>,
    pub output: Option<String>,
    pub error: Option<String>,
    pub created_at: i64,
    pub finished_at: Option<i64>,
}

/// Ring-log capacity of a task.
pub const TASK_LOG_MAX_LINES: usize = 200;

/// View of an optional string.
pub open spec fn opt_view(o: Option<String>) -> Option<Seq<char>> {
    match o {
        Some(s) => Some(s@),
        None => None,
    }
}

/// An optional string that is present and not blank.
pub open spec fn present(o: Option<String>) -> bool {
    match o {
        Some(s) => !is_blank(s@),
        None => false,
    }
}

/// Whether an optional string is present and not blank.
pub fn is_present(o: &Option<String>) -> (b: bool)
    ensures
        b == present(*o),
{
    match o {
        Some(s) => !blank(s.as_str()),
        None => false,
    }
}

// ---------------------------------------------------------------------------
// Model references
// ---------------------------------------------------------------------------

/// What `validate_model_ref` answers for a reference and a stage capability.
pub open spec fn model_ref_verdict(mr: ModelRef, stage: Seq<char>) -> Result<(), Seq<char>> {
    if mr.capability@ != stage {
        Err("model_ref.capability 应为 "@ + stage + "（当前 "@ + mr.capability@ + "）"@)
    } else if mr.source@ == "local"@ {
        if mr.capability@ == "chat"@ || mr.capability@ == "image"@ {
            Ok(())
        } else {
            Err("本地暂无 "@ + mr.capability@
                + " 能力（本地支持 chat/image），请改用 source=channel 经网关渠道调用"@)
        }
    } else if mr.source@ == "channel"@ {
        if present(mr.channel_id) {
            Ok(())
        } else {
            Err("source=channel 必须提供 channel_id"@)
        }
    } else {
        Err("model_ref.source 必须是 local 或 channel（当前 "@ + mr.source@ + "）"@)
    }
}

/// Checks a stage model reference: capability matches the stage, `local`
/// offers only chat and image, `channel` needs a channel id.
pub fn validate_model_ref(mr: &ModelRef, stage_capability: &str) -> (r: Result<(), String>)
    ensures
        match (r, model_ref_verdict(*mr, stage_capability@)) {
            (Ok(()), Ok(())) => true,
            (Err(m), Err(e)) => m@ == e,
            _ => false,
        },
{
    if !str_eq(mr.capability.as_str(), stage_capability) {
        let mut m = String::new();
        m.append("model_ref.capability 应为 ");
        m.append(stage_capability);
        m.append("（当前 ");
        m.append(mr.capability.as_str());
        m.append("）");
        return Err(m);
    }
    if str_eq(mr.source.as_str(), "local") {
        if str_eq(mr.capability.as_str(), "chat") || str_eq(mr.capability.as_str(), "image") {
            Ok(())
        } else {
            let mut m = String::new();
            m.append("本地暂无 ");
            m.append(mr.capability.as_str());
            m.append(" 能力（本地支持 chat/image），请改用 source=channel 经网关渠道调用");
            Err(m)
        }
    } else if str_eq(mr.source.as_str(), "channel") {
        if is_present(&mr.channel_id) {
            Ok(())
        } else {
            Err(String::from_str("source=channel 必须提供 channel_id"))
        }
    } else {
        let mut m = String::new();
        m.append("model_ref.source 必须是 local 或 channel（当前 ");
        m.append(mr.source.as_str());
        m.append("）");
        Err(m)
    }
}

impl ModelRef {
    /// Human-readable label of the reference (task logs and errors).
    pub open spec fn label_text(self) -> Seq<char> {
        match (self.channel_id, self.model) {
            (Some(cid), Some(m)) => "channel "@ + cid@ + " · "@ + m@,
            (Some(cid), None) => "channel "@ + cid@,
            (None, Some(m)) => "local · "@ + m@,
            (None, None) => "local"@,
        }
    }

    /// Human-readable label: `channel <id> · <model>`, `channel <id>`,
    /// `local · <model>` or `local`.
    pub fn label(&self) -> (r: String)
        ensures
            r@ == self.label_text(),
    {
        let mut r = String::new();
        match (&self.channel_id, &self.model) {
            (Some(cid), Some(m)) => {
                r.append("channel ");
                r.append(cid.as_str());
                r.append(" · ");
                r.append(m.as_str());
            },
            (Some(cid), None) => {
                r.append("channel ");
                r.append(cid.as_str());
            },
            (None, Some(m)) => {
                r.append("local · ");
                r.append(m.as_str());
            },
            (None, None) => {
                r.append("local");
            },
        }
        r
    }
}

} // verus!
