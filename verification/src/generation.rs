//! The decisions around a model call of the generation stages (shot key
//! frame, shot video, shot voice line, project music): which way a model
//! reference's source is served, and how the task ends with what the call
//! and the write of its result gave.
use vstd::prelude::*;
use crate::text::{dec, push_dec, str_eq};

verus! {

/// A generation stage.
#[derive(Debug, Clone, Copy, PartialEq, Eq, Structural)]
pub enum GenKind {
    /// A shot's key frame.
    Image,
    /// A shot's video.
    Video,
    /// A shot's spoken line.
    Tts,
    /// The project's background music.
    Music,
}

/// How a model reference is served.
#[derive(Debug, Clone)]
pub enum SourceRoute {
    /// By the local engine.
    Local,
    /// By a gateway channel.
    Channel,
    /// Not at all: the task ends with this error.
    Refused(String),
}

/// Why the local engine cannot serve a stage; `None` when it can.
pub open spec fn local_refusal(kind: GenKind) -> Option<Seq<char>> {
    match kind {
        GenKind::Image => None,
        GenKind::Video => Some("本地视频生成能力未接入（请用 source=channel）"@),
        GenKind::Tts => Some("本地 TTS 能力未接入（请用 source=channel）"@),
        GenKind::Music => Some("本地音乐生成能力未接入（请用 source=channel）"@),
    }
}

/// The route of a model reference with `source`: `local` goes to the local
/// engine where it serves the stage (refused with its reason otherwise),
/// `channel` to the gateway, anything else is refused as unknown.
pub fn route_source(kind: GenKind, source: &str) -> (r: SourceRoute)
    ensures
        source@ == "local"@ ==> match local_refusal(kind) {
            None => r is Local,
            Some(m) => r matches SourceRoute::Refused(x) && x@ == m,
        },
        source@ == "channel"@ ==> r is Channel,
        (source@ != "local"@ && source@ != "channel"@) ==> (r matches SourceRoute::Refused(x) && x@
            == "未知 source: "@ + source@),
{
    proof {
        reveal_strlit("local");
        reveal_strlit("channel");
        assert("local"@[0] != "channel"@[0]);
    }
    if str_eq(source, "local") {
        match kind {
            GenKind::Image => SourceRoute::Local,
            GenKind::Video => SourceRoute::Refused(String::from_str("本地视频生成能力未接入（请用 source=channel）")),
            GenKind::Tts => SourceRoute::Refused(String::from_str("本地 TTS 能力未接入（请用 source=channel）")),
            GenKind::Music => SourceRoute::Refused(String::from_str("本地音乐生成能力未接入（请用 source=channel）")),
        }
    } else if str_eq(source, "channel") {
        SourceRoute::Channel
    } else {
        let mut m = String::from_str("未知 source: ");
        m.append(source);
        SourceRoute::Refused(m)
    }
}

/// The file a stage produces: `shot-<n>.png`, `shot-<n>.mp4` and
/// `line-<n>.mp3` in the cache for the shot stages, `bgm.mp3` for music.
pub open spec fn gen_file(kind: GenKind, n: u32) -> Seq<char> {
    match kind {
        GenKind::Image => "shot-"@ + dec(n as nat) + ".png"@,
        GenKind::Video => "shot-"@ + dec(n as nat) + ".mp4"@,
        GenKind::Tts => "line-"@ + dec(n as nat) + ".mp3"@,
        GenKind::Music => "bgm.mp3"@,
    }
}

/// The activity a successful stage records: its action and target.
pub open spec fn gen_activity(kind: GenKind, n: u32) -> (Seq<char>, Seq<char>) {
    match kind {
        GenKind::Image => ("shot.image"@, "cache/"@ + gen_file(kind, n)),
        GenKind::Video => ("shot.video"@, "cache/"@ + gen_file(kind, n)),
        GenKind::Tts => ("shot.tts"@, "cache/"@ + gen_file(kind, n)),
        GenKind::Music => ("music.generate"@, "bgm.mp3"@),
    }
}

/// The closing line of a successful stage that stored its result at `out`.
pub open spec fn gen_done_line(kind: GenKind, n: u32, out: Seq<char>) -> Seq<char> {
    match kind {
        GenKind::Image => "镜头 "@ + dec(n as nat) + " 关键帧（试生成）已存 "@ + out,
        GenKind::Video => "镜头 "@ + dec(n as nat) + " 视频（试生成）已存 "@ + out,
        GenKind::Tts => "镜头 "@ + dec(n as nat) + " 配音（试生成）已存 "@ + out,
        GenKind::Music => "BGM 已存 "@ + out,
    }
}

/// The start of the error when the result could not be written.
pub open spec fn gen_write_failure(kind: GenKind) -> Seq<char> {
    match kind {
        GenKind::Image => "写关键帧失败 "@,
        GenKind::Video => "写视频失败 "@,
        GenKind::Tts => "写配音失败 "@,
        GenKind::Music => "写 BGM 失败 "@,
    }
}

/// What the call and the write gave.
pub enum GenResult {
    /// The result was stored.
    Stored,
    /// The model call failed with this error.
    CallFailed(String),
    /// The result could not be written: the I/O error.
    WriteFailed(String),
}

/// How a generation task ends.
pub struct GenFinish {
    /// `done` or `error`.
    pub status: String,
    /// The closing log line (the error when the status is `error`).
    pub line: String,
    /// The task's output.
    pub output: Option<String>,
    /// Whether the project moves to `producing`.
    pub producing: bool,
    /// The activity recorded: action and target.
    pub activity: Option<(String, String)>,
}

fn file_name_of(kind: GenKind, n: u32) -> (r: String)
    ensures
        r@ == gen_file(kind, n),
{
    let mut s = String::new();
    match kind {
        GenKind::Image => {
            s.append("shot-");
            push_dec(&mut s, n as u64);
            s.append(".png");
        },
        GenKind::Video => {
            s.append("shot-");
            push_dec(&mut s, n as u64);
            s.append(".mp4");
        },
        GenKind::Tts => {
            s.append("line-");
            push_dec(&mut s, n as u64);
            s.append(".mp3");
        },
        GenKind::Music => {
            s.append("bgm.mp3");
        },
    }
    s
}

/// How a generation task of `kind` for shot `n` (ignored for music) ends:
/// a stored result at `out` ends it `done` with the stage's closing line,
/// `out` as its output, the project `producing` and the stage's activity
/// recorded; a failed call ends it `error` with the call's error; a failed
/// write ends it `error` with `<write failure> <out>: <error>`.
pub fn gen_finish(kind: GenKind, n: u32, out: &str, result: GenResult) -> (r: GenFinish)
    ensures
        match result {
            GenResult::Stored => {
                &&& r.status@ == "done"@
                &&& r.line@ == gen_done_line(kind, n, out@)
                &&& r.output matches Some(o) && o@ == out@
                &&& r.producing
                &&& r.activity matches Some((a, t)) && (a@, t@) == gen_activity(kind, n)
            },
            GenResult::CallFailed(e) => {
                &&& r.status@ == "error"@
                &&& r.line@ == e@
                &&& r.output is None
                &&& !r.producing
                &&& r.activity is None
            },
            GenResult::WriteFailed(e) => {
                &&& r.status@ == "error"@
                &&& r.line@ == gen_write_failure(kind) + out@ + ": "@ + e@
                &&& r.output is None
                &&& !r.producing
                &&& r.activity is None
            },
        },
{
    match result {
        GenResult::Stored => {
            let mut line = String::new();
            match kind {
                GenKind::Music => {
                    line.append("BGM 已存 ");
                },
                _ => {
                    line.append("镜头 ");
                    push_dec(&mut line, n as u64);
                    match kind {
                        GenKind::Image => line.append(" 关键帧（试生成）已存 "),
                        GenKind::Video => line.append(" 视频（试生成）已存 "),
                        _ => line.append(" 配音（试生成）已存 "),
                    }
                },
            }
            line.append(out);
            let action = match kind {
                GenKind::Image => String::from_str("shot.image"),
                GenKind::Video => String::from_str("shot.video"),
                GenKind::Tts => String::from_str("shot.tts"),
                GenKind::Music => String::from_str("music.generate"),
            };
            let target = match kind {
                GenKind::Music => String::from_str("bgm.mp3"),
                _ => {
                    let mut t = String::from_str("cache/");
                    let f = file_name_of(kind, n);
                    t.append(f.as_str());
                    t
                },
            };
            GenFinish {
                status: String::from_str("done"),
                line,
                output: Some(String::from_str(out)),
                producing: true,
                activity: Some((action, target)),
            }
        },
        GenResult::CallFailed(e) => GenFinish {
            status: String::from_str("error"),
            line: e,
            output: None,
            producing: false,
            activity: None,
        },
        GenResult::WriteFailed(e) => {
            let mut line = match kind {
                GenKind::Image => String::from_str("写关键帧失败 "),
                GenKind::Video => String::from_str("写视频失败 "),
                GenKind::Tts => String::from_str("写配音失败 "),
                GenKind::Music => String::from_str("写 BGM 失败 "),
            };
            line.append(out);
            line.append(": ");
            line.append(e.as_str());
            GenFinish { status: String::from_str("error"), line, output: None, producing: false, activity: None }
        },
    }
}

/// Where a generated BGM track goes and what the task reports.
pub struct TrackPlan {
    /// `<root>/audio/bgm/<track>/track.mp3`.
    pub out_path: String,
    /// `audio/bgm/<track>/track.mp3`, the hub path registered and logged.
    pub rel: String,
    /// The README progress line.
    pub progress: String,
    /// The task's closing line.
    pub done_line: String,
}

/// The plan of a BGM track generation under hub `root`.
pub fn track_plan(root: &str, track: &str) -> (r: TrackPlan)
    ensures
        r.rel@ == "audio/bgm/"@ + track@ + "/track.mp3"@,
        r.out_path@ == root@ + "/"@ + r.rel@,
        r.progress@ == "BGM 就绪："@ + track@,
        r.done_line@ == "BGM 已存 "@ + r.out_path@,
{
    let mut rel = String::from_str("audio/bgm/");
    rel.append(track);
    rel.append("/track.mp3");
    let mut out_path = String::from_str(root);
    out_path.append("/");
    out_path.append(rel.as_str());
    let mut progress = String::from_str("BGM 就绪：");
    progress.append(track);
    let mut done_line = String::from_str("BGM 已存 ");
    done_line.append(out_path.as_str());
    TrackPlan { out_path, rel, progress, done_line }
}

/// The error when a BGM track to generate does not exist.
pub fn missing_track_message(track: &str) -> (r: String)
    ensures
        r@ == "BGM 音轨不存在: "@ + track@,
{
    let mut m = String::from_str("BGM 音轨不存在: ");
    m.append(track);
    m
}

} // verus!
