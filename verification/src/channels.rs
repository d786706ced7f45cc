//! Which gateway channel and model a stage uses, and which local chat
//! instance answers when the model runs on the node.
use vstd::prelude::*;
use crate::model::ModelRef;
use crate::text::{blank, chars_eq, chars_of, is_blank, str_eq, trim, trimmed};

verus! {

/// What the stages read of a gateway channel.
#[derive(Debug, Clone)]
pub struct ChannelInfo {
    pub id: String,
    pub name: String,
    pub enabled: bool,
    /// The channel's models, the default first.
    pub models: Vec<String>,
}

/// The index of the first channel with id `cid`.
pub open spec fn channel_index(chs: Seq<ChannelInfo>, cid: Seq<char>) -> Option<int>
    decreases chs.len(),
{
    if chs.len() == 0 {
        None
    } else if chs[0].id@ == cid {
        Some(0)
    } else {
        match channel_index(chs.drop_first(), cid) {
            Some(i) => Some(i + 1),
            None => None,
        }
    }
}

/// The channel id a model reference names, trimmed (empty when none).
pub open spec fn named_channel(mr: ModelRef) -> Seq<char> {
    match mr.channel_id {
        Some(c) => trim(c@),
        None => Seq::<char>::empty(),
    }
}

/// The channel and model a stage uses: the channel the reference names
/// must be known to the gateway (which must be wired) and enabled; the
/// model is the one asked for (trimmed, when not blank), else the
/// channel's first. Errors are the messages the stage fails with.
pub open spec fn channel_choice(chs: Option<Seq<ChannelInfo>>, mr: ModelRef) -> Result<(int, Seq<char>), Seq<char>> {
    match chs {
        None => Err("网关渠道未接入（film 未注入 api_gateway 共享实例，请经 main.rs 装配）"@),
        Some(cs) => {
            let cid = named_channel(mr);
            match channel_index(cs, cid) {
                None => Err("渠道不存在: "@ + cid + "（先在 API 网关添加渠道）"@),
                Some(i) => if !cs[i].enabled {
                    Err("渠道已禁用: "@ + cs[i].name@ + "（"@ + cid + "）"@)
                } else {
                    match mr.model {
                        Some(m) if !is_blank(m@) => Ok((i, trim(m@))),
                        _ => if cs[i].models@.len() > 0 {
                            Ok((i, cs[i].models@[0]@))
                        } else {
                            Err("渠道 "@ + cid + " 的 models 为空且请求未指定 model_ref.model"@)
                        },
                    }
                },
            }
        },
    }
}

proof fn lemma_channel_index(chs: Seq<ChannelInfo>, cid: Seq<char>)
    ensures
        channel_index(chs, cid) matches Some(i) ==> 0 <= i < chs.len() && chs[i].id@ == cid,
    decreases chs.len(),
{
    if chs.len() > 0 && chs[0].id@ != cid {
        lemma_channel_index(chs.drop_first(), cid);
    }
}

fn find_channel(chs: &Vec<ChannelInfo>, cid: &Vec<char>) -> (r: Option<usize>)
    ensures
        match r {
            Some(i) => channel_index(chs@, cid@) == Some(i as int),
            None => channel_index(chs@, cid@) is None,
        },
{
    let mut i: usize = 0;
    assert(chs@.skip(0) =~= chs@);
    while i < chs.len()
        invariant
            i <= chs@.len(),
            channel_index(chs@, cid@) == match channel_index(chs@.skip(i as int), cid@) {
                Some(k) => Some(k + i),
                None => None::<int>,
            },
        decreases chs.len() - i,
    {
        assert(chs@.skip(i as int).drop_first() =~= chs@.skip(i + 1));
        assert(chs@.skip(i as int)[0] == chs@[i as int]);
        let c = chars_of(chs[i].id.as_str());
        if chars_eq(&c, cid) {
            return Some(i);
        }
        i = i + 1;
    }
    assert(chs@.skip(i as int) =~= Seq::<ChannelInfo>::empty());
    None
}

/// The channel and model a stage uses (see [`channel_choice`]): the index
/// of the channel among `channels` (`None` when no gateway is wired).
pub fn resolve_channel(channels: Option<&Vec<ChannelInfo>>, mr: &ModelRef) -> (r: Result<(usize, String), String>)
    ensures
        match r {
            Ok((i, m)) => channel_choice(
                match channels {
                    Some(c) => Some(c@),
                    None => None,
                },
                *mr,
            ) == Ok::<(int, Seq<char>), Seq<char>>((i as int, m@)),
            Err(e) => channel_choice(
                match channels {
                    Some(c) => Some(c@),
                    None => None,
                },
                *mr,
            ) == Err::<(int, Seq<char>), Seq<char>>(e@),
        },
{
    let chs = match channels {
        Some(c) => c,
        None => return Err(String::from_str("网关渠道未接入（film 未注入 api_gateway 共享实例，请经 main.rs 装配）")),
    };
    let cid = match &mr.channel_id {
        Some(c) => trimmed(c.as_str()),
        None => String::new(),
    };
    let cv = chars_of(cid.as_str());
    match find_channel(chs, &cv) {
        None => {
            let mut m = String::new();
            m.append("渠道不存在: ");
            m.append(cid.as_str());
            m.append("（先在 API 网关添加渠道）");
            Err(m)
        },
        Some(i) => {
            proof {
                lemma_channel_index(chs@, cv@);
            }
            if !chs[i].enabled {
                let mut m = String::new();
                m.append("渠道已禁用: ");
                m.append(chs[i].name.as_str());
                m.append("（");
                m.append(cid.as_str());
                m.append("）");
                return Err(m);
            }
            if let Some(m) = &mr.model {
                if !blank(m.as_str()) {
                    return Ok((i, trimmed(m.as_str())));
                }
            }
            if chs[i].models.len() > 0 {
                Ok((i, chs[i].models[0].clone()))
            } else {
                let mut m = String::new();
                m.append("渠道 ");
                m.append(cid.as_str());
                m.append(" 的 models 为空且请求未指定 model_ref.model");
                Err(m)
            }
        },
    }
}

/// What the stages read of a local LLM instance.
#[derive(Debug, Clone)]
pub struct LlmInstance {
    pub status: String,
    pub port: u16,
    pub model: String,
    pub served_model_name: Option<String>,
}

/// The index of the first running instance.
pub open spec fn first_running(insts: Seq<LlmInstance>) -> Option<int>
    decreases insts.len(),
{
    if insts.len() == 0 {
        None
    } else if insts[0].status@ == "running"@ {
        Some(0)
    } else {
        match first_running(insts.drop_first()) {
            Some(i) => Some(i + 1),
            None => None,
        }
    }
}

/// The endpoint that answers local chat: the one configured when there is
/// one; else the first running instance (the instance table must be wired),
/// by its port and served model name (its model when it has none).
pub open spec fn local_chat_choice(configured: Option<(u16, String)>, insts: Option<Seq<LlmInstance>>) -> Result<
    (u16, Seq<char>),
    Seq<char>,
> {
    match configured {
        Some((p, m)) => Ok((p, m@)),
        None => match insts {
            None => Err("本地 LLM 实例面未接入（film 未注入 llm 共享实例）"@),
            Some(is) => match first_running(is) {
                None => Err("无运行中的本地 LLM 实例（先在模型管理启动实例，或改用 source=channel）"@),
                Some(i) => Ok((
                    is[i].port,
                    match is[i].served_model_name {
                        Some(n) => n@,
                        None => is[i].model@,
                    },
                )),
            },
        },
    }
}

proof fn lemma_first_running(insts: Seq<LlmInstance>)
    ensures
        first_running(insts) matches Some(i) ==> 0 <= i < insts.len(),
    decreases insts.len(),
{
    if insts.len() > 0 {
        lemma_first_running(insts.drop_first());
    }
}

/// The endpoint that answers local chat (see [`local_chat_choice`]).
pub fn resolve_local_chat(configured: &Option<(u16, String)>, instances: Option<&Vec<LlmInstance>>) -> (r: Result<
    (u16, String),
    String,
>)
    ensures
        match r {
            Ok((p, m)) => local_chat_choice(
                *configured,
                match instances {
                    Some(v) => Some(v@),
                    None => None,
                },
            ) == Ok::<(u16, Seq<char>), Seq<char>>((p, m@)),
            Err(e) => local_chat_choice(
                *configured,
                match instances {
                    Some(v) => Some(v@),
                    None => None,
                },
            ) == Err::<(u16, Seq<char>), Seq<char>>(e@),
        },
{
    if let Some((p, m)) = configured {
        return Ok((*p, m.clone()));
    }
    let is = match instances {
        Some(v) => v,
        None => return Err(String::from_str("本地 LLM 实例面未接入（film 未注入 llm 共享实例）")),
    };
    proof {
        reveal_strlit("running");
    }
    let mut i: usize = 0;
    assert(is@.skip(0) =~= is@);
    while i < is.len()
        invariant
            i <= is@.len(),
            configured is None,
            instances == Some(is),
            first_running(is@) == match first_running(is@.skip(i as int)) {
                Some(k) => Some(k + i),
                None => None::<int>,
            },
        decreases is.len() - i,
    {
        assert(is@.skip(i as int).drop_first() =~= is@.skip(i + 1));
        assert(is@.skip(i as int)[0] == is@[i as int]);
        if str_eq(is[i].status.as_str(), "running") {
            let m = match &is[i].served_model_name {
                Some(n) => n.clone(),
                None => is[i].model.clone(),
            };
            return Ok((is[i].port, m));
        }
        i = i + 1;
    }
    assert(is@.skip(i as int) =~= Seq::<LlmInstance>::empty());
    Err(String::from_str("无运行中的本地 LLM 实例（先在模型管理启动实例，或改用 source=channel）"))
}

/// The default model of the channel `cid`: its first model, when the
/// gateway is wired, knows the channel and the channel has models.
pub open spec fn default_model_of(chs: Option<Seq<ChannelInfo>>, cid: Seq<char>) -> Option<Seq<char>> {
    match chs {
        Some(cs) => match channel_index(cs, cid) {
            Some(i) => if cs[i].models@.len() > 0 {
                Some(cs[i].models@[0]@)
            } else {
                None
            },
            None => None,
        },
        None => None,
    }
}

/// The default model of the channel `cid` (see [`default_model_of`]).
pub fn channel_default_model(channels: Option<&Vec<ChannelInfo>>, cid: &str) -> (r: Option<String>)
    ensures
        match r {
            Some(m) => default_model_of(
                match channels {
                    Some(c) => Some(c@),
                    None => None,
                },
                cid@,
            ) == Some(m@),
            None => default_model_of(
                match channels {
                    Some(c) => Some(c@),
                    None => None,
                },
                cid@,
            ) is None,
        },
{
    let chs = match channels {
        Some(c) => c,
        None => return None,
    };
    let cv = chars_of(cid);
    match find_channel(chs, &cv) {
        Some(i) => {
            proof {
                lemma_channel_index(chs@, cv@);
            }
            if chs[i].models.len() > 0 {
                Some(chs[i].models[0].clone())
            } else {
                None
            }
        },
        None => None,
    }
}

} // verus!
