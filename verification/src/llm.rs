//! Choosing the OpenAI-compatible chat endpoint, and reading its reply.
use vstd::prelude::*;
use crate::models::{organizer_providers, providers_view, providers_views, provider_view, ProviderView};
use crate::organizer::OrganizerConfig;
use crate::text::{str_eq, owned, concat2, trim, trim_string, chars_of, string_of};

verus! {

/// The first provider with the given id.
pub open spec fn find_provider(ps: Seq<ProviderView>, id: Seq<char>) -> Option<ProviderView>
    decreases ps.len(),
{
    if ps.len() == 0 {
        None
    } else if ps[0].0 == id {
        Some(ps[0])
    } else {
        find_provider(ps.drop_first(), id)
    }
}

/// What `resolve_llm` returns, over views: the custom provider needs all three fields;
/// a built-in provider needs a configured API key, and uses the configured model when
/// one is set and non-empty, else its default model, which must not be empty.
pub open spec fn resolve_llm_spec(
    keys: Map<Seq<char>, Seq<char>>,
    models: Map<Seq<char>, Seq<char>>,
    custom: (Seq<char>, Seq<char>, Seq<char>),
    id: Seq<char>,
) -> Result<(Seq<char>, Seq<char>, Seq<char>), Seq<char>> {
    if id == "custom"@ {
        if custom.0.len() == 0 || custom.1.len() == 0 || custom.2.len() == 0 {
            Err("自定义服务商需填 Base URL / Model / API Key"@)
        } else {
            Ok(custom)
        }
    } else {
        match find_provider(providers_view(), id) {
            None => Err("未知服务商: "@ + id),
            Some(p) => {
                let key = if keys.contains_key(id) {
                    keys[id]
                } else {
                    Seq::<char>::empty()
                };
                if key.len() == 0 {
                    Err(p.1 + " 的 API Key 未配置"@)
                } else {
                    let model = if models.contains_key(id) && models[id].len() > 0 {
                        models[id]
                    } else {
                        p.3
                    };
                    if model.len() == 0 {
                        Err(p.1 + " 需填写 Model(Endpoint ID)"@)
                    } else {
                        Ok((p.2, model, key))
                    }
                }
            },
        }
    }
}

/// The view of a `(base_url, model, api_key)` result.
pub open spec fn triple_result_view(r: Result<(String, String, String), String>) -> Result<
    (Seq<char>, Seq<char>, Seq<char>),
    Seq<char>,
> {
    match r {
        Ok(t) => Ok((t.0@, t.1@, t.2@)),
        Err(e) => Err(e@),
    }
}

/// Resolves a provider id to `(base_url, model, api_key)` (see `resolve_llm_spec`).
pub fn resolve_llm(cfg: &OrganizerConfig, provider_id: &str) -> (r: Result<
    (String, String, String),
    String,
>)
    ensures
        triple_result_view(r) == resolve_llm_spec(
            cfg.keys@,
            cfg.models@,
            (cfg.custom.base_url@, cfg.custom.model@, cfg.custom.api_key@),
            provider_id@,
        ),
{
    if str_eq(provider_id, "custom") {
        let c = &cfg.custom;
        if c.base_url.as_str().is_empty() || c.model.as_str().is_empty() || c.api_key.as_str().is_empty() {
            return Err(owned("自定义服务商需填 Base URL / Model / API Key"));
        }
        return Ok((c.base_url.clone(), c.model.clone(), c.api_key.clone()));
    }
    let ps = organizer_providers();
    let ghost pv = providers_view();
    let mut i: usize = 0;
    assert(pv.skip(0) =~= pv);
    while i < ps.len()
        invariant
            i <= ps.len(),
            providers_views(ps@) == pv,
            pv == providers_view(),
            provider_id@ != "custom"@,
            find_provider(pv, provider_id@) == find_provider(pv.skip(i as int), provider_id@),
        decreases ps.len() - i,
    {
        proof {
            assert(pv.skip(i as int)[0] == provider_view(ps@[i as int]));
        }
        if str_eq(ps[i].id.as_str(), provider_id) {
            let p = &ps[i];
            assert(find_provider(pv, provider_id@) == Some(provider_view(ps@[i as int])));
            let key = match cfg.keys.get(provider_id) {
                Some(k) => k,
                None => String::new(),
            };
            if key.as_str().is_empty() {
                return Err(concat2(p.name.as_str(), " 的 API Key 未配置"));
            }
            let model = match cfg.models.get(provider_id) {
                Some(m) => if m.as_str().is_empty() {
                    p.default_model.clone()
                } else {
                    m
                },
                None => p.default_model.clone(),
            };
            if model.as_str().is_empty() {
                return Err(concat2(p.name.as_str(), " 需填写 Model(Endpoint ID)"));
            }
            return Ok((p.base_url.clone(), model, key));
        }
        proof {
            assert(pv.skip(i as int).drop_first() =~= pv.skip(i + 1));
        }
        i = i + 1;
    }
    proof {
        assert(pv.skip(i as int) =~= Seq::<ProviderView>::empty());
    }
    Err(concat2("未知服务商: ", provider_id))
}

/// `s` without trailing `/` characters (what `trim_end_matches('/')` returns).
pub open spec fn trim_slashes(s: Seq<char>) -> Seq<char>
    decreases s.len(),
{
    if s.len() > 0 && s.last() == '/' {
        trim_slashes(s.drop_last())
    } else {
        s
    }
}

fn trim_slashes_chars(v: &Vec<char>) -> (r: Vec<char>)
    ensures
        r@ == trim_slashes(v@),
{
    let mut hi = v.len();
    assert(v@.take(hi as int) =~= v@);
    while hi > 0 && v[hi - 1] == '/'
        invariant
            hi <= v.len(),
            trim_slashes(v@) == trim_slashes(v@.take(hi as int)),
        decreases hi,
    {
        assert(v@.take(hi as int).drop_last() =~= v@.take(hi - 1));
        hi = hi - 1;
    }
    assert(v@.take(hi as int) =~= v@.subrange(0, hi as int));
    crate::text::sub_chars(v, 0, hi)
}

/// `base` without trailing slashes, then `suffix`; an empty base is refused.
pub open spec fn endpoint_spec(base: Seq<char>, suffix: Seq<char>) -> Result<Seq<char>, Seq<char>> {
    if base.len() == 0 {
        Err("Base URL 为空"@)
    } else {
        Ok(trim_slashes(base) + suffix)
    }
}

/// The chat-completions URL of a provider's base URL.
pub fn chat_url(base_url: &str) -> (r: Result<String, String>)
    ensures
        match r {
            Ok(u) => endpoint_spec(base_url@, "/chat/completions"@) == Ok::<Seq<char>, Seq<char>>(u@),
            Err(e) => endpoint_spec(base_url@, "/chat/completions"@) == Err::<Seq<char>, Seq<char>>(e@),
        },
{
    endpoint(base_url, "/chat/completions")
}

fn endpoint(base_url: &str, suffix: &str) -> (r: Result<String, String>)
    ensures
        match r {
            Ok(u) => endpoint_spec(base_url@, suffix@) == Ok::<Seq<char>, Seq<char>>(u@),
            Err(e) => endpoint_spec(base_url@, suffix@) == Err::<Seq<char>, Seq<char>>(e@),
        },
{
    if base_url.is_empty() {
        return Err(owned("Base URL 为空"));
    }
    let v = chars_of(base_url);
    let t = trim_slashes_chars(&v);
    let head = string_of(t.as_slice());
    Ok(concat2(head.as_str(), suffix))
}

/// The text of a chat reply: the message content, trimmed; a missing or blank content
/// is an error.
pub fn reply_text(content: Option<String>) -> (r: Result<String, String>)
    ensures
        match content {
            None => r matches Err(e) && e@ == "LLM 响应无内容"@,
            Some(c) => if trim(c@).len() == 0 {
                r matches Err(e) && e@ == "LLM 无输出"@
            } else {
                r matches Ok(t) && t@ == trim(c@)
            },
        },
{
    match content {
        None => Err(owned("LLM 响应无内容")),
        Some(c) => {
            let t = trim_string(c.as_str());
            if t.as_str().is_empty() {
                Err(owned("LLM 无输出"))
            } else {
                Ok(t)
            }
        },
    }
}

/// The first `n` characters of `s` (all of them when it is shorter).
pub open spec fn prefix_chars(s: Seq<char>, n: int) -> Seq<char> {
    if s.len() <= n {
        s
    } else {
        s.take(n)
    }
}

/// The first `n` characters of a string.
pub fn take_chars(s: &str, n: usize) -> (r: String)
    ensures
        r@ == prefix_chars(s@, n as int),
{
    let v = chars_of(s);
    if v.len() <= n {
        string_of(v.as_slice())
    } else {
        let t = crate::text::sub_chars(&v, 0, n);
        assert(v@.subrange(0, n as int) =~= v@.take(n as int));
        string_of(t.as_slice())
    }
}

/// `<lead><status>: <first `n` characters of body>`.
pub fn http_error(lead: &str, status: u16, body: &str, n: usize) -> (r: String)
    ensures
        r@ == lead@ + crate::text::dec(status as nat) + ": "@ + prefix_chars(body@, n as int),
{
    let code = crate::text::decimal(status as u64);
    let head = take_chars(body, n);
    let mut r = owned(lead);
    r.append(code.as_str());
    r.append(": ");
    r.append(head.as_str());
    r
}

/// The error of a chat call that did not answer 200.
pub fn chat_http_error(status: u16, body: &str) -> (r: String)
    ensures
        r@ == "LLM 返回 HTTP "@ + crate::text::dec(status as nat) + ": "@ + prefix_chars(body@, 300),
{
    http_error("LLM 返回 HTTP ", status, body, 300)
}

/// The base URL and API key for listing a provider's models: the custom provider needs
/// a base URL and a key; a built-in provider needs a configured key.
pub open spec fn models_endpoint_spec(
    keys: Map<Seq<char>, Seq<char>>,
    custom: (Seq<char>, Seq<char>, Seq<char>),
    id: Seq<char>,
) -> Result<(Seq<char>, Seq<char>), Seq<char>> {
    if id == "custom"@ {
        if custom.0.len() == 0 || custom.2.len() == 0 {
            Err("自定义服务商需填 Base URL 和 API Key"@)
        } else {
            Ok((custom.0, custom.2))
        }
    } else {
        match find_provider(providers_view(), id) {
            None => Err("未知服务商: "@ + id),
            Some(p) => {
                let key = if keys.contains_key(id) {
                    keys[id]
                } else {
                    Seq::<char>::empty()
                };
                if key.len() == 0 {
                    Err(p.1 + " 的 API Key 未配置"@)
                } else {
                    Ok((p.2, key))
                }
            },
        }
    }
}

/// Where to list a provider's models, as `(base_url, api_key)` (see
/// `models_endpoint_spec`).
pub fn models_endpoint(cfg: &OrganizerConfig, provider_id: &str) -> (r: Result<(String, String), String>)
    ensures
        match r {
            Ok(t) => models_endpoint_spec(cfg.keys@, (cfg.custom.base_url@, cfg.custom.model@, cfg.custom.api_key@), provider_id@) == Ok::<(Seq<char>, Seq<char>), Seq<char>>((t.0@, t.1@)),
            Err(e) => models_endpoint_spec(cfg.keys@, (cfg.custom.base_url@, cfg.custom.model@, cfg.custom.api_key@), provider_id@) == Err::<(Seq<char>, Seq<char>), Seq<char>>(e@),
        },
{
    if str_eq(provider_id, "custom") {
        let c = &cfg.custom;
        if c.base_url.as_str().is_empty() || c.api_key.as_str().is_empty() {
            return Err(owned("自定义服务商需填 Base URL 和 API Key"));
        }
        return Ok((c.base_url.clone(), c.api_key.clone()));
    }
    let ps = organizer_providers();
    let ghost pv = providers_view();
    let mut i: usize = 0;
    assert(pv.skip(0) =~= pv);
    while i < ps.len()
        invariant
            i <= ps.len(),
            providers_views(ps@) == pv,
            pv == providers_view(),
            provider_id@ != "custom"@,
            find_provider(pv, provider_id@) == find_provider(pv.skip(i as int), provider_id@),
        decreases ps.len() - i,
    {
        proof {
            assert(pv.skip(i as int)[0] == provider_view(ps@[i as int]));
        }
        if str_eq(ps[i].id.as_str(), provider_id) {
            let p = &ps[i];
            assert(find_provider(pv, provider_id@) == Some(provider_view(ps@[i as int])));
            let key = match cfg.keys.get(provider_id) {
                Some(k) => k,
                None => String::new(),
            };
            if key.as_str().is_empty() {
                return Err(concat2(p.name.as_str(), " 的 API Key 未配置"));
            }
            return Ok((p.base_url.clone(), key));
        }
        proof {
            assert(pv.skip(i as int).drop_first() =~= pv.skip(i + 1));
        }
        i = i + 1;
    }
    proof {
        assert(pv.skip(i as int) =~= Seq::<ProviderView>::empty());
    }
    Err(concat2("未知服务商: ", provider_id))
}

/// The models URL of a base URL.
pub fn models_url(base_url: &str) -> (r: String)
    requires
        base_url@.len() > 0,
    ensures
        r@ == trim_slashes(base_url@) + "/models"@,
{
    match endpoint(base_url, "/models") {
        Ok(u) => u,
        Err(e) => e,
    }
}

/// A listed model set must not be empty.
pub fn model_list_result(ids: Vec<String>) -> (r: Result<Vec<String>, String>)
    ensures
        ids.len() == 0 ==> (r matches Err(e) && e@ == "模型列表为空"@),
        ids.len() > 0 ==> r == Ok::<Vec<String>, String>(ids),
{
    if ids.len() == 0 {
        Err(owned("模型列表为空"))
    } else {
        Ok(ids)
    }
}

proof fn lemma_find_provider_member(ps: Seq<ProviderView>, id: Seq<char>)
    ensures
        find_provider(ps, id) matches Some(p) ==> exists|i: int| 0 <= i < ps.len() && ps[i] == p && p.0 == id,
    decreases ps.len(),
{
    if ps.len() > 0 && ps[0].0 != id {
        lemma_find_provider_member(ps.drop_first(), id);
        if find_provider(ps.drop_first(), id) is Some {
            let p = find_provider(ps.drop_first(), id)->0;
            let i = choose|i: int| 0 <= i < ps.drop_first().len() && ps.drop_first()[i] == p && p.0 == id;
            assert(ps[i + 1] == p);
        }
    }
}

/// A resolved endpoint is always complete: base URL, model and API key are all
/// non-empty.
pub proof fn law_resolved_llm_complete(
    keys: Map<Seq<char>, Seq<char>>,
    models: Map<Seq<char>, Seq<char>>,
    custom: (Seq<char>, Seq<char>, Seq<char>),
    id: Seq<char>,
)
    ensures
        resolve_llm_spec(keys, models, custom, id) matches Ok(t) ==> t.0.len() > 0 && t.1.len() > 0
            && t.2.len() > 0,
{
    if id != "custom"@ {
        let ps = providers_view();
        lemma_find_provider_member(ps, id);
        if find_provider(ps, id) is Some {
            let p = find_provider(ps, id)->0;
            let i = choose|i: int| 0 <= i < ps.len() && ps[i] == p && p.0 == id;
            reveal_strlit("https://api.deepseek.com/v1");
            reveal_strlit("https://open.bigmodel.cn/api/paas/v4");
            reveal_strlit("https://api.moonshot.cn/v1");
            reveal_strlit("https://ark.cn-beijing.volces.com/api/v3");
            reveal_strlit("https://dashscope.aliyuncs.com/compatible-mode/v1");
            reveal_strlit("https://api.hunyuan.cloud.tencent.com/v1");
            if i == 6 {
                assert(p.0 == "custom"@);
            }
            assert(i < 6);
            assert(p.2.len() > 0) by {
                if i == 0 {
                    assert(p == ps[0]);
                } else if i == 1 {
                    assert(p == ps[1]);
                } else if i == 2 {
                    assert(p == ps[2]);
                } else if i == 3 {
                    assert(p == ps[3]);
                } else if i == 4 {
                    assert(p == ps[4]);
                } else {
                    assert(p == ps[5]);
                }
            }
        }
    }
}

} // verus!
