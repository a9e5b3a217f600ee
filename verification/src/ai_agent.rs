//! The decisions of the AI assistant: which tier a configuration gives,
//! which model and endpoint a generation uses, what a health check reports,
//! how query variants are read from a model's reply, and how an answer's
//! sources and prompt are put together.
use vstd::prelude::*;

use crate::common::{
    error_message, AiConfig, AiHealthStatus, AiProvider, AiTier, KnowlixError, SearchResult,
};
use crate::text::{
    chars_of, decimal, decimal_string, string_from_chars, string_of_range, trim, trim_range,
};
use crate::xmltext::{join_with, push_all};

verus! {

/// The most query variants taken from a model's reply.
pub const MAX_QUERY_VARIANTS: usize = 3;

/// The most search results handed to the model as context.
pub const MAX_ANSWER_SOURCES: usize = 8;

/// How many results each query variant asks the search for.
pub const ANSWER_SEARCH_LIMIT: usize = 10;

pub open spec fn tier_of(p: AiProvider) -> AiTier {
    match p {
        AiProvider::Disabled => AiTier::Disabled,
        AiProvider::Ollama => AiTier::Local,
        AiProvider::Api => AiTier::Api,
    }
}

/// The capability tier of a configuration: none, a local Ollama model, or a
/// remote API.
pub fn get_ai_tier(config: &AiConfig) -> (t: AiTier)
    ensures
        t == tier_of(config.provider),
{
    match config.provider {
        AiProvider::Disabled => AiTier::Disabled,
        AiProvider::Ollama => AiTier::Local,
        AiProvider::Api => AiTier::Api,
    }
}

/// The URL with every trailing `/` removed.
pub open spec fn trim_slashes(s: Seq<char>) -> Seq<char>
    decreases s.len(),
{
    if s.len() > 0 && s.last() == '/' {
        trim_slashes(s.drop_last())
    } else {
        s
    }
}

/// A base URL without its trailing slashes, so that paths can be appended.
pub fn normalize_base_url(url: &str) -> (r: String)
    ensures
        r@ == trim_slashes(url@),
{
    let v = chars_of(url);
    let mut k = v.len();
    proof {
        assert(v@.take(k as int) =~= v@);
    }
    while k > 0 && v[k - 1] == '/'
        invariant
            k <= v@.len(),
            trim_slashes(url@) == trim_slashes(v@.take(k as int)),
            v@ == url@,
        decreases k,
    {
        proof {
            assert(v@.take(k as int).drop_last() =~= v@.take(k - 1));
        }
        k = k - 1;
    }
    proof {
        assert(v@.subrange(0, k as int) =~= v@.take(k as int));
    }
    string_of_range(&v, 0, k)
}

/// A configured value that is present and not empty.
pub open spec fn filled(o: Option<String>) -> bool {
    o matches Some(s) && s@.len() > 0
}

/// Where a generation request goes: the model, the base URL, and the API key
/// when the provider is a remote API (none for Ollama).
pub struct GenerationTarget {
    pub model: String,
    pub base_url: String,
    pub api_key: Option<String>,
}

pub open spec fn ai_error(e: KnowlixError, msg: Seq<char>) -> bool {
    e matches KnowlixError::Ai(m) && m@ == msg
}

/// Whether the configuration names everything a generation needs.
pub open spec fn can_generate(c: AiConfig) -> bool {
    match c.provider {
        AiProvider::Disabled => false,
        AiProvider::Ollama => filled(c.ollama_model),
        AiProvider::Api => filled(c.api_key) && filled(c.api_model),
    }
}

/// The target that a configuration gives: for Ollama its model at its URL
/// without a key; for an API its model at the base URL without trailing
/// slashes, with its key.
pub open spec fn target_matches(t: GenerationTarget, c: AiConfig) -> bool {
    match c.provider {
        AiProvider::Ollama => t.model@ == c.ollama_model->0@ && t.base_url@ == c.ollama_url@
            && t.api_key is None,
        AiProvider::Api => t.model@ == c.api_model->0@ && t.base_url@ == trim_slashes(
            c.api_base_url@,
        ) && (t.api_key matches Some(k) && k@ == c.api_key->0@),
        AiProvider::Disabled => false,
    }
}

/// What a configuration allows a generation to use. No provider: not
/// configured. Ollama: its model, which must be set, at the Ollama URL.
/// API: the key, then the model, must be set; the base URL loses its
/// trailing slashes.
pub fn generation_target(config: &AiConfig) -> (r: Result<GenerationTarget, KnowlixError>)
    ensures
        can_generate(*config) ==> (r matches Ok(t) && target_matches(t, *config)),
        config.provider == AiProvider::Disabled ==> r matches Err(KnowlixError::AiNotConfigured),
        config.provider == AiProvider::Ollama && !filled(config.ollama_model) ==> (
        r matches Err(e) && ai_error(e, "No Ollama model configured"@)),
        config.provider == AiProvider::Api && !filled(config.api_key) ==> (r matches Err(e)
            && ai_error(e, "API key not configured"@)),
        config.provider == AiProvider::Api && filled(config.api_key) && !filled(config.api_model)
            ==> (r matches Err(e) && ai_error(e, "API model not configured"@)),
{
    match config.provider {
        AiProvider::Disabled => Err(KnowlixError::AiNotConfigured),
        AiProvider::Ollama => match &config.ollama_model {
            Some(m) if !m.as_str().is_empty() => Ok(
                GenerationTarget {
                    model: m.clone(),
                    base_url: config.ollama_url.clone(),
                    api_key: None,
                },
            ),
            _ => Err(KnowlixError::Ai(String::from_str("No Ollama model configured"))),
        },
        AiProvider::Api => {
            let key = match &config.api_key {
                Some(k) if !k.as_str().is_empty() => k.clone(),
                _ => {
                    return Err(KnowlixError::Ai(String::from_str("API key not configured")));
                },
            };
            let model = match &config.api_model {
                Some(m) if !m.as_str().is_empty() => m.clone(),
                _ => {
                    return Err(KnowlixError::Ai(String::from_str("API model not configured")));
                },
            };
            Ok(
                GenerationTarget {
                    model,
                    base_url: normalize_base_url(config.api_base_url.as_str()),
                    api_key: Some(key),
                },
            )
        },
    }
}

/// The first step of a health check: a report that needs no request, or
/// the model listing to ask for.
pub enum HealthProbe {
    Report(AiHealthStatus),
    ListOllamaModels { url: String },
    ListApiModels { url: String, key: String },
}

pub open spec fn report_matches(
    s: AiHealthStatus,
    tier: AiTier,
    model: Option<String>,
    reachable: bool,
    error: Option<Seq<char>>,
) -> bool {
    &&& s.tier == tier
    &&& s.model == model
    &&& s.reachable == reachable
    &&& match error {
        Some(m) => s.error matches Some(x) && x@ == m,
        None => s.error is None,
    }
}

/// What a health check does first. No provider: report it unreachable with
/// "No AI provider configured". Ollama: list the models at its URL. API
/// without a key: report it unreachable with "API key not configured";
/// with one: list the models at the trimmed base URL.
pub fn health_probe(config: &AiConfig) -> (p: HealthProbe)
    ensures
        config.provider == AiProvider::Disabled ==> (p matches HealthProbe::Report(s)
            && report_matches(s, AiTier::Disabled, None, false, Some("No AI provider configured"@))),
        config.provider == AiProvider::Ollama ==> (p matches HealthProbe::ListOllamaModels { url }
            && url@ == config.ollama_url@),
        config.provider == AiProvider::Api && !filled(config.api_key) ==> (
        p matches HealthProbe::Report(s) && report_matches(
            s,
            AiTier::Api,
            config.api_model,
            false,
            Some("API key not configured"@),
        )),
        config.provider == AiProvider::Api && filled(config.api_key) ==> (
        p matches HealthProbe::ListApiModels { url, key } && url@ == trim_slashes(
            config.api_base_url@,
        ) && key@ == config.api_key->0@),
{
    match config.provider {
        AiProvider::Disabled => HealthProbe::Report(
            AiHealthStatus {
                tier: AiTier::Disabled,
                model: None,
                reachable: false,
                error: Some(String::from_str("No AI provider configured")),
            },
        ),
        AiProvider::Ollama => HealthProbe::ListOllamaModels { url: config.ollama_url.clone() },
        AiProvider::Api => {
            let url = normalize_base_url(config.api_base_url.as_str());
            match &config.api_key {
                Some(k) if !k.as_str().is_empty() => HealthProbe::ListApiModels {
                    url,
                    key: k.clone(),
                },
                _ => HealthProbe::Report(
                    AiHealthStatus {
                        tier: AiTier::Api,
                        model: config.api_model.clone(),
                        reachable: false,
                        error: Some(String::from_str("API key not configured")),
                    },
                ),
            }
        },
    }
}

/// The model a configuration names for its provider.
pub open spec fn configured_model(config: AiConfig) -> Option<String> {
    match config.provider {
        AiProvider::Ollama => config.ollama_model,
        AiProvider::Api => config.api_model,
        AiProvider::Disabled => None,
    }
}

/// The health report once the model listing has answered. Listed: the
/// provider is reachable and the model is the configured one, or else the
/// first listed. Failed: unreachable, with the configured model and the
/// failure's message.
pub fn health_from_models(config: &AiConfig, listing: Result<Vec<String>, KnowlixError>) -> (s:
    AiHealthStatus)
    requires
        config.provider != AiProvider::Disabled,
    ensures
        s.tier == tier_of(config.provider),
        match listing {
            Ok(models) => s.reachable && s.error is None && match configured_model(*config) {
                Some(m) => s.model == Some(m),
                None => if models@.len() > 0 {
                    s.model == Some(models@[0])
                } else {
                    s.model is None
                },
            },
            Err(e) => !s.reachable && s.model == configured_model(*config) && (s.error matches Some(
                m,
            ) && m@ == error_message(e)),
        },
{
    let tier = get_ai_tier(config);
    let model = match config.provider {
        AiProvider::Api => config.api_model.clone(),
        _ => config.ollama_model.clone(),
    };
    match listing {
        Ok(mut models) => {
            let resolved = match model {
                Some(m) => Some(m),
                None => if models.len() > 0 {
                    Some(models.remove(0))
                } else {
                    None
                },
            };
            AiHealthStatus { tier, model: resolved, reachable: true, error: None }
        },
        Err(e) => AiHealthStatus { tier, model, reachable: false, error: Some(e.message()) },
    }
}

/// The prompt asking the model for alternative queries.
pub open spec fn spec_expansion_prompt(query: Seq<char>) -> Seq<char> {
    "Generate 3 alternative search queries for: \""@ + query
        + "\"\nReturn ONLY the queries, one per line, no numbering, no explanation."@
}

pub fn expansion_prompt(query: &str) -> (r: String)
    ensures
        r@ == spec_expansion_prompt(query@),
{
    let mut s = String::from_str("Generate 3 alternative search queries for: \"");
    s.append(query);
    s.append("\"\nReturn ONLY the queries, one per line, no numbering, no explanation.");
    s
}

/// How a query is expanded: ask the configured model with the expansion
/// prompt, or, when nothing can be generated, keep the query alone.
pub enum ExpansionPlan {
    Ask { target: GenerationTarget, prompt: String },
    Keep(Vec<String>),
}

/// The expansion of a query under a configuration. Without a usable
/// provider it degrades to the query itself.
pub fn expansion_plan(config: &AiConfig, query: &str) -> (p: ExpansionPlan)
    ensures
        can_generate(*config) ==> (p matches ExpansionPlan::Ask { target, prompt } && target_matches(
            target,
            *config,
        ) && prompt@ == spec_expansion_prompt(query@)),
        !can_generate(*config) ==> (p matches ExpansionPlan::Keep(v) && v.deep_view() == seq![
            query@,
        ]),
{
    match generation_target(config) {
        Ok(target) => ExpansionPlan::Ask { target, prompt: expansion_prompt(query) },
        Err(_) => {
            let mut v: Vec<String> = Vec::new();
            v.push(String::from_str(query));
            proof {
                assert(v.deep_view() =~= seq![query@]);
            }
            ExpansionPlan::Keep(v)
        },
    }
}

/// The query variants once the model has answered: those its reply gives
/// (see `query_variants`), or the query alone when the call failed.
pub fn variants_from_reply(reply: Result<String, KnowlixError>, query: &str) -> (r: Vec<String>)
    ensures
        match reply {
            Ok(t) => r.deep_view() == query_variants(t@, query@),
            Err(_) => r.deep_view() == seq![query@],
        },
        1 <= r.len() <= MAX_QUERY_VARIANTS,
{
    match reply {
        Ok(t) => parse_query_variants(t.as_str(), query),
        Err(_) => {
            let mut v: Vec<String> = Vec::new();
            v.push(String::from_str(query));
            proof {
                assert(v.deep_view() =~= seq![query@]);
            }
            v
        },
    }
}

/// The pieces of a text between its `\n` characters (one piece more than
/// there are newlines).
pub open spec fn split_lines(s: Seq<char>) -> Seq<Seq<char>>
    decreases s.len(),
{
    if s.len() == 0 {
        seq![Seq::<char>::empty()]
    } else {
        let r = split_lines(s.drop_last());
        if s.last() == '\n' {
            r.push(Seq::empty())
        } else {
            r.drop_last().push(r.last().push(s.last()))
        }
    }
}

/// The trimmed lines that are not blank, in order.
pub open spec fn nonblank_trimmed(lines: Seq<Seq<char>>) -> Seq<Seq<char>>
    decreases lines.len(),
{
    if lines.len() == 0 {
        Seq::empty()
    } else {
        let p = nonblank_trimmed(lines.drop_last());
        let t = trim(lines.last());
        if t.len() > 0 {
            p.push(t)
        } else {
            p
        }
    }
}

pub open spec fn take_at_most(s: Seq<Seq<char>>, n: int) -> Seq<Seq<char>> {
    if s.len() <= n {
        s
    } else {
        s.take(n)
    }
}

/// The query variants read from a model's reply: its first three non-blank
/// lines, trimmed (what `lines`, `trim`, a non-empty filter and `take(3)`
/// give, `\r` included in the trimmed whitespace), or the query itself
/// alone when there is none.
pub open spec fn query_variants(text: Seq<char>, query: Seq<char>) -> Seq<Seq<char>> {
    let v = take_at_most(nonblank_trimmed(split_lines(text)), MAX_QUERY_VARIANTS as int);
    if v.len() == 0 {
        seq![query]
    } else {
        v
    }
}

proof fn lemma_split_lines_nonempty(s: Seq<char>)
    ensures
        split_lines(s).len() >= 1,
    decreases s.len(),
{
    if s.len() > 0 {
        lemma_split_lines_nonempty(s.drop_last());
    }
}

/// Adds the trimmed `v[lo..hi]` to the variants when it is not blank and
/// fewer than three are held.
fn take_line(v: &Vec<char>, lo: usize, hi: usize, out: &mut Vec<String>, Ghost(done): Ghost<
    Seq<Seq<char>>,
>)
    requires
        lo <= hi <= v@.len(),
        old(out).deep_view() == take_at_most(nonblank_trimmed(done), MAX_QUERY_VARIANTS as int),
    ensures
        final(out).deep_view() == take_at_most(
            nonblank_trimmed(done.push(v@.subrange(lo as int, hi as int))),
            MAX_QUERY_VARIANTS as int,
        ),
{
    let ghost line = v@.subrange(lo as int, hi as int);
    let (a, b) = trim_range(v, lo, hi);
    proof {
        assert(done.push(line).drop_last() =~= done);
    }
    let ghost p = nonblank_trimmed(done);
    if b > a && out.len() < MAX_QUERY_VARIANTS {
        let s = string_of_range(v, a, b);
        let ghost before = out.deep_view();
        out.push(s);
        proof {
            assert(out.deep_view() =~= before.push(trim(line)));
            if p.len() > 3 {
                assert(p.take(3).len() == 3);
            }
            assert(p.len() <= 3);
            assert(p.push(trim(line)).len() <= 3);
        }
    } else {
        proof {
            if b > a {
                let q = p.push(trim(line));
                if p.len() <= 3 {
                    assert(p.len() == 3);
                    assert(q.take(3) =~= p);
                } else {
                    assert(q.take(3) =~= p.take(3));
                }
            }
        }
    }
}

/// The query variants in a model's reply: see `query_variants`.
pub fn parse_query_variants(text: &str, query: &str) -> (r: Vec<String>)
    ensures
        r.deep_view() == query_variants(text@, query@),
        1 <= r.len() <= MAX_QUERY_VARIANTS,
{
    let v = chars_of(text);
    let mut out: Vec<String> = Vec::new();
    let ghost mut done: Seq<Seq<char>> = Seq::empty();
    let mut start: usize = 0;
    let mut i: usize = 0;
    proof {
        assert(v@.take(0) =~= Seq::<char>::empty());
        assert(split_lines(v@.take(0)) =~= done.push(v@.subrange(0, 0)));
        assert(out.deep_view() =~= Seq::<Seq<char>>::empty());
    }
    while i < v.len()
        invariant
            v@ == text@,
            start <= i <= v@.len(),
            split_lines(v@.take(i as int)) == done.push(v@.subrange(start as int, i as int)),
            out.deep_view() == take_at_most(nonblank_trimmed(done), MAX_QUERY_VARIANTS as int),
        decreases v@.len() - i,
    {
        let ghost pre = v@.take(i as int);
        proof {
            assert(v@.take(i + 1).drop_last() =~= pre);
            assert(v@.take(i + 1).last() == v@[i as int]);
        }
        if v[i] == '\n' {
            take_line(&v, start, i, &mut out, Ghost(done));
            proof {
                done = done.push(v@.subrange(start as int, i as int));
                assert(v@.subrange(i + 1, i + 1) =~= Seq::<char>::empty());
            }
            start = i + 1;
        } else {
            proof {
                let r = split_lines(pre);
                assert(r.drop_last() =~= done);
                assert(r.last().push(v@[i as int]) =~= v@.subrange(start as int, i + 1));
            }
        }
        i = i + 1;
    }
    take_line(&v, start, v.len(), &mut out, Ghost(done));
    proof {
        assert(v@.take(i as int) =~= v@);
        done = done.push(v@.subrange(start as int, i as int));
        assert(out.deep_view() == take_at_most(nonblank_trimmed(split_lines(text@)), 3));
    }
    if out.len() == 0 {
        out.push(String::from_str(query));
        proof {
            assert(out.deep_view() =~= seq![query@]);
        }
    }
    out
}

/// The text of the first choice of a chat completion, or an error when the
/// reply has none.
pub fn first_choice_content(mut choices: Vec<String>) -> (r: Result<String, KnowlixError>)
    ensures
        choices@.len() > 0 ==> r == Ok::<String, KnowlixError>(choices@[0]),
        choices@.len() == 0 ==> (r matches Err(e) && ai_error(e, "Empty response from API"@)),
{
    if choices.len() > 0 {
        Ok(choices.remove(0))
    } else {
        Err(KnowlixError::Ai(String::from_str("Empty response from API")))
    }
}

/// The services the assistant calls.
pub enum Endpoint {
    OllamaGenerate,
    OllamaTags,
    ChatCompletions,
    Models,
}

pub open spec fn endpoint_path(e: Endpoint) -> Seq<char> {
    match e {
        Endpoint::OllamaGenerate => "/api/generate"@,
        Endpoint::OllamaTags => "/api/tags"@,
        Endpoint::ChatCompletions => "/chat/completions"@,
        Endpoint::Models => "/models"@,
    }
}

/// The URL of a service under a base URL.
pub fn endpoint_url(base: &str, e: Endpoint) -> (r: String)
    ensures
        r@ == base@ + endpoint_path(e),
{
    let mut s = String::from_str(base);
    match e {
        Endpoint::OllamaGenerate => s.append("/api/generate"),
        Endpoint::OllamaTags => s.append("/api/tags"),
        Endpoint::ChatCompletions => s.append("/chat/completions"),
        Endpoint::Models => s.append("/models"),
    }
    s
}

/// The `Authorization` header value for an API key.
pub fn bearer_header(key: &str) -> (r: String)
    ensures
        r@ == "Bearer "@ + key@,
{
    let mut s = String::from_str("Bearer ");
    s.append(key);
    s
}

pub open spec fn result_ids(s: Seq<SearchResult>) -> Seq<Seq<char>> {
    s.map_values(|r: SearchResult| r.chunk_id@)
}

/// The results of `rs`, in order, whose chunk is neither in `seen` nor
/// among the earlier results of `rs`.
pub open spec fn fresh_results(seen: Seq<Seq<char>>, rs: Seq<SearchResult>) -> Seq<SearchResult>
    decreases rs.len(),
{
    if rs.len() == 0 {
        Seq::empty()
    } else {
        let prev = fresh_results(seen, rs.drop_last());
        let id = rs.last().chunk_id@;
        if seen.contains(id) || result_ids(prev).contains(id) {
            prev
        } else {
            prev.push(rs.last())
        }
    }
}

/// No chunk occurs twice among the results.
pub open spec fn distinct_results(s: Seq<SearchResult>) -> bool {
    forall|i: int, j: int|
        0 <= i < j < s.len() ==> (#[trigger] s[i]).chunk_id@ != (#[trigger] s[j]).chunk_id@
}

/// Adds to `all` the results of one search whose chunk it does not hold
/// yet, in order; a chunk is kept the first time it is seen.
pub fn merge_unique_results(all: &mut Vec<SearchResult>, results: Vec<SearchResult>)
    ensures
        final(all)@ == old(all)@ + fresh_results(result_ids(old(all)@), results@),
        distinct_results(old(all)@) ==> distinct_results(final(all)@),
{
    let ghost start = all@;
    let ghost seen = result_ids(start);
    let ghost input = results@;
    let n = results.len();
    assert(input.len() == n);
    let mut rest = results;
    let mut taken: usize = 0;
    while rest.len() > 0
        invariant
            taken + rest@.len() == input.len(),
            input.len() <= usize::MAX,
            rest@ == input.skip(taken as int),
            all@ == start + fresh_results(seen, input.take(taken as int)),
            distinct_results(start) ==> distinct_results(all@),
            seen == result_ids(start),
        decreases rest@.len(),
    {
        let r = rest.remove(0);
        let ghost prev = fresh_results(seen, input.take(taken as int));
        proof {
            assert(input.take(taken + 1).drop_last() =~= input.take(taken as int));
            assert(input.take(taken + 1).last() == r);
            assert(rest@ =~= input.skip(taken + 1));
            assert(result_ids(all@) =~= seen + result_ids(prev));
        }
        let mut found = false;
        let mut k: usize = 0;
        while k < all.len()
            invariant
                k <= all@.len(),
                found == (exists|q: int| 0 <= q < k && (#[trigger] all@[q]).chunk_id@ == r.chunk_id@),
            decreases all@.len() - k,
        {
            if all[k].chunk_id == r.chunk_id {
                found = true;
            }
            k = k + 1;
        }
        proof {
            let id = r.chunk_id@;
            let ids = result_ids(all@);
            if found {
                let q = choose|q: int| 0 <= q < all@.len() && (#[trigger] all@[q]).chunk_id@ == id;
                assert(ids[q] == id);
                assert(ids.contains(id));
            } else {
                assert forall|q: int| 0 <= q < ids.len() implies ids[q] != id by {
                    assert(ids[q] == all@[q].chunk_id@);
                }
            }
            if seen.contains(id) {
                let q = choose|q: int| 0 <= q < seen.len() && seen[q] == id;
                assert(ids[q] == seen[q]);
            }
            if result_ids(prev).contains(id) {
                let q = choose|q: int| 0 <= q < result_ids(prev).len() && result_ids(prev)[q] == id;
                assert(ids[seen.len() + q] == result_ids(prev)[q]);
            }
            if ids.contains(id) {
                let q = choose|q: int| 0 <= q < ids.len() && ids[q] == id;
                if q < seen.len() {
                    assert(seen[q] == ids[q]);
                } else {
                    assert(result_ids(prev)[q - seen.len()] == ids[q]);
                }
            }
        }
        if !found {
            let ghost before = all@;
            all.push(r);
            proof {
                assert(all@ =~= start + prev.push(r));
                if distinct_results(start) {
                    assert forall|i: int, j: int| 0 <= i < j < all@.len() implies (#[trigger] all@[i]).chunk_id@
                        != (#[trigger] all@[j]).chunk_id@ by {
                        if j == before.len() {
                            assert(result_ids(before)[i] == before[i].chunk_id@);
                        } else {
                            assert(all@[i] == before[i] && all@[j] == before[j]);
                        }
                    }
                }
            }
        }
        taken = taken + 1;
    }
    proof {
        assert(input.take(taken as int) =~= input);
    }
}

/// Keeps the best results only: at most eight are handed to the model.
pub fn keep_answer_sources(results: &mut Vec<SearchResult>)
    ensures
        old(results)@.len() <= MAX_ANSWER_SOURCES ==> final(results)@ == old(results)@,
        old(results)@.len() > MAX_ANSWER_SOURCES ==> final(results)@ == old(results)@.take(
            MAX_ANSWER_SOURCES as int,
        ),
{
    results.truncate(MAX_ANSWER_SOURCES);
}

/// The last segment of a `/`-separated path (the whole path when it has no
/// `/`, empty when it ends with one).
pub open spec fn file_name_of(path: Seq<char>) -> Seq<char>
    decreases path.len(),
{
    if path.len() == 0 {
        path
    } else if path.last() == '/' {
        Seq::empty()
    } else {
        file_name_of(path.drop_last()).push(path.last())
    }
}

pub fn file_name(path: &str) -> (r: String)
    ensures
        r@ == file_name_of(path@),
{
    let v = chars_of(path);
    let mut k = v.len();
    proof {
        assert(v@.subrange(k as int, k as int) =~= Seq::<char>::empty());
        assert(v@.take(k as int) =~= v@);
    }
    while k > 0 && v[k - 1] != '/'
        invariant
            k <= v@.len(),
            v@ == path@,
            file_name_of(path@) == file_name_of(v@.take(k as int)) + v@.subrange(
                k as int,
                v@.len() as int,
            ),
        decreases k,
    {
        proof {
            let t = v@.take(k as int);
            assert(t.drop_last() =~= v@.take(k - 1));
            assert(t.last() == v@[k - 1]);
            assert(v@.subrange(k - 1, v@.len() as int) =~= seq![v@[k - 1]] + v@.subrange(
                k as int,
                v@.len() as int,
            ));
            assert(file_name_of(t) == file_name_of(v@.take(k - 1)).push(v@[k - 1]));
            assert(file_name_of(v@.take(k - 1)).push(v@[k - 1]) + v@.subrange(
                k as int,
                v@.len() as int,
            ) =~= file_name_of(v@.take(k - 1)) + v@.subrange(k - 1, v@.len() as int));
        }
        k = k - 1;
    }
    proof {
        let t = v@.take(k as int);
        if k > 0 {
            assert(t.last() == v@[k - 1]);
        }
        assert(file_name_of(t) =~= Seq::<char>::empty());
    }
    string_of_range(&v, k, v.len())
}

/// The context block of the source at position `i`: its number, file name
/// and snippet.
pub open spec fn context_entry(i: int, r: SearchResult) -> Seq<char> {
    "["@ + decimal((i + 1) as nat) + "] "@ + file_name_of(r.file_path@) + "\n"@ + r.snippet@
}

pub open spec fn context_entries(rs: Seq<SearchResult>, n: int) -> Seq<Seq<char>> {
    Seq::new(n as nat, |i: int| context_entry(i, rs[i]))
}

/// The context given to the model: the numbered sources separated by blank
/// lines, or a note that nothing relevant was found.
pub open spec fn spec_answer_context(rs: Seq<SearchResult>) -> Seq<char> {
    if rs.len() == 0 {
        "(no relevant context found)"@
    } else {
        join_with(context_entries(rs, rs.len() as int), "\n\n"@)
    }
}

pub fn answer_context(results: &Vec<SearchResult>) -> (r: String)
    requires
        results.len() < usize::MAX,
    ensures
        r@ == spec_answer_context(results@),
{
    if results.len() == 0 {
        return String::from_str("(no relevant context found)");
    }
    let ghost rs = results@;
    let sep = chars_of("\n\n");
    let mut out: Vec<char> = Vec::new();
    let mut i: usize = 0;
    proof {
        assert(context_entries(rs, 0) =~= Seq::<Seq<char>>::empty());
    }
    while i < results.len()
        invariant
            rs == results@,
            i <= rs.len() < usize::MAX,
            sep@ == "\n\n"@,
            out@ == join_with(context_entries(rs, i as int), "\n\n"@),
        decreases rs.len() - i,
    {
        let ghost before = out@;
        if i > 0 {
            push_all(&mut out, &sep);
        }
        let r = &results[i];
        push_all(&mut out, &chars_of("["));
        let num = decimal_string(i + 1);
        push_all(&mut out, &chars_of(num.as_str()));
        push_all(&mut out, &chars_of("] "));
        let name = file_name(r.file_path.as_str());
        push_all(&mut out, &chars_of(name.as_str()));
        push_all(&mut out, &chars_of("\n"));
        push_all(&mut out, &chars_of(r.snippet.as_str()));
        proof {
            let e = context_entry(i as int, rs[i as int]);
            let parts = context_entries(rs, i + 1);
            assert(parts.drop_last() =~= context_entries(rs, i as int));
            assert(parts.last() == e);
            if i > 0 {
                assert(out@ =~= before + "\n\n"@ + e);
            } else {
                assert(out@ =~= e);
            }
        }
        i = i + 1;
    }
    string_from_chars(out.as_slice())
}

/// The prompt that asks the model to answer from the context.
pub open spec fn spec_answer_prompt(query: Seq<char>, context: Seq<char>) -> Seq<char> {
    "Answer using ONLY the provided context. If context insufficient, say so.\n\nQuestion: "@
        + query + "\n\nContext:\n"@ + context
        + "\n\nAnswer in markdown, cite sources with [N]."@
}

pub fn answer_prompt(query: &str, context: &str) -> (r: String)
    ensures
        r@ == spec_answer_prompt(query@, context@),
{
    let mut s = String::from_str(
        "Answer using ONLY the provided context. If context insufficient, say so.\n\nQuestion: ",
    );
    s.append(query);
    s.append("\n\nContext:\n");
    s.append(context);
    s.append("\n\nAnswer in markdown, cite sources with [N].");
    s
}

} // verus!
