//! Usage reports to the Aura API: for each successful model response with
//! token counts and an attribution, a payload with a deterministic report
//! id, posted to the agent's usage endpoint.
use vstd::prelude::*;
use crate::usage_reporter::count_or_zero;
use crate::text::{
    chars_of, class_pred, copy_opt, decimal, opt_view, push_str, string_from_range, string_of, strip_end_bound,
    strip_trailing, trim, trim_bounds, u64_to_decimal, CharClass,
};

verus! {

/// Where and as whom usage is reported.
pub struct AuraUsageConfig {
    pub api_url: String,
    pub agent_id: String,
    pub gateway_token: String,
}

/// Who a model call is billed to: the turn and iteration, the channel and
/// source, and the cron job when it ran on one.
pub struct LlmUsageAttribution {
    pub turn_id: String,
    pub iteration: u32,
    pub channel: String,
    pub source: String,
    pub cron_job_id: Option<String>,
    pub cron_job_name: Option<String>,
}

/// What the observer is told about.
pub enum ObserverEvent {
    /// A model response.
    LlmResponse {
        provider: String,
        model: String,
        duration: std::time::Duration,
        success: bool,
        error_message: Option<String>,
        input_tokens: Option<u64>,
        output_tokens: Option<u64>,
        usage_attribution: Option<LlmUsageAttribution>,
    },
    /// Any other event; none is reported.
    Other,
}

/// The `metadata` of a usage payload.
#[derive(Debug, PartialEq, Eq)]
pub struct AuraUsageMetadata {
    pub turn_id: String,
    pub iteration: u32,
    pub cron_job_id: Option<String>,
    pub cron_job_name: Option<String>,
}

/// One usage report to the Aura API.
#[derive(Debug, PartialEq, Eq)]
pub struct AuraUsagePayload {
    pub report_id: String,
    pub tokens: u64,
    pub channel: String,
    pub source: String,
    pub provider: String,
    pub model: String,
    pub metadata: AuraUsageMetadata,
}

/// The deterministic report id of a model call:
/// `zeroclaw:{turn}:{iteration}:{provider}:{model}:{channel}:{cron job or none}`.
pub open spec fn usage_report_id(provider: Seq<char>, model: Seq<char>, a: LlmUsageAttribution) -> Seq<char> {
    "zeroclaw:"@ + a.turn_id@ + ":"@ + decimal(a.iteration as nat) + ":"@ + provider + ":"@ + model + ":"@
        + a.channel@ + ":"@ + match a.cron_job_id {
        Some(id) => id@,
        None => "none"@,
    }
}

/// Whether `p` is the payload for a call of `model` at `provider` of
/// `tokens` tokens attributed as `a`.
pub open spec fn is_usage_payload(p: AuraUsagePayload, provider: Seq<char>, model: Seq<char>, tokens: u64, a: LlmUsageAttribution) -> bool {
    &&& p.report_id@ == usage_report_id(provider, model, a)
    &&& p.tokens == tokens
    &&& p.channel@ == a.channel@
    &&& p.source@ == a.source@
    &&& p.provider@ == provider
    &&& p.model@ == model
    &&& p.metadata.turn_id@ == a.turn_id@
    &&& p.metadata.iteration == a.iteration
    &&& opt_view(p.metadata.cron_job_id) == opt_view(a.cron_job_id)
    &&& opt_view(p.metadata.cron_job_name) == opt_view(a.cron_job_name)
}

/// Build the usage payload of a model call; the report id depends only on
/// the call, so the same call always gets the same id.
pub fn build_payload(provider: &str, model: &str, tokens: u64, attribution: &LlmUsageAttribution) -> (p: AuraUsagePayload)
    ensures
        is_usage_payload(p, provider@, model@, tokens, *attribution),
{
    let mut report_id = string_of("zeroclaw:");
    push_str(&mut report_id, attribution.turn_id.as_str());
    push_str(&mut report_id, ":");
    push_str(&mut report_id, u64_to_decimal(attribution.iteration as u64).as_str());
    push_str(&mut report_id, ":");
    push_str(&mut report_id, provider);
    push_str(&mut report_id, ":");
    push_str(&mut report_id, model);
    push_str(&mut report_id, ":");
    push_str(&mut report_id, attribution.channel.as_str());
    push_str(&mut report_id, ":");
    match &attribution.cron_job_id {
        Some(id) => push_str(&mut report_id, id.as_str()),
        None => push_str(&mut report_id, "none"),
    }
    AuraUsagePayload {
        report_id,
        tokens,
        channel: string_of(attribution.channel.as_str()),
        source: string_of(attribution.source.as_str()),
        provider: string_of(provider),
        model: string_of(model),
        metadata: AuraUsageMetadata {
            turn_id: string_of(attribution.turn_id.as_str()),
            iteration: attribution.iteration,
            cron_job_id: copy_opt(&attribution.cron_job_id),
            cron_job_name: copy_opt(&attribution.cron_job_name),
        },
    }
}

/// The token count of a model response: input plus output, a missing
/// count taken as zero, saturating at `u64::MAX`.
pub open spec fn response_tokens(input_tokens: Option<u64>, output_tokens: Option<u64>) -> u64 {
    count_or_zero(input_tokens).saturating_add(count_or_zero(output_tokens))
}

/// Whether an event is reported: a successful model response with an
/// attribution and a non-zero token count.
pub open spec fn event_is_reported(event: ObserverEvent) -> bool {
    match event {
        ObserverEvent::LlmResponse { success, input_tokens, output_tokens, usage_attribution, .. } => success
            && usage_attribution is Some && response_tokens(input_tokens, output_tokens) != 0,
        ObserverEvent::Other => false,
    }
}

/// Whether `p` is the payload of the (reported) event.
pub open spec fn is_event_payload(event: ObserverEvent, p: AuraUsagePayload) -> bool {
    match event {
        ObserverEvent::LlmResponse { provider, model, input_tokens, output_tokens, usage_attribution, .. } => {
            is_usage_payload(p, provider@, model@, response_tokens(input_tokens, output_tokens), usage_attribution->0)
        },
        ObserverEvent::Other => false,
    }
}

/// The configuration for the `AURA_API_URL`, `AGENT_ID` and `GATEWAY_TOKEN`
/// settings: each trimmed (the URL also loses trailing slashes); `None`
/// when any is unset or empty.
pub open spec fn config_of(api_url: Option<Seq<char>>, agent_id: Option<Seq<char>>, token: Option<Seq<char>>) -> Option<(Seq<char>, Seq<char>, Seq<char>)> {
    match (api_url, agent_id, token) {
        (Some(u), Some(a), Some(t)) => {
            let url = strip_trailing(trim(u), class_pred(CharClass::Slash));
            if url.len() == 0 || trim(a).len() == 0 || trim(t).len() == 0 {
                None
            } else {
                Some((url, trim(a), trim(t)))
            }
        },
        _ => None,
    }
}

/// The characters of an optional string slice.
pub open spec fn opt_str_view(o: Option<&str>) -> Option<Seq<char>> {
    match o {
        Some(s) => Some(s@),
        None => None,
    }
}

/// `s` trimmed, as a new string.
fn trimmed(s: &str) -> (r: String)
    ensures
        r@ == trim(s@),
{
    let v = chars_of(s);
    let (a, b) = trim_bounds(&v, 0, v.len());
    assert(v@.subrange(0, v@.len() as int) =~= v@);
    string_from_range(&v, a, b)
}

/// `s` trimmed and stripped of trailing slashes, as a new string.
fn trimmed_url(s: &str) -> (r: String)
    ensures
        r@ == strip_trailing(trim(s@), class_pred(CharClass::Slash)),
{
    let v = chars_of(s);
    let (a, b) = trim_bounds(&v, 0, v.len());
    assert(v@.subrange(0, v@.len() as int) =~= v@);
    let e = strip_end_bound(&v, a, b, CharClass::Slash);
    string_from_range(&v, a, e)
}

/// Reports token usage of successful model responses to the Aura API.
pub struct AuraUsageObserver {
    pub config: Option<AuraUsageConfig>,
}

/// A usage report ready to be posted: the endpoint, the bearer token and
/// the payload.
pub struct AuraUsageRequest {
    pub url: String,
    pub gateway_token: String,
    pub payload: AuraUsagePayload,
}

impl AuraUsageObserver {
    /// An observer for the `AURA_API_URL`, `AGENT_ID` and `GATEWAY_TOKEN`
    /// settings (`None` for an unset one); reporting is disabled (`None`)
    /// unless all three are set and non-empty.
    pub fn from_env(api_url: Option<&str>, agent_id: Option<&str>, gateway_token: Option<&str>) -> (r: Option<Self>)
        ensures
            match config_of(opt_str_view(api_url), opt_str_view(agent_id), opt_str_view(gateway_token)) {
                None => r is None,
                Some(c) => r matches Some(o) && o.config matches Some(cfg) && cfg.api_url@ == c.0
                    && cfg.agent_id@ == c.1 && cfg.gateway_token@ == c.2,
            },
    {
        let api_url = match api_url {
            Some(v) => trimmed_url(v),
            None => return None,
        };
        let agent_id = match agent_id {
            Some(v) => trimmed(v),
            None => return None,
        };
        let gateway_token = match gateway_token {
            Some(v) => trimmed(v),
            None => return None,
        };
        if api_url.as_str().unicode_len() == 0 || agent_id.as_str().unicode_len() == 0
            || gateway_token.as_str().unicode_len() == 0 {
            return None;
        }
        Some(AuraUsageObserver { config: Some(AuraUsageConfig { api_url, agent_id, gateway_token }) })
    }

    /// An observer with reporting disabled.
    pub fn disabled_for_test() -> (o: Self)
        ensures
            o.config is None,
    {
        AuraUsageObserver { config: None }
    }

    /// An observer with the given settings taken as they are (only trailing
    /// slashes of the URL dropped).
    pub fn enabled_for_test(api_url: &str, agent_id: &str, gateway_token: &str) -> (o: Self)
        ensures
            o.config matches Some(cfg) && cfg.api_url@ == strip_trailing(api_url@, class_pred(CharClass::Slash))
                && cfg.agent_id@ == agent_id@ && cfg.gateway_token@ == gateway_token@,
    {
        let v = chars_of(api_url);
        let e = strip_end_bound(&v, 0, v.len(), CharClass::Slash);
        assert(v@.subrange(0, v@.len() as int) =~= v@);
        AuraUsageObserver {
            config: Some(AuraUsageConfig {
                api_url: string_from_range(&v, 0, e),
                agent_id: string_of(agent_id),
                gateway_token: string_of(gateway_token),
            }),
        }
    }

    /// The observer's name.
    pub fn name(&self) -> (r: &'static str)
        ensures
            r@ == "aura_usage"@,
    {
        "aura_usage"
    }

    /// The payload for an event: only a successful model response with an
    /// attribution and a non-zero token count (input plus output, missing
    /// counts as zero, saturating) is reported.
    pub fn payload_for_event(&self, event: &ObserverEvent) -> (r: Option<AuraUsagePayload>)
        ensures
            event_is_reported(*event) ==> (r matches Some(p) && is_event_payload(*event, p)),
            !event_is_reported(*event) ==> r is None,
    {
        match event {
            ObserverEvent::LlmResponse {
                provider,
                model,
                success,
                input_tokens,
                output_tokens,
                usage_attribution,
                ..
            } => {
                if !*success {
                    return None;
                }
                let attribution = match usage_attribution {
                    Some(a) => a,
                    None => return None,
                };
                let input = match input_tokens { Some(n) => *n, None => 0 };
                let output = match output_tokens { Some(n) => *n, None => 0 };
                let tokens = input.saturating_add(output);
                if tokens == 0 {
                    return None;
                }
                Some(build_payload(provider.as_str(), model.as_str(), tokens, attribution))
            },
            ObserverEvent::Other => None,
        }
    }

    /// The usage endpoint: `{api_url}/api/internal/agents/{agent_id}/usage`;
    /// `None` when reporting is disabled.
    pub fn report_url(&self) -> (r: Option<String>)
        ensures
            match self.config {
                None => r is None,
                Some(cfg) => r matches Some(u) && u@ == cfg.api_url@ + "/api/internal/agents/"@
                    + cfg.agent_id@ + "/usage"@,
            },
    {
        match &self.config {
            None => None,
            Some(cfg) => {
                let mut url = string_of(cfg.api_url.as_str());
                push_str(&mut url, "/api/internal/agents/");
                push_str(&mut url, cfg.agent_id.as_str());
                push_str(&mut url, "/usage");
                Some(url)
            },
        }
    }

    /// The report to post for an event: none when reporting is disabled or
    /// the event is not reported; otherwise the endpoint, the gateway token
    /// and the payload.
    pub fn report_for_event(&self, event: &ObserverEvent) -> (r: Option<AuraUsageRequest>)
        ensures
            self.config is None || !event_is_reported(*event) ==> r is None,
            self.config is Some && event_is_reported(*event) ==> (r matches Some(req)
                && req.gateway_token@ == self.config->0.gateway_token@ && req.url@ == self.config->0.api_url@
                + "/api/internal/agents/"@ + self.config->0.agent_id@ + "/usage"@ && is_event_payload(
                *event,
                req.payload,
            )),
    {
        let url = match self.report_url() {
            Some(u) => u,
            None => return None,
        };
        let payload = match self.payload_for_event(event) {
            Some(p) => p,
            None => return None,
        };
        let token = match &self.config {
            Some(cfg) => string_of(cfg.gateway_token.as_str()),
            None => return None,
        };
        Some(AuraUsageRequest { url, gateway_token: token, payload })
    }

}

/// The report id is deterministic: two payloads built for the same call
/// carry the same id, so a retried report is recognized as the same.
pub proof fn lemma_report_id_deterministic(
    p: AuraUsagePayload,
    q: AuraUsagePayload,
    provider: Seq<char>,
    model: Seq<char>,
    tokens: u64,
    a: LlmUsageAttribution,
)
    requires
        is_usage_payload(p, provider, model, tokens, a),
        is_usage_payload(q, provider, model, tokens, a),
    ensures
        p.report_id@ == q.report_id@,
{
}

} // verus!
