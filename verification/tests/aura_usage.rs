use std::time::Duration;
use zeroclaw::aura_usage::{build_payload, AuraUsageObserver, LlmUsageAttribution, ObserverEvent};

fn success_event(attribution: LlmUsageAttribution) -> ObserverEvent {
    ObserverEvent::LlmResponse {
        provider: "bedrock".to_string(),
        model: "sonnet-model".to_string(),
        duration: Duration::from_millis(42),
        success: true,
        error_message: None,
        input_tokens: Some(100),
        output_tokens: Some(25),
        usage_attribution: Some(attribution),
    }
}

fn attribution() -> LlmUsageAttribution {
    LlmUsageAttribution {
        turn_id: "turn-1".to_string(),
        iteration: 2,
        channel: "proactive".to_string(),
        source: "zeroclaw_cron".to_string(),
        cron_job_id: Some("job-1".to_string()),
        cron_job_name: Some("Morning briefing".to_string()),
    }
}

#[test]
fn reports_usage_on_successful_llm_response() {
    let observer = AuraUsageObserver::enabled_for_test("https://www.moreaura.ai/", "agent-1", "gateway-token");
    let payload = observer
        .payload_for_event(&success_event(attribution()))
        .expect("successful token response should build a payload");

    assert_eq!(payload.tokens, 125);
    assert_eq!(payload.channel, "proactive");
    assert_eq!(payload.source, "zeroclaw_cron");
    assert_eq!(payload.provider, "bedrock");
    assert_eq!(payload.model, "sonnet-model");
    assert_eq!(payload.metadata.cron_job_id.as_deref(), Some("job-1"));
    assert_eq!(payload.report_id, "zeroclaw:turn-1:2:bedrock:sonnet-model:proactive:job-1");
    assert_eq!(
        observer.report_url().as_deref(),
        Some("https://www.moreaura.ai/api/internal/agents/agent-1/usage")
    );
}

#[test]
fn skips_when_env_config_is_missing() {
    let observer = AuraUsageObserver::disabled_for_test();
    assert!(observer.report_url().is_none());
    assert!(observer.payload_for_event(&success_event(attribution())).is_some());
    assert!(observer.report_for_event(&success_event(attribution())).is_none());
}

#[test]
fn skips_failed_and_zero_token_responses() {
    let observer = AuraUsageObserver::enabled_for_test("https://aura.test", "agent-1", "token");
    let failed = ObserverEvent::LlmResponse {
        provider: "bedrock".to_string(),
        model: "sonnet-model".to_string(),
        duration: Duration::from_millis(42),
        success: false,
        error_message: Some("failed".to_string()),
        input_tokens: Some(100),
        output_tokens: Some(25),
        usage_attribution: Some(attribution()),
    };
    assert!(observer.payload_for_event(&failed).is_none());

    let zero = ObserverEvent::LlmResponse {
        provider: "bedrock".to_string(),
        model: "sonnet-model".to_string(),
        duration: Duration::from_millis(42),
        success: true,
        error_message: None,
        input_tokens: None,
        output_tokens: None,
        usage_attribution: Some(attribution()),
    };
    assert!(observer.payload_for_event(&zero).is_none());
}

#[test]
fn deterministic_report_id_is_stable_for_same_event() {
    let first = build_payload("bedrock", "sonnet-model", 125, &attribution());
    let second = build_payload("bedrock", "sonnet-model", 125, &attribution());
    assert_eq!(first.report_id, second.report_id);
}

#[test]
fn report_id_without_cron_job_says_none() {
    let mut a = attribution();
    a.cron_job_id = None;
    let p = build_payload("p", "m", 1, &a);
    assert_eq!(p.report_id, "zeroclaw:turn-1:2:p:m:proactive:none");
}

#[test]
fn from_env_trims_and_requires_all_settings() {
    let o = AuraUsageObserver::from_env(Some(" https://x.test// "), Some(" agent "), Some(" tok ")).unwrap();
    assert_eq!(o.report_url().as_deref(), Some("https://x.test/api/internal/agents/agent/usage"));
    let req = o.report_for_event(&success_event(attribution())).unwrap();
    assert_eq!(req.gateway_token, "tok");
    assert_eq!(req.payload.tokens, 125);
    assert!(AuraUsageObserver::from_env(None, Some("a"), Some("t")).is_none());
    assert!(AuraUsageObserver::from_env(Some("u"), Some("  "), Some("t")).is_none());
    assert!(AuraUsageObserver::from_env(Some("///"), Some("a"), Some("t")).is_none());
    let saturating = ObserverEvent::LlmResponse {
        provider: "p".to_string(),
        model: "m".to_string(),
        duration: Duration::from_millis(1),
        success: true,
        error_message: None,
        input_tokens: Some(u64::MAX),
        output_tokens: Some(5),
        usage_attribution: Some(attribution()),
    };
    assert_eq!(o.payload_for_event(&saturating).unwrap().tokens, u64::MAX);
}
