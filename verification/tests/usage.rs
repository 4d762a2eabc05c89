use zeroclaw::usage_reporter::{
    denied_report_error, parse_port, report_verdict, port_from_setting, TokenUsage, UsageReporterHook,
    DEFAULT_CRED_RECEIVER_PORT,
};
use zeroclaw::usage_reporter_fire_and_forget::UsageReporterHook as FireAndForgetHook;

fn usage(input: u64, output: u64) -> TokenUsage {
    TokenUsage { input_tokens: Some(input), output_tokens: Some(output), cached_input_tokens: Some(7) }
}

#[test]
fn reports_usage_to_cred_receiver() {
    let mut hook = UsageReporterHook::with_port(4321);
    let report = hook.prepare_report(Some(&usage(11, 13))).unwrap();
    assert_eq!(report.tokens, 24);
    assert_eq!(report.channel, "vm");
    assert_eq!(report.detail.input_tokens, 11);
    assert_eq!(report.detail.output_tokens, 13);
    assert_eq!(report.detail.cached_input_tokens, 7);
    assert!(report.report_id.starts_with("zc-"));
    assert!(report.report_id.ends_with("-0"));
    assert_eq!(hook.report_url(), "http://127.0.0.1:4321/report-usage");
    let second = hook.prepare_report(Some(&usage(1, 0))).unwrap();
    assert!(second.report_id.ends_with("-1"));
}

#[test]
fn fails_closed_when_cred_receiver_denies_usage() {
    let err = denied_report_error("402 Payment Required");
    assert!(err.contains("cred-receiver denied usage report"));
    assert_eq!(err, "cred-receiver denied usage report with status 402 Payment Required");
}

#[test]
fn skips_missing_or_zero_usage() {
    let mut hook = UsageReporterHook::with_port(1);
    assert!(hook.prepare_report(None).is_none());
    let zero = TokenUsage { input_tokens: None, output_tokens: Some(0), cached_input_tokens: Some(9) };
    assert!(hook.prepare_report(Some(&zero)).is_none());
    assert_eq!(hook.counter, 0);
}

#[test]
fn port_setting_parses_like_u16() {
    assert_eq!(port_from_setting(None), DEFAULT_CRED_RECEIVER_PORT);
    assert_eq!(port_from_setting(Some("8080")), 8080);
    assert_eq!(port_from_setting(Some("+80")), 80);
    assert_eq!(port_from_setting(Some("65536")), DEFAULT_CRED_RECEIVER_PORT);
    assert_eq!(port_from_setting(Some(" 80")), DEFAULT_CRED_RECEIVER_PORT);
    assert_eq!(parse_port("0065535"), Some(65535));
    assert_eq!(parse_port("+"), None);
    assert_eq!(parse_port("-1"), None);
    assert_eq!(parse_port(""), None);
    assert_eq!(UsageReporterHook::new(Some("9000")).port, 9000);
}

#[test]
fn fire_and_forget_reports_input_and_output() {
    let mut hook = FireAndForgetHook::new(None);
    assert_eq!(hook.port, 18790);
    let report = hook.prepare_report(Some(&usage(2, 3))).unwrap();
    assert_eq!(report.tokens, 5);
    assert_eq!(report.channel, "vm");
    assert_eq!((report.detail.input_tokens, report.detail.output_tokens), (2, 3));
    assert!(report.report_id.starts_with("zc-") && report.report_id.ends_with("-0"));
    assert!(hook.prepare_report(None).is_none());
    assert_eq!(hook.report_url(), "http://127.0.0.1:18790/report-usage");
}

#[test]
fn report_verdict_is_fail_closed() {
    assert_eq!(report_verdict(200, "200 OK"), Ok(()));
    assert_eq!(report_verdict(204, "204 No Content"), Ok(()));
    assert_eq!(
        report_verdict(402, "402 Payment Required"),
        Err("cred-receiver denied usage report with status 402 Payment Required".to_string())
    );
    assert!(report_verdict(302, "302 Found").is_err());
    assert!(report_verdict(500, "500 Internal Server Error").is_err());
}
