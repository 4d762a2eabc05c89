//! The fire-and-forget token-usage report of the root agent: the report is
//! posted in the background and a failure is only logged.
use vstd::prelude::*;
use crate::text::{decimal, push_str, string_of, u64_to_decimal};
use crate::usage_reporter::{configured_port, count_or_zero, is_report_id, port_from_setting, report_id_for, TokenUsage};

verus! {

/// The breakdown sent with a report: input and output tokens.
pub struct UsageDetail {
    pub input_tokens: u64,
    pub output_tokens: u64,
}

/// A usage report: `{"tokens", "channel", "reportId", "detail"}`.
pub struct UsageReport {
    pub tokens: u64,
    pub channel: String,
    pub report_id: String,
    pub detail: UsageDetail,
}

/// Reports LLM token usage to the local credential receiver for billing,
/// on every model output, without waiting for the answer.
pub struct UsageReporterHook {
    pub port: u16,
    /// The number of reports prepared so far (it numbers the report ids).
    pub counter: u64,
}

impl UsageReporterHook {
    /// A hook for the `CRED_RECEIVER_PORT` setting (`None` when unset).
    pub fn new(port_setting: Option<&str>) -> (h: Self)
        ensures
            h.port == configured_port(
                match port_setting {
                    Some(v) => Some(v@),
                    None => None,
                },
            ),
            h.counter == 0,
    {
        UsageReporterHook { port: port_from_setting(port_setting), counter: 0 }
    }

    /// The hook's name.
    pub fn name(&self) -> (r: &'static str)
        ensures
            r@ == "usage_reporter"@,
    {
        "usage_reporter"
    }

    /// Where reports go: `http://127.0.0.1:{port}/report-usage`.
    pub fn report_url(&self) -> (r: String)
        ensures
            r@ == "http://127.0.0.1:"@ + decimal(self.port as nat) + "/report-usage"@,
    {
        let mut r = string_of("http://127.0.0.1:");
        push_str(&mut r, u64_to_decimal(self.port as u64).as_str());
        push_str(&mut r, "/report-usage");
        r
    }

    /// The report for a model response's usage: none without usage data or
    /// billable tokens; otherwise the total on channel `vm`, the breakdown,
    /// and a fresh report id numbered by the counter, which advances
    /// (wrapping, like the atomic counter it stands for).
    pub fn prepare_report(&mut self, usage: Option<&TokenUsage>) -> (r: Option<UsageReport>)
        requires
            usage matches Some(u) ==> count_or_zero(u.input_tokens) + count_or_zero(u.output_tokens) <= u64::MAX,
        ensures
            final(self).port == old(self).port,
            match usage {
                None => r is None && final(self).counter == old(self).counter,
                Some(u) => {
                    let total = count_or_zero(u.input_tokens) + count_or_zero(u.output_tokens);
                    if total == 0 {
                        r is None && final(self).counter == old(self).counter
                    } else {
                        &&& r matches Some(report) && {
                            &&& report.tokens == total
                            &&& report.channel@ == "vm"@
                            &&& is_report_id(report.report_id@, old(self).counter)
                            &&& report.detail.input_tokens == count_or_zero(u.input_tokens)
                            &&& report.detail.output_tokens == count_or_zero(u.output_tokens)
                        }
                        &&& final(self).counter == old(self).counter.wrapping_add(1)
                    }
                },
            },
    {
        let usage = match usage {
            Some(u) => u,
            None => return None,  // No usage data — skip
        };
        let input = match usage.input_tokens { Some(n) => n, None => 0 };
        let output = match usage.output_tokens { Some(n) => n, None => 0 };
        let total_tokens = input + output;
        if total_tokens == 0 {
            return None;
        }
        // A unique report id for idempotency.
        let seq = self.counter;
        self.counter = self.counter.wrapping_add(1);
        Some(UsageReport {
            tokens: total_tokens,
            channel: string_of("vm"),
            report_id: report_id_for(seq),
            detail: UsageDetail { input_tokens: input, output_tokens: output },
        })
    }
}

} // verus!
