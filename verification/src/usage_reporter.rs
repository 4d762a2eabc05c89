//! Token-usage reports to Aura's local credential receiver for billing.
//!
//! The report is fail-closed: a receiver that denies usage (or cannot be
//! reached) stops the current turn. This module decides whether and what to
//! report; sending the request is the caller's.
use vstd::prelude::*;
use crate::ids::random_uuid_simple;
use crate::text::{chars_of, decimal, push_str, string_of, u64_to_decimal};

verus! {

/// The receiver's port when none is configured.
pub const DEFAULT_CRED_RECEIVER_PORT: u16 = 18790;

/// The value of the decimal digits `d`.
pub open spec fn digits_value(d: Seq<char>) -> nat
    decreases d.len(),
{
    if d.len() == 0 {
        0
    } else {
        digits_value(d.drop_last()) * 10 + ((d.last() as u32) - ('0' as u32)) as nat
    }
}

/// What `str::parse::<u16>()` accepts: an optional `+`, then one or more
/// ASCII digits whose value is at most 65535 (leading zeros allowed).
pub open spec fn parsed_u16(s: Seq<char>) -> Option<u16> {
    let d = unsigned_digits(s);
    if d.len() == 0 || !all_digits(d) {
        None
    } else if digits_value(d) > u16::MAX {
        None
    } else {
        Some(digits_value(d) as u16)
    }
}

/// The digits of an unsigned number: the text after an optional `+`.
pub open spec fn unsigned_digits(s: Seq<char>) -> Seq<char> {
    if s.len() > 0 && s[0] == '+' {
        s.drop_first()
    } else {
        s
    }
}

/// Whether every character of `d` is an ASCII digit.
pub open spec fn all_digits(d: Seq<char>) -> bool {
    forall|i: int| 0 <= i < d.len() ==> '0' <= #[trigger] d[i] && d[i] <= '9'
}

proof fn lemma_digits_value_monotone(d: Seq<char>, n: int)
    requires
        0 <= n <= d.len(),
        forall|i: int| 0 <= i < d.len() ==> '0' <= #[trigger] d[i] && d[i] <= '9',
    ensures
        digits_value(d.take(n)) <= digits_value(d),
    decreases d.len(),
{
    if n < d.len() {
        assert(d.drop_last().take(n) =~= d.take(n));
        lemma_digits_value_monotone(d.drop_last(), n);
    } else {
        assert(d.take(n) =~= d);
    }
}

/// Parse a port number the way `str::parse::<u16>()` does; `None` when the
/// text is not a decimal number in range.
pub fn parse_port(s: &str) -> (r: Option<u16>)
    ensures
        r == parsed_u16(s@),
{
    let v = chars_of(s);
    let start: usize = if v.len() > 0 && v[0] == '+' { 1 } else { 0 };
    let ghost d = unsigned_digits(s@);
    assert(d =~= v@.subrange(start as int, v@.len() as int));
    if start == v.len() {
        return None;
    }
    let mut value: u32 = 0;
    let mut i = start;
    while i < v.len()
        invariant
            start <= i <= v@.len(),
            v@ == s@,
            d == unsigned_digits(s@),
            start == 1 <==> (s@.len() > 0 && s@[0] == '+'),
            d == v@.subrange(start as int, v@.len() as int),
            forall|j: int| start <= j < i ==> '0' <= #[trigger] v@[j] && v@[j] <= '9',
            value == digits_value(d.take(i - start)),
            value <= u16::MAX,
        decreases v@.len() - i,
    {
        let c = v[i];
        if !('0' <= c && c <= '9') {
            proof {
                let k = i - start;
                assert(!('0' <= d[k] && d[k] <= '9'));
                assert(!all_digits(d));
            }
            return None;
        }
        proof {
            assert(d.take(i - start + 1).drop_last() =~= d.take(i - start));
            assert(d.take(i - start + 1).last() == c);
        }
        value = value * 10 + ((c as u32) - ('0' as u32));
        assert(value == digits_value(d.take(i - start + 1)));
        if value > 65535 {
            proof {
                if all_digits(d) {
                    lemma_digits_value_monotone(d, i - start + 1);
                    assert(digits_value(d) > u16::MAX);
                    assert(d.len() > 0);
                }

            }
            return None;
        }
        i += 1;
    }
    proof {
        assert(d.take(i - start) =~= d);
    }
    Some(value as u16)
}

/// The receiver's port for a `CRED_RECEIVER_PORT` setting: the setting
/// when it parses as a port number, the default otherwise.
pub open spec fn configured_port(setting: Option<Seq<char>>) -> u16 {
    match setting {
        Some(v) => match parsed_u16(v) {
            Some(p) => p,
            None => DEFAULT_CRED_RECEIVER_PORT,
        },
        None => DEFAULT_CRED_RECEIVER_PORT,
    }
}

/// The port to report to, from the `CRED_RECEIVER_PORT` setting.
pub fn port_from_setting(setting: Option<&str>) -> (port: u16)
    ensures
        port == configured_port(
            match setting {
                Some(v) => Some(v@),
                None => None,
            },
        ),
{
    match setting {
        Some(v) => match parse_port(v) {
            Some(p) => p,
            None => DEFAULT_CRED_RECEIVER_PORT,
        },
        None => DEFAULT_CRED_RECEIVER_PORT,
    }
}

/// The token counts a provider reported for one model response.
pub struct TokenUsage {
    pub input_tokens: Option<u64>,
    pub output_tokens: Option<u64>,
    pub cached_input_tokens: Option<u64>,
}

/// The breakdown sent with a usage report.
pub struct UsageDetail {
    pub input_tokens: u64,
    pub output_tokens: u64,
    pub cached_input_tokens: u64,
}

/// A usage report: `{"tokens", "channel", "reportId", "detail"}`.
pub struct UsageReport {
    pub tokens: u64,
    pub channel: String,
    pub report_id: String,
    pub detail: UsageDetail,
}

/// A count the provider did not report counts as zero.
pub open spec fn count_or_zero(c: Option<u64>) -> u64 {
    match c {
        Some(n) => n,
        None => 0,
    }
}

/// The report id of the `seq`-th report: `zc-`, a random UUID, `-`, `seq`.
pub open spec fn is_report_id(id: Seq<char>, seq: u64) -> bool {
    exists|uuid: Seq<char>| #![trigger "zc-"@ + uuid] uuid.len() == 32 && id == "zc-"@ + uuid + "-"@ + decimal(seq as nat)
}

/// Reports LLM token usage to Aura's local credential receiver for billing.
pub struct UsageReporterHook {
    pub port: u16,
    /// The number of reports prepared so far (it numbers the report ids).
    pub counter: u64,
}

impl UsageReporterHook {
    /// A hook for the `CRED_RECEIVER_PORT` setting (`None` when unset).
    pub fn new(port_setting: Option<&str>) -> (h: Self)
        ensures
            h.port == configured_port(
                match port_setting {
                    Some(v) => Some(v@),
                    None => None,
                },
            ),
            h.counter == 0,
    {
        Self::with_port(port_from_setting(port_setting))
    }

    /// A hook that reports to the given port.
    pub fn with_port(port: u16) -> (h: Self)
        ensures
            h.port == port,
            h.counter == 0,
    {
        UsageReporterHook { port, counter: 0 }
    }

    /// The hook's name.
    pub fn name(&self) -> (r: &'static str)
        ensures
            r@ == "usage_reporter"@,
    {
        "usage_reporter"
    }

    /// Where reports go: `http://127.0.0.1:{port}/report-usage`.
    pub fn report_url(&self) -> (r: String)
        ensures
            r@ == "http://127.0.0.1:"@ + decimal(self.port as nat) + "/report-usage"@,
    {
        let mut r = string_of("http://127.0.0.1:");
        push_str(&mut r, u64_to_decimal(self.port as u64).as_str());
        push_str(&mut r, "/report-usage");
        r
    }

    /// The report for a model response's usage: none when the response has
    /// no usage or no billable (input + output) tokens; otherwise a report
    /// on channel `vm` of the total, with the breakdown and a fresh report
    /// id numbered by the counter, which then advances (wrapping, like the
    /// atomic counter it stands for).
    pub fn prepare_report(&mut self, usage: Option<&TokenUsage>) -> (r: Option<UsageReport>)
        requires
            usage matches Some(u) ==> count_or_zero(u.input_tokens) + count_or_zero(u.output_tokens) <= u64::MAX,
        ensures
            final(self).port == old(self).port,
            match usage {
                None => r is None && final(self).counter == old(self).counter,
                Some(u) => {
                    let total = count_or_zero(u.input_tokens) + count_or_zero(u.output_tokens);
                    if total == 0 {
                        r is None && final(self).counter == old(self).counter
                    } else {
                        &&& r matches Some(report) && {
                            &&& report.tokens == total
                            &&& report.channel@ == "vm"@
                            &&& is_report_id(report.report_id@, old(self).counter)
                            &&& report.detail.input_tokens == count_or_zero(u.input_tokens)
                            &&& report.detail.output_tokens == count_or_zero(u.output_tokens)
                            &&& report.detail.cached_input_tokens == count_or_zero(u.cached_input_tokens)
                        }
                        &&& final(self).counter == old(self).counter.wrapping_add(1)
                    }
                },
            },
    {
        let usage = match usage {
            Some(u) => u,
            None => return None,
        };
        let input_tokens = match usage.input_tokens { Some(n) => n, None => 0 };
        let output_tokens = match usage.output_tokens { Some(n) => n, None => 0 };
        let cached_input_tokens = match usage.cached_input_tokens { Some(n) => n, None => 0 };
        let total_tokens = input_tokens + output_tokens;
        if total_tokens == 0 {
            return None;
        }
        let seq = self.counter;
        self.counter = self.counter.wrapping_add(1);
        let report_id = report_id_for(seq);
        Some(UsageReport {
            tokens: total_tokens,
            channel: string_of("vm"),
            report_id,
            detail: UsageDetail { input_tokens, output_tokens, cached_input_tokens },
        })
    }
}

/// A fresh report id numbered `seq`.
pub fn report_id_for(seq: u64) -> (r: String)
    ensures
        is_report_id(r@, seq),
{
    let mut r = string_of("zc-");
    let uuid = random_uuid_simple();
    push_str(&mut r, uuid.as_str());
    push_str(&mut r, "-");
    push_str(&mut r, u64_to_decimal(seq).as_str());
    assert(r@ == "zc-"@ + uuid@ + "-"@ + decimal(seq as nat));
    r
}

/// The error of a report the receiver refused, given the text of the HTTP
/// status (e.g. `402 Payment Required`).
pub fn denied_report_error(status: &str) -> (r: String)
    ensures
        r@ == "cred-receiver denied usage report with status "@ + status@,
{
    let mut r = string_of("cred-receiver denied usage report with status ");
    push_str(&mut r, status);
    r
}

/// Whether an HTTP status code is a success (2xx).
pub open spec fn is_success_status(code: u16) -> bool {
    200 <= code && code <= 299
}

/// The verdict on the receiver's answer to a report, which is fail-closed:
/// a 2xx status accepts the usage; any other status refuses it, with the
/// error naming the status (`status_text`, e.g. `402 Payment Required`).
pub fn report_verdict(code: u16, status_text: &str) -> (r: Result<(), String>)
    ensures
        is_success_status(code) ==> r is Ok,
        !is_success_status(code) ==> (r matches Err(e) && e@ == "cred-receiver denied usage report with status "@
            + status_text@),
{
    if 200 <= code && code <= 299 {
        Ok(())
    } else {
        Err(denied_report_error(status_text))
    }
}

/// Reports numbered differently get different ids: the hook's counter
/// makes each report id unique (until the counter wraps).
pub proof fn lemma_report_ids_distinct(a: Seq<char>, b: Seq<char>, seq_a: u64, seq_b: u64)
    requires
        is_report_id(a, seq_a),
        is_report_id(b, seq_b),
        seq_a != seq_b,
    ensures
        a != b,
{
    reveal_strlit("zc-");
    reveal_strlit("-");
    let ua = choose|uuid: Seq<char>| uuid.len() == 32 && a == "zc-"@ + uuid + "-"@ + decimal(seq_a as nat);
    let ub = choose|uuid: Seq<char>| uuid.len() == 32 && b == "zc-"@ + uuid + "-"@ + decimal(seq_b as nat);
    if a == b {
        assert(a.skip(36) =~= decimal(seq_a as nat));
        assert(b.skip(36) =~= decimal(seq_b as nat));
        crate::text::lemma_decimal_injective(seq_a as nat, seq_b as nat);
    }
}

} // verus!
