//! Conversation history upkeep: cutting oversized tool output at UTF-8
//! boundaries, trimming old tool results and messages, and the token
//! estimate that drives it.
use vstd::prelude::*;
use vstd::utf8::*;
use vstd::string::StringSliceAdditionalSpecFns;
use crate::json::{JsonDatum, json_has_key, json_object_of, json_object_to_string, json_set_string, json_string_entry, parse_json_object};
use crate::text::{bytes_of, decimal, lemma_encode_utf8_concat, push_str, str_eq, string_of, u64_to_decimal};

verus! {

broadcast use encode_utf8_valid_utf8, is_char_boundary_start_end_of_seq;

/// The largest byte index `<= i` on a character boundary of `b`; the length
/// of `b` when `i` lies at or past its end.
pub open spec fn floor_boundary(b: Seq<u8>, i: int) -> int
    decreases i,
{
    if i >= b.len() {
        b.len() as int
    } else if i <= 0 {
        0
    } else if is_char_boundary(b, i) {
        i
    } else {
        floor_boundary(b, i - 1)
    }
}

/// The smallest byte index `>= i` on a character boundary of `b`; the length
/// of `b` when `i` lies at or past its end.
pub open spec fn ceil_boundary(b: Seq<u8>, i: int) -> int
    decreases b.len() - i,
{
    if i >= b.len() {
        b.len() as int
    } else if i < 0 {
        ceil_boundary(b, 0)
    } else if is_char_boundary(b, i) {
        i
    } else {
        ceil_boundary(b, i + 1)
    }
}

/// `floor_boundary` is the nearest boundary at or below `i`.
pub proof fn lemma_floor_boundary(b: Seq<u8>, i: int)
    requires
        valid_utf8(b),
        0 <= i,
    ensures
        0 <= floor_boundary(b, i) <= b.len(),
        i < b.len() ==> floor_boundary(b, i) <= i,
        is_char_boundary(b, floor_boundary(b, i)),
        forall|j: int| floor_boundary(b, i) < j <= i && j < b.len() ==> !is_char_boundary(b, j),
    decreases i,
{
    if i >= b.len() || i == 0 || is_char_boundary(b, i) {
    } else {
        lemma_floor_boundary(b, i - 1);
    }
}

/// `ceil_boundary` is the nearest boundary at or above `i`.
pub proof fn lemma_ceil_boundary(b: Seq<u8>, i: int)
    requires
        valid_utf8(b),
        0 <= i,
    ensures
        0 <= ceil_boundary(b, i) <= b.len(),
        i <= b.len() ==> i <= ceil_boundary(b, i),
        is_char_boundary(b, ceil_boundary(b, i)),
        forall|j: int| i <= j < ceil_boundary(b, i) ==> !is_char_boundary(b, j),
    decreases b.len() - i,
{
    if i >= b.len() || is_char_boundary(b, i) {
    } else {
        lemma_ceil_boundary(b, i + 1);
    }
}

/// The byte length of `s`.
pub fn byte_len(s: &str) -> (n: usize)
    ensures
        n == s.spec_bytes().len(),
{
    let b = s.as_bytes();
    b.len()
}

/// Find the largest byte index `<= i` that is a valid char boundary; the
/// string's byte length when `i` is at or past the end.
pub fn floor_char_boundary(s: &str, i: usize) -> (r: usize)
    ensures
        r == floor_boundary(s.spec_bytes(), i as int),
        r <= s.spec_bytes().len(),
        i < s.spec_bytes().len() ==> r <= i,
        is_char_boundary(s.spec_bytes(), r as int),
        forall|j: int| r < j <= i && j < s.spec_bytes().len() ==> !is_char_boundary(s.spec_bytes(), j),
{
    proof {
        lemma_floor_boundary(s.spec_bytes(), i as int);
    }
    let n = byte_len(s);
    if i >= n {
        return n;
    }
    let mut pos = i;
    while pos > 0 && !s.is_char_boundary(pos)
        invariant
            pos <= i < s.spec_bytes().len(),
            floor_boundary(s.spec_bytes(), pos as int) == floor_boundary(s.spec_bytes(), i as int),
        decreases pos,
    {
        pos -= 1;
    }
    pos
}

/// Find the smallest byte index `>= i` that is a valid char boundary; the
/// string's byte length when `i` is at or past the end.
fn ceil_char_boundary(s: &str, i: usize) -> (r: usize)
    ensures
        r == ceil_boundary(s.spec_bytes(), i as int),
{
    let n = byte_len(s);
    if i >= n {
        return n;
    }
    let mut pos = i;
    while pos < n && !s.is_char_boundary(pos)
        invariant
            i <= pos <= s.spec_bytes().len(),
            ceil_boundary(s.spec_bytes(), pos as int) == ceil_boundary(s.spec_bytes(), i as int),
        decreases s.spec_bytes().len() - pos,
    {
        pos += 1;
    }
    pos
}

/// The marker that stands in for `n` cut-out bytes of a tool result.
pub open spec fn truncation_marker(n: nat) -> Seq<char> {
    "\n\n[... "@ + decimal(n) + " characters truncated ...]\n\n"@
}

/// The bytes that `truncate_tool_result` keeps of the UTF-8 text `b` for the
/// limit `max`: all of it when the limit is off (`0`) or not exceeded;
/// otherwise the head up to the boundary at or below two thirds of the limit
/// and the tail from the boundary at or above the last third, joined by the
/// marker that counts the bytes in between; and, where head and tail would
/// meet, just the prefix up to the boundary at or below the limit.
pub open spec fn truncated_tool_result(b: Seq<u8>, max: nat) -> Seq<u8> {
    if max == 0 || b.len() <= max {
        b
    } else {
        let head_len = max * 2 / 3;
        let tail_len = max - head_len;
        let head_end = floor_boundary(b, head_len as int);
        let tail_start = ceil_boundary(b, b.len() - tail_len);
        if head_end >= tail_start {
            b.subrange(0, floor_boundary(b, max as int))
        } else {
            b.subrange(0, head_end) + bytes_of(truncation_marker((tail_start - head_end) as nat))
                + b.subrange(tail_start, b.len() as int)
        }
    }
}

/// The text that `truncate_tool_result` gives for `text` and the limit `max`.
pub open spec fn truncated_text(text: Seq<char>, max: nat) -> Seq<char> {
    decode_utf8(truncated_tool_result(bytes_of(text), max))
}

/// Truncate a tool result to `max_chars` bytes, keeping head (2/3) + tail
/// (1/3) with a marker in the middle. Returns the input unchanged if within
/// the limit or `max_chars == 0` (disabled).
pub fn truncate_tool_result(output: &str, max_chars: usize) -> (r: String)
    ensures
        bytes_of(r@) == truncated_tool_result(output.spec_bytes(), max_chars as nat),
        r@ == truncated_text(output@, max_chars as nat),
{
    proof {
        encode_utf8_decode_utf8(output@);
    }
    let r = truncate_tool_result_bytes(output, max_chars);
    proof {
        encode_utf8_decode_utf8(r@);
    }
    r
}

fn truncate_tool_result_bytes(output: &str, max_chars: usize) -> (r: String)
    ensures
        bytes_of(r@) == truncated_tool_result(output.spec_bytes(), max_chars as nat),
{
    let ghost b = output.spec_bytes();
    let n = byte_len(output);
    if max_chars == 0 || n <= max_chars {
        return string_of(output);
    }
    // `max_chars * 2 / 3`, computed without an intermediate overflow.
    let head_len = max_chars / 3 * 2 + max_chars % 3 * 2 / 3;
    assert(head_len == max_chars * 2 / 3) by (nonlinear_arith)
        requires
            head_len == max_chars / 3 * 2 + max_chars % 3 * 2 / 3,
    ;
    let tail_len = max_chars.saturating_sub(head_len);
    let head_end = floor_char_boundary(output, head_len);
    let tail_start_raw = n.saturating_sub(tail_len);
    let tail_start = ceil_char_boundary(output, tail_start_raw);
    proof {
        lemma_floor_boundary(b, head_len as int);
        lemma_ceil_boundary(b, tail_start_raw as int);
        lemma_floor_boundary(b, max_chars as int);
    }
    if head_end >= tail_start {
        let cut = floor_char_boundary(output, max_chars);
        let (head, _) = output.split_at(cut);
        let r = string_of(head);
        return r;
    }
    let truncated_chars = tail_start - head_end;
    let (head, _) = output.split_at(head_end);
    let (_, tail) = output.split_at(tail_start);
    let count = u64_to_decimal(truncated_chars as u64);
    let mut r = string_of(head);
    push_str(&mut r, "\n\n[... ");
    push_str(&mut r, count.as_str());
    push_str(&mut r, " characters truncated ...]\n\n");
    push_str(&mut r, tail);
    proof {
        let m = truncation_marker(truncated_chars as nat);
        assert(r@ =~= head@ + m + tail@);
        lemma_encode_utf8_concat(head@ + m, tail@);
        lemma_encode_utf8_concat(head@, m);
    }
    r
}

/// Whether the JSON object `obj` is a native tool-call message: it carries a
/// `tool_call_id` and a string `content`.
pub open spec fn is_tool_envelope(obj: Map<Seq<char>, JsonDatum>) -> bool {
    &&& obj.dom().contains("tool_call_id"@)
    &&& obj.dom().contains("content"@)
    &&& obj["content"@] is Str
}

/// The text of a JSON string value (empty for any other kind).
pub open spec fn datum_text(d: JsonDatum) -> Seq<char> {
    match d {
        JsonDatum::Str(t) => t,
        _ => Seq::empty(),
    }
}

/// What `truncate_tool_message` gives for `content` and the limit `max`.
/// Within the limit (or with the limit off) the content itself. A native
/// tool-call JSON envelope keeps every entry and has its `content` string
/// truncated: the result is JSON text that reads back as that object.
/// Anything else is truncated as plain text.
pub open spec fn is_tool_message_truncation(content: Seq<char>, result: Seq<char>, max: nat) -> bool {
    if max == 0 || bytes_of(content).len() <= max {
        result == content
    } else if json_object_of(content) is Some && is_tool_envelope(json_object_of(content)->0) {
        let obj = json_object_of(content)->0;
        let inner = datum_text(obj["content"@]);
        json_object_of(result) == Some(obj.insert("content"@, JsonDatum::Str(truncated_text(inner, max))))
    } else {
        result == truncated_text(content, max)
    }
}

/// Truncate a tool message's content, preserving JSON structure when the
/// message stores `tool_call_id` alongside `content` (native tool-call
/// format): only the inner `content` string is truncated, so the envelope
/// and its `tool_call_id` survive.
pub fn truncate_tool_message(msg_content: &str, max_chars: usize) -> (r: String)
    ensures
        is_tool_message_truncation(msg_content@, r@, max_chars as nat),
{
    let n = byte_len(msg_content);
    if max_chars == 0 || n <= max_chars {
        return string_of(msg_content);
    }
    if let Some(mut obj) = parse_json_object(msg_content) {
        if json_has_key(&obj, "tool_call_id") {
            if let Some(inner) = json_string_entry(&obj, "content") {
                let truncated = truncate_tool_result(inner, max_chars);
                json_set_string(&mut obj, "content", truncated);
                return match json_object_to_string(&obj) {
                    Some(text) => text,
                    None => string_of(msg_content),
                };
            }
        }
    }
    truncate_tool_result(msg_content, max_chars)
}

/// One message of a conversation history: who spoke (`system`, `user`,
/// `assistant` or `tool`) and what was said.
pub struct ChatMessage {
    pub role: String,
    pub content: String,
}

impl View for ChatMessage {
    /// The role and the content, as characters.
    type V = (Seq<char>, Seq<char>);

    open spec fn view(&self) -> (Seq<char>, Seq<char>) {
        (self.role@, self.content@)
    }
}

impl ChatMessage {
    /// A message with the given role and content.
    pub fn new(role: &str, content: &str) -> (m: ChatMessage)
        ensures
            m.role@ == role@,
            m.content@ == content@,
    {
        ChatMessage { role: string_of(role), content: string_of(content) }
    }

    /// A system message.
    pub fn system(content: &str) -> (m: ChatMessage)
        ensures
            m.role@ == "system"@,
            m.content@ == content@,
    {
        ChatMessage::new("system", content)
    }

    /// Whether the message has the role `role`.
    pub fn has_role(&self, role: &str) -> (r: bool)
        ensures
            r == (self.role@ == role@),
    {
        str_eq(self.role.as_str(), role)
    }

    /// A copy of the message.
    pub fn duplicate(&self) -> (m: ChatMessage)
        ensures
            m@ == self@,
    {
        ChatMessage { role: string_of(self.role.as_str()), content: string_of(self.content.as_str()) }
    }
}

/// Default trigger for auto-compaction when the non-system message count
/// exceeds this threshold (used when callers pass no configured value).
pub const DEFAULT_MAX_HISTORY_MESSAGES: usize = 50;

/// The size, in bytes, that `fast_trim_tool_results` cuts old tool results to.
pub const FAST_TRIM_BYTES: usize = 2000;

/// The number of leading messages that are not among the last `protect`.
pub open spec fn unprotected(len: int, protect: int) -> int {
    if len >= protect { len - protect } else { 0 }
}

/// Whether `m` is a tool result longer than `limit` bytes.
pub open spec fn is_oversized_tool_result(m: (Seq<char>, Seq<char>), limit: nat) -> bool {
    m.0 == "tool"@ && bytes_of(m.1).len() > limit
}

/// How `fast_trim_tool_results` leaves a message: an old (`unprotected`)
/// oversized tool result keeps its role and has its content truncated as a
/// tool message; every other message is left as it was.
pub open spec fn fast_trimmed(before: (Seq<char>, Seq<char>), after: (Seq<char>, Seq<char>), unprotected: bool) -> bool {
    if unprotected && is_oversized_tool_result(before, FAST_TRIM_BYTES as nat) {
        &&& after.0 == before.0
        &&& is_tool_message_truncation(before.1, after.1, FAST_TRIM_BYTES as nat)
    } else {
        after == before
    }
}

/// The bytes saved on one message: how much shorter its content became (a
/// message that grew saved nothing).
pub open spec fn message_bytes_saved(old: ChatMessage, new: ChatMessage) -> int {
    let before = bytes_of(old@.1).len() as int;
    let after = bytes_of(new@.1).len() as int;
    if after <= before { before - after } else { 0 }
}

/// The bytes saved on the first `n` messages of `new` against `old`.
pub open spec fn bytes_saved(old: Seq<ChatMessage>, new: Seq<ChatMessage>, n: int) -> int
    decreases n,
{
    if n <= 0 {
        0
    } else {
        bytes_saved(old, new, n - 1) + message_bytes_saved(old[n - 1], new[n - 1])
    }
}

/// The net change in content bytes of the first `n` messages of `new`
/// against `old`: positive where they shrank, negative where they grew.
pub open spec fn net_bytes_removed(old: Seq<ChatMessage>, new: Seq<ChatMessage>, n: int) -> int
    decreases n,
{
    if n <= 0 {
        0
    } else {
        net_bytes_removed(old, new, n - 1) + bytes_of(old[n - 1]@.1).len() - bytes_of(new[n - 1]@.1).len()
    }
}

/// `x` capped at `usize::MAX`.
pub open spec fn capped(x: int) -> int {
    if x > usize::MAX { usize::MAX as int } else { x }
}

proof fn lemma_bytes_saved_prefix(old: Seq<ChatMessage>, a: Seq<ChatMessage>, b: Seq<ChatMessage>, n: int)
    requires
        forall|j: int| 0 <= j < n ==> a[j]@ == b[j]@,
    ensures
        bytes_saved(old, a, n) == bytes_saved(old, b, n),
    decreases n,
{
    if n > 0 {
        lemma_bytes_saved_prefix(old, a, b, n - 1);
    }
}

/// Aggressively trim old tool result messages in history to recover from
/// context overflow. Keeps the last `protect_last_n` messages untouched.
/// Returns the total bytes saved. A trimmed message can come out longer than
/// it was (the marker outweighs the few bytes cut from a result just over
/// the limit); such a message saves nothing. The total stops at
/// `usize::MAX`.
pub fn fast_trim_tool_results(history: &mut [ChatMessage], protect_last_n: usize) -> (saved: usize)
    ensures
        final(history)@.len() == old(history)@.len(),
        forall|i: int|
            #![trigger final(history)@[i]]
            0 <= i < old(history)@.len() ==> fast_trimmed(
                old(history)@[i]@,
                final(history)@[i]@,
                i < unprotected(old(history)@.len() as int, protect_last_n as int),
            ),
        saved as int == capped(bytes_saved(old(history)@, final(history)@, old(history)@.len() as int)),
        forall|i: int|
            #![trigger final(history)@[i]]
            0 <= i < old(history)@.len() && old(history)@[i]@.0 != "tool"@ ==> final(history)@[i]@
                == old(history)@[i]@,
{
    let ghost start = history@;
    let len = history.len();
    let cutoff = len.saturating_sub(protect_last_n);
    let mut saved: usize = 0;
    let mut i: usize = 0;
    while i < cutoff
        invariant
            len == start.len() == history@.len(),
            cutoff == unprotected(len as int, protect_last_n as int),
            i <= cutoff <= len,
            forall|j: int|
                #![trigger history@[j]]
                0 <= j < len ==> fast_trimmed(start[j]@, history@[j]@, j < i),
            0 <= bytes_saved(start, history@, i as int),
            saved as int == capped(bytes_saved(start, history@, i as int)),
        decreases cutoff - i,
    {
        let original_len = byte_len(history[i].content.as_str());
        if history[i].has_role("tool") && original_len > FAST_TRIM_BYTES {
            let content = truncate_tool_message(history[i].content.as_str(), FAST_TRIM_BYTES);
            let new_len = byte_len(content.as_str());
            let role = string_of(history[i].role.as_str());
            let ghost prev = history@;
            history[i] = ChatMessage { role, content };
            let step = original_len.saturating_sub(new_len);
            proof {
                lemma_bytes_saved_prefix(start, prev, history@, i as int);
                assert(step as int == message_bytes_saved(start[i as int], history@[i as int]));
            }
            saved = saved.saturating_add(step);
        } else {
            proof {
                lemma_bytes_saved_prefix(start, history@, history@, i as int);
            }
        }
        i += 1;
    }
    proof {
        lemma_bytes_saved_rest(start, history@, cutoff as int, len as int);
    }
    saved
}

proof fn lemma_bytes_saved_rest(old: Seq<ChatMessage>, new: Seq<ChatMessage>, k: int, n: int)
    requires
        0 <= k <= n <= old.len() == new.len(),
        forall|j: int| k <= j < n ==> old[j]@ == new[j]@,
    ensures
        bytes_saved(old, new, n) == bytes_saved(old, new, k),
    decreases n - k,
{
    if n > k {
        lemma_bytes_saved_rest(old, new, k, n - 1);
    }
}

/// Whether `m` has the role `role`.
pub open spec fn role_is(m: ChatMessage, role: Seq<char>) -> bool {
    m.role@ == role
}

/// The messages of `s` that `remove_orphaned_tool_messages` keeps, given
/// whether the message before `s` opens or continues a tool group. A tool
/// message belongs to a group when it follows an assistant message or a
/// tool message of that group; tool messages outside any group are
/// dropped, every other message is kept.
pub open spec fn without_orphans(s: Seq<ChatMessage>, in_group: bool) -> Seq<ChatMessage>
    decreases s.len(),
{
    if s.len() == 0 {
        s
    } else if role_is(s[0], "tool"@) {
        if in_group {
            seq![s[0]] + without_orphans(s.drop_first(), true)
        } else {
            without_orphans(s.drop_first(), false)
        }
    } else {
        seq![s[0]] + without_orphans(s.drop_first(), role_is(s[0], "assistant"@))
    }
}

/// No tool message of `s` stands outside a tool group: each follows an
/// assistant message or another tool message.
pub open spec fn no_orphan_tool_messages(s: Seq<ChatMessage>) -> bool {
    forall|i: int|
        #![trigger s[i]]
        0 <= i < s.len() && role_is(s[i], "tool"@) ==> i > 0 && (role_is(s[i - 1], "assistant"@)
            || role_is(s[i - 1], "tool"@))
}

/// Whether the message just before index `i` of `s` opens or continues a
/// tool group.
pub open spec fn group_open_before(s: Seq<ChatMessage>, i: int) -> bool {
    i > 0 && (role_is(s[i - 1], "assistant"@) || role_is(s[i - 1], "tool"@))
}

/// Remove tool messages that no longer belong to a tool group (their
/// assistant message is gone), so that every remaining tool result still
/// follows the assistant turn that asked for it. Returns how many were
/// removed.
pub fn remove_orphaned_tool_messages(history: &mut Vec<ChatMessage>) -> (removed: usize)
    ensures
        final(history)@ == without_orphans(old(history)@, false),
        removed == old(history)@.len() - final(history)@.len(),
{
    let ghost start = history@;
    let n0 = history.len();
    let mut removed: usize = 0;
    let mut i: usize = 0;
    proof {
        assert(history@.subrange(0, 0) + history@.subrange(0, history@.len() as int) =~= history@);
    }
    while i < history.len()
        invariant
            i <= history@.len(),
            removed + history@.len() == start.len() == n0,
            without_orphans(start, false) == history@.subrange(0, i as int) + without_orphans(
                history@.subrange(i as int, history@.len() as int),
                group_open_before(history@, i as int),
            ),
        decreases history@.len() - i,
    {
        let ghost before = history@;
        let ghost rest = before.subrange(i as int, before.len() as int);
        assert(rest.drop_first() =~= before.subrange(i + 1, before.len() as int));
        if history[i].has_role("tool") {
            let grouped = i > 0 && (history[i - 1].has_role("assistant") || history[i - 1].has_role("tool"));
            if !grouped {
                history.remove(i);
                removed += 1;
                proof {
                    assert(history@.subrange(0, i as int) =~= before.subrange(0, i as int));
                    assert(history@.subrange(i as int, history@.len() as int) =~= rest.drop_first());
                    assert(group_open_before(history@, i as int) == group_open_before(before, i as int));
                }
                continue;
            }
        }
        proof {
            assert(before.subrange(0, i + 1) =~= before.subrange(0, i as int) + seq![before[i as int]]);
        }
        i += 1;
    }
    proof {
        assert(history@.subrange(0, i as int) =~= history@);
        assert(history@.subrange(i as int, history@.len() as int) =~= Seq::<ChatMessage>::empty());
    }
    removed
}

/// The number of tool messages at the front of `s`, counting at most `limit`.
pub open spec fn leading_tool_run(s: Seq<ChatMessage>, limit: int) -> int
    decreases s.len(),
{
    if limit <= 0 || s.len() == 0 || !role_is(s[0], "tool"@) {
        0
    } else {
        1 + leading_tool_run(s.drop_first(), limit - 1)
    }
}

/// The oldest-first drop of `emergency_history_trim`, before orphaned tool
/// messages are cleared: the messages kept and the number dropped, for
/// `s` of which the first `region` messages may be dropped and with
/// `budget` drops still wanted. System messages are kept; an assistant
/// message goes together with the tool messages right after it (within the
/// region); any other message goes alone; the scan stops once the budget is
/// spent or the region is exhausted.
pub open spec fn emergency_drop(s: Seq<ChatMessage>, region: int, budget: int) -> (Seq<ChatMessage>, int)
    decreases s.len(),
{
    if budget <= 0 || region <= 0 || s.len() == 0 {
        (s, 0)
    } else if role_is(s[0], "system"@) {
        let r = emergency_drop(s.drop_first(), region - 1, budget);
        (seq![s[0]] + r.0, r.1)
    } else if role_is(s[0], "assistant"@) {
        let k = leading_tool_run(s.drop_first(), region - 1);
        proof {
            lemma_leading_tool_run_bounds(s.drop_first(), region - 1);
        }
        let r = emergency_drop(s.subrange(1 + k, s.len() as int), region - 1 - k, budget - 1 - k);
        (r.0, r.1 + 1 + k)
    } else {
        let r = emergency_drop(s.drop_first(), region - 1, budget - 1);
        (r.0, r.1 + 1)
    }
}

pub proof fn lemma_leading_tool_run_bounds(s: Seq<ChatMessage>, limit: int)
    ensures
        0 <= leading_tool_run(s, limit),
        leading_tool_run(s, limit) <= s.len(),
        limit >= 0 ==> leading_tool_run(s, limit) <= limit,
    decreases s.len(),
{
    if limit <= 0 || s.len() == 0 || !role_is(s[0], "tool"@) {
    } else {
        lemma_leading_tool_run_bounds(s.drop_first(), limit - 1);
    }
}

proof fn lemma_leading_tool_run_is(s: Seq<ChatMessage>, limit: int, k: int)
    requires
        0 <= k <= limit,
        k <= s.len(),
        forall|j: int| 0 <= j < k ==> role_is(#[trigger] s[j], "tool"@),
        k == limit || k == s.len() || !role_is(s[k], "tool"@),
    ensures
        leading_tool_run(s, limit) == k,
    decreases k,
{
    if k > 0 {
        assert(role_is(s[0], "tool"@));
        assert forall|j: int| 0 <= j < k - 1 implies role_is(#[trigger] s.drop_first()[j], "tool"@) by {
            assert(s.drop_first()[j] == s[j + 1]);
        }
        lemma_leading_tool_run_is(s.drop_first(), limit - 1, k - 1);
    }
}

/// Emergency: drop oldest non-system, non-recent messages from history.
/// Tool groups (assistant + consecutive tool messages) are dropped
/// atomically to preserve tool_use/tool_result pairing. Aims at a third of
/// the history; the last `keep_recent` messages are not dropped by the scan.
/// Returns number of messages dropped.
pub fn emergency_history_trim(history: &mut Vec<ChatMessage>, keep_recent: usize) -> (dropped: usize)
    ensures
        ({
            let first = emergency_drop(
                old(history)@,
                unprotected(old(history)@.len() as int, keep_recent as int),
                old(history)@.len() as int / 3,
            );
            &&& final(history)@ == without_orphans(first.0, false)
            &&& dropped == old(history)@.len() - final(history)@.len()
        }),
{
    let ghost start = history@;
    let n0 = history.len();
    let mut dropped: usize = 0;
    let target_drop = n0 / 3;
    let mut i: usize = 0;
    proof {
        assert(history@.subrange(0, 0) + history@.subrange(0, history@.len() as int) =~= history@);
    }
    while dropped < target_drop && i < history.len().saturating_sub(keep_recent)
        invariant
            i <= history@.len(),
            dropped + history@.len() == n0 == start.len(),
            target_drop == n0 / 3,
            i <= unprotected(history@.len() as int, keep_recent as int),
            emergency_drop(start, unprotected(n0 as int, keep_recent as int), target_drop as int) == ({
                let r = emergency_drop(
                    history@.subrange(i as int, history@.len() as int),
                    unprotected(history@.len() as int, keep_recent as int) - i,
                    target_drop - dropped,
                );
                (history@.subrange(0, i as int) + r.0, dropped + r.1)
            }),
        decreases history@.len() - i,
    {
        let ghost before = history@;
        let ghost rest = before.subrange(i as int, before.len() as int);
        let ghost region = unprotected(before.len() as int, keep_recent as int) - i;
        assert(rest.drop_first() =~= before.subrange(i + 1, before.len() as int));
        if history[i].has_role("system") {
            proof {
                assert(before.subrange(0, i + 1) =~= before.subrange(0, i as int) + seq![before[i as int]]);
            }
            i += 1;
        } else if history[i].has_role("assistant") {
            // Count following tool messages — drop as atomic group
            let bound = history.len().saturating_sub(keep_recent);
            let mut tool_count: usize = 0;
            while i + 1 + tool_count < bound && history[i + 1 + tool_count].has_role("tool")
                invariant
                    history@ == before,
                    bound == unprotected(before.len() as int, keep_recent as int),
                    i < bound <= before.len(),
                    i + 1 + tool_count <= bound,
                    forall|j: int| 0 <= j < tool_count ==> role_is(#[trigger] before[i + 1 + j], "tool"@),
                decreases bound - tool_count,
            {
                tool_count += 1;
            }
            proof {
                assert forall|j: int| 0 <= j < tool_count implies role_is(#[trigger] rest.drop_first()[j], "tool"@) by {
                    assert(rest.drop_first()[j] == before[i + 1 + j]);
                }
                lemma_leading_tool_run_is(rest.drop_first(), region - 1, tool_count as int);
            }
            let mut c: usize = 0;
            while c <= tool_count
                invariant
                    c <= tool_count + 1,
                    i + 1 + tool_count <= before.len() <= n0,
                    history@ == before.subrange(0, i as int) + before.subrange(i + c, before.len() as int),
                    dropped + history@.len() == n0,
                decreases tool_count + 1 - c,
            {
                history.remove(i);
                dropped += 1;
                c += 1;
                proof {
                    assert(history@ =~= before.subrange(0, i as int) + before.subrange(i + c, before.len() as int));
                }
            }
            proof {
                assert(history@.subrange(0, i as int) =~= before.subrange(0, i as int));
                assert(history@.subrange(i as int, history@.len() as int) =~= rest.subrange(1 + tool_count, rest.len() as int));
            }
        } else {
            history.remove(i);
            dropped += 1;
            proof {
                assert(history@.subrange(0, i as int) =~= before.subrange(0, i as int));
                assert(history@.subrange(i as int, history@.len() as int) =~= rest.drop_first());
            }
        }
    }
    proof {
        assert(history@.subrange(0, i as int) + history@.subrange(i as int, history@.len() as int) =~= history@);
    }
    let ghost first = history@;
    let orphans = remove_orphaned_tool_messages(history);
    dropped + orphans
}

/// Whether `s` opens with a system message.
pub open spec fn starts_with_system(s: Seq<ChatMessage>) -> bool {
    s.len() > 0 && role_is(s[0], "system"@)
}

/// What `trim_history` leaves of `s` for the cap `max`: unchanged within the
/// cap; otherwise the leading system message (if any) and the last `max`
/// other messages, with tool messages orphaned by the cut removed.
pub open spec fn trimmed_history(s: Seq<ChatMessage>, max: int) -> Seq<ChatMessage> {
    let start: int = if starts_with_system(s) { 1 } else { 0 };
    if s.len() - start <= max {
        s
    } else {
        without_orphans(s.subrange(0, start) + s.subrange(s.len() - max, s.len() as int), false)
    }
}

/// Trim conversation history to prevent unbounded growth.
/// Preserves the system prompt (first message if role=system) and the most
/// recent messages.
pub fn trim_history(history: &mut Vec<ChatMessage>, max_history: usize)
    ensures
        final(history)@ == trimmed_history(old(history)@, max_history as int),
{
    // Nothing to trim if within limit
    let has_system = history.len() > 0 && history[0].has_role("system");
    let non_system_count = if has_system { history.len() - 1 } else { history.len() };
    if non_system_count <= max_history {
        return;
    }
    let start: usize = if has_system { 1 } else { 0 };
    let to_remove = non_system_count - max_history;
    let ghost before = history@;
    let mut kept_tail = history.split_off(start + to_remove);
    history.truncate(start);
    history.append(&mut kept_tail);
    proof {
        assert(history@ =~= before.subrange(0, start as int) + before.subrange(
            before.len() - max_history,
            before.len() as int,
        ));
    }
    remove_orphaned_tool_messages(history);
}

/// The rough token count of one message: a token per four bytes of content
/// (rounded up) and four tokens of framing.
pub open spec fn message_tokens(m: ChatMessage) -> int {
    (bytes_of(m.content@).len() as int + 3) / 4 + 4
}

/// The rough token count of a whole history.
pub open spec fn history_tokens(s: Seq<ChatMessage>) -> int
    decreases s.len(),
{
    if s.len() == 0 {
        0
    } else {
        history_tokens(s.drop_last()) + message_tokens(s.last())
    }
}

/// Estimate token count for a message history using ~4 chars/token
/// heuristic. Includes a small overhead per message for role/framing tokens.
pub fn estimate_history_tokens(history: &[ChatMessage]) -> (tokens: usize)
    requires
        history_tokens(history@) <= usize::MAX,
    ensures
        tokens == history_tokens(history@),
{
    let mut total: usize = 0;
    let mut i: usize = 0;
    while i < history.len()
        invariant
            i <= history@.len(),
            total == history_tokens(history@.subrange(0, i as int)),
            history_tokens(history@) <= usize::MAX,
        decreases history@.len() - i,
    {
        proof {
            assert(history@.subrange(0, (i + 1) as int).drop_last() =~= history@.subrange(0, i as int));
            lemma_history_tokens_prefix(history@, (i + 1) as int);
        }
        let len = byte_len(history[i].content.as_str());
        // ~4 chars per token + ~4 framing tokens per message (role, delimiters)
        let tokens = len / 4 + if len % 4 == 0 { 0 } else { 1 } + 4;
        total = total + tokens;
        i += 1;
    }
    proof {
        assert(history@.subrange(0, i as int) =~= history@);
    }
    total
}

/// The token estimate adds up: the estimate of two histories one after the
/// other is the sum of their estimates (and an empty history's is 0).
pub proof fn lemma_history_tokens_additive(a: Seq<ChatMessage>, b: Seq<ChatMessage>)
    ensures
        history_tokens(a + b) == history_tokens(a) + history_tokens(b),
        history_tokens(Seq::<ChatMessage>::empty()) == 0,
    decreases b.len(),
{
    if b.len() == 0 {
        assert(a + b =~= a);
    } else {
        assert((a + b).drop_last() =~= a + b.drop_last());
        assert((a + b).last() == b.last());
        lemma_history_tokens_additive(a, b.drop_last());
    }
}

proof fn lemma_history_tokens_prefix(s: Seq<ChatMessage>, n: int)
    requires
        0 <= n <= s.len(),
    ensures
        history_tokens(s.subrange(0, n)) <= history_tokens(s),
    decreases s.len(),
{
    if n < s.len() {
        assert(s.drop_last().subrange(0, n) =~= s.subrange(0, n));
        lemma_history_tokens_prefix(s.drop_last(), n);
        assert(message_tokens(s.last()) >= 0);
    } else {
        assert(s.subrange(0, n) =~= s);
    }
}

/// The persisted state of an interactive session.
pub struct InteractiveSessionState {
    pub version: u32,
    pub history: Vec<ChatMessage>,
}

impl InteractiveSessionState {
    /// The state to persist for `history`: format version 1 and a copy of
    /// the messages.
    pub fn from_history(history: &[ChatMessage]) -> (s: Self)
        ensures
            s.version == 1,
            s.history@.len() == history@.len(),
            forall|i: int| 0 <= i < history@.len() ==> (#[trigger] s.history@[i])@ == history@[i]@,
    {
        let mut copy: Vec<ChatMessage> = Vec::new();
        let mut i: usize = 0;
        while i < history.len()
            invariant
                i <= history@.len(),
                copy@.len() == i,
                forall|j: int| 0 <= j < i ==> (#[trigger] copy@[j])@ == history@[j]@,
            decreases history@.len() - i,
        {
            copy.push(history[i].duplicate());
            i += 1;
        }
        InteractiveSessionState { version: 1, history: copy }
    }
}

/// The history an interactive session resumes with: a fresh history of just
/// the system prompt when nothing was saved or the saved history is empty;
/// otherwise the saved history, with the system prompt put in front unless
/// it already opens with a system message.
pub open spec fn resumed_history(saved: Option<Seq<ChatMessage>>, system: ChatMessage) -> Seq<ChatMessage> {
    match saved {
        None => seq![system],
        Some(h) => if h.len() == 0 {
            seq![system]
        } else if role_is(h[0], "system"@) {
            h
        } else {
            seq![system] + h
        },
    }
}

/// Decide the history an interactive session starts from, given the saved
/// history (`None` when no session file exists) and the system prompt.
pub fn restore_session_history(saved: Option<Vec<ChatMessage>>, system_prompt: &str) -> (r: Vec<ChatMessage>)
    ensures
        exists|system: ChatMessage|
            system.role@ == "system"@ && system.content@ == system_prompt@ && r@ == resumed_history(
                match saved {
                    Some(h) => Some(h@),
                    None => None,
                },
                system,
            ),
{
    let system = ChatMessage::system(system_prompt);
    match saved {
        None => {
            let r = vec![system];
            assert(r@ =~= seq![system]);
            r
        },
        Some(mut history) => {
            if history.len() == 0 {
                history.push(system);
                assert(history@ =~= seq![system]);
            } else if !history[0].has_role("system") {
                let ghost before = history@;
                history.insert(0, system);
                assert(history@ =~= seq![system] + before);
            }
            history
        },
    }
}

/// The role names are distinct.
pub proof fn lemma_roles_distinct()
    ensures
        "tool"@ != "system"@,
        "tool"@ != "assistant"@,
        "assistant"@ != "system"@,
{
    reveal_strlit("tool");
    reveal_strlit("system");
    reveal_strlit("assistant");
    assert("tool"@.len() != "system"@.len());
    assert("tool"@.len() != "assistant"@.len());
    assert("assistant"@.len() != "system"@.len());
}

/// Truncation keeps at most `max` bytes of the output: a head and a tail,
/// both cut at character boundaries, joined by a marker that counts exactly
/// the bytes cut out between them (the head and tail never overlap).
pub proof fn lemma_truncation_keeps_at_most_limit(b: Seq<u8>, max: nat)
    requires
        valid_utf8(b),
        0 < max < b.len(),
    ensures
        exists|h: int, t: int|
            0 <= h < t <= b.len() && h + (b.len() - t) <= max && h <= max * 2 / 3 && is_char_boundary(b, h)
                && is_char_boundary(b, t) && #[trigger] truncated_tool_result(b, max) == b.subrange(0, h)
                + bytes_of(truncation_marker((t - h) as nat)) + b.subrange(t, b.len() as int),
{
    let head_len = max * 2 / 3;
    let tail_len = max - head_len;
    lemma_floor_boundary(b, head_len as int);
    lemma_ceil_boundary(b, b.len() - tail_len);
    let h = floor_boundary(b, head_len as int);
    let t = ceil_boundary(b, b.len() - tail_len);
    assert(h < t);
    assert(truncated_tool_result(b, max) == b.subrange(0, h) + bytes_of(truncation_marker((t - h) as nat))
        + b.subrange(t, b.len() as int));
}

/// A native tool-call message keeps its JSON envelope through truncation:
/// the result is a JSON object with the same entries, `tool_call_id` and
/// every other field (of any kind) included, and only `content` cut.
pub proof fn lemma_tool_envelope_survives(content: Seq<char>, result: Seq<char>, max: nat)
    requires
        is_tool_message_truncation(content, result, max),
        max > 0,
        bytes_of(content).len() > max,
        json_object_of(content) is Some,
        is_tool_envelope(json_object_of(content)->0),
    ensures
        json_object_of(result) is Some,
        is_tool_envelope(json_object_of(result)->0),
        json_object_of(result)->0["tool_call_id"@] == json_object_of(content)->0["tool_call_id"@],
        json_object_of(result)->0["content"@] == JsonDatum::Str(
            truncated_text(datum_text(json_object_of(content)->0["content"@]), max),
        ),
        forall|k: Seq<char>|
            k != "content"@ ==> (#[trigger] json_object_of(result)->0.dom().contains(k)
                == json_object_of(content)->0.dom().contains(k) && json_object_of(result)->0[k]
                == json_object_of(content)->0[k]),
{
    reveal_strlit("content");
    reveal_strlit("tool_call_id");
    assert("tool_call_id"@.len() != "content"@.len());
}

/// When no message grew, the bytes saved are exactly the net bytes
/// removed; so `fast_trim_tool_results` then reports that net figure
/// whenever it fits in `usize`.
pub proof fn lemma_bytes_saved_is_net_when_none_grew(old: Seq<ChatMessage>, new: Seq<ChatMessage>, n: int)
    requires
        0 <= n <= old.len(),
        n <= new.len(),
        forall|j: int| 0 <= j < n ==> bytes_of(#[trigger] new[j]@.1).len() <= bytes_of(old[j]@.1).len(),
    ensures
        bytes_saved(old, new, n) == net_bytes_removed(old, new, n),
    decreases n,
{
    if n > 0 {
        lemma_bytes_saved_is_net_when_none_grew(old, new, n - 1);
        assert(bytes_of(new[n - 1]@.1).len() <= bytes_of(old[n - 1]@.1).len());
    }
}

/// The number of system messages in `s`.
pub open spec fn system_count(s: Seq<ChatMessage>) -> nat
    decreases s.len(),
{
    if s.len() == 0 {
        0
    } else {
        system_count(s.drop_first()) + if role_is(s[0], "system"@) { 1nat } else { 0nat }
    }
}

/// Removing orphaned tool messages removes only tool messages.
pub proof fn lemma_without_orphans_keeps_system(s: Seq<ChatMessage>, g: bool)
    ensures
        system_count(without_orphans(s, g)) == system_count(s),
        without_orphans(s, g).len() <= s.len(),
    decreases s.len(),
{
    lemma_roles_distinct();
    if s.len() > 0 {
        let rest = s.drop_first();
        if role_is(s[0], "tool"@) {
            lemma_without_orphans_keeps_system(rest, g);
            assert(!role_is(s[0], "system"@));
        } else {
            lemma_without_orphans_keeps_system(rest, role_is(s[0], "assistant"@));
            let r = without_orphans(s, g);
            assert(r.drop_first() =~= without_orphans(rest, role_is(s[0], "assistant"@)));
        }
        if role_is(s[0], "tool"@) && g {
            let r = without_orphans(s, g);
            assert(r.drop_first() =~= without_orphans(rest, true));
        }
    }
}

/// After orphaned tool messages are removed, every tool message follows an
/// assistant message or another tool message.
pub proof fn lemma_without_orphans_no_orphans(s: Seq<ChatMessage>)
    ensures
        no_orphan_tool_messages(without_orphans(s, false)),
{
    lemma_without_orphans_shape(s, false);
}

/// Every tool message of `r` follows an assistant or tool message, the
/// first one following one only when `g` says so.
pub open spec fn grouped_tools(r: Seq<ChatMessage>, g: bool) -> bool {
    forall|i: int|
        #![trigger r[i]]
        0 <= i < r.len() && role_is(r[i], "tool"@) ==> if i == 0 {
            g
        } else {
            role_is(r[i - 1], "assistant"@) || role_is(r[i - 1], "tool"@)
        }
}

proof fn lemma_without_orphans_shape(s: Seq<ChatMessage>, g: bool)
    ensures
        grouped_tools(without_orphans(s, g), g),
    decreases s.len(),
{
    if s.len() > 0 {
        let rest = s.drop_first();
        let r = without_orphans(s, g);
        if role_is(s[0], "tool"@) {
            if g {
                lemma_without_orphans_shape(rest, true);
                let rr = without_orphans(rest, true);
                assert(r =~= seq![s[0]] + rr);
                assert forall|i: int| 0 <= i < r.len() && role_is(#[trigger] r[i], "tool"@) implies (if i == 0 {
                    g
                } else {
                    role_is(r[i - 1], "assistant"@) || role_is(r[i - 1], "tool"@)
                }) by {
                    if i > 0 {
                        assert(r[i] == rr[i - 1]);
                        if i > 1 {
                            assert(r[i - 1] == rr[i - 2]);
                        } else {
                            assert(r[0] == s[0]);
                        }
                    }
                }
            } else {
                lemma_without_orphans_shape(rest, false);
            }
        } else {
            let g2 = role_is(s[0], "assistant"@);
            lemma_without_orphans_shape(rest, g2);
            let rr = without_orphans(rest, g2);
            assert(r =~= seq![s[0]] + rr);
            assert forall|i: int| 0 <= i < r.len() && role_is(#[trigger] r[i], "tool"@) implies (if i == 0 {
                g
            } else {
                role_is(r[i - 1], "assistant"@) || role_is(r[i - 1], "tool"@)
            }) by {
                if i > 0 {
                    assert(r[i] == rr[i - 1]);
                    if i > 1 {
                        assert(r[i - 1] == rr[i - 2]);
                    } else {
                        assert(r[0] == s[0]);
                    }
                }
            }
        }
    }
}

/// Messages without a system role in front of position `j` do not change
/// the system count.
proof fn lemma_system_count_skip(s: Seq<ChatMessage>, j: int)
    requires
        0 <= j <= s.len(),
        forall|i: int| 0 <= i < j ==> !role_is(#[trigger] s[i], "system"@),
    ensures
        system_count(s.subrange(j, s.len() as int)) == system_count(s),
    decreases j,
{
    if j == 0 {
        assert(s.subrange(0, s.len() as int) =~= s);
    } else {
        let rest = s.drop_first();
        assert forall|i: int| 0 <= i < j - 1 implies !role_is(#[trigger] rest[i], "system"@) by {
            assert(rest[i] == s[i + 1]);
        }
        lemma_system_count_skip(rest, j - 1);
        assert(rest.subrange(j - 1, rest.len() as int) =~= s.subrange(j, s.len() as int));
        assert(!role_is(s[0], "system"@));
    }
}

proof fn lemma_leading_tool_run_tools(s: Seq<ChatMessage>, limit: int)
    ensures
        forall|i: int| 0 <= i < leading_tool_run(s, limit) ==> role_is(#[trigger] s[i], "tool"@),
    decreases s.len(),
{
    lemma_leading_tool_run_bounds(s, limit);
    if !(limit <= 0 || s.len() == 0 || !role_is(s[0], "tool"@)) {
        lemma_leading_tool_run_tools(s.drop_first(), limit - 1);
        assert forall|i: int| 0 <= i < leading_tool_run(s, limit) implies role_is(#[trigger] s[i], "tool"@) by {
            if i > 0 {
                assert(s[i] == s.drop_first()[i - 1]);
            }
        }
    }
}

/// The oldest-first drop never drops a system message.
pub proof fn lemma_emergency_drop_keeps_system(s: Seq<ChatMessage>, region: int, budget: int)
    ensures
        system_count(emergency_drop(s, region, budget).0) == system_count(s),
    decreases s.len(),
{
    lemma_roles_distinct();
    if !(budget <= 0 || region <= 0 || s.len() == 0) {
        let rest = s.drop_first();
        if role_is(s[0], "system"@) {
            lemma_emergency_drop_keeps_system(rest, region - 1, budget);
            let r = emergency_drop(rest, region - 1, budget).0;
            assert((seq![s[0]] + r).drop_first() =~= r);
        } else if role_is(s[0], "assistant"@) {
            let k = leading_tool_run(rest, region - 1);
            lemma_leading_tool_run_bounds(rest, region - 1);
            lemma_leading_tool_run_tools(rest, region - 1);
            let tail = s.subrange(1 + k, s.len() as int);
            lemma_emergency_drop_keeps_system(tail, region - 1 - k, budget - 1 - k);
            assert forall|i: int| 0 <= i < 1 + k implies !role_is(#[trigger] s[i], "system"@) by {
                if i > 0 {
                    assert(s[i] == rest[i - 1]);
                    assert(role_is(rest[i - 1], "tool"@));
                }
            }
            lemma_system_count_skip(s, 1 + k);
        } else {
            lemma_emergency_drop_keeps_system(rest, region - 1, budget - 1);
        }
    }
}

/// `f` places each message of `a` at an index of `b`, in increasing order.
pub open spec fn is_embedding(f: Seq<int>, a: Seq<ChatMessage>, b: Seq<ChatMessage>) -> bool {
    &&& f.len() == a.len()
    &&& forall|i: int| 0 <= i < f.len() ==> 0 <= #[trigger] f[i] < b.len() && a[i] == b[f[i]]
    &&& forall|i: int, j: int| 0 <= i < j < f.len() ==> #[trigger] f[i] < #[trigger] f[j]
}

/// `a` is `b` with some messages left out: every message of `a` stands in
/// `b`, in the same order.
pub open spec fn is_subsequence(a: Seq<ChatMessage>, b: Seq<ChatMessage>) -> bool {
    exists|f: Seq<int>| is_embedding(f, a, b)
}

/// The messages of `s` that are not tool messages, in order.
pub open spec fn non_tool_messages(s: Seq<ChatMessage>) -> Seq<ChatMessage>
    decreases s.len(),
{
    if s.len() == 0 {
        s
    } else if role_is(s[0], "tool"@) {
        non_tool_messages(s.drop_first())
    } else {
        seq![s[0]] + non_tool_messages(s.drop_first())
    }
}

spec fn shifted(f: Seq<int>, d: int) -> Seq<int> {
    Seq::new(f.len(), |i: int| f[i] + d)
}

proof fn lemma_embedding_shift(f: Seq<int>, a: Seq<ChatMessage>, b: Seq<ChatMessage>, d: int)
    requires
        0 <= d <= b.len(),
        is_embedding(f, a, b.subrange(d, b.len() as int)),
    ensures
        is_embedding(shifted(f, d), a, b),
{
    let g = shifted(f, d);
    assert forall|i: int| 0 <= i < g.len() implies 0 <= #[trigger] g[i] < b.len() && a[i] == b[g[i]] by {
        assert(b.subrange(d, b.len() as int)[f[i]] == b[f[i] + d]);
    }
    assert forall|i: int, j: int| 0 <= i < j < g.len() implies #[trigger] g[i] < #[trigger] g[j] by {
        assert(f[i] < f[j]);
    }
}

proof fn lemma_embedding_cons(f: Seq<int>, a: Seq<ChatMessage>, b: Seq<ChatMessage>)
    requires
        b.len() > 0,
        is_embedding(f, a, b.drop_first()),
    ensures
        is_embedding(seq![0int] + shifted(f, 1), seq![b[0]] + a, b),
{
    assert(b.drop_first() =~= b.subrange(1, b.len() as int));
    lemma_embedding_shift(f, a, b, 1);
    let g = seq![0int] + shifted(f, 1);
    let a2 = seq![b[0]] + a;
    assert forall|i: int| 0 <= i < g.len() implies 0 <= #[trigger] g[i] < b.len() && a2[i] == b[g[i]] by {
        if i > 0 {
            assert(g[i] == shifted(f, 1)[i - 1]);
            assert(a2[i] == a[i - 1]);
        }
    }
    assert forall|i: int, j: int| 0 <= i < j < g.len() implies #[trigger] g[i] < #[trigger] g[j] by {
        assert(g[j] == shifted(f, 1)[j - 1]);
        if i > 0 {
            assert(g[i] == shifted(f, 1)[i - 1]);
        } else {
            assert(shifted(f, 1)[j - 1] >= 1);
        }
    }
}

proof fn lemma_embedding_compose(f1: Seq<int>, f2: Seq<int>, a: Seq<ChatMessage>, b: Seq<ChatMessage>, c: Seq<ChatMessage>)
    requires
        is_embedding(f1, b, c),
        is_embedding(f2, a, b),
    ensures
        is_embedding(Seq::new(f2.len(), |i: int| f1[f2[i]]), a, c),
{
    let g = Seq::new(f2.len(), |i: int| f1[f2[i]]);
    assert forall|i: int| 0 <= i < g.len() implies 0 <= #[trigger] g[i] < c.len() && a[i] == c[g[i]] by {
        let k = f2[i];
        assert(0 <= k < b.len() && a[i] == b[k]);
        assert(0 <= f1[k] < c.len() && b[k] == c[f1[k]]);
    }
    assert forall|i: int, j: int| 0 <= i < j < g.len() implies #[trigger] g[i] < #[trigger] g[j] by {
        assert(f2[i] < f2[j]);
        assert(0 <= f2[j] < b.len());
        assert(0 <= f2[i]);
        assert(f1[f2[i]] < f1[f2[j]]);
    }
}

proof fn lemma_without_orphans_embedding(s: Seq<ChatMessage>, g: bool) -> (f: Seq<int>)
    ensures
        is_embedding(f, without_orphans(s, g), s),
    decreases s.len(),
{
    if s.len() == 0 {
        Seq::empty()
    } else {
        let rest = s.drop_first();
        if role_is(s[0], "tool"@) && !g {
            let f0 = lemma_without_orphans_embedding(rest, false);
            assert(rest =~= s.subrange(1, s.len() as int));
            lemma_embedding_shift(f0, without_orphans(rest, false), s, 1);
            shifted(f0, 1)
        } else {
            let g2 = if role_is(s[0], "tool"@) { true } else { role_is(s[0], "assistant"@) };
            let f0 = lemma_without_orphans_embedding(rest, g2);
            lemma_embedding_cons(f0, without_orphans(rest, g2), s);
            seq![0int] + shifted(f0, 1)
        }
    }
}

proof fn lemma_emergency_drop_embedding(s: Seq<ChatMessage>, region: int, budget: int) -> (f: Seq<int>)
    ensures
        is_embedding(f, emergency_drop(s, region, budget).0, s),
    decreases s.len(),
{
    if budget <= 0 || region <= 0 || s.len() == 0 {
        let f = Seq::new(s.len(), |i: int| i);
        f
    } else if role_is(s[0], "system"@) {
        let rest = s.drop_first();
        let f0 = lemma_emergency_drop_embedding(rest, region - 1, budget);
        lemma_embedding_cons(f0, emergency_drop(rest, region - 1, budget).0, s);
        seq![0int] + shifted(f0, 1)
    } else if role_is(s[0], "assistant"@) {
        let k = leading_tool_run(s.drop_first(), region - 1);
        lemma_leading_tool_run_bounds(s.drop_first(), region - 1);
        let tail = s.subrange(1 + k, s.len() as int);
        let f0 = lemma_emergency_drop_embedding(tail, region - 1 - k, budget - 1 - k);
        lemma_embedding_shift(f0, emergency_drop(tail, region - 1 - k, budget - 1 - k).0, s, 1 + k);
        shifted(f0, 1 + k)
    } else {
        let rest = s.drop_first();
        let f0 = lemma_emergency_drop_embedding(rest, region - 1, budget - 1);
        assert(rest =~= s.subrange(1, s.len() as int));
        lemma_embedding_shift(f0, emergency_drop(rest, region - 1, budget - 1).0, s, 1);
        shifted(f0, 1)
    }
}

proof fn lemma_emergency_drop_keeps_tail(s: Seq<ChatMessage>, region: int, budget: int)
    requires
        0 <= region <= s.len(),
    ensures
        ({
            let r = emergency_drop(s, region, budget).0;
            let t = s.len() - region;
            &&& r.len() >= t
            &&& r.subrange(r.len() - t, r.len() as int) == s.subrange(region, s.len() as int)
        }),
    decreases s.len(),
{
    let r = emergency_drop(s, region, budget).0;
    if budget <= 0 || region <= 0 || s.len() == 0 {
        assert(r.subrange(r.len() - (s.len() - region), r.len() as int) =~= s.subrange(region, s.len() as int));
    } else if role_is(s[0], "system"@) {
        let rest = s.drop_first();
        lemma_emergency_drop_keeps_tail(rest, region - 1, budget);
        let r0 = emergency_drop(rest, region - 1, budget).0;
        let t = s.len() - region;
        assert(r == seq![s[0]] + r0);
        assert(r.subrange(r.len() - t, r.len() as int) =~= r0.subrange(r0.len() - t, r0.len() as int));
        assert(rest.subrange(region - 1, rest.len() as int) =~= s.subrange(region, s.len() as int));
    } else if role_is(s[0], "assistant"@) {
        let k = leading_tool_run(s.drop_first(), region - 1);
        lemma_leading_tool_run_bounds(s.drop_first(), region - 1);
        let tail = s.subrange(1 + k, s.len() as int);
        lemma_emergency_drop_keeps_tail(tail, region - 1 - k, budget - 1 - k);
        assert(tail.subrange(region - 1 - k, tail.len() as int) =~= s.subrange(region, s.len() as int));
    } else {
        let rest = s.drop_first();
        lemma_emergency_drop_keeps_tail(rest, region - 1, budget - 1);
        assert(rest.subrange(region - 1, rest.len() as int) =~= s.subrange(region, s.len() as int));
    }
}

proof fn lemma_non_tool_messages_concat(a: Seq<ChatMessage>, b: Seq<ChatMessage>)
    ensures
        non_tool_messages(a + b) == non_tool_messages(a) + non_tool_messages(b),
    decreases a.len(),
{
    if a.len() == 0 {
        assert(a + b =~= b);
        assert(non_tool_messages(a) + non_tool_messages(b) =~= non_tool_messages(b));
    } else {
        assert((a + b).drop_first() =~= a.drop_first() + b);
        assert((a + b)[0] == a[0]);
        lemma_non_tool_messages_concat(a.drop_first(), b);
        if !role_is(a[0], "tool"@) {
            assert(seq![a[0]] + (non_tool_messages(a.drop_first()) + non_tool_messages(b)) =~= (seq![a[0]]
                + non_tool_messages(a.drop_first())) + non_tool_messages(b));
        }
    }
}

proof fn lemma_without_orphans_non_tools(s: Seq<ChatMessage>, g: bool)
    ensures
        non_tool_messages(without_orphans(s, g)) == non_tool_messages(s),
    decreases s.len(),
{
    if s.len() > 0 {
        let rest = s.drop_first();
        if role_is(s[0], "tool"@) {
            lemma_without_orphans_non_tools(rest, true);
            lemma_without_orphans_non_tools(rest, false);
            if g {
                let w = seq![s[0]] + without_orphans(rest, true);
                assert(w.drop_first() =~= without_orphans(rest, true));
            }
        } else {
            let g2 = role_is(s[0], "assistant"@);
            lemma_without_orphans_non_tools(rest, g2);
            let w = seq![s[0]] + without_orphans(rest, g2);
            assert(w.drop_first() =~= without_orphans(rest, g2));
        }
    }
}

/// Emergency trimming keeps every system message, leaves no tool message
/// outside a tool group, only leaves messages out (the result is a
/// subsequence of the history), and keeps, in order and at the end, every
/// message other than a tool message among the last `keep_recent`.
pub proof fn lemma_emergency_trim_laws(s: Seq<ChatMessage>, keep_recent: int)
    requires
        keep_recent >= 0,
    ensures
        ({
            let cut = unprotected(s.len() as int, keep_recent);
            let first = emergency_drop(s, cut, s.len() as int / 3);
            let result = without_orphans(first.0, false);
            let kept = non_tool_messages(s.subrange(cut, s.len() as int));
            let all = non_tool_messages(result);
            &&& system_count(result) == system_count(s)
            &&& no_orphan_tool_messages(result)
            &&& is_subsequence(result, s)
            &&& kept.len() <= all.len()
            &&& all.subrange(all.len() - kept.len(), all.len() as int) == kept
        }),
{
    let cut = unprotected(s.len() as int, keep_recent);
    let first = emergency_drop(s, cut, s.len() as int / 3);
    let result = without_orphans(first.0, false);
    lemma_emergency_drop_keeps_system(s, cut, s.len() as int / 3);
    lemma_without_orphans_keeps_system(first.0, false);
    lemma_without_orphans_no_orphans(first.0);
    let f1 = lemma_emergency_drop_embedding(s, cut, s.len() as int / 3);
    let f2 = lemma_without_orphans_embedding(first.0, false);
    lemma_embedding_compose(f1, f2, result, first.0, s);
    let g = Seq::new(f2.len(), |i: int| f1[f2[i]]);
    assert(is_embedding(g, result, s));
    lemma_emergency_drop_keeps_tail(s, cut, s.len() as int / 3);
    let r = first.0;
    let t = s.len() - cut;
    let x = r.subrange(0, r.len() - t);
    assert(r =~= x + s.subrange(cut, s.len() as int));
    lemma_non_tool_messages_concat(x, s.subrange(cut, s.len() as int));
    lemma_without_orphans_non_tools(r, false);
    let kept = non_tool_messages(s.subrange(cut, s.len() as int));
    let all = non_tool_messages(result);
    assert(all == non_tool_messages(x) + kept);
    assert(all.subrange(all.len() - kept.len(), all.len() as int) =~= kept);
}

/// Trimming keeps the leading system prompt, keeps at most `max` other
/// messages, and leaves no tool message outside a tool group.
pub proof fn lemma_trim_history_laws(s: Seq<ChatMessage>, max: int)
    requires
        max >= 0,
    ensures
        starts_with_system(s) ==> trimmed_history(s, max).len() > 0 && trimmed_history(s, max)[0] == s[0],
        trimmed_history(s, max) == s || trimmed_history(s, max).len() <= max + (if starts_with_system(s) {
            1int
        } else {
            0int
        }),
        trimmed_history(s, max) == s || no_orphan_tool_messages(trimmed_history(s, max)),
{
    lemma_roles_distinct();
    let start: int = if starts_with_system(s) { 1 } else { 0 };
    if s.len() - start > max {
        let kept = s.subrange(0, start) + s.subrange(s.len() - max, s.len() as int);
        lemma_without_orphans_keeps_system(kept, false);
        lemma_without_orphans_no_orphans(kept);
        if starts_with_system(s) {
            assert(kept[0] == s[0]);
            assert(!role_is(kept[0], "tool"@));
            assert(without_orphans(kept, false)[0] == kept[0]);
        }
    }
}

/// Trimming keeps the most recent messages: beyond the cap, the messages
/// other than tool messages that remain are exactly those of the leading
/// system message (if any) followed by those of the last `max` messages, in
/// order; within the cap nothing changes.
pub proof fn lemma_trim_history_keeps_recent(s: Seq<ChatMessage>, max: int)
    requires
        max >= 0,
    ensures
        ({
            let start: int = if s.len() > 0 && s[0].role@ == "system"@ { 1 } else { 0 };
            &&& s.len() - start <= max ==> trimmed_history(s, max) == s
            &&& s.len() - start > max ==> non_tool_messages(trimmed_history(s, max)) == non_tool_messages(
                s.subrange(0, start),
            ) + non_tool_messages(s.subrange(s.len() - max, s.len() as int))
        }),
{
    let start: int = if starts_with_system(s) { 1 } else { 0 };
    if s.len() - start > max {
        let a = s.subrange(0, start);
        let b = s.subrange(s.len() - max, s.len() as int);
        lemma_without_orphans_non_tools(a + b, false);
        lemma_non_tool_messages_concat(a, b);
    }
}

/// The smaller of two integers.
pub open spec fn min_of(a: int, b: int) -> int {
    if a <= b { a } else { b }
}

/// No message of `s` is a tool message.
pub open spec fn has_no_tool_messages(s: Seq<ChatMessage>) -> bool {
    forall|i: int| 0 <= i < s.len() ==> !role_is(#[trigger] s[i], "tool"@)
}

proof fn lemma_emergency_drop_count(s: Seq<ChatMessage>, region: int, budget: int)
    requires
        has_no_tool_messages(s),
        0 <= region <= s.len(),
    ensures
        emergency_drop(s, region, budget).0.len() + emergency_drop(s, region, budget).1 == s.len(),
        emergency_drop(s, region, budget).1 == min_of(
            if budget > 0 { budget } else { 0 },
            region - system_count(s.subrange(0, region)),
        ),
    decreases s.len(),
{
    let sub = s.subrange(0, region);
    if budget <= 0 || region <= 0 || s.len() == 0 {
        if region <= 0 {
            assert(sub.len() == 0);
        }
        lemma_system_count_bound(sub);
    } else {
        let rest = s.drop_first();
        assert forall|i: int| 0 <= i < rest.len() implies !role_is(#[trigger] rest[i], "tool"@) by {
            assert(rest[i] == s[i + 1]);
        }
        assert(sub.drop_first() =~= rest.subrange(0, region - 1));
        assert(sub[0] == s[0]);
        lemma_system_count_bound(rest.subrange(0, region - 1));
        if role_is(s[0], "system"@) {
            lemma_emergency_drop_count(rest, region - 1, budget);
        } else if role_is(s[0], "assistant"@) {
            if region - 1 > 0 && rest.len() > 0 {
                assert(!role_is(rest[0], "tool"@));
            }
            assert(leading_tool_run(rest, region - 1) == 0);
            assert(s.subrange(1, s.len() as int) =~= rest);
            lemma_emergency_drop_count(rest, region - 1, budget - 1);
        } else {
            lemma_emergency_drop_count(rest, region - 1, budget - 1);
        }
    }
}

proof fn lemma_system_count_bound(s: Seq<ChatMessage>)
    ensures
        system_count(s) <= s.len(),
    decreases s.len(),
{
    if s.len() > 0 {
        lemma_system_count_bound(s.drop_first());
    }
}

proof fn lemma_without_orphans_no_tools(s: Seq<ChatMessage>, g: bool)
    requires
        has_no_tool_messages(s),
    ensures
        without_orphans(s, g) == s,
    decreases s.len(),
{
    if s.len() > 0 {
        let rest = s.drop_first();
        assert forall|i: int| 0 <= i < rest.len() implies !role_is(#[trigger] rest[i], "tool"@) by {
            assert(rest[i] == s[i + 1]);
        }
        assert(!role_is(s[0], "tool"@));
        lemma_without_orphans_no_tools(rest, role_is(s[0], "assistant"@));
        assert(seq![s[0]] + rest =~= s);
    }
}

/// Every message that emergency trimming drops is charged to its budget
/// of a third of the history: in a history without tool messages it drops
/// exactly a third (rounded down) of the messages, or every message other
/// than a system message before the last `keep_recent` when those are
/// fewer.
pub proof fn lemma_emergency_trim_drops_a_third(s: Seq<ChatMessage>, keep_recent: int)
    requires
        keep_recent >= 0,
        has_no_tool_messages(s),
    ensures
        ({
            let cut = if s.len() >= keep_recent { s.len() - keep_recent } else { 0 };
            let first = emergency_drop(s, unprotected(s.len() as int, keep_recent), s.len() as int / 3);
            let result = without_orphans(first.0, false);
            s.len() - result.len() == min_of(s.len() as int / 3, cut - system_count(s.subrange(0, cut)))
        }),
{
    let cut = unprotected(s.len() as int, keep_recent);
    let budget = s.len() as int / 3;
    let first = emergency_drop(s, cut, budget);
    lemma_emergency_drop_count(s, cut, budget);
    let f = lemma_emergency_drop_embedding(s, cut, budget);
    assert forall|i: int| 0 <= i < first.0.len() implies !role_is(#[trigger] first.0[i], "tool"@) by {
        assert(first.0[i] == s[f[i]]);
    }
    lemma_without_orphans_no_tools(first.0, false);
}

/// `fast_trim_tool_results` touches only tool messages outside the
/// protected tail: any other message, whatever its length or place, stays
/// exactly as it was.
pub proof fn lemma_fast_trim_leaves_other_messages(
    before: (Seq<char>, Seq<char>),
    after: (Seq<char>, Seq<char>),
    unprotected: bool,
)
    requires
        fast_trimmed(before, after, unprotected),
    ensures
        before.0 != "tool"@ ==> after == before,
        !unprotected ==> after == before,
        bytes_of(before.1).len() <= FAST_TRIM_BYTES ==> after == before,
{
}

/// A resumed session always opens with a system message.
pub proof fn lemma_resumed_history_opens_with_system(saved: Option<Seq<ChatMessage>>, system: ChatMessage)
    requires
        role_is(system, "system"@),
    ensures
        resumed_history(saved, system).len() > 0,
        role_is(resumed_history(saved, system)[0], "system"@),
{
}

} // verus!
