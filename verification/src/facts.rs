//! Durable fact extraction: the turn buffer that decides when to extract,
//! the parsing and normalizing of `[key] content` fact lines, and the
//! screening of facts whose content was redacted.
use vstd::prelude::*;
use vstd::string::StrSliceExecFns;
use vstd::utf8::is_ascii_chars;
use crate::text::{
    alphanumeric, ascii_lower, chars_of, class_pred, is_alphanumeric, is_white_space, is_whitespace, lemma_strip_leading_at,
    lemma_strip_trailing_at, occurs_at, push_str, str_eq, string_from_range, string_of, strip, strip_bounds,
    strip_leading, strip_trailing, push_char, to_ascii_lowercase, to_lowercase, trim, trim_bounds,
    lowercase, white_space, CharClass,
};

verus! {

/// A dash or white space: what may precede the `[` of a fact line.
pub open spec fn dash_or_white_space() -> spec_fn(char) -> bool {
    |c: char| c == '-' || is_white_space(c)
}

/// The index of the first `c` in `s`; the length of `s` when there is none.
pub open spec fn first_index_of(s: Seq<char>, c: char) -> int
    decreases s.len(),
{
    if s.len() == 0 {
        0
    } else if s[0] == c {
        0
    } else {
        1 + first_index_of(s.drop_first(), c)
    }
}

proof fn lemma_first_index_of(s: Seq<char>, c: char, k: int)
    requires
        0 <= k <= s.len(),
        forall|j: int| 0 <= j < k ==> #[trigger] s[j] != c,
        k == s.len() || s[k] == c,
    ensures
        first_index_of(s, c) == k,
    decreases k,
{
    if k > 0 {
        assert(s[0] != c);
        assert forall|j: int| 0 <= j < k - 1 implies #[trigger] s.drop_first()[j] != c by {
            assert(s.drop_first()[j] == s[j + 1]);
        }
        lemma_first_index_of(s.drop_first(), c, k - 1);
    }
}

/// The key and content of a `[key] content` fact line: leading dashes and
/// white space are skipped, the key runs up to the first `]`, and both parts
/// are trimmed; `None` when the line has no such shape or either part is
/// empty.
pub open spec fn fact_line_parts(line: Seq<char>) -> Option<(Seq<char>, Seq<char>)> {
    let t = strip_leading(line, dash_or_white_space());
    if t.len() == 0 || t[0] != '[' {
        None
    } else {
        let rest = t.drop_first();
        let close = first_index_of(rest, ']');
        if close >= rest.len() {
            None
        } else {
            let key = trim(rest.subrange(0, close));
            let content = trim(rest.subrange(close + 1, rest.len() as int));
            if key.len() == 0 || content.len() == 0 {
                None
            } else {
                Some((key, content))
            }
        }
    }
}

/// Parse a `[key] content` line from the fact extraction output.
pub fn parse_fact_line<'a>(line: &'a str) -> (r: Option<(&'a str, &'a str)>)
    ensures
        r is None <==> fact_line_parts(line@) is None,
        r matches Some((key, content)) ==> fact_line_parts(line@) == Some((key@, content@)),
{
    let v = chars_of(line);
    let n = v.len();
    let mut a: usize = 0;
    while a < n && (v[a] == '-' || is_whitespace(v[a]))
        invariant
            a <= n == v@.len(),
            v@ == line@,
            forall|j: int| 0 <= j < a ==> (dash_or_white_space())(#[trigger] v@[j]),
        decreases n - a,
    {
        a += 1;
    }
    proof {
        lemma_strip_leading_at(v@, dash_or_white_space(), a as int);
    }
    let ghost t = v@.subrange(a as int, n as int);
    if a >= n || v[a] != '[' {
        return None;
    }
    let ghost rest = t.drop_first();
    assert(rest =~= v@.subrange(a + 1, n as int));
    let mut close = a + 1;
    while close < n && v[close] != ']'
        invariant
            a + 1 <= close <= n == v@.len(),
            forall|j: int| a + 1 <= j < close ==> #[trigger] v@[j] != ']',
        decreases n - close,
    {
        close += 1;
    }
    proof {
        assert forall|j: int| 0 <= j < close - a - 1 implies #[trigger] rest[j] != ']' by {
            assert(rest[j] == v@[a + 1 + j]);
        }
        lemma_first_index_of(rest, ']', close - a - 1);
    }
    if close >= n {
        return None;
    }
    let (k0, k1) = trim_bounds(&v, a + 1, close);
    let (c0, c1) = trim_bounds(&v, close + 1, n);
    proof {
        assert(rest.subrange(0, close - a - 1) =~= v@.subrange(a + 1, close as int));
        assert(rest.subrange(close - a, rest.len() as int) =~= v@.subrange(close + 1, n as int));
    }
    if k0 == k1 || c0 == c1 {
        return None;
    }
    Some((line.substring_char(k0, k1), line.substring_char(c0, c1)))
}

/// Maximum length (in chars) for a normalized fact key.
pub const FACT_KEY_MAX_LEN: usize = 64;

/// The separators of a raw key, which become `_`: white space and `-`.
pub open spec fn key_separator(c: char) -> bool {
    c == '-' || is_white_space(c)
}

/// A raw key with each separator replaced by `_`.
pub open spec fn separators_to_underscores(raw: Seq<char>) -> Seq<char> {
    raw.map_values(|c: char| if key_separator(c) { '_' } else { c })
}

/// The characters a normalized key may hold: letters, digits and `_`.
pub open spec fn kept_key_char(c: char) -> bool {
    c == '_' || alphanumeric(c)
}

/// `s` with every character other than a letter, a digit or `_` removed.
pub open spec fn key_chars(s: Seq<char>) -> Seq<char>
    decreases s.len(),
{
    if s.len() == 0 {
        s
    } else {
        let k = key_chars(s.drop_last());
        if kept_key_char(s.last()) {
            k.push(s.last())
        } else {
            k
        }
    }
}

/// `s` with every run of underscores shortened to one underscore.
pub open spec fn collapse_underscores(s: Seq<char>) -> Seq<char>
    decreases s.len(),
{
    if s.len() == 0 {
        s
    } else {
        let c = collapse_underscores(s.drop_last());
        if s.last() == '_' && c.len() > 0 && c.last() == '_' {
            c
        } else {
            c.push(s.last())
        }
    }
}

/// The normalized `snake_case` form of a fact key: separators replaced by
/// `_`, lowercased, every other character that is not a letter, digit or
/// `_` removed, runs of `_` collapsed, `_` stripped from both ends, and the
/// result cut to `FACT_KEY_MAX_LEN` characters.
pub open spec fn normalized_fact_key(raw: Seq<char>) -> Seq<char> {
    let k = strip(
        collapse_underscores(key_chars(lowercase(separators_to_underscores(raw)))),
        class_pred(CharClass::Underscore),
    );
    if k.len() > FACT_KEY_MAX_LEN {
        k.take(FACT_KEY_MAX_LEN as int)
    } else {
        k
    }
}

/// Normalize a fact key to a consistent `snake_case` form with length cap.
///
/// - Replaces whitespace/hyphens with underscores
/// - Lowercases
/// - Strips non-alphanumeric (except `_`)
/// - Collapses repeated underscores
/// - Strips underscores from both ends
/// - Truncates to [`FACT_KEY_MAX_LEN`] characters
pub fn normalize_fact_key(raw: &str) -> (r: String)
    ensures
        r@ == normalized_fact_key(raw@),
{
    let v = chars_of(raw);
    let ghost sep_all = separators_to_underscores(raw@);
    let mut sep = String::new();
    let mut i: usize = 0;
    while i < v.len()
        invariant
            i <= v@.len(),
            v@ == raw@,
            sep_all == separators_to_underscores(raw@),
            sep@ == sep_all.take(i as int),
        decreases v@.len() - i,
    {
        let c = v[i];
        let d = if c == '-' || is_whitespace(c) { '_' } else { c };
        push_char(&mut sep, d);
        proof {
            assert(sep_all.take((i + 1) as int) =~= sep_all.take(i as int).push(d));
        }
        i += 1;
    }
    proof {
        assert(sep_all.take(i as int) =~= sep_all);
    }
    let lowered = to_lowercase(sep.as_str());
    let l = chars_of(lowered.as_str());
    let mut m: Vec<char> = Vec::new();
    let mut j: usize = 0;
    while j < l.len()
        invariant
            j <= l@.len(),
            m@ == collapse_underscores(key_chars(l@.take(j as int))),
        decreases l@.len() - j,
    {
        let c = l[j];
        proof {
            assert(l@.take((j + 1) as int).drop_last() =~= l@.take(j as int));
            assert(l@.take((j + 1) as int).last() == c);
        }
        if c == '_' || is_alphanumeric(c) {
            proof {
                let kc = key_chars(l@.take(j as int));
                assert(kc.push(c).drop_last() =~= kc);
            }
            let n = m.len();
            if !(c == '_' && n > 0 && m[n - 1] == '_') {
                m.push(c);
            }
        }
        j += 1;
    }
    proof {
        assert(l@.take(j as int) =~= l@);
    }
    let (a, b) = strip_bounds(&m, 0, m.len(), CharClass::Underscore);
    proof {
        assert(m@.subrange(0, m@.len() as int) =~= m@);
    }
    let end = if b - a > FACT_KEY_MAX_LEN { a + FACT_KEY_MAX_LEN } else { b };
    proof {
        assert(m@.subrange(a as int, end as int) =~= m@.subrange(a as int, b as int).take(end - a));
    }
    string_from_range(&m, a, end)
}

/// `s` with every occurrence of `pat` taken out, scanning left to right as
/// `str::replace(pat, "")` does.
pub open spec fn remove_all(s: Seq<char>, pat: Seq<char>) -> Seq<char>
    decreases s.len(),
{
    if s.len() == 0 {
        s
    } else if pat.len() > 0 && pat.len() <= s.len() && s.take(pat.len() as int) == pat {
        remove_all(s.skip(pat.len() as int), pat)
    } else {
        seq![s[0]] + remove_all(s.drop_first(), pat)
    }
}

/// Labels that name a kind of secret: a fact that says no more than one of
/// these after redaction is only the shell of a secret.
pub open spec fn is_secret_shell_label(s: Seq<char>) -> bool {
    ||| s == "api key"@
    ||| s == "api_key"@
    ||| s == "token"@
    ||| s == "password"@
    ||| s == "secret"@
    ||| s == "credential"@
    ||| s == "access key"@
    ||| s == "access_key"@
    ||| s == "private key"@
    ||| s == "private_key"@
}

/// Whether `s` is one of the secret-shell labels.
pub fn secret_shell_label(s: &str) -> (r: bool)
    ensures
        r == is_secret_shell_label(s@),
{
    str_eq(s, "api key") || str_eq(s, "api_key") || str_eq(s, "token") || str_eq(s, "password")
        || str_eq(s, "secret") || str_eq(s, "credential") || str_eq(s, "access key")
        || str_eq(s, "access_key") || str_eq(s, "private key") || str_eq(s, "private_key")
}

/// What remains of a redacted fact: the `[REDACTED]` markers taken out,
/// white space trimmed, lowercased, and ASCII punctuation and white space
/// stripped from both ends.
pub open spec fn redaction_remainder(clean: Seq<char>) -> Seq<char> {
    strip(
        lowercase(trim(remove_all(clean, "[REDACTED]"@))),
        class_pred(CharClass::PunctuationOrWhiteSpace),
    )
}

/// Whether a fact whose content scrubbing turned from `original` into
/// `clean` should be skipped: something was redacted, and what remains is
/// empty or only a secret-shell label.
pub open spec fn skips_redacted_fact(clean: Seq<char>, original: Seq<char>) -> bool {
    clean != original && (redaction_remainder(clean).len() == 0 || is_secret_shell_label(
        redaction_remainder(clean),
    ))
}

/// Which redacted facts are skipped: none whose content was not changed by
/// scrubbing; when it was, every fact whose remainder (markers removed,
/// trimmed, lowercased, punctuation stripped) is empty or one of the ten
/// secret-shell labels, and no other.
pub proof fn lemma_skip_redacted_labels(clean: Seq<char>, original: Seq<char>)
    ensures
        clean == original ==> !skips_redacted_fact(clean, original),
        clean != original ==> (skips_redacted_fact(clean, original) <==> ({
            let r = redaction_remainder(clean);
            ||| r.len() == 0
            ||| r == "api key"@
            ||| r == "api_key"@
            ||| r == "token"@
            ||| r == "password"@
            ||| r == "secret"@
            ||| r == "credential"@
            ||| r == "access key"@
            ||| r == "access_key"@
            ||| r == "private key"@
            ||| r == "private_key"@
        })),
{
}

/// Decide whether a redacted fact should be skipped.
///
/// A fact is skipped when scrubbing removed secrets and the remaining
/// text is empty or consists solely of generic secret-type labels
/// (e.g. "api key", "token").
pub fn should_skip_redacted_fact(clean: &str, original: &str) -> (r: bool)
    ensures
        r == skips_redacted_fact(clean@, original@),
{
    // No redaction happened — always keep.
    if str_eq(clean, original) {
        return false;
    }
    let v = chars_of(clean);
    let pat = chars_of("[REDACTED]");
    proof {
        reveal_strlit("[REDACTED]");
    }
    let ghost p = pat@;
    let mut out: Vec<char> = Vec::new();
    let mut i: usize = 0;
    proof {
        assert(v@.subrange(0, v@.len() as int) =~= v@);
        assert(out@ + remove_all(v@, p) =~= remove_all(v@, p));
    }
    while i < v.len()
        invariant
            i <= v@.len(),
            v@ == clean@,
            p == pat@,
            p == "[REDACTED]"@,
            p.len() == 10,
            out@ + remove_all(v@.subrange(i as int, v@.len() as int), p) == remove_all(clean@, p),
        decreases v@.len() - i,
    {
        let ghost rest = v@.subrange(i as int, v@.len() as int);
        if occurs_at(&v, i, &pat) {
            proof {
                assert(rest.take(10) =~= v@.subrange(i as int, i + 10));
                assert(rest.skip(10) =~= v@.subrange(i + 10, v@.len() as int));
            }
            i += pat.len();
        } else {
            proof {
                assert(rest.take(10) =~= v@.subrange(i as int, i + 10) || rest.len() < 10);
                assert(rest.drop_first() =~= v@.subrange(i + 1, v@.len() as int));
                assert(out@.push(v@[i as int]) + remove_all(rest.drop_first(), p) =~= out@ + (seq![rest[0]]
                    + remove_all(rest.drop_first(), p)));
            }
            out.push(v[i]);
            i += 1;
        }
    }
    proof {
        assert(out@ + remove_all(v@.subrange(i as int, v@.len() as int), p) =~= out@);
    }
    let (a, b) = trim_bounds(&out, 0, out.len());
    proof {
        assert(out@.subrange(0, out@.len() as int) =~= out@);
    }
    let trimmed = string_from_range(&out, a, b);
    let lower = to_lowercase(trimmed.as_str());
    let lv = chars_of(lower.as_str());
    let (c, d) = strip_bounds(&lv, 0, lv.len(), CharClass::PunctuationOrWhiteSpace);
    proof {
        assert(lv@.subrange(0, lv@.len() as int) =~= lv@);
    }
    if c == d {
        return true;
    }
    let remainder = string_from_range(&lv, c, d);
    secret_shell_label(remainder.as_str())
}

/// Number of conversation turns between automatic fact extractions.
pub const EXTRACT_TURN_INTERVAL: usize = 5;

/// Minimum combined character count (user + assistant) to trigger extraction.
pub const EXTRACT_MIN_CHARS: usize = 200;

/// The characters of a sequence of (user, assistant) turns, counted as
/// Unicode scalar values.
pub open spec fn turn_chars(turns: Seq<(Seq<char>, Seq<char>)>) -> nat
    decreases turns.len(),
{
    if turns.len() == 0 {
        0
    } else {
        turn_chars(turns.drop_last()) + turns.last().0.len() + turns.last().1.len()
    }
}

/// The characters of a pair of strings.
pub open spec fn turn_view(t: (String, String)) -> (Seq<char>, Seq<char>) {
    (t.0@, t.1@)
}

/// A call that changes a turn buffer.
pub enum BufferCall {
    /// `push(user, assistant)`.
    Push(Seq<char>, Seq<char>),
    /// `drain_for_extraction()`.
    Drain,
    /// `mark_extract_success()`.
    MarkSuccess,
}

/// What a turn buffer holds: its turns, and whether the last extraction
/// was confirmed successful.
pub type BufferState = (Seq<(Seq<char>, Seq<char>)>, bool);

/// The state a call leaves a buffer in.
pub open spec fn buffer_step(s: BufferState, c: BufferCall) -> BufferState {
    match c {
        BufferCall::Push(u, a) => (s.0.push((u, a)), s.1),
        BufferCall::Drain => (Seq::empty(), false),
        BufferCall::MarkSuccess => (s.0, true),
    }
}

/// The state of a new buffer after `calls`, in order.
pub open spec fn buffer_after(calls: Seq<BufferCall>) -> BufferState
    decreases calls.len(),
{
    if calls.len() == 0 {
        (Seq::empty(), true)
    } else {
        buffer_step(buffer_after(calls.drop_last()), calls.last())
    }
}

/// Whether compaction must fall back to its own flush in state `s`.
pub open spec fn fallback_needed(s: BufferState) -> bool {
    s.0.len() > 0 || !s.1
}

/// Whether `calls` drained the buffer and no success was marked after the
/// last drain.
pub open spec fn drain_unconfirmed(calls: Seq<BufferCall>) -> bool
    decreases calls.len(),
{
    if calls.len() == 0 {
        false
    } else {
        match calls.last() {
            BufferCall::Drain => true,
            BufferCall::MarkSuccess => false,
            BufferCall::Push(_, _) => drain_unconfirmed(calls.drop_last()),
        }
    }
}

/// Over any sequence of calls on a new buffer, compaction must fall back
/// exactly when turns remain unextracted or the last drain has not been
/// confirmed successful; and whenever the buffer asks for an extraction
/// it also asks for the fallback.
pub proof fn lemma_fallback_law(calls: Seq<BufferCall>)
    ensures
        fallback_needed(buffer_after(calls)) == (buffer_after(calls).0.len() > 0 || drain_unconfirmed(calls)),
        buffer_after(calls).0.len() >= EXTRACT_TURN_INTERVAL ==> fallback_needed(buffer_after(calls)),
    decreases calls.len(),
{
    if calls.len() > 0 {
        lemma_fallback_law(calls.drop_last());
    }
}

/// Accumulates conversation turns for periodic fact extraction.
///
/// Decoupled from `history` so tool/summary messages do not affect
/// the extraction window.
pub struct TurnBuffer {
    turns: Vec<(String, String)>,
    total_chars: usize,
    last_extract_succeeded: bool,
}

impl TurnBuffer {
    /// The buffered turns, oldest first.
    pub closed spec fn turns(&self) -> Seq<(Seq<char>, Seq<char>)> {
        self.turns@.map_values(|t: (String, String)| turn_view(t))
    }

    /// Whether the last extraction was confirmed successful.
    pub closed spec fn last_extract_succeeded(&self) -> bool {
        self.last_extract_succeeded
    }

    /// The buffer's state: its turns and the success flag.
    pub open spec fn state(&self) -> BufferState {
        (self.turns(), self.last_extract_succeeded())
    }

    /// The characters held in the buffered turns.
    pub open spec fn char_count(&self) -> nat {
        turn_chars(self.turns())
    }

    /// The running character count matches the buffered turns.
    pub closed spec fn wf(&self) -> bool {
        self.total_chars == turn_chars(self.turns())
    }

    /// An empty buffer; a fresh buffer does not ask for a compaction
    /// fallback.
    pub fn new() -> (b: Self)
        ensures
            b.wf(),
            b.turns() == Seq::<(Seq<char>, Seq<char>)>::empty(),
            b.last_extract_succeeded(),
            b.state() == buffer_after(Seq::empty()),
    {
        let b = Self { turns: Vec::new(), total_chars: 0, last_extract_succeeded: true };
        assert(b.turns() =~= Seq::<(Seq<char>, Seq<char>)>::empty());
        b
    }

    /// Record a completed conversation turn.
    pub fn push(&mut self, user_msg: &str, assistant_resp: &str)
        requires
            old(self).wf(),
            old(self).char_count() + user_msg@.len() + assistant_resp@.len() <= usize::MAX,
        ensures
            final(self).wf(),
            final(self).turns() == old(self).turns().push((user_msg@, assistant_resp@)),
            final(self).last_extract_succeeded() == old(self).last_extract_succeeded(),
            final(self).state() == buffer_step(old(self).state(), BufferCall::Push(user_msg@, assistant_resp@)),
    {
        let added = user_msg.unicode_len() + assistant_resp.unicode_len();
        self.total_chars = self.total_chars + added;
        let ghost before = self.turns@;
        self.turns.push((string_of(user_msg), string_of(assistant_resp)));
        proof {
            assert(self.turns@.map_values(|t: (String, String)| turn_view(t)) =~= before.map_values(
                |t: (String, String)| turn_view(t),
            ).push((user_msg@, assistant_resp@)));
            assert(self.turns().drop_last() =~= old(self).turns());
        }
    }

    /// Whether the buffer has accumulated enough turns and content to
    /// justify an extraction call.
    pub fn should_extract(&self) -> (r: bool)
        requires
            self.wf(),
        ensures
            r == (self.turns().len() >= EXTRACT_TURN_INTERVAL && self.char_count() >= EXTRACT_MIN_CHARS),
    {
        self.turns.len() >= EXTRACT_TURN_INTERVAL && self.total_chars >= EXTRACT_MIN_CHARS
    }

    /// Drain all buffered turns and return them for extraction.
    /// Resets character counter; `last_extract_succeeded` is cleared
    /// until the caller confirms success via `mark_extract_success`.
    pub fn drain_for_extraction(&mut self) -> (drained: Vec<(String, String)>)
        requires
            old(self).wf(),
        ensures
            final(self).wf(),
            drained@.map_values(|t: (String, String)| turn_view(t)) == old(self).turns(),
            final(self).turns() == Seq::<(Seq<char>, Seq<char>)>::empty(),
            !final(self).last_extract_succeeded(),
            final(self).state() == buffer_step(old(self).state(), BufferCall::Drain),
    {
        let mut drained: Vec<(String, String)> = Vec::new();
        std::mem::swap(&mut drained, &mut self.turns);
        self.total_chars = 0;
        self.last_extract_succeeded = false;
        assert(self.turns() =~= Seq::<(Seq<char>, Seq<char>)>::empty());
        drained
    }

    /// Mark the most recent extraction as successful.
    pub fn mark_extract_success(&mut self)
        requires
            old(self).wf(),
        ensures
            final(self).wf(),
            final(self).turns() == old(self).turns(),
            final(self).last_extract_succeeded(),
            final(self).state() == buffer_step(old(self).state(), BufferCall::MarkSuccess),
    {
        self.last_extract_succeeded = true;
    }

    /// Whether there are buffered turns that have not been extracted.
    pub fn is_empty(&self) -> (r: bool)
        ensures
            r == (self.turns().len() == 0),
    {
        self.turns.is_empty()
    }

    /// Whether compaction should fall back to its own durable-fact flush.
    /// This returns `true` when un-extracted turns remain **or** the last
    /// extraction failed (so durable facts may have been lost).
    pub fn needs_compaction_fallback(&self) -> (r: bool)
        ensures
            r == (self.turns().len() > 0 || !self.last_extract_succeeded()),
            r == fallback_needed(self.state()),
    {
        !self.turns.is_empty() || !self.last_extract_succeeded
    }
}

/// Safety cap for durable facts stored from one extraction or flush.
pub const COMPACTION_MAX_FLUSH_FACTS: usize = 8;

/// Safety cap (in chars) for the fact-extraction transcript sent to the LLM.
pub const EXTRACT_MAX_SOURCE_CHARS: usize = 12_000;

/// The transcript of buffered turns that is shown to the fact extractor:
/// each turn as a `USER:` line and an `ASSISTANT:` line, both trimmed,
/// followed by a blank line.
pub open spec fn transcript_of(turns: Seq<(Seq<char>, Seq<char>)>) -> Seq<char>
    decreases turns.len(),
{
    if turns.len() == 0 {
        Seq::empty()
    } else {
        transcript_of(turns.drop_last()) + "USER: "@ + trim(turns.last().0) + "\nASSISTANT: "@ + trim(
            turns.last().1,
        ) + "\n\n"@
    }
}

/// A transcript lists the turns in conversation order, oldest first: the
/// transcript of two runs of turns one after the other is the first run's
/// transcript followed by the second's, and a single turn is written as its
/// trimmed `USER:` and `ASSISTANT:` lines and a blank line.
pub proof fn lemma_transcript_in_order(a: Seq<(Seq<char>, Seq<char>)>, b: Seq<(Seq<char>, Seq<char>)>)
    ensures
        transcript_of(a + b) == transcript_of(a) + transcript_of(b),
        transcript_of(Seq::<(Seq<char>, Seq<char>)>::empty()) == Seq::<char>::empty(),
        b.len() == 1 ==> transcript_of(b) == "USER: "@ + trim(b[0].0) + "\nASSISTANT: "@ + trim(b[0].1)
            + "\n\n"@,
    decreases b.len(),
{
    if b.len() == 0 {
        assert(a + b =~= a);
        assert(transcript_of(a) + transcript_of(b) =~= transcript_of(a));
    } else {
        assert((a + b).drop_last() =~= a + b.drop_last());
        assert((a + b).last() == b.last());
        lemma_transcript_in_order(a, b.drop_last());
        let t = b.last();
        let tail = "USER: "@ + trim(t.0) + "\nASSISTANT: "@ + trim(t.1) + "\n\n"@;
        assert(transcript_of(a + b) == transcript_of(a + b.drop_last()) + "USER: "@ + trim(t.0) + "\nASSISTANT: "@
            + trim(t.1) + "\n\n"@);
        assert(transcript_of(a + b.drop_last()) + "USER: "@ + trim(t.0) + "\nASSISTANT: "@ + trim(t.1) + "\n\n"@
            =~= transcript_of(a + b.drop_last()) + tail);
        assert(transcript_of(b) == transcript_of(b.drop_last()) + "USER: "@ + trim(t.0) + "\nASSISTANT: "@ + trim(
            t.1,
        ) + "\n\n"@);
        assert(transcript_of(b.drop_last()) + "USER: "@ + trim(t.0) + "\nASSISTANT: "@ + trim(t.1) + "\n\n"@
            =~= transcript_of(b.drop_last()) + tail);
        assert(transcript_of(a) + transcript_of(b.drop_last()) + tail =~= transcript_of(a) + (transcript_of(
            b.drop_last(),
        ) + tail));
        if b.len() == 1 {
            assert(b.drop_last().len() == 0);
            assert(Seq::<char>::empty() + tail =~= tail);
        }
    }
}

/// `s` cut to its first `max` characters, trailing white space dropped and
/// `...` appended, when it is longer than `max`; `s` itself otherwise.
pub open spec fn ellipsized(s: Seq<char>, max: nat) -> Seq<char> {
    if s.len() > max {
        strip_trailing(s.take(max as int), white_space()) + "..."@
    } else {
        s
    }
}

/// Truncate a string to at most `max_chars` characters, appending "..." if
/// truncated (trailing white space before the cut is dropped).
pub fn truncate_with_ellipsis(s: &str, max_chars: usize) -> (r: String)
    ensures
        r@ == ellipsized(s@, max_chars as nat),
{
    let v = chars_of(s);
    if v.len() <= max_chars {
        return string_of(s);
    }
    let mut b = max_chars;
    while b > 0 && is_whitespace(v[b - 1])
        invariant
            b <= max_chars < v@.len(),
            forall|j: int| b <= j < max_chars ==> is_white_space(#[trigger] v@[j]),
        decreases b,
    {
        b -= 1;
    }
    proof {
        let t = v@.take(max_chars as int);
        assert forall|j: int| b <= j < t.len() implies (white_space())(#[trigger] t[j]) by {
            assert(t[j] == v@[j]);
        }
        lemma_strip_trailing_at(t, white_space(), b as int);
        assert(t.subrange(0, b as int) =~= v@.subrange(0, b as int));
    }
    let mut r = string_from_range(&v, 0, b);
    push_str(&mut r, "...");
    r
}

/// The transcript handed to the fact extractor, when the turns are worth an
/// extraction: `None` when there are no turns or fewer than
/// `EXTRACT_MIN_CHARS` characters in them; otherwise their transcript, cut
/// with an ellipsis to `EXTRACT_MAX_SOURCE_CHARS` characters.
pub open spec fn extraction_transcript(turns: Seq<(Seq<char>, Seq<char>)>) -> Option<Seq<char>> {
    if turns.len() == 0 || turn_chars(turns) < EXTRACT_MIN_CHARS {
        None
    } else {
        Some(ellipsized(transcript_of(turns), EXTRACT_MAX_SOURCE_CHARS as nat))
    }
}

/// Build the extraction transcript from buffered turns; `None` when the
/// turns are empty or too short to extract from.
pub fn prepare_extraction(turns: &[(String, String)]) -> (r: Option<String>)
    requires
        turn_chars(turns@.map_values(|t: (String, String)| turn_view(t))) <= usize::MAX,
    ensures
        r matches Some(t) ==> extraction_transcript(turns@.map_values(|t: (String, String)| turn_view(t)))
            == Some(t@),
        r is None ==> extraction_transcript(turns@.map_values(|t: (String, String)| turn_view(t))) is None,
{
    let ghost tv = turns@.map_values(|t: (String, String)| turn_view(t));
    if turns.len() == 0 {
        return None;
    }
    // Build transcript from buffered turns.
    let mut transcript = String::new();
    let mut total: usize = 0;
    let mut i: usize = 0;
    while i < turns.len()
        invariant
            i <= turns@.len(),
            tv == turns@.map_values(|t: (String, String)| turn_view(t)),
            turn_chars(tv) <= usize::MAX,
            transcript@ == transcript_of(tv.take(i as int)),
            total == turn_chars(tv.take(i as int)),
        decreases turns@.len() - i,
    {
        proof {
            assert(tv.take((i + 1) as int).drop_last() =~= tv.take(i as int));
            lemma_turn_chars_prefix(tv, (i + 1) as int);
        }
        let user = chars_of(turns[i].0.as_str());
        let assistant = chars_of(turns[i].1.as_str());
        let (u0, u1) = trim_bounds(&user, 0, user.len());
        let (a0, a1) = trim_bounds(&assistant, 0, assistant.len());
        proof {
            assert(user@.subrange(0, user@.len() as int) =~= user@);
            assert(assistant@.subrange(0, assistant@.len() as int) =~= assistant@);
        }
        push_str(&mut transcript, "USER: ");
        push_str(&mut transcript, string_from_range(&user, u0, u1).as_str());
        push_str(&mut transcript, "\nASSISTANT: ");
        push_str(&mut transcript, string_from_range(&assistant, a0, a1).as_str());
        push_str(&mut transcript, "\n\n");
        total = total + user.len() + assistant.len();
        i += 1;
    }
    proof {
        assert(tv.take(i as int) =~= tv);
    }
    if total < EXTRACT_MIN_CHARS {
        return None;
    }
    // Truncate to avoid oversized LLM prompts with very long messages.
    Some(truncate_with_ellipsis(transcript.as_str(), EXTRACT_MAX_SOURCE_CHARS))
}

proof fn lemma_turn_chars_prefix(s: Seq<(Seq<char>, Seq<char>)>, n: int)
    requires
        0 <= n <= s.len(),
    ensures
        turn_chars(s.take(n)) <= turn_chars(s),
    decreases s.len(),
{
    if n < s.len() {
        assert(s.drop_last().take(n) =~= s.take(n));
        lemma_turn_chars_prefix(s.drop_last(), n);
    } else {
        assert(s.take(n) =~= s);
    }
}

/// Maximum characters for the "already known facts" section of the
/// extraction prompt.
pub const KNOWN_SECTION_MAX_CHARS: usize = 2_000;

/// The line of the known-facts section for one recalled memory.
pub open spec fn known_line(key: Seq<char>, content: Seq<char>) -> Seq<char> {
    "- "@ + key + ": "@ + content + "\n"@
}

/// The known-facts section grown from `acc` by the entries: each entry's
/// line is added while the section stays within `KNOWN_SECTION_MAX_CHARS`;
/// the first line that would overflow it is replaced by a truncation note
/// and ends the section.
pub open spec fn known_lines(acc: Seq<char>, entries: Seq<(Seq<char>, Seq<char>)>) -> Seq<char>
    decreases entries.len(),
{
    if entries.len() == 0 {
        acc
    } else {
        let line = known_line(entries[0].0, entries[0].1);
        if acc.len() + line.len() > KNOWN_SECTION_MAX_CHARS {
            acc + "- ... (truncated)\n"@
        } else {
            known_lines(acc + line, entries.drop_first())
        }
    }
}

/// The heading of the known-facts section.
pub open spec fn known_section_heading() -> Seq<char> {
    "\nYou already know these facts (do NOT repeat them; use the SAME key if a fact needs updating):\n"@
}

/// The known-facts section for recalled (key, content) memories: empty when
/// nothing was recalled.
pub open spec fn known_section(entries: Seq<(Seq<char>, Seq<char>)>) -> Seq<char> {
    if entries.len() == 0 {
        Seq::empty()
    } else {
        known_lines(known_section_heading(), entries)
    }
}

/// Build the "already known facts" section of the extraction prompt from
/// recalled (key, content) memories, bounded in size.
pub fn build_known_section(entries: &[(String, String)]) -> (r: String)
    ensures
        r@ == known_section(entries@.map_values(|t: (String, String)| turn_view(t))),
{
    let ghost ev = entries@.map_values(|t: (String, String)| turn_view(t));
    let mut known = String::new();
    if entries.len() == 0 {
        return known;
    }
    push_str(
        &mut known,
        "\nYou already know these facts (do NOT repeat them; use the SAME key if a fact needs updating):\n",
    );
    let mut i: usize = 0;
    proof {
        assert(known@ =~= known_section_heading());
        assert(ev.skip(0) =~= ev);
    }
    while i < entries.len()
        invariant
            i <= entries@.len(),
            ev == entries@.map_values(|t: (String, String)| turn_view(t)),
            known_lines(known_section_heading(), ev) == known_lines(known@, ev.skip(i as int)),
        decreases entries@.len() - i,
    {
        let mut line = String::new();
        push_str(&mut line, "- ");
        push_str(&mut line, entries[i].0.as_str());
        push_str(&mut line, ": ");
        push_str(&mut line, entries[i].1.as_str());
        push_str(&mut line, "\n");
        let ghost rest = ev.skip(i as int);
        proof {
            assert(rest[0] == turn_view(entries@[i as int]));
            assert(rest.drop_first() =~= ev.skip(i + 1));
        }
        let known_len = known.as_str().unicode_len();
        let line_len = line.as_str().unicode_len();
        if known_len as u128 + line_len as u128 > KNOWN_SECTION_MAX_CHARS as u128 {
            push_str(&mut known, "- ... (truncated)\n");
            return known;
        }
        push_str(&mut known, line.as_str());
        i += 1;
    }
    proof {
        assert(ev.skip(i as int) =~= Seq::<(Seq<char>, Seq<char>)>::empty());
    }
    known
}

/// The extraction system prompt around the known-facts section.
pub open spec fn extraction_system_prompt_text(known: Seq<char>) -> Seq<char> {
    "You extract durable facts from a conversation. Output ONLY facts worth remembering long-term \u{2014} user preferences, project decisions, technical constraints, commitments, or important discoveries.\n\nNEVER extract secrets, API keys, tokens, passwords, credentials, or any sensitive authentication data. If the conversation contains such data, skip it entirely.\n"@
        + known
        + "\nOutput one fact per line, prefixed with a short key in brackets.\nExample:\n[preferred_language] User prefers Rust over Go\n[db_choice] Project uses PostgreSQL 16\nIf there are no new durable facts, output exactly: NONE"@
}

/// The system prompt of post-turn fact extraction, with the known-facts
/// section in place.
pub fn extraction_system_prompt(known_section: &str) -> (r: String)
    ensures
        r@ == extraction_system_prompt_text(known_section@),
{
    let mut r = String::new();
    push_str(
        &mut r,
        "You extract durable facts from a conversation. Output ONLY facts worth remembering long-term \u{2014} user preferences, project decisions, technical constraints, commitments, or important discoveries.\n\nNEVER extract secrets, API keys, tokens, passwords, credentials, or any sensitive authentication data. If the conversation contains such data, skip it entirely.\n",
    );
    push_str(&mut r, known_section);
    push_str(
        &mut r,
        "\nOutput one fact per line, prefixed with a short key in brackets.\nExample:\n[preferred_language] User prefers Rust over Go\n[db_choice] Project uses PostgreSQL 16\nIf there are no new durable facts, output exactly: NONE",
    );
    r
}

/// The user prompt that asks for at most `COMPACTION_MAX_FLUSH_FACTS` facts
/// from a transcript.
pub open spec fn fact_request_text(transcript: Seq<char>) -> Seq<char> {
    "Extract durable facts from this conversation (max 8 facts):\n\n"@ + transcript
}

/// The user prompt of an extraction or a pre-compaction flush.
pub fn fact_request_prompt(transcript: &str) -> (r: String)
    ensures
        r@ == fact_request_text(transcript@),
{
    let mut r = String::new();
    push_str(&mut r, "Extract durable facts from this conversation (max 8 facts):\n\n");
    push_str(&mut r, transcript);
    r
}

/// The system prompt of the pre-compaction durable-fact flush.
pub open spec fn flush_system_prompt_text() -> Seq<char> {
    "You extract durable facts from a conversation that is about to be compacted. Output ONLY facts worth remembering long-term \u{2014} user preferences, project decisions, technical constraints, commitments, or important discoveries.\n\nNEVER extract secrets, API keys, tokens, passwords, credentials, or any sensitive authentication data. If the conversation contains such data, skip it entirely.\n\nOutput one fact per line, prefixed with a short key in brackets. Example:\n[preferred_language] User prefers Rust over Go\n[db_choice] Project uses PostgreSQL 16\nIf there are no durable facts, output exactly: NONE"@
}

/// The system prompt of the pre-compaction durable-fact flush.
pub fn flush_system_prompt() -> (r: String)
    ensures
        r@ == flush_system_prompt_text(),
{
    string_of(
        "You extract durable facts from a conversation that is about to be compacted. Output ONLY facts worth remembering long-term \u{2014} user preferences, project decisions, technical constraints, commitments, or important discoveries.\n\nNEVER extract secrets, API keys, tokens, passwords, credentials, or any sensitive authentication data. If the conversation contains such data, skip it entirely.\n\nOutput one fact per line, prefixed with a short key in brackets. Example:\n[preferred_language] User prefers Rust over Go\n[db_choice] Project uses PostgreSQL 16\nIf there are no durable facts, output exactly: NONE",
    )
}

/// How the extractor's reply reads before its lines are looked at.
#[derive(Debug, PartialEq, Eq)]
pub enum ExtractionReply {
    /// The reply is `NONE` (any ASCII case): there are no new facts.
    NoneDeclared,
    /// The reply is empty or white space: treated as a failure.
    Blank,
    /// The reply has lines that may hold facts.
    Facts,
}

/// Whether `t` is the word `NONE` in any ASCII case.
pub open spec fn is_none_word(t: Seq<char>) -> bool {
    t.len() == 4 && ascii_lower(t[0]) == 'n' && ascii_lower(t[1]) == 'o' && ascii_lower(t[2]) == 'n'
        && ascii_lower(t[3]) == 'e'
}

/// How a reply is classified: by its trimmed text.
pub open spec fn reply_kind(reply: Seq<char>) -> ExtractionReply {
    if is_none_word(trim(reply)) {
        ExtractionReply::NoneDeclared
    } else if trim(reply).len() == 0 {
        ExtractionReply::Blank
    } else {
        ExtractionReply::Facts
    }
}

/// Classify the extractor's reply: `NONE`, blank, or lines to parse.
pub fn classify_reply(response: &str) -> (r: ExtractionReply)
    ensures
        r == reply_kind(response@),
{
    let v = chars_of(response);
    let (a, b) = trim_bounds(&v, 0, v.len());
    proof {
        assert(v@.subrange(0, v@.len() as int) =~= v@);
    }
    if b - a == 4 && to_ascii_lowercase(v[a]) == 'n' && to_ascii_lowercase(v[a + 1]) == 'o'
        && to_ascii_lowercase(v[a + 2]) == 'n' && to_ascii_lowercase(v[a + 3]) == 'e' {
        ExtractionReply::NoneDeclared
    } else if a == b {
        ExtractionReply::Blank
    } else {
        ExtractionReply::Facts
    }
}

/// The trimmed line `l`, as a list of one, unless it is empty.
pub open spec fn kept_line(l: Seq<char>) -> Seq<Seq<char>> {
    if trim(l).len() > 0 {
        seq![trim(l)]
    } else {
        Seq::empty()
    }
}

/// The trimmed, non-empty lines of `cur + s`, where `cur` is the part of
/// the current line already read.
pub open spec fn reply_lines(s: Seq<char>, cur: Seq<char>) -> Seq<Seq<char>>
    decreases s.len(),
{
    if s.len() == 0 {
        kept_line(cur)
    } else if s[0] == '\n' {
        kept_line(cur) + reply_lines(s.drop_first(), Seq::empty())
    } else {
        reply_lines(s.drop_first(), cur.push(s[0]))
    }
}

/// The trimmed, non-empty lines of the extractor's reply, in order.
pub fn fact_lines(response: &str) -> (r: Vec<String>)
    ensures
        r@.map_values(|l: String| l@) == reply_lines(response@, Seq::empty()),
{
    let v = chars_of(response);
    let n = v.len();
    let mut out: Vec<String> = Vec::new();
    let mut start: usize = 0;
    let mut i: usize = 0;
    proof {
        assert(v@.subrange(0, n as int) =~= v@);
        assert(v@.subrange(0, 0) =~= Seq::<char>::empty());
        assert(out@.map_values(|l: String| l@) + reply_lines(v@, Seq::empty()) =~= reply_lines(
            v@,
            Seq::empty(),
        ));
    }
    while i < n
        invariant
            start <= i <= n == v@.len(),
            v@ == response@,
            out@.map_values(|l: String| l@) + reply_lines(
                v@.subrange(i as int, n as int),
                v@.subrange(start as int, i as int),
            ) == reply_lines(response@, Seq::empty()),
        decreases n - i,
    {
        let ghost rest = v@.subrange(i as int, n as int);
        proof {
            assert(rest.drop_first() =~= v@.subrange(i + 1, n as int));
        }
        if v[i] == '\n' {
            let (a, b) = trim_bounds(&v, start, i);
            let ghost before = out@.map_values(|l: String| l@);
            if a < b {
                out.push(string_from_range(&v, a, b));
            }
            proof {
                assert(out@.map_values(|l: String| l@) =~= before + kept_line(
                    v@.subrange(start as int, i as int),
                ));
                assert(v@.subrange(i + 1, i + 1) =~= Seq::<char>::empty());
            }
            start = i + 1;
        } else {
            proof {
                assert(v@.subrange(start as int, i + 1) =~= v@.subrange(start as int, i as int).push(v@[i as int]));
            }
        }
        i += 1;
    }
    let (a, b) = trim_bounds(&v, start, n);
    let ghost before = out@.map_values(|l: String| l@);
    if a < b {
        out.push(string_from_range(&v, a, b));
    }
    proof {
        assert(out@.map_values(|l: String| l@) =~= before + kept_line(v@.subrange(start as int, n as int)));
    }
    out
}

/// The memory key under which a parsed fact is stored: `auto_` and the
/// normalized key; `None` when the fact is skipped because only a secret
/// shell remains after redaction, or when the key normalizes to nothing.
pub open spec fn fact_memory_key_of(key: Seq<char>, clean: Seq<char>, original: Seq<char>) -> Option<Seq<char>> {
    if skips_redacted_fact(clean, original) || normalized_fact_key(key).len() == 0 {
        None
    } else {
        Some("auto_"@ + normalized_fact_key(key))
    }
}

/// The memory key for a parsed fact whose content scrubbing turned from
/// `original` into `clean`, or `None` when the fact is not to be stored.
pub fn fact_memory_key(key: &str, clean: &str, original: &str) -> (r: Option<String>)
    ensures
        r matches Some(k) ==> fact_memory_key_of(key@, clean@, original@) == Some(k@),
        r is None ==> fact_memory_key_of(key@, clean@, original@) is None,
{
    if should_skip_redacted_fact(clean, original) {
        return None;
    }
    let norm_key = normalize_fact_key(key);
    if norm_key.as_str().unicode_len() == 0 {
        return None;
    }
    let mut prefixed = string_of("auto_");
    push_str(&mut prefixed, norm_key.as_str());
    Some(prefixed)
}

/// Outcome of a single extraction attempt.
pub struct ExtractionResult {
    /// Number of facts successfully stored to Core memory.
    pub stored: usize,
    /// `true` when the LLM confirmed there are no new facts (or all parsed
    /// facts were intentionally skipped). `false` on LLM/store failures.
    pub no_facts: bool,
}

impl ExtractionResult {
    /// Nothing stored and no new facts: the result when there was nothing
    /// to extract or the model answered `NONE`.
    pub fn no_new_facts() -> (r: ExtractionResult)
        ensures
            r.stored == 0,
            r.no_facts,
    {
        ExtractionResult { stored: 0, no_facts: true }
    }

    /// Nothing stored, and the attempt failed: the result when the model
    /// call failed or its reply was blank.
    pub fn failed() -> (r: ExtractionResult)
        ensures
            r.stored == 0,
            !r.no_facts,
    {
        ExtractionResult { stored: 0, no_facts: false }
    }
}

/// What a post-turn extraction returns once the model has answered, where
/// the answer alone decides it (`reply` is `None` when the call failed): a
/// failed call or a blank reply is a failure, a `NONE` reply means there are
/// no new facts; `None` when the reply lists facts, which are then to be
/// stored.
pub fn extraction_reply_outcome(reply: Option<&str>) -> (r: Option<ExtractionResult>)
    ensures
        match reply {
            None => r matches Some(x) && x.stored == 0 && !x.no_facts,
            Some(t) => match reply_kind(t@) {
                ExtractionReply::NoneDeclared => r matches Some(x) && x.stored == 0 && x.no_facts,
                ExtractionReply::Blank => r matches Some(x) && x.stored == 0 && !x.no_facts,
                ExtractionReply::Facts => r is None,
            },
        },
{
    match reply {
        None => Some(ExtractionResult::failed()),
        Some(t) => match classify_reply(t) {
            ExtractionReply::NoneDeclared => Some(ExtractionResult::no_new_facts()),
            ExtractionReply::Blank => Some(ExtractionResult::failed()),
            ExtractionReply::Facts => None,
        },
    }
}

/// What a pre-compaction flush returns once the model has answered, where
/// the answer alone decides it (`reply` is `None` when the call failed): a
/// failed call or a blank reply is a failure (`false`), a `NONE` reply is a
/// success (`true`); `None` when the reply lists facts, which are then to be
/// stored.
pub fn flush_reply_outcome(reply: Option<&str>) -> (r: Option<bool>)
    ensures
        match reply {
            None => r == Some(false),
            Some(t) => match reply_kind(t@) {
                ExtractionReply::NoneDeclared => r == Some(true),
                ExtractionReply::Blank => r == Some(false),
                ExtractionReply::Facts => r is None,
            },
        },
{
    match reply {
        None => Some(false),
        Some(t) => match classify_reply(t) {
            ExtractionReply::NoneDeclared => Some(true),
            ExtractionReply::Blank => Some(false),
            ExtractionReply::Facts => None,
        },
    }
}

/// The running count of an extraction's fact lines: parsed, stored, and
/// failed to store.
pub struct FactTally {
    pub stored: usize,
    pub parsed: usize,
    pub store_failures: usize,
}

impl FactTally {
    /// Nothing parsed yet.
    pub fn new() -> (t: Self)
        ensures
            t.stored == 0 && t.parsed == 0 && t.store_failures == 0,
    {
        FactTally { stored: 0, parsed: 0, store_failures: 0 }
    }

    /// Whether the cap of stored facts is reached; no more lines are read.
    pub fn is_full(&self) -> (r: bool)
        ensures
            r == (self.stored >= COMPACTION_MAX_FLUSH_FACTS),
    {
        self.stored >= COMPACTION_MAX_FLUSH_FACTS
    }

    /// Count a line that parsed as a fact.
    pub fn record_parsed(&mut self)
        requires
            old(self).parsed < usize::MAX,
        ensures
            final(self).parsed == old(self).parsed + 1,
            final(self).stored == old(self).stored,
            final(self).store_failures == old(self).store_failures,
    {
        self.parsed = self.parsed + 1;
    }

    /// Count the outcome of storing a fact.
    pub fn record_store(&mut self, ok: bool)
        requires
            old(self).stored < usize::MAX,
            old(self).store_failures < usize::MAX,
        ensures
            final(self).parsed == old(self).parsed,
            final(self).stored == old(self).stored + if ok { 1int } else { 0 },
            final(self).store_failures == old(self).store_failures + if ok { 0int } else { 1 },
    {
        if ok {
            self.stored = self.stored + 1;
        } else {
            self.store_failures = self.store_failures + 1;
        }
    }

    /// The result of a post-turn extraction: `no_facts` only when facts were
    /// parsed, none was stored and no store failed (all were skipped);
    /// unparseable output or store failures keep the fallback active.
    pub fn extraction_result(&self) -> (r: ExtractionResult)
        ensures
            r.stored == self.stored,
            r.no_facts == (self.parsed > 0 && self.stored == 0 && self.store_failures == 0),
    {
        ExtractionResult {
            stored: self.stored,
            no_facts: self.parsed > 0 && self.stored == 0 && self.store_failures == 0,
        }
    }

    /// Whether a pre-compaction flush succeeded: facts were parsed and none
    /// failed to store.
    pub fn flush_succeeded(&self) -> (r: bool)
        ensures
            r == (self.parsed > 0 && self.store_failures == 0),
    {
        self.parsed > 0 && self.store_failures == 0
    }
}

/// The index of the first line at or after `pos` that parses as a fact;
/// the number of lines when there is none.
pub open spec fn next_fact_line(lines: Seq<Seq<char>>, pos: int) -> int
    decreases lines.len() - pos,
{
    if pos >= lines.len() {
        lines.len() as int
    } else if pos < 0 {
        next_fact_line(lines, 0)
    } else if fact_line_parts(lines[pos]) is Some {
        pos
    } else {
        next_fact_line(lines, pos + 1)
    }
}

proof fn lemma_next_fact_line(lines: Seq<Seq<char>>, pos: int)
    requires
        0 <= pos <= lines.len(),
    ensures
        pos <= next_fact_line(lines, pos) <= lines.len(),
        next_fact_line(lines, pos) < lines.len() ==> fact_line_parts(lines[next_fact_line(lines, pos)]) is Some,
    decreases lines.len() - pos,
{
    if pos < lines.len() && fact_line_parts(lines[pos]) is None {
        lemma_next_fact_line(lines, pos + 1);
    }
}

/// The reading of an extractor's reply: its fact lines, how far they have
/// been read, and the running count. Facts are handed out one at a time
/// until the reply is exhausted or `COMPACTION_MAX_FLUSH_FACTS` facts are
/// stored; the caller scrubs each, stores it, and reports back.
pub struct FactExtraction {
    lines: Vec<String>,
    pos: usize,
    tally: FactTally,
}

impl FactExtraction {
    /// The trimmed, non-empty lines of the reply.
    pub closed spec fn lines(&self) -> Seq<Seq<char>> {
        self.lines@.map_values(|l: String| l@)
    }

    /// The running count.
    pub closed spec fn counts(&self) -> FactTally {
        self.tally
    }

    /// How many lines have been read.
    pub closed spec fn position(&self) -> int {
        self.pos as int
    }

    /// The reading is consistent: never past the end, never over the cap,
    /// and no more facts stored or failed than parsed, nor parsed than read.
    pub closed spec fn wf(&self) -> bool {
        &&& self.pos <= self.lines@.len()
        &&& self.tally.stored <= COMPACTION_MAX_FLUSH_FACTS
        &&& self.tally.stored + self.tally.store_failures <= self.tally.parsed
        &&& self.tally.parsed <= self.pos
    }

    /// Start reading a reply.
    pub fn new(response: &str) -> (x: Self)
        ensures
            x.wf(),
            x.lines() == reply_lines(response@, Seq::empty()),
            x.position() == 0,
            x.counts().stored == 0 && x.counts().parsed == 0 && x.counts().store_failures == 0,
    {
        FactExtraction { lines: fact_lines(response), pos: 0, tally: FactTally::new() }
    }

    /// The next fact to store, as (key, content): the next line that parses
    /// as a fact, counted as parsed; `None` once the cap of stored facts is
    /// reached or no such line is left.
    pub fn next_fact(&mut self) -> (r: Option<(String, String)>)
        requires
            old(self).wf(),
        ensures
            final(self).wf(),
            final(self).lines() == old(self).lines(),
            final(self).counts().stored == old(self).counts().stored,
            final(self).counts().store_failures == old(self).counts().store_failures,
            old(self).counts().stored >= COMPACTION_MAX_FLUSH_FACTS ==> r is None && final(self).counts()
                == old(self).counts(),
            old(self).counts().stored < COMPACTION_MAX_FLUSH_FACTS ==> ({
                let j = next_fact_line(old(self).lines(), old(self).position());
                if j < old(self).lines().len() {
                    &&& r matches Some((k, c)) && fact_line_parts(old(self).lines()[j]) == Some((k@, c@))
                    &&& final(self).counts().parsed == old(self).counts().parsed + 1
                    &&& final(self).position() == j + 1
                } else {
                    &&& r is None
                    &&& final(self).counts().parsed == old(self).counts().parsed
                    &&& final(self).position() == old(self).lines().len()
                }
            }),
    {
        if self.tally.is_full() {
            return None;
        }
        let ghost start = self.pos as int;
        let _n = self.lines.len();
        proof {
            lemma_next_fact_line(self.lines(), start);
        }
        while self.pos < self.lines.len()
            invariant
                start <= self.pos <= self.lines@.len(),
                start == old(self).position(),
                self.lines@.len() <= usize::MAX,
                self.tally.parsed <= start,
                self.lines == old(self).lines,
                self.lines() == old(self).lines(),
                self.tally == old(self).counts(),
                old(self).wf(),
                self.tally.stored < COMPACTION_MAX_FLUSH_FACTS,
                next_fact_line(self.lines(), start) == next_fact_line(self.lines(), self.pos as int),
            decreases self.lines@.len() - self.pos,
        {
            let i = self.pos;
            assert(self.lines()[i as int] == self.lines@[i as int]@);
            match parse_fact_line(self.lines[i].as_str()) {
                Some((key, content)) => {
                    assert(fact_line_parts(self.lines()[i as int]) is Some);
                    assert(next_fact_line(self.lines(), i as int) == i as int);
                    let fact = (string_of(key), string_of(content));
                    self.pos = i + 1;
                    self.tally.record_parsed();
                    return Some(fact);
                },
                None => {
                    self.pos = i + 1;
                },
            }
        }
        None
    }

    /// The result of a post-turn extraction so far (see
    /// `FactTally::extraction_result`).
    pub fn extraction_result(&self) -> (r: ExtractionResult)
        ensures
            r.stored == self.counts().stored,
            r.no_facts == (self.counts().parsed > 0 && self.counts().stored == 0
                && self.counts().store_failures == 0),
    {
        self.tally.extraction_result()
    }

    /// Whether a pre-compaction flush succeeded (see
    /// `FactTally::flush_succeeded`).
    pub fn flush_succeeded(&self) -> (r: bool)
        ensures
            r == (self.counts().parsed > 0 && self.counts().store_failures == 0),
    {
        self.tally.flush_succeeded()
    }

    /// Report whether storing the fact last handed out succeeded. A report
    /// with no fact awaiting one (or past the cap) changes nothing.
    pub fn record_store(&mut self, ok: bool)
        requires
            old(self).wf(),
        ensures
            final(self).wf(),
            final(self).lines() == old(self).lines(),
            final(self).position() == old(self).position(),
            final(self).counts().parsed == old(self).counts().parsed,
            ({
                let pending = old(self).counts().stored < COMPACTION_MAX_FLUSH_FACTS && old(self).counts().stored
                    + old(self).counts().store_failures < old(self).counts().parsed;
                &&& final(self).counts().stored == old(self).counts().stored + if pending && ok { 1int } else { 0 }
                &&& final(self).counts().store_failures == old(self).counts().store_failures + if pending && !ok {
                    1int
                } else {
                    0
                }
            }),
    {
        if self.tally.stored < COMPACTION_MAX_FLUSH_FACTS && self.tally.stored + self.tally.store_failures
            < self.tally.parsed {
            self.tally.record_store(ok);
        }
    }
}

/// Facts are stored at most `COMPACTION_MAX_FLUSH_FACTS` at a time, and an
/// extraction counts as finding no facts only when facts were parsed and
/// all of them were skipped.
pub proof fn lemma_extraction_cap(x: FactExtraction)
    requires
        x.wf(),
    ensures
        x.counts().stored <= COMPACTION_MAX_FLUSH_FACTS,
        x.counts().stored + x.counts().store_failures <= x.counts().parsed,
{
}

/// A fact written as `[key] content` (key and content trimmed and
/// non-empty, key without `]`) parses back to that key and content.
pub proof fn lemma_fact_line_roundtrip(key: Seq<char>, content: Seq<char>)
    requires
        key.len() > 0,
        content.len() > 0,
        trim(key) == key,
        trim(content) == content,
        forall|i: int| 0 <= i < key.len() ==> #[trigger] key[i] != ']',
    ensures
        fact_line_parts(seq!['['] + key + seq![']', ' '] + content) == Some((key, content)),
{
    let line = seq!['['] + key + seq![']', ' '] + content;
    assert(line[0] == '[');
    assert(strip_leading(line, dash_or_white_space()) == line);
    let rest = line.drop_first();
    assert(rest =~= key + seq![']', ' '] + content);
    assert forall|j: int| 0 <= j < key.len() implies #[trigger] rest[j] != ']' by {
        assert(rest[j] == key[j]);
    }
    assert(rest[key.len() as int] == ']');
    lemma_first_index_of(rest, ']', key.len() as int);
    assert(rest.subrange(0, key.len() as int) =~= key);
    let after = rest.subrange(key.len() as int + 1, rest.len() as int);
    assert(after =~= seq![' '] + content);
    assert(after[0] == ' ');
    assert(after.drop_first() =~= content);
    assert(strip_leading(after, white_space()) == strip_leading(content, white_space()));
}

/// A transcript handed to the extractor is at most
/// `EXTRACT_MAX_SOURCE_CHARS` characters and the ellipsis.
pub proof fn lemma_extraction_transcript_bounded(turns: Seq<(Seq<char>, Seq<char>)>)
    ensures
        extraction_transcript(turns) matches Some(t) ==> t.len() <= EXTRACT_MAX_SOURCE_CHARS + 3,
{
    reveal_strlit("...");
    let t = transcript_of(turns);
    if t.len() > EXTRACT_MAX_SOURCE_CHARS {
        lemma_strip_trailing_shorter(t.take(EXTRACT_MAX_SOURCE_CHARS as int), white_space());
    }
}

proof fn lemma_strip_trailing_shorter(s: Seq<char>, p: spec_fn(char) -> bool)
    ensures
        strip_trailing(s, p).len() <= s.len(),
    decreases s.len(),
{
    if s.len() > 0 && p(s.last()) {
        lemma_strip_trailing_shorter(s.drop_last(), p);
    }
}

/// The known-facts section never grows past `KNOWN_SECTION_MAX_CHARS` and
/// the truncation note.
pub proof fn lemma_known_section_bounded(entries: Seq<(Seq<char>, Seq<char>)>)
    ensures
        known_section(entries).len() <= KNOWN_SECTION_MAX_CHARS + 18,
{
    reveal_strlit("\nYou already know these facts (do NOT repeat them; use the SAME key if a fact needs updating):\n");
    if entries.len() > 0 {
        lemma_known_lines_bounded(known_section_heading(), entries);
    }
}

proof fn lemma_known_lines_bounded(acc: Seq<char>, entries: Seq<(Seq<char>, Seq<char>)>)
    requires
        acc.len() <= KNOWN_SECTION_MAX_CHARS,
    ensures
        known_lines(acc, entries).len() <= KNOWN_SECTION_MAX_CHARS + 18,
    decreases entries.len(),
{
    reveal_strlit("- ... (truncated)\n");
    if entries.len() > 0 {
        let line = known_line(entries[0].0, entries[0].1);
        if acc.len() + line.len() <= KNOWN_SECTION_MAX_CHARS {
            lemma_known_lines_bounded(acc + line, entries.drop_first());
        }
    }
}

/// No two underscores stand next to each other in `k`.
pub open spec fn no_double_underscore(k: Seq<char>) -> bool {
    forall|i: int, j: int| #![trigger k[i], k[j]] 0 <= i && j == i + 1 && j < k.len() ==> !(k[i] == '_' && k[j] == '_')
}

/// No ASCII capital letter occurs in `k`.
pub open spec fn no_ascii_capital(k: Seq<char>) -> bool {
    forall|i: int| 0 <= i < k.len() ==> !('A' <= #[trigger] k[i] && k[i] <= 'Z')
}

/// Every character of `k` is a letter, a digit or `_`.
pub open spec fn key_chars_only(k: Seq<char>) -> bool {
    forall|i: int| 0 <= i < k.len() ==> kept_key_char(#[trigger] k[i])
}

/// The consistent form of a normalized key: at most `FACT_KEY_MAX_LEN`
/// characters, only letters, digits and `_`, not starting with `_`, no run
/// of underscores.
pub open spec fn is_normal_fact_key(k: Seq<char>) -> bool {
    &&& k.len() <= FACT_KEY_MAX_LEN
    &&& (k.len() > 0 ==> k[0] != '_')
    &&& no_double_underscore(k)
    &&& key_chars_only(k)
}

/// Every character of `s` satisfies `q`.
pub open spec fn all_chars(s: Seq<char>, q: spec_fn(char) -> bool) -> bool {
    forall|i: int| 0 <= i < s.len() ==> q(#[trigger] s[i])
}

proof fn lemma_key_chars_keep(s: Seq<char>, q: spec_fn(char) -> bool)
    requires
        all_chars(s, q),
    ensures
        all_chars(key_chars(s), q),
        key_chars_only(key_chars(s)),
    decreases s.len(),
{
    if s.len() > 0 {
        let init = s.drop_last();
        assert forall|i: int| 0 <= i < init.len() implies q(#[trigger] init[i]) by {
            assert(init[i] == s[i]);
        }
        lemma_key_chars_keep(init, q);
        let k = key_chars(init);
        if kept_key_char(s.last()) {
            let r = k.push(s.last());
            assert forall|i: int| 0 <= i < r.len() implies q(#[trigger] r[i]) && kept_key_char(r[i]) by {
                if i < k.len() {
                    assert(r[i] == k[i]);
                } else {
                    assert(r[i] == s[s.len() - 1]);
                }
            }
        }
    }
}

proof fn lemma_key_chars_identity(s: Seq<char>)
    requires
        key_chars_only(s),
    ensures
        key_chars(s) == s,
    decreases s.len(),
{
    if s.len() > 0 {
        let init = s.drop_last();
        assert forall|i: int| 0 <= i < init.len() implies kept_key_char(#[trigger] init[i]) by {
            assert(init[i] == s[i]);
        }
        lemma_key_chars_identity(init);
        assert(kept_key_char(s[s.len() - 1]));
        assert(init.push(s.last()) =~= s);
    }
}

proof fn lemma_collapse_keep(s: Seq<char>, q: spec_fn(char) -> bool)
    requires
        all_chars(s, q),
    ensures
        all_chars(collapse_underscores(s), q),
        no_double_underscore(collapse_underscores(s)),
    decreases s.len(),
{
    if s.len() > 0 {
        let init = s.drop_last();
        assert forall|i: int| 0 <= i < init.len() implies q(#[trigger] init[i]) by {
            assert(init[i] == s[i]);
        }
        lemma_collapse_keep(init, q);
        let c = collapse_underscores(init);
        let r = collapse_underscores(s);
        if !(s.last() == '_' && c.len() > 0 && c.last() == '_') {
            assert(r == c.push(s.last()));
            assert forall|i: int| 0 <= i < r.len() implies q(#[trigger] r[i]) by {
                if i < c.len() {
                    assert(r[i] == c[i]);
                } else {
                    assert(r[i] == s[s.len() - 1]);
                }
            }
            assert forall|i: int, j: int| 0 <= i && j == i + 1 && j < r.len() implies !(#[trigger] r[i] == '_'
                && #[trigger] r[j] == '_') by {
                if j < c.len() {
                    assert(r[i] == c[i] && r[j] == c[j]);
                } else {
                    assert(r[i] == c[i]);
                    assert(r[j] == s.last());
                }
            }
        }
    }
}

proof fn lemma_strip_leading_index(s: Seq<char>, p: spec_fn(char) -> bool) -> (k: int)
    ensures
        0 <= k <= s.len(),
        strip_leading(s, p) == s.subrange(k, s.len() as int),
        k < s.len() ==> !p(s[k]),
    decreases s.len(),
{
    if s.len() > 0 && p(s[0]) {
        let k1 = lemma_strip_leading_index(s.drop_first(), p);
        assert(s.drop_first().subrange(k1, s.len() - 1) =~= s.subrange(k1 + 1, s.len() as int));
        if k1 + 1 < s.len() {
            assert(s[k1 + 1] == s.drop_first()[k1]);
        }
        k1 + 1
    } else {
        assert(s.subrange(0, s.len() as int) =~= s);
        0
    }
}

proof fn lemma_strip_trailing_index(s: Seq<char>, p: spec_fn(char) -> bool) -> (m: int)
    ensures
        0 <= m <= s.len(),
        strip_trailing(s, p) == s.subrange(0, m),
        m > 0 ==> !p(s[m - 1]),
    decreases s.len(),
{
    if s.len() > 0 && p(s.last()) {
        let m1 = lemma_strip_trailing_index(s.drop_last(), p);
        assert(s.drop_last().subrange(0, m1) =~= s.subrange(0, m1));
        if m1 > 0 {
            assert(s.drop_last()[m1 - 1] == s[m1 - 1]);
        }
        m1
    } else {
        assert(s.subrange(0, s.len() as int) =~= s);
        s.len() as int
    }
}

/// A normalized fact key is in the consistent form: at most
/// `FACT_KEY_MAX_LEN` characters, only letters, digits and `_`, no leading
/// `_`, no run of underscores; and a key normalized from ASCII text is
/// ASCII with no capital letter.
pub proof fn lemma_normalized_fact_key_shape(raw: Seq<char>)
    ensures
        is_normal_fact_key(normalized_fact_key(raw)),
        is_ascii_chars(raw) ==> is_ascii_chars(normalized_fact_key(raw)) && no_ascii_capital(
            normalized_fact_key(raw),
        ),
{
    let sep = separators_to_underscores(raw);
    let low = lowercase(sep);
    let q = |c: char| is_ascii_chars(raw) ==> ('\0' <= c && c <= '\u{7f}' && !('A' <= c && c <= 'Z'));
    if is_ascii_chars(raw) {
        assert forall|i: int| 0 <= i < sep.len() implies '\0' <= #[trigger] sep[i] && sep[i] <= '\u{7f}' by {
            assert(raw[i] <= '\u{7f}');
        }
        assert(low == sep.map_values(|c: char| ascii_lower(c)));
        assert forall|i: int| 0 <= i < low.len() implies q(#[trigger] low[i]) by {
            assert(low[i] == ascii_lower(sep[i]));
            assert(sep[i] <= '\u{7f}');
        }
    }
    assert(all_chars(low, q));
    lemma_key_chars_keep(low, q);
    let kc = key_chars(low);
    let q2 = |c: char| q(c) && kept_key_char(c);
    assert forall|i: int| 0 <= i < kc.len() implies q2(#[trigger] kc[i]) by {
        assert(q(kc[i]));
        assert(kept_key_char(kc[i]));
    }
    lemma_collapse_keep(kc, q2);
    let c = collapse_underscores(kc);
    let p = class_pred(CharClass::Underscore);
    let k0 = lemma_strip_leading_index(c, p);
    let t = c.subrange(k0, c.len() as int);
    let m = lemma_strip_trailing_index(t, p);
    let k = t.subrange(0, m);
    assert(k == strip(c, p));
    assert(k =~= c.subrange(k0, k0 + m));
    assert forall|i: int| 0 <= i < k.len() implies q2(#[trigger] k[i]) by {
        assert(k[i] == c[k0 + i]);
    }
    assert forall|i: int, j: int| 0 <= i && j == i + 1 && j < k.len() implies !(#[trigger] k[i] == '_'
        && #[trigger] k[j] == '_') by {
        assert(k[i] == c[k0 + i] && k[j] == c[k0 + j]);
    }
    if k.len() > 0 {
        assert(k[0] == c[k0]);
    }
    let r = normalized_fact_key(raw);
    if k.len() > FACT_KEY_MAX_LEN {
        assert(r == k.take(FACT_KEY_MAX_LEN as int));
        assert forall|i: int| 0 <= i < r.len() implies q2(#[trigger] r[i]) by {
            assert(r[i] == k[i]);
        }
        assert forall|i: int, j: int| 0 <= i && j == i + 1 && j < r.len() implies !(#[trigger] r[i] == '_'
            && #[trigger] r[j] == '_') by {
            assert(r[i] == k[i] && r[j] == k[j]);
        }
        assert(r[0] == k[0]);
    }
    assert(all_chars(r, q2));
    assert forall|i: int| 0 <= i < r.len() implies kept_key_char(#[trigger] r[i]) by {
        assert(q2(r[i]));
    }
    if is_ascii_chars(raw) {
        assert forall|i: int| 0 <= i < r.len() implies '\0' <= #[trigger] r[i] && r[i] <= '\u{7f}' && !('A'
            <= r[i] && r[i] <= 'Z') by {
            assert(q2(r[i]));
        }
    }
}

proof fn lemma_collapse_identity(s: Seq<char>)
    requires
        no_double_underscore(s),
    ensures
        collapse_underscores(s) == s,
    decreases s.len(),
{
    if s.len() > 0 {
        let init = s.drop_last();
        assert forall|i: int, j: int| 0 <= i && j == i + 1 && j < init.len() implies !(#[trigger] init[i] == '_'
            && #[trigger] init[j] == '_') by {
            assert(init[i] == s[i] && init[j] == s[j]);
        }
        lemma_collapse_identity(init);
        if init.len() > 0 {
            assert(init.last() == s[s.len() - 2]);
            assert(!(s[s.len() - 2] == '_' && s[s.len() - 1] == '_'));
        }
        assert(init.push(s.last()) =~= s);
    }
}

/// Whether `s` holds a letter or digit.
pub open spec fn has_alphanumeric(s: Seq<char>) -> bool {
    exists|i: int| 0 <= i < s.len() && alphanumeric(#[trigger] s[i])
}

proof fn lemma_key_chars_len(s: Seq<char>)
    ensures
        key_chars(s).len() <= s.len(),
    decreases s.len(),
{
    if s.len() > 0 {
        lemma_key_chars_len(s.drop_last());
    }
}

proof fn lemma_collapse_len(s: Seq<char>)
    ensures
        collapse_underscores(s).len() <= s.len(),
    decreases s.len(),
{
    if s.len() > 0 {
        lemma_collapse_len(s.drop_last());
    }
}

proof fn lemma_key_chars_keeps_letter(s: Seq<char>, i: int)
    requires
        0 <= i < s.len(),
        alphanumeric(s[i]),
        s[i] != '_',
    ensures
        exists|j: int| 0 <= j < key_chars(s).len() && #[trigger] key_chars(s)[j] != '_',
    decreases s.len(),
{
    let init = s.drop_last();
    if i < s.len() - 1 {
        assert(init[i] == s[i]);
        lemma_key_chars_keeps_letter(init, i);
        let k = key_chars(init);
        let j = choose|j: int| 0 <= j < k.len() && #[trigger] k[j] != '_';
        if kept_key_char(s.last()) {
            assert(key_chars(s) == k.push(s.last()));
            assert(key_chars(s)[j] == k[j]);
        } else {
            assert(key_chars(s) == k);
        }
        assert(key_chars(s)[j] != '_');
    } else {
        let k = key_chars(init);
        assert(s.last() == s[i]);
        assert(kept_key_char(s.last()));
        assert(key_chars(s) == k.push(s.last()));
        assert(key_chars(s)[k.len() as int] != '_');
    }
}

proof fn lemma_collapse_keeps_letter(s: Seq<char>, i: int)
    requires
        0 <= i < s.len(),
        s[i] != '_',
    ensures
        exists|j: int| 0 <= j < collapse_underscores(s).len() && #[trigger] collapse_underscores(s)[j] != '_',
    decreases s.len(),
{
    let init = s.drop_last();
    let c = collapse_underscores(init);
    if i < s.len() - 1 {
        assert(init[i] == s[i]);
        lemma_collapse_keeps_letter(init, i);
        let j = choose|j: int| 0 <= j < c.len() && #[trigger] c[j] != '_';
        if !(s.last() == '_' && c.len() > 0 && c.last() == '_') {
            assert(collapse_underscores(s)[j] == c[j]);
        }
    } else {
        assert(collapse_underscores(s) == c.push(s.last()));
        assert(collapse_underscores(s)[c.len() as int] != '_');
    }
}

/// A key normalized from ASCII text is empty exactly when the text holds
/// no letter or digit, and, when the text is at most `FACT_KEY_MAX_LEN`
/// characters long, does not end with `_`.
pub proof fn lemma_normalized_ascii_fact_key(raw: Seq<char>)
    requires
        is_ascii_chars(raw),
    ensures
        (normalized_fact_key(raw).len() == 0) == !has_alphanumeric(raw),
        raw.len() <= FACT_KEY_MAX_LEN ==> normalized_fact_key(raw).len() == 0 || normalized_fact_key(raw).last()
            != '_',
{
    let sep = separators_to_underscores(raw);
    assert forall|i: int| 0 <= i < sep.len() implies '\0' <= #[trigger] sep[i] && sep[i] <= '\u{7f}' by {
        assert(raw[i] <= '\u{7f}');
    }
    let low = lowercase(sep);
    assert(low == sep.map_values(|c: char| ascii_lower(c)));
    let kc = key_chars(low);
    let c = collapse_underscores(kc);
    let p = class_pred(CharClass::Underscore);
    let k0 = lemma_strip_leading_index(c, p);
    let t = c.subrange(k0, c.len() as int);
    let m = lemma_strip_trailing_index(t, p);
    let k = t.subrange(0, m);
    assert(k == strip(c, p));
    let r = normalized_fact_key(raw);
    lemma_key_chars_len(low);
    lemma_collapse_len(kc);
    if raw.len() <= FACT_KEY_MAX_LEN {
        assert(r == k);
        if m > 0 {
            assert(k.last() == t[m - 1]);
        }
    }
    if has_alphanumeric(raw) {
        let i = choose|i: int| 0 <= i < raw.len() && alphanumeric(#[trigger] raw[i]);
        assert(raw[i] <= '\u{7f}');
        assert(sep[i] == raw[i]);
        assert(low[i] == ascii_lower(raw[i]));
        assert(alphanumeric(low[i]) && low[i] != '_');
        lemma_key_chars_keeps_letter(low, i);
        let j = choose|j: int| 0 <= j < kc.len() && #[trigger] kc[j] != '_';
        lemma_collapse_keeps_letter(kc, j);
        let j2 = choose|j2: int| 0 <= j2 < c.len() && #[trigger] c[j2] != '_';
        assert(k0 <= j2) by {
            if k0 > j2 {
                lemma_strip_leading_prefix(c, p, k0, j2);
            }
        }
        assert(t[j2 - k0] != '_');
        assert(m > j2 - k0) by {
            if m <= j2 - k0 {
                lemma_strip_trailing_suffix(t, p, m, j2 - k0);
            }
        }
        assert(k.len() > 0);
        if k.len() > FACT_KEY_MAX_LEN {
            assert(r.len() == FACT_KEY_MAX_LEN);
        }
    } else {
        let q = |ch: char| ch == '_' || !alphanumeric(ch);
        assert forall|i: int| 0 <= i < low.len() implies q(#[trigger] low[i]) by {
            assert(raw[i] <= '\u{7f}');
            assert(!alphanumeric(raw[i]));
            assert(low[i] == ascii_lower(sep[i]));
        }
        lemma_key_chars_keep(low, q);
        let q2 = |ch: char| ch == '_';
        assert forall|i: int| 0 <= i < kc.len() implies q2(#[trigger] kc[i]) by {
            assert(q(kc[i]));
            assert(kept_key_char(kc[i]));
        }
        lemma_collapse_keep(kc, q2);
        assert(c.len() > 0 ==> k0 == c.len()) by {
            if k0 < c.len() {
                assert(q2(c[k0]));
            }
        }
        assert(k.len() == 0);
    }
}

proof fn lemma_strip_leading_prefix(s: Seq<char>, p: spec_fn(char) -> bool, k: int, j: int)
    requires
        0 <= j < k <= s.len(),
        strip_leading(s, p) == s.subrange(k, s.len() as int),
        k < s.len() ==> !p(s[k]),
    ensures
        p(s[j]),
    decreases s.len(),
{
    if s.len() > 0 && p(s[0]) {
        if j > 0 {
            assert(s.drop_first().subrange(k - 1, s.len() - 1) =~= s.subrange(k, s.len() as int));
            if k - 1 < s.len() - 1 {
                assert(s.drop_first()[k - 1] == s[k]);
            }
            lemma_strip_leading_prefix(s.drop_first(), p, k - 1, j - 1);
            assert(s.drop_first()[j - 1] == s[j]);
        }
    } else {
        assert(strip_leading(s, p) == s);
        assert(s.subrange(k, s.len() as int).len() < s.len());
    }
}

proof fn lemma_strip_trailing_suffix(s: Seq<char>, p: spec_fn(char) -> bool, m: int, j: int)
    requires
        0 <= m <= j < s.len(),
        strip_trailing(s, p) == s.subrange(0, m),
    ensures
        p(s[j]),
    decreases s.len(),
{
    if s.len() > 0 && p(s.last()) {
        if j < s.len() - 1 {
            assert(s.drop_last().subrange(0, m) =~= s.subrange(0, m));
            lemma_strip_trailing_suffix(s.drop_last(), p, m, j);
            assert(s.drop_last()[j] == s[j]);
        }
    } else {
        assert(strip_trailing(s, p) == s);
        assert(s.subrange(0, m).len() < s.len());
    }
}

/// Normalizing a key normalized from ASCII text changes nothing, unless
/// the length cap cut it right after an underscore (then the second pass
/// drops that underscore).
pub proof fn lemma_normalize_fact_key_idempotent_ascii(raw: Seq<char>)
    requires
        is_ascii_chars(raw),
        normalized_fact_key(raw).len() == 0 || normalized_fact_key(raw).last() != '_',
    ensures
        normalized_fact_key(normalized_fact_key(raw)) == normalized_fact_key(raw),
{
    let k = normalized_fact_key(raw);
    lemma_normalized_fact_key_shape(raw);
    let sep = separators_to_underscores(k);
    assert forall|i: int| 0 <= i < k.len() implies #[trigger] sep[i] == k[i] by {
        let c = k[i];
        assert(kept_key_char(c));
        assert(c <= '\u{7f}');
        assert(!key_separator(c));
    }
    assert(sep =~= k);
    let low = lowercase(k);
    assert(low == k.map_values(|c: char| ascii_lower(c)));
    assert forall|i: int| 0 <= i < k.len() implies #[trigger] low[i] == k[i] by {
        assert(!('A' <= k[i] && k[i] <= 'Z'));
    }
    assert(low =~= k);
    lemma_key_chars_identity(k);
    lemma_collapse_identity(k);
    let p = class_pred(CharClass::Underscore);
    assert(strip_leading(k, p) == k);
    assert(strip_trailing(k, p) == k);
}

} // verus!
