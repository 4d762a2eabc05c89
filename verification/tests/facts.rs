use zeroclaw::facts::{
    build_known_section, classify_reply, extraction_reply_outcome, extraction_system_prompt, fact_lines,
    fact_memory_key, flush_reply_outcome, ExtractionResult,
    fact_request_prompt, flush_system_prompt, normalize_fact_key, parse_fact_line, prepare_extraction,
    should_skip_redacted_fact, truncate_with_ellipsis, ExtractionReply, FactExtraction, FactTally, TurnBuffer,
    COMPACTION_MAX_FLUSH_FACTS, EXTRACT_MAX_SOURCE_CHARS, EXTRACT_MIN_CHARS, EXTRACT_TURN_INTERVAL,
    FACT_KEY_MAX_LEN,
};

// ── parse_fact_line ────────────────────────────────────────────────

#[test]
fn parse_fact_line_extracts_key_and_content() {
    assert_eq!(
        parse_fact_line("[preferred_language] User prefers Rust over Go"),
        Some(("preferred_language", "User prefers Rust over Go"))
    );
}

#[test]
fn parse_fact_line_handles_leading_dash() {
    assert_eq!(
        parse_fact_line("- [db_choice] Project uses PostgreSQL 16"),
        Some(("db_choice", "Project uses PostgreSQL 16"))
    );
}

#[test]
fn parse_fact_line_rejects_empty_key_or_content() {
    assert_eq!(parse_fact_line("[] some content"), None);
    assert_eq!(parse_fact_line("[key]"), None);
    assert_eq!(parse_fact_line("[key]  "), None);
}

#[test]
fn parse_fact_line_rejects_malformed_input() {
    assert_eq!(parse_fact_line("no brackets here"), None);
    assert_eq!(parse_fact_line(""), None);
    assert_eq!(parse_fact_line("[unclosed bracket"), None);
}

#[test]
fn parse_fact_line_takes_first_closing_bracket_and_trims() {
    assert_eq!(parse_fact_line("  -- [ a key ]  some [x] text  "), Some(("a key", "some [x] text")));
    assert_eq!(parse_fact_line("\u{3000}[k] v"), Some(("k", "v")));
}

// ── normalize_fact_key ─────────────────────────────────────────────

#[test]
fn normalize_fact_key_basic() {
    assert_eq!(normalize_fact_key("preferred_language"), "preferred_language");
    assert_eq!(normalize_fact_key("DB Choice"), "db_choice");
    assert_eq!(normalize_fact_key("my-cool-key"), "my_cool_key");
    assert_eq!(normalize_fact_key("  spaces  "), "spaces");
    assert_eq!(normalize_fact_key("UPPER_CASE"), "upper_case");
}

#[test]
fn normalize_fact_key_collapses_underscores() {
    assert_eq!(normalize_fact_key("a___b"), "a_b");
    assert_eq!(normalize_fact_key("--key--"), "key");
}

#[test]
fn normalize_fact_key_truncates_long_keys() {
    let long = "a".repeat(100);
    let result = normalize_fact_key(&long);
    assert_eq!(result.len(), FACT_KEY_MAX_LEN);
}

#[test]
fn normalize_fact_key_empty_on_garbage() {
    assert_eq!(normalize_fact_key("!!!"), "");
    assert_eq!(normalize_fact_key(""), "");
}

#[test]
fn normalize_fact_key_keeps_non_ascii_letters() {
    assert_eq!(normalize_fact_key("Café Ünïcode"), "café_ünïcode");
    assert_eq!(normalize_fact_key("ÄRGER"), "ärger");
}

#[test]
fn normalize_fact_key_strips_other_punctuation() {
    assert_eq!(normalize_fact_key("user's name"), "users_name");
    assert_eq!(normalize_fact_key("a.b/c"), "abc");
    assert_eq!(normalize_fact_key("tab\there-and_there"), "tab_here_and_there");
}

// ── should_skip_redacted_fact ──────────────────────────────────────

#[test]
fn skip_redacted_no_redaction_keeps_fact() {
    assert!(!should_skip_redacted_fact("User prefers Rust", "User prefers Rust"));
}

#[test]
fn skip_redacted_empty_remainder_skips() {
    assert!(should_skip_redacted_fact("[REDACTED]", "sk-12345secret"));
}

#[test]
fn skip_redacted_secret_shell_skips() {
    assert!(should_skip_redacted_fact("api key [REDACTED]", "api key sk-12345secret"));
    assert!(should_skip_redacted_fact("token: [REDACTED]", "token: abc123xyz"));
}

#[test]
fn skip_redacted_meaningful_remainder_keeps() {
    assert!(!should_skip_redacted_fact(
        "User's deployment uses [REDACTED] for auth with PostgreSQL 16",
        "User's deployment uses sk-secret for auth with PostgreSQL 16"
    ));
}

#[test]
fn skip_redacted_is_case_insensitive_and_strips_punctuation() {
    assert!(should_skip_redacted_fact("PASSWORD = [REDACTED]!", "PASSWORD = hunter2!"));
    assert!(should_skip_redacted_fact("[REDACTED][REDACTED]", "ab"));
}

// ── TurnBuffer ─────────────────────────────────────────────────────

#[test]
fn turn_buffer_should_extract_requires_interval_and_chars() {
    let mut buf = TurnBuffer::new();
    assert!(!buf.should_extract());
    for i in 0..EXTRACT_TURN_INTERVAL {
        buf.push(&format!("q{i}"), "a");
    }
    assert!(!buf.should_extract()); // interval met but chars not
    let mut buf2 = TurnBuffer::new();
    let long_msg = "x".repeat(EXTRACT_MIN_CHARS);
    for _ in 0..EXTRACT_TURN_INTERVAL {
        buf2.push(&long_msg, "reply");
    }
    assert!(buf2.should_extract());
}

#[test]
fn turn_buffer_drain_clears_and_marks_pending() {
    let mut buf = TurnBuffer::new();
    buf.push("hello", "world");
    assert!(!buf.is_empty());
    let turns = buf.drain_for_extraction();
    assert_eq!(turns.len(), 1);
    assert!(buf.is_empty());
    assert!(buf.needs_compaction_fallback());
}

#[test]
fn turn_buffer_mark_success_clears_fallback() {
    let mut buf = TurnBuffer::new();
    buf.push("q", "a");
    let _ = buf.drain_for_extraction();
    assert!(buf.needs_compaction_fallback());
    buf.mark_extract_success();
    assert!(!buf.needs_compaction_fallback());
}

#[test]
fn turn_buffer_needs_fallback_when_not_empty() {
    let mut buf = TurnBuffer::new();
    assert!(!buf.needs_compaction_fallback());
    buf.push("q", "a");
    assert!(buf.needs_compaction_fallback());
}

#[test]
fn turn_buffer_counts_chars_not_bytes() {
    let mut buf = TurnBuffer::new();
    let cjk = "你".repeat(EXTRACT_MIN_CHARS);
    for _ in 0..EXTRACT_TURN_INTERVAL {
        buf.push(&cjk, "ok");
    }
    assert!(buf.should_extract());
}

#[test]
fn turn_buffer_drain_returns_turns_in_order() {
    let mut buf = TurnBuffer::new();
    buf.push("q1", "a1");
    buf.push("q2", "a2");
    let turns = buf.drain_for_extraction();
    assert_eq!(turns, vec![("q1".to_string(), "a1".to_string()), ("q2".to_string(), "a2".to_string())]);
    assert!(!buf.should_extract());
}

// ── extraction pieces ──────────────────────────────────────────────
//
// The extraction and flush functions themselves await a model provider and
// a memory store and live with the I/O; these tests drive the library's
// steps of them directly. The memory category (`Core`) and the session id
// are chosen by that I/O side, so they are not checked here.

/// Runs the per-fact decisions of an extraction over a reply, storing with
/// `store` (which answers whether the store succeeded).
fn run_fact_lines(reply: &str, mut store: impl FnMut(&str, &str) -> bool) -> FactExtraction {
    let mut facts = FactExtraction::new(reply);
    while let Some((key, content)) = facts.next_fact() {
        let clean = content.clone();
        let Some(memory_key) = fact_memory_key(&key, &clean, &content) else { continue };
        let ok = store(&memory_key, &clean);
        facts.record_store(ok);
    }
    facts
}

#[test]
fn extract_facts_stores_with_auto_prefix_and_core_category() {
    let long_msg = "x".repeat(EXTRACT_MIN_CHARS);
    let turns = vec![(long_msg, "assistant reply".to_string())];
    assert!(prepare_extraction(&turns).is_some());
    let reply = "[lang] User prefers Rust\n[db] PostgreSQL 16";
    assert_eq!(classify_reply(reply), ExtractionReply::Facts);
    let mut stored = Vec::new();
    let facts = run_fact_lines(reply, |k, c| {
        stored.push((k.to_string(), c.to_string()));
        true
    });
    let result = facts.extraction_result();
    assert_eq!(result.stored, 2);
    assert!(!result.no_facts);
    assert_eq!(stored[0].0, "auto_lang");
    assert_eq!(stored[0].1, "User prefers Rust");
    assert_eq!(stored[1].0, "auto_db");
}

#[test]
fn extract_facts_returns_no_facts_on_none_response() {
    let long_msg = "x".repeat(EXTRACT_MIN_CHARS);
    let turns = vec![(long_msg, "resp".to_string())];
    assert!(prepare_extraction(&turns).is_some());
    assert_eq!(classify_reply("NONE"), ExtractionReply::NoneDeclared);
    assert_eq!(classify_reply("  none \n"), ExtractionReply::NoneDeclared);
    assert_eq!(classify_reply("  \n\t"), ExtractionReply::Blank);
    let result = extraction_reply_outcome(Some("NONE")).unwrap();
    assert_eq!(result.stored, 0);
    assert!(result.no_facts);
}

#[test]
fn extract_facts_below_min_chars_returns_empty() {
    let turns = vec![("hi".to_string(), "hey".to_string())];
    assert_eq!(prepare_extraction(&turns), None);
    assert_eq!(prepare_extraction(&[]), None);
    let result = ExtractionResult::no_new_facts();
    assert_eq!(result.stored, 0);
    assert!(result.no_facts);
}

#[test]
fn extract_facts_unparseable_response_marks_no_facts_false() {
    let reply = "This is just random text without any facts.";
    assert_eq!(classify_reply(reply), ExtractionReply::Facts);
    let facts = run_fact_lines(reply, |_, _| true);
    let result = facts.extraction_result();
    assert_eq!(result.stored, 0);
    assert!(!result.no_facts, "unparseable LLM response must not mark extraction as successful");
}

#[test]
fn extract_facts_store_failure_marks_no_facts_false() {
    let facts = run_fact_lines("[lang] User prefers Rust\n[db] PostgreSQL 16", |_, _| false);
    let result = facts.extraction_result();
    assert_eq!(result.stored, 0);
    assert!(!result.no_facts, "store failures must not mark extraction as successful");
    assert!(!facts.flush_succeeded());
}

#[test]
fn flush_durable_facts_stores_core_facts() {
    let transcript = "USER: What language?\nASSISTANT: User prefers Rust.";
    let prompt = fact_request_prompt(transcript);
    assert!(prompt.ends_with(transcript));
    let mut stored = Vec::new();
    let facts = run_fact_lines("[lang] User prefers Rust\n[db] PostgreSQL 16", |k, _| {
        stored.push(k.to_string());
        true
    });
    assert!(facts.flush_succeeded());
    assert!(!stored.is_empty());
    assert!(stored[0].starts_with("auto_"));
}

#[test]
fn flush_durable_facts_returns_true_on_none() {
    assert_eq!(classify_reply("NONE"), ExtractionReply::NoneDeclared);
    assert_eq!(flush_reply_outcome(Some("NONE")), Some(true));
    assert!(flush_system_prompt().ends_with("output exactly: NONE"));
}

#[test]
fn extraction_caps_stored_facts() {
    let reply: String = (0..12).map(|i| format!("[k{i}] fact {i}\n")).collect();
    let mut count = 0;
    let facts = run_fact_lines(&reply, |_, _| {
        count += 1;
        true
    });
    assert_eq!(count, COMPACTION_MAX_FLUSH_FACTS);
    assert_eq!(facts.extraction_result().stored, COMPACTION_MAX_FLUSH_FACTS);
}

#[test]
fn extraction_skips_secret_shells_without_failing() {
    let mut tally = FactTally::new();
    tally.record_parsed();
    assert_eq!(fact_memory_key("api", "token: [REDACTED]", "token: abc"), None);
    let result = tally.extraction_result();
    assert_eq!(result.stored, 0);
    assert!(result.no_facts);
    assert!(!tally.is_full());
    assert_eq!(fact_memory_key("!!!", "fine", "fine"), None);
    assert_eq!(fact_memory_key("DB Choice", "x", "x"), Some("auto_db_choice".to_string()));
}

#[test]
fn transcript_is_built_from_trimmed_turns() {
    let long = "y".repeat(EXTRACT_MIN_CHARS);
    let turns = vec![(format!("  {long} "), " answer\n".to_string())];
    let transcript = prepare_extraction(&turns).unwrap();
    assert_eq!(transcript, format!("USER: {long}\nASSISTANT: answer\n\n"));
}

#[test]
fn long_transcript_is_cut_with_ellipsis() {
    let long = "z".repeat(EXTRACT_MAX_SOURCE_CHARS + 50);
    let turns = vec![(long, "a".to_string())];
    let transcript = prepare_extraction(&turns).unwrap();
    assert_eq!(transcript.chars().count(), EXTRACT_MAX_SOURCE_CHARS + 3);
    assert!(transcript.ends_with("zzz..."));
    assert_eq!(truncate_with_ellipsis("ab   cd", 4), "ab...");
    assert_eq!(truncate_with_ellipsis("héllo", 10), "héllo");
}

#[test]
fn fact_lines_are_trimmed_and_non_empty() {
    assert_eq!(fact_lines(" a \r\n\n  \nb"), vec!["a".to_string(), "b".to_string()]);
    assert!(fact_lines("").is_empty());
}

#[test]
fn known_section_is_bounded() {
    assert_eq!(build_known_section(&[]), "");
    let entries = vec![("k".to_string(), "v".to_string())];
    let section = build_known_section(&entries);
    assert!(section.starts_with("\nYou already know these facts"));
    assert!(section.ends_with("- k: v\n"));
    let big: Vec<(String, String)> = (0..100).map(|i| (format!("key{i}"), "c".repeat(50))).collect();
    let section = build_known_section(&big);
    assert!(section.ends_with("- ... (truncated)\n"));
    assert!(section.chars().count() <= 2_000 + "- ... (truncated)\n".len());
    let prompt = extraction_system_prompt(&section);
    assert!(prompt.contains(&section));
    assert!(prompt.starts_with("You extract durable facts from a conversation."));
}

#[test]
fn extraction_reply_outcome_maps_failure_blank_none_and_facts() {
    let failed = extraction_reply_outcome(None).unwrap();
    assert_eq!((failed.stored, failed.no_facts), (0, false));
    let blank = extraction_reply_outcome(Some("   \n")).unwrap();
    assert_eq!((blank.stored, blank.no_facts), (0, false));
    let none = extraction_reply_outcome(Some(" none ")).unwrap();
    assert_eq!((none.stored, none.no_facts), (0, true));
    assert!(extraction_reply_outcome(Some("[k] v")).is_none());
    let f = ExtractionResult::failed();
    assert_eq!((f.stored, f.no_facts), (0, false));
}

#[test]
fn flush_reply_outcome_maps_failure_blank_none_and_facts() {
    assert_eq!(flush_reply_outcome(None), Some(false));
    assert_eq!(flush_reply_outcome(Some("")), Some(false));
    assert_eq!(flush_reply_outcome(Some("NoNe")), Some(true));
    assert_eq!(flush_reply_outcome(Some("[k] v")), None);
}
