use zeroclaw::history::{
    emergency_history_trim, estimate_history_tokens, fast_trim_tool_results, floor_char_boundary,
    remove_orphaned_tool_messages, restore_session_history, trim_history, truncate_tool_message,
    truncate_tool_result, ChatMessage, InteractiveSessionState,
};

fn msg(role: &str, content: &str) -> ChatMessage {
    ChatMessage::new(role, content)
}

fn roles(history: &[ChatMessage]) -> Vec<String> {
    history.iter().map(|m| m.role.clone()).collect()
}

#[test]
fn floor_char_boundary_steps_back_inside_a_char() {
    let s = "aé b"; // 'é' is two bytes (1..3)
    assert_eq!(floor_char_boundary(s, 0), 0);
    assert_eq!(floor_char_boundary(s, 1), 1);
    assert_eq!(floor_char_boundary(s, 2), 1);
    assert_eq!(floor_char_boundary(s, 3), 3);
    assert_eq!(floor_char_boundary(s, 100), s.len());
}

#[test]
fn truncate_tool_result_keeps_short_output() {
    assert_eq!(truncate_tool_result("short", 100), "short");
    assert_eq!(truncate_tool_result("anything at all", 0), "anything at all");
}

#[test]
fn truncate_tool_result_keeps_head_and_tail() {
    let output = format!("{}{}{}", "h".repeat(100), "m".repeat(1000), "t".repeat(100));
    let r = truncate_tool_result(&output, 150);
    assert_eq!(r, format!("{}\n\n[... 1050 characters truncated ...]\n\n{}", "h".repeat(100), "t".repeat(50)));
}

#[test]
fn truncate_tool_result_respects_char_boundaries() {
    let output = "é".repeat(100); // 200 bytes
    let r = truncate_tool_result(&output, 31);
    // head: floor(20) = 20 bytes; tail: ceil(200 - 11) = 190
    assert_eq!(r, format!("{}\n\n[... 170 characters truncated ...]\n\n{}", "é".repeat(10), "é".repeat(5)));
}

#[test]
fn truncate_tool_result_tiny_limit_keeps_prefix() {
    // head_len 0, tail starts at 9: head end 0 < 9, so the marker path is taken
    assert_eq!(truncate_tool_result("0123456789", 1), "\n\n[... 9 characters truncated ...]\n\n9");
    // a 3-byte char straddles both cuts: the head is empty, the tail too
    assert_eq!(truncate_tool_result("€€", 4), "\n\n[... 6 characters truncated ...]\n\n");
}

#[test]
fn truncate_tool_message_preserves_json_envelope() {
    let content = "x".repeat(300);
    let msg_content = format!("{{\"tool_call_id\":\"call_1\",\"content\":\"{content}\"}}");
    let r = truncate_tool_message(&msg_content, 30);
    let v: serde_json::Value = serde_json::from_str(&r).unwrap();
    assert_eq!(v["tool_call_id"], "call_1");
    assert_eq!(v["content"].as_str().unwrap(), truncate_tool_result(&content, 30));
}

#[test]
fn truncate_tool_message_plain_text_fallback() {
    let text = "p".repeat(300);
    assert_eq!(truncate_tool_message(&text, 30), truncate_tool_result(&text, 30));
    let no_id = format!("{{\"content\":\"{}\"}}", "q".repeat(300));
    assert_eq!(truncate_tool_message(&no_id, 30), truncate_tool_result(&no_id, 30));
    assert_eq!(truncate_tool_message("tiny", 30), "tiny");
}

#[test]
fn fast_trim_tool_results_trims_only_old_tool_output() {
    let big = "z".repeat(5000);
    let mut history = vec![
        msg("user", &big),
        msg("tool", &big),
        msg("tool", "small"),
        msg("tool", &big),
    ];
    let saved = fast_trim_tool_results(&mut history, 1);
    assert_eq!(history[0].content, big);
    assert_eq!(history[2].content, "small");
    assert_eq!(history[3].content, big);
    assert_eq!(history[1].content, truncate_tool_result(&big, 2000));
    assert_eq!(saved, 5000 - history[1].content.len());
}

#[test]
fn remove_orphaned_tool_messages_drops_tools_without_assistant() {
    let mut history = vec![
        msg("system", "s"),
        msg("tool", "orphan"),
        msg("assistant", "calls"),
        msg("tool", "r1"),
        msg("tool", "r2"),
        msg("user", "u"),
        msg("tool", "orphan2"),
    ];
    let removed = remove_orphaned_tool_messages(&mut history);
    assert_eq!(removed, 2);
    assert_eq!(roles(&history), vec!["system", "assistant", "tool", "tool", "user"]);
}

#[test]
fn emergency_history_trim_drops_groups_and_keeps_system() {
    let mut history = vec![
        msg("system", "s"),
        msg("user", "u1"),
        msg("assistant", "a1"),
        msg("tool", "t1"),
        msg("tool", "t2"),
        msg("user", "u2"),
        msg("assistant", "a2"),
        msg("user", "u3"),
        msg("assistant", "a3"),
    ];
    // target: 9 / 3 = 3; drops u1, then the group a1+t1+t2 (4 in all)
    let dropped = emergency_history_trim(&mut history, 2);
    assert_eq!(dropped, 4);
    assert_eq!(roles(&history), vec!["system", "user", "assistant", "user", "assistant"]);
}

#[test]
fn emergency_history_trim_respects_keep_recent() {
    let mut history = vec![msg("user", "u1"), msg("assistant", "a1"), msg("user", "u2")];
    let dropped = emergency_history_trim(&mut history, 3);
    assert_eq!(dropped, 0);
    assert_eq!(history.len(), 3);
}

#[test]
fn trim_history_keeps_system_and_recent() {
    let mut history = vec![
        msg("system", "s"),
        msg("user", "u1"),
        msg("assistant", "a1"),
        msg("tool", "t1"),
        msg("user", "u2"),
    ];
    trim_history(&mut history, 2);
    // keeps system + last two ("tool", "user"); the tool is then orphaned
    assert_eq!(roles(&history), vec!["system", "user"]);
    let mut short = vec![msg("user", "u")];
    trim_history(&mut short, 5);
    assert_eq!(roles(&short), vec!["user"]);
}

#[test]
fn estimate_history_tokens_counts_four_bytes_per_token() {
    let history = vec![msg("user", "abcd"), msg("assistant", "abcde"), msg("tool", "")];
    assert_eq!(estimate_history_tokens(&history), (1 + 4) + (2 + 4) + (0 + 4));
}

#[test]
fn restore_session_history_inserts_system_prompt() {
    let fresh = restore_session_history(None, "be helpful");
    assert_eq!(roles(&fresh), vec!["system"]);
    assert_eq!(fresh[0].content, "be helpful");
    let empty = restore_session_history(Some(vec![]), "p");
    assert_eq!(roles(&empty), vec!["system"]);
    let no_system = restore_session_history(Some(vec![msg("user", "hi")]), "p");
    assert_eq!(roles(&no_system), vec!["system", "user"]);
    let with_system = restore_session_history(Some(vec![msg("system", "old"), msg("user", "hi")]), "p");
    assert_eq!(with_system[0].content, "old");
    assert_eq!(with_system.len(), 2);
}

#[test]
fn session_state_copies_history() {
    let history = vec![msg("system", "s"), msg("user", "u")];
    let state = InteractiveSessionState::from_history(&history);
    assert_eq!(state.version, 1);
    assert_eq!(roles(&state.history), vec!["system", "user"]);
}

#[test]
fn fast_trim_counts_a_grown_message_as_no_saving() {
    let just_over = "g".repeat(2001);
    let mut history = vec![msg("tool", &just_over), msg("user", "hi")];
    let saved = fast_trim_tool_results(&mut history, 1);
    assert_eq!(history[0].content, truncate_tool_result(&just_over, 2000));
    assert!(history[0].content.len() > 2001);
    assert_eq!(saved, 0);
}

#[test]
fn fast_trim_truncates_enveloped_tool_message() {
    let inner = "e".repeat(5000);
    let content = format!("{{\"tool_call_id\":\"call_9\",\"content\":\"{inner}\",\"extra\":1}}");
    let mut history = vec![msg("tool", &content), msg("user", "hi")];
    let saved = fast_trim_tool_results(&mut history, 1);
    let v: serde_json::Value = serde_json::from_str(&history[0].content).unwrap();
    assert_eq!(v["tool_call_id"], "call_9");
    assert_eq!(v["extra"], 1);
    assert_eq!(v["content"].as_str().unwrap(), truncate_tool_result(&inner, 2000));
    assert_eq!(saved, content.len() - history[0].content.len());
}

#[test]
fn estimate_history_tokens_adds_up() {
    let a = vec![msg("user", "abcde"), msg("assistant", "")];
    let b = vec![msg("tool", "12345678")];
    let mut both = a.iter().map(|m| msg(&m.role, &m.content)).collect::<Vec<_>>();
    both.extend(b.iter().map(|m| msg(&m.role, &m.content)));
    assert_eq!(estimate_history_tokens(&a), 6 + 4);
    assert_eq!(estimate_history_tokens(&both), estimate_history_tokens(&a) + estimate_history_tokens(&b));
    assert_eq!(estimate_history_tokens(&[]), 0);
}

#[test]
fn truncate_tool_message_keeps_fields_of_every_kind() {
    let inner = "w".repeat(400);
    let msg_content = format!(
        "{{\"tool_call_id\":\"call_2\",\"content\":\"{inner}\",\"n\":42,\"ok\":true,\"meta\":{{\"a\":[1,null,\"x\"]}}}}"
    );
    let r = truncate_tool_message(&msg_content, 50);
    let before: serde_json::Value = serde_json::from_str(&msg_content).unwrap();
    let after: serde_json::Value = serde_json::from_str(&r).unwrap();
    assert_eq!(after["tool_call_id"], before["tool_call_id"]);
    assert_eq!(after["n"], 42);
    assert_eq!(after["ok"], true);
    assert_eq!(after["meta"], before["meta"]);
    assert_eq!(after["content"].as_str().unwrap(), truncate_tool_result(&inner, 50));
}
