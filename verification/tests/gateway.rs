use zeroclaw::gateway::{
    after_turn, authorize_bearer, completion_response, new_completion_id, pairing_verdict,
    session_id_from_header, session_key, translate_turn_event, validate_chat_request, AuthError, AuthStep,
    ChatCompletionRequest, ChatMessage, ChatStream, Delta, FinishReason, RequestError, SseFrame, TurnEvent,
};

fn message(role: &str, content: &str) -> ChatMessage {
    ChatMessage { role: role.to_string(), content: content.to_string() }
}

#[test]
fn chunk_event_emits_content_delta() {
    let mut idx = 0;
    let frames = translate_turn_event(TurnEvent::Chunk { delta: "hi".to_string() }, "chatcmpl-test", "m", &mut idx);
    assert_eq!(frames.len(), 1);
    assert_eq!(frames[0].delta, Delta::Content("hi".to_string()));
    assert_eq!(idx, 0, "content chunk should not advance tool index");
}

#[test]
fn thinking_event_emits_reasoning_field() {
    let mut idx = 0;
    let frames =
        translate_turn_event(TurnEvent::Thinking { delta: "pondering".to_string() }, "chatcmpl-test", "m", &mut idx);
    assert_eq!(frames.len(), 1);
    assert_eq!(frames[0].delta, Delta::Reasoning("pondering".to_string()));
    assert_eq!(idx, 0);
}

#[test]
fn tool_call_event_emits_tool_calls_with_index() {
    let mut idx = 5;
    let frames = translate_turn_event(
        TurnEvent::ToolCall { name: "shell".to_string(), args: "{\"cmd\":\"echo hi\"}".to_string() },
        "chatcmpl-test",
        "m",
        &mut idx,
    );
    match &frames[0].delta {
        Delta::ToolCall { index, id, name, arguments } => {
            assert_eq!(*index, 5);
            assert!(id.starts_with("call_"));
            assert_eq!(name, "shell");
            assert!(arguments.contains("echo hi"));
        }
        other => panic!("unexpected delta {other:?}"),
    }
    assert_eq!(idx, 6, "tool call should advance index by 1");
}

#[test]
fn tool_result_event_emits_nonstandard_tool_result_field() {
    let mut idx = 0;
    let frames = translate_turn_event(
        TurnEvent::ToolResult { name: "shell".to_string(), output: "hi\n".to_string() },
        "chatcmpl-test",
        "m",
        &mut idx,
    );
    assert_eq!(frames[0].delta, Delta::ToolResult { name: "shell".to_string(), output: "hi\n".to_string() });
    assert_eq!(frames[0].id, "chatcmpl-test");
    assert_eq!(frames[0].finish_reason, None);
}

#[test]
fn read_session_id_returns_some_when_header_present() {
    assert_eq!(session_id_from_header(Some("imsg_abc123def456")), Some("imsg_abc123def456".to_string()));
}

#[test]
fn read_session_id_returns_none_when_header_absent() {
    assert_eq!(session_id_from_header(None), None);
}

#[test]
fn read_session_id_trims_whitespace_and_rejects_empty() {
    assert_eq!(session_id_from_header(Some("   ")), None);
    assert_eq!(session_id_from_header(Some("  abc \t")), Some("abc".to_string()));
}

#[test]
fn session_key_format_matches_design() {
    let id = "imsg_abc123";
    assert_eq!(session_key(id), "gw_imsg_abc123");
}

#[test]
fn authorize_accepts_aura_internal_secret() {
    let secret = "deadbeef";
    let header_value = format!("Bearer {secret}");
    assert!(matches!(authorize_bearer(Some(&header_value), Some(secret)), AuthStep::Accepted));
    match authorize_bearer(Some(&header_value), None) {
        AuthStep::CheckPairing(token) => assert_eq!(token, secret),
        _ => panic!("token should go to the pairing check"),
    }
}

#[test]
fn authorize_rejects_missing_or_blank_bearer() {
    assert!(matches!(authorize_bearer(None, Some("s")), AuthStep::Rejected(AuthError::MissingToken)));
    assert!(matches!(authorize_bearer(Some("Bearer    "), Some("s")), AuthStep::Rejected(AuthError::MissingToken)));
    assert!(matches!(authorize_bearer(Some("Basic abc"), None), AuthStep::Rejected(AuthError::MissingToken)));
    assert_eq!(pairing_verdict(false), Err(AuthError::InvalidToken));
    assert_eq!(pairing_verdict(true), Ok(()));
    assert_eq!(AuthError::MissingToken.message(), "missing bearer token");
    assert_eq!(AuthError::InvalidToken.status(), 401);
}

#[test]
fn validate_chat_request_picks_last_user_message() {
    let empty = ChatCompletionRequest { model: "m".to_string(), stream: false, messages: vec![] };
    assert_eq!(validate_chat_request(&empty), Err(RequestError::EmptyMessages));
    let no_user = ChatCompletionRequest {
        model: "m".to_string(),
        stream: true,
        messages: vec![message("system", "s"), message("assistant", "a")],
    };
    assert_eq!(validate_chat_request(&no_user), Err(RequestError::NoUserMessage));
    let ok = ChatCompletionRequest {
        model: "m".to_string(),
        stream: true,
        messages: vec![message("user", "first"), message("assistant", "a"), message("user", "second")],
    };
    assert_eq!(validate_chat_request(&ok), Ok("second".to_string()));
    assert_eq!(RequestError::EmptyMessages.message(), "messages must not be empty");
    assert_eq!(RequestError::NoUserMessage.message(), "no user message found in messages");
    assert_eq!(RequestError::NoUserMessage.status(), 400);
}

#[test]
fn stream_opens_counts_tool_calls_and_finishes() {
    let mut stream = ChatStream::new("chatcmpl-1", "model-x");
    let open = stream.opener();
    assert_eq!(open.len(), 1);
    assert!(stream.opener().is_empty());
    match &open[0] {
        SseFrame::Delta(c) => {
            assert_eq!(c.delta, Delta::AssistantRole);
            assert_eq!(c.model, "model-x");
        }
        SseFrame::Done => panic!("opener must be a delta"),
    }
    let _ = stream.on_event(TurnEvent::ToolCall { name: "a".to_string(), args: "{}".to_string() });
    let frames = stream.on_event(TurnEvent::ToolCall { name: "b".to_string(), args: "{}".to_string() });
    match &frames[0] {
        SseFrame::Delta(c) => assert!(matches!(c.delta, Delta::ToolCall { index: 1, .. })),
        SseFrame::Done => panic!("expected a delta"),
    }
    assert_eq!(frames.len(), 1);
    assert_eq!(stream.next_tool_call_index(), 2);
    let end = stream.finish(false);
    assert_eq!(end.len(), 2);
    match &end[0] {
        SseFrame::Delta(c) => {
            assert_eq!(c.delta, Delta::Empty);
            assert_eq!(c.finish_reason, Some(FinishReason::Error));
        }
        SseFrame::Done => panic!("expected the finish chunk first"),
    }
    assert!(matches!(end[1], SseFrame::Done));
    assert!(stream.is_closed());
    assert!(stream.on_event(TurnEvent::Chunk { delta: "late".to_string() }).is_empty());
    assert!(stream.finish(true).is_empty());
    assert!(stream.opener().is_empty());
}

#[test]
fn stream_frames_keep_protocol_order_from_any_start() {
    let mut stream = ChatStream::new("chatcmpl-2", "model-y");
    let first = stream.on_event(TurnEvent::Chunk { delta: "hi".to_string() });
    assert_eq!(first.len(), 2);
    match (&first[0], &first[1]) {
        (SseFrame::Delta(a), SseFrame::Delta(b)) => {
            assert_eq!(a.delta, Delta::AssistantRole);
            assert_eq!(b.delta, Delta::Content("hi".to_string()));
            assert_eq!(b.finish_reason, None);
        }
        _ => panic!("expected the role chunk, then the content chunk"),
    }

    let mut failed = ChatStream::new("chatcmpl-3", "model-z");
    let end = failed.finish(false);
    assert_eq!(end.len(), 3);
    match (&end[0], &end[1]) {
        (SseFrame::Delta(a), SseFrame::Delta(b)) => {
            assert_eq!(a.delta, Delta::AssistantRole);
            assert_eq!(b.finish_reason, Some(FinishReason::Error));
        }
        _ => panic!("expected the role chunk, then the finish chunk"),
    }
    assert!(matches!(end[2], SseFrame::Done));
}

#[test]
fn completion_ids_and_after_turn_plan() {
    let id = new_completion_id();
    assert!(id.starts_with("chatcmpl-"));
    assert_eq!(id.len(), "chatcmpl-".len() + 32);
    assert!(id["chatcmpl-".len()..].chars().all(|c| c.is_ascii_hexdigit() && !c.is_ascii_uppercase()));
    assert_ne!(new_completion_id(), id);
    let body = completion_response("m", "answer");
    assert_eq!(body.content, "answer");
    let plan = after_turn(true, true, false, true);
    assert!(!plan.persist_history);
    assert!(plan.consolidate_memory);
    let failed = after_turn(false, true, true, true);
    assert!(!failed.persist_history && !failed.consolidate_memory);
}
