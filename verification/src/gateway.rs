//! The OpenAI-compatible `/v1/chat/completions` adapter: request checks,
//! session scoping, bearer authorization, and the conversion of agent turn
//! events into OpenAI chat-completion chunks.
use vstd::prelude::*;
use crate::ids::{is_lower_hex, random_uuid_simple, unix_timestamp_now};
use crate::text::{chars_of, occurs_at, push_str, str_eq, string_from_range, string_of, trim, trim_bounds};

verus! {

/// One message of an incoming chat-completion request.
pub struct ChatMessage {
    pub role: String,
    pub content: String,
}

/// An incoming `POST /v1/chat/completions` body.
pub struct ChatCompletionRequest {
    pub model: String,
    pub stream: bool,
    pub messages: Vec<ChatMessage>,
}

/// Why a chat-completion request is refused before any agent runs.
#[derive(Debug, PartialEq, Eq)]
pub enum RequestError {
    /// The request has no messages.
    EmptyMessages,
    /// No message of the request has the role `user`.
    NoUserMessage,
}

impl RequestError {
    /// The HTTP status of the refusal: 400 Bad Request.
    pub fn status(&self) -> (r: u16)
        ensures
            r == 400,
    {
        400
    }

    /// The text of the refusal.
    pub fn message(&self) -> (r: String)
        ensures
            *self is EmptyMessages ==> r@ == "messages must not be empty"@,
            *self is NoUserMessage ==> r@ == "no user message found in messages"@,
    {
        match self {
            RequestError::EmptyMessages => string_of("messages must not be empty"),
            RequestError::NoUserMessage => string_of("no user message found in messages"),
        }
    }
}

/// The index of the last message with the role `user`, if any.
pub open spec fn last_user_index(messages: Seq<ChatMessage>) -> Option<int>
    decreases messages.len(),
{
    if messages.len() == 0 {
        None
    } else if messages.last().role@ == "user"@ {
        Some(messages.len() - 1)
    } else {
        last_user_index(messages.drop_last())
    }
}

/// Check a chat-completion request and pick the user message the agent is
/// to answer: the content of the last `user` message.
pub fn validate_chat_request(req: &ChatCompletionRequest) -> (r: Result<String, RequestError>)
    ensures
        req.messages@.len() == 0 ==> r == Err::<String, RequestError>(RequestError::EmptyMessages),
        req.messages@.len() > 0 ==> match last_user_index(req.messages@) {
            None => r == Err::<String, RequestError>(RequestError::NoUserMessage),
            Some(i) => r matches Ok(s) && s@ == req.messages@[i].content@,
        },
{
    if req.messages.len() == 0 {
        return Err(RequestError::EmptyMessages);
    }
    let mut i = req.messages.len();
    assert(req.messages@.take(i as int) =~= req.messages@);
    while i > 0
        invariant
            i <= req.messages@.len(),
            last_user_index(req.messages@) == last_user_index(req.messages@.take(i as int)),
        decreases i,
    {
        proof {
            assert(req.messages@.take(i as int).drop_last() =~= req.messages@.take(i - 1));
        }
        if str_eq(req.messages[i - 1].role.as_str(), "user") {
            return Ok(string_of(req.messages[i - 1].content.as_str()));
        }
        i -= 1;
    }
    Err(RequestError::NoUserMessage)
}

/// The session id carried by an `X-Aura-Session-Id` header value: the value
/// trimmed, or `None` when the header is absent or blank.
pub fn session_id_from_header(value: Option<&str>) -> (r: Option<String>)
    ensures
        value is None ==> r is None,
        value matches Some(v) ==> if trim(v@).len() == 0 {
            r is None
        } else {
            r matches Some(id) && id@ == trim(v@)
        },
{
    match value {
        None => None,
        Some(v) => {
            let chars = chars_of(v);
            let (a, b) = trim_bounds(&chars, 0, chars.len());
            proof {
                assert(chars@.subrange(0, chars@.len() as int) =~= chars@);
            }
            if a == b {
                None
            } else {
                Some(string_from_range(&chars, a, b))
            }
        },
    }
}

/// The key under which a session's history is kept: `gw_` and the id.
pub fn session_key(session_id: &str) -> (r: String)
    ensures
        r@ == "gw_"@ + session_id@,
{
    let mut r = string_of("gw_");
    push_str(&mut r, session_id);
    r
}

/// Why a request is not authorized (HTTP 401).
#[derive(Debug, PartialEq, Eq)]
pub enum AuthError {
    /// No bearer token was sent.
    MissingToken,
    /// The bearer token matches neither the internal secret nor a paired
    /// token.
    InvalidToken,
}

impl AuthError {
    /// The HTTP status of the refusal: 401 Unauthorized.
    pub fn status(&self) -> (r: u16)
        ensures
            r == 401,
    {
        401
    }

    /// The text of the refusal.
    pub fn message(&self) -> (r: String)
        ensures
            *self is MissingToken ==> r@ == "missing bearer token"@,
            *self is InvalidToken ==> r@ == "invalid bearer token"@,
    {
        match self {
            AuthError::MissingToken => string_of("missing bearer token"),
            AuthError::InvalidToken => string_of("invalid bearer token"),
        }
    }
}

/// The token of an `Authorization` header value: what follows `Bearer `,
/// trimmed; empty when the header is absent or not a bearer header.
pub open spec fn bearer_of(header: Option<Seq<char>>) -> Seq<char> {
    match header {
        Some(h) => if h.len() >= 7 && h.take(7) == "Bearer "@ {
            trim(h.skip(7))
        } else {
            Seq::empty()
        },
        None => Seq::empty(),
    }
}

/// The next step of authorizing a bearer token.
pub enum AuthStep {
    /// The token is the internal secret: the request is authorized.
    Accepted,
    /// The request is refused.
    Rejected(AuthError),
    /// The token must be checked against the paired tokens.
    CheckPairing(String),
}

/// Authorize an `Authorization` header: a missing or empty bearer token is
/// refused; the internal secret (when configured) is accepted; any other
/// token must be a paired token.
pub fn authorize_bearer(header: Option<&str>, secret: Option<&str>) -> (r: AuthStep)
    ensures
        ({
            let bearer = bearer_of(
                match header {
                    Some(h) => Some(h@),
                    None => None,
                },
            );
            if bearer.len() == 0 {
                r matches AuthStep::Rejected(e) && e == AuthError::MissingToken
            } else if secret matches Some(s) && s@ == bearer {
                r is Accepted
            } else {
                r matches AuthStep::CheckPairing(t) && t@ == bearer
            }
        }),
{
    let bearer = match header {
        None => String::new(),
        Some(h) => {
            let v = chars_of(h);
            let prefix = chars_of("Bearer ");
            proof {
                reveal_strlit("Bearer ");
            }
            if occurs_at(&v, 0, &prefix) {
                proof {
                    assert(v@.take(7) =~= v@.subrange(0, 7));
                }
                let (a, b) = trim_bounds(&v, 7, v.len());
                proof {
                    assert(v@.subrange(7, v@.len() as int) =~= h@.skip(7));
                }
                string_from_range(&v, a, b)
            } else {
                proof {
                    if v@.len() >= 7 {
                        assert(v@.take(7) =~= v@.subrange(0, 7));
                    }
                }
                String::new()
            }
        },
    };
    if bearer.as_str().unicode_len() == 0 {
        return AuthStep::Rejected(AuthError::MissingToken);
    }
    // Case 1: the internal secret (from the environment) matches.
    if let Some(s) = secret {
        if str_eq(bearer.as_str(), s) {
            return AuthStep::Accepted;
        }
    }
    // Case 2: the token must be a paired token.
    AuthStep::CheckPairing(bearer)
}

/// The verdict once the paired-token check has answered.
pub fn pairing_verdict(paired: bool) -> (r: Result<(), AuthError>)
    ensures
        paired ==> r is Ok,
        !paired ==> r == Err::<(), AuthError>(AuthError::InvalidToken),
{
    if paired {
        Ok(())
    } else {
        Err(AuthError::InvalidToken)
    }
}

/// What the agent reports while it runs a turn.
pub enum TurnEvent {
    /// A piece of the assistant's answer.
    Chunk { delta: String },
    /// A piece of the model's reasoning.
    Thinking { delta: String },
    /// A tool call, with its arguments as JSON text.
    ToolCall { name: String, args: String },
    /// The output of a tool.
    ToolResult { name: String, output: String },
}

/// The `delta` of one chat-completion chunk.
#[derive(Debug, PartialEq, Eq)]
pub enum Delta {
    /// `{"role": "assistant"}`: the stream has started.
    AssistantRole,
    /// `{"content": ...}`.
    Content(String),
    /// `{"reasoning": ...}` (not standard OpenAI; strict clients ignore it).
    Reasoning(String),
    /// `{"tool_calls": [{"index", "id", "type": "function", "function": {"name", "arguments"}}]}`.
    ToolCall { index: u32, id: String, name: String, arguments: String },
    /// `{"tool_result": {"name", "output"}}` (not standard OpenAI).
    ToolResult { name: String, output: String },
    /// `{}`: the delta of a terminal chunk.
    Empty,
}

/// Why a stream or completion finished.
#[derive(Debug, PartialEq, Eq)]
pub enum FinishReason {
    /// `"stop"`: the turn ended normally.
    Stop,
    /// `"error"`: the turn failed.
    Error,
}

/// One OpenAI `chat.completion.chunk`: a single choice (index 0) with its
/// delta and finish reason.
pub struct ChatChunk {
    pub id: String,
    pub created: i64,
    pub model: String,
    pub delta: Delta,
    pub finish_reason: Option<FinishReason>,
}

/// A frame of the SSE stream sent to the client.
pub enum SseFrame {
    /// A `data: {json}` line holding one chunk.
    Delta(ChatChunk),
    /// The terminal `data: [DONE]` sentinel.
    Done,
}

/// Build one chat-completion chunk frame from a delta. `id` stays stable
/// across the frames of one response; `model` echoes the request's model;
/// `created` is the current time.
pub fn build_chunk(id: &str, model: &str, delta: Delta, finish_reason: Option<FinishReason>) -> (c: ChatChunk)
    ensures
        c.id@ == id@,
        c.model@ == model@,
        c.delta == delta,
        c.finish_reason == finish_reason,
{
    let created = unix_timestamp_now();
    ChatChunk { id: string_of(id), created, model: string_of(model), delta, finish_reason }
}

/// A fresh identifier with the given prefix and a random UUID in simple form.
pub open spec fn is_prefixed_uuid(s: Seq<char>, prefix: Seq<char>) -> bool {
    &&& s.len() == prefix.len() + 32
    &&& s.take(prefix.len() as int) == prefix
    &&& forall|i: int| prefix.len() <= i < s.len() ==> is_lower_hex(#[trigger] s[i])
}

fn prefixed_uuid(prefix: &str) -> (r: String)
    ensures
        is_prefixed_uuid(r@, prefix@),
{
    let mut r = string_of(prefix);
    let u = random_uuid_simple();
    push_str(&mut r, u.as_str());
    proof {
        assert(r@.take(prefix@.len() as int) =~= prefix@);
        assert forall|i: int| prefix@.len() <= i < r@.len() implies is_lower_hex(#[trigger] r@[i]) by {
            assert(r@[i] == u@[i - prefix@.len()]);
        }
    }
    r
}

/// A fresh completion id: `chatcmpl-` and a random UUID.
pub fn new_completion_id() -> (r: String)
    ensures
        is_prefixed_uuid(r@, "chatcmpl-"@),
{
    prefixed_uuid("chatcmpl-")
}

/// A fresh tool-call id: `call_` and a random UUID.
pub fn new_tool_call_id() -> (r: String)
    ensures
        is_prefixed_uuid(r@, "call_"@),
{
    prefixed_uuid("call_")
}

/// The delta that a turn event becomes, given the tool-call index it gets
/// and the id of the tool call.
pub open spec fn event_delta(event: TurnEvent, index: u32, call_id: Seq<char>, delta: Delta) -> bool {
    match event {
        TurnEvent::Chunk { delta: d } => delta matches Delta::Content(c) && c@ == d@,
        TurnEvent::Thinking { delta: d } => delta matches Delta::Reasoning(c) && c@ == d@,
        TurnEvent::ToolCall { name, args } => delta matches Delta::ToolCall { index: i, id, name: n, arguments } && i
            == index && id@ == call_id && n@ == name@ && arguments@ == args@,
        TurnEvent::ToolResult { name, output } => delta matches Delta::ToolResult { name: n, output: o } && n@
            == name@ && o@ == output@,
    }
}

/// Translate one turn event into the chunk frames it is streamed as: a
/// single frame, with no finish reason, whose delta carries the event.
/// `tool_call_index` is the running counter for `tool_calls[].index`: each
/// tool call takes the current value and advances it by one; other events
/// leave it alone.
pub fn translate_turn_event(event: TurnEvent, id: &str, model: &str, tool_call_index: &mut u32) -> (frames: Vec<ChatChunk>)
    requires
        event is ToolCall ==> *old(tool_call_index) < u32::MAX,
    ensures
        frames@.len() == 1,
        frames@[0].id@ == id@,
        frames@[0].model@ == model@,
        frames@[0].finish_reason is None,
        event is ToolCall ==> *final(tool_call_index) == *old(tool_call_index) + 1,
        !(event is ToolCall) ==> *final(tool_call_index) == *old(tool_call_index),
        exists|call_id: Seq<char>| #[trigger] event_delta(event, *old(tool_call_index), call_id, frames@[0].delta),
        event is ToolCall ==> exists|call_id: Seq<char>| #[trigger] is_prefixed_uuid(call_id, "call_"@)
            && event_delta(event, *old(tool_call_index), call_id, frames@[0].delta),
{
    let ghost ev = event;
    let ghost idx = *tool_call_index;
    let delta = match event {
        TurnEvent::Chunk { delta } => Delta::Content(delta),
        TurnEvent::Thinking { delta } => {
            // OpenAI has no standard "thinking" delta field: emitted as a
            // non-standard field that Aura-aware clients can surface.
            Delta::Reasoning(delta)
        },
        TurnEvent::ToolCall { name, args } => {
            let index = *tool_call_index;
            *tool_call_index = *tool_call_index + 1;
            let call_id = new_tool_call_id();
            let d = Delta::ToolCall { index, id: call_id, name, arguments: args };
            assert(is_prefixed_uuid(call_id@, "call_"@) && event_delta(ev, idx, call_id@, d));
            d
        },
        TurnEvent::ToolResult { name, output } => {
            // OpenAI SSE has no native "tool result in stream": emitted as a
            // non-standard `tool_result` field.
            Delta::ToolResult { name, output }
        },
    };
    proof {
        if !(ev is ToolCall) {
            assert(event_delta(ev, idx, Seq::empty(), delta));
        }
    }
    let frame = build_chunk(id, model, delta, None);
    vec![frame]
}

/// The finish reason for a turn's outcome: `stop` when it succeeded,
/// `error` when it failed.
pub fn finish_reason_for(turn_ok: bool) -> (r: FinishReason)
    ensures
        turn_ok ==> r == FinishReason::Stop,
        !turn_ok ==> r == FinishReason::Error,
{
    if turn_ok {
        FinishReason::Stop
    } else {
        FinishReason::Error
    }
}

/// Where a stream stands: nothing sent yet, opened with the role frame, or
/// closed with the finish frame and `[DONE]`.
pub enum StreamPhase {
    Fresh,
    Open,
    Closed,
}

/// The kind of a frame, as the streaming protocol orders them.
pub enum FrameKind {
    /// The opening `role: assistant` chunk.
    Role,
    /// A chunk carrying one turn event.
    Event,
    /// The closing chunk with a finish reason.
    Finish,
    /// The `[DONE]` sentinel.
    Done,
}

/// The kind of a frame.
pub open spec fn frame_kind(f: SseFrame) -> FrameKind {
    match f {
        SseFrame::Done => FrameKind::Done,
        SseFrame::Delta(c) => if c.delta == Delta::AssistantRole {
            FrameKind::Role
        } else if c.finish_reason is Some {
            FrameKind::Finish
        } else {
            FrameKind::Event
        },
    }
}

/// The kinds of a run of frames.
pub open spec fn frame_kinds(frames: Seq<SseFrame>) -> Seq<FrameKind> {
    frames.map_values(|f: SseFrame| frame_kind(f))
}

/// The frames sent so far follow the protocol for the phase: none before
/// the stream opens; once open, the role frame first and then only event
/// frames; once closed, those followed by the finish frame and `[DONE]`,
/// and nothing after.
pub open spec fn follows_protocol(sent: Seq<FrameKind>, phase: StreamPhase) -> bool {
    match phase {
        StreamPhase::Fresh => sent.len() == 0,
        StreamPhase::Open => sent.len() >= 1 && sent[0] == FrameKind::Role && forall|i: int|
            1 <= i < sent.len() ==> #[trigger] sent[i] == FrameKind::Event,
        StreamPhase::Closed => {
            &&& sent.len() >= 3
            &&& sent[0] == FrameKind::Role
            &&& forall|i: int| 1 <= i < sent.len() - 2 ==> #[trigger] sent[i] == FrameKind::Event
            &&& sent[sent.len() - 2] == FrameKind::Finish
            &&& sent[sent.len() - 1] == FrameKind::Done
        },
    }
}

/// `f` is the opening chunk of the stream `id` for `model`.
pub open spec fn is_role_frame(f: SseFrame, id: Seq<char>, model: Seq<char>) -> bool {
    f matches SseFrame::Delta(c) && c.id@ == id && c.model@ == model && c.delta == Delta::AssistantRole
        && c.finish_reason is None
}

/// `f` is the chunk that carries `event`, the tool call (if it is one)
/// taking the index `index`.
pub open spec fn is_event_frame(f: SseFrame, id: Seq<char>, model: Seq<char>, event: TurnEvent, index: u32) -> bool {
    f matches SseFrame::Delta(c) && c.id@ == id && c.model@ == model && c.finish_reason is None && exists|
        call_id: Seq<char>,
    | #[trigger] event_delta(event, index, call_id, c.delta)
}

/// `f` is the closing chunk for a turn that succeeded (`ok`) or failed.
pub open spec fn is_finish_frame(f: SseFrame, id: Seq<char>, model: Seq<char>, ok: bool) -> bool {
    f matches SseFrame::Delta(c) && c.id@ == id && c.model@ == model && c.delta == Delta::Empty && c.finish_reason
        == Some(if ok { FinishReason::Stop } else { FinishReason::Error })
}

/// The state of one streamed chat completion: its id, the model it echoes,
/// the number of tool calls streamed so far, and where the stream stands.
/// Every frame of the stream comes from it, so they go out in protocol
/// order: the role frame, the event frames, the finish frame and `[DONE]`.
pub struct ChatStream {
    id: String,
    model: String,
    tool_call_index: u32,
    phase: StreamPhase,
    sent: Ghost<Seq<FrameKind>>,
}

impl ChatStream {
    /// The completion id every frame carries.
    pub closed spec fn stream_id(&self) -> Seq<char> {
        self.id@
    }

    /// The model every frame echoes.
    pub closed spec fn stream_model(&self) -> Seq<char> {
        self.model@
    }

    /// The index the next streamed tool call takes.
    pub closed spec fn tool_calls(&self) -> u32 {
        self.tool_call_index
    }

    /// The index the next streamed tool call takes.
    pub fn next_tool_call_index(&self) -> (r: u32)
        ensures
            r == self.tool_calls(),
    {
        self.tool_call_index
    }

    /// Where the stream stands.
    pub closed spec fn phase(&self) -> StreamPhase {
        self.phase
    }

    /// The kinds of the frames the stream has given out, in order.
    pub closed spec fn sent(&self) -> Seq<FrameKind> {
        self.sent@
    }

    /// The frames given out follow the protocol for the phase.
    pub closed spec fn wf(&self) -> bool {
        follows_protocol(self.sent@, self.phase)
    }

    /// A new stream: nothing sent, no tool call streamed yet.
    pub fn new(id: &str, model: &str) -> (s: Self)
        ensures
            s.wf(),
            s.stream_id() == id@,
            s.stream_model() == model@,
            s.tool_calls() == 0,
            s.phase() == StreamPhase::Fresh,
            s.sent() == Seq::<FrameKind>::empty(),
    {
        ChatStream {
            id: string_of(id),
            model: string_of(model),
            tool_call_index: 0,
            phase: StreamPhase::Fresh,
            sent: Ghost(Seq::empty()),
        }
    }

    /// Whether the stream has been closed.
    pub fn is_closed(&self) -> (r: bool)
        ensures
            r == (self.phase() == StreamPhase::Closed),
    {
        match self.phase {
            StreamPhase::Closed => true,
            _ => false,
        }
    }

    /// The frame that opens the stream, `role: assistant`, so clients know
    /// the answer has started; nothing once the stream is open or closed.
    pub fn opener(&mut self) -> (frames: Vec<SseFrame>)
        requires
            old(self).wf(),
        ensures
            final(self).wf(),
            final(self).stream_id() == old(self).stream_id(),
            final(self).stream_model() == old(self).stream_model(),
            final(self).tool_calls() == old(self).tool_calls(),
            final(self).sent() == old(self).sent() + frame_kinds(frames@),
            old(self).phase() == StreamPhase::Fresh ==> frames@.len() == 1 && is_role_frame(
                frames@[0],
                old(self).stream_id(),
                old(self).stream_model(),
            ) && final(self).phase() == StreamPhase::Open,
            old(self).phase() != StreamPhase::Fresh ==> frames@.len() == 0 && final(self).phase()
                == old(self).phase(),
    {
        match self.phase {
            StreamPhase::Fresh => {
                let f = SseFrame::Delta(build_chunk(self.id.as_str(), self.model.as_str(), Delta::AssistantRole, None));
                proof {
                    self.sent = Ghost(self.sent@.push(frame_kind(f)));
                }
                self.phase = StreamPhase::Open;
                let frames = vec![f];
                proof {
                    assert(frame_kinds(frames@) =~= seq![FrameKind::Role]);
                }
                frames
            },
            _ => {
                let frames: Vec<SseFrame> = Vec::new();
                proof {
                    assert(frame_kinds(frames@) =~= Seq::<FrameKind>::empty());
                    assert(self.sent@ + frame_kinds(frames@) =~= self.sent@);
                }
                frames
            },
        }
    }

    /// The frames for one turn event (see `translate_turn_event`): its
    /// chunk, after the role frame if the stream was not yet open; nothing
    /// once the stream is closed (the event is dropped and the tool-call
    /// counter stays).
    pub fn on_event(&mut self, event: TurnEvent) -> (frames: Vec<SseFrame>)
        requires
            old(self).wf(),
            event is ToolCall ==> old(self).tool_calls() < u32::MAX,
        ensures
            final(self).wf(),
            final(self).stream_id() == old(self).stream_id(),
            final(self).stream_model() == old(self).stream_model(),
            final(self).sent() == old(self).sent() + frame_kinds(frames@),
            old(self).phase() == StreamPhase::Closed ==> frames@.len() == 0 && final(self).phase()
                == StreamPhase::Closed && final(self).tool_calls() == old(self).tool_calls(),
            old(self).phase() != StreamPhase::Closed ==> {
                &&& final(self).phase() == StreamPhase::Open
                &&& event is ToolCall ==> final(self).tool_calls() == old(self).tool_calls() + 1
                &&& !(event is ToolCall) ==> final(self).tool_calls() == old(self).tool_calls()
                &&& old(self).phase() == StreamPhase::Open ==> frames@.len() == 1 && is_event_frame(
                    frames@[0],
                    old(self).stream_id(),
                    old(self).stream_model(),
                    event,
                    old(self).tool_calls(),
                )
                &&& old(self).phase() == StreamPhase::Fresh ==> frames@.len() == 2 && is_role_frame(
                    frames@[0],
                    old(self).stream_id(),
                    old(self).stream_model(),
                ) && is_event_frame(frames@[1], old(self).stream_id(), old(self).stream_model(), event, old(self).tool_calls())
            },
    {
        if self.is_closed() {
            let frames: Vec<SseFrame> = Vec::new();
            proof {
                assert(frame_kinds(frames@) =~= Seq::<FrameKind>::empty());
                assert(self.sent@ + frame_kinds(frames@) =~= self.sent@);
            }
            return frames;
        }
        let ghost ev = event;
        let ghost idx = self.tool_call_index;
        let mut frames = self.opener();
        let mut chunks = translate_turn_event(event, self.id.as_str(), self.model.as_str(), &mut self.tool_call_index);
        let chunk = chunks.pop().unwrap();
        let f = SseFrame::Delta(chunk);
        proof {
            let c = chunk;
            let call_id = choose|call_id: Seq<char>| #[trigger] event_delta(ev, idx, call_id, c.delta);
            assert(event_delta(ev, idx, call_id, c.delta));
            assert(c.delta != Delta::AssistantRole);
            assert(frame_kind(f) == FrameKind::Event);
            self.sent = Ghost(self.sent@.push(frame_kind(f)));
        }
        let ghost before = frames@;
        frames.push(f);
        proof {
            assert(frame_kinds(frames@) =~= frame_kinds(before).push(FrameKind::Event));
        }
        frames
    }

    /// The frames that close the stream: a chunk with an empty delta and
    /// the finish reason for the turn's outcome, then `[DONE]`, after the
    /// role frame if the stream was not yet open; nothing once closed.
    pub fn finish(&mut self, turn_ok: bool) -> (frames: Vec<SseFrame>)
        requires
            old(self).wf(),
        ensures
            final(self).wf(),
            final(self).stream_id() == old(self).stream_id(),
            final(self).stream_model() == old(self).stream_model(),
            final(self).tool_calls() == old(self).tool_calls(),
            final(self).sent() == old(self).sent() + frame_kinds(frames@),
            final(self).phase() == StreamPhase::Closed,
            old(self).phase() == StreamPhase::Closed ==> frames@.len() == 0,
            old(self).phase() == StreamPhase::Open ==> frames@.len() == 2 && is_finish_frame(
                frames@[0],
                old(self).stream_id(),
                old(self).stream_model(),
                turn_ok,
            ) && frames@[1] is Done,
            old(self).phase() == StreamPhase::Fresh ==> frames@.len() == 3 && is_role_frame(
                frames@[0],
                old(self).stream_id(),
                old(self).stream_model(),
            ) && is_finish_frame(frames@[1], old(self).stream_id(), old(self).stream_model(), turn_ok) && frames@[2] is Done,
    {
        if self.is_closed() {
            let frames: Vec<SseFrame> = Vec::new();
            proof {
                assert(frame_kinds(frames@) =~= Seq::<FrameKind>::empty());
                assert(self.sent@ + frame_kinds(frames@) =~= self.sent@);
            }
            return frames;
        }
        let mut frames = self.opener();
        let chunk = build_chunk(self.id.as_str(), self.model.as_str(), Delta::Empty, Some(finish_reason_for(turn_ok)));
        let f = SseFrame::Delta(chunk);
        let ghost before = frames@;
        frames.push(f);
        frames.push(SseFrame::Done);
        proof {
            assert(frame_kind(f) == FrameKind::Finish);
            assert(frame_kinds(frames@) =~= frame_kinds(before).push(FrameKind::Finish).push(FrameKind::Done));
            self.sent = Ghost(self.sent@.push(FrameKind::Finish).push(FrameKind::Done));
        }
        self.phase = StreamPhase::Closed;
        proof {
            let k = self.sent@;
            assert(k.len() >= 3);
            assert forall|i: int| 1 <= i < k.len() - 2 implies #[trigger] k[i] == FrameKind::Event by {
                assert(k[i] == old(self).sent()[i] || k[i] == frame_kinds(before)[i - old(self).sent().len()]);
            }
        }
        frames
    }
}

/// Frame order, over every sequence of calls on a stream: nothing is sent
/// before it opens; the first frame is the role frame; every frame after
/// it is an event frame until the finish frame, which is followed by
/// `[DONE]` and nothing more.
pub proof fn lemma_stream_frame_order(s: &ChatStream)
    requires
        s.wf(),
    ensures
        follows_protocol(s.sent(), s.phase()),
        s.sent().len() > 0 ==> s.sent()[0] == FrameKind::Role,
        forall|i: int| 0 <= i < s.sent().len() && #[trigger] s.sent()[i] == FrameKind::Done ==> i == s.sent().len() - 1,
{
}

/// A complete (non-streaming) `chat.completion`: one choice (index 0) with
/// the assistant's answer, finished with `stop`.
pub struct ChatCompletion {
    pub id: String,
    pub created: i64,
    pub model: String,
    pub content: String,
}

/// The non-streaming response for a finished turn: a fresh completion id,
/// the current time, the requested model and the answer.
pub fn completion_response(model: &str, content: &str) -> (r: ChatCompletion)
    ensures
        is_prefixed_uuid(r.id@, "chatcmpl-"@),
        r.model@ == model@,
        r.content@ == content@,
{
    let id = new_completion_id();
    let created = unix_timestamp_now();
    ChatCompletion { id, created, model: string_of(model), content: string_of(content) }
}

/// What to do once a turn has run.
pub struct AfterTurn {
    /// Append the user message and the answer to the session's history.
    pub persist_history: bool,
    /// Consolidate the turn into memory in the background.
    pub consolidate_memory: bool,
}

/// After a turn: a successful turn is persisted when a session backend is
/// configured and the request named a session, and consolidated into
/// memory when auto-save is on; a failed turn does neither.
pub fn after_turn(turn_ok: bool, has_backend: bool, has_session: bool, auto_save: bool) -> (r: AfterTurn)
    ensures
        r.persist_history == (turn_ok && has_backend && has_session),
        r.consolidate_memory == (turn_ok && auto_save),
{
    AfterTurn { persist_history: turn_ok && has_backend && has_session, consolidate_memory: turn_ok && auto_save }
}

/// Prior history is loaded to seed the agent only when a session backend is
/// configured and the request named a session.
pub fn should_seed_history(has_backend: bool, has_session: bool) -> (r: bool)
    ensures
        r == (has_backend && has_session),
{
    has_backend && has_session
}

} // verus!
