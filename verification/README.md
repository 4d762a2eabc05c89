# zeroclaw

The decision logic of the ZeroClaw agent runtime's conversation upkeep,
durable-fact extraction, OpenAI-compatible gateway and usage reporting,
written in Verus with its contracts proved.

- `src/` — the verified library:
  - `history` — UTF-8-safe truncation of tool output, trimming of tool
    results and of old messages (tool groups kept whole, orphaned tool
    messages removed), token estimate, session-history restore;
  - `facts` — the turn buffer, fact-line parsing, key normalization,
    redaction screening, and the steps of an extraction;
  - `gateway` — request checks, session scoping, bearer authorization and
    the chat-completion chunk stream;
  - `usage_reporter`, `usage_reporter_fire_and_forget`, `aura_usage` — the
    usage reports and their ids;
  - `json`, `ids`, `text` — the calls into `serde_json`, `uuid`, `chrono`
    and std that the logic makes, and shared character-level helpers.
- `app/` — the I/O around it: the axum handler, session files, model and
  memory calls, HTTP posts of usage reports, serde copies of wire types.
- `tests/` — tests of the library.
