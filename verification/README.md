# agent-shim-providers

Talks to language-model services in their own dialects: OpenAI-compatible chat
completions and Responses, Anthropic Messages, DeepSeek, GLM, Gemini and GitHub
Copilot. A request comes in one canonical form and is planned as an HTTP
request of the service; a reply, whole or streamed, comes back as one canonical
sequence of events.

- `src/` is the verified library. It builds request bodies, plans requests,
  reads replies, frames streams, and decides what to do with tokens and errors.
  Its contracts speak of JSON trees (`json::Tree`), events (`stream::Event`) and
  texts as sequences of characters. `lifecycle` states the rule that a sequence
  of events obeys; the `envelope` modules prove which parsers keep it. `grammar`
  says what a JSON value is, byte by byte; the scanners are proved against it.
- `tests/` runs the library on concrete replies and requests.
- `app/` is the network around it: HTTP, server-sent events, the credential
  file, the login and the task that keeps tokens.

The library calls `serde_json` (parsing and printing), `base64`, `url` and the
header types of `reqwest`. Each call stands in one small function that says
what is relied on.
