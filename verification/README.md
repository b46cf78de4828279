# Kamui

A coding assistant for the terminal. It talks to any server with an OpenAI-style
API, keeps its conversations in a local database, and lets the model read, change
and run things in the project that it was started in.

The rules of the assistant are a library whose every item is verified with Verus;
the program around it does the input and output.

## Layout

- `src/`: the library.
  - Texts: `text`, `scan`, `split`, `number`, `bytes`, `order`, `table`.
  - Settings: `config`, `settings`, `resolve`, `profiles`, `onboarding`, `args`.
  - The model: `provider`, `openai`, `json`, `prompt`.
  - The project: `path`, `context`, `patch`, `index`, `revert`.
  - Tools: `tools`, `command`, `mcp`, `memory`, `skills`.
  - The conversation: `storage`, `mode`, `batch`, `turn`, `chat`, `commands`,
    `dispatch`, `dialog`.
  - The screen: `tui`, `snippet`, `reports`, `panel`, `sidebar`.
- `tests/`: the library seen from outside.
- `app/`: the program. It reads and writes files, the network, the database and the
  terminal, and asks the library what to do.

## What is stated

Each function says in its contract what it returns. What holds of several functions
together is stated by a proof function whose name begins with `law_`: that a change to
a file stays inside the project, that nothing which changes something runs unasked,
that a turn makes a bounded number of requests, that a session's settings never take a
key from the project's own file, and so on.

What the library has from other crates (reading TOML and JSON, base64, PNG, the local
time, random identifiers) stands behind small functions marked
`#[verifier::external_body]`, each with a comment that says what it claims.
