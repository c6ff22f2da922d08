# merlin

A Matrix assistant. It answers when it is addressed in a room, remembers what it is told to, searches
the archive of its rooms by text and by meaning, runs scripts in a sandbox, and works on a schedule.

- `src/` is the library: what merlin decides and computes, each function with a contract that Verus
  proves. It performs no I/O. Where something has to be done outside, it says what: a statement for
  the database, a request to send, a tool to call. It takes up what came of it in the next call.
- `app/` is the program around it: the homeserver, the model provider, SQLite, files, processes and
  time.
- `tests/` runs the library on concrete values.

## Modules

| module | what it holds |
| --- | --- |
| `agent` | a turn: the prompt, the rounds of tool calls, the answer |
| `llm` | messages on the wire, requests, the streamed answer, which failures are repeated |
| `tools`, `definitions` | the tools: how they are offered, planned and answered |
| `query`, `search`, `memory`, `messages`, `rank`, `embed` | what is looked for, in which order, and how it is ranked |
| `notes`, `tables` | what the statements about notes, vectors, messages and jobs do to a database |
| `db`, `cron`, `scheduler`, `dream` | statements, migrations, jobs |
| `room`, `matrix`, `commands`, `backfill` | messages of a room and what becomes of them |
| `config`, `cli` | settings, roles, arguments |
| `workspace`, `exec`, `image` | files, scripts, pictures |
| `page` | which web pages can be laid out as text |
| `text`, `json`, `outside` | strings, JSON values, and what is taken from other crates |

Laws, which relate several functions, are public proof functions whose names begin with `law_`.

## What is trusted

The functions marked `external_body` and the `assume_specification` items in `text`, `json` and
`outside` are believed rather than proved. Each says which function of another crate it calls and what
it claims of it.
