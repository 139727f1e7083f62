# qwen2api-rs

The verified core of a gateway that offers one upstream chat service under the common chat
protocols: what requests mean, what the upstream is asked, what the clients are answered, and
how calls of tools are read out of plain text.

The library under `src/` is written in Verus. Every function states what it returns and is
proved to return it; what crosses several functions stands beside them as a proved law. The
program under `app/` reads, sends and waits, and leaves every decision to the library.

## Layout

| Path | What is there |
| --- | --- |
| `src/toolcall` | tools and their names, the instructions for the model, reading calls, taking them out |
| `src/execution` | what a completion brings forth, and the event streams that clients see |
| `src/request` | requests of the different protocols as requests of one kind |
| `src/upstream` | the body of a request to the upstream |
| `src/context` | files that come with a request, and the course of an upload |
| `src/media` | links to images and videos, trying again, tasks |
| `src/api` | what the endpoints take and give |
| `src/account.rs`, `src/refresh.rs` | when an account may be used, whose token is refreshed |
| `src/auth.rs`, `src/error.rs`, `src/config.rs`, `src/state.rs` | keys, errors, settings, state |
| `src/json.rs`, `src/json_text.rs`, `src/text.rs`, `src/text_map.rs`, `src/text_set.rs` | values and texts |
| `src/codec.rs`, `src/ident.rs` | encodings, digests, identifiers |

## What is believed without proof

A few small functions call outside crates, and their contracts are believed: `serde_json`
(reading and writing JSON), `regex` (finding marks), `base64`, `urlencoding`, `hex`, `sha2`,
`hmac` and `rand`, besides three functions of the standard library. Each says in its comment
what it claims of the function that it calls.

## The family of models

Clients know the models by many names. Some of them begin with the name of one family of
models, the one that the messages protocol comes with. The library takes that name as an
argument, and the program reads it from the variable `MODEL_FAMILY`.
