# Rotation Copilot

A proxy that spreads requests over several GitHub Copilot accounts, round robin,
and answers in the OpenAI and the Anthropic chat formats.

## Layout

- `src/` is the library: the rules of the proxy, each with its contract, proved
  by Verus.
  - `account_store`: accounts, their rotation, and API keys.
  - `state`: what the server holds between requests, and the headers it sends.
  - `routes::proxy`: who may call, how often, which account serves, what is sent
    on and what is answered.
  - `routes::translate`: requests and replies from one chat format to the other.
  - `routes::stream`: the same for streamed replies, while they come in.
  - `routes::stream_laws`: what holds of every stream.
  - `routes::admin`: accounts, keys, device-flow sessions and statistics.
  - `services`: the requests to the outside services and what their replies mean.
  - `server`: how the server starts and keeps its tokens fresh.
  - `json`, `text`, `clock`, `ids`, `seqs`: what the rest is built on.
- `app/` is the program around it: command line, routes, HTTP server and client,
  the formats of files and of bodies, timers, and the native window.
- `tests/` runs the library on concrete values.

## How to read the contracts

Texts are sequences of characters and JSON values are `Tree`s. A function that
reads the clock or draws a random identifier says what holds whatever came back;
beside it stands one that takes the time or the identifier as an argument
(`.._at`, `.._with`) and says exactly what it does. What is promised of the
library as a whole stands in the public proof functions named `law_..`.

What `serde_json`, `uuid`, `chrono` and the standard library do is stated in the
few items marked as taken on trust, each with the outside function it speaks of.
