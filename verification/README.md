# dooraccess-rs

A daemon for door intercoms: it watches the building network for rings, tells the home server
about them, opens the door on request or by itself, and offers an HTTP interface.

* `src/` is the library: protocols, parsers, rules and state, each function with a contract that
  Verus proves.
* `tests/` runs the library on concrete values.
* `app/` is the program around it: sockets, files, threads, signals.

## The library

| Modules | What they hold |
|---|---|
| `codec`, `wire18022`, `listen6672`, `listen18022`, `bpf`, `ffi`, `dedup` | addresses and packed numbers, frames, packet filters and what they let through, recognising copies |
| `httpx` | HTTP/1.1: header fields, requests, responses, routes, limits, JSON output |
| `control`, `info` | the endpoints, their guards and answers, JSON input |
| `config`, `automation_state`, `orchestration`, `cli` | configuration, flags that survive a restart, how the parts are put together, start and end |
| `sender`, `unlock`, `daemon`, `self_unlock` | attempts to unlock, the worker's queue, unlocking at a ring |
| `ha_push`, `log` | reports to the home server, log lines |
| `text`, `text_map` | characters, numbers and maps for the others |

Properties that span several functions are public proof functions whose names begin with `law_`.
What is believed of the standard library without proof stands in `text.rs`, `httpx/header.rs`,
`dedup.rs` and `ffi.rs`, next to the functions that call it.

## The program

`app/worker.rs` has the trait `DoorWire` for whoever speaks to the outdoor stations. The program is
built with `NoWire`, which reaches none of them. Nor does the program forward video: requests to
start, stop or watch it are answered with status 503, whatever the configuration says of it.
