# zync

`zync` syncs the macOS clipboard over SSH, text and images alike. Everything that decides
what goes over the wire and what is done with it is a library verified with
[Verus](https://github.com/verus-lang/verus).

## Layout

- `src/` is the library. Every function states in its contract what it returns, and Verus
  proves it.
  - `clipboard`: a clipboard content and its fingerprint
  - `header`, `frame`: a content as bytes, and back
  - `stream`: frames one after another, as a state machine that asks for what to read next
  - `session`: what a side does about what it sees on its clipboard
  - `pasteboard`, `process`: the scripts and arguments of the programs that are run, and what
    their output means
  - `cli`: the command line
  - `text`, `number`, `ascii`, `utf8`: what these rest on
  - `laws`, `reader_laws`, `order_laws`, `fingerprint_laws`, `exchange_laws`, `run_laws`: what
    holds of the whole
- `tests/` runs the library on concrete values.
- `app/` is the program: it starts processes, reads and writes files and pipes, and asks the
  library what to do.

## What is taken on trust

Two functions of the standard library: `std::str::from_utf8` and `String::from_utf8_lossy`.
Their contracts stand in `src/utf8.rs`.

## Commands

```text
zync connect user@other-mac [--remote-bin zync] [--ssh-bin ssh] [--interval-ms 750]
zync agent
zync serve --peer user@other-mac [--remote-bin zync] [--ssh-bin ssh] [--interval-ms 750]
zync send-once --peer user@other-mac [--remote-bin zync] [--ssh-bin ssh]
zync receive
```

`connect` is the recommended mode. It opens one SSH session and runs `zync agent` on the other
machine; contents go both ways over its standard input and output. `serve`, `send-once` and
`receive` push contents one by one, where one machine can reach the other.

## Limits

- macOS only.
- Text, PNG, JPEG and TIFF.
- The clipboard is polled.
- The SSH endpoint is trusted.
