# mashless

Watches the Vim motions used in a Neovim session and writes an HTML report
of what could have been done with fewer keystrokes (`12G` instead of holding
`j`, `f{char}` instead of mashing `l`, ...).

The library in `src/` is written in Verus; every function in it is verified
against its `requires`/`ensures` contract, except two trusted wrappers whose
contracts Verus takes on trust: `text::push_char`, which calls `String::push`
(vstd gives that method no specification), and `report::seconds_between`,
which asks `chrono` for the whole seconds between two clock readings and
whose result the contracts refer to by name (`chrono_seconds_between`).

- `recorder.rs` — the session: keystrokes by mode, cursor, visited files.
- `analyzer.rs` — runs of repeated keys, the findings, waste and efficiency.
- `notation.rs` — Vim key notation (`<C-o>`, `<CR>`, ...) read as English.
- `markup.rs` — HTML escaping, code spans, bold, bullet lists.
- `report.rs` — the tips and the HTML page.
- `state.rs` — what each editor notification and request does.
- `files.rs` — report file names and URLs.
- `text.rs` — string helpers.

`app/main.rs` is the process Neovim spawns: it speaks msgpack-RPC
(`nvim-rs`, `tokio`), reads the clock (`chrono`), computes the
floating-point efficiency percentage, writes report files and opens them in
the browser (`webbrowser`). The page embeds `report.css` from the output directory when
one is there.
