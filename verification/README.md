# tuai

A terminal chat client for OpenAI-compatible providers: streamed replies,
Markdown with highlighted code blocks, sessions kept in SQLite, a fuzzy
command palette, favourite models and automatic proxy detection.

## Layout

- `src/` — the library, verified with Verus. It holds the decisions and the
  text processing of the client:
  - `util` — character widths, wrapping, truncation, fuzzy matching, code
    block extraction, file names and proxy addresses;
  - `commands`, `state`, `input`, `paste` — slash commands, the palette,
    forms, the multi-line input box and the reassembly of bracketed pastes;
  - `config`, `model`, `app` — providers, favourites, sessions and messages,
    the choice of provider and model, scrolling, exports;
  - `llm`, `json`, `models` — the request messages, the decoding of the
    event stream of a reply, the model list;
  - `markdown`, `highlight`, `style`, `chat`, `view` — the rendering of
    messages and of every screen element as styled lines;
  - `control` — what each key press, form submission and finished reply
    leads to;
  - `proxy` — which proxy the client goes through.
- `app/` — the program around the library: the terminal, the event loop, the
  HTTP client, the SQLite store, the configuration file and the clipboard.
- `tests/` — tests of the library.

Each function of `src/` states its result in its `ensures`; the laws that
relate several functions (wrapping keeps the text and fits the width, the
stream decoder does not depend on how bytes are split, a paste comes back
whole, Backspace undoes a keystroke, toggling a favourite twice changes
nothing, and so on) are proof functions beside them.
