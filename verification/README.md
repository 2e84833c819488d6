# daml_ide

Daml support for the Zed editor, with script results served to a browser.

`daml-ide-bridge` sits between Zed and `dpm damlc multi-ide`. It proxies the
Language Server Protocol, turns the server's "Script results" code lenses into
code actions Zed can always show, handles the `daml.showResource` command
itself, and serves the HTML the server renders on a loopback HTTP server that
requires a per-process token. The Zed extension decides how the language
server is started (directly, or behind the bridge) and how completions and
symbols are labelled.

## Layout

| Path | What it is |
| --- | --- |
| `src/` | The library, verified with Verus: every decision the bridge and the extension make |
| `src/intercept.rs` | How each LSP message is rewritten, absorbed or passed on |
| `src/resources.rs` | The registry of script results and the pages waiting on them |
| `src/http.rs` | What each HTTP request is answered with, and the event stream frames |
| `src/page.rs` | Turning a render into a page a browser can load |
| `src/bridge.rs` | The command line, and what each interceptor action turns into |
| `src/framing.rs`, `src/numbers.rs` | `Content-Length` framing and reading numbers |
| `src/trace.rs` | One trace line per message |
| `src/results.rs` | The single Markdown pane the editor keeps open |
| `src/server.rs`, `src/extension.rs` | Starting the language server from Zed, and the labels it shows |
| `src/json.rs`, `src/table.rs`, `src/text.rs`, `src/ids.rs` | JSON values, keyed tables, text, ids and the access token |
| `tests/` | Tests of the library |
| `app/` | The program around it: processes, threads, sockets, files, serde, and the Zed API |

Each public function states what it returns in its `ensures`; the `law_*`
proof functions state what holds across calls, such as that a request
without the token is refused, that a rendered result reaches the browser, and
that a written frame header is read back as the body's length.
