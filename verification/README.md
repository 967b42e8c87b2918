# ollama_controls

Control of a local or remote Ollama: list, pull, show, copy, create, delete and
unload models, keep the download directory, start and stop the server.

- `src/` is the verified library. It does no input or output: each function says
  which command to run, which request to send or which file to write, and what the
  outcome means. Contracts are stated over texts as sequences of characters; the
  functions named `law_...` state what holds across several operations.
- `tests/` runs the library on concrete values.
- `app/` carries the operations out: processes, files, environment variables, HTTP
  and the JSON forms of the library's types.

What the proofs take on trust stands next to its use: `String::push` (`text`),
`String::from_utf8_lossy` (`cli`), `Debug` of `str` (`modelfile`), and reading JSON
with `serde_json` (`json`).
