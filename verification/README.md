# local_mlx

Language models of a local MLX server, for an editor's agent, with the rules
stated as contracts and proved by Verus.

- `process_manager`: the life of the server process, as steps from what happened
  to what is to be done next: a start with its health checks and restarts, a
  graceful stop, and a watch for a server that is idle or has exited.
- `model_discovery`: the models that the server lists and those in the local
  Hugging Face cache.
- `provider`: which models are offered, what is sent to the server, and what its
  streamed reply means.
- `request`: a conversation, made into a request to the server.
- `replace_lines_tool`, `line_mode`, `diff`: the tool with which a model edits a
  file, by content or by line numbers.
- `util`: tool arguments, JSON that is still arriving, and messages about prompts
  that are too long.
- `text`, `search`, `lines`, `rows`, `number`: text as sequences of characters.
- `json`: the calls into `serde_json` and `partial_json_fixer`, with what is
  taken for granted of them.

`app/` is what runs around the library: processes, network and files. Its
`Project` and `HttpClient` traits are the editor's to implement.
