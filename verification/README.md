# agent_runtime

State that an agent runtime keeps around the rounds of a conversation, verified with Verus.

- `src/round_replay`: checkpoints of a model round. Capturing a workspace or the artifacts
  of a session, and restoring them, are dialogues: each step takes the reply to the last
  request and says what to ask next or how it ended. The specification of a dialogue is a
  function of the replies taken so far. `artifact_round_trip` plays both artifact dialogues
  against a directory of files.
- `src/file_read_state`: what each session has read of its files, and the rules that decide
  whether a file may be edited or written on the strength of that.
- `src/round_model_route`: running a single round on another model.
- `src/ordering`, `src/text`, `src/json`: sorting by text keys, text helpers, JSON strings.
- `app`: files, commands, environment variables and serialised forms around the library.
- `tests`: the library in use.

Calls into `base64`, `dashmap`, `serde_json` and the standard library that Verus does not
know stand behind small functions whose contracts are trusted; each says what it claims.
