# cmux

The logic of a GTK terminal multiplexer with agent-facing socket commands, written in Verus
and proved against its contracts.

- `src/` is the verified library. Each module states what its functions do over mathematical
  models (`Seq`, `Map`, `int`) and proves it; public `law_*` proof functions state properties
  that span several operations. Highlights: the window's socket commands (`commands`), project action runs
  (`project_run`), the pane split tree, its tabs and its restore from a saved session (`pane_tree`),
  the notification inbox and its socket actions (`inbox`, `inbox_actions`,
  `notification_caller`), request decoding from the raw line to a typed command (`dispatch`)
  and response budgeting (`response`), terminal notification framing (`notifications`,
  `framing`), UTC timestamps (`timestamp`), signed
  resume approvals (`resume`, `resume_policy`, `signing`), scrollback replay (`scrollback`),
  project configuration and layouts (`project_*`), listener attribution (`ports`) and review
  comments (`review_comments`).
- Calls into `base64`, `hmac`, `sha2`, `serde_json` and `uuid` stand behind small trusted
  wrappers marked `#[verifier::external_body]`, each documented with what its contract claims.
- `tests/` exercises the library on concrete values.
- `app/` is the unverified shell around it: the socket server and the command loop that
  renders the library's answers, session and configuration file I/O, and serde copies of the
  library's types.
