# code_mode_reduction

What a script yields or returns is cut down before a model reads it. This library decides how: it
truncates, lets a host replace the output, or keeps the exact output and shows what a reducer
decided on it. It is written in Verus. Every function in `src/` has a contract, and Verus proves
each but those of six small wrappers around calls into `base64`, `serde_json`, `url` and `uuid`.
What a wrapper's contract claims of the outside call is said above it and is believed, not proved.

## Layout

- `src/text.rs`, `src/json.rs`, `src/items.rs`, `src/assoc.rs`, `src/identity.rs`,
  `src/endpoint.rs`, `src/transfer.rs`: texts and their byte bounds, JSON values and their compact
  text, content items, maps, identifiers, addresses, and bounded reading and writing.
- `src/context.rs`: fragments of model context and their bounds.
- `src/actionable_state.rs`: the handles of processes that nested calls leave behind.
- `src/reducer.rs`, `src/reduction.rs`: the reduction seam, and one reduction as a state machine
  from the first look at an output's size to the last acceptance attempt.
- `src/bridge.rs`: the managed bridge that may replace the output of direct tools.
- `src/token_miser.rs`, `src/miser_reducer.rs`, `src/retrieval.rs`: exact outputs that are kept,
  the reducer that decides on them, and the tools that read and search them.
- `src/post_tool_use.rs`: hooks that run after a tool.
- `src/service.rs`, `src/response.rs`, `src/payload.rs`, `src/parent_intent.rs`: the state of code
  mode in a session, responses, nested calls and narration.
- `src/capabilities.rs`: what a server says of itself.
- `tests/`: the library from outside.
- `app/`: the host around it: files, network, clocks, locks, wire formats and the command line.

## Reading the contracts

Each module defines its behaviour as spec functions over mathematical values: a type's view, a
`Seq<char>` for a text, a `Map` for a store. The contract of an executable function says that its
result is the spec function's value. Functions named `law_..` state what holds of several
functions together, such as that reduction fails open, that a committed replacement cannot be
revoked, and that reading on gives back the exact output.

Work that the library cannot do is described by values: `reduction::advance`, the bridge's
`advance` and `claim_terminal_step` say what to do next, and the host hands back what it found.
