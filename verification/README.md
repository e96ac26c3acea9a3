# merak

Merak reads a TypeScript or JavaScript code base before and after a change and
says what the change does to its behaviour: which effects, checks, access rules,
state changes and invariants came, went or moved. Nothing is asked of the code
but its text; every claim carries the lines it rests on.

The library is written in Verus. Each executable function states what it
returns, over mathematical views of its arguments, and is proved to do so.

## Layout

- `src/` is the verified library.
  - `text`, `list`, `ordered`, `words`, `span`, `tree`, `source`: texts, lists,
    sorted maps and sets, locations, JSON and TOML documents, source trees.
  - `front`, `syntax`, `lower`, `annotations`, `nesting`, `ir`, `digest`: from
    source text to the intermediate form of a module.
  - `catalog`, `aliases`, `resolve`, `typing`, `envs`, `shapes`, `query`,
    `markup`, `extract`, `entity`: the facts of each entity.
  - `model`, `pred`, `summary`, `infer`, `design`, `analysis`: the model of a
    program, what spreads along calls and events, inferred and declared rules.
  - `matching`, `structure`, `behaviour`, `additions`, `states`, `rules`, `ops`,
    `transition`: what differs between two models.
  - `contract`, `clauses`, `phrases`, `citation`, `blocks`, `render`, `schema`,
    `context`: how a transition is told.
  - `pipeline`, `hook`, `mcp`: the commands, without their input and output.
  - `stillness`, `meaning`, `relocation`, `shifting`, `callers`, `claims`,
    `spreading`, `settling`, `spellings`, `mining`, `evidence`, `reading`: laws
    that hold of several of these together.
- `tests/` runs the compiled library.
- `app/` is the command line tool: files, git, the hook and the server loop.

What is trusted rather than proved is marked `external_body` and documented where
it stands: texts and characters of the standard library, and the calls into
`oxc`, `serde_json`, `toml` and `globset`.
