# agent-collab

A planning room for two developers, without a server: git is the transport. Two
humans chat, and an AI scribe, `@vice`, answers questions from the chat and writes
documents.

- The branch `collab/<topic>` of a shared repository is the room; `main` is left
  alone.
- Each peer appends only to a log of their own, `chat/<author-hash>.jsonl`, pushes
  when a message is sent, and looks every second for what the other peer pushed.
- A local SQLite cache with a full-text index is rebuilt from the logs. It is not
  under version control.
- `@vice` runs with the user's own API key, which is read from an environment
  variable and never stored. Its messages carry the name of the model.

## Layout

`src/` is the library, verified with Verus: its functions state what they return and
change, as far as SQLite, the clock and chance leave it to them, and the laws of the
room are public proof functions beside the functions they are about.

| module    | what it holds                                                       |
|-----------|---------------------------------------------------------------------|
| `text`    | trimming, splitting, searching and joining of text                  |
| `message` | the chat message and its record in a log                            |
| `json`, `scalar` | reading and writing JSON through `serde_json`                |
| `sql`     | the database behind the cache, through `rusqlite`                   |
| `fts`     | full-text queries                                                   |
| `store`   | the cache: messages, documents, search                              |
| `merge`   | how the logs come together in the cache                             |
| `git`     | which git commands are run, and what their output means             |
| `config`  | which model the scribe uses, and who the user is to git             |
| `sync`    | sending, writing documents, taking in what is new                   |
| `vice`    | the scribe: commands, tools, conversations with a model             |
| `session` | entering a room                                                     |
| `app`, `cli` | what a typed line means, how things are shown, arguments         |

`app/` is the program around it: files, processes, the terminal, the network.
`tests/` runs the library, with SQLite and all.

## Use

```sh
agent-collab join <repo-url> <topic>   # clone a room and enter it
agent-collab start <topic>             # enter a room in an existing clone
```

In the prompt, whatever is typed is sent. `@vice <question>` asks the scribe,
`@vice write notes <instruction>` has it write `docs/notes.md`, and
`@vice write <path> <instruction>` any document under `docs/`. The scribe needs a
`.vice.toml` with `provider`, `model` and `api_key_env`, the name of the variable that
holds the key; without it the room works, and there is no scribe.
