# picc

A bridge between the forum topics of a Telegram group and command-line assistant
sessions: each topic talks to a session of its own, kept across restarts.

- `src/` is the verified library: settings parsing (`config`) and the settings file `~/.cc-connect/config.toml`
  (`config_file`), the bot's decisions on a
  message (`bot`), the assistant's command line and event stream (`session`, `json`),
  reply formatting (`formatter`), browser form scripts (`iframe_inject`), mail requests
  and answers (`mail`), and character-level helpers (`text`, `numeric`).
- `app/` is the program around it: the Telegram loop, the SQLite store, running the
  assistant and `osascript`, HTTP, and text recognition on Apple platforms. The
  assistant program is named by the `ASSISTANT_PROGRAM` setting.
- `tests/` exercises the library on concrete values.
