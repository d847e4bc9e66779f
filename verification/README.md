# chatbot

Configuration front end of a Discord chat bot, with its logic verified by Verus.

- `src/` — the verified library:
  - `text` — `split`, `trim` and `join` over characters, with their lemmas;
  - `module_status` — `ModuleStatus` and its text form;
  - `configuration` — module settings, the module configuration file, the token file;
  - `profanity_filter` — the word list and its stored text;
  - `bot` — what the bot thread does with the token it receives;
  - `codegen` — the source text of the module list and configuration view.
- `app/` — the terminal user interface (cursive), file I/O, and the Discord client (serenity).
- `tests/` — tests of the library.
