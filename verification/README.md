# omnissiatac

A Discord bot that plays music through Lavalink, speaks text, chats through an Ollama
server, draws pictures through ComfyUI and offers a small web panel for its settings.

The crate is split in two:

- `src/` is the verified library: the prefix and slash command parsers, the playlist file
  format, the news digest (feed parsing, HTML stripping, recency order, prompt and message
  splitting), the image workflow edits and the reading of the image server's JSON history,
  the music and speech decisions, the idle-player bookkeeping, the per-channel chat
  histories, the password checks and login tokens, and every text the bot answers with.
  Its functions carry `requires`/`ensures` contracts that Verus proves, with one exception:
  the calls into outside crates (Argon2, Lavalink's query builder, URL encoding, random
  numbers, feed parsing, token signing) and std's `String::push` sit in small wrappers marked
  `external_body`, whose contracts Verus believes unproved; they state only what those
  crates' sources show, and the random seed's wrapper states nothing.
- `app/` is the program around it: the Discord event handler, Lavalink and Songbird
  plumbing, HTTP requests, files, the web server and start-up. It hands the library plain
  values and acts on what comes back.

`tests/` runs the library on concrete inputs, with the outside crates linked.
