# bakery

A bot for chatango group chats, as a verified library and a small program.

- `src/` (verified with Verus)
  - `server.rs`: which chat server hosts a group (`g_server`).
  - `protocol.rs`: frames, login frames, the configuration text, packets
    read from a chat, chat messages, the YouTube search reply.
  - `bakery.rs`: the bot's state and how it answers each frame and command;
    every operation returns the actions (writes, connections, lookups) for
    the caller to carry out.
  - `laws.rs`: properties that hold across operations.
  - `text.rs`: splitting, joining, trimming and searching text.
  - `bindings.rs`: the calls into std, `regex`, `html_escape`, `serde_json`
    and `rand` whose contracts are taken on trust.
- `app/`: the program: reads `utils.txt`, opens the sockets, logs in through
  the web form, fetches YouTube searches, and runs the read loop.
- `tests/`: tests of the library on concrete values.
