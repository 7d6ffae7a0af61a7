# krapbott

A Twitch/Kick chat bot for Destiny 2 streamers: viewers `!join` a queue with
their Bungie name, moderators run groups with `!next`, reorder and trim the
queue, and the channel picks which command packages and aliases it uses.

- `src/` is the library, verified with Verus: identifiers, chat events from
  both platforms, permissions, the command table and its lookup, the queue
  and its commands, channel settings (shared queues, raffle mode), aliases,
  giveaways and points, the Kick and Twitch API answers and requests, the
  OBS dock's handlers, login sessions and the spam filter. `src/laws.rs`
  holds the properties that relate several operations.
- `tests/` runs the library on concrete values.
- `app/` is the program around it: the Twitch chat connection and its
  reconnect loop, the HTTP calls to Twitch and Bungie, the dashboard's
  Twitch login and OBS queue endpoints (warp), and the loop that hands each
  chat message to the library and sends its replies. State is kept in
  memory.
