# botinski

A Discord music bot with a web dashboard. The crate is split in two:

- `src/` is the verified library (Verus). It holds the bot's logic with
  contracts: the per-guild queue and its moves, enqueue and advance steps,
  the classification of web users into roles and the role cache, session
  cookies and token checks, dice notation, the admin-role column encoding,
  and the decisions behind every dashboard page (guards, guild listings,
  member/role/channel orderings and groupings, labels, messages).
- `app/` is the program around it: command-line options, the configuration
  file, SQLite, the Discord gateway (poise, songbird), the HTTP server
  (axum, maud) and the yt-dlp and ffmpeg subprocesses.

Modules of the library:

| module        | contents |
|---------------|----------|
| `text`        | character helpers, decimal rendering and parsing |
| `arrange`     | stable ordering by an integer-and-text key |
| `track`       | queue entries and duration formatting |
| `probe`       | yt-dlp query shapes and playlist entry URLs |
| `player`      | the guild player: queue, moves, enqueue/advance steps |
| `roles`       | role classification and the role cache |
| `session`     | session cookies, token minting and checking |
| `settings`    | admin-role column encoding, settings clamping |
| `dice`        | dice notation, tallies and replies |
| `http_error`  | dashboard errors and page guards |
| `components`  | button and input classes |
| `messages`    | bot replies and the admin-command check |
| `files`       | configuration file formats |
| `guild_view`  | channel kinds, permission labels, guild listings |
| `listing`     | members, roles, settings picker, channel layout |
| `music_view`  | the music page's live panel |
| `web`         | navigation, theme cookie, id lists, audit records |
| `ffmpeg`      | the ffmpeg invocation for live streams |
| `accounts`    | user accounts and the Discord configuration |
