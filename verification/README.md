# mcbot

A Discord bot that starts Minecraft servers for its users and keeps a
status message with the player and entity counts and the end of the
server log.

- `src/` is the library, verified with Verus: chat command parsing and
  the steps taken for each command (`commands`, `console`), permissions
  (`permissions`), how each known server is launched (`server_config`),
  cutting the server's output into lines and reading counter reports
  from them (`server_output`), the status message (`status`), and small
  text helpers (`text`, `useful`).
- `app/` is the program around it: the Discord client, the child
  process, and the threads that read its output and refresh the status
  message. It performs the steps that the library plans.

The bot token is read from the `DISCORD_BOT_TOKEN` environment variable.
