# FREENET core

The verified core of FREENET, a Windows control panel for DPI bypass tools
(zapret, GoodbyeDPI, ByeDPI), the tg-ws-proxy Telegram proxy, a hosts-file
bypass, global media hotkeys, a clipboard history and an auto-accept helper
for matchmaking.

- `src/` is the library, written and proved with Verus. The application's
  logic lives here with contracts: which tool to start or stop, how a
  strategy file becomes a winws program and command line, the message
  parameters of media keys and window clicks, how the hosts block is
  written and cut out, how releases and their files are chosen, how key
  combinations are parsed and when the keyboard hook fires, how the user
  domain list and the clipboard history change, and where the accept button
  is in a screen capture. The `law_*` proof functions state what holds across
  calls.
- `tests/` runs the library on concrete values.
- `app/` is the Tauri application around it: the commands, file and network
  access, the Win32 calls and the background threads. It hands the library
  plain values and carries out what the library decides.
