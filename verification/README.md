# bdtv_hub

A hub that links a cluster of Minecraft servers with a QQ group.

- `src/` is the library, verified with Verus: presence bookkeeping from
  heartbeats (`app::state`), the periodic timeout check (`warden`), routing of
  chat between the servers and the group (`server::ws`, `qq::viaws`), the
  rich-text player list and message of the day (`richtext`), and the texts
  sent to the group.
- `app/` is the program around it: configuration loading, the console, the
  OneBot v11 connection to QQ, the HTTP/WebSocket server, and the conversion
  of rich text to Minecraft text components.
- `tests/` exercises the library on concrete values.
