# azalea-reflection-proxy

A local proxy through which a bot's game session can be watched and taken over,
with a verified core.

The proxy owns the one real connection to the target server. The bot connects
to the proxy as an offline client and is in control; game clients that join at
the same address are viewers. They see the bot as a player entity, are shown
the world as it is when they join, and can take control with `,acquire`.

## Layout

- `src/` is the proxy without its sockets, verified with Verus. It is told what
  arrives and says what is to be sent.
  - `session` and `session_laws`: who is in control, who is sent what, and what
    always holds of it.
  - `run_laws`: what holds over any run of frames from the server.
  - `cache`, `snapshot`, `world_laws` and `filing`: what is kept for a viewer that joins
    late. The parts of the snapshot are `entities`, `roster`, `scoreboard`,
    `hud`, `terrain`, `maps`, `bossbar` and `ambience`.
  - `reflect`: the bot as viewers see it.
  - `plugin`: plugins that pass, drop or replace frames.
  - `relay`, `wire`, `ids`: frames and bytes.
  - `local_server`, `upstream`, `builder`: logins and configuration.
- `app/` is the program around it: sockets, accounts, the packet codecs of
  azalea, and arithmetic on floating-point numbers.
- `tests/` runs the library.

## Commands

Typed in chat by any connected client; they never reach the server.

- `,acquire` takes control, from whoever has it.
- `,release` gives it up. The proxy then answers keep-alives and teleports, or
  the oldest viewer inherits where `always_first_control` is set.
- `,spectate [player]` locks the camera to the bot or to a player in sight, and
  shows the bot's game mode and screen. It releases the camera when repeated,
  and makes the client a spectator again.
- `,gamemode <survival|creative|adventure|spectator|0-3>` changes the game mode
  of the client that asks, on its side only.

## Running

`PROXY_EMAIL` names the account. `PROXY_TARGET`, `PROXY_BIND`,
`PROXY_AUTH_CACHE`, `PROXY_MAX_CLIENTS` and `PROXY_MAX_PENDING_HANDSHAKES` are
optional. The local side does not authenticate anybody: keep it on the loopback.
