# command_center

The decision logic of a desktop command-centre daemon, verified with Verus.

- `src/` is the verified library: text operations (`text`, `numbers`), the
  notification history and the `dbus-monitor` reader (`notifications`),
  pairing tokens and request authorisation (`auth`), the command run for
  each control request (`commands`), the parsing of the tools' output into
  the system state (`readings`), the application catalogue (`apps`), icons,
  cover art and media players (`media`), the default layout (`config`) and
  the shared data types (`models`).
- `app/` is the daemon around it: the command line, the HTTP server, the
  processes it runs and the files it reads and writes.
- `tests/` runs the library on concrete inputs.
