# yourls

A command-line URL shortener and clipboard tray for YOURLS servers, whose
logic is a Verus library with its contracts proved.

- `src/` is the library. `text` holds the string operations the rest is
  stated over; `config` the configuration and the completion of server
  entries; `shorten` URL checks, the blacklist, server choice and the
  judging of replies; `requests` the API calls; `history` the merging of
  recent links; `cli` the arguments; `version` release comparison;
  `messages` the notification texts; `session` the tray's state and its
  decisions; `common` signature redaction and the log name. `external`
  holds the trusted calls into `url`, `regex`, `serde_json` and the clock.
- `app/` is the program: file and network I/O, the tray, the clipboard and
  the hotkey. It hands the library what it reads (arguments, the
  configuration, reply bodies, clipboard text, key states, menu events)
  and does what the library's results say.
- `tests/` runs the library on concrete values.
