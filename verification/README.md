# sleepy_launcher

The verified core of a game launcher's background and DLSS handling.

- `src/text.rs` — the character-level text model (trim, split, join, ASCII
  case folding) with the executable helpers proved against it.
- `src/sequences.rs` — facts about filtering sequences.
- `src/wine_overrides.rs` — `WINEDLLOVERRIDES` lists: which DLL an entry
  configures, setting one DLL's mode, and the laws of that operation.
- `src/dlss.rs` — NVIDIA Wine DLL directory rules, `ldconfig -p` parsing,
  the native-DLL check and Spritz runner detection.
- `src/nvidia_search.rs` — the search for NVIDIA's Wine DLL directory as a
  step function from state and outcome to next state and action.
- `src/json.rs` — JSON documents parsed by `serde_json` and the key walk over
  them.
- `src/environment.rs` — the game's environment variables and the DLSS setup,
  with its laws (setting it up twice changes nothing, user choices are kept).
- `src/background.rs` — choosing the background from the launcher API's
  answer, picture hashes, which stored pictures are out of date, and the
  WebP format check.
- `app/` — network, file and process work around the library, and the
  launcher configuration.
