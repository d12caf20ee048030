# gse_gen

Generates a `steam_settings` folder for the Goldberg Steam Emulator from the
Steam store and Web API.

- `src/` is the library, verified with Verus: the reading of Steam's JSON
  answers (`steam`, `branches`, `depots`), the language list (`language`), the
  interface versions of a `steam_api` library (`interfaces`), the service
  addresses (`urls`), and the text of every generated file (`settings`,
  `achievements`), on top of character and number utilities (`text`,
  `number`) and a JSON model (`json`).
- `app/` is the command-line program: arguments, HTTP requests, files,
  progress bars, and the conversion between `serde_json` values and the
  library's JSON model.
- `tests/` runs the library on concrete answers and texts.
