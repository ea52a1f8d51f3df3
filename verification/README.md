# httpee

A terminal HTTP client whose requests live as TOML templates next to the
code. The logic is a Verus library, proved against its contracts; a thin
command-line program drives it.

## Layout

- `src/` — the verified library.
  - `config.rs`: variables (a map with distinct names), configuration
    layering (`Config::merge`).
  - `template.rs`: templates, overrides, rendering with minijinja, the
    `env`/`bearer`/`basic` helpers, building the request with reqwest.
  - `curl.rs`: a request as a `curl` command; shell quoting; sorting headers.
  - `listing.rs`: ordering discovered templates, looking one up, the
    listing lines and shell completion.
  - `suggest.rs`: Levenshtein distance and the nearest-name suggestion.
  - `errors.rs`: explaining template errors to the user.
  - `response.rs`, `units.rs`, `highlight.rs`, `style.rs`: response output.
  - `cli.rs`, `text.rs`: argument parsing and character-level helpers.
- `tests/` — tests of the library.
- `app/` — the program: argument handling, reading files, sending the
  request, printing.

Each module states its laws as public proof functions named `law_*`.
