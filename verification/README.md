# wiz_cli

A command-line client for the Wiz GraphQL API (`wiz-cli`), whose logic is a
library verified with Verus.

## Layout

- `src/` — the verified library:
  - `json.rs`: the JSON values the commands build and read, with their
    mathematical view; member lookup, compact text.
  - `text.rs`: character-level string work (trimming, upper case, decimal
    text, integer parsing, joining).
  - `ids.rs`: issue IDs from an argument or from standard input.
  - `time.rs`: the clock, relative durations such as `7d`, and UTC
    timestamps, with the calendar laws.
  - `format.rs`: the human tables and the dry-run listing.
  - `client.rs`: the OAuth form body, token freshness and expiry, HTTP and
    GraphQL outcomes.
  - `commands/`: the filters, variables and paging of issue listings, the
    evidence listing, the mutations (`close`, `status`, `note`, `assign`),
    per-issue batch results, and the `whoami` identity.
- `tests/` — tests of the library on concrete values.
- `app/` — the program: argument parsing, environment, token cache on disk,
  HTTP requests, and printing.

There is no `history` subcommand: listing an issue's history events is not
provided.

Each public function states its result in `ensures`; the laws that span
functions are public proof functions named `lemma_*`.
