# atuin-web

A read-only web UI for an [atuin](https://github.com/atuinsh/atuin) server:
browse your shell history and other synced records in a browser.

`src/` is the library, verified with Verus: which pages need a login and with
which token, how the atuin server's answers are read, how hosts are ranked
and chosen, how records are paginated (newest first or oldest first), how the
dashboard adds up record counts, and how a record's UUIDv7 becomes an age.

`app/` is the program around it: command-line options, the HTTP client,
sessions, templates, static assets and the axum router.

`tests/` exercises the library on concrete values.
