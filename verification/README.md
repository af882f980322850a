# bookmark_sync

A local-first bookmark manager whose changes travel as an event log through a
Git repository, with SQLite or PostgreSQL as the local store.

`src/` is the library, verified with Verus: URL cleaning, search tokens and
the SQL of both stores, the statements that apply each event (once), the
event-log segment files (names, sealing, reading order, splitting of a legacy
log), the device registry and the cleanup it allows, browser bookmark trees
(Chromium JSON and Safari property lists) and the removal of a bookmark from
them, messages from the browser extension, settings, and the steps of a
synchronisation.

`app/` is the program around it: files, databases, Git, the keychain, HTTP
and the native-messaging pipe. It does that outside work and hands what it
reads (file bytes, the clock, fresh ids, rows and statuses) to the library,
which makes the decisions around it.
Its `close` command does what the application does as it closes: a push of
the local events when that setting is on.

`tests/` runs the library with the real outside crates, including the
statements against an in-memory SQLite database.
