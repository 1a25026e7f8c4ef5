# Vellum

Vellum finds, parses and protects `.env` files: a desktop side with local
accounts and an encrypted vault of project snapshots, and an API server for
sharing projects between users with owner / editor / viewer roles.

## Layout

- `src/` — the library, verified with Verus.
  - `text` — the character-level text model (trimming, searching, lines,
    ordering) shared by the parsers.
  - `scanner` — the `.env` parser and the selection of `.env` files in a
    directory listing.
  - `auth` — local accounts: registration, login, sessions, Argon2 password
    hashing and vault-key derivation, and the hex form of the salt.
  - `vault` — AES-256-GCM sealing of the vault and the project store with its
    role checks.
  - `api` — what the desktop uploads to the server when it saves entries.
  - `server` — the server's input validation, access control and token claims.
  - `system` — time, randomness and fresh UUIDs.
- `app/` — the programs around the library: the HTTP server with its database,
  the desktop commands with their file storage, and the HTTP client.
- `tests/` — tests of the library.
