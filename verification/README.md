# covert

The core of Covert, a secrets manager with a Vault-like API: versioned
secrets, dynamic secrets with leases, namespaces and a sealed, encrypted
storage. The logic is written in Verus and proved against its contracts.

## Layout

- `src/` — the verified library.
  - `trie` — the path trie used for prefix routing.
  - `mount`, `routing` — mount checks, mount removal, request routing.
  - `namespace`, `deletion` — namespace paths, lookup queries, ancestor
    walks and recursive deletion.
  - `expiration`, `pending`, `worker`, `renewal`, `registration` — leases,
    the queue of pending leases, the revocation worker, lease renewal and
    lease registration for backend responses.
  - `seal` — initialization and unsealing: Shamir key shares, their
    encryption at rest, and master key recovery.
  - `entity`, `policy`, `auth` — entities with their policies and aliases,
    stored policies, and authorization decisions.
  - `system_routes` — the routes of the system backend and the storage
    states in which the seal routes are open.
  - `config`, `server`, `error`, `sqlite`, `sdk`, `layer`, `outcome`, `text`,
    `ids` — configuration checks, server start-up, error kinds, SQL
    statements, client helpers, UUID text and text utilities.
- `tests/` — tests of the library.
- `app/` — the plumbing around it: configuration files, the HTTP client,
  wire forms, and the loops that drive the library's state machines.

The state machines (`worker`, `renewal`, `registration`, `deletion`,
`MountRemoval`) take the answer of the outside world as an event and say
what to do next; `app/drivers.rs` runs them, and keeps leases in memory
in the library's expiry-ordered queue.
