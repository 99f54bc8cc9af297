# moot

A node of a decentralized social network: roots (boards), trunks and
branches, leaves (posts), hollows (personal pages), sway-weighted moderation,
a Tor hidden service and a libp2p swarm.

The crate is in two parts.

- `src/` is the library, written in Verus and verified: sanitizing posts,
  address and signature checks, garlic-layer framing, the rules for
  trunks, branches, leaves, comments and reports, the content lifecycle,
  search, the peer table, the torrc and Tor's bootstrap, upload naming, and
  the key layout of the sled store.  Calls into the cryptography, hashing,
  time, UUID and storage crates go through small trusted wrappers whose
  contracts say what the outside function returns.
- `app/` is the program around it: command line, HTTP handlers, JSON
  encoding of records, the Tor process, the libp2p swarm, and the sway
  arithmetic, which is floating point.

Modules of the library:

| module       | what it holds                                                   |
|--------------|-----------------------------------------------------------------|
| `text`       | tag stripping, length limit, trimming, address/signature shapes |
| `crypto`     | SHA-256, hex, Ed25519, X25519, ChaCha20-Poly1305 garlic layers  |
| `models`     | the records, timestamps, identifiers                            |
| `moderation` | report categories, thresholds, how a report resolves            |
| `content`    | leaf admission, mirrors and votes, seeding and expiry           |
| `hollow`     | hollow pages, posts, friends, comments                          |
| `tree`       | default roots, trunk and branch admission and listings          |
| `peers`      | the peer table and where to dial                                |
| `store`      | the store's keys and byte-level records                         |
| `search`     | case-insensitive search                                         |
| `tor`        | torrc text and the bootstrap state                              |
| `media`      | upload size limit and content-addressed names                   |
