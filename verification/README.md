# m65_field_jacket

`mfj`: local-first secrets management for developers.  Secrets are sealed
with ChaCha20-Poly1305 under a per-pocket data-encryption key; that key is
encrypted with [age](https://age-encryption.org) to X25519 identities whose
private keys are kept under a passphrase (Argon2).

The library in `src/` is written in Verus and proved against its contracts:

- `name`: validated names of pockets, identities and secrets;
- `stanza`, `secret`: the `.enc` file format, reading and writing secrets;
- `identity`, `keyring`, `pocket`, `dek`, `crypto`: keys and how they unlock;
- `session`: the cache of unlocked pocket keys and its expiry;
- `storage`, `config`, `text`, `hexcode`, `io`: paths, settings and text;
- `laws`: what a written secret file reads back as.

The command-line program in `app/` does the file and terminal work around it.
