# transfer_credentials

The credential layer of a desktop S3 shared-folder client, written in Verus.

- `src/` is the verified library:
  - `keychain.rs`: secret storage in the operating-system vault. IAM Identity
    Center session tokens are stored in chunks below the Windows credential
    blob limit behind a manifest entry, copy-on-write; the laws that a read
    gives back what a store wrote, that a failed store publishes nothing and
    that delete cascades are proved over a map model of the vault, and every
    vault failure is reported as the vault error.
  - `vault.rs`: the vault interface (a faithful vault answers as a map does
    but may fail any call; a steady one fails only as fixed predicates say),
    the in-memory vault and the operating-system vault (through the `keyring`
    crate), which records each write and delete it hands to the platform store.
  - `portal.rs`: which regions, access-portal URLs and device-verification
    links are accepted (URLs are parsed by the `url` crate).
  - `sessions.rs`: the table of pending device logins and the login and
    polling state machine.
  - `listing.rs`: paging through assigned accounts and roles.
  - `save.rs`: the checks before a profile is saved, persisting a signed-in
    session only while its login is live, rolling it back when the profile
    cannot be saved, and the vault step of signing out.
  - `provider.rs`: profiles, binding a stored token to a profile's settings,
    and accepting the role credentials AWS returns.
  - `portable.rs`: portable-mode discovery.
  - `text.rs`, `error.rs`: character-level helpers and the error type.
- `app/` is the unverified glue: Tauri commands, AWS SDK calls, the
  process-wide login table, JSON encoding of stored tokens, the clock and
  file-system access.
- `tests/` runs the library on concrete inputs.
