# Attic

The logic of the Attic binary cache for Nix, as a library whose behaviour is stated in contracts and
proved by Verus, and the client and server around it.

- `src/api`: what client and server say to each other, and the chunk manifests of negotiated uploads.
- `src/client`: API requests and retries, OIDC logins, push plans, sessions and uploads.
- `src/server`: cached metadata, request state, the binary cache and OIDC endpoints, S3 storage.
- `src/hash.rs`, `src/key_map.rs`, `src/text.rs` and the rest of `src`: what these are built on.
- `app`: network, storage and database access around the library.
- `tests`: tests of the library.

Durations and times on a monotonic clock are nanoseconds in a `u128`; wall-clock times are
nanoseconds since the Unix epoch in an `i128`.

The names of public proof functions that state a property of the library as a whole begin with
`law_`. Items marked `#[verifier::external_body]` and the `assume_specification`s are believed
without proof; each says in its documentation what it claims of which outside function.
