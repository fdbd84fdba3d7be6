# zeno_fcis

A verified functional core for deterministic state transitions: canonical
values and their byte encodings, path-addressed patches, commit and outbox
plans, sealed candidate receipts, refinement evidence and its promotion,
security labels and leakage comparison, the OS machine-plan model and the
ZUSD profile state. Every function in `src/` is checked by Verus against its
`requires`/`ensures` contract; the only trusted items are the constant-time
byte operations of `subtle`, the volatile wiping of `zeroize`, and
`String::from_utf8`.

## Layout

- `src/value.rs`, `src/encode.rs`, `src/decode.rs`, `src/wire.rs`: the value
  model, its canonical encoding and the strict decoder.
- `src/commit.rs`: commitments and the hasher interface deployments implement.
- `src/patch.rs`, `src/patch/merge.rs`: paths, operations, canonical patches,
  their application, merging and strict decoding.
- `src/plan.rs`, `src/receipt.rs`: plans, candidate bodies, receipts, sealed
  bundles and their decoders.
- `src/refine/`: normalized decisions, strict validation and promotion.
- `src/security/`: labels, traces, leakage policies and security promotion.
- `src/os.rs`, `src/project.rs`, `src/schema/`, `src/zenodex.rs`,
  `src/secret.rs`: the remaining domain models.
- `tests/`: executable tests of the library.

## The byte formats

The value codec, the commitment framing and the value model are written here
in full, in `src/`, with their formats stated as spec functions. They follow
the formats of the project's own codec, value and crypto crates, whose sources
are not part of this repository; nothing here checks these byte formats
against those crates, so interoperability with them rests on the formats as
written in `src/`.

Hashing is supplied by the deployment through `CommitmentHasher`; contracts
speak of its result through `CommitmentHasher::spec_hash`.

Every commitment the library computes (state roots, candidate identities,
component and evidence commitments, profile and schema hashes) is stated in
its contract as `CommitmentHasher::spec_hash` of a canonical preimage spelled
out as a spec function, so two implementations that agree on the hasher agree
on every commitment.

## Not included

- Schema-admitted envelopes, which wrap the value codec's own admitted
  envelope type; that crate is not part of this repository, so neither the
  envelope nor its errors and tests are here.
- Design documents (`docs/`); this repository holds the code and its tests
  only.
