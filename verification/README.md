# router_access

Role-based access control for a Soroban contract: a super-admin, an admin for each
role, direct grants, a blacklist, and a hierarchy in which a parent role implies
its children.

- `src/` is the library, verified with Verus. `src/access.rs` holds the requests,
  `src/model.rs` says what each does to the contract's state, `src/laws.rs` what
  holds of the contract as a whole. `src/host.rs` is the boundary to the Soroban
  SDK; its contracts are taken on trust.
- `app/` is the deployable contract: it turns host values into the library's plain
  ones and back.
- `tests/` runs the library against the SDK's own host.
