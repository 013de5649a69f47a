//! Role-based access control for a Soroban contract, with a super-admin, an admin
//! for each role, a blacklist, and a role hierarchy.
//!
//! ## Role hierarchy
//!
//! A role can have one parent. Who holds the parent implicitly has the role, and
//! so on down the chain: if `admin` is the parent of `editor` and `editor` is the
//! parent of `viewer`, an address with `admin` also has `editor` and `viewer`. To
//! find out whether a role is inherited, [`hierarchy::MAX_HIERARCHY_DEPTH`] roles
//! of its chain are looked at. The hierarchy has no cycles: `set_role_parent`
//! refuses a link that would close one, however long.
//!
//! ## Storage model
//!
//! Everything is kept in the instance storage of the running contract.
//!
//! - `SuperAdmin` - the super-admin
//! - `HasRole(role, address)` - a direct grant
//! - `RoleAdmin(role)` - the address that may grant and revoke the role
//! - `Blacklisted(address)` - whether the address is blacklisted
//! - `RoleParent(role)` - the parent of the role, if it has one
//!
//! ## Layout
//!
//! [`access`] holds the requests. [`model`] says what each of them does to the
//! state that [`storage`] reads from and writes to the host, [`guarantees`] what
//! that means for the stored items, and [`laws`] what follows for the contract as a
//! whole. [`host`] is the boundary to the SDK: what it says is taken on trust.

pub mod access;
pub mod events;
pub mod guarantees;
pub mod hierarchy;
pub mod host;
pub mod laws;
pub mod model;
pub mod storage;
pub mod types;

pub use access::RouterAccess;
pub use types::{AccessError, Address, DataKey, Role};
