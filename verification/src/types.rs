//! The values that cross the contract's boundary, as plain data.

use vstd::prelude::*;

verus! {

/// Why a request was refused.
#[derive(Copy, Clone, Debug, PartialEq, Eq, Structural)]
pub enum AccessError {
    AlreadyInitialized,
    NotInitialized,
    Unauthorized,
    AlreadyHasRole,
    RoleNotFound,
    Blacklisted,
    CannotBlacklistAdmin,
    HierarchyCycle,
}

impl AccessError {
    /// The error number that the contract reports to its callers.
    pub open spec fn spec_code(self) -> u32 {
        match self {
            AccessError::AlreadyInitialized => 1,
            AccessError::NotInitialized => 2,
            AccessError::Unauthorized => 3,
            AccessError::AlreadyHasRole => 4,
            AccessError::RoleNotFound => 5,
            AccessError::Blacklisted => 6,
            AccessError::CannotBlacklistAdmin => 7,
            AccessError::HierarchyCycle => 8,
        }
    }

    /// The error number that the contract reports to its callers.
    pub fn code(self) -> (code: u32)
        ensures
            code == self.spec_code(),
    {
        match self {
            AccessError::AlreadyInitialized => 1,
            AccessError::NotInitialized => 2,
            AccessError::Unauthorized => 3,
            AccessError::AlreadyHasRole => 4,
            AccessError::RoleNotFound => 5,
            AccessError::Blacklisted => 6,
            AccessError::CannotBlacklistAdmin => 7,
            AccessError::HierarchyCycle => 8,
        }
    }
}

/// An account or a contract: its kind and its 32-byte identifier.
#[derive(Copy, Clone, Debug, PartialEq, Eq)]
pub enum Address {
    /// An account, by its Ed25519 public key.
    Account([u8; 32]),
    /// A contract, by its hash.
    Contract([u8; 32]),
}

/// Whether two identifiers agree in every byte.
fn same_id(left: &[u8; 32], right: &[u8; 32]) -> (same: bool)
    ensures
        same == (*left == *right),
{
    let mut i: usize = 0;
    while i < 32
        invariant
            i <= 32,
            forall|j: int| 0 <= j < i ==> left@[j] == right@[j],
        decreases 32 - i,
    {
        if left[i] != right[i] {
            return false;
        }
        i = i + 1;
    }
    assert(*left =~= *right);
    true
}

impl Address {
    /// Whether both are the same account or the same contract.
    pub fn same(&self, other: &Address) -> (same: bool)
        ensures
            same == (*self == *other),
    {
        match (self, other) {
            (Address::Account(left), Address::Account(right)) => same_id(left, right),
            (Address::Contract(left), Address::Contract(right)) => same_id(left, right),
            _ => false,
        }
    }
}

/// The name of a role: any bytes, as many as the host can hold in one string.
#[derive(Debug, PartialEq, Eq)]
pub struct Role {
    pub(crate) bytes: Vec<u8>,
}

impl View for Role {
    type V = Seq<u8>;

    closed spec fn view(&self) -> Seq<u8> {
        self.bytes@
    }
}

impl Role {
    #[verifier::type_invariant]
    pub(crate) closed spec fn fits(&self) -> bool {
        self.bytes@.len() <= u32::MAX
    }

    /// The role with this name, unless the name is too long for the host.
    pub fn from_bytes(bytes: Vec<u8>) -> (role: Option<Role>)
        ensures
            role is Some <==> bytes@.len() <= u32::MAX,
            role is Some ==> role->Some_0@ == bytes@,
    {
        if bytes.len() <= u32::MAX as usize {
            Some(Role { bytes })
        } else {
            None
        }
    }

    /// The bytes of the name.
    pub fn as_bytes(&self) -> (bytes: &Vec<u8>)
        ensures
            bytes@ == self@,
    {
        &self.bytes
    }

    /// Whether both names are the same.
    pub fn same(&self, other: &Role) -> (same: bool)
        ensures
            same == (self@ == other@),
    {
        if self.bytes.len() != other.bytes.len() {
            return false;
        }
        let mut i: usize = 0;
        while i < self.bytes.len()
            invariant
                i <= self.bytes@.len(),
                self.bytes@.len() == other.bytes@.len(),
                forall|j: int| 0 <= j < i ==> self.bytes@[j] == other.bytes@[j],
            decreases self.bytes@.len() - i,
        {
            if self.bytes[i] != other.bytes[i] {
                return false;
            }
            i = i + 1;
        }
        assert(self.bytes@ =~= other.bytes@);
        true
    }

    /// Every role name fits in a host string.
    pub(crate) proof fn lemma_fits(&self)
        requires
            self.fits(),
        ensures
            self@.len() <= u32::MAX,
    {
    }
}

impl Clone for Role {
    fn clone(&self) -> (copy: Role)
        ensures
            copy@ == self@,
    {
        proof {
            use_type_invariant(self);
        }
        let bytes: Vec<u8> = self.bytes.clone();
        assert(bytes@ =~= self.bytes@);
        Role { bytes }
    }
}

/// Where an item is kept in the contract's instance storage.
pub enum DataKey {
    /// The super-admin.
    SuperAdmin,
    /// Whether an address was granted a role directly.
    HasRole(Role, Address),
    /// The address that may grant and revoke a role.
    RoleAdmin(Role),
    /// Whether an address is blacklisted.
    Blacklisted(Address),
    /// The parent of a role.
    RoleParent(Role),
}

} // verus!
