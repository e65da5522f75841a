//! The closed role enumeration and its external numeric encoding.

use vstd::prelude::*;

verus! {

/// The roles the authorization guard knows.  Authorization is membership in a
/// per-endpoint set, never a hierarchy comparison.
#[derive(Debug, Clone, Copy, PartialEq, Eq, Structural)]
pub enum Role {
    Admin,
    Moder,
    User,
}

impl Role {
    /// The numeric discriminant under which a role is stored outside the
    /// process.
    pub open spec fn spec_index(self) -> usize {
        match self {
            Role::Admin => 0,
            Role::Moder => 1,
            Role::User => 2,
        }
    }

    /// Encodes the role as its stored discriminant.
    pub fn to_index(self) -> (i: usize)
        ensures
            i == self.spec_index(),
    {
        match self {
            Role::Admin => 0,
            Role::Moder => 1,
            Role::User => 2,
        }
    }

    /// The decoding relation: exactly the three discriminants are valid.
    pub open spec fn spec_from_index(i: usize) -> Option<Role> {
        if i == 0 {
            Some(Role::Admin)
        } else if i == 1 {
            Some(Role::Moder)
        } else if i == 2 {
            Some(Role::User)
        } else {
            None
        }
    }

    /// Decodes a stored discriminant, rejecting out-of-range values as a
    /// decode failure rather than a panic.
    pub fn from_index(i: usize) -> (r: Option<Role>)
        ensures
            r == Role::spec_from_index(i),
    {
        if i == 0 {
            Some(Role::Admin)
        } else if i == 1 {
            Some(Role::Moder)
        } else if i == 2 {
            Some(Role::User)
        } else {
            None
        }
    }
}

/// Every role survives the round trip through its external encoding.
pub proof fn lemma_role_roundtrip(r: Role)
    ensures
        Role::spec_from_index(r.spec_index()) == Some(r),
{
}

} // verus!
