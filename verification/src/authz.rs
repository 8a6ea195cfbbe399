//! Organization-scoped authorization: roles, per-collection grants, and the
//! fixed capability table. Owners and Admins hold every capability including
//! organization management; Managers read and write their assigned
//! collections but cannot manage the organization; Users are limited to
//! assigned collections and further scoped by per-collection read-only
//! flags.
use vstd::prelude::*;

verus! {

/// Role of a membership inside an organization.
#[derive(Clone, Copy, Debug, PartialEq, Eq, Structural)]
pub enum Role {
    Owner,
    Admin,
    Manager,
    User,
}

/// Access granted to one collection by a membership.
#[derive(Clone, Copy, Debug, PartialEq, Eq, Structural)]
pub struct CollectionGrant {
    pub collection_id: u64,
    pub read_only: bool,
}

/// A capability an organization-scoped operation needs.
#[derive(Clone, Copy, Debug, PartialEq, Eq, Structural)]
pub enum Capability {
    /// Organization management: deleting the organization, adding and
    /// removing memberships, changing membership roles, creating
    /// collections.
    ManageOrg,
    /// Writing vault items within the given collection.
    WriteCollection { collection_id: u64 },
    /// Reading vault items within the given collection.
    ReadCollection { collection_id: u64 },
}

/// Whether the grants assign the collection at all.
pub open spec fn grants_include(grants: Seq<CollectionGrant>, collection_id: u64) -> bool {
    exists|i: int| 0 <= i < grants.len() && grants[i].collection_id == collection_id
}

/// Whether the grants assign the collection without a read-only flag.
pub open spec fn grants_writable(grants: Seq<CollectionGrant>, collection_id: u64) -> bool {
    exists|i: int|
        0 <= i < grants.len() && grants[i].collection_id == collection_id && !grants[i].read_only
}

/// The fixed capability table: what a role with the given collection grants
/// may do.
pub open spec fn role_allows(role: Role, grants: Seq<CollectionGrant>, cap: Capability) -> bool {
    match cap {
        Capability::ManageOrg => role == Role::Owner || role == Role::Admin,
        Capability::WriteCollection { collection_id } => match role {
            Role::Owner => true,
            Role::Admin => true,
            Role::Manager => grants_include(grants, collection_id),
            Role::User => grants_writable(grants, collection_id),
        },
        Capability::ReadCollection { collection_id } => match role {
            Role::Owner => true,
            Role::Admin => true,
            Role::Manager => grants_include(grants, collection_id),
            Role::User => grants_include(grants, collection_id),
        },
    }
}

/// Decides the capability table for concrete inputs.
pub fn allows(role: Role, grants: &Vec<CollectionGrant>, cap: Capability) -> (r: bool)
    ensures
        r == role_allows(role, grants@, cap),
{
    match cap {
        Capability::ManageOrg => match role {
            Role::Owner => true,
            Role::Admin => true,
            _ => false,
        },
        Capability::WriteCollection { collection_id } => match role {
            Role::Owner => true,
            Role::Admin => true,
            Role::Manager => find_grant(grants, collection_id, false),
            Role::User => find_grant(grants, collection_id, true),
        },
        Capability::ReadCollection { collection_id } => match role {
            Role::Owner => true,
            Role::Admin => true,
            Role::Manager => find_grant(grants, collection_id, false),
            Role::User => find_grant(grants, collection_id, false),
        },
    }
}

/// Searches the grants for the collection; with `need_write` the grant must
/// also lack the read-only flag.
pub(crate) fn find_grant(grants: &Vec<CollectionGrant>, collection_id: u64, need_write: bool) -> (r: bool)
    ensures
        !need_write ==> r == grants_include(grants@, collection_id),
        need_write ==> r == grants_writable(grants@, collection_id),
{
    let mut i: usize = 0;
    while i < grants.len()
        invariant
            i <= grants@.len(),
            forall|j: int|
                0 <= j < i ==> !((#[trigger] grants@[j]).collection_id == collection_id && (
                !need_write || !grants@[j].read_only)),
        decreases grants@.len() - i,
    {
        if grants[i].collection_id == collection_id && (!need_write || !grants[i].read_only) {
            return true;
        }
        i = i + 1;
    }
    false
}

/// Organization management is reserved to Owners and Admins: whatever the
/// collection grants, a Manager or User never holds `ManageOrg`, and every
/// role that holds it is Owner or Admin. Organization deletion and
/// membership role changes all turn on exactly this capability.
pub proof fn lemma_admin_only_capability(role: Role, grants: Seq<CollectionGrant>)
    ensures
        role_allows(role, grants, Capability::ManageOrg) <==> (role == Role::Owner || role
            == Role::Admin),
        role == Role::User ==> !role_allows(role, grants, Capability::ManageOrg),
        role == Role::Manager ==> !role_allows(role, grants, Capability::ManageOrg),
{
}

/// A User's write access is never broader than read access, and a read-only
/// grant never lets a User write the collection.
pub proof fn lemma_user_write_within_grants(grants: Seq<CollectionGrant>, collection_id: u64)
    ensures
        role_allows(Role::User, grants, Capability::WriteCollection { collection_id })
            ==> role_allows(Role::User, grants, Capability::ReadCollection { collection_id }),
        !grants_writable(grants, collection_id) ==> !role_allows(
            Role::User,
            grants,
            Capability::WriteCollection { collection_id },
        ),
{
}

} // verus!
