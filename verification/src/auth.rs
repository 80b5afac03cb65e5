//! The capability authority: turning an inbound credential into an
//! authenticated principal, and gating each mutating operation on the one
//! capability it demands.
//!
//! Authorization is enforced per operation, not centrally: a caller asks
//! `authorize` for the single capability an operation needs and receives
//! `Forbidden` before any mutation when the resolved set lacks it.

use vstd::prelude::*;

use crate::caps::{CapView, Permissions};
use crate::claims::Claims;
use crate::token::{spec_validate, validate_token_at};

verus! {

/// An authenticated principal: the one group a credential grants access to
/// and the capability set it resolved to.
#[derive(Debug, Clone)]
pub struct GroupAuth {
    pub group_id: u128,
    pub permissions: Permissions,
}

/// Why a request carries no principal, or may not act: no credential at
/// all, a credential that does not verify, or a verified credential whose
/// capabilities do not cover the operation.
#[derive(Debug, Clone, PartialEq, Eq, Structural)]
pub enum AuthError {
    Missing,
    Invalid,
    Forbidden,
}

/// The five capabilities an operation may demand.
#[derive(Debug, Clone, Copy, PartialEq, Eq, Structural)]
pub enum Capability {
    DeleteGroup,
    ManageMembers,
    UpdatePayment,
    AddExpenses,
    EditExpenses,
}

impl CapView {
    /// Whether this set grants one capability.
    pub open spec fn has(self, c: Capability) -> bool {
        match c {
            Capability::DeleteGroup => self.delete_group,
            Capability::ManageMembers => self.manage_members,
            Capability::UpdatePayment => self.update_payment,
            Capability::AddExpenses => self.add_expenses,
            Capability::EditExpenses => self.edit_expenses,
        }
    }
}

/// The capability set a claims value resolves to: its own when it carries
/// one, full access when it does not (a legacy token).
pub open spec fn effective_raw(o: Option<Permissions>) -> Permissions {
    match o {
        Some(p) => p,
        None => Permissions {
            can_delete_group: Some(true),
            can_manage_members: Some(true),
            can_update_payment: Some(true),
            can_add_expenses: Some(true),
            can_edit_expenses: Some(true),
        },
    }
}

impl Claims {
    /// Resolve the effective capability set of this token.
    pub fn effective_permissions(&self) -> (r: Permissions)
        ensures
            r == effective_raw(self.permissions),
            self.permissions is None ==> r@ == CapView::full(),
    {
        match &self.permissions {
            Some(p) => *p,
            None => Permissions::all(),
        }
    }
}

/// A claims value without a capability set resolves to full access: legacy
/// tokens keep every permission.
pub proof fn lemma_legacy_claims_full_access(c: Claims)
    ensures
        c.permissions is None ==> effective_raw(c.permissions)@ == CapView::full(),
{
}

/// The `Bearer ` prefix of an Authorization header.
pub open spec fn bearer_prefix() -> Seq<char> {
    seq!['B', 'e', 'a', 'r', 'e', 'r', ' ']
}

/// What authenticating a request yields at time `now`: no header is
/// `Missing`; a header without the bearer prefix, or whose token does not
/// verify, is `Invalid`; otherwise the principal with its resolved set.
pub open spec fn spec_authenticate(key: Seq<u8>, header: Option<Seq<char>>, now: u64) -> Result<
    GroupAuth,
    AuthError,
> {
    match header {
        None => Err(AuthError::Missing),
        Some(h) => {
            if h.len() < 7 || h.subrange(0, 7) != bearer_prefix() {
                Err(AuthError::Invalid)
            } else {
                match spec_validate(key, h.subrange(7, h.len() as int), now) {
                    Ok(c) => Ok(
                        GroupAuth {
                            group_id: c.group_id,
                            permissions: effective_raw(c.permissions),
                        },
                    ),
                    Err(_) => Err(AuthError::Invalid),
                }
            }
        },
    }
}

/// Turn the request's Authorization header into a principal, or the exact
/// failure `spec_authenticate` assigns it.
pub fn authenticate(key: &Vec<u8>, auth_header: Option<&String>, now: u64) -> (r: Result<
    GroupAuth,
    AuthError,
>)
    ensures
        r == spec_authenticate(
            key@,
            match auth_header {
                Some(h) => Some(h@),
                None => None,
            },
            now,
        ),
{
    let h = match auth_header {
        Some(h) => h,
        None => {
            return Err(AuthError::Missing);
        },
    };
    let hs: &str = h.as_str();
    let hn = hs.unicode_len();
    if hn < 7 {
        return Err(AuthError::Invalid);
    }
    let ok = hs.get_char(0) == 'B' && hs.get_char(1) == 'e' && hs.get_char(2) == 'a'
        && hs.get_char(3) == 'r' && hs.get_char(4) == 'e' && hs.get_char(5) == 'r'
        && hs.get_char(6) == ' ';
    if !ok {
        proof {
            assert(h@.subrange(0, 7) != bearer_prefix());
        }
        return Err(AuthError::Invalid);
    }
    proof {
        assert(h@.subrange(0, 7) =~= bearer_prefix());
    }
    let tok: &str = hs.substring_char(7, hn);
    match validate_token_at(key, tok, now) {
        Ok(c) => Ok(GroupAuth { group_id: c.group_id, permissions: c.effective_permissions() }),
        Err(_) => Err(AuthError::Invalid),
    }
}

/// Gate one operation on the single capability it declares: `Ok` exactly
/// when the principal's resolved set grants it, `Forbidden` otherwise.
pub fn authorize(auth: &GroupAuth, c: Capability) -> (r: Result<(), AuthError>)
    ensures
        r is Ok <==> auth.permissions@.has(c),
        !auth.permissions@.has(c) ==> r == Err::<(), AuthError>(AuthError::Forbidden),
{
    let granted = match c {
        Capability::DeleteGroup => auth.permissions.has_delete_group(),
        Capability::ManageMembers => auth.permissions.has_manage_members(),
        Capability::UpdatePayment => auth.permissions.has_update_payment(),
        Capability::AddExpenses => auth.permissions.has_add_expenses(),
        Capability::EditExpenses => auth.permissions.has_edit_expenses(),
    };
    if granted {
        Ok(())
    } else {
        Err(AuthError::Forbidden)
    }
}

} // verus!
