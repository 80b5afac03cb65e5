//! The request-level operations the routing layer exposes: reading a
//! token's permissions, minting an attenuated share link, and merging two
//! tokens for the same group. Each works on plain request and response
//! values; the routing layer only moves them over the wire.

use vstd::prelude::*;

use crate::auth::GroupAuth;
use crate::caps::{Permissions, join_raw, meet_raw};
use crate::claims::Claims;
use crate::parse::claims_normalize;
use crate::token::{
    VerifyError, generate_token_at, spec_expiry, spec_token, spec_validate, validate_token_at,
};

verus! {

/// Request to create a group with its initial members.
#[derive(Debug, Clone)]
pub struct CreateGroupRequest {
    pub name: String,
    pub member_names: Vec<String>,
    pub currency: Option<String>,
}

/// Request to add one member to the group.
#[derive(Debug, Clone)]
pub struct AddMemberRequest {
    pub name: String,
}

/// Request to update a member's payment identifiers.
#[derive(Debug, Clone)]
pub struct UpdateMemberPaymentRequest {
    pub paypal_email: Option<String>,
    pub iban: Option<String>,
}

/// Request to generate a share link with specific permissions; a missing
/// flag means requested-as-granted.
#[derive(Debug, Clone, Copy)]
pub struct GenerateShareLinkRequest {
    pub can_delete_group: Option<bool>,
    pub can_manage_members: Option<bool>,
    pub can_update_payment: Option<bool>,
    pub can_add_expenses: Option<bool>,
    pub can_edit_expenses: Option<bool>,
}

/// Permissions in responses: always resolved to concrete booleans.
#[derive(Debug, Clone, Copy, PartialEq, Eq, Structural)]
pub struct PermissionsResponse {
    pub can_delete_group: bool,
    pub can_manage_members: bool,
    pub can_update_payment: bool,
    pub can_add_expenses: bool,
    pub can_edit_expenses: bool,
}

/// Response carrying a generated share token and its effective permissions.
#[derive(Debug, Clone)]
pub struct ShareLinkResponse {
    pub token: String,
    pub permissions: PermissionsResponse,
}

/// Request to merge another token with the caller's own.
#[derive(Debug, Clone)]
pub struct MergeTokenRequest {
    pub other_token: String,
}

/// Why a merge request failed: the other token does not verify, or it is
/// for a different group.
#[derive(Debug, Clone, PartialEq, Eq, Structural)]
pub enum MergeError {
    InvalidToken,
    GroupMismatch,
}

/// A capability set's resolved booleans, for a response.
pub fn permissions_response(p: &Permissions) -> (r: PermissionsResponse)
    ensures
        r.can_delete_group == p@.delete_group,
        r.can_manage_members == p@.manage_members,
        r.can_update_payment == p@.update_payment,
        r.can_add_expenses == p@.add_expenses,
        r.can_edit_expenses == p@.edit_expenses,
{
    PermissionsResponse {
        can_delete_group: p.has_delete_group(),
        can_manage_members: p.has_manage_members(),
        can_update_payment: p.has_update_payment(),
        can_add_expenses: p.has_add_expenses(),
        can_edit_expenses: p.has_edit_expenses(),
    }
}

/// The capability set a share-link request asks for.
pub open spec fn spec_requested(req: GenerateShareLinkRequest) -> Permissions {
    Permissions {
        can_delete_group: req.can_delete_group,
        can_manage_members: req.can_manage_members,
        can_update_payment: req.can_update_payment,
        can_add_expenses: req.can_add_expenses,
        can_edit_expenses: req.can_edit_expenses,
    }
}

/// Mint a share link at time `now`: the requested permissions capped by the
/// caller's own, so a share link can never escalate, signed into a fresh
/// token for the caller's group.
pub fn generate_share_link(
    key: &Vec<u8>,
    auth: &GroupAuth,
    req: &GenerateShareLinkRequest,
    now: u64,
) -> (r: ShareLinkResponse)
    ensures
        r.permissions.can_delete_group == (spec_requested(*req)@.delete_group
            && auth.permissions@.delete_group),
        r.permissions.can_manage_members == (spec_requested(*req)@.manage_members
            && auth.permissions@.manage_members),
        r.permissions.can_update_payment == (spec_requested(*req)@.update_payment
            && auth.permissions@.update_payment),
        r.permissions.can_add_expenses == (spec_requested(*req)@.add_expenses
            && auth.permissions@.add_expenses),
        r.permissions.can_edit_expenses == (spec_requested(*req)@.edit_expenses
            && auth.permissions@.edit_expenses),
        r.token@ == spec_token(
            key@,
            Claims {
                group_id: auth.group_id,
                exp: spec_expiry(now),
                permissions: Some(meet_raw(spec_requested(*req), auth.permissions)),
            },
        ),
        forall|at: u64| #[trigger] spec_validate(key@, r.token@, at) == (if spec_expiry(now)
            < at {
            Err::<Claims, VerifyError>(VerifyError::Expired)
        } else {
            Ok::<Claims, VerifyError>(
                claims_normalize(
                    Claims {
                        group_id: auth.group_id,
                        exp: spec_expiry(now),
                        permissions: Some(meet_raw(spec_requested(*req), auth.permissions)),
                    },
                ),
            )
        }),
{
    let requested = Permissions {
        can_delete_group: req.can_delete_group,
        can_manage_members: req.can_manage_members,
        can_update_payment: req.can_update_payment,
        can_add_expenses: req.can_add_expenses,
        can_edit_expenses: req.can_edit_expenses,
    };
    let effective = requested.cap_by(&auth.permissions);
    let token = generate_token_at(key, auth.group_id, Some(effective), now);
    ShareLinkResponse { token, permissions: permissions_response(&effective) }
}

/// Merge another valid token for the same group with the caller's own at
/// time `now`: the result grants the union of both, so the bearer keeps the
/// best of both links. The other token must verify and must be for the
/// caller's group, exactly as `spec_validate` judges it.
pub fn merge_token(
    key: &Vec<u8>,
    auth: &GroupAuth,
    req: &MergeTokenRequest,
    now: u64,
) -> (r: Result<ShareLinkResponse, MergeError>)
    ensures
        match r {
            Ok(resp) => {
                &&& spec_validate(key@, req.other_token@, now) matches Ok(c)
                    && c.group_id == auth.group_id
                &&& resp.permissions.can_delete_group == (auth.permissions@.delete_group
                    || spec_merged_other(key@, req.other_token@, now)@.delete_group)
                &&& resp.permissions.can_manage_members == (auth.permissions@.manage_members
                    || spec_merged_other(key@, req.other_token@, now)@.manage_members)
                &&& resp.permissions.can_update_payment == (auth.permissions@.update_payment
                    || spec_merged_other(key@, req.other_token@, now)@.update_payment)
                &&& resp.permissions.can_add_expenses == (auth.permissions@.add_expenses
                    || spec_merged_other(key@, req.other_token@, now)@.add_expenses)
                &&& resp.permissions.can_edit_expenses == (auth.permissions@.edit_expenses
                    || spec_merged_other(key@, req.other_token@, now)@.edit_expenses)
                &&& resp.token@ == spec_token(
                    key@,
                    Claims {
                        group_id: auth.group_id,
                        exp: spec_expiry(now),
                        permissions: Some(
                            join_raw(
                                auth.permissions,
                                spec_merged_other(key@, req.other_token@, now),
                            ),
                        ),
                    },
                )
                &&& forall|at: u64| #[trigger] spec_validate(key@, resp.token@, at) == (
                if spec_expiry(now) < at {
                    Err::<Claims, VerifyError>(VerifyError::Expired)
                } else {
                    Ok::<Claims, VerifyError>(
                        claims_normalize(
                            Claims {
                                group_id: auth.group_id,
                                exp: spec_expiry(now),
                                permissions: Some(
                                    join_raw(
                                        auth.permissions,
                                        spec_merged_other(key@, req.other_token@, now),
                                    ),
                                ),
                            },
                        ),
                    )
                })
            },
            Err(MergeError::InvalidToken) => spec_validate(key@, req.other_token@, now) is Err,
            Err(MergeError::GroupMismatch) => spec_validate(key@, req.other_token@, now)
                matches Ok(c) && c.group_id != auth.group_id,
        },
{
    let other = match validate_token_at(key, req.other_token.as_str(), now) {
        Ok(c) => c,
        Err(_) => {
            return Err(MergeError::InvalidToken);
        },
    };
    if other.group_id != auth.group_id {
        return Err(MergeError::GroupMismatch);
    }
    let merged = auth.permissions.union_with(&other.effective_permissions());
    let token = generate_token_at(key, auth.group_id, Some(merged), now);
    Ok(ShareLinkResponse { token, permissions: permissions_response(&merged) })
}

/// The other token's effective capability set, as the merge resolves it.
pub open spec fn spec_merged_other(key: Seq<u8>, token: Seq<char>, now: u64) -> Permissions {
    match spec_validate(key, token, now) {
        Ok(c) => crate::auth::effective_raw(c.permissions),
        Err(_) => crate::auth::effective_raw(None),
    }
}

} // verus!
