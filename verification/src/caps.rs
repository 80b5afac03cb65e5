//! The capability model: five independent permissions carried by a token.
//!
//! Every field is an `Option<bool>` for backward compatibility: tokens minted
//! before granular permissions existed lack the fields, and a missing field
//! resolves to "granted". The meaning of a `Permissions` value is therefore a
//! `CapView`, the five resolved booleans, and every contract in this crate
//! speaks of that view.

use vstd::prelude::*;

verus! {

/// Granular permissions stored in a token. A `None` field means "granted"
/// (legacy tokens keep full access).
#[derive(Debug, Clone, Copy, PartialEq, Eq)]
pub struct Permissions {
    pub can_delete_group: Option<bool>,
    pub can_manage_members: Option<bool>,
    pub can_update_payment: Option<bool>,
    pub can_add_expenses: Option<bool>,
    pub can_edit_expenses: Option<bool>,
}

/// The resolved meaning of a `Permissions` value: each capability as a plain
/// boolean, with missing fields already defaulted to granted.
#[verifier::ext_equal]
pub struct CapView {
    pub delete_group: bool,
    pub manage_members: bool,
    pub update_payment: bool,
    pub add_expenses: bool,
    pub edit_expenses: bool,
}

/// The centralized resolution rule: a missing field means "granted".
pub open spec fn resolve_flag(o: Option<bool>) -> bool {
    match o {
        Some(b) => b,
        None => true,
    }
}

impl CapView {
    /// Every capability granted.
    pub open spec fn full() -> CapView {
        CapView {
            delete_group: true,
            manage_members: true,
            update_payment: true,
            add_expenses: true,
            edit_expenses: true,
        }
    }

    /// Per-field AND: the meaning of attenuation.
    pub open spec fn meet(self, other: CapView) -> CapView {
        CapView {
            delete_group: self.delete_group && other.delete_group,
            manage_members: self.manage_members && other.manage_members,
            update_payment: self.update_payment && other.update_payment,
            add_expenses: self.add_expenses && other.add_expenses,
            edit_expenses: self.edit_expenses && other.edit_expenses,
        }
    }

    /// Per-field OR: the meaning of merging two tokens.
    pub open spec fn join(self, other: CapView) -> CapView {
        CapView {
            delete_group: self.delete_group || other.delete_group,
            manage_members: self.manage_members || other.manage_members,
            update_payment: self.update_payment || other.update_payment,
            add_expenses: self.add_expenses || other.add_expenses,
            edit_expenses: self.edit_expenses || other.edit_expenses,
        }
    }

    /// Conjunction of all five capabilities.
    pub open spec fn all_granted(self) -> bool {
        self.delete_group && self.manage_members && self.update_payment
            && self.add_expenses && self.edit_expenses
    }
}

/// The raw field values `cap_by` produces: every field concrete, each the
/// conjunction of the operands' resolved fields.
pub open spec fn meet_raw(a: Permissions, b: Permissions) -> Permissions {
    Permissions {
        can_delete_group: Some(a@.delete_group && b@.delete_group),
        can_manage_members: Some(a@.manage_members && b@.manage_members),
        can_update_payment: Some(a@.update_payment && b@.update_payment),
        can_add_expenses: Some(a@.add_expenses && b@.add_expenses),
        can_edit_expenses: Some(a@.edit_expenses && b@.edit_expenses),
    }
}

/// The raw field values `union_with` produces: every field concrete, each
/// the disjunction of the operands' resolved fields.
pub open spec fn join_raw(a: Permissions, b: Permissions) -> Permissions {
    Permissions {
        can_delete_group: Some(a@.delete_group || b@.delete_group),
        can_manage_members: Some(a@.manage_members || b@.manage_members),
        can_update_payment: Some(a@.update_payment || b@.update_payment),
        can_add_expenses: Some(a@.add_expenses || b@.add_expenses),
        can_edit_expenses: Some(a@.edit_expenses || b@.edit_expenses),
    }
}

impl View for Permissions {
    type V = CapView;

    open spec fn view(&self) -> CapView {
        CapView {
            delete_group: resolve_flag(self.can_delete_group),
            manage_members: resolve_flag(self.can_manage_members),
            update_payment: resolve_flag(self.can_update_payment),
            add_expenses: resolve_flag(self.can_add_expenses),
            edit_expenses: resolve_flag(self.can_edit_expenses),
        }
    }
}

impl Permissions {
    /// All permissions granted (used for group creator tokens).
    pub fn all() -> (r: Permissions)
        ensures
            r.can_delete_group == Some(true),
            r.can_manage_members == Some(true),
            r.can_update_payment == Some(true),
            r.can_add_expenses == Some(true),
            r.can_edit_expenses == Some(true),
            r@ == CapView::full(),
    {
        Permissions {
            can_delete_group: Some(true),
            can_manage_members: Some(true),
            can_update_payment: Some(true),
            can_add_expenses: Some(true),
            can_edit_expenses: Some(true),
        }
    }

    /// Resolve one field: `None` (old token) means granted.
    fn resolve(opt: Option<bool>) -> (r: bool)
        ensures
            r == resolve_flag(opt),
    {
        match opt {
            Some(b) => b,
            None => true,
        }
    }

    pub fn has_delete_group(&self) -> (r: bool)
        ensures
            r == self@.delete_group,
    {
        Self::resolve(self.can_delete_group)
    }

    pub fn has_manage_members(&self) -> (r: bool)
        ensures
            r == self@.manage_members,
    {
        Self::resolve(self.can_manage_members)
    }

    pub fn has_update_payment(&self) -> (r: bool)
        ensures
            r == self@.update_payment,
    {
        Self::resolve(self.can_update_payment)
    }

    pub fn has_add_expenses(&self) -> (r: bool)
        ensures
            r == self@.add_expenses,
    {
        Self::resolve(self.can_add_expenses)
    }

    pub fn has_edit_expenses(&self) -> (r: bool)
        ensures
            r == self@.edit_expenses,
    {
        Self::resolve(self.can_edit_expenses)
    }

    /// Returns true if every permission is granted.
    pub fn has_all(&self) -> (r: bool)
        ensures
            r == self@.all_granted(),
    {
        self.has_delete_group() && self.has_manage_members() && self.has_update_payment()
            && self.has_add_expenses() && self.has_edit_expenses()
    }

    /// Cap each permission by the caller's own permissions: a share link can
    /// never escalate beyond its issuer's rights. Every field of the result
    /// is concrete (`Some`), so the result resolves to exactly the meet.
    pub fn cap_by(&self, caller: &Permissions) -> (r: Permissions)
        ensures
            r.can_delete_group == Some(self@.meet(caller@).delete_group),
            r.can_manage_members == Some(self@.meet(caller@).manage_members),
            r.can_update_payment == Some(self@.meet(caller@).update_payment),
            r.can_add_expenses == Some(self@.meet(caller@).add_expenses),
            r.can_edit_expenses == Some(self@.meet(caller@).edit_expenses),
            r == meet_raw(*self, *caller),
            r@ == self@.meet(caller@),
    {
        Permissions {
            can_delete_group: Some(self.has_delete_group() && caller.has_delete_group()),
            can_manage_members: Some(self.has_manage_members() && caller.has_manage_members()),
            can_update_payment: Some(self.has_update_payment() && caller.has_update_payment()),
            can_add_expenses: Some(self.has_add_expenses() && caller.has_add_expenses()),
            can_edit_expenses: Some(self.has_edit_expenses() && caller.has_edit_expenses()),
        }
    }

    /// Union of two permission sets (per-field OR). Used when merging an
    /// existing token with a newly received share link, so the bearer keeps
    /// the best of both.
    pub fn union_with(&self, other: &Permissions) -> (r: Permissions)
        ensures
            r.can_delete_group == Some(self@.join(other@).delete_group),
            r.can_manage_members == Some(self@.join(other@).manage_members),
            r.can_update_payment == Some(self@.join(other@).update_payment),
            r.can_add_expenses == Some(self@.join(other@).add_expenses),
            r.can_edit_expenses == Some(self@.join(other@).edit_expenses),
            r == join_raw(*self, *other),
            r@ == self@.join(other@),
    {
        Permissions {
            can_delete_group: Some(self.has_delete_group() || other.has_delete_group()),
            can_manage_members: Some(self.has_manage_members() || other.has_manage_members()),
            can_update_payment: Some(self.has_update_payment() || other.has_update_payment()),
            can_add_expenses: Some(self.has_add_expenses() || other.has_add_expenses()),
            can_edit_expenses: Some(self.has_edit_expenses() || other.has_edit_expenses()),
        }
    }
}

/// Attenuation never escalates: any capability the capped set grants is
/// granted by both operands.
pub proof fn lemma_cap_by_attenuates(a: Permissions, b: Permissions)
    ensures
        a@.meet(b@).delete_group ==> a@.delete_group && b@.delete_group,
        a@.meet(b@).manage_members ==> a@.manage_members && b@.manage_members,
        a@.meet(b@).update_payment ==> a@.update_payment && b@.update_payment,
        a@.meet(b@).add_expenses ==> a@.add_expenses && b@.add_expenses,
        a@.meet(b@).edit_expenses ==> a@.edit_expenses && b@.edit_expenses,
{
}

/// Merging never reduces: any capability either operand grants is granted
/// by the union.
pub proof fn lemma_union_covers(a: Permissions, b: Permissions)
    ensures
        a@.delete_group || b@.delete_group ==> a@.join(b@).delete_group,
        a@.manage_members || b@.manage_members ==> a@.join(b@).manage_members,
        a@.update_payment || b@.update_payment ==> a@.join(b@).update_payment,
        a@.add_expenses || b@.add_expenses ==> a@.join(b@).add_expenses,
        a@.edit_expenses || b@.edit_expenses ==> a@.join(b@).edit_expenses,
{
}

/// The full set is the identity of attenuation and absorbing for union:
/// capping by a full-access caller changes nothing, and merging with a
/// full-access token grants everything.
pub proof fn lemma_full_identity(a: Permissions)
    ensures
        a@.meet(CapView::full()) == a@,
        a@.join(CapView::full()) == CapView::full(),
{
    assert(a@.meet(CapView::full()) =~= a@);
    assert(a@.join(CapView::full()) =~= CapView::full());
}

/// Attenuation and union are commutative.
pub proof fn lemma_meet_join_commute(a: Permissions, b: Permissions)
    ensures
        a@.meet(b@) == b@.meet(a@),
        a@.join(b@) == b@.join(a@),
{
    assert(a@.meet(b@) =~= b@.meet(a@));
    assert(a@.join(b@) =~= b@.join(a@));
}

/// Attenuation and union are associative.
pub proof fn lemma_meet_join_associate(a: Permissions, b: Permissions, c: Permissions)
    ensures
        a@.meet(b@).meet(c@) == a@.meet(b@.meet(c@)),
        a@.join(b@).join(c@) == a@.join(b@.join(c@)),
{
    assert(a@.meet(b@).meet(c@) =~= a@.meet(b@.meet(c@)));
    assert(a@.join(b@).join(c@) =~= a@.join(b@.join(c@)));
}

} // verus!
