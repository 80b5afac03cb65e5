use splitledger::caps::Permissions;

fn perms(
    dg: Option<bool>,
    mm: Option<bool>,
    up: Option<bool>,
    ae: Option<bool>,
    ee: Option<bool>,
) -> Permissions {
    Permissions {
        can_delete_group: dg,
        can_manage_members: mm,
        can_update_payment: up,
        can_add_expenses: ae,
        can_edit_expenses: ee,
    }
}

fn resolved(p: &Permissions) -> [bool; 5] {
    [
        p.has_delete_group(),
        p.has_manage_members(),
        p.has_update_payment(),
        p.has_add_expenses(),
        p.has_edit_expenses(),
    ]
}

#[test]
fn all_grants_everything() {
    let p = Permissions::all();
    assert_eq!(resolved(&p), [true; 5]);
    assert!(p.has_all());
}

#[test]
fn missing_field_resolves_to_granted() {
    let p = perms(None, None, None, None, None);
    assert_eq!(resolved(&p), [true; 5]);
    assert!(p.has_all());
}

#[test]
fn denied_field_resolves_to_denied() {
    let p = perms(Some(false), None, Some(true), Some(false), None);
    assert_eq!(resolved(&p), [false, true, true, false, true]);
    assert!(!p.has_all());
}

#[test]
fn cap_by_never_escalates() {
    let a = perms(Some(true), Some(true), None, Some(false), None);
    let b = perms(Some(false), Some(true), Some(true), Some(true), Some(false));
    let c = a.cap_by(&b);
    let ra = resolved(&a);
    let rb = resolved(&b);
    let rc = resolved(&c);
    for i in 0..5 {
        assert_eq!(rc[i], ra[i] && rb[i]);
        if rc[i] {
            assert!(ra[i] && rb[i]);
        }
    }
}

#[test]
fn union_never_reduces() {
    let a = perms(Some(false), Some(true), None, Some(false), Some(false));
    let b = perms(Some(false), Some(false), Some(false), Some(true), None);
    let c = a.union_with(&b);
    let ra = resolved(&a);
    let rb = resolved(&b);
    let rc = resolved(&c);
    for i in 0..5 {
        assert_eq!(rc[i], ra[i] || rb[i]);
        if ra[i] || rb[i] {
            assert!(rc[i]);
        }
    }
}

#[test]
fn full_set_is_identity_of_cap_and_absorbing_for_union() {
    let a = perms(Some(false), None, Some(true), Some(false), None);
    let capped = a.cap_by(&Permissions::all());
    assert_eq!(resolved(&capped), resolved(&a));
    let merged = a.union_with(&Permissions::all());
    assert_eq!(resolved(&merged), [true; 5]);
}

#[test]
fn cap_and_union_commute() {
    let a = perms(Some(true), Some(false), None, Some(true), Some(false));
    let b = perms(None, Some(true), Some(false), Some(false), Some(true));
    assert_eq!(resolved(&a.cap_by(&b)), resolved(&b.cap_by(&a)));
    assert_eq!(resolved(&a.union_with(&b)), resolved(&b.union_with(&a)));
}

#[test]
fn share_link_request_cannot_gain_manage_members() {
    // A caller without manage_members asks for it: the capped set denies it.
    let requested = perms(None, Some(true), None, None, None);
    let caller = perms(Some(true), Some(false), Some(true), Some(true), Some(true));
    let issued = requested.cap_by(&caller);
    assert!(!issued.has_manage_members());
    assert_eq!(issued.can_manage_members, Some(false));
}

#[test]
fn merging_tokens_keeps_the_best_of_both() {
    let x = perms(Some(false), Some(false), Some(false), Some(true), Some(false));
    let y = perms(Some(false), Some(false), Some(false), Some(false), Some(true));
    let merged = x.union_with(&y);
    assert!(merged.has_add_expenses());
    assert!(merged.has_edit_expenses());
    assert!(!merged.has_delete_group());
}
