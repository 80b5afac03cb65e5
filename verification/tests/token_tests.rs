use splitledger::api::{
    GenerateShareLinkRequest, MergeError, MergeTokenRequest, generate_share_link, merge_token,
    permissions_response,
};
use splitledger::auth::{AuthError, Capability, GroupAuth, authenticate, authorize};
use splitledger::b64::b64u_encode;
use splitledger::caps::Permissions;
use splitledger::token::{
    TOKEN_LIFETIME_SECS, VerifyError, generate_token, generate_token_at, validate_token,
    validate_token_at,
};

fn key() -> Vec<u8> {
    b"dev-secret-change-in-production".to_vec()
}

fn gid() -> u128 {
    0x123e4567e89b12d3a456426614174000u128
}

fn perms(
    dg: Option<bool>,
    mm: Option<bool>,
    up: Option<bool>,
    ae: Option<bool>,
    ee: Option<bool>,
) -> Permissions {
    Permissions {
        can_delete_group: dg,
        can_manage_members: mm,
        can_update_payment: up,
        can_add_expenses: ae,
        can_edit_expenses: ee,
    }
}

/// Sign an arbitrary header+payload pair the way the codec does, using the
/// outside crate directly, so fixtures under other schemas can be minted.
fn sign_fixture(key: &[u8], header: &str, payload: &str) -> String {
    let msg = format!(
        "{}.{}",
        String::from_utf8(b64u_encode(&header.as_bytes().to_vec())).unwrap(),
        String::from_utf8(b64u_encode(&payload.as_bytes().to_vec())).unwrap()
    );
    let sig = jsonwebtoken::crypto::sign(
        msg.as_bytes(),
        &jsonwebtoken::EncodingKey::from_secret(key),
        jsonwebtoken::Algorithm::HS256,
    )
    .unwrap();
    format!("{}.{}", msg, sig)
}

#[test]
fn issue_then_validate_round_trips() {
    let k = key();
    let p = perms(Some(true), Some(false), Some(true), Some(true), Some(false));
    let tok = generate_token_at(&k, gid(), Some(p), 1000);
    let c = validate_token_at(&k, &tok, 1000).unwrap();
    assert_eq!(c.group_id, gid());
    assert_eq!(c.exp, 1000 + TOKEN_LIFETIME_SECS);
    let got = c.permissions.unwrap();
    assert_eq!(got.can_delete_group, Some(true));
    assert_eq!(got.can_manage_members, Some(false));
    assert_eq!(got.can_update_payment, Some(true));
    assert_eq!(got.can_add_expenses, Some(true));
    assert_eq!(got.can_edit_expenses, Some(false));
}

#[test]
fn clock_based_issue_validates_now() {
    let k = key();
    let tok = generate_token(&k, gid(), Some(Permissions::all()));
    let c = validate_token(&k, &tok).unwrap();
    assert_eq!(c.group_id, gid());
    assert!(c.permissions.unwrap().has_all());
}

#[test]
fn issued_token_is_accepted_by_the_outside_decoder() {
    // The token must decode under the outside crate's own full decoder,
    // signature and expiry checks included.
    let k = key();
    let tok = generate_token(&k, gid(), Some(perms(Some(false), None, None, Some(true), None)));
    let data = jsonwebtoken::decode::<serde_json::Value>(
        &tok,
        &jsonwebtoken::DecodingKey::from_secret(&k),
        &jsonwebtoken::Validation::new(jsonwebtoken::Algorithm::HS256),
    )
    .unwrap();
    assert_eq!(
        data.claims.get("g").and_then(|v| v.as_str()).unwrap(),
        "123e4567-e89b-12d3-a456-426614174000"
    );
    let p = data.claims.get("p").unwrap();
    assert_eq!(p.get("dg").and_then(|v| v.as_bool()).unwrap(), false);
    assert_eq!(p.get("ae").and_then(|v| v.as_bool()).unwrap(), true);
    assert!(p.get("mm").is_none());
}

#[test]
fn legacy_long_form_claims_still_decode() {
    // A fixture under the previous schema: long field names throughout.
    let payload = "{\"group_id\":\"123e4567-e89b-12d3-a456-426614174000\",\"exp\":9999999999,\"permissions\":{\"can_add_expenses\":false}}";
    let tok = sign_fixture(&key(), "{\"typ\":\"JWT\",\"alg\":\"HS256\"}", payload);
    let c = validate_token_at(&key(), &tok, 1000).unwrap();
    assert_eq!(c.group_id, gid());
    assert_eq!(c.exp, 9999999999);
    let p = c.permissions.unwrap();
    assert_eq!(p.can_add_expenses, Some(false));
    // Fields absent from a present capability object default to granted.
    assert_eq!(p.can_delete_group, Some(true));
    assert_eq!(p.can_edit_expenses, Some(true));
}

#[test]
fn legacy_claims_without_capability_field_resolve_to_full_access() {
    let payload =
        "{\"g\":\"123e4567-e89b-12d3-a456-426614174000\",\"exp\":9999999999}";
    let tok = sign_fixture(&key(), "{\"typ\":\"JWT\",\"alg\":\"HS256\"}", payload);
    let c = validate_token_at(&key(), &tok, 1000).unwrap();
    assert!(c.permissions.is_none());
    let effective = c.effective_permissions();
    assert!(effective.has_all());
    let resp = permissions_response(&effective);
    assert!(resp.can_delete_group && resp.can_manage_members && resp.can_update_payment);
    assert!(resp.can_add_expenses && resp.can_edit_expenses);
}

#[test]
fn unknown_primitive_claims_are_skipped() {
    let payload = "{\"iat\":123,\"iss\":\"someone\",\"flag\":true,\"note\":null,\"g\":\"123e4567-e89b-12d3-a456-426614174000\",\"exp\":9999999999}";
    let tok = sign_fixture(&key(), "{\"typ\":\"JWT\",\"alg\":\"HS256\"}", payload);
    let c = validate_token_at(&key(), &tok, 1000).unwrap();
    assert_eq!(c.group_id, gid());
}

#[test]
fn expired_token_is_rejected_as_expired() {
    let k = key();
    let tok = generate_token_at(&k, gid(), None, 1000);
    let late = 1000 + TOKEN_LIFETIME_SECS + 1;
    assert_eq!(validate_token_at(&k, &tok, late), Err(VerifyError::Expired));
    // At the exact expiry instant the token still verifies.
    assert!(validate_token_at(&k, &tok, 1000 + TOKEN_LIFETIME_SECS).is_ok());
}

#[test]
fn wrong_key_is_a_signature_mismatch() {
    let tok = generate_token_at(&key(), gid(), None, 1000);
    let other = b"another-secret".to_vec();
    assert_eq!(validate_token_at(&other, &tok, 1000), Err(VerifyError::SignatureMismatch));
}

#[test]
fn tampered_payload_is_a_signature_mismatch() {
    let k = key();
    let tok = generate_token_at(&k, gid(), None, 1000);
    let mut parts: Vec<&str> = tok.split('.').collect();
    assert_eq!(parts.len(), 3);
    let forged_payload = String::from_utf8(b64u_encode(
        &"{\"g\":\"123e4567-e89b-12d3-a456-426614174999\",\"exp\":9999999999}"
            .as_bytes()
            .to_vec(),
    ))
    .unwrap();
    parts[1] = &forged_payload;
    let forged = parts.join(".");
    assert_eq!(validate_token_at(&k, &forged, 1000), Err(VerifyError::SignatureMismatch));
}

#[test]
fn garbage_is_malformed() {
    let k = key();
    assert_eq!(validate_token_at(&k, "garbage", 0), Err(VerifyError::Malformed));
    assert_eq!(validate_token_at(&k, "", 0), Err(VerifyError::Malformed));
    assert_eq!(validate_token_at(&k, "a.b", 0), Err(VerifyError::Malformed));
}

#[test]
fn authenticate_distinguishes_missing_and_invalid() {
    let k = key();
    assert_eq!(authenticate(&k, None, 0).unwrap_err(), AuthError::Missing);
    let basic = String::from("Basic abc");
    assert_eq!(authenticate(&k, Some(&basic), 0).unwrap_err(), AuthError::Invalid);
    let bad = String::from("Bearer not-a-token");
    assert_eq!(authenticate(&k, Some(&bad), 0).unwrap_err(), AuthError::Invalid);
}

#[test]
fn authenticate_resolves_the_principal() {
    let k = key();
    let tok = generate_token_at(&k, gid(), Some(perms(None, Some(false), None, None, None)), 5);
    let header = format!("Bearer {}", tok);
    let auth = authenticate(&k, Some(&header), 5).unwrap();
    assert_eq!(auth.group_id, gid());
    assert!(!auth.permissions.has_manage_members());
    assert!(auth.permissions.has_add_expenses());
}

#[test]
fn authorize_gates_on_the_declared_capability() {
    let auth = GroupAuth {
        group_id: gid(),
        permissions: perms(Some(false), Some(true), Some(true), Some(true), Some(true)),
    };
    assert_eq!(authorize(&auth, Capability::DeleteGroup), Err(AuthError::Forbidden));
    assert!(authorize(&auth, Capability::ManageMembers).is_ok());
    assert!(authorize(&auth, Capability::AddExpenses).is_ok());
}

#[test]
fn share_link_is_capped_by_the_caller() {
    // A caller without manage_members asks for it: the issued token denies it.
    let k = key();
    let auth = GroupAuth {
        group_id: gid(),
        permissions: perms(Some(true), Some(false), Some(true), Some(true), Some(true)),
    };
    let req = GenerateShareLinkRequest {
        can_delete_group: None,
        can_manage_members: Some(true),
        can_update_payment: None,
        can_add_expenses: None,
        can_edit_expenses: None,
    };
    let resp = generate_share_link(&k, &auth, &req, 1000);
    assert!(!resp.permissions.can_manage_members);
    assert!(resp.permissions.can_delete_group);
    let c = validate_token_at(&k, &resp.token, 1000).unwrap();
    assert_eq!(c.permissions.unwrap().can_manage_members, Some(false));
}

#[test]
fn merge_takes_the_union_of_both_tokens() {
    let k = key();
    // X grants add_expenses only; Y grants edit_expenses only.
    let auth = GroupAuth {
        group_id: gid(),
        permissions: perms(Some(false), Some(false), Some(false), Some(true), Some(false)),
    };
    let y = generate_token_at(
        &k,
        gid(),
        Some(perms(Some(false), Some(false), Some(false), Some(false), Some(true))),
        1000,
    );
    let resp = merge_token(&k, &auth, &MergeTokenRequest { other_token: y }, 1000).unwrap();
    assert!(resp.permissions.can_add_expenses);
    assert!(resp.permissions.can_edit_expenses);
    assert!(!resp.permissions.can_delete_group);
    let c = validate_token_at(&k, &resp.token, 1000).unwrap();
    let p = c.permissions.unwrap();
    assert_eq!(p.can_add_expenses, Some(true));
    assert_eq!(p.can_edit_expenses, Some(true));
    assert_eq!(p.can_manage_members, Some(false));
}

#[test]
fn merge_rejects_other_groups_and_bad_tokens() {
    let k = key();
    let auth = GroupAuth { group_id: gid(), permissions: Permissions::all() };
    let foreign = generate_token_at(&k, gid() + 1, None, 1000);
    assert_eq!(
        merge_token(&k, &auth, &MergeTokenRequest { other_token: foreign }, 1000).unwrap_err(),
        MergeError::GroupMismatch
    );
    assert_eq!(
        merge_token(
            &k,
            &auth,
            &MergeTokenRequest { other_token: String::from("nonsense") },
            1000
        )
        .unwrap_err(),
        MergeError::InvalidToken
    );
}

#[test]
fn claim_fields_decode_in_any_order() {
    let payload = "{\"exp\":9999999999,\"p\":{\"ee\":false,\"dg\":true},\"g\":\"123e4567-e89b-12d3-a456-426614174000\"}";
    let tok = sign_fixture(&key(), "{\"typ\":\"JWT\",\"alg\":\"HS256\"}", payload);
    let c = validate_token_at(&key(), &tok, 1000).unwrap();
    assert_eq!(c.group_id, gid());
    assert_eq!(c.exp, 9999999999);
    let p = c.permissions.unwrap();
    assert_eq!(p.can_edit_expenses, Some(false));
    assert_eq!(p.can_delete_group, Some(true));
    assert_eq!(p.can_manage_members, Some(true));
}

#[test]
fn duplicate_known_claim_fields_are_rejected() {
    let payload = "{\"g\":\"123e4567-e89b-12d3-a456-426614174000\",\"group_id\":\"123e4567-e89b-12d3-a456-426614174000\",\"exp\":9999999999}";
    let tok = sign_fixture(&key(), "{\"typ\":\"JWT\",\"alg\":\"HS256\"}", payload);
    assert_eq!(validate_token_at(&key(), &tok, 1000), Err(VerifyError::Malformed));
}
