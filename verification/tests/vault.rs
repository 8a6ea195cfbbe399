use vault_core::{
    totp_code, Capability, CipherOwner, CollectionGrant, Config, FactorKind, FactorProof,
    KeyManager, LoginResponse, Role, SecondFactor, SecondFactorOutcome, Subject, Vault, VaultError,
};

fn engine() -> Vault {
    let config = Config::new(3600, 30, 3);
    let keys = KeyManager::new(b"test-signing-key".to_vec());
    Vault::new(config, keys)
}

fn register(v: &mut Vault, ident: &str, pw: &[u8], factors: Vec<SecondFactor>) -> u64 {
    v.register_account(ident.to_string(), pw.to_vec(), factors)
        .expect("identifier free")
}

fn login_plain(v: &mut Vault, ident: &str, pw: &[u8], now: u64) -> vault_core::TokenPair {
    match v.login(&ident.to_string(), pw, "dev".to_string(), now) {
        LoginResponse::LoggedIn { tokens } => tokens,
        _ => panic!("expected completed login"),
    }
}

#[test]
fn login_without_second_factor_issues_tokens() {
    let mut v = engine();
    let id = register(&mut v, "a@example.com", b"hash-a", vec![]);
    let tokens = login_plain(&mut v, "a@example.com", b"hash-a", 100);
    assert_eq!(tokens.revision, 0);
    assert_eq!(tokens.refresh.generation, 0);
    assert_eq!(v.validate_token(&tokens.access, 100), Ok(id));
    assert_eq!(v.validate_token(&tokens.access, 100 + 3601), Err(VaultError::TokenExpired));
}

#[test]
fn wrong_password_and_unknown_account_both_fail() {
    let mut v = engine();
    register(&mut v, "a@example.com", b"hash-a", vec![]);
    assert!(matches!(
        v.login(&"a@example.com".to_string(), b"wrong", "dev".to_string(), 1),
        LoginResponse::Failure
    ));
    assert!(matches!(
        v.login(&"nobody@example.com".to_string(), b"hash-a", "dev".to_string(), 1),
        LoginResponse::Failure
    ));
}

#[test]
fn tampered_token_signature_is_rejected() {
    let mut v = engine();
    register(&mut v, "a@example.com", b"hash-a", vec![]);
    let mut tokens = login_plain(&mut v, "a@example.com", b"hash-a", 100);
    tokens.access.sig[0] ^= 0xff;
    assert_eq!(v.validate_token(&tokens.access, 100), Err(VaultError::InvalidCredentials));
}

// A previously-rotated-away refresh token fails, revokes the session, and
// the session stays unusable afterwards.
#[test]
fn refresh_token_reuse_revokes_session() {
    let mut v = engine();
    register(&mut v, "a@example.com", b"hash-a", vec![]);
    let tokens = login_plain(&mut v, "a@example.com", b"hash-a", 100);
    let old_refresh = tokens.refresh;
    let pair2 = v.refresh_session(&old_refresh, 200).expect("first refresh rotates");
    assert_eq!(pair2.refresh.generation, 1);
    // the stale copy is detected as reuse
    assert_eq!(v.refresh_session(&old_refresh, 300).unwrap_err(), VaultError::RefreshTokenReused);
    // even the freshly rotated token is dead: the session was revoked
    assert_eq!(v.refresh_session(&pair2.refresh, 400).unwrap_err(), VaultError::NotFound);
}

// Changing the password invalidates outstanding access tokens at once,
// while the refresh token of a live session still obtains a fresh valid
// pair reflecting the new stamp.
#[test]
fn password_change_invalidates_access_but_not_refresh() {
    let mut v = engine();
    let id = register(&mut v, "a@example.com", b"hash-a", vec![]);
    let tokens = login_plain(&mut v, "a@example.com", b"hash-a", 100);
    assert_eq!(v.validate_token(&tokens.access, 150), Ok(id));
    assert!(v.change_password(id, b"hash-b".to_vec()));
    assert_eq!(
        v.validate_token(&tokens.access, 150),
        Err(VaultError::TokenSecurityStampMismatch)
    );
    let fresh = v.refresh_session(&tokens.refresh, 200).expect("refresh survives");
    assert_eq!(v.validate_token(&fresh.access, 200), Ok(id));
}

// The login scenario with a configured time-based factor: password alone
// yields the provider list, the correct code completes login, a mutation
// advances the stamp by one and a connected channel sees exactly one event.
#[test]
fn totp_login_mutation_and_notification_scenario() {
    let mut v = engine();
    let secret = b"totp-secret".to_vec();
    let id = register(
        &mut v,
        "a@example.com",
        b"hash-a",
        vec![SecondFactor::Totp { secret: secret.clone() }],
    );
    let now = 90_000;
    let attempt_id = match v.login(&"a@example.com".to_string(), b"hash-a", "dev".to_string(), now)
    {
        LoginResponse::SecondFactorRequired { attempt_id, providers } => {
            assert_eq!(providers, vec![FactorKind::Totp]);
            attempt_id
        },
        _ => panic!("expected a second-factor challenge"),
    };
    let code = totp_code(&secret, now / 30);
    let tokens = match v.submit_second_factor(attempt_id, &FactorProof::Totp { code }, now) {
        SecondFactorOutcome::Completed { tokens } => tokens,
        other => panic!("expected completion, got {}", label(&other)),
    };
    assert_eq!(tokens.revision, 0);
    assert_eq!(v.validate_token(&tokens.access, now), Ok(id));
    let channel = v
        .register_channel(id, Subject::Account { account_id: id }, tokens.refresh.session_id)
        .expect("own channel allowed");
    let applied = v
        .create_cipher(
            id,
            None,
            CipherOwner::Account { account_id: id },
            b"blob".to_vec(),
            vec![],
            now,
        )
        .expect("own cipher");
    assert_eq!(applied.revision, 1);
    assert_eq!(applied.deliveries.len(), 1);
    assert_eq!(applied.deliveries[0].channel_id, channel);
    assert_eq!(applied.deliveries[0].event.entity_id, applied.entity_id);
}

fn label(o: &SecondFactorOutcome) -> &'static str {
    match o {
        SecondFactorOutcome::Completed { .. } => "completed",
        SecondFactorOutcome::Retry { .. } => "retry",
        SecondFactorOutcome::Rejected => "rejected",
        SecondFactorOutcome::Denied { .. } => "denied",
    }
}

#[test]
fn totp_accepts_adjacent_step_only() {
    let secret = b"s".to_vec();
    let now: u64 = 3000;
    let step = now / 30;
    assert!(vault_core::check_totp(&secret, step, totp_code(&secret, step - 1)));
    assert!(vault_core::check_totp(&secret, step, totp_code(&secret, step + 1)));
    assert!(!vault_core::check_totp(&secret, step, totp_code(&secret, step + 2)));
}

#[test]
fn failed_second_factor_counts_and_rejects() {
    let mut v = engine();
    register(
        &mut v,
        "a@example.com",
        b"hash-a",
        vec![SecondFactor::Email { code: b"123456".to_vec(), expires_at: 10_000 }],
    );
    let attempt_id = match v.login(&"a@example.com".to_string(), b"hash-a", "dev".to_string(), 50)
    {
        LoginResponse::SecondFactorRequired { attempt_id, .. } => attempt_id,
        _ => panic!("expected a second-factor challenge"),
    };
    let wrong = FactorProof::Email { code: b"999999".to_vec() };
    assert!(matches!(
        v.submit_second_factor(attempt_id, &wrong, 60),
        SecondFactorOutcome::Retry { failures: 1 }
    ));
    assert!(matches!(
        v.submit_second_factor(attempt_id, &wrong, 61),
        SecondFactorOutcome::Retry { failures: 2 }
    ));
    // the third failure reaches the configured limit and discards the attempt
    assert!(matches!(
        v.submit_second_factor(attempt_id, &wrong, 62),
        SecondFactorOutcome::Rejected
    ));
    let right = FactorProof::Email { code: b"123456".to_vec() };
    assert!(matches!(
        v.submit_second_factor(attempt_id, &right, 63),
        SecondFactorOutcome::Denied { error: VaultError::NotFound }
    ));
}

// A hardware-assertion challenge nonce is single use: consumed by its
// first verification and refused on replay.
#[test]
fn hardware_challenge_is_single_use() {
    let mut v = engine();
    let key = b"device-key".to_vec();
    let id = register(
        &mut v,
        "a@example.com",
        b"hash-a",
        vec![SecondFactor::Hardware { public_key: key.clone() }],
    );
    let nonce = v.issue_challenge(id).expect("account exists");
    // the assertion the device computes: the keyed digest of the nonce
    let mut msg = key.clone();
    msg.extend_from_slice(&nonce.to_le_bytes());
    let assertion = openssl::sha::sha256(&msg).to_vec();
    let attempt_id = match v.login(&"a@example.com".to_string(), b"hash-a", "dev".to_string(), 10)
    {
        LoginResponse::SecondFactorRequired { attempt_id, .. } => attempt_id,
        _ => panic!("expected a second-factor challenge"),
    };
    let proof = FactorProof::Hardware { nonce, assertion };
    assert!(matches!(
        v.submit_second_factor(attempt_id, &proof, 11),
        SecondFactorOutcome::Completed { .. }
    ));
    // a second login replaying the same consumed nonce is refused
    let attempt2 = match v.login(&"a@example.com".to_string(), b"hash-a", "dev".to_string(), 20) {
        LoginResponse::SecondFactorRequired { attempt_id, .. } => attempt_id,
        _ => panic!("expected a second-factor challenge"),
    };
    assert!(matches!(
        v.submit_second_factor(attempt2, &proof, 21),
        SecondFactorOutcome::Denied { error: VaultError::ChallengeExpiredOrReplayed }
    ));
}

// Every role pairing of the capability table: organization management is
// held by Owner and Admin only, whatever the grants.
#[test]
fn capability_table_reserves_management_to_owner_and_admin() {
    let grants = vec![CollectionGrant { collection_id: 7, read_only: false }];
    for (role, expect) in [
        (Role::Owner, true),
        (Role::Admin, true),
        (Role::Manager, false),
        (Role::User, false),
    ] {
        assert_eq!(allows_manage(role, &grants), expect);
        assert_eq!(allows_manage(role, &vec![]), expect);
    }
}

fn allows_manage(role: Role, grants: &Vec<CollectionGrant>) -> bool {
    vault_core::allows(role, grants, Capability::ManageOrg)
}

#[test]
fn read_only_grant_blocks_user_writes() {
    let grants = vec![CollectionGrant { collection_id: 7, read_only: true }];
    assert!(!vault_core::allows(Role::User, &grants, Capability::WriteCollection { collection_id: 7 }));
    assert!(vault_core::allows(Role::User, &grants, Capability::ReadCollection { collection_id: 7 }));
}

#[test]
fn user_role_cannot_change_membership_roles() {
    let mut v = engine();
    let owner = register(&mut v, "o@example.com", b"h", vec![]);
    let user = register(&mut v, "u@example.com", b"h", vec![]);
    let org = v.create_org(owner, "acme".to_string()).unwrap();
    v.add_membership(owner, None, org, user, Role::User, vec![]).unwrap();
    assert_eq!(
        v.set_membership_role(user, None, org, owner, Role::User).unwrap_err(),
        VaultError::Forbidden
    );
    assert_eq!(v.delete_cipher(user, None, 999).unwrap_err(), VaultError::NotFound);
}

// Removing the sole Owner is rejected; removing one of two Owners works.
#[test]
fn sole_owner_removal_is_rejected() {
    let mut v = engine();
    let a = register(&mut v, "a@example.com", b"h", vec![]);
    let b = register(&mut v, "b@example.com", b"h", vec![]);
    let org = v.create_org(a, "acme".to_string()).unwrap();
    assert_eq!(
        v.remove_membership(a, None, org, a).unwrap_err(),
        VaultError::OwnerInvariantViolation
    );
    assert_eq!(
        v.set_membership_role(a, None, org, a, Role::Admin).unwrap_err(),
        VaultError::OwnerInvariantViolation
    );
    v.add_membership(a, None, org, b, Role::Owner, vec![]).unwrap();
    v.remove_membership(a, None, org, a).expect("one of two owners may leave");
    assert_eq!(
        v.remove_membership(b, None, org, b).unwrap_err(),
        VaultError::OwnerInvariantViolation
    );
}

// Revision stamps increase strictly across a run of mutations, and a full
// sync afterwards reflects exactly their result.
#[test]
fn revisions_increase_and_full_sync_reflects_mutations() {
    let mut v = engine();
    let id = register(&mut v, "a@example.com", b"h", vec![]);
    let own = CipherOwner::Account { account_id: id };
    let c1 = v.create_cipher(id, None, own, b"one".to_vec(), vec![], 1).unwrap();
    let c2 = v.create_cipher(id, None, own, b"two".to_vec(), vec![], 2).unwrap();
    let c3 = v.update_cipher(id, None, c2.entity_id, b"two-b".to_vec(), 3).unwrap();
    let c4 = v.delete_cipher(id, None, c1.entity_id).unwrap();
    assert_eq!(
        vec![c1.revision, c2.revision, c3.revision, c4.revision],
        vec![1, 2, 3, 4]
    );
    let state = v.get_full_state(id).unwrap();
    assert_eq!(state.revision, 4);
    assert_eq!(state.cipher_ids, vec![c2.entity_id]);
    let item = v.get_cipher(id, c2.entity_id).unwrap();
    assert_eq!(item.data, b"two-b".to_vec());
    // another account sees none of it
    let other = register(&mut v, "b@example.com", b"h", vec![]);
    assert_eq!(v.get_cipher(other, c2.entity_id).unwrap_err(), VaultError::NotFound);
}

#[test]
fn originating_device_channel_is_excluded() {
    let mut v = engine();
    let id = register(&mut v, "a@example.com", b"h", vec![]);
    let ch1 = v.register_channel(id, Subject::Account { account_id: id }, 71).unwrap();
    let _ch2 = v.register_channel(id, Subject::Account { account_id: id }, 72).unwrap();
    let applied = v
        .create_cipher(
            id,
            Some(72),
            CipherOwner::Account { account_id: id },
            b"x".to_vec(),
            vec![],
            5,
        )
        .unwrap();
    assert_eq!(applied.deliveries.len(), 1);
    assert_eq!(applied.deliveries[0].channel_id, ch1);
}

#[test]
fn foreign_channel_subject_is_hidden() {
    let mut v = engine();
    let a = register(&mut v, "a@example.com", b"h", vec![]);
    let b = register(&mut v, "b@example.com", b"h", vec![]);
    assert_eq!(
        v.register_channel(a, Subject::Account { account_id: b }, 1).unwrap_err(),
        VaultError::NotFound
    );
    let org = v.create_org(b, "acme".to_string()).unwrap();
    assert_eq!(
        v.register_channel(a, Subject::Org { org_id: org }, 1).unwrap_err(),
        VaultError::NotFound
    );
}

// One mutation entry point: a refused change leaves every stamp untouched,
// an accepted one advances the stamp in the same step as the data change.
#[test]
fn apply_mutation_is_all_or_nothing() {
    let mut v = engine();
    let id = register(&mut v, "a@example.com", b"h", vec![]);
    let refused = v.apply_mutation(
        id,
        None,
        vault_core::Mutation::CipherDelete { cipher_id: 404 },
        1,
    );
    assert_eq!(refused.unwrap_err(), VaultError::NotFound);
    assert_eq!(v.get_full_state(id).unwrap().revision, 0);
    let accepted = v
        .apply_mutation(
            id,
            None,
            vault_core::Mutation::CipherCreate {
                owner: CipherOwner::Account { account_id: id },
                data: b"x".to_vec(),
                collection_ids: vec![],
            },
            2,
        )
        .unwrap();
    assert_eq!(accepted.revision, 1);
    let state = v.get_full_state(id).unwrap();
    assert_eq!(state.revision, 1);
    assert_eq!(state.cipher_ids, vec![accepted.entity_id]);
}

#[test]
fn collection_creation_is_management_only() {
    let mut v = engine();
    let owner = register(&mut v, "o@example.com", b"h", vec![]);
    let manager = register(&mut v, "m@example.com", b"h", vec![]);
    let org = v.create_org(owner, "acme".to_string()).unwrap();
    v.add_membership(owner, None, org, manager, Role::Manager, vec![]).unwrap();
    assert_eq!(
        v.create_collection(manager, None, org, "dev".to_string()).unwrap_err(),
        VaultError::Forbidden
    );
    let made = v.create_collection(owner, None, org, "dev".to_string()).unwrap();
    // a manager granted the collection may file items into it
    let grant = vault_core::CollectionGrant { collection_id: made.entity_id, read_only: false };
    v.set_membership_role(owner, None, org, manager, Role::Manager).unwrap();
    v.remove_membership(owner, None, org, manager).unwrap();
    v.add_membership(owner, None, org, manager, Role::Manager, vec![grant]).unwrap();
    let item = v
        .create_cipher(
            manager,
            None,
            CipherOwner::Org { org_id: org },
            b"x".to_vec(),
            vec![made.entity_id],
            9,
        )
        .unwrap();
    // the organization's channel is the one notified
    assert_eq!(item.event.subject, Subject::Org { org_id: org });
}

#[test]
fn suspended_membership_authorizes_nothing_until_reinstated() {
    let mut v = engine();
    let owner = register(&mut v, "o@example.com", b"h", vec![]);
    let admin = register(&mut v, "a2@example.com", b"h", vec![]);
    let org = v.create_org(owner, "acme".to_string()).unwrap();
    v.add_membership(owner, None, org, admin, Role::Admin, vec![]).unwrap();
    v.set_membership_suspended(owner, None, org, admin, true).unwrap();
    assert_eq!(
        v.create_collection(admin, None, org, "dev".to_string()).unwrap_err(),
        VaultError::Forbidden
    );
    assert_eq!(
        v.register_channel(admin, Subject::Org { org_id: org }, 1).unwrap_err(),
        VaultError::NotFound
    );
    v.set_membership_suspended(owner, None, org, admin, false).unwrap();
    v.create_collection(admin, None, org, "dev".to_string()).unwrap();
}

#[test]
fn expired_email_code_counts_as_a_failed_factor() {
    let mut v = engine();
    register(
        &mut v,
        "a@example.com",
        b"hash-a",
        vec![SecondFactor::Email { code: b"123456".to_vec(), expires_at: 100 }],
    );
    let attempt_id = match v.login(&"a@example.com".to_string(), b"hash-a", "dev".to_string(), 50)
    {
        LoginResponse::SecondFactorRequired { attempt_id, .. } => attempt_id,
        _ => panic!("expected a second-factor challenge"),
    };
    // the stored code is correct, but its TTL has passed
    let late = FactorProof::Email { code: b"123456".to_vec() };
    assert!(matches!(
        v.submit_second_factor(attempt_id, &late, 200),
        SecondFactorOutcome::Retry { failures: 1 }
    ));
}

#[test]
fn every_failure_has_a_wire_label() {
    let all = [
        VaultError::InvalidCredentials,
        VaultError::SecondFactorInvalid,
        VaultError::ChallengeExpiredOrReplayed,
        VaultError::TokenExpired,
        VaultError::TokenSecurityStampMismatch,
        VaultError::RefreshTokenReused,
        VaultError::Forbidden,
        VaultError::NotFound,
        VaultError::OwnerInvariantViolation,
    ];
    let mut seen: Vec<&'static str> = Vec::new();
    for e in all {
        let l = e.label();
        assert!(!l.is_empty());
        assert!(!seen.contains(&l));
        seen.push(l);
    }
}

// Deleting an organization is management-only and drops its memberships,
// collections and items in the same step.
#[test]
fn org_deletion_cascades_and_is_management_only() {
    let mut v = engine();
    let owner = register(&mut v, "o@example.com", b"h", vec![]);
    let user = register(&mut v, "u@example.com", b"h", vec![]);
    let org = v.create_org(owner, "acme".to_string()).unwrap();
    v.add_membership(owner, None, org, user, Role::User, vec![]).unwrap();
    let col = v.create_collection(owner, None, org, "dev".to_string()).unwrap();
    let item = v
        .create_cipher(
            owner,
            None,
            CipherOwner::Org { org_id: org },
            b"x".to_vec(),
            vec![col.entity_id],
            1,
        )
        .unwrap();
    assert_eq!(v.delete_org(user, None, org).unwrap_err(), VaultError::Forbidden);
    assert_eq!(v.delete_org(owner, None, 999).unwrap_err(), VaultError::NotFound);
    let before = v.get_full_state(owner).unwrap().revision;
    let gone = v
        .apply_mutation(owner, None, vault_core::Mutation::OrgDelete { org_id: org }, 2)
        .unwrap();
    assert_eq!(gone.revision, before + 1);
    let state = v.get_full_state(owner).unwrap();
    assert!(state.org_revisions.is_empty());
    assert!(state.collection_ids.is_empty());
    assert!(state.cipher_ids.is_empty());
    assert_eq!(v.get_cipher(owner, item.entity_id).unwrap_err(), VaultError::NotFound);
    assert_eq!(
        v.register_channel(user, Subject::Org { org_id: org }, 1).unwrap_err(),
        VaultError::NotFound
    );
}

#[test]
fn full_sync_lists_visible_collections() {
    let mut v = engine();
    let owner = register(&mut v, "o@example.com", b"h", vec![]);
    let user = register(&mut v, "u@example.com", b"h", vec![]);
    let org = v.create_org(owner, "acme".to_string()).unwrap();
    let dev = v.create_collection(owner, None, org, "dev".to_string()).unwrap();
    let ops = v.create_collection(owner, None, org, "ops".to_string()).unwrap();
    let grant = vault_core::CollectionGrant { collection_id: dev.entity_id, read_only: true };
    v.add_membership(owner, None, org, user, Role::User, vec![grant]).unwrap();
    let owner_state = v.get_full_state(owner).unwrap();
    assert_eq!(owner_state.collection_ids, vec![dev.entity_id, ops.entity_id]);
    let user_state = v.get_full_state(user).unwrap();
    assert_eq!(user_state.collection_ids, vec![dev.entity_id]);
}
