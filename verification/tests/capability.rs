use o_lang::capability::{
    bearer_identity, fresh_bearer_identity, BackendAuthority, BackendAuthorityBroker,
    CapabilityError, CapabilityKind, OValue,
};

#[test]
fn bearer_identities_use_256_bits_of_os_entropy() {
    let first = fresh_bearer_identity("test-live").unwrap();
    let second = fresh_bearer_identity("test-live").unwrap();
    assert!(first.starts_with("test-live:"));
    assert_eq!(first.len(), "test-live:".len() + 64);
    assert_ne!(first, second);
}

#[test]
fn backend_broker_rejects_forged_wrong_language_and_missing_rights() {
    let mut broker = BackendAuthorityBroker::default();
    let capability = broker
        .issue("python", &[BackendAuthority::FileRead])
        .unwrap();
    assert!(broker
        .authorize(&capability, "python", &[BackendAuthority::FileRead])
        .is_ok());
    assert!(broker
        .authorize(&capability, "python", &[BackendAuthority::Network])
        .is_err());
    assert!(broker.authorize(&capability, "javascript", &[]).is_err());

    let forged = OValue::Capability {
        kind: CapabilityKind::BackendExecution,
        identity: "o-backend-live:forged".into(),
        metadata: None,
    };
    assert!(broker.authorize(&forged, "python", &[]).is_err());
}

#[test]
fn identities_spell_their_bytes() {
    assert_eq!(bearer_identity("live", &[0u8, 0xab, 0x0f]), "live:00ab0f");
}

#[test]
fn revoked_capabilities_are_no_longer_honoured() {
    let mut broker = BackendAuthorityBroker::default();
    let capability = broker.issue("bash", &[]).unwrap();
    let kept = broker.issue("bash", &[]).unwrap();
    assert!(broker.authorize(&capability, "bash", &[]).is_ok());
    broker.revoke(&capability).unwrap();
    assert!(matches!(
        broker.authorize(&capability, "bash", &[]),
        Err(CapabilityError::NotBound)
    ));
    assert!(broker.authorize(&kept, "bash", &[]).is_ok());
}

#[test]
fn a_capability_needs_a_language() {
    let mut broker = BackendAuthorityBroker::default();
    assert!(matches!(broker.issue("", &[]), Err(CapabilityError::NoLanguage)));
}

#[test]
fn refusals_say_why() {
    let mut broker = BackendAuthorityBroker::default();
    let capability = broker.issue("python", &[BackendAuthority::FileRead]).unwrap();
    let language = broker.authorize(&capability, "javascript", &[]).unwrap_err();
    assert_eq!(
        language.to_text(),
        "backend execution capability is scoped to python, not javascript"
    );
    let right = broker
        .authorize(&capability, "python", &[BackendAuthority::Network])
        .unwrap_err();
    assert!(right.to_text().starts_with("backend execution capability for python lacks `"));
    let other = broker
        .authorize(&OValue::Other { kind_name: "OText".into() }, "python", &[])
        .unwrap_err();
    assert_eq!(other.to_text(), "expected OCapability, got OText");
    let kind = broker
        .authorize(
            &OValue::Capability {
                kind: CapabilityKind::Other("clock".into()),
                identity: "x".into(),
                metadata: None,
            },
            "python",
            &[],
        )
        .unwrap_err();
    assert_eq!(kind.to_text(), "expected a backend_execution capability, got clock");
}

#[test]
fn random_bytes_decide_the_identity() {
    let mut broker = BackendAuthorityBroker::default();
    let rights = [BackendAuthority::Network, BackendAuthority::FileRead];
    match broker.issue_with(&[7u8; 32], "python", &rights) {
        Some(OValue::Capability { identity, metadata, .. }) => {
            assert_eq!(identity, format!("o-backend-live:{}", "07".repeat(32)));
            let metadata = metadata.unwrap();
            assert!(metadata.live);
            assert_eq!(metadata.permissions, ["fs_read", "network"]);
            assert!(broker.authorize_identity(&identity, "python", &rights).is_ok());
        }
        other => panic!("{other:?}"),
    }
    assert!(broker.issue_with(&[7u8; 32], "bash", &[]).is_none());
    assert!(broker.issue_with(&[8u8; 32], "bash", &[]).is_some());
}
