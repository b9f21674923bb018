use o_lang::environment::{
    EnvironmentIdError, EnvironmentRefV2, EPHEMERAL_ENV_ID, LINKER_ISOLATED_ENV_ID,
    MAX_PERSISTENT_ENV_ID,
};

#[test]
fn encoded_compatibility_is_total_and_round_trips() {
    for environment in [
        EnvironmentRefV2::Ephemeral,
        EnvironmentRefV2::LinkerIsolated,
        EnvironmentRefV2::Persistent(0),
        EnvironmentRefV2::Persistent(MAX_PERSISTENT_ENV_ID),
    ] {
        assert_eq!(
            EnvironmentRefV2::from_encoded(environment.encoded()),
            environment
        );
    }
}

#[test]
fn fresh_environments_share_physical_ephemeral_semantics_only() {
    assert_ne!(EPHEMERAL_ENV_ID, LINKER_ISOLATED_ENV_ID);
    assert_eq!(
        EnvironmentRefV2::LinkerIsolated.runtime_env_id(),
        EPHEMERAL_ENV_ID
    );
    assert!(EnvironmentRefV2::LinkerIsolated.is_fresh());
    assert!(!EnvironmentRefV2::LinkerIsolated.is_persistent());
}

#[test]
fn numeric_source_cannot_claim_reserved_sentinels() {
    assert_eq!(
        EnvironmentRefV2::persistent(LINKER_ISOLATED_ENV_ID),
        Err(EnvironmentIdError::Reserved(LINKER_ISOLATED_ENV_ID))
    );
    assert_eq!(
        EnvironmentRefV2::persistent(EPHEMERAL_ENV_ID),
        Err(EnvironmentIdError::Reserved(EPHEMERAL_ENV_ID))
    );
}

#[test]
fn every_number_decodes_and_encodes_back() {
    for id in [0u32, 1, 7, MAX_PERSISTENT_ENV_ID, LINKER_ISOLATED_ENV_ID, EPHEMERAL_ENV_ID] {
        assert_eq!(EnvironmentRefV2::from_encoded(id).encoded(), id);
    }
}

#[test]
fn source_markers_name_the_environment() {
    assert_eq!(EnvironmentRefV2::Ephemeral.source_marker(), None);
    assert_eq!(
        EnvironmentRefV2::LinkerIsolated.source_marker(),
        Some("[*]".to_string())
    );
    assert_eq!(
        EnvironmentRefV2::Persistent(12).source_marker(),
        Some("[12]".to_string())
    );
}

#[test]
fn equal_markers_mean_equal_environments() {
    let list = [
        EnvironmentRefV2::Ephemeral,
        EnvironmentRefV2::LinkerIsolated,
        EnvironmentRefV2::Persistent(1),
        EnvironmentRefV2::Persistent(11),
        EnvironmentRefV2::Persistent(MAX_PERSISTENT_ENV_ID),
    ];
    for a in list {
        for b in list {
            assert_eq!(a.source_marker() == b.source_marker(), a == b);
        }
    }
}
