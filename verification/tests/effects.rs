use o_lang::effects::{
    effect_summary_for_plan_node, parse_resource, EffectDeclaration, EffectSummary,
    EffectTrustPolicy,
};
use o_lang::ir::{BackendInterface, ExecutionMode, PlanNodeId, PlanNodeKind, SpliceRenderer};
use o_lang::resource::{ActorResourceId, GovernedIdentity, ResourceKey};

#[test]
fn resource_display_is_stable() {
    let actor = ActorResourceId::new("python", 3);
    assert_eq!(actor.to_text(), "python[3]");
    assert_eq!(
        ResourceKey::ActorState(actor).to_text(),
        "actor:python[3]"
    );
    assert_eq!(ResourceKey::HostWorld.to_text(), "HostWorld");
}

#[test]
fn parser_rejects_malformed_resources() {
    assert!(EffectDeclaration::parse(Some("reads=project:/absolute")).is_err());
    assert!(EffectDeclaration::parse(Some("reads=env:bad-name")).is_err());
    assert!(EffectDeclaration::parse(Some("reads=actor:python[*]")).is_err());
    assert!(EffectDeclaration::parse(Some("effects=trusted")).is_err());
}

#[test]
fn exact_network_resources_share_the_unknown_network_state() {
    let mut summary = EffectSummary::pure();
    summary
        .reads
        .insert(ResourceKey::Network("api.example.test".into()));

    let resources = summary.resource_union();
    assert!(resources.contains(&ResourceKey::Network("api.example.test".into())));
    assert!(resources.contains(&ResourceKey::NetworkUnknown));
}

#[test]
fn unknown_network_aliases_exact_endpoints_in_conflict_checks() {
    let mut unknown_writer = EffectSummary::pure();
    unknown_writer.writes.insert(ResourceKey::NetworkUnknown);

    let mut exact_reader = EffectSummary::pure();
    exact_reader
        .reads
        .insert(ResourceKey::Network("api.example.test".into()));
    assert!(unknown_writer.conflicts_with(&exact_reader));

    let mut other_exact_writer = EffectSummary::pure();
    other_exact_writer
        .writes
        .insert(ResourceKey::Network("mirror.example.test".into()));
    assert!(other_exact_writer.conflicts_with(&exact_reader));

    let mut unknown_reader = EffectSummary::pure();
    unknown_reader.reads.insert(ResourceKey::NetworkUnknown);
    assert!(other_exact_writer.conflicts_with(&unknown_reader));
    assert!(!unknown_reader.conflicts_with(&exact_reader));
}

#[test]
fn conflicts_run_both_ways() {
    let mut writer = EffectSummary::pure();
    writer.writes.insert(ResourceKey::ProjectPath("out".into()));
    let mut reader = EffectSummary::pure();
    reader.reads.insert(ResourceKey::ProjectPath("out".into()));
    assert!(writer.conflicts_with(&reader));
    assert!(reader.conflicts_with(&writer));
    let pure = EffectSummary::pure();
    assert!(!pure.conflicts_with(&writer));
    assert!(EffectSummary::unknown().conflicts_with(&EffectSummary::unknown()));
}

#[test]
fn pure_work_is_verified_and_unknown_work_is_not() {
    assert!(EffectSummary::pure().is_verified_pure_infallible());
    assert!(!EffectSummary::unknown().is_verified_pure_infallible());
    assert!(!EffectSummary::conservative_evaluator().is_verified_pure_infallible());
}

#[test]
fn declarations_add_what_they_name() {
    let declaration = EffectDeclaration::parse(Some("reads=project:data/in.txt,writes=env:HOME")).unwrap();
    assert!(!declaration.is_empty());
    assert!(declaration.reads.contains(&ResourceKey::ProjectPath("data/in.txt".into())));
    assert!(declaration.writes.contains(&ResourceKey::EnvVar("HOME".into())));
    assert!(EffectDeclaration::parse(None).unwrap().is_empty());
}

#[test]
fn purity_is_not_taken_on_trust() {
    let declaration = EffectDeclaration::parse(Some("effects=pure")).unwrap();
    let refused = declaration
        .apply_checked(EffectSummary::unknown(), EffectTrustPolicy::Strict)
        .unwrap_err();
    assert!(refused.contains("cannot upgrade an unverified"), "{refused}");
    assert!(declaration
        .apply_checked(EffectSummary::pure(), EffectTrustPolicy::Strict)
        .is_ok());
    let bogus = EffectDeclaration::parse(Some("effects=bogus")).unwrap_err();
    assert!(bogus.contains("invalid effect classification `bogus`"), "{bogus}");
}

fn python() -> BackendInterface {
    BackendInterface {
        canonical: "python".into(),
        pure: false,
        execution: ExecutionMode::Shim,
        renderer: SpliceRenderer(1),
    }
}

#[test]
fn blocks_on_one_actor_share_its_state() {
    let first = effect_summary_for_plan_node(
        PlanNodeId(0),
        &PlanNodeKind::Exec { env_id: 3, attr: None, backend: python() },
    )
    .unwrap();
    let second = effect_summary_for_plan_node(
        PlanNodeId(1),
        &PlanNodeKind::Exec { env_id: 3, attr: None, backend: python() },
    )
    .unwrap();
    assert!(first.conflicts_with(&second));
    assert!(first
        .resources()
        .contains(&ResourceKey::ActorState(ActorResourceId::new("python", 3))));
}

#[test]
fn faulty_declarations_name_their_operation() {
    let error = effect_summary_for_plan_node(
        PlanNodeId(4),
        &PlanNodeKind::Exec { env_id: 0, attr: Some("effects=pure".into()), backend: python() },
    )
    .unwrap_err();
    assert!(error.starts_with("plan node 4: "), "{error}");
}

#[test]
fn loads_and_stores_touch_their_binding_alone() {
    let load = effect_summary_for_plan_node(PlanNodeId(0), &PlanNodeKind::Load { name: "x".into() }).unwrap();
    let store = effect_summary_for_plan_node(PlanNodeId(1), &PlanNodeKind::Store { name: "x".into() }).unwrap();
    let other = effect_summary_for_plan_node(PlanNodeId(2), &PlanNodeKind::Store { name: "y".into() }).unwrap();
    assert!(load.conflicts_with(&store));
    assert!(load.reads.contains(&ResourceKey::ScopeBinding("x".into())));
    assert!(other.writes.contains(&ResourceKey::ScopeBinding("y".into())));
}

#[test]
fn governed_state_is_apart_from_the_host() {
    let world = || ResourceKey::WorldState(GovernedIdentity { text: "w".into() });
    assert!(world().is_governed_resource() && !world().is_host_resource());
    assert!(ResourceKey::Stdio.is_host_resource() && !ResourceKey::Stdio.is_governed_resource());
    let mut governed = EffectSummary::pure();
    governed.writes.insert(world());
    assert!(!governed.conflicts_with(&EffectSummary::unknown()));
    assert!(governed.conflicts_with(&{
        let mut other = EffectSummary::pure();
        other.reads.insert(world());
        other
    }));
    assert!(governed.accessed_resources().contains(&world()));
}

#[test]
fn only_effect_entries_are_recognized() {
    for entry in ["effects=pure", "reads=stdio", "writes=env:HOME"] {
        assert!(EffectDeclaration::recognizes_entry(entry), "{entry}");
    }
    for entry in ["lazy", "defer", "cap=name", ""] {
        assert!(!EffectDeclaration::recognizes_entry(entry), "{entry}");
    }
}

#[test]
fn resource_texts_name_their_resource() {
    for item in [
        "stdio",
        "network",
        "network:*",
        "network:api.example.test:443",
        "project:src/a.py",
        "host:/etc/hosts",
        "env:HOME",
        "scope:x_1",
        "service:db",
        "actor:python[003]",
    ] {
        let named = |text: &str| {
            let declared = EffectDeclaration::parse(Some(&format!("reads={text}"))).unwrap();
            let list = declared.reads.as_slice().iter().map(|key| key.to_text()).collect::<Vec<_>>();
            assert_eq!(list.len(), 1);
            list[0].clone()
        };
        let text = named(item);
        assert_eq!(named(&text), text, "{item}");
        let key = parse_resource(item).unwrap();
        assert_eq!(key.to_text(), text);
        assert_eq!(parse_resource(&text).unwrap(), key, "{item}");
    }
    assert_eq!(parse_resource("host:*").unwrap(), ResourceKey::HostWorld);
    assert_eq!(parse_resource("project:").unwrap_err(), "resource `project:` has an empty identity");
    assert_eq!(
        parse_resource("disk").unwrap_err(),
        "invalid resource `disk`; expected `kind:value`"
    );
}

#[test]
fn effects_can_be_copied_and_held_against_each_other() {
    let mut summary = EffectSummary::pure();
    summary.reads.insert(ResourceKey::Stdio);
    summary.actor_state = Some(ActorResourceId::new("python", 3));
    let copy = summary.clone();
    assert_eq!(copy, summary);
    summary.network = true;
    assert_ne!(copy, summary);
    let declared = EffectDeclaration::parse(Some("reads=env:HOME")).unwrap();
    assert_eq!(declared.clone(), declared);
    assert_ne!(declared, EffectDeclaration::default());
}
