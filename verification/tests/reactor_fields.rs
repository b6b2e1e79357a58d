use std::time::Duration;

use boomerang_federated::reactor_fields::{
    ActionAttr, ActionAttrPolicy, DeriveError, FieldReceiver, OptionalDuration, PortAttr, Reaction,
    ReactionField, ReactionFieldInner, ReactionReceiver, ReactorField, ReactorFieldKind, TimerAttr,
    TriggerAttr, TriggerInner, TypeShape,
};

fn path(name: &str) -> TypeShape {
    TypeShape::Path { last_segment: Some(name.to_string()) }
}

fn port_ref(mutable: bool) -> TypeShape {
    TypeShape::Reference { mutable, elem: Box::new(path("Port")) }
}

fn field(ident: &str, ty: TypeShape) -> ReactionField {
    ReactionField { ident: Some(ident.to_string()), ty, triggers: None, effects: None, uses: None, path: None }
}

#[test]
fn shared_port_references_trigger_and_are_used_unless_marked_uses() {
    assert_eq!(
        ReactionFieldInner::try_from(field("x", port_ref(false))),
        Ok(ReactionFieldInner::FieldDefined {
            elem: path("Port"),
            triggers: true,
            effects: false,
            uses: true,
            path: "x".to_string(),
        })
    );
    let mut only_used = field("x", port_ref(false));
    only_used.uses = Some(true);
    assert_eq!(
        ReactionFieldInner::try_from(only_used),
        Ok(ReactionFieldInner::FieldDefined {
            elem: path("Port"),
            triggers: false,
            effects: false,
            uses: true,
            path: "x".to_string(),
        })
    );
    let mut effect = field("x", port_ref(false));
    effect.effects = Some(true);
    assert_eq!(ReactionFieldInner::try_from(effect), Err(DeriveError::InvalidPortField));
}

#[test]
fn exclusive_port_references_are_effects_without_attributes() {
    let mut renamed = field("y", port_ref(true));
    renamed.path = Some("child.y".to_string());
    assert_eq!(
        ReactionFieldInner::try_from(renamed),
        Ok(ReactionFieldInner::FieldDefined {
            elem: path("Port"),
            triggers: false,
            effects: true,
            uses: false,
            path: "child.y".to_string(),
        })
    );
    let mut used = field("y", port_ref(true));
    used.uses = Some(true);
    assert_eq!(ReactionFieldInner::try_from(used), Err(DeriveError::InvalidPortVariant));
}

#[test]
fn actions_default_to_used_and_other_fields_are_refused() {
    let mut action = field("a", path("PhysicalActionRef"));
    action.triggers = Some(true);
    assert_eq!(
        ReactionFieldInner::try_from(action),
        Ok(ReactionFieldInner::FieldDefined {
            elem: path("PhysicalActionRef"),
            triggers: true,
            effects: false,
            uses: true,
            path: "a".to_string(),
        })
    );
    assert_eq!(ReactionFieldInner::try_from(field("t", path("Timer"))), Err(DeriveError::UnexpectedFieldType));
    assert_eq!(
        ReactionFieldInner::try_from(field(
            "r",
            TypeShape::Reference { mutable: false, elem: Box::new(path("Foo")) }
        )),
        Err(DeriveError::UnexpectedFieldType)
    );
    assert_eq!(ReactionFieldInner::try_from(field("o", TypeShape::Other)), Err(DeriveError::NoPathIdent));
    let mut nameless = field("n", port_ref(false));
    nameless.ident = None;
    assert_eq!(ReactionFieldInner::try_from(nameless), Err(DeriveError::MissingPath));
}

#[test]
fn trigger_members_are_sorted_by_kind_in_field_order() {
    let fields = vec![field("out", port_ref(true)), field("a", path("ActionRef")), field("inp", port_ref(false))];
    let inner = TriggerInner::new(&"React".to_string(), &fields).unwrap();
    assert_eq!(inner.reaction_ident, "React");
    assert_eq!(inner.initializer_idents, vec!["out".to_string(), "a".to_string(), "inp".to_string()]);
    assert_eq!(inner.action_idents, vec!["a".to_string()]);
    assert_eq!(inner.port_idents, vec!["inp".to_string()]);
    assert_eq!(inner.port_mut_idents, vec!["out".to_string()]);
    assert_eq!(inner.port_mut_types, vec![path("Port")]);
    let refused = vec![field("x", port_ref(false)), field("f", TypeShape::Reference { mutable: false, elem: Box::new(path("Foo")) })];
    assert_eq!(
        TriggerInner::new(&"React".to_string(), &refused),
        Err(DeriveError::UnexpectedRefType { ident: "Foo".to_string() })
    );
    let member = vec![field("t", path("Timer"))];
    assert_eq!(
        TriggerInner::new(&"React".to_string(), &member),
        Err(DeriveError::UnexpectedReactionMember { ident: "Timer".to_string() })
    );
}

#[test]
fn trigger_attributes_mark_fields_and_add_trigger_only_members() {
    let mut a = field("a", path("ActionRef"));
    a.triggers = None;
    let receiver = ReactionReceiver {
        ident: "React".to_string(),
        fields: vec![field("x", port_ref(false)), a],
        triggers: vec![
            TriggerAttr::Action("a".to_string()),
            TriggerAttr::Port("y".to_string()),
            TriggerAttr::Startup,
        ],
    };
    let reaction = Reaction::try_from(receiver).unwrap();
    assert_eq!(reaction.ident, "React");
    assert!(reaction.trigger_startup);
    assert!(!reaction.trigger_shutdown);
    assert_eq!(
        reaction.fields,
        vec![
            ReactionFieldInner::FieldDefined {
                elem: path("Port"),
                triggers: true,
                effects: false,
                uses: true,
                path: "x".to_string(),
            },
            ReactionFieldInner::FieldDefined {
                elem: path("ActionRef"),
                triggers: true,
                effects: false,
                uses: true,
                path: "a".to_string(),
            },
            ReactionFieldInner::TriggerPort { port: "y".to_string() },
        ]
    );
}

#[test]
fn a_refused_field_refuses_the_reaction() {
    let mut bad = field("x", port_ref(false));
    bad.effects = Some(true);
    let receiver = ReactionReceiver { ident: "React".to_string(), fields: vec![bad], triggers: Vec::new() };
    assert_eq!(Reaction::try_from(receiver), Err(DeriveError::InvalidPortField));
}

fn receiver(ident: &str, ty: TypeShape) -> FieldReceiver {
    FieldReceiver { ident: Some(ident.to_string()), ty, rename: None, timer: None, port: None, action: None, child: None }
}

#[test]
fn reactor_fields_build_what_their_one_attribute_says() {
    let period = Some(Duration::from_millis(10));
    let mut timer = receiver("t", path("TimerActionKey"));
    timer.timer = Some(TimerAttr { offset: None, period });
    timer.rename = Some("tick".to_string());
    let built = ReactorField::try_from(timer).unwrap();
    assert_eq!(built.ident, "t");
    assert_eq!(built.name, "tick");
    assert_eq!(built.kind, ReactorFieldKind::Timer { period, offset: None });

    let mut input = receiver("i", path("TypedPortKey"));
    input.port = Some(PortAttr::Input);
    assert_eq!(ReactorField::try_from(input).unwrap().kind, ReactorFieldKind::Input);

    let mut action = receiver("a", path("TypedActionKey"));
    action.action = Some(ActionAttr { physical: false, min_delay: None, policy: None });
    assert_eq!(
        ReactorField::try_from(action).unwrap().kind,
        ReactorFieldKind::Action { min_delay: None, policy: ActionAttrPolicy::Defer }
    );

    let mut child = receiver("c", path("Child"));
    child.child = Some("Default::default()".to_string());
    assert_eq!(
        ReactorField::try_from(child).unwrap().kind,
        ReactorFieldKind::Child { state: "Default::default()".to_string() }
    );
}

#[test]
fn reactor_fields_without_attributes_must_be_reaction_keys() {
    assert_eq!(
        ReactorField::try_from(receiver("r", path("TypedReactionKey"))).unwrap().kind,
        ReactorFieldKind::Reaction
    );
    assert_eq!(
        ReactorField::try_from(receiver("r", path("Other"))),
        Err(DeriveError::NotAReactionKey)
    );
    let mut both = receiver("b", path("TypedPortKey"));
    both.port = Some(PortAttr::Output);
    both.child = Some("x".to_string());
    assert_eq!(ReactorField::try_from(both), Err(DeriveError::ConflictingAttributes));
}

#[test]
fn attribute_values_compare_as_written() {
    assert_eq!(ActionAttrPolicy::default(), ActionAttrPolicy::Defer);
    assert_eq!(OptionalDuration(None), OptionalDuration(None));
    assert_ne!(PortAttr::Input, PortAttr::Output);
}
