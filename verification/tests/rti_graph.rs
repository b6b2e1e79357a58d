use boomerang_federated::rti::graph::{RtiEndpointParts, RtiFederateParts, RtiGraph, RtiGraphParts};
use boomerang_federated::{EndpointId, FederateId, WireDelay};

fn fed(id: &str) -> FederateId {
    FederateId::new(id)
}

fn endpoint(id: &str) -> EndpointId {
    EndpointId::new(id)
}

fn federate_parts(
    id: &str,
    transitive_incoming: Vec<(&str, u64)>,
    affected_downstream: Vec<&str>,
) -> RtiFederateParts {
    RtiFederateParts {
        id: fed(id),
        transitive_incoming: transitive_incoming
            .into_iter()
            .map(|(source, delay)| (fed(source), WireDelay::from_nanos(delay)))
            .collect(),
        affected_downstream: affected_downstream.into_iter().map(fed).collect(),
    }
}

fn endpoint_parts(source: &str, target: &str, id: &str, delay: u64) -> RtiEndpointParts {
    RtiEndpointParts {
        id: endpoint(id),
        source: fed(source),
        target: fed(target),
        delay: WireDelay::from_nanos(delay),
    }
}

fn graph() -> RtiGraph {
    RtiGraph::from_lowered(RtiGraphParts {
        federates: vec![
            federate_parts("c", vec![("b", 2), ("a", 1)], vec![]),
            federate_parts("a", vec![], vec!["c", "b"]),
            federate_parts("b", vec![("a", 0)], vec!["c"]),
        ],
        endpoints: vec![
            endpoint_parts("b", "c", "b-c", 2),
            endpoint_parts("a", "c", "a-c", 1),
            endpoint_parts("a", "b", "a-b", 0),
        ],
    })
}

#[test]
fn interns_stable_federate_ids_in_lexical_dense_order() {
    let graph = graph();
    let a = graph.federate_key(&fed("a")).unwrap();
    let b = graph.federate_key(&fed("b")).unwrap();
    let c = graph.federate_key(&fed("c")).unwrap();

    assert_eq!(vec![a, b, c], vec![0, 1, 2]);
    assert_eq!(graph.federate_count(), 3);
    assert_eq!(graph.federate_id(a), &fed("a"));
    assert_eq!(graph.federate_id(b), &fed("b"));
    assert_eq!(graph.federate_id(c), &fed("c"));
    assert_eq!(graph.federate_ids(), vec![fed("a"), fed("b"), fed("c")]);
}

#[test]
fn mechanically_translates_and_sorts_final_federate_sets() {
    let graph = graph();
    let a = graph.federate_key(&fed("a")).unwrap();
    let b = graph.federate_key(&fed("b")).unwrap();
    let c = graph.federate_key(&fed("c")).unwrap();

    assert_eq!(graph.affected_downstream(a), &vec![b, c]);
    assert_eq!(
        graph
            .transitive_incoming(c)
            .iter()
            .map(|path| (path.source, path.delay.as_nanos()))
            .collect::<Vec<_>>(),
        vec![(a, 1), (b, 2)]
    );
}

#[test]
fn derives_sorted_direct_incoming_dependencies_from_endpoints() {
    let graph = graph();
    let a = graph.federate_key(&fed("a")).unwrap();
    let b = graph.federate_key(&fed("b")).unwrap();
    let c = graph.federate_key(&fed("c")).unwrap();
    let a_c = graph.endpoint_key(&endpoint("a-c")).unwrap();
    let b_c = graph.endpoint_key(&endpoint("b-c")).unwrap();

    assert_eq!(
        graph
            .incoming(c)
            .iter()
            .map(|dependency| (
                dependency.source,
                dependency.endpoint,
                dependency.delay.as_nanos(),
            ))
            .collect::<Vec<_>>(),
        vec![(a, a_c, 1), (b, b_c, 2)]
    );
}

#[test]
fn interns_endpoints_lexically_and_binds_exact_routes() {
    let graph = graph();
    let endpoint_ids = ["a-b", "a-c", "b-c"];

    assert_eq!(
        graph
            .endpoint_ids()
            .iter()
            .map(|endpoint| endpoint.as_str().to_string())
            .collect::<Vec<_>>(),
        endpoint_ids
    );
    assert_eq!(
        graph
            .endpoint_routes()
            .iter()
            .map(|(id, source, target, delay)| (
                id.as_str().to_string(),
                source.as_str().to_string(),
                target.as_str().to_string(),
                delay.as_nanos(),
            ))
            .collect::<Vec<_>>(),
        vec![
            ("a-b".to_string(), "a".to_string(), "b".to_string(), 0),
            ("a-c".to_string(), "a".to_string(), "c".to_string(), 1),
            ("b-c".to_string(), "b".to_string(), "c".to_string(), 2),
        ]
    );

    for id in endpoint_ids {
        let key = graph.endpoint_key(&endpoint(id)).unwrap();
        assert_eq!(graph.endpoint_id(key), &endpoint(id));
    }
    assert!(graph.contains_route(&fed("a"), &fed("c"), &endpoint("a-c")));
    assert!(!graph.contains_route(&fed("c"), &fed("a"), &endpoint("a-c")));
    assert!(!graph.contains_route(&fed("a"), &fed("b"), &endpoint("a-c")));
}

#[test]
fn graph_reports_endpoint_routes_and_delays_by_key() {
    let graph = graph();
    let a = graph.federate_key(&fed("a")).unwrap();
    let b = graph.federate_key(&fed("b")).unwrap();
    let a_b = graph.endpoint_key(&endpoint("a-b")).unwrap();
    let (source, target, delay) = graph.endpoint(a_b);
    assert_eq!((source, target, delay.as_nanos()), (a, b, 0));
    assert_eq!(graph.endpoint_count(), 3);
    assert_eq!(graph.endpoint_delay(&endpoint("b-c")), Some(WireDelay::from_nanos(2)));
    assert_eq!(graph.endpoint_delay(&endpoint("c-a")), None);
    assert_eq!(graph.federate_key(&fed("missing")), None);
    assert!(graph.incoming(a).is_empty());
    assert!(graph.affected_downstream(graph.federate_key(&fed("c")).unwrap()).is_empty());
}

#[test]
fn lowering_checks_refuse_what_from_lowered_does_not_accept() {
    let refused = vec![
        RtiGraphParts {
            federates: vec![federate_parts("a", vec![], vec![]), federate_parts("a", vec![], vec![])],
            endpoints: vec![],
        },
        RtiGraphParts {
            federates: vec![federate_parts("a", vec![], vec![]), federate_parts("b", vec![], vec![])],
            endpoints: vec![endpoint_parts("a", "b", "a-b", 1), endpoint_parts("a", "b", "a-b", 2)],
        },
        RtiGraphParts {
            federates: vec![federate_parts("b", vec![], vec![])],
            endpoints: vec![endpoint_parts("missing", "b", "missing-a-b", 0)],
        },
        RtiGraphParts {
            federates: vec![federate_parts("b", vec![("missing", 1)], vec![])],
            endpoints: vec![],
        },
        RtiGraphParts {
            federates: vec![federate_parts("a", vec![], vec!["missing"])],
            endpoints: vec![],
        },
        RtiGraphParts {
            federates: vec![
                federate_parts("a", vec![], vec![]),
                federate_parts("b", vec![("a", 1), ("a", 2)], vec![]),
            ],
            endpoints: vec![],
        },
        RtiGraphParts {
            federates: vec![federate_parts("a", vec![], vec!["b", "b"]), federate_parts("b", vec![], vec![])],
            endpoints: vec![],
        },
    ];
    for parts in refused {
        assert!(!RtiGraph::check_lowered(&parts));
        assert!(RtiGraph::try_from_lowered(parts).is_none());
    }
    let accepted = RtiGraphParts {
        federates: vec![federate_parts("a", vec![], vec!["b"]), federate_parts("b", vec![("a", 0)], vec![])],
        endpoints: vec![endpoint_parts("a", "b", "a-b", 0)],
    };
    assert!(RtiGraph::check_lowered(&accepted));
    let graph = RtiGraph::try_from_lowered(accepted).unwrap();
    assert_eq!(graph.federate_ids(), vec![fed("a"), fed("b")]);
}
