use boomerang_federated::client::{FederateClientError, FederateClientRoute, RtiLogicalTimeCoordinator};
use boomerang_federated::connections::FederatedRuntimeConnections;
use boomerang_federated::{EndpointId, FederateId};

fn fed(id: &str) -> FederateId {
    FederateId::new(id)
}

#[test]
fn prebuilt_connections_reject_route_without_source_connection() {
    let endpoint = EndpointId::new("source/out->target/in");
    let error = FederatedRuntimeConnections::new(
        vec![fed("target")],
        vec![FederateClientRoute::new(endpoint, fed("source"), fed("target"))],
    )
    .expect_err("route source must be validated while connections are built");

    assert!(error.message().contains("without a prebuilt runtime connection"));
    assert_eq!(
        error.message(),
        "protocol error: route for endpoint 'source/out->target/in' references source federate 'source' without a prebuilt runtime connection"
    );
}

#[test]
fn runtime_connections_attach_inbound_endpoints_to_target_routes() {
    let first_endpoint = EndpointId::new("source/out->first/in");
    let second_endpoint = EndpointId::new("source/out->second/in");
    let connections = FederatedRuntimeConnections::new(
        vec![fed("source"), fed("first"), fed("second")],
        vec![
            FederateClientRoute::new(first_endpoint.clone(), fed("source"), fed("first")),
            FederateClientRoute::new(second_endpoint.clone(), fed("source"), fed("second")),
        ],
    )
    .unwrap();

    assert_eq!(
        connections.routes_for(&fed("first")),
        vec![FederateClientRoute::new(first_endpoint.clone(), fed("source"), fed("first"))]
    );
    assert_eq!(
        connections.routes_for(&fed("second")),
        vec![FederateClientRoute::new(second_endpoint.clone(), fed("source"), fed("second"))]
    );
    assert!(connections.routes_for(&fed("source")).is_empty());
    assert_eq!(
        connections.outbound_route(&second_endpoint).unwrap().target,
        fed("second")
    );
    assert_eq!(
        connections.outbound_route(&EndpointId::new("nowhere")).err(),
        Some(FederateClientError::UnknownRoute(EndpointId::new("nowhere")))
    );
    assert!(RtiLogicalTimeCoordinator::new(fed("first"), connections.routes_for(&fed("first"))).is_ok());
}

#[test]
fn connections_list_federates_in_lexical_order() {
    let connections =
        FederatedRuntimeConnections::new(vec![fed("c"), fed("a"), fed("b")], Vec::new()).unwrap();
    assert_eq!(connections.federate_ids(), &vec![fed("a"), fed("b"), fed("c")]);
    assert_eq!(connections.len(), 3);
    assert!(!connections.is_empty());
    assert!(connections.contains_federate(&fed("b")));
    assert!(!connections.contains_federate(&fed("d")));
    assert!(FederatedRuntimeConnections::new(Vec::new(), Vec::new()).unwrap().is_empty());
}

#[test]
fn connections_refuse_duplicates_and_unknown_targets() {
    let error = FederatedRuntimeConnections::new(vec![fed("a"), fed("a")], Vec::new()).unwrap_err();
    assert_eq!(
        error,
        FederateClientError::Protocol("duplicate prebuilt runtime connection for 'a'".to_string())
    );

    let endpoint = EndpointId::new("a->b");
    let route = FederateClientRoute::new(endpoint.clone(), fed("a"), fed("b"));
    assert_eq!(
        FederatedRuntimeConnections::new(vec![fed("a"), fed("b")], vec![route.clone(), route.clone()])
            .unwrap_err(),
        FederateClientError::DuplicateRoute(endpoint.clone())
    );
    assert_eq!(
        FederatedRuntimeConnections::new(vec![fed("a")], vec![route]).unwrap_err(),
        FederateClientError::Protocol(
            "route for endpoint 'a->b' references target federate 'b' without a prebuilt runtime connection"
                .to_string()
        )
    );
}

#[test]
fn inbound_bindings_attach_once_to_routes_of_their_target() {
    let endpoint = EndpointId::new("source/out->first/in");
    let mut connections = FederatedRuntimeConnections::new(
        vec![fed("source"), fed("first")],
        vec![FederateClientRoute::new(endpoint.clone(), fed("source"), fed("first"))],
    )
    .unwrap();

    let slot = connections.inbound_slot(&fed("first"), &endpoint).unwrap();
    assert_eq!(slot, 0);
    connections.bind_inbound(slot);
    let duplicate = connections.inbound_slot(&fed("first"), &endpoint).unwrap_err();
    assert_eq!(duplicate, FederateClientError::DuplicateInboundBinding(endpoint.clone()));
    assert_eq!(
        duplicate.message(),
        "federated client route for endpoint `source/out->first/in` already has an inbound runtime binding"
    );
    assert_eq!(
        connections.inbound_slot(&fed("source"), &endpoint),
        Err(FederateClientError::UnknownRoute(endpoint.clone()))
    );
    assert_eq!(
        connections.inbound_slot(&fed("ghost"), &endpoint),
        Err(FederateClientError::Protocol(
            "missing prebuilt runtime connection for federate 'ghost'".to_string()
        ))
    );
}
