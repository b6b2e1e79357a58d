use boomerang_federated::hierarchy::{check_lowered_hierarchy, RuntimeFederationError};
use boomerang_federated::rti::graph::{RtiFederateParts, RtiGraph, RtiGraphParts};
use boomerang_federated::FederateId;

fn fed(id: &str) -> FederateId {
    FederateId::new(id)
}

fn graph(ids: &[&str]) -> RtiGraph {
    RtiGraph::from_lowered(RtiGraphParts {
        federates: ids
            .iter()
            .map(|id| RtiFederateParts {
                id: fed(id),
                transitive_incoming: Vec::new(),
                affected_downstream: Vec::new(),
            })
            .collect(),
        endpoints: Vec::new(),
    })
}

fn runtimes(ids: &[&str]) -> Vec<(FederateId, usize)> {
    ids.iter().map(|id| (fed(id), 1)).collect()
}

fn bridges(ids: &[&str]) -> Vec<FederateId> {
    ids.iter().map(|id| fed(id)).collect()
}

#[test]
fn rejects_graph_federate_without_runtime() {
    let missing = fed("b");
    let error = check_lowered_hierarchy(&graph(&["a", "b"]), &runtimes(&["a"]), &bridges(&["a", "b"]))
        .err()
        .expect("every RTI graph federate must own a runtime");

    assert!(matches!(error, RuntimeFederationError::MissingRuntime(id) if id == missing));
}

#[test]
fn rejects_runtime_for_federate_absent_from_graph() {
    let extra = fed("z");
    let error = check_lowered_hierarchy(&graph(&["a"]), &runtimes(&["a", "z"]), &bridges(&["a", "z"]))
        .err()
        .expect("runtime state must not introduce a Federate outside the RTI graph");

    assert!(matches!(error, RuntimeFederationError::UnknownFederate(ref id) if id == &extra));
    assert!(error
        .message()
        .contains("lowered runtime state references unknown Federate 'z'"));
}

#[test]
fn rejects_graph_federate_without_bridge() {
    let missing = fed("b");
    let error = check_lowered_hierarchy(&graph(&["a", "b"]), &runtimes(&["a", "b"]), &bridges(&["a"]))
        .err()
        .expect("every RTI graph federate must own a protocol bridge");

    assert!(matches!(error, RuntimeFederationError::MissingBridge(id) if id == missing));
}

#[test]
fn rejects_bridge_for_federate_absent_from_graph() {
    let extra = fed("z");
    let error = check_lowered_hierarchy(&graph(&["a"]), &runtimes(&["a"]), &bridges(&["a", "z"]))
        .err()
        .expect("bridge state must not introduce a Federate outside the RTI graph");

    assert!(matches!(error, RuntimeFederationError::UnknownFederate(ref id) if id == &extra));
    assert!(error
        .message()
        .contains("lowered runtime state references unknown Federate 'z'"));
}

#[test]
fn rejects_empty_runtime_and_accepts_exact_ownership() {
    let error = check_lowered_hierarchy(
        &graph(&["a", "b"]),
        &vec![(fed("a"), 2), (fed("b"), 0)],
        &bridges(&["a", "b"]),
    )
    .err()
    .expect("an empty Enclave map is refused");
    assert_eq!(error, RuntimeFederationError::EmptyRuntime(fed("b")));
    assert_eq!(error.message(), "Federate 'b' has an empty runtime Enclave map");

    assert_eq!(
        check_lowered_hierarchy(&graph(&["a", "b"]), &runtimes(&["a", "b"]), &bridges(&["a", "b"])),
        Ok(())
    );
}
