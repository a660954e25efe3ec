use caminos::cglabel::{BalanceAlgorithm, CGLabel};
use caminos::errors::Error;
use caminos::general_pattern::IdentityFilter;
use caminos::collectives::MessageBarrier;
use caminos::model::{RoutingInfo, Selections};
use caminos::routing::{Routing, Shortest};
use caminos::source_adaptive::{EachLengthSourceAdaptiveRouting, PathTable, SourcePathTable};
use caminos::topology::{Location, Topology};
use rand::rngs::StdRng;
use rand::SeedableRng;

#[test]
fn malformed_topology_is_rejected() {
    // A non-square distance table is a configuration error.
    let ports = vec![vec![Location::ServerPort(0)]];
    let dist = vec![vec![0, 1]];
    assert!(matches!(Topology::new(ports, dist, 1, 1), Err(Error::MalformedTopology)));
    // A port to a router that does not exist is one too.
    let ports = vec![vec![Location::RouterPort { router_index: 5, router_port: 0 }]];
    let dist = vec![vec![0]];
    assert!(Topology::new(ports, dist, 0, 0).is_err());
}

#[test]
fn shortest_reports_no_candidates() {
    // Two routers that claim distance one but share no link: no candidate
    // egress exists and the decision says so instead of panicking.
    let ports = vec![vec![Location::ServerPort(0)], vec![Location::ServerPort(1)]];
    let dist = vec![vec![0, 1], vec![1, 0]];
    let top = Topology::new(ports, dist, 1, 2).unwrap();
    let mut rng = StdRng::seed_from_u64(0);
    let routing = Shortest::new();
    let info = RoutingInfo::new();
    match routing.next(&info, &top, 0, 1, Some(1), 2, &mut rng) {
        Err(Error::NoCandidates { current_router: 0, target_router: 1 }) => {}
        other => panic!("a missing candidate was expected: {:?}", other),
    }
}

fn complete_graph(n: usize) -> Topology {
    let mut ports = Vec::new();
    let mut dist = Vec::new();
    for i in 0..n {
        let mut row = Vec::new();
        for j in 0..n {
            if j != i {
                row.push(Location::RouterPort { router_index: j, router_port: 0 });
            }
        }
        row.push(Location::ServerPort(i));
        ports.push(row);
        let mut drow = Vec::new();
        for j in 0..n {
            drow.push(if i == j { 0 } else { 1 });
        }
        dist.push(drow);
    }
    Topology::new(ports, dist, 1, n).unwrap()
}

#[test]
fn xor_weights_repeat_and_fail_the_check() {
    // The XOR order repeats weights on a complete graph; asking for the
    // repetition check makes the build fail loudly.
    let top = complete_graph(8);
    let mut rng = StdRng::seed_from_u64(0);
    let mut routing = CGLabel::new(BalanceAlgorithm::XOR, IdentityFilter::new(), true);
    match routing.initialize(&top, &mut rng) {
        Err(Error::WeightRepeated { .. }) => {}
        other => panic!("a repeated weight was expected: {:?}", other),
    }
}

#[test]
fn cglabel_update_rejects_wrong_middle() {
    let top = complete_graph(4);
    let mut rng = StdRng::seed_from_u64(0);
    let mut routing = CGLabel::new(BalanceAlgorithm::RINR, IdentityFilter::new(), true);
    routing.initialize(&top, &mut rng).unwrap();
    let mut info = RoutingInfo::new();
    // Claim the only admissible middle is router 1, then arrive at router 2.
    info.selections = Selections::IntermediateSet(vec![1]);
    match routing.update_routing_info(&mut info, &top, 2, 0, 3, Some(3), &mut rng) {
        Err(Error::SelectionMismatch { current_router: 2 }) => {}
        other => panic!("a selection mismatch was expected: {:?}", other),
    }
}

#[test]
fn missing_paths_are_a_configuration_error() {
    let top = complete_graph(3);
    let mut rng = StdRng::seed_from_u64(0);
    let mut table = PathTable::new(vec![vec![Vec::new(); 3]; 3]);
    table.initialize(&top, &mut rng).unwrap();
    let routing = EachLengthSourceAdaptiveRouting::new(table);
    let mut info = RoutingInfo::new();
    match routing.initialize_routing_info(&mut info, &top, 0, 2, Some(2), &mut rng) {
        Err(Error::NoPathFound { source_router: 0, target_router: 2 }) => {}
        other => panic!("a missing path was expected: {:?}", other),
    }
}

#[test]
fn message_barrier_counts_and_resets() {
    // Two tasks, one message each: after both sends and both consumptions
    // the barrier opens again with cleared counters.
    let mut barrier = MessageBarrier::new(2, 1, None);
    assert_eq!(barrier.number_tasks(), 2);
    assert!(barrier.should_generate(0));
    barrier.record_sent(0);
    assert!(!barrier.should_generate(0));
    barrier.record_sent(1);
    assert!(!barrier.record_consumed(0));
    assert!(barrier.record_consumed(1));
    assert!(barrier.should_generate(0));
    assert!(barrier.should_generate(1));
}
