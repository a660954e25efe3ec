use caminos::adaptive::AdaptiveStart;
use caminos::cglabel::{match_balance_algorithm, BalanceAlgorithm, CGLabel};
use caminos::config::ConfigurationValue;
use caminos::errors::Error;
use caminos::general_pattern::{IdentityFilter, RandomFilter};
use caminos::model::{RoutingInfo, Selections};
use caminos::routing::{Routing, Shortest};
use caminos::stubborn::Stubborn;
use caminos::source_adaptive::{EachLengthSourceAdaptiveRouting, PathTable, SourcePathTable};
use caminos::subtopology::SubTopologyRouting;
use caminos::sum::{new_sum_routing_policy, SumRouting, SumRoutingPolicy};
use caminos::topology::{Location, Topology};
use rand::rngs::StdRng;
use rand::SeedableRng;

/// A complete graph of `n` routers, one server per router at the last port.
fn complete_graph(n: usize) -> Topology {
    let mut ports = Vec::new();
    let mut dist = Vec::new();
    for i in 0..n {
        let mut row = Vec::new();
        for j in 0..n {
            if j != i {
                row.push(Location::RouterPort { router_index: j, router_port: 0 });
            }
        }
        row.push(Location::ServerPort(i));
        ports.push(row);
        let mut drow = Vec::new();
        for j in 0..n {
            drow.push(if i == j { 0 } else { 1 });
        }
        dist.push(drow);
    }
    Topology::new(ports, dist, 1, n).unwrap()
}

/// A ring of `n` routers: ports to the previous and next router, then one
/// server port.
fn ring(n: usize) -> Topology {
    let mut ports = Vec::new();
    let mut dist = Vec::new();
    for i in 0..n {
        let mut row = Vec::new();
        row.push(Location::RouterPort { router_index: (i + 1) % n, router_port: 1 });
        row.push(Location::RouterPort { router_index: (i + n - 1) % n, router_port: 0 });
        row.push(Location::ServerPort(i));
        ports.push(row);
        let mut drow = Vec::new();
        for j in 0..n {
            let forward = (j + n - i) % n;
            let backward = (i + n - j) % n;
            drow.push(forward.min(backward));
        }
        dist.push(drow);
    }
    Topology::new(ports, dist, n / 2, n).unwrap()
}

fn fresh_info() -> RoutingInfo {
    RoutingInfo::new()
}

#[test]
fn arrival_returns_server_ports_per_channel() {
    // At the target router the candidates are the server port, one per
    // virtual channel, and the set is idempotent.
    let top = complete_graph(4);
    let mut rng = StdRng::seed_from_u64(0);
    let routing = Shortest::new();
    let info = fresh_info();
    let rc = routing.next(&info, &top, 2, 2, Some(2), 3, &mut rng).unwrap();
    assert!(rc.idempotent);
    assert_eq!(rc.candidates.len(), 3);
    for (vc, c) in rc.candidates.iter().enumerate() {
        assert_eq!(c.port, 3);
        assert_eq!(c.virtual_channel, vc);
        assert_eq!(c.label, 0);
    }
}

#[test]
fn shortest_offers_decreasing_ports() {
    let top = ring(6);
    let mut rng = StdRng::seed_from_u64(0);
    let routing = Shortest::new();
    let info = fresh_info();
    // From router 0 towards router 2 only the forward port decreases the
    // distance.
    let rc = routing.next(&info, &top, 0, 2, Some(2), 2, &mut rng).unwrap();
    assert_eq!(rc.candidates.len(), 2);
    for c in rc.candidates.iter() {
        assert_eq!(c.port, 0);
    }
    // Towards the opposite router both ports decrease the distance.
    let rc = routing.next(&info, &top, 0, 3, Some(3), 1, &mut rng).unwrap();
    assert_eq!(rc.candidates.len(), 2);
}

#[test]
fn adaptive_start_offers_all_neighbours_then_inner() {
    // Before the hop bound the candidate set is the full neighbour-port set;
    // afterwards it is exactly the inner routing's set.
    let top = ring(6);
    let mut rng = StdRng::seed_from_u64(0);
    let routing = AdaptiveStart::new(2, Shortest::new(), 7).unwrap();
    let mut info = fresh_info();
    routing.initialize_routing_info(&mut info, &top, 0, 3, Some(3), &mut rng).unwrap();
    let rc = routing.next(&info, &top, 0, 3, Some(3), 2, &mut rng).unwrap();
    // Both router ports, on both channels, with the uniform label.
    assert_eq!(rc.candidates.len(), 4);
    for c in rc.candidates.iter() {
        assert_eq!(c.label, 7);
    }
    // Two hops later the inner routing takes over.
    info.hops = 2;
    routing.update_routing_info(&mut info, &top, 2, 1, 3, Some(3), &mut rng).unwrap();
    let rc = routing.next(&info, &top, 2, 3, Some(3), 2, &mut rng).unwrap();
    let inner_info = fresh_info();
    let inner = Shortest::new();
    let expected = inner.next(&inner_info, &top, 2, 3, Some(3), 2, &mut rng).unwrap();
    assert_eq!(rc.candidates.len(), expected.candidates.len());
    for (a, b) in rc.candidates.iter().zip(expected.candidates.iter()) {
        assert_eq!(a.port, b.port);
        assert_eq!(a.virtual_channel, b.virtual_channel);
        assert_eq!(a.label, b.label);
    }
}

#[test]
fn stubborn_repeats_committed_candidate() {
    let top = ring(6);
    let mut rng = StdRng::seed_from_u64(0);
    let routing = Stubborn::new(Shortest::new());
    let mut info = fresh_info();
    routing.initialize_routing_info(&mut info, &top, 0, 2, Some(2), &mut rng).unwrap();
    let rc = routing.next(&info, &top, 0, 2, Some(2), 2, &mut rng).unwrap();
    assert!(!rc.idempotent);
    let chosen = &rc.candidates[0];
    routing.performed_request(chosen, &mut info, &top, 0, 2, Some(2), 2, &mut rng);
    let again = routing.next(&info, &top, 0, 2, Some(2), 2, &mut rng).unwrap();
    assert_eq!(again.candidates.len(), 1);
    assert_eq!(again.candidates[0].port, chosen.port);
    assert_eq!(again.candidates[0].virtual_channel, chosen.virtual_channel);
}

#[test]
fn sum_stubborn_pins_to_performed_side() {
    // Once a performed request reports a side, every following decision
    // returns only candidates annotated with that side.
    let top = complete_graph(5);
    let mut rng = StdRng::seed_from_u64(0);
    let policy = new_sum_routing_policy(&ConfigurationValue::Object(
        "Stubborn".to_string(),
        Vec::new(),
    ))
    .unwrap();
    assert!(matches!(policy, SumRoutingPolicy::Stubborn));
    let routing = SumRouting::new(
        policy,
        Shortest::new(),
        Shortest::new(),
        vec![0],
        vec![1],
        0,
        0,
        false,
    );
    let mut info = fresh_info();
    info.source_server = Some(0);
    routing.initialize_routing_info(&mut info, &top, 0, 3, Some(3), &mut rng).unwrap();
    let rc = routing.next(&info, &top, 0, 3, Some(3), 2, &mut rng).unwrap();
    // Both sides are still open: annotations of both kinds appear.
    let sides: Vec<i32> = rc
        .candidates
        .iter()
        .map(|c| *c.annotation.values.last().unwrap())
        .collect();
    assert!(sides.contains(&0));
    assert!(sides.contains(&1));
    // Perform a request of side 1.
    let from_side_1 = rc
        .candidates
        .iter()
        .find(|c| *c.annotation.values.last().unwrap() == 1)
        .unwrap();
    routing.performed_request(from_side_1, &mut info, &top, 0, 3, Some(3), 2, &mut rng);
    assert!(matches!(info.selections, Selections::Pinned(1)));
    // Every subsequent decision carries side 1 only, hop after hop.
    info.hops = 1;
    routing.update_routing_info(&mut info, &top, 1, 0, 3, Some(3), &mut rng).unwrap();
    let rc = routing.next(&info, &top, 1, 3, Some(3), 2, &mut rng).unwrap();
    assert!(rc.candidates.len() > 0);
    for c in rc.candidates.iter() {
        assert_eq!(*c.annotation.values.last().unwrap(), 1);
    }
}

#[test]
fn cglabel_rinr_weights_are_a_permutation() {
    // All off-diagonal weights of the four-router build are a permutation of
    // the twelve weights, and the recorded intermediates are exactly the
    // pairs the order admits.
    let top = complete_graph(4);
    let mut rng = StdRng::seed_from_u64(0);
    let mut routing = CGLabel::new(BalanceAlgorithm::RINR, IdentityFilter::new(), true);
    routing.initialize(&top, &mut rng).unwrap();
    let n = 4;
    let mut seen = vec![false; n * (n - 1)];
    for i in 0..n {
        for j in 0..n {
            if i != j {
                let w = routing.weight(i, j);
                assert!(0 <= w && (w as usize) < n * (n - 1));
                assert!(!seen[w as usize]);
                seen[w as usize] = true;
            }
        }
    }
    assert!(seen.iter().all(|b| *b));
    // The recorded legal intermediates between 0 and 3.
    let inter = routing.intermediates_between(0, 3);
    for k in 0..n {
        let legal = k != 0 && k != 3 && routing.weight(0, k) < routing.weight(k, 3);
        assert_eq!(inter.contains(&k), legal);
    }
}

#[test]
fn cglabel_xor_eight_routers() {
    // Eight-node complete graph with the XOR order, no repetition check: the
    // build succeeds and each returned intermediate respects the link order.
    let top = complete_graph(8);
    let mut rng = StdRng::seed_from_u64(0);
    let mut routing = CGLabel::new(BalanceAlgorithm::XOR, RandomFilter::new(1), false);
    routing.initialize(&top, &mut rng).unwrap();
    let mut info = fresh_info();
    routing.initialize_routing_info(&mut info, &top, 0, 7, Some(7), &mut rng).unwrap();
    match &info.selections {
        Selections::IntermediateSet(sel) => {
            for &k in sel.iter() {
                assert!(routing.weight(0, k) < routing.weight(k, 7));
                assert_eq!(routing.weight(0, k), (0 ^ k) as i32);
                assert_eq!(routing.weight(k, 7), (k ^ 7) as i32);
            }
        }
        _ => panic!("an intermediate set was expected"),
    }
    // A non-power-of-two size is rejected before any packet is routed.
    let top5 = complete_graph(5);
    let mut bad = CGLabel::new(BalanceAlgorithm::XOR, RandomFilter::new(1), false);
    assert!(matches!(bad.initialize(&top5, &mut rng), Err(Error::NotPowerOfTwo { size: 5 })));
}

#[test]
fn cglabel_algorithm_names() {
    let cv = ConfigurationValue::Object("RINR".to_string(), Vec::new());
    assert!(matches!(match_balance_algorithm(&cv), Ok(BalanceAlgorithm::RINR)));
    let cv = ConfigurationValue::Object("XOR".to_string(), Vec::new());
    assert!(matches!(match_balance_algorithm(&cv), Ok(BalanceAlgorithm::XOR)));
    let cv = ConfigurationValue::Object(
        "sRINR".to_string(),
        vec![
            ("a".to_string(), ConfigurationValue::Number(2)),
            ("b".to_string(), ConfigurationValue::Number(3)),
        ],
    );
    assert!(matches!(match_balance_algorithm(&cv), Ok(BalanceAlgorithm::SRINR(2, 3))));
    let cv = ConfigurationValue::Object("Elsewhere".to_string(), Vec::new());
    assert!(match_balance_algorithm(&cv).is_err());
}

#[test]
fn each_length_keeps_one_path_per_length() {
    // One path of each distinct length is selected, and after a hop every
    // surviving path's prefix equals the visited log.
    let top = complete_graph(4);
    let mut rng = StdRng::seed_from_u64(0);
    // Paths from 0 to 3: one direct (2 routers), two of three routers.
    let mut table = vec![vec![Vec::new(); 4]; 4];
    table[0][3] = vec![vec![0, 3], vec![0, 1, 3], vec![0, 2, 3]];
    let mut path_table = PathTable::new(table);
    path_table_check(&mut path_table, &top, &mut rng);
    let routing = EachLengthSourceAdaptiveRouting::new(path_table);
    let mut info = fresh_info();
    routing.initialize_routing_info(&mut info, &top, 0, 3, Some(3), &mut rng).unwrap();
    let selections = match &info.selections {
        Selections::PathIndices(sel) => sel.clone(),
        _ => panic!("path indices were expected"),
    };
    // Two distinct lengths, so two selected paths.
    assert_eq!(selections.len(), 2);
    assert_eq!(info.visited_routers, vec![0]);
    // Take the hop along the shorter path's next router (3 is direct); move
    // instead to router 1 and check that only matching paths survive.
    info.hops = 1;
    let r = routing.update_routing_info(&mut info, &top, 1, 0, 3, Some(3), &mut rng);
    let paths = [vec![0usize, 3], vec![0, 1, 3], vec![0, 2, 3]];
    match r {
        Ok(()) => {
            let surviving = match &info.selections {
                Selections::PathIndices(sel) => sel.clone(),
                _ => panic!("path indices were expected"),
            };
            assert!(surviving.len() >= 1);
            for idx in surviving {
                assert_eq!(paths[idx][..info.visited_routers.len()], info.visited_routers[..]);
            }
        }
        Err(Error::SelectionsExhausted { .. }) => {
            // The randomly chosen three-router path went through router 2:
            // moving to router 1 abandons every selected path.
        }
        Err(e) => panic!("unexpected error: {:?}", e),
    }
}

fn path_table_check(table: &mut PathTable, top: &Topology, rng: &mut StdRng) {
    table.initialize(top, rng).unwrap();
}

#[test]
fn subtopology_rejects_unrealizable_edge() {
    // A logical edge with no physical counterpart makes initialization fail
    // before any packet is routed.
    let mut rng = StdRng::seed_from_u64(0);
    let physical = ring(4);
    let logical = complete_graph(4);
    let mut routing = SubTopologyRouting::new(
        logical,
        caminos::general_pattern::Identity::new(),
        Shortest::new(),
        false,
        false,
    );
    match routing.initialize(&physical, &mut rng) {
        Err(Error::LogicalEdgeNotPhysical { .. }) => {}
        other => panic!("a missing physical edge was expected: {:?}", other),
    }
    // Embedding a ring into the complete graph works.
    let physical = complete_graph(4);
    let logical = ring(4);
    let mut routing = SubTopologyRouting::new(
        logical,
        caminos::general_pattern::Identity::new(),
        Shortest::new(),
        false,
        false,
    );
    routing.initialize(&physical, &mut rng).unwrap();
    let mut info = fresh_info();
    routing.initialize_routing_info(&mut info, &physical, 0, 2, Some(2), &mut rng).unwrap();
    let rc = routing.next(&info, &physical, 0, 2, Some(2), 1, &mut rng).unwrap();
    assert!(rc.candidates.len() > 0);
    // Labels are shifted so the least is zero.
    assert!(rc.candidates.iter().all(|c| c.label >= 0));
    assert!(rc.candidates.iter().any(|c| c.label == 0));
}

#[test]
fn sum_policy_names() {
    for (name, expect) in [
        ("Random", SumRoutingPolicy::Random),
        ("TryBoth", SumRoutingPolicy::TryBoth),
        ("Stubborn", SumRoutingPolicy::Stubborn),
        ("StubbornWhenSecond", SumRoutingPolicy::StubbornWhenSecond),
        ("SecondWhenFirstEmpty", SumRoutingPolicy::SecondWhenFirstEmpty),
        ("EscapeToSecond", SumRoutingPolicy::EscapeToSecond),
    ] {
        let cv = ConfigurationValue::Object(name.to_string(), Vec::new());
        assert_eq!(new_sum_routing_policy(&cv).unwrap(), expect);
    }
    let cv = ConfigurationValue::Object("Elsewhere".to_string(), Vec::new());
    assert!(new_sum_routing_policy(&cv).is_err());
}

#[test]
fn region_routing_overrides_inside_region() {
    // One region covering the whole machine with a ring as its logical
    // topology: hops that stay inside the region come from the region's own
    // routing, shifted by the extra label.
    let mut rng = StdRng::seed_from_u64(0);
    let physical = complete_graph(4);
    let region_top = ring(4);
    let mut routing = caminos::region::RegionRouting::new(
        vec![caminos::general_pattern::Identity::new()],
        vec![caminos::general_pattern::Identity::new()],
        vec![4],
        vec![region_top],
        vec![Shortest::new()],
        5,
        Shortest::new(),
    )
    .unwrap();
    routing.initialize(&physical, &mut rng).unwrap();
    let mut info = fresh_info();
    routing.initialize_routing_info(&mut info, &physical, 0, 2, Some(2), &mut rng).unwrap();
    let rc = routing.next(&info, &physical, 0, 2, Some(2), 1, &mut rng).unwrap();
    assert!(!rc.idempotent);
    // In the ring both neighbours of 0 near router 2; the candidates lead to
    // routers 1 and 3 with the region's extra label.
    assert_eq!(rc.candidates.len(), 2);
    let mut reached = Vec::new();
    for c in rc.candidates.iter() {
        assert_eq!(c.label, 5);
        match physical_neighbour(&physical, 0, c.port) {
            Some(r) => reached.push(r),
            None => panic!("a router port was expected"),
        }
    }
    reached.sort();
    assert_eq!(reached, vec![1, 3]);
    // The realized hop to router 1 keeps the states consistent.
    info.hops = 1;
    let arrival_port = port_towards(&physical, 1, 0);
    routing.update_routing_info(&mut info, &physical, 1, arrival_port, 2, Some(2), &mut rng).unwrap();
    let rc = routing.next(&info, &physical, 1, 2, Some(2), 1, &mut rng).unwrap();
    assert!(rc.candidates.len() > 0);
}

fn physical_neighbour(top: &Topology, router: usize, port: usize) -> Option<usize> {
    match top.neighbour(router, port) {
        Location::RouterPort { router_index, .. } => Some(router_index),
        Location::ServerPort(_) => None,
    }
}

fn port_towards(top: &Topology, router: usize, destination: usize) -> usize {
    for p in 0..top.ports(router) {
        if physical_neighbour(top, router, p) == Some(destination) {
            return p;
        }
    }
    panic!("no port towards the destination");
}
