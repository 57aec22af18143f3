use delta_sirk::graph::build_graph;
use delta_sirk::{Agent, AgentKind, SymbolicParams, GAUSSIAN, MAX_DIM, POSITIVE_INFINITY_BITS};

fn gaussian(alpha: f32) -> SymbolicParams {
    SymbolicParams {
        type_id: GAUSSIAN,
        alpha: alpha.to_bits(),
        x0: 0f32.to_bits(),
        k0: 0f32.to_bits(),
        amp_real: 1f32.to_bits(),
        amp_imag: 0f32.to_bits(),
    }
}

fn state_vector(i: u32) -> Agent {
    Agent { kind: 3, principal_port: 0, aux_port: 0, param_index: i, shift_val: 0 }
}

fn scanner(i: u32, k: u32, dim: u32) -> Agent {
    Agent { kind: 2, principal_port: k, aux_port: i * dim + k, param_index: i, shift_val: 0 }
}

#[test]
fn agent_kind_codes_are_fixed() {
    assert_eq!(AgentKind::Free.code(), 0);
    assert_eq!(AgentKind::ResolventOp.code(), 1);
    assert_eq!(AgentKind::MetricScanner.code(), 2);
    assert_eq!(AgentKind::StateVector.code(), 3);
}

#[test]
fn agent_kind_reads_back_from_its_code() {
    let kinds = [
        AgentKind::Free,
        AgentKind::ResolventOp,
        AgentKind::MetricScanner,
        AgentKind::StateVector,
    ];
    for kind in kinds {
        assert_eq!(AgentKind::from_code(kind.code()), Some(kind));
    }
    assert_eq!(AgentKind::from_code(4), None);
    assert_eq!(AgentKind::from_code(u32::MAX), None);
}

#[test]
fn agent_reports_its_kind() {
    assert_eq!(state_vector(0).agent_kind(), Some(AgentKind::StateVector));
    assert_eq!(scanner(0, 0, 1).agent_kind(), Some(AgentKind::MetricScanner));
    let odd = Agent { kind: 17, principal_port: 0, aux_port: 0, param_index: 0, shift_val: 0 };
    assert_eq!(odd.agent_kind(), None);
}

#[test]
fn well_formed_needs_a_positive_width() {
    assert!(gaussian(1.0).is_well_formed());
    assert!(gaussian(f32::MIN_POSITIVE).is_well_formed());
    assert!(gaussian(f32::INFINITY).is_well_formed());
    assert_eq!(f32::INFINITY.to_bits(), POSITIVE_INFINITY_BITS);
    assert!(!gaussian(0.0).is_well_formed());
    assert!(!gaussian(-0.0).is_well_formed());
    assert!(!gaussian(-1.0).is_well_formed());
    assert!(!gaussian(f32::NAN).is_well_formed());
    assert!(!gaussian(f32::NEG_INFINITY).is_well_formed());
}

#[test]
fn well_formed_needs_a_known_family() {
    let mut p = gaussian(1.0);
    p.type_id = 1;
    assert!(!p.is_well_formed());
}

#[test]
fn graph_of_first_column() {
    let basis = vec![gaussian(1.0)];
    let graph = build_graph(&basis, 0, 2);
    assert_eq!(graph, vec![state_vector(0), scanner(0, 0, 2)]);
}

#[test]
fn graph_of_second_column() {
    let basis = vec![gaussian(1.0), gaussian(1.1)];
    let graph = build_graph(&basis, 1, 2);
    assert_eq!(
        graph,
        vec![
            state_vector(0),
            state_vector(1),
            Agent { kind: 2, principal_port: 1, aux_port: 1, param_index: 0, shift_val: 0 },
            Agent { kind: 2, principal_port: 1, aux_port: 3, param_index: 1, shift_val: 0 },
        ]
    );
}

#[test]
fn graph_has_state_vectors_first_then_scanners() {
    let basis = vec![gaussian(1.0), gaussian(2.0), gaussian(3.0)];
    let graph = build_graph(&basis, 2, 5);
    assert_eq!(graph.len(), 6);
    for i in 0..3u32 {
        assert_eq!(graph[i as usize], state_vector(i));
        assert_eq!(graph[3 + i as usize], scanner(i, 2, 5));
    }
    assert_eq!(graph[3].aux_port, 2);
    assert_eq!(graph[4].aux_port, 7);
    assert_eq!(graph[5].aux_port, 12);
}

#[test]
fn graph_ports_resolve_inside_the_graph() {
    let dim = 7usize;
    for k in 0..dim {
        let basis = vec![gaussian(1.0); k + 1];
        let graph = build_graph(&basis, k, dim);
        let mut cells = Vec::new();
        for agent in &graph {
            assert!((agent.param_index as usize) < basis.len());
            if agent.agent_kind() == Some(AgentKind::MetricScanner) {
                let target = graph[agent.principal_port as usize];
                assert_eq!(target.agent_kind(), Some(AgentKind::StateVector));
                assert_eq!(target.param_index as usize, k);
                assert!((agent.aux_port as usize) < dim * dim);
                assert_eq!(agent.aux_port as usize % dim, k);
                assert!(!cells.contains(&agent.aux_port));
                cells.push(agent.aux_port);
            }
        }
        assert_eq!(cells.len(), k + 1);
    }
}

#[test]
fn graph_of_single_dimension() {
    let basis = vec![gaussian(1.0)];
    let graph = build_graph(&basis, 0, 1);
    assert_eq!(graph, vec![state_vector(0), scanner(0, 0, 1)]);
    assert_eq!(graph[1].aux_port, 0);
}

#[test]
fn graph_at_the_dimension_limit_names_the_last_cell() {
    let k = MAX_DIM - 1;
    let basis = vec![gaussian(1.0); MAX_DIM];
    let graph = build_graph(&basis, k, MAX_DIM);
    assert_eq!(graph.len(), 2 * MAX_DIM);
    let last = graph[graph.len() - 1];
    assert_eq!(last.principal_port, 65535);
    assert_eq!(last.param_index, 65535);
    assert_eq!(last.aux_port, u32::MAX);
    assert_eq!(graph[MAX_DIM].aux_port, 65535);
}
