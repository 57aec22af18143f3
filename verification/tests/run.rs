use delta_sirk::{
    Action, Event, Orchestrator, Phase, SirkError, SymbolicParams, FALLBACK_STEP_BITS, GAUSSIAN,
    MAX_DIM,
};

fn unit_gaussian() -> SymbolicParams {
    SymbolicParams {
        type_id: GAUSSIAN,
        alpha: 1.0f32.to_bits(),
        x0: 0.0f32.to_bits(),
        k0: 0.0f32.to_bits(),
        amp_real: 1.0f32.to_bits(),
        amp_imag: 0.0f32.to_bits(),
    }
}

fn bits(values: &[f32]) -> Vec<u32> {
    values.iter().map(|v| v.to_bits()).collect()
}

/// The host's resolvent step: a fixed rescaling that keeps the width positive.
fn advance(prev: SymbolicParams, shift: u32) -> SymbolicParams {
    let shift = f32::from_bits(shift);
    SymbolicParams {
        alpha: (f32::from_bits(prev.alpha) * 1.1).to_bits(),
        amp_real: (f32::from_bits(prev.amp_real) * 0.9).to_bits(),
        amp_imag: (f32::from_bits(prev.amp_imag) + 0.1 * shift).to_bits(),
        ..prev
    }
}

fn words_of(bytes: &[u8]) -> Vec<u32> {
    assert_eq!(bytes.len() % 4, 0);
    bytes.chunks(4).map(|c| u32::from_ne_bytes([c[0], c[1], c[2], c[3]])).collect()
}

fn bytes_of(words: &[u32]) -> Vec<u8> {
    words.iter().flat_map(|w| w.to_ne_bytes()).collect()
}

/// Some inner product of two records: any fixed function of the two will do.
fn overlap(a: &[u32], b: &[u32]) -> (u32, u32) {
    let re = f32::from_bits(a[1]) * f32::from_bits(b[1]) + f32::from_bits(a[4]);
    let im = f32::from_bits(a[5]) - f32::from_bits(b[5]);
    (re.to_bits(), im.to_bits())
}

/// A device that evaluates the uploaded buffers as the agent semantics say.
struct Device {
    lanes: Vec<u32>,
    dispatches: Vec<(usize, u32)>,
}

impl Device {
    fn new(size: u64) -> Device {
        Device { lanes: vec![0; size as usize / 4], dispatches: Vec::new() }
    }

    fn dispatch(&mut self, params: &[u8], agents: &[u8], workgroups: u32) {
        let params = words_of(params);
        let agents = words_of(agents);
        assert_eq!(params.len() % 8, 0);
        assert_eq!(agents.len() % 8, 0);
        let n_agents = agents.len() / 8;
        assert!(workgroups as usize * 64 >= n_agents);
        assert!((workgroups as usize) * 64 < n_agents + 64);
        self.dispatches.push((n_agents, workgroups));
        for idx in 0..n_agents {
            let agent = &agents[8 * idx..8 * idx + 8];
            assert_eq!(&agent[5..8], &[0, 0, 0]);
            if agent[0] != 2 {
                continue;
            }
            let target = &agents[8 * agent[1] as usize..8 * agent[1] as usize + 8];
            assert_eq!(target[0], 3);
            let own = &params[8 * agent[3] as usize..8 * agent[3] as usize + 8];
            let other = &params[8 * target[3] as usize..8 * target[3] as usize + 8];
            let (re, im) = overlap(own, other);
            let cell = agent[2] as usize;
            self.lanes[2 * cell] = re;
            self.lanes[2 * cell + 1] = im;
        }
    }
}

struct Run {
    matrix: Vec<u32>,
    step: Option<(u32, u32)>,
    basis: Vec<SymbolicParams>,
    advances: Vec<(SymbolicParams, u32)>,
    dispatches: Vec<(usize, u32)>,
    snapshots: Vec<Vec<u32>>,
}

fn run(initial: SymbolicParams, shifts: Vec<u32>) -> Result<Run, SirkError> {
    let mut orch = Orchestrator::new(initial, shifts)?;
    let mut device = Device::new(orch.output_bytes());
    let mut basis = vec![initial];
    let mut advances = Vec::new();
    let mut snapshots = Vec::new();
    let mut event = Event::Start;
    loop {
        let (next, answer) = orch.step(event);
        orch = next;
        event = match answer? {
            Action::Advance { prev, shift } => {
                advances.push((prev, shift));
                let vector = advance(prev, shift);
                basis.push(vector);
                Event::Advanced(vector)
            }
            Action::Dispatch { params, agents, workgroups } => {
                assert_eq!(params.len(), 32 * orch.basis_len());
                device.dispatch(&params, &agents, workgroups);
                snapshots.push(device.lanes.clone());
                Event::Dispatched
            }
            Action::Readback { size } => {
                assert_eq!(size, orch.output_bytes());
                assert_eq!(orch.phase(), Phase::Reading);
                assert_eq!(orch.basis_len(), orch.dim());
                Event::Readback(bytes_of(&device.lanes))
            }
            Action::Finish { matrix, step } => {
                assert_eq!(orch.phase(), Phase::Finished);
                assert_eq!(orch.basis_len(), basis.len());
                return Ok(Run {
                    matrix,
                    step,
                    basis,
                    advances,
                    dispatches: device.dispatches,
                    snapshots,
                });
            }
        };
    }
}

fn started(m: usize) -> Orchestrator {
    let orch = Orchestrator::new(unit_gaussian(), vec![0; m]).unwrap();
    let (orch, answer) = orch.step(Event::Start);
    assert!(matches!(answer, Ok(Action::Dispatch { .. })));
    orch
}

#[test]
fn test_overlap() {
    let out = run(unit_gaussian(), bits(&[10.0, 9.0])).unwrap();
    assert_eq!(out.matrix.len(), 2 * 2 * 2);
    let (first, second) = out.step.unwrap();
    let h = f32::from_bits(first) - f32::from_bits(second);
    assert_eq!(h, 1.0);
    let spectral_error = 2.0 * 11.08 * (-h * 2.0).exp();
    assert!((spectral_error - 3.0).abs() < 0.01);
}

#[test]
fn two_shift_run_fills_the_upper_triangle() {
    let out = run(unit_gaussian(), bits(&[10.0, 9.0])).unwrap();
    let v0 = unit_gaussian();
    let v1 = advance(v0, 10.0f32.to_bits());
    assert_eq!(out.basis, vec![v0, v1]);
    assert_eq!(f32::from_bits(v1.alpha), 1.1);
    assert_eq!(f32::from_bits(v1.amp_real), 0.9);
    assert_eq!(f32::from_bits(v1.amp_imag), 1.0);
    let cell = |row: usize, col: usize| (out.matrix[2 * (row * 2 + col)], out.matrix[2 * (row * 2 + col) + 1]);
    assert_eq!(cell(0, 0), (2.0f32.to_bits(), 0.0f32.to_bits()));
    assert_eq!(cell(0, 1), ((1.0f32 * 1.1 + 1.0).to_bits(), (-1.0f32).to_bits()));
    assert_eq!(cell(1, 1), ((1.1f32 * 1.1 + 0.9).to_bits(), 0.0f32.to_bits()));
    assert_eq!(cell(1, 0), (0, 0));
}

#[test]
fn single_shift_run() {
    let out = run(unit_gaussian(), bits(&[10.0])).unwrap();
    assert_eq!(out.matrix.len(), 2);
    assert_eq!(out.basis.len(), 1);
    assert!(out.advances.is_empty());
    assert_eq!(out.dispatches, vec![(2, 1)]);
    assert_eq!(out.step, None);
    assert_eq!(f32::from_bits(FALLBACK_STEP_BITS), 1.0);
}

#[test]
fn empty_shift_sequence_is_degenerate() {
    assert!(matches!(Orchestrator::new(unit_gaussian(), Vec::new()), Err(SirkError::DegenerateInput)));
    assert!(matches!(run(unit_gaussian(), Vec::new()), Err(SirkError::DegenerateInput)));
}

#[test]
fn oversized_shift_sequence_is_refused() {
    let shifts = vec![0u32; MAX_DIM + 1];
    assert!(matches!(Orchestrator::new(unit_gaussian(), shifts), Err(SirkError::ContractViolation)));
    assert!(Orchestrator::new(unit_gaussian(), vec![0u32; MAX_DIM]).is_ok());
}

#[test]
fn fresh_run_is_idle_with_one_vector() {
    let orch = Orchestrator::new(unit_gaussian(), bits(&[3.0, 2.0, 1.0])).unwrap();
    assert_eq!(orch.phase(), Phase::Idle);
    assert_eq!(orch.dim(), 3);
    assert_eq!(orch.basis_len(), 1);
    assert_eq!(orch.output_bytes(), 72);
}

#[test]
fn matrix_has_m_squared_entries() {
    for m in 1..=6usize {
        let shifts: Vec<u32> = (0..m).map(|i| (10.0 - i as f32).to_bits()).collect();
        let out = run(unit_gaussian(), shifts).unwrap();
        assert_eq!(out.matrix.len(), 2 * m * m);
    }
}

#[test]
fn basis_has_m_elements() {
    for m in 1..=6usize {
        let shifts: Vec<u32> = (0..m).map(|i| (10.0 - i as f32).to_bits()).collect();
        let out = run(unit_gaussian(), shifts).unwrap();
        assert_eq!(out.basis.len(), m);
        assert_eq!(out.advances.len(), m - 1);
        assert_eq!(out.dispatches.len(), m);
    }
}

#[test]
fn each_step_takes_the_previous_shift_and_the_newest_vector() {
    let shifts = bits(&[10.0, 9.0, 8.0, 7.0]);
    let out = run(unit_gaussian(), shifts.clone()).unwrap();
    assert_eq!(out.advances.len(), 3);
    for (j, (prev, shift)) in out.advances.iter().enumerate() {
        assert_eq!(*shift, shifts[j]);
        assert_eq!(*prev, out.basis[j]);
    }
}

#[test]
fn each_dispatch_covers_its_graph() {
    let out = run(unit_gaussian(), bits(&[1.0; 40])).unwrap();
    for (k, (n_agents, workgroups)) in out.dispatches.iter().enumerate() {
        assert_eq!(*n_agents, 2 * (k + 1));
        assert_eq!(*workgroups as usize, (2 * (k + 1) + 63) / 64);
    }
    assert_eq!(out.dispatches[31], (64, 1));
    assert_eq!(out.dispatches[32], (66, 2));
}

#[test]
fn a_dispatch_writes_its_own_column_only() {
    let m = 5usize;
    let out = run(unit_gaussian(), bits(&[5.0, 4.0, 3.0, 2.0, 1.0])).unwrap();
    let mut before = vec![0u32; 2 * m * m];
    for (k, after) in out.snapshots.iter().enumerate() {
        for row in 0..m {
            for col in 0..m {
                let at = 2 * (row * m + col);
                if col != k || row > k {
                    assert_eq!(after[at..at + 2], before[at..at + 2]);
                }
            }
        }
        before = after.clone();
    }
    assert_eq!(out.matrix, before);
}

#[test]
fn shorter_run_reproduces_the_leading_columns() {
    let shifts = bits(&[10.0, 9.0, 8.0, 7.0, 6.0]);
    let long = run(unit_gaussian(), shifts.clone()).unwrap();
    for n in 1..=5usize {
        let short = run(unit_gaussian(), shifts[..n].to_vec()).unwrap();
        assert_eq!(short.basis, long.basis[..n]);
        for row in 0..n {
            for col in 0..n {
                let here = 2 * (row * n + col);
                let there = 2 * (row * 5 + col);
                assert_eq!(short.matrix[here..here + 2], long.matrix[there..there + 2]);
            }
        }
    }
}

#[test]
fn equal_inputs_give_equal_runs() {
    let a = run(unit_gaussian(), bits(&[10.0, 9.0, 8.0])).unwrap();
    let b = run(unit_gaussian(), bits(&[10.0, 9.0, 8.0])).unwrap();
    assert_eq!(a.matrix, b.matrix);
    assert_eq!(a.basis, b.basis);
    assert_eq!(a.step, b.step);
}

#[test]
fn device_failure_ends_the_run() {
    let orch = started(3);
    let (orch, answer) = orch.step(Event::DeviceFailed);
    assert_eq!(answer, Err(SirkError::Device));
    assert_eq!(orch.phase(), Phase::Aborted);
    let (orch, answer) = orch.step(Event::Dispatched);
    assert_eq!(answer, Err(SirkError::OutOfOrder));
    assert_eq!(orch.phase(), Phase::Aborted);
}

#[test]
fn missing_device_is_a_setup_failure() {
    let orch = Orchestrator::new(unit_gaussian(), bits(&[1.0])).unwrap();
    let (orch, answer) = orch.step(Event::DeviceUnavailable);
    assert_eq!(answer, Err(SirkError::Setup));
    assert_eq!(orch.phase(), Phase::Aborted);
    let (_, answer) = orch.step(Event::Start);
    assert_eq!(answer, Err(SirkError::OutOfOrder));
}

#[test]
fn unexpected_event_ends_the_run() {
    let orch = Orchestrator::new(unit_gaussian(), bits(&[1.0, 2.0])).unwrap();
    let (orch, answer) = orch.step(Event::Dispatched);
    assert_eq!(answer, Err(SirkError::OutOfOrder));
    assert_eq!(orch.phase(), Phase::Aborted);

    let orch = started(2);
    let (orch, answer) = orch.step(Event::Advanced(unit_gaussian()));
    assert_eq!(answer, Err(SirkError::OutOfOrder));
    assert_eq!(orch.phase(), Phase::Aborted);

    let orch = started(2);
    let (orch, answer) = orch.step(Event::Dispatched);
    assert!(matches!(answer, Ok(Action::Advance { .. })));
    assert_eq!(orch.phase(), Phase::Advancing);
    let (orch, answer) = orch.step(Event::Readback(vec![0; 32]));
    assert_eq!(answer, Err(SirkError::OutOfOrder));
    assert_eq!(orch.phase(), Phase::Aborted);

    let orch = started(2);
    let (_, answer) = orch.step(Event::DeviceUnavailable);
    assert_eq!(answer, Err(SirkError::OutOfOrder));
}

#[test]
fn readback_of_the_wrong_size_is_a_device_failure() {
    let orch = started(1);
    let (orch, answer) = orch.step(Event::Dispatched);
    assert_eq!(answer, Ok(Action::Readback { size: 8 }));
    let (orch, answer) = orch.step(Event::Readback(vec![0; 7]));
    assert_eq!(answer, Err(SirkError::Device));
    assert_eq!(orch.phase(), Phase::Aborted);
}

#[test]
fn finished_run_takes_no_more_events() {
    let orch = started(1);
    let (orch, _) = orch.step(Event::Dispatched);
    let (orch, answer) = orch.step(Event::Readback(bytes_of(&[7, 9])));
    assert_eq!(answer, Ok(Action::Finish { matrix: vec![7, 9], step: None }));
    assert_eq!(orch.phase(), Phase::Finished);
    let (orch, answer) = orch.step(Event::Start);
    assert_eq!(answer, Err(SirkError::OutOfOrder));
    assert_eq!(orch.phase(), Phase::Finished);
}

#[test]
fn first_dispatch_carries_the_initial_vector() {
    let orch = Orchestrator::new(unit_gaussian(), bits(&[10.0, 9.0])).unwrap();
    let (_, answer) = orch.step(Event::Start);
    match answer {
        Ok(Action::Dispatch { params, agents, workgroups }) => {
            assert_eq!(words_of(&params), vec![0, 0x3F80_0000, 0, 0, 0x3F80_0000, 0, 0, 0]);
            assert_eq!(
                words_of(&agents),
                vec![3, 0, 0, 0, 0, 0, 0, 0, 2, 0, 0, 0, 0, 0, 0, 0]
            );
            assert_eq!(workgroups, 1);
        }
        other => panic!("unexpected answer {:?}", other),
    }
}
