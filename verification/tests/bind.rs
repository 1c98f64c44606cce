use cores::{
    bind_core, checkout_core_group, core_groups, get_core_by_index, BindError, BindStep, Cleanup,
    CoreIndex, MemoryPolicy, TopologyError, TopologyReply, TopologyRequest,
};

/// Core `number` of the DELL7525 plan; numbers of reserved blocks are not in it.
fn core_at(number: usize) -> CoreIndex {
    let mut pool = core_groups(String::from("DELL7525")).expect("a pool is always built");
    while let Some(guard) = checkout_core_group(&mut pool) {
        if let Some(found) = guard.iter().find(|core| core.index() == number) {
            return *found;
        }
    }
    panic!("core {} is in no group", number)
}

/// A stand-in for the machine: it answers each request and keeps what the
/// binding calls set.
struct Machine {
    cores: Result<Vec<Option<Vec<u32>>>, TopologyError>,
    cpu_binding: Option<Vec<u32>>,
    memory_binding: Option<(Vec<u32>, MemoryPolicy)>,
    refuse_cpu_binding: bool,
    refuse_memory_binding: bool,
    seen: Vec<TopologyRequest>,
}

impl Machine {
    fn with_cores(cores: Vec<Option<Vec<u32>>>) -> Machine {
        Machine {
            cores: Ok(cores),
            cpu_binding: Some(vec![0, 1, 2, 3, 4, 5, 6, 7]),
            memory_binding: None,
            refuse_cpu_binding: false,
            refuse_memory_binding: false,
            seen: Vec::new(),
        }
    }

    fn smt(core_count: u32) -> Machine {
        Machine::with_cores((0..core_count).map(|c| Some(vec![2 * c, 2 * c + 1])).collect())
    }

    fn answer(&mut self, request: TopologyRequest) -> TopologyReply {
        let reply = match &request {
            TopologyRequest::EnumerateCores => {
                TopologyReply::Cores(self.cores.as_ref().map(|cores| cores.len()).map_err(|e| *e))
            }
            TopologyRequest::AllowedCpuset { core } => TopologyReply::Cpuset(
                self.cores.as_ref().expect("cores were enumerated")[core.index()].clone(),
            ),
            TopologyRequest::CurrentBinding { .. } => TopologyReply::Binding(self.cpu_binding.clone()),
            TopologyRequest::SetThreadBinding { cpuset, .. } => {
                if self.refuse_cpu_binding {
                    TopologyReply::Applied(Err(TopologyError))
                } else {
                    self.cpu_binding = Some(cpuset.clone());
                    TopologyReply::Applied(Ok(()))
                }
            }
            TopologyRequest::SetMemoryBinding { cpuset, policy } => {
                if self.refuse_memory_binding {
                    TopologyReply::Applied(Err(TopologyError))
                } else {
                    self.memory_binding = Some((cpuset.clone(), *policy));
                    TopologyReply::Applied(Ok(()))
                }
            }
        };
        self.seen.push(request);
        reply
    }

    fn bind(&mut self, index: CoreIndex, tid: u64) -> Result<Cleanup, BindError> {
        let mut step = bind_core(index, tid);
        loop {
            match step {
                BindStep::Ask(scope, request) => step = scope.advance(self.answer(request)),
                BindStep::Bound(token) => return Ok(token),
                BindStep::Failed(error) => return Err(error),
            }
        }
    }

    fn end_scope(&mut self, mut token: Cleanup) {
        for request in token.restore() {
            self.answer(request);
        }
        assert_eq!(token.restore(), Vec::new());
    }
}

#[test]
fn bind_core_starts_by_enumerating_cores() {
    match bind_core(core_at(5), 7) {
        BindStep::Ask(_, request) => assert_eq!(request, TopologyRequest::EnumerateCores),
        other => panic!("unexpected first step: {:?}", other),
    }
}

#[test]
fn a_binding_attempt_asks_in_order() {
    let mut machine = Machine::smt(8);
    let token = machine.bind(core_at(5), 7).expect("core 5 of 8 can be bound");
    assert_eq!(
        machine.seen,
        vec![
            TopologyRequest::EnumerateCores,
            TopologyRequest::AllowedCpuset { core: core_at(5) },
            TopologyRequest::CurrentBinding { tid: 7 },
            TopologyRequest::SetThreadBinding { tid: 7, cpuset: vec![10] },
            TopologyRequest::SetMemoryBinding { cpuset: vec![10], policy: MemoryPolicy::Bind },
        ]
    );
    assert_eq!(machine.cpu_binding, Some(vec![10]));
    assert_eq!(machine.memory_binding, Some((vec![10], MemoryPolicy::Bind)));
    drop(token);
}

#[test]
fn ending_the_scope_restores_the_prior_binding() {
    let mut machine = Machine::smt(8);
    let before = machine.cpu_binding.clone();
    assert_eq!(before, Some(vec![0, 1, 2, 3, 4, 5, 6, 7]));
    let token = machine.bind(core_at(2), 41).expect("core 2 of 8 can be bound");
    assert_eq!(machine.cpu_binding, Some(vec![4]));
    machine.seen.clear();
    machine.end_scope(token);
    assert_eq!(machine.cpu_binding, before);
    assert_eq!(
        machine.memory_binding,
        Some((vec![0, 1, 2, 3, 4, 5, 6, 7], MemoryPolicy::Default))
    );
    assert_eq!(
        machine.seen,
        vec![
            TopologyRequest::SetThreadBinding { tid: 41, cpuset: vec![0, 1, 2, 3, 4, 5, 6, 7] },
            TopologyRequest::SetMemoryBinding {
                cpuset: vec![0, 1, 2, 3, 4, 5, 6, 7],
                policy: MemoryPolicy::Default,
            },
        ]
    );
}

#[test]
fn restore_runs_once() {
    let mut machine = Machine::smt(4);
    let mut token = machine.bind(core_at(0), 1).expect("core 0 of 4 can be bound");
    assert_eq!(token.restore().len(), 2);
    assert_eq!(token.restore(), Vec::new());
    assert_eq!(token.restore(), Vec::new());
}

#[test]
fn an_unknown_prior_binding_is_not_restored() {
    let mut machine = Machine::smt(8);
    machine.cpu_binding = None;
    let mut token = machine.bind(core_at(3), 9).expect("core 3 of 8 can be bound");
    assert_eq!(machine.cpu_binding, Some(vec![6]));
    machine.seen.clear();
    assert_eq!(token.restore(), Vec::new());
    machine.end_scope(token);
    assert!(machine.seen.is_empty());
    assert_eq!(machine.cpu_binding, Some(vec![6]));
    assert_eq!(machine.memory_binding, Some((vec![6], MemoryPolicy::Bind)));
}

#[test]
fn an_index_at_or_above_the_core_count_is_out_of_range() {
    for (number, core_count) in [(3, 3), (3, 2), (127, 4), (5, 0)] {
        let mut machine = Machine::smt(core_count);
        let before = machine.cpu_binding.clone();
        let index = core_at(number);
        assert_eq!(
            machine.bind(index, 7).err(),
            Some(BindError::IndexOutOfRange { index, core_count: core_count as usize })
        );
        assert_eq!(machine.seen, vec![TopologyRequest::EnumerateCores]);
        assert_eq!(machine.cpu_binding, before);
        assert_eq!(machine.memory_binding, None);
    }
}

#[test]
fn the_last_core_is_in_range() {
    let mut machine = Machine::smt(4);
    assert!(machine.bind(core_at(3), 7).is_ok());
    assert_eq!(machine.cpu_binding, Some(vec![6]));
}

#[test]
fn a_failed_enumeration_is_a_topology_error() {
    let mut machine = Machine::smt(4);
    machine.cores = Err(TopologyError);
    assert_eq!(machine.bind(core_at(0), 7).err(), Some(BindError::Topology(TopologyError)));
    assert_eq!(machine.seen, vec![TopologyRequest::EnumerateCores]);
    assert_eq!(machine.cpu_binding, Some(vec![0, 1, 2, 3, 4, 5, 6, 7]));
}

#[test]
fn a_core_without_cpuset_cannot_be_bound() {
    let mut machine = Machine::with_cores(vec![Some(vec![0]), None, Some(vec![2])]);
    let index = core_at(1);
    assert_eq!(machine.bind(index, 7).err(), Some(BindError::NoCpuset { index }));
    assert_eq!(
        machine.seen,
        vec![TopologyRequest::EnumerateCores, TopologyRequest::AllowedCpuset { core: index }]
    );
    assert_eq!(machine.cpu_binding, Some(vec![0, 1, 2, 3, 4, 5, 6, 7]));
    assert_eq!(machine.memory_binding, None);
}

#[test]
fn the_first_logical_processor_is_chosen() {
    let mut machine = Machine::with_cores(vec![Some(vec![12, 4, 8])]);
    machine.bind(core_at(0), 7).expect("core 0 can be bound");
    assert_eq!(machine.cpu_binding, Some(vec![4]));
    assert_eq!(machine.memory_binding, Some((vec![4], MemoryPolicy::Bind)));
}

#[test]
fn an_empty_cpuset_stays_empty() {
    let mut machine = Machine::with_cores(vec![Some(Vec::new())]);
    machine.bind(core_at(0), 7).expect("an empty cpuset is still a cpuset");
    assert_eq!(machine.cpu_binding, Some(Vec::new()));
}

#[test]
fn a_refused_cpu_binding_still_yields_a_token() {
    let mut machine = Machine::smt(8);
    machine.refuse_cpu_binding = true;
    let token = machine.bind(core_at(1), 7).expect("a refused binding is no error");
    assert_eq!(machine.seen.len(), 5);
    assert_eq!(
        machine.seen[4],
        TopologyRequest::SetMemoryBinding { cpuset: vec![2], policy: MemoryPolicy::Bind }
    );
    assert_eq!(machine.cpu_binding, Some(vec![0, 1, 2, 3, 4, 5, 6, 7]));
    assert_eq!(machine.memory_binding, Some((vec![2], MemoryPolicy::Bind)));
    machine.seen.clear();
    machine.end_scope(token);
    assert_eq!(machine.seen.len(), 2);
}

#[test]
fn a_refused_memory_binding_still_yields_a_token() {
    let mut machine = Machine::smt(8);
    machine.refuse_memory_binding = true;
    let mut token = machine.bind(core_at(1), 7).expect("a refused binding is no error");
    assert_eq!(machine.cpu_binding, Some(vec![2]));
    assert_eq!(machine.memory_binding, None);
    assert_eq!(token.restore().len(), 2);
}

#[test]
fn a_reply_of_another_kind_is_no_answer() {
    let first = match bind_core(core_at(0), 7) {
        BindStep::Ask(scope, _) => scope.advance(TopologyReply::Binding(Some(vec![1]))),
        other => panic!("unexpected first step: {:?}", other),
    };
    match first {
        BindStep::Failed(error) => assert_eq!(error, BindError::Topology(TopologyError)),
        other => panic!("unexpected step: {:?}", other),
    }

    let second = match bind_core(core_at(0), 7) {
        BindStep::Ask(scope, _) => match scope.advance(TopologyReply::Cores(Ok(1))) {
            BindStep::Ask(scope, _) => scope.advance(TopologyReply::Cores(Ok(1))),
            other => panic!("unexpected second step: {:?}", other),
        },
        other => panic!("unexpected first step: {:?}", other),
    };
    match second {
        BindStep::Failed(error) => assert_eq!(error, BindError::NoCpuset { index: core_at(0) }),
        other => panic!("unexpected step: {:?}", other),
    }
}

#[test]
fn a_snapshot_of_another_kind_is_unknown() {
    let mut step = bind_core(core_at(0), 7);
    let replies = vec![
        TopologyReply::Cores(Ok(1)),
        TopologyReply::Cpuset(Some(vec![3])),
        TopologyReply::Applied(Ok(())),
        TopologyReply::Applied(Ok(())),
        TopologyReply::Applied(Ok(())),
    ];
    for reply in replies {
        step = match step {
            BindStep::Ask(scope, _) => scope.advance(reply),
            other => panic!("the attempt ended early: {:?}", other),
        };
    }
    match step {
        BindStep::Bound(mut token) => assert_eq!(token.restore(), Vec::new()),
        other => panic!("unexpected last step: {:?}", other),
    }
}

#[test]
fn get_core_by_index_checks_the_range() {
    let index = core_at(2);
    assert_eq!(get_core_by_index(Ok(3), index), Ok(index));
    assert_eq!(
        get_core_by_index(Ok(2), index),
        Err(BindError::IndexOutOfRange { index, core_count: 2 })
    );
    assert_eq!(
        get_core_by_index(Ok(0), index),
        Err(BindError::IndexOutOfRange { index, core_count: 0 })
    );
    assert_eq!(get_core_by_index(Err(TopologyError), index), Err(BindError::Topology(TopologyError)));
}
