//! Pinning the calling thread to one core for the length of a scope.
//!
//! A binding attempt is a small state machine. It starts with `bind_core`,
//! which asks the first question of the topology; every reply goes to
//! `BindScope::advance`, which decides what comes next, until the attempt
//! ends in a token or in an error. When the scope of the token ends,
//! `Cleanup::restore` names what has to be undone.

use crate::cpuset::{singlified, singlify};
use crate::plan::CoreIndex;
use crate::topology::{
    cpu_binding_after, is_binding_call, memory_binding_after, requests_view, MemoryPolicy,
    ReplyView, RequestView, TopologyError, TopologyReply, TopologyRequest,
};
use vstd::prelude::*;

verus! {

/// Why a thread could not be bound.
#[derive(Clone, Copy, Debug, PartialEq, Eq, Structural)]
pub enum BindError {
    /// The cores could not be enumerated.
    Topology(TopologyError),
    /// `index` is not below the number of enumerated cores.
    IndexOutOfRange { index: CoreIndex, core_count: usize },
    /// The core at `index` exposes no allowed cpuset.
    NoCpuset { index: CoreIndex },
}

/// Where a binding attempt stands: the reply that it waits for.
#[derive(Clone, Copy, Debug, PartialEq, Eq, Structural)]
pub enum Phase {
    /// Waiting for the number of cores.
    Enumerating,
    /// Waiting for the allowed cpuset of the core.
    ReadingCpuset,
    /// Waiting for the binding that the thread had so far.
    Snapshotting,
    /// Waiting for the thread's CPU binding to be applied.
    BindingCpu,
    /// Waiting for the thread's memory binding to be applied.
    BindingMemory,
}

/// A binding attempt under way.
#[derive(Debug)]
pub struct BindScope {
    tid: u64,
    core: CoreIndex,
    phase: Phase,
    target: Vec<u32>,
    prior: Option<Vec<u32>>,
}

/// A binding attempt as a mathematical value.
pub struct ScopeView {
    /// The thread to bind.
    pub tid: u64,
    /// The core to bind it to.
    pub core: CoreIndex,
    pub phase: Phase,
    /// The single logical processor chosen, once the core's cpuset is known.
    pub target: Seq<u32>,
    /// The binding that the thread had before, once it was read and known.
    pub prior: Option<Seq<u32>>,
}

impl View for BindScope {
    type V = ScopeView;

    closed spec fn view(&self) -> ScopeView {
        ScopeView {
            tid: self.tid,
            core: self.core,
            phase: self.phase,
            target: self.target@,
            prior: match self.prior {
                Some(ids) => Some(ids@),
                None => None,
            },
        }
    }
}

/// The token of a thread that was pinned: what to go back to when the scope
/// ends. It belongs to the thread that it was made for.
#[derive(Debug)]
pub struct Cleanup {
    tid: u64,
    prior_state: Option<Vec<u32>>,
}

/// A token as a mathematical value.
pub struct CleanupView {
    /// The pinned thread.
    pub tid: u64,
    /// The binding that the thread had before it was pinned, if known and
    /// not yet restored.
    pub prior: Option<Seq<u32>>,
}

impl View for Cleanup {
    type V = CleanupView;

    closed spec fn view(&self) -> CleanupView {
        CleanupView {
            tid: self.tid,
            prior: match self.prior_state {
                Some(ids) => Some(ids@),
                None => None,
            },
        }
    }
}

/// What a binding attempt does next.
#[derive(Debug)]
pub enum BindStep {
    /// Carry out the request and hand the reply to `advance` of the scope.
    Ask(BindScope, TopologyRequest),
    /// The attempt is over and the thread holds this token.
    Bound(Cleanup),
    /// The attempt is over and nothing was bound.
    Failed(BindError),
}

/// A step as a mathematical value.
pub enum StepView {
    Ask(ScopeView, RequestView),
    Bound(CleanupView),
    Failed(BindError),
}

impl View for BindStep {
    type V = StepView;

    open spec fn view(&self) -> StepView {
        match *self {
            BindStep::Ask(scope, request) => StepView::Ask(scope@, request@),
            BindStep::Bound(token) => StepView::Bound(token@),
            BindStep::Failed(error) => StepView::Failed(error),
        }
    }
}

/// The core at `index` among the enumerated ones, or why there is none.
pub open spec fn core_by_index(enumerated: Result<usize, TopologyError>, index: CoreIndex) -> Result<
    CoreIndex,
    BindError,
> {
    match enumerated {
        Ok(core_count) => if index@ < core_count {
            Ok(index)
        } else {
            Err(BindError::IndexOutOfRange { index, core_count })
        },
        Err(error) => Err(BindError::Topology(error)),
    }
}

/// The first step of binding thread `tid` to the core at `index`.
pub open spec fn begin(tid: u64, index: CoreIndex) -> StepView {
    StepView::Ask(
        ScopeView { tid, core: index, phase: Phase::Enumerating, target: Seq::empty(), prior: None },
        RequestView::EnumerateCores,
    )
}

/// The step that follows when `scope` hears `reply`.
pub open spec fn next_step(scope: ScopeView, reply: ReplyView) -> StepView {
    match scope.phase {
        Phase::Enumerating => match core_by_index(reply.cores(), scope.core) {
            Ok(core) => StepView::Ask(
                ScopeView { phase: Phase::ReadingCpuset, ..scope },
                RequestView::AllowedCpuset { core },
            ),
            Err(error) => StepView::Failed(error),
        },
        Phase::ReadingCpuset => match reply.cpuset() {
            Some(allowed) => StepView::Ask(
                ScopeView { phase: Phase::Snapshotting, target: singlified(allowed), ..scope },
                RequestView::CurrentBinding { tid: scope.tid },
            ),
            None => StepView::Failed(BindError::NoCpuset { index: scope.core }),
        },
        Phase::Snapshotting => StepView::Ask(
            ScopeView { phase: Phase::BindingCpu, prior: reply.binding(), ..scope },
            RequestView::SetThreadBinding { tid: scope.tid, cpuset: scope.target },
        ),
        Phase::BindingCpu => StepView::Ask(
            ScopeView { phase: Phase::BindingMemory, ..scope },
            RequestView::SetMemoryBinding { cpuset: scope.target, policy: MemoryPolicy::Bind },
        ),
        Phase::BindingMemory => StepView::Bound(CleanupView { tid: scope.tid, prior: scope.prior }),
    }
}

/// What has to be carried out when the scope of `token` ends: the prior
/// binding goes back in place for CPU and memory, and where it is not known
/// nothing is done.
pub open spec fn restore_requests(token: CleanupView) -> Seq<RequestView> {
    match token.prior {
        Some(prior) => seq![
            RequestView::SetThreadBinding { tid: token.tid, cpuset: prior },
            RequestView::SetMemoryBinding { cpuset: prior, policy: MemoryPolicy::Default },
        ],
        None => Seq::empty(),
    }
}

/// The requests that get carried out, in order, and the step reached, when
/// an attempt at `step` is driven on for as long as `replies` lasts: each
/// request is carried out, and its reply decides the next step.
pub open spec fn drive(step: StepView, replies: Seq<ReplyView>) -> (Seq<RequestView>, StepView)
    decreases replies.len(),
{
    match step {
        StepView::Ask(scope, request) if replies.len() > 0 => {
            let (later, end) = drive(next_step(scope, replies[0]), replies.skip(1));
            (seq![request] + later, end)
        },
        _ => (Seq::empty(), step),
    }
}

/// The replies of one whole attempt: the enumeration, the allowed cpuset,
/// the binding so far, and what the two binding calls reported.
pub open spec fn attempt_replies(
    cores: Result<usize, TopologyError>,
    allowed: Option<Seq<u32>>,
    before: Option<Seq<u32>>,
    cpu_applied: ReplyView,
    memory_applied: ReplyView,
) -> Seq<ReplyView> {
    seq![
        ReplyView::Cores(cores),
        ReplyView::Cpuset(allowed),
        ReplyView::Binding(before),
        cpu_applied,
        memory_applied,
    ]
}

/// Picks the core at `index` out of an enumeration of `enumerated` cores.
pub fn get_core_by_index(enumerated: Result<usize, TopologyError>, index: CoreIndex) -> (res: Result<
    CoreIndex,
    BindError,
>)
    ensures
        res == core_by_index(enumerated, index),
{
    let idx = index.index();
    match enumerated {
        Ok(core_count) => if idx < core_count {
            Ok(index)
        } else {
            Err(BindError::IndexOutOfRange { index, core_count })
        },
        Err(error) => Err(BindError::Topology(error)),
    }
}

/// Starts to bind thread `tid` to the core at `core_index`. Nothing is bound
/// yet: the step returned asks for the cores to be enumerated.
pub fn bind_core(core_index: CoreIndex, tid: u64) -> (step: BindStep)
    ensures
        step@ == begin(tid, core_index),
{
    let scope = BindScope {
        tid,
        core: core_index,
        phase: Phase::Enumerating,
        target: Vec::new(),
        prior: None,
    };
    BindStep::Ask(scope, TopologyRequest::EnumerateCores)
}

impl BindScope {
    /// Takes the reply to the request that came with this scope and decides
    /// the next step. A reply of another kind than was asked for counts as
    /// no answer. Whether a binding was applied changes nothing: an attempt
    /// that got as far as binding always ends in a token.
    pub fn advance(self, reply: TopologyReply) -> (step: BindStep)
        ensures
            step@ == next_step(self@, reply@),
    {
        let BindScope { tid, core, phase, target, prior } = self;
        match phase {
            Phase::Enumerating => {
                let enumerated = match reply {
                    TopologyReply::Cores(count) => count,
                    _ => Err(TopologyError),
                };
                match get_core_by_index(enumerated, core) {
                    Ok(found) => BindStep::Ask(
                        BindScope { tid, core, phase: Phase::ReadingCpuset, target, prior },
                        TopologyRequest::AllowedCpuset { core: found },
                    ),
                    Err(error) => BindStep::Failed(error),
                }
            },
            Phase::ReadingCpuset => match reply {
                TopologyReply::Cpuset(Some(allowed)) => {
                    let bind_to = singlify(&allowed);
                    BindStep::Ask(
                        BindScope { tid, core, phase: Phase::Snapshotting, target: bind_to, prior },
                        TopologyRequest::CurrentBinding { tid },
                    )
                },
                _ => BindStep::Failed(BindError::NoCpuset { index: core }),
            },
            Phase::Snapshotting => {
                let before = match reply {
                    TopologyReply::Binding(cpuset) => cpuset,
                    _ => None,
                };
                let cpuset = target.clone();
                BindStep::Ask(
                    BindScope { tid, core, phase: Phase::BindingCpu, target, prior: before },
                    TopologyRequest::SetThreadBinding { tid, cpuset },
                )
            },
            Phase::BindingCpu => {
                let cpuset = target.clone();
                BindStep::Ask(
                    BindScope { tid, core, phase: Phase::BindingMemory, target, prior },
                    TopologyRequest::SetMemoryBinding { cpuset, policy: MemoryPolicy::Bind },
                )
            },
            Phase::BindingMemory => BindStep::Bound(Cleanup { tid, prior_state: prior }),
        }
    }
}

impl Cleanup {
    /// Ends the scope of the token: returns what has to be carried out now,
    /// in order, whatever each call reports. The token forgets the prior
    /// binding, so that it is restored once.
    pub fn restore(&mut self) -> (requests: Vec<TopologyRequest>)
        ensures
            requests_view(requests@) == restore_requests(old(self)@),
            final(self)@ == (CleanupView { tid: old(self)@.tid, prior: None }),
    {
        let mut requests: Vec<TopologyRequest> = Vec::new();
        if let Some(prior) = self.prior_state.take() {
            let cpuset = prior.clone();
            requests.push(TopologyRequest::SetThreadBinding { tid: self.tid, cpuset });
            requests.push(
                TopologyRequest::SetMemoryBinding { cpuset: prior, policy: MemoryPolicy::Default },
            );
        }
        proof {
            assert(requests_view(requests@) =~= restore_requests(old(self)@));
        }
        requests
    }
}

/// One step of driving: the request of the step is carried out and the
/// rest goes on from the step that its reply leads to.
proof fn lemma_drive_step(scope: ScopeView, request: RequestView, first: ReplyView, rest: Seq<ReplyView>)
    ensures
        drive(StepView::Ask(scope, request), seq![first] + rest) == (
            seq![request] + drive(next_step(scope, first), rest).0,
            drive(next_step(scope, first), rest).1,
        ),
{
    let replies = seq![first] + rest;
    assert(replies.skip(1) =~= rest);
    assert(replies[0] == first);
}

/// An attempt that is over asks for nothing more.
proof fn lemma_drive_done(step: StepView, replies: Seq<ReplyView>)
    requires
        !(step is Ask) || replies.len() == 0,
    ensures
        drive(step, replies) == (Seq::<RequestView>::empty(), step),
{
}

/// The course of a whole attempt. The cores are enumerated; an index that is
/// not below their number, or a failed enumeration, ends the attempt there.
/// Else the allowed cpuset of the core is read, and without one the attempt
/// ends. Else the thread's binding so far is read, then the thread and its
/// memory are bound to the first logical processor of the cpuset, and the
/// attempt ends in a token that holds the binding read before, whatever the
/// two binding calls reported.
pub proof fn lemma_bind_attempt(
    tid: u64,
    index: CoreIndex,
    cores: Result<usize, TopologyError>,
    allowed: Option<Seq<u32>>,
    before: Option<Seq<u32>>,
    cpu_applied: ReplyView,
    memory_applied: ReplyView,
)
    ensures
        ({
            let (requests, end) = drive(
                begin(tid, index),
                attempt_replies(cores, allowed, before, cpu_applied, memory_applied),
            );
            match (core_by_index(cores, index), allowed) {
                (Err(error), _) => {
                    &&& requests == seq![RequestView::EnumerateCores]
                    &&& end == StepView::Failed(error)
                },
                (Ok(core), None) => {
                    &&& requests == seq![
                        RequestView::EnumerateCores,
                        RequestView::AllowedCpuset { core: index },
                    ]
                    &&& end == StepView::Failed(BindError::NoCpuset { index })
                },
                (Ok(core), Some(cpuset)) => {
                    &&& requests == seq![
                        RequestView::EnumerateCores,
                        RequestView::AllowedCpuset { core: index },
                        RequestView::CurrentBinding { tid },
                        RequestView::SetThreadBinding { tid, cpuset: singlified(cpuset) },
                        RequestView::SetMemoryBinding {
                            cpuset: singlified(cpuset),
                            policy: MemoryPolicy::Bind,
                        },
                    ]
                    &&& end == StepView::Bound(CleanupView { tid, prior: before })
                },
            }
        }),
{
    let r1 = ReplyView::Cores(cores);
    let r2 = ReplyView::Cpuset(allowed);
    let r3 = ReplyView::Binding(before);
    let t1 = seq![r2, r3, cpu_applied, memory_applied];
    let t2 = seq![r3, cpu_applied, memory_applied];
    let t3 = seq![cpu_applied, memory_applied];
    let t4 = seq![memory_applied];
    let t5 = Seq::<ReplyView>::empty();
    assert(attempt_replies(cores, allowed, before, cpu_applied, memory_applied) =~= seq![r1] + t1);
    assert(t1 =~= seq![r2] + t2);
    assert(t2 =~= seq![r3] + t3);
    assert(t3 =~= seq![cpu_applied] + t4);
    assert(t4 =~= seq![memory_applied] + t5);
    let s0 = ScopeView {
        tid,
        core: index,
        phase: Phase::Enumerating,
        target: Seq::empty(),
        prior: None,
    };
    lemma_drive_step(s0, RequestView::EnumerateCores, r1, t1);
    let step1 = next_step(s0, r1);
    match step1 {
        StepView::Ask(s1, q1) => {
            lemma_drive_step(s1, q1, r2, t2);
            let step2 = next_step(s1, r2);
            match step2 {
                StepView::Ask(s2, q2) => {
                    lemma_drive_step(s2, q2, r3, t3);
                    let step3 = next_step(s2, r3);
                    let s3 = step3->Ask_0;
                    let q3 = step3->Ask_1;
                    lemma_drive_step(s3, q3, cpu_applied, t4);
                    let step4 = next_step(s3, cpu_applied);
                    let s4 = step4->Ask_0;
                    let q4 = step4->Ask_1;
                    lemma_drive_step(s4, q4, memory_applied, t5);
                    let step5 = next_step(s4, memory_applied);
                    lemma_drive_done(step5, t5);
                    let requests = drive(begin(tid, index), seq![r1] + t1).0;
                    assert(requests =~= seq![RequestView::EnumerateCores, q1, q2, q3, q4]);
                },
                _ => {
                    lemma_drive_done(step2, t2);
                    let requests = drive(begin(tid, index), seq![r1] + t1).0;
                    assert(requests =~= seq![RequestView::EnumerateCores, q1]);
                },
            }
        },
        _ => {
            lemma_drive_done(step1, t1);
            let requests = drive(begin(tid, index), seq![r1] + t1).0;
            assert(requests =~= seq![RequestView::EnumerateCores]);
        },
    }
}

/// An index that is not below the number of enumerated cores always fails
/// as out of range, and nothing is bound on the way: the enumeration is the
/// only request made, whatever replies might follow.
pub proof fn lemma_out_of_range_binds_nothing(
    tid: u64,
    index: CoreIndex,
    core_count: usize,
    later: Seq<ReplyView>,
)
    requires
        index@ >= core_count,
    ensures
        ({
            let (requests, end) = drive(
                begin(tid, index),
                seq![ReplyView::Cores(Ok(core_count))] + later,
            );
            &&& end == StepView::Failed(BindError::IndexOutOfRange { index, core_count })
            &&& requests == seq![RequestView::EnumerateCores]
            &&& forall|i: int| 0 <= i < requests.len() ==> !is_binding_call(requests[i])
        }),
{
    let s0 = ScopeView {
        tid,
        core: index,
        phase: Phase::Enumerating,
        target: Seq::empty(),
        prior: None,
    };
    let first = ReplyView::Cores(Ok(core_count));
    lemma_drive_step(s0, RequestView::EnumerateCores, first, later);
    lemma_drive_done(next_step(s0, first), later);
    let requests = drive(begin(tid, index), seq![first] + later).0;
    assert(requests =~= seq![RequestView::EnumerateCores]);
}

/// Ending the scope of a successful binding puts the thread back where it
/// was. If the thread was bound to `before` and the topology reported so,
/// then with every request carried out the thread is bound to the first
/// allowed logical processor while the scope lasts, and to `before` again
/// once the requests of `restore_requests` are done; its memory is then
/// placed on `before` by the default policy.
pub proof fn lemma_scope_end_restores_binding(
    tid: u64,
    index: CoreIndex,
    core_count: usize,
    allowed: Seq<u32>,
    before: Seq<u32>,
    memory_before: (Seq<u32>, MemoryPolicy),
    cpu_applied: ReplyView,
    memory_applied: ReplyView,
)
    requires
        index@ < core_count,
    ensures
        ({
            let (requests, end) = drive(
                begin(tid, index),
                attempt_replies(
                    Ok(core_count),
                    Some(allowed),
                    Some(before),
                    cpu_applied,
                    memory_applied,
                ),
            );
            &&& end matches StepView::Bound(token)
            &&& token == (CleanupView { tid, prior: Some(before) })
            &&& cpu_binding_after(before, requests, tid) == singlified(allowed)
            &&& memory_binding_after(memory_before, requests) == (
                singlified(allowed),
                MemoryPolicy::Bind,
            )
            &&& cpu_binding_after(before, requests + restore_requests(token), tid) == before
            &&& memory_binding_after(memory_before, requests + restore_requests(token)) == (
                before,
                MemoryPolicy::Default,
            )
        }),
{
    lemma_bind_attempt(tid, index, Ok(core_count), Some(allowed), Some(before), cpu_applied, memory_applied);
    let requests = drive(
        begin(tid, index),
        attempt_replies(Ok(core_count), Some(allowed), Some(before), cpu_applied, memory_applied),
    ).0;
    let token = CleanupView { tid, prior: Some(before) };
    let undo = restore_requests(token);
    let all = requests + undo;
    assert(requests.drop_last().last() == RequestView::SetThreadBinding {
        tid,
        cpuset: singlified(allowed),
    });
    assert(cpu_binding_after(before, requests, tid) == singlified(allowed)) by {
        reveal_with_fuel(cpu_binding_after, 3);
    }
    assert(memory_binding_after(memory_before, requests) == (singlified(allowed), MemoryPolicy::Bind));
    assert(all.last() == undo[1]);
    assert(all.drop_last().last() == undo[0]);
    assert(cpu_binding_after(before, all, tid) == before) by {
        reveal_with_fuel(cpu_binding_after, 3);
    }
}

/// Without a snapshot nothing is restored. If the binding so far could not
/// be read, the attempt still ends in a token, and the end of its scope asks
/// for no call at all: the thread stays bound as the attempt left it.
pub proof fn lemma_unknown_prior_restores_nothing(
    tid: u64,
    index: CoreIndex,
    core_count: usize,
    allowed: Seq<u32>,
    cpu_applied: ReplyView,
    memory_applied: ReplyView,
)
    requires
        index@ < core_count,
    ensures
        ({
            let (requests, end) = drive(
                begin(tid, index),
                attempt_replies(Ok(core_count), Some(allowed), None, cpu_applied, memory_applied),
            );
            &&& end matches StepView::Bound(token)
            &&& restore_requests(token).len() == 0
            &&& requests + restore_requests(token) == requests
        }),
{
    lemma_bind_attempt(tid, index, Ok(core_count), Some(allowed), None, cpu_applied, memory_applied);
    let requests = drive(
        begin(tid, index),
        attempt_replies(Ok(core_count), Some(allowed), None, cpu_applied, memory_applied),
    ).0;
    assert(requests + Seq::<RequestView>::empty() =~= requests);
}

} // verus!
