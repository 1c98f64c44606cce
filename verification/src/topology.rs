//! What the binding protocol asks of the hardware topology, and what it
//! hears back. The topology itself stays outside: whoever drives the protocol
//! carries each request out and hands over the reply.

use crate::plan::CoreIndex;
use vstd::prelude::*;

verus! {

/// The topology could not answer a query.
#[derive(Clone, Copy, Debug, PartialEq, Eq, Structural)]
pub struct TopologyError;

/// How memory is placed for a thread.
#[derive(Clone, Copy, Debug, PartialEq, Eq, Structural)]
pub enum MemoryPolicy {
    /// The system's own placement.
    Default,
    /// Allocate on the nodes of the given set.
    Bind,
}

/// One operation of the topology. A cpuset is the list of the identifiers of
/// its logical processors.
#[derive(Debug, PartialEq, Eq)]
pub enum TopologyRequest {
    /// How many cores are visible?
    EnumerateCores,
    /// Which logical processors may the core at `core` use?
    AllowedCpuset { core: CoreIndex },
    /// Where is thread `tid` bound now?
    CurrentBinding { tid: u64 },
    /// Bind thread `tid` to `cpuset`.
    SetThreadBinding { tid: u64, cpuset: Vec<u32> },
    /// Place the memory of the calling thread by `policy` on `cpuset`.
    SetMemoryBinding { cpuset: Vec<u32>, policy: MemoryPolicy },
}

/// A request as a mathematical value.
pub enum RequestView {
    EnumerateCores,
    AllowedCpuset { core: CoreIndex },
    CurrentBinding { tid: u64 },
    SetThreadBinding { tid: u64, cpuset: Seq<u32> },
    SetMemoryBinding { cpuset: Seq<u32>, policy: MemoryPolicy },
}

impl View for TopologyRequest {
    type V = RequestView;

    open spec fn view(&self) -> RequestView {
        match *self {
            TopologyRequest::EnumerateCores => RequestView::EnumerateCores,
            TopologyRequest::AllowedCpuset { core } => RequestView::AllowedCpuset { core },
            TopologyRequest::CurrentBinding { tid } => RequestView::CurrentBinding { tid },
            TopologyRequest::SetThreadBinding { tid, cpuset } => RequestView::SetThreadBinding {
                tid,
                cpuset: cpuset@,
            },
            TopologyRequest::SetMemoryBinding { cpuset, policy } => RequestView::SetMemoryBinding {
                cpuset: cpuset@,
                policy,
            },
        }
    }
}

/// What the topology answered to one request.
#[derive(Debug, PartialEq, Eq)]
pub enum TopologyReply {
    /// The number of visible cores, unless the enumeration failed.
    Cores(Result<usize, TopologyError>),
    /// The allowed cpuset of a core, if it exposes one.
    Cpuset(Option<Vec<u32>>),
    /// The current binding of a thread, if it could be read.
    Binding(Option<Vec<u32>>),
    /// Whether a binding was applied.
    Applied(Result<(), TopologyError>),
}

/// A reply as a mathematical value.
pub enum ReplyView {
    Cores(Result<usize, TopologyError>),
    Cpuset(Option<Seq<u32>>),
    Binding(Option<Seq<u32>>),
    Applied(Result<(), TopologyError>),
}

impl View for TopologyReply {
    type V = ReplyView;

    open spec fn view(&self) -> ReplyView {
        match *self {
            TopologyReply::Cores(count) => ReplyView::Cores(count),
            TopologyReply::Cpuset(cpuset) => ReplyView::Cpuset(
                match cpuset {
                    Some(ids) => Some(ids@),
                    None => None,
                },
            ),
            TopologyReply::Binding(cpuset) => ReplyView::Binding(
                match cpuset {
                    Some(ids) => Some(ids@),
                    None => None,
                },
            ),
            TopologyReply::Applied(done) => ReplyView::Applied(done),
        }
    }
}

impl ReplyView {
    /// The enumeration that this reply reports. A reply of another kind is
    /// no answer.
    pub open spec fn cores(self) -> Result<usize, TopologyError> {
        match self {
            ReplyView::Cores(count) => count,
            _ => Err(TopologyError),
        }
    }

    /// The allowed cpuset that this reply reports, if any.
    pub open spec fn cpuset(self) -> Option<Seq<u32>> {
        match self {
            ReplyView::Cpuset(cpuset) => cpuset,
            _ => None,
        }
    }

    /// The thread binding that this reply reports, if any.
    pub open spec fn binding(self) -> Option<Seq<u32>> {
        match self {
            ReplyView::Binding(cpuset) => cpuset,
            _ => None,
        }
    }
}

/// The requests of a list, as mathematical values.
pub open spec fn requests_view(requests: Seq<TopologyRequest>) -> Seq<RequestView> {
    Seq::new(requests.len(), |i: int| requests[i]@)
}

/// The cpuset that thread `tid` is bound to once a topology that carries
/// out every request has seen `requests`, if it was bound to `before`.
pub open spec fn cpu_binding_after(before: Seq<u32>, requests: Seq<RequestView>, tid: u64) -> Seq<
    u32,
>
    decreases requests.len(),
{
    if requests.len() == 0 {
        before
    } else {
        match requests.last() {
            RequestView::SetThreadBinding { tid: bound, cpuset } if bound == tid => cpuset,
            _ => cpu_binding_after(before, requests.drop_last(), tid),
        }
    }
}

/// The memory placement of the calling thread once a topology that carries
/// out every request has seen `requests`, if it was `before`.
pub open spec fn memory_binding_after(
    before: (Seq<u32>, MemoryPolicy),
    requests: Seq<RequestView>,
) -> (Seq<u32>, MemoryPolicy)
    decreases requests.len(),
{
    if requests.len() == 0 {
        before
    } else {
        match requests.last() {
            RequestView::SetMemoryBinding { cpuset, policy } => (cpuset, policy),
            _ => memory_binding_after(before, requests.drop_last()),
        }
    }
}

/// Whether `request` changes a binding.
pub open spec fn is_binding_call(request: RequestView) -> bool {
    request is SetThreadBinding || request is SetMemoryBinding
}

} // verus!
