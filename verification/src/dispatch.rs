//! The invocation lifecycle: one request, one resource table, one
//! sandbox run, one reply.
//!
//! Per request the machine moves `Instantiating -> Running ->
//! {Completed | Trapped | TimedOut} -> Finalized`.  A fresh table is
//! seeded with the request before the sandbox runs; the run's outcome
//! is mapped to a reply — the returned response, or a generic
//! internal-error reply that never echoes diagnostic detail — and the
//! table is torn down unconditionally, whatever the outcome.  Once an
//! invocation is abandoned on its deadline it can never later complete:
//! its outcome is fixed.

use vstd::prelude::*;
use vstd::utf8::encode_utf8;

use crate::resource::RequestData;
use crate::resource::Resource;
use crate::resource::ResourceKind;
use crate::resource::ResourceView;
use crate::resource::ResponseData;
use crate::resource::ResponseView;
use crate::table::ResourceTable;
use crate::text::to_vec;

verus! {

/// Where an invocation stands in its lifecycle.
#[derive(Clone, Copy, Debug, PartialEq, Eq, Structural)]
pub enum Phase {
    /// The table exists and the sandbox instance is being created.
    Instantiating,
    /// The sandbox is executing the routed function under a deadline.
    Running,
    /// The function returned and its response was extracted.
    Completed,
    /// Execution faulted; the fault is not echoed to the client.
    Trapped,
    /// The deadline elapsed first; the outcome is fixed for good.
    TimedOut,
    /// The table and the instance are torn down.
    Finalized,
}

/// What the engine reports about a run.
#[derive(Clone, Copy, Debug, PartialEq, Eq, Structural)]
pub enum RunEvent {
    /// The function returned this response handle.
    Returned(u32),
    /// The function faulted: a trap, a missing export, or an
    /// ill-typed signature.
    Trapped,
    /// The deadline elapsed before the function returned.
    DeadlineExpired,
}

/// How a run event moves the lifecycle: only a running invocation
/// moves, and every terminal phase absorbs every further event.
pub open spec fn spec_step(p: Phase, ev: RunEvent) -> Phase {
    if p == Phase::Running {
        match ev {
            RunEvent::Returned(_) => Phase::Completed,
            RunEvent::Trapped => Phase::Trapped,
            RunEvent::DeadlineExpired => Phase::TimedOut,
        }
    } else {
        p
    }
}

/// Law: abandonment is final.  Once an invocation's phase is
/// `TimedOut`, no later event — not even a late `Returned` — moves it:
/// an abandoned invocation can never complete and produce a response.
pub proof fn lemma_timeout_absorbing(ev: RunEvent)
    ensures
        spec_step(Phase::TimedOut, ev) == Phase::TimedOut,
{
}

/// The reply for a request no function matches: a plain not-found
/// outcome, never an error.
pub open spec fn spec_not_found_reply() -> ResponseView {
    ResponseView {
        status: 404,
        headers: Seq::empty(),
        body: Seq::empty(),
        cookies: Seq::empty(),
        removed_cookies: Seq::empty(),
    }
}

/// The generic reply for an invocation that failed inside the host:
/// a fixed status and message, with no diagnostic detail.
pub open spec fn spec_internal_error_reply() -> ResponseView {
    ResponseView {
        status: 500,
        headers: Seq::empty(),
        body: encode_utf8("internal server error"@),
        cookies: Seq::empty(),
        removed_cookies: Seq::empty(),
    }
}

/// The generic reply for an invocation abandoned on its deadline.
pub open spec fn spec_timeout_reply() -> ResponseView {
    ResponseView {
        status: 500,
        headers: Seq::empty(),
        body: encode_utf8("function timed out"@),
        cookies: Seq::empty(),
        removed_cookies: Seq::empty(),
    }
}

/// Builds the not-found reply.
pub fn not_found_reply() -> (r: ResponseData)
    ensures
        r@ == spec_not_found_reply(),
{
    ResponseData::new(404)
}

/// Builds the generic internal-error reply.
pub fn internal_error_reply() -> (r: ResponseData)
    ensures
        r@ == spec_internal_error_reply(),
{
    let mut r = ResponseData::new(500);
    r.body = to_vec("internal server error".as_bytes());
    r
}

/// Builds the generic timed-out reply.
pub fn timeout_reply() -> (r: ResponseData)
    ensures
        r@ == spec_timeout_reply(),
{
    let mut r = ResponseData::new(500);
    r.body = to_vec("function timed out".as_bytes());
    r
}

/// One invocation: its resource table, the handle of its request
/// snapshot, and where it stands in the lifecycle.
#[derive(Debug)]
pub struct Invocation {
    /// The invocation's own resource table; nothing in it outlives the
    /// invocation.
    pub table: ResourceTable,
    /// The handle under which the request snapshot was seeded.
    pub request_handle: u32,
    /// Where the invocation stands in its lifecycle.  Moved only by
    /// the methods below; the contracts say how.
    pub phase: Phase,
}

impl Invocation {
    /// Well-formedness: the table is well-formed.
    pub open spec fn wf(self) -> bool {
        self.table.wf()
    }

    /// Opens an invocation: a fresh table, seeded with the request
    /// snapshot before the sandbox runs.  Nothing else is in the
    /// table, and the request's handle starts the handle space.
    pub fn new(request: RequestData) -> (r: Invocation)
        ensures
            r.wf(),
            r.phase == Phase::Instantiating,
            r.request_handle == 1u32,
            r.table@.next == 2,
            r.table@.entries == Map::<u32, ResourceView>::empty().insert(
                1u32,
                ResourceView::Request(request@),
            ),
    {
        let mut table = ResourceTable::new();
        let h = match table.insert(Resource::Request(request)) {
            Ok(h) => h,
            Err(_) => unreached(),
        };
        Invocation { table, request_handle: h, phase: Phase::Instantiating }
    }

    /// The sandbox instance exists and execution begins; the deadline
    /// clock starts with it.
    pub fn begin_run(&mut self)
        requires
            old(self).wf(),
            old(self).phase == Phase::Instantiating,
        ensures
            final(self).wf(),
            final(self).phase == Phase::Running,
            final(self).table@ == old(self).table@,
            final(self).request_handle == old(self).request_handle,
    {
        self.phase = Phase::Running;
    }

    /// Instantiation failed: the invocation is mapped to the generic
    /// internal-error reply, and the fault is not echoed.
    pub fn fail_instantiation(&mut self) -> (r: ResponseData)
        requires
            old(self).wf(),
            old(self).phase == Phase::Instantiating,
        ensures
            final(self).wf(),
            final(self).phase == Phase::Trapped,
            final(self).table@ == old(self).table@,
            final(self).request_handle == old(self).request_handle,
            r@ == spec_internal_error_reply(),
    {
        self.phase = Phase::Trapped;
        internal_error_reply()
    }

    /// Maps the run's event to the invocation's outcome and reply.
    ///
    /// A returned handle is resolved as a response; a handle that is
    /// absent or of the wrong kind makes the outcome an internal-error
    /// reply rather than a handle error.  A trap and an elapsed
    /// deadline each map to their generic reply.  The phase moves by
    /// [`spec_step`], so a terminal phase is never left.
    pub fn conclude(&mut self, ev: RunEvent) -> (r: ResponseData)
        requires
            old(self).wf(),
            old(self).phase == Phase::Running,
        ensures
            final(self).wf(),
            final(self).phase == spec_step(old(self).phase, ev),
            final(self).request_handle == old(self).request_handle,
            final(self).table@.next == old(self).table@.next,
            match ev {
                RunEvent::Returned(h) => match crate::host::spec_response(old(self).table@, h) {
                    Some(resp) => r@ == resp && final(self).table@.entries
                        == old(self).table@.entries.remove(h),
                    None => r@ == spec_internal_error_reply() && final(self).table@ == old(
                        self,
                    ).table@,
                },
                RunEvent::Trapped => r@ == spec_internal_error_reply() && final(self).table@
                    == old(self).table@,
                RunEvent::DeadlineExpired => r@ == spec_timeout_reply() && final(self).table@
                    == old(self).table@,
            },
    {
        match ev {
            RunEvent::Returned(h) => {
                self.phase = Phase::Completed;
                match self.table.remove(h, ResourceKind::Response) {
                    Ok(res) => match res {
                        Resource::Response(resp) => resp,
                        _ => unreached(),
                    },
                    Err(_) => internal_error_reply(),
                }
            },
            RunEvent::Trapped => {
                self.phase = Phase::Trapped;
                internal_error_reply()
            },
            RunEvent::DeadlineExpired => {
                self.phase = Phase::TimedOut;
                timeout_reply()
            },
        }
    }

    /// Tears the invocation down unconditionally, whatever phase was
    /// reached: every resource the table still holds is discarded, so
    /// no per-invocation state leaks into the next request.
    pub fn finalize(&mut self)
        requires
            old(self).wf(),
        ensures
            final(self).wf(),
            final(self).phase == Phase::Finalized,
            final(self).table@.entries == Map::<u32, ResourceView>::empty(),
            final(self).table@.next == old(self).table@.next,
    {
        self.table.clear();
        self.phase = Phase::Finalized;
    }
}

} // verus!
