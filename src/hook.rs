//! The allocator hook's logic: the per-thread reentrancy guard, and the report of one heap
//! operation to a live tracer.
//!
//! The depth counter itself lives in thread-local storage outside the library; the guard
//! takes it by reference when a hook frame opens and when it closes.
use crate::server::{current_thread_id, HeapOperation, HeapOperationKind, ServerHandle, ServerMessage};
use vstd::prelude::*;

verus! {

/// The hook's depth limit: an allocation made while reporting one is still seen, one made
/// while reporting that one is not.
pub const RECURSION_LIMIT: i32 = 2;

/// The depth counter once a hook frame has opened at `depth`.
pub open spec fn depth_after_entry(depth: int) -> int {
    depth + 1
}

/// The depth counter once a hook frame at `depth` has closed.
pub open spec fn depth_after_release(depth: int) -> int {
    depth - 1
}

/// One open hook frame. It raises the thread's depth counter when it opens and lowers it
/// again when it is released.
pub struct ScopedRecursionDepthLimiter {
    recursion_limit: i32,
    depth: i32,
}

impl ScopedRecursionDepthLimiter {
    #[verifier::type_invariant]
    spec fn inv(&self) -> bool {
        self.depth >= 1
    }

    /// The limit this frame was opened with.
    pub closed spec fn limit(&self) -> int {
        self.recursion_limit as int
    }

    /// The thread's depth counter while this frame is open.
    pub closed spec fn depth(&self) -> int {
        self.depth as int
    }

    pub open spec fn reached(&self) -> bool {
        self.depth() >= self.limit()
    }

    /// Opens a frame on the thread whose depth counter is `depth`.
    pub fn new(depth: &mut i32, limit: i32) -> (r: Self)
        requires
            0 <= *old(depth) < i32::MAX,
        ensures
            *final(depth) == depth_after_entry(*old(depth) as int),
            r.limit() == limit,
            r.depth() == *final(depth),
    {
        *depth = *depth + 1;
        ScopedRecursionDepthLimiter { recursion_limit: limit, depth: *depth }
    }

    /// Whether this frame is nested too deep for the hook to report anything.
    pub fn limit_reached(&self) -> (r: bool)
        ensures
            r == self.reached(),
    {
        self.depth >= self.recursion_limit
    }

    /// The thread's depth counter as this frame set it.
    pub fn frame_depth(&self) -> (r: i32)
        ensures
            r as int == self.depth(),
    {
        self.depth
    }

    /// Closes the frame; `depth` is the thread's counter, which the frames nested in this
    /// one have left as this one set it.
    pub fn release(self, depth: &mut i32)
        requires
            *old(depth) == self.depth(),
        ensures
            *final(depth) == depth_after_release(self.depth()),
            *final(depth) >= 0,
    {
        proof {
            use_type_invariant(&self);
        }
        *depth = *depth - 1;
    }
}

/// A hook frame leaves the thread's depth counter as it found it, so the counter is zero
/// again after every top-level allocation.
pub proof fn lemma_frame_restores_depth(depth: int)
    ensures
        depth_after_release(depth_after_entry(depth)) == depth,
        depth == 0 ==> depth_after_release(depth_after_entry(depth)) == 0,
{
}

/// Relies on backtrace's `Backtrace::new` and its `Debug` form: the call stack of the
/// calling thread as text. Capturing it may allocate.
#[verifier::external_body]
fn capture_backtrace() -> String {
    format!("{:?}", backtrace::Backtrace::new())
}

/// The heap operation that the hook reports for the calling thread; the backtrace is
/// captured only where the tracer sends it.
pub fn heap_operation_of(
    kind: HeapOperationKind,
    address: usize,
    size: usize,
    store_backtrace: bool,
) -> (r: HeapOperation)
    ensures
        r.kind == kind,
        r.address == address,
        r.size == size,
        !store_backtrace ==> r.backtrace@.len() == 0,
{
    let backtrace = if store_backtrace {
        capture_backtrace()
    } else {
        String::new()
    };
    HeapOperation { address, size, thread_id: current_thread_id(), kind, backtrace }
}

/// What the allocator hook does in an open frame while a tracer is live: it reports the
/// operation, unless the frame is nested too deep. Returns whether it reported.
pub fn report_heap_operation(
    server: &ServerHandle,
    guard: &ScopedRecursionDepthLimiter,
    kind: HeapOperationKind,
    address: usize,
    size: usize,
) -> (reported: bool)
    ensures
        reported == !guard.reached(),
{
    if guard.limit_reached() {
        return false;
    }
    let heap_operation = heap_operation_of(kind, address, size, server.store_backtrace());
    server.send(ServerMessage::HeapOperation(heap_operation));
    true
}

} // verus!
