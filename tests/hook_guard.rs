use memdb_lib::hook::{heap_operation_of, report_heap_operation, ScopedRecursionDepthLimiter, RECURSION_LIMIT};
use memdb_lib::server::{HeapOperationKind, ServerHandle, ServerMessage};
use std::sync::mpsc::sync_channel;

#[test]
fn guard_nesting_and_release() {
    let mut depth: i32 = 0;
    let outer = ScopedRecursionDepthLimiter::new(&mut depth, RECURSION_LIMIT);
    assert_eq!(depth, 1);
    assert!(!outer.limit_reached());
    let inner = ScopedRecursionDepthLimiter::new(&mut depth, RECURSION_LIMIT);
    assert_eq!(depth, 2);
    assert!(inner.limit_reached());
    inner.release(&mut depth);
    assert_eq!(depth, 1);
    outer.release(&mut depth);
    assert_eq!(depth, 0);
}

#[test]
fn operation_without_backtrace() {
    let op = heap_operation_of(HeapOperationKind::Dealloc, 0x40, 24, false);
    assert_eq!(op.kind, HeapOperationKind::Dealloc);
    assert_eq!((op.address, op.size), (0x40, 24));
    assert_eq!(op.backtrace, "");
    assert_eq!(op.thread_id, gettid::gettid());
    assert_ne!(op.thread_id, 0);
}

#[test]
fn operation_with_backtrace() {
    let op = heap_operation_of(HeapOperationKind::Alloc, 8, 8, true);
    assert!(!op.backtrace.is_empty());
}

#[test]
fn hook_reports_within_limit() {
    let (sender, receiver) = sync_channel::<ServerMessage>(1);
    let handle = ServerHandle::new(sender, 0, false);
    let mut depth: i32 = 0;
    let guard = ScopedRecursionDepthLimiter::new(&mut depth, RECURSION_LIMIT);
    assert!(report_heap_operation(&handle, &guard, HeapOperationKind::Alloc, 0x1000, 16));
    match receiver.try_recv() {
        Ok(ServerMessage::HeapOperation(op)) => {
            assert_eq!((op.address, op.size, op.kind), (0x1000, 16, HeapOperationKind::Alloc));
        }
        _ => panic!("expected a heap operation"),
    }
    let nested = ScopedRecursionDepthLimiter::new(&mut depth, RECURSION_LIMIT);
    assert!(!report_heap_operation(&handle, &nested, HeapOperationKind::Alloc, 0x2000, 16));
    assert!(receiver.try_recv().is_err());
    nested.release(&mut depth);
    guard.release(&mut depth);
    assert_eq!(depth, 0);
}

#[test]
fn hook_on_tracer_thread_sends_nothing() {
    let (sender, receiver) = sync_channel::<ServerMessage>(1);
    let handle = ServerHandle::new(sender, gettid::gettid(), false);
    let mut depth: i32 = 0;
    let guard = ScopedRecursionDepthLimiter::new(&mut depth, RECURSION_LIMIT);
    assert!(report_heap_operation(&handle, &guard, HeapOperationKind::Alloc, 0x1000, 16));
    assert!(receiver.try_recv().is_err());
    guard.release(&mut depth);
}
