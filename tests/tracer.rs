use memdb_lib::server::{
    send_heap_operation, send_marker, send_terminate, HeapOperation, HeapOperationKind, IpAddress,
    Server, ServerAction, ServerHandle, ServerMessage, Settings,
};
use memdb_lib::wire::encode_frame;
use std::sync::mpsc::sync_channel;

fn settings(batch: usize, store_backtrace: bool) -> Settings {
    Settings::new(batch, store_backtrace, IpAddress::new("127.0.0.1", 8989))
}

fn allocation(address: usize, size: usize) -> HeapOperation {
    HeapOperation {
        address,
        size,
        thread_id: 7,
        kind: HeapOperationKind::Alloc,
        backtrace: String::from("frame"),
    }
}

#[test]
fn default_settings() {
    let s = Settings::default_settings();
    assert_eq!(s.num_heap_operations_per_message, 64);
    assert!(s.store_backtrace);
    assert_eq!(s.ip_address.host, "127.0.0.1");
    assert_eq!(s.ip_address.port, 8989);
}

#[test]
fn sentinel_fields() {
    let s = HeapOperation::sentinel();
    assert_eq!(s.address, 0);
    assert_eq!(s.size, 0);
    assert_eq!(s.thread_id, 0);
    assert_eq!(s.kind, HeapOperationKind::Alloc);
    assert_eq!(s.backtrace, "");
}

#[test]
fn smoke_session() {
    let mut server = Server::new(settings(1, false));
    assert!(server.can_accept());
    assert_eq!(server.process(ServerMessage::Marker("m"), 1), ServerAction::Wait);
    assert_eq!(server.markers()[0].name, "m");
    assert_eq!(server.markers()[0].index, 0);
    assert_eq!(server.markers()[0].first_operation_seq_no, 0);
    let op = HeapOperation { address: 0x1000, size: 16, ..allocation(0, 0) };
    assert_eq!(server.process(ServerMessage::HeapOperation(op), 5), ServerAction::Flush);
    let frame = server.frame();
    assert_eq!(frame, encode_frame(server.operations(), server.markers()));
    assert_eq!(server.operations()[0].address, 0x1000);
    assert_eq!(server.operations()[0].size, 16);
    assert_eq!(server.operations()[0].micros_since_server_start, 5);
    server.complete_flush(Some(frame.len()));
    assert_eq!(server.num_heap_operations_sent(), 1);
    assert_eq!(server.num_bytes_sent(), frame.len() as u64);
    assert_eq!(server.num_pending_operations(), 0);
    assert!(server.markers().is_empty());
    assert_eq!(server.process(ServerMessage::Terminate, 9), ServerAction::Shutdown);
    assert!(server.is_terminated());
    assert!(!server.can_accept());
    let last = &server.operations()[0];
    assert_eq!((last.address, last.size, last.kind), (0, 0, HeapOperationKind::Alloc));
    assert_eq!(last.micros_since_server_start, 9);
}

#[test]
fn marker_indexing_per_name() {
    let mut server = Server::new(settings(64, true));
    server.process(ServerMessage::Marker("phase"), 0);
    server.process(ServerMessage::Marker("other"), 0);
    server.process(ServerMessage::Marker("phase"), 0);
    server.complete_flush(Some(10));
    server.process(ServerMessage::Marker("phase"), 0);
    server.process(ServerMessage::Marker("other"), 0);
    let indices: Vec<(String, u64)> =
        server.markers().iter().map(|m| (m.name.clone(), m.index)).collect();
    assert_eq!(indices, vec![("phase".to_string(), 2), ("other".to_string(), 1)]);
}

#[test]
fn three_phase_markers() {
    let mut server = Server::new(settings(64, false));
    for _ in 0..3 {
        assert_eq!(server.process(ServerMessage::Marker("phase"), 0), ServerAction::Wait);
    }
    server.process(ServerMessage::Terminate, 0);
    let indices: Vec<u64> = server.markers().iter().map(|m| m.index).collect();
    assert_eq!(indices, vec![0, 1, 2]);
    assert!(server.markers().iter().all(|m| m.name == "phase"));
}

#[test]
fn marker_seq_no_is_next_ordinal() {
    let mut server = Server::new(settings(2, false));
    server.process(ServerMessage::HeapOperation(allocation(1, 1)), 0);
    server.process(ServerMessage::Marker("a"), 0);
    assert_eq!(server.markers()[0].first_operation_seq_no, 1);
    assert_eq!(server.process(ServerMessage::HeapOperation(allocation(2, 1)), 0), ServerAction::Flush);
    let frame = server.frame();
    server.complete_flush(Some(frame.len()));
    server.process(ServerMessage::Marker("b"), 0);
    assert_eq!(server.markers()[0].first_operation_seq_no, 2);
    server.process(ServerMessage::Terminate, 0);
    assert_eq!(server.num_heap_operations_sent(), 2);
    assert_eq!(server.num_pending_operations(), 1);
}

#[test]
fn cross_thread_order_kept() {
    let mut server = Server::new(settings(64, false));
    server.process(ServerMessage::HeapOperation(allocation(1, 8)), 0);
    server.process(ServerMessage::HeapOperation(allocation(100, 8)), 0);
    server.process(ServerMessage::HeapOperation(allocation(2, 8)), 0);
    server.process(ServerMessage::Terminate, 0);
    let addresses: Vec<u64> = server.operations().iter().map(|o| o.address).collect();
    assert_eq!(addresses, vec![1, 100, 2, 0]);
}

#[test]
fn batch_of_one_flushes_every_operation() {
    let mut server = Server::new(settings(1, false));
    for i in 0..5 {
        assert_eq!(server.process(ServerMessage::HeapOperation(allocation(i, 4)), 0), ServerAction::Flush);
        server.complete_flush(Some(1));
    }
    assert_eq!(server.num_heap_operations_sent(), 5);
}

#[test]
fn batch_fills_before_flush() {
    let mut server = Server::new(settings(3, false));
    assert_eq!(server.process(ServerMessage::HeapOperation(allocation(1, 4)), 0), ServerAction::Wait);
    assert_eq!(server.process(ServerMessage::HeapOperation(allocation(2, 4)), 0), ServerAction::Wait);
    assert_eq!(server.process(ServerMessage::HeapOperation(allocation(3, 4)), 0), ServerAction::Flush);
}

#[test]
fn backtrace_disabled_is_empty() {
    let mut server = Server::new(settings(64, false));
    server.process(ServerMessage::HeapOperation(allocation(1, 4)), 0);
    assert_eq!(server.operations()[0].backtrace, "");
    let mut keeping = Server::new(settings(64, true));
    keeping.process(ServerMessage::HeapOperation(allocation(1, 4)), 0);
    assert_eq!(keeping.operations()[0].backtrace, "frame");
}

#[test]
fn failed_flush_clears_without_counting() {
    let mut server = Server::new(settings(64, false));
    server.process(ServerMessage::HeapOperation(allocation(1, 4)), 0);
    server.process(ServerMessage::Marker("m"), 0);
    server.complete_flush(None);
    assert_eq!(server.num_pending_operations(), 0);
    assert!(server.markers().is_empty());
    assert_eq!(server.num_heap_operations_sent(), 0);
    assert_eq!(server.num_bytes_sent(), 0);
}

#[test]
fn empty_server_frame() {
    let server = Server::new(settings(4, false));
    assert_eq!(server.frame(), vec![0u8]);
}

#[test]
fn late_submission_without_tracer() {
    assert!(!send_marker(None, "late"));
    assert!(!send_heap_operation(None, allocation(1, 1)));
    assert!(!send_terminate(None));
}

#[test]
fn tracer_thread_messages_are_dropped() {
    let (sender, receiver) = sync_channel::<ServerMessage>(1);
    let handle = ServerHandle::new(sender, 42, false);
    assert_eq!(handle.server_thread_id(), 42);
    assert!(!handle.store_backtrace());
    assert!(!handle.send_from(ServerMessage::Marker("own"), 42));
    assert!(receiver.try_recv().is_err());
    assert!(handle.send_from(ServerMessage::Marker("app"), 7));
    assert!(matches!(receiver.try_recv(), Ok(ServerMessage::Marker("app"))));
}

#[test]
fn control_api_with_live_tracer() {
    let (sender, receiver) = sync_channel::<ServerMessage>(1);
    let handle = ServerHandle::new(sender, 0, true);
    assert!(send_marker(Some(&handle), "x"));
    assert!(matches!(receiver.try_recv(), Ok(ServerMessage::Marker("x"))));
    assert!(send_heap_operation(Some(&handle), allocation(16, 4)));
    match receiver.try_recv() {
        Ok(ServerMessage::HeapOperation(op)) => assert_eq!((op.address, op.size), (16, 4)),
        _ => panic!("expected a heap operation"),
    }
    assert!(send_terminate(Some(&handle)));
    assert!(matches!(receiver.try_recv(), Ok(ServerMessage::Terminate)));
}
