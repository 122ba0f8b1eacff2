//! The tracer: the messages that application threads hand to it, the handle through which
//! they do so, and the state machine that batches heap operations and numbers markers.
use crate::wire::{
    batch_of, encode_frame, frame_bytes, Batch, MarkerRecord, MarkerView, OperationRecord,
    OperationView,
};
use std::sync::mpsc::SyncSender;
use vstd::prelude::*;

verus! {

/// Whether a heap operation allocated or freed memory.
#[derive(Debug, Clone, Copy, PartialEq, Eq, Structural)]
pub enum HeapOperationKind {
    Alloc,
    Dealloc,
}

/// One heap operation as the allocator hook (or a caller) reports it.
#[derive(Debug)]
pub struct HeapOperation {
    pub address: usize,
    pub size: usize,
    pub thread_id: u64,
    pub kind: HeapOperationKind,
    pub backtrace: String,
}

impl HeapOperation {
    /// The operation that the tracer appends on termination, so that the last frame is
    /// never empty and the receiver can recognise the end of the stream.
    pub fn sentinel() -> (r: HeapOperation)
        ensures
            r.address == 0,
            r.size == 0,
            r.thread_id == 0,
            r.kind == HeapOperationKind::Alloc,
            r.backtrace@ == Seq::<char>::empty(),
    {
        HeapOperation {
            address: 0,
            size: 0,
            thread_id: 0,
            kind: HeapOperationKind::Alloc,
            backtrace: String::new(),
        }
    }
}

/// The address the tracer listens on.
pub struct IpAddress {
    pub host: &'static str,
    pub port: u16,
}

impl IpAddress {
    pub fn new(host: &'static str, port: u16) -> (r: IpAddress)
        ensures
            r.host@ == host@,
            r.port == port,
    {
        IpAddress { host, port }
    }

    /// The default address, `127.0.0.1:8989`.
    pub fn default_address() -> (r: IpAddress)
        ensures
            r.host@ == "127.0.0.1"@,
            r.port == 8989,
    {
        proof {
            reveal_strlit("127.0.0.1");
        }
        IpAddress { host: "127.0.0.1", port: 8989 }
    }
}

/// The tracer's settings.
pub struct Settings {
    /// How many operations make a frame; greater than zero.
    pub num_heap_operations_per_message: usize,
    /// Whether the backtrace of each operation is sent.
    pub store_backtrace: bool,
    pub ip_address: IpAddress,
}

impl Settings {
    pub fn new(
        num_heap_operations_per_message: usize,
        store_backtrace: bool,
        ip_address: IpAddress,
    ) -> (r: Settings)
        requires
            num_heap_operations_per_message > 0,
        ensures
            r.num_heap_operations_per_message == num_heap_operations_per_message,
            r.store_backtrace == store_backtrace,
            r.ip_address == ip_address,
    {
        Settings { num_heap_operations_per_message, store_backtrace, ip_address }
    }

    /// Frames of 64 operations, backtraces on, the default address.
    pub fn default_settings() -> (r: Settings)
        ensures
            r.num_heap_operations_per_message == 64,
            r.store_backtrace,
            r.ip_address.host@ == "127.0.0.1"@,
            r.ip_address.port == 8989,
    {
        Settings {
            num_heap_operations_per_message: 64,
            store_backtrace: true,
            ip_address: IpAddress::default_address(),
        }
    }
}

/// The tracer could not be started.
#[derive(Debug, PartialEq, Eq, Structural)]
pub enum NetworkError {
    ConnectionError,
}

/// A message from an application thread to the tracer thread.
#[derive(Debug)]
pub enum ServerMessage {
    HeapOperation(HeapOperation),
    Marker(&'static str),
    Terminate,
}

/// What the tracer's run loop does after a message.
#[derive(Debug, Clone, Copy, PartialEq, Eq, Structural)]
pub enum ServerAction {
    /// Receive the next message.
    Wait,
    /// Send the pending frame, then receive the next message.
    Flush,
    /// Send the pending frame as the last one, close the connection and stop.
    Shutdown,
}

/// std's `SyncSender`, the sending end of the tracer's bounded channel, carried as an
/// opaque value.
#[verifier::external_type_specification]
#[verifier::external_body]
#[verifier::reject_recursive_types(T)]
pub struct ExSyncSender<T>(SyncSender<T>);

/// Relies on gettid::gettid: the operating system's identifier of the calling thread.
#[verifier::external_body]
pub(crate) fn current_thread_id() -> u64 {
    gettid::gettid()
}

/// Relies on std's `SyncSender::send`: it blocks while the channel is full, then hands the
/// message over, unless the receiving end is gone.
#[verifier::external_body]
fn channel_send(sender: &SyncSender<ServerMessage>, message: ServerMessage) {
    let _ = sender.send(message);
}

/// What application threads hold of a live tracer: the sending end of its channel.
pub struct ServerHandle {
    sender: SyncSender<ServerMessage>,
    server_thread_id: u64,
    store_backtrace: bool,
}

impl ServerHandle {
    pub closed spec fn thread_id(&self) -> u64 {
        self.server_thread_id
    }

    pub closed spec fn stores_backtrace(&self) -> bool {
        self.store_backtrace
    }

    pub fn new(sender: SyncSender<ServerMessage>, server_thread_id: u64, store_backtrace: bool) -> (r:
        ServerHandle)
        ensures
            r.thread_id() == server_thread_id,
            r.stores_backtrace() == store_backtrace,
    {
        ServerHandle { sender, server_thread_id, store_backtrace }
    }

    /// The identifier of the tracer thread.
    pub fn server_thread_id(&self) -> (r: u64)
        ensures
            r == self.thread_id(),
    {
        self.server_thread_id
    }

    /// Whether the tracer sends backtraces, so that the hook captures them.
    pub fn store_backtrace(&self) -> (r: bool)
        ensures
            r == self.stores_backtrace(),
    {
        self.store_backtrace
    }

    /// Hands `message` to the tracer on behalf of thread `current_thread`; a message of the
    /// tracer thread itself is dropped. Returns whether it was handed over.
    pub fn send_from(&self, message: ServerMessage, current_thread: u64) -> (forwarded: bool)
        ensures
            forwarded == (current_thread != self.thread_id()),
    {
        if current_thread == self.server_thread_id {
            return false;
        }
        channel_send(&self.sender, message);
        true
    }

    /// Hands `message` to the tracer on behalf of the calling thread.
    pub fn send(&self, message: ServerMessage) {
        let current_thread = current_thread_id();
        self.send_from(message, current_thread);
    }
}

fn send_server_message(handle: Option<&ServerHandle>, message: ServerMessage) -> (r: bool)
    ensures
        r == handle.is_some(),
{
    match handle {
        Some(server) => {
            server.send(message);
            true
        },
        None => false,
    }
}

/// Sends a marker with the given name to the tracer, which numbers the markers of each
/// name 0, 1, 2, ... Returns false where no tracer is live.
pub fn send_marker(handle: Option<&ServerHandle>, name: &'static str) -> (r: bool)
    ensures
        r == handle.is_some(),
{
    send_server_message(handle, ServerMessage::Marker(name))
}

/// Sends a heap operation to the tracer. Returns false where no tracer is live.
pub fn send_heap_operation(handle: Option<&ServerHandle>, heap_operation: HeapOperation) -> (r:
    bool)
    ensures
        r == handle.is_some(),
{
    send_server_message(handle, ServerMessage::HeapOperation(heap_operation))
}

/// Asks the tracer to send its last frame and stop. Returns false where no tracer is live.
pub fn send_terminate(handle: Option<&ServerHandle>) -> (r: bool)
    ensures
        r == handle.is_some(),
{
    send_server_message(handle, ServerMessage::Terminate)
}

/// The markers of `ms` that carry `name`, in order.
pub open spec fn markers_named(ms: Seq<MarkerView>, name: Seq<char>) -> Seq<MarkerView>
    decreases ms.len(),
{
    if ms.len() == 0 {
        Seq::empty()
    } else {
        let before = markers_named(ms.drop_last(), name);
        if ms.last().name == name {
            before.push(ms.last())
        } else {
            before
        }
    }
}

/// Each marker's index is the number of markers of its name recorded before it.
pub open spec fn markers_numbered(ms: Seq<MarkerView>) -> bool {
    forall|i: int|
        0 <= i < ms.len() ==> #[trigger] ms[i].index == markers_named(ms.take(i), ms[i].name).len()
}

/// The abstract state of the tracer.
pub struct ServerView {
    /// How many operations make a frame.
    pub batch_limit: nat,
    pub store_backtrace: bool,
    /// The operations of the pending frame.
    pub operations: Seq<OperationView>,
    /// The markers of the pending frame.
    pub markers: Seq<MarkerView>,
    /// How many operations were sent in frames that were written.
    pub operations_sent: nat,
    pub bytes_sent: nat,
    pub terminated: bool,
    /// Every marker recorded since the start, sent or not.
    pub issued: Seq<MarkerView>,
}

impl ServerView {
    /// The global ordinal of the next operation that the tracer records.
    pub open spec fn next_ordinal(self) -> nat {
        self.operations_sent + self.operations.len()
    }

    /// The global ordinal of the `i`-th pending operation.
    pub open spec fn ordinal(self, i: int) -> nat {
        (self.operations_sent + i) as nat
    }

    pub open spec fn valid(self) -> bool {
        &&& self.batch_limit > 0
        &&& markers_numbered(self.issued)
        &&& !self.store_backtrace ==> forall|i: int|
            0 <= i < self.operations.len() ==> (#[trigger] self.operations[i]).backtrace.len()
                == 0
    }

    /// The tracer can take one more message without a counter running out.
    pub open spec fn accepts(self) -> bool {
        &&& !self.terminated
        &&& self.next_ordinal() < u64::MAX
        &&& self.issued.len() < u64::MAX
    }

    /// What the pending frame carries.
    pub open spec fn frame(self) -> Batch {
        Batch { operations: self.operations, markers: self.markers }
    }
}

/// An operation as the tracer records it, `micros` after its start.
pub open spec fn operation_view(op: HeapOperation, micros: nat, store_backtrace: bool) -> OperationView {
    OperationView {
        micros_since_server_start: micros,
        address: op.address as nat,
        size: op.size as nat,
        thread_id: op.thread_id as nat,
        kind: op.kind,
        backtrace: if store_backtrace {
            op.backtrace@
        } else {
            Seq::empty()
        },
    }
}

/// The sentinel operation as the tracer records it.
pub open spec fn sentinel_view(micros: nat) -> OperationView {
    OperationView {
        micros_since_server_start: micros,
        address: 0,
        size: 0,
        thread_id: 0,
        kind: HeapOperationKind::Alloc,
        backtrace: Seq::empty(),
    }
}

/// The state after the tracer takes `message`, received `micros` after its start.
pub open spec fn next_state(s: ServerView, message: ServerMessage, micros: nat) -> ServerView {
    match message {
        ServerMessage::HeapOperation(op) => ServerView {
            operations: s.operations.push(operation_view(op, micros, s.store_backtrace)),
            ..s
        },
        ServerMessage::Marker(name) => {
            let m = MarkerView {
                name: name@,
                index: markers_named(s.issued, name@).len(),
                first_operation_seq_no: s.next_ordinal(),
            };
            ServerView { markers: s.markers.push(m), issued: s.issued.push(m), ..s }
        },
        ServerMessage::Terminate => ServerView {
            operations: s.operations.push(sentinel_view(micros)),
            terminated: true,
            ..s
        },
    }
}

/// What the run loop does after the tracer takes `message`.
pub open spec fn next_action(s: ServerView, message: ServerMessage) -> ServerAction {
    match message {
        ServerMessage::HeapOperation(_) => {
            if s.operations.len() + 1 >= s.batch_limit {
                ServerAction::Flush
            } else {
                ServerAction::Wait
            }
        },
        ServerMessage::Marker(_) => ServerAction::Wait,
        ServerMessage::Terminate => ServerAction::Shutdown,
    }
}

/// The state after the pending frame was sent: `Some(n)` where it was written whole in `n`
/// bytes, `None` where the write failed. The pending frame is cleared either way.
pub open spec fn after_flush(s: ServerView, bytes_written: Option<usize>) -> ServerView {
    match bytes_written {
        Some(n) => ServerView {
            operations: Seq::empty(),
            markers: Seq::empty(),
            operations_sent: s.next_ordinal(),
            bytes_sent: s.bytes_sent + n as nat,
            ..s
        },
        None => ServerView { operations: Seq::empty(), markers: Seq::empty(), ..s },
    }
}

/// The state of a tracer that has just started.
pub open spec fn initial_state(batch_limit: nat, store_backtrace: bool) -> ServerView {
    ServerView {
        batch_limit,
        store_backtrace,
        operations: Seq::empty(),
        markers: Seq::empty(),
        operations_sent: 0,
        bytes_sent: 0,
        terminated: false,
        issued: Seq::empty(),
    }
}

struct MarkerCount {
    name: String,
    count: u64,
}

/// The tracer's state, owned by the tracer thread.
pub struct Server {
    settings: Settings,
    operations: Vec<OperationRecord>,
    markers: Vec<MarkerRecord>,
    marker_counts: Vec<MarkerCount>,
    num_heap_operations_sent: u64,
    num_bytes_sent: u64,
    terminate: bool,
    num_markers_recorded: u64,
    issued: Ghost<Seq<MarkerView>>,
}

impl View for Server {
    type V = ServerView;

    closed spec fn view(&self) -> ServerView {
        ServerView {
            batch_limit: self.settings.num_heap_operations_per_message as nat,
            store_backtrace: self.settings.store_backtrace,
            operations: self.operations@.map_values(|op: OperationRecord| op@),
            markers: self.markers@.map_values(|m: MarkerRecord| m@),
            operations_sent: self.num_heap_operations_sent as nat,
            bytes_sent: self.num_bytes_sent as nat,
            terminated: self.terminate,
            issued: self.issued@,
        }
    }
}

fn find_marker_count(counts: &Vec<MarkerCount>, name: &String) -> (r: Option<usize>)
    ensures
        match r {
            Some(k) => k < counts@.len() && counts@[k as int].name@ == name@,
            None => forall|k: int| 0 <= k < counts@.len() ==> counts@[k].name@ != name@,
        },
{
    let mut k: usize = 0;
    while k < counts.len()
        invariant
            k <= counts@.len(),
            forall|j: int| 0 <= j < k ==> counts@[j].name@ != name@,
        decreases counts@.len() - k,
    {
        if counts[k].name == *name {
            return Some(k);
        }
        k = k + 1;
    }
    None
}

proof fn lemma_markers_named_len(ms: Seq<MarkerView>, name: Seq<char>)
    ensures
        markers_named(ms, name).len() <= ms.len(),
    decreases ms.len(),
{
    if ms.len() > 0 {
        lemma_markers_named_len(ms.drop_last(), name);
    }
}

proof fn lemma_markers_named_push(ms: Seq<MarkerView>, m: MarkerView, name: Seq<char>)
    ensures
        markers_named(ms.push(m), name) == if m.name == name {
            markers_named(ms, name).push(m)
        } else {
            markers_named(ms, name)
        },
{
    assert(ms.push(m).drop_last() =~= ms);
}

proof fn lemma_numbered_push(ms: Seq<MarkerView>, m: MarkerView)
    requires
        markers_numbered(ms),
        m.index == markers_named(ms, m.name).len(),
    ensures
        markers_numbered(ms.push(m)),
{
    let ms2 = ms.push(m);
    assert forall|i: int| 0 <= i < ms2.len() implies #[trigger] ms2[i].index == markers_named(
        ms2.take(i),
        ms2[i].name,
    ).len() by {
        if i < ms.len() {
            assert(ms2.take(i) =~= ms.take(i));
            assert(ms2[i] == ms[i]);
        } else {
            assert(ms2.take(i) =~= ms);
        }
    }
}

impl Server {
    /// The tracer's own consistency: its view is valid, and the per-name counters agree
    /// with the markers recorded.
    pub closed spec fn wf(&self) -> bool {
        &&& self@.valid()
        &&& self.settings.num_heap_operations_per_message > 0
        &&& self.num_markers_recorded == self.issued@.len()
        &&& self.num_heap_operations_sent + self.operations@.len() <= u64::MAX
        &&& forall|k: int|
            0 <= k < self.marker_counts@.len() ==> (#[trigger] self.marker_counts@[k]).count
                == markers_named(self.issued@, self.marker_counts@[k].name@).len()
        &&& forall|k1: int, k2: int|
            0 <= k1 < self.marker_counts@.len() && 0 <= k2 < self.marker_counts@.len() && k1
                != k2 ==> (#[trigger] self.marker_counts@[k1]).name@
                != (#[trigger] self.marker_counts@[k2]).name@
        &&& forall|name: Seq<char>|
            #![trigger markers_named(self.issued@, name)]
            markers_named(self.issued@, name).len() > 0 ==> exists|k: int|
                0 <= k < self.marker_counts@.len() && (#[trigger] self.marker_counts@[k]).name@
                    == name
    }

    /// A consistent tracer's view is valid.
    pub proof fn lemma_view_valid(&self)
        requires
            self.wf(),
        ensures
            self@.valid(),
    {
    }

    pub fn new(settings: Settings) -> (r: Server)
        requires
            settings.num_heap_operations_per_message > 0,
        ensures
            r.wf(),
            r@ == initial_state(
                settings.num_heap_operations_per_message as nat,
                settings.store_backtrace,
            ),
    {
        let r = Server {
            settings,
            operations: Vec::new(),
            markers: Vec::new(),
            marker_counts: Vec::new(),
            num_heap_operations_sent: 0,
            num_bytes_sent: 0,
            terminate: false,
            num_markers_recorded: 0,
            issued: Ghost(Seq::empty()),
        };
        assert(r@.operations =~= Seq::<OperationView>::empty());
        assert(r@.markers =~= Seq::<MarkerView>::empty());
        r
    }

    /// Whether the tracer can take one more message.
    pub fn can_accept(&self) -> (r: bool)
        requires
            self.wf(),
        ensures
            r == self@.accepts(),
    {
        !self.terminate && self.num_heap_operations_sent < u64::MAX - self.operations.len() as u64
            && self.num_markers_recorded < u64::MAX
    }

    fn create_operation_record(micros: u64, heap_operation: HeapOperation, store_backtrace: bool) -> (r:
        OperationRecord)
        ensures
            r@ == operation_view(heap_operation, micros as nat, store_backtrace),
    {
        let backtrace = if store_backtrace {
            heap_operation.backtrace
        } else {
            String::new()
        };
        OperationRecord {
            micros_since_server_start: micros,
            address: heap_operation.address as u64,
            size: heap_operation.size as u64,
            thread_id: heap_operation.thread_id,
            kind: heap_operation.kind,
            backtrace,
        }
    }

    fn push_heap_operation(&mut self, heap_operation: HeapOperation, micros: u64)
        requires
            old(self).wf(),
            old(self)@.next_ordinal() < u64::MAX,
        ensures
            final(self).wf(),
            final(self)@ == (ServerView {
                operations: old(self)@.operations.push(
                    operation_view(heap_operation, micros as nat, old(self)@.store_backtrace),
                ),
                ..old(self)@
            }),
    {
        let ghost before = self@;
        let ghost old_counts = self.marker_counts@;
        let ghost old_issued = self.issued@;
        assert(self@.operations.len() == self.operations@.len());
        let record = Self::create_operation_record(
            micros,
            heap_operation,
            self.settings.store_backtrace,
        );
        self.operations.push(record);
        assert(self.marker_counts@ == old_counts);
        assert(self.issued@ == old_issued);
        assert forall|i: int|
            0 <= i < self@.operations.len() && !self@.store_backtrace implies (
            #[trigger] self@.operations[i]).backtrace.len() == 0 by {
            if i < before.operations.len() {
                assert(self@.operations[i] == before.operations[i]);
            }
        }
        assert(self@.operations =~= before.operations.push(
            operation_view(heap_operation, micros as nat, before.store_backtrace),
        ));
        assert(self@ == (ServerView {
            operations: before.operations.push(
                operation_view(heap_operation, micros as nat, before.store_backtrace),
            ),
            ..before
        }));
    }

    fn push_marker(&mut self, name: &'static str)
        requires
            old(self).wf(),
            old(self)@.accepts(),
        ensures
            final(self).wf(),
            final(self)@ == next_state(old(self)@, ServerMessage::Marker(name), 0),
    {
        let ghost before = self@;
        let ghost old_counts = self.marker_counts@;
        let ghost named = markers_named(self.issued@, name@);
        proof {
            lemma_markers_named_len(self.issued@, name@);
        }
        let name_string = name.to_owned();
        let index: u64;
        let ghost mut slot: int = 0;
        match find_marker_count(&self.marker_counts, &name_string) {
            Some(k) => {
                index = self.marker_counts[k].count;
                self.marker_counts[k].count = index + 1;
                proof {
                    slot = k as int;
                }
            },
            None => {
                index = 0;
                self.marker_counts.push(MarkerCount { name: name.to_owned(), count: 1 });
                proof {
                    slot = self.marker_counts@.len() - 1;
                }
            },
        }
        assert(0 <= slot < self.marker_counts@.len() && self.marker_counts@[slot].name@ == name@);
        let first_operation_seq_no = self.num_heap_operations_sent + self.operations.len() as u64;
        let ghost m = MarkerView {
            name: name@,
            index: named.len(),
            first_operation_seq_no: before.next_ordinal(),
        };
        let ghost old_issued = self.issued@;
        self.markers.push(MarkerRecord { name: name_string, index, first_operation_seq_no });
        self.issued = Ghost(self.issued@.push(m));
        self.num_markers_recorded = self.num_markers_recorded + 1;
        proof {
            lemma_numbered_push(old_issued, m);
            assert forall|n: Seq<char>|
                markers_named(self.issued@, n) == if n == name@ {
                    markers_named(old_issued, n).push(m)
                } else {
                    markers_named(old_issued, n)
                } by {
                lemma_markers_named_push(old_issued, m, n);
            }
            assert(self@.markers =~= before.markers.push(m));
            let counts = self.marker_counts@;
            assert forall|k: int| 0 <= k < counts.len() implies (#[trigger] counts[k]).count
                == markers_named(self.issued@, counts[k].name@).len() by {
                lemma_markers_named_push(old_issued, m, counts[k].name@);
            }
            assert forall|n: Seq<char>|
                #![trigger markers_named(self.issued@, n)]
                markers_named(self.issued@, n).len() > 0 implies exists|k: int|
                    0 <= k < counts.len() && (#[trigger] counts[k]).name@ == n by {
                lemma_markers_named_push(old_issued, m, n);
                if n != name@ {
                    assert(markers_named(old_issued, n).len() > 0);
                    let k = choose|k: int|
                        0 <= k < old_counts.len() && (#[trigger] old_counts[k]).name@ == n;
                    assert(counts[k].name@ == old_counts[k].name@);
                } else {
                    assert(counts[slot].name@ == n);
                }
            }
        }
    }

    /// Takes one message, received `micros` after the tracer started, and says what the
    /// run loop does next.
    pub fn process(&mut self, message: ServerMessage, micros: u64) -> (action: ServerAction)
        requires
            old(self).wf(),
            old(self)@.accepts(),
        ensures
            final(self).wf(),
            final(self)@ == next_state(old(self)@, message, micros as nat),
            action == next_action(old(self)@, message),
    {
        match message {
            ServerMessage::HeapOperation(heap_operation) => {
                self.push_heap_operation(heap_operation, micros);
                assert(self.operations@.len() == self@.operations.len());
                if self.operations.len() >= self.settings.num_heap_operations_per_message {
                    ServerAction::Flush
                } else {
                    ServerAction::Wait
                }
            },
            ServerMessage::Marker(name) => {
                self.push_marker(name);
                ServerAction::Wait
            },
            ServerMessage::Terminate => {
                self.push_heap_operation(HeapOperation::sentinel(), micros);
                self.terminate = true;
                ServerAction::Shutdown
            },
        }
    }


    /// The bytes of the pending frame: its operations and markers, in the order the tracer
    /// recorded them.
    pub fn frame(&self) -> (r: Vec<u8>)
        ensures
            r@ == frame_bytes(self@.frame()),
    {
        let r = encode_frame(&self.operations, &self.markers);
        assert(batch_of(self.operations@, self.markers@) == self@.frame());
        r
    }

    /// Records how the pending frame was sent: `Some(n)` where it was written whole in `n`
    /// bytes, `None` where the write failed. The pending frame is cleared either way.
    pub fn complete_flush(&mut self, bytes_written: Option<usize>)
        requires
            old(self).wf(),
            match bytes_written {
                Some(n) => old(self)@.bytes_sent + n <= u64::MAX,
                None => true,
            },
        ensures
            final(self).wf(),
            final(self)@ == after_flush(old(self)@, bytes_written),
    {
        let ghost before = self@;
        let ghost old_counts = self.marker_counts@;
        let ghost old_issued = self.issued@;
        assert(self@.operations.len() == self.operations@.len());
        if let Some(n) = bytes_written {
            self.num_heap_operations_sent = self.num_heap_operations_sent
                + self.operations.len() as u64;
            self.num_bytes_sent = self.num_bytes_sent + n as u64;
        }
        self.operations.clear();
        self.markers.clear();
        assert(self.marker_counts@ == old_counts);
        assert(self.issued@ == old_issued);
        assert(self@.operations =~= Seq::<OperationView>::empty());
        assert(self@.markers =~= Seq::<MarkerView>::empty());
    }

    /// How many operations went out in frames that were written.
    pub fn num_heap_operations_sent(&self) -> (r: u64)
        ensures
            r == self@.operations_sent,
    {
        self.num_heap_operations_sent
    }

    /// How many bytes went out in frames that were written.
    pub fn num_bytes_sent(&self) -> (r: u64)
        ensures
            r == self@.bytes_sent,
    {
        self.num_bytes_sent
    }

    /// How many operations the pending frame holds.
    pub fn num_pending_operations(&self) -> (r: usize)
        ensures
            r == self@.operations.len(),
    {
        self.operations.len()
    }

    /// Whether the tracer has taken the message that ends the session.
    pub fn is_terminated(&self) -> (r: bool)
        ensures
            r == self@.terminated,
    {
        self.terminate
    }


    /// The operations of the pending frame.
    pub fn operations(&self) -> (r: &Vec<OperationRecord>)
        ensures
            r@.map_values(|op: OperationRecord| op@) == self@.operations,
    {
        &self.operations
    }

    /// The markers of the pending frame.
    pub fn markers(&self) -> (r: &Vec<MarkerRecord>)
        ensures
            r@.map_values(|m: MarkerRecord| m@) == self@.markers,
    {
        &self.markers
    }

}

/// For every name, the markers of that name carry the indices 0, 1, 2, ... in the order
/// they were recorded, with no gap and no repetition.
pub proof fn lemma_marker_indices_consecutive(issued: Seq<MarkerView>, name: Seq<char>)
    requires
        markers_numbered(issued),
    ensures
        forall|j: int|
            0 <= j < markers_named(issued, name).len() ==> (#[trigger] markers_named(
                issued,
                name,
            )[j]).index == j,
    decreases issued.len(),
{
    if issued.len() > 0 {
        let p = issued.drop_last();
        assert forall|i: int| 0 <= i < p.len() implies #[trigger] p[i].index == markers_named(
            p.take(i),
            p[i].name,
        ).len() by {
            assert(p[i] == issued[i]);
            assert(p.take(i) =~= issued.take(i));
        }
        lemma_marker_indices_consecutive(p, name);
        let last = issued.len() - 1;
        assert(issued.take(last) =~= p);
        assert(issued[last].index == markers_named(p, issued[last].name).len());
        let q = markers_named(p, name);
        if issued.last().name == name {
            assert(markers_named(issued, name) == q.push(issued.last()));
            assert forall|j: int| 0 <= j < q.len() + 1 implies (#[trigger] q.push(
                issued.last(),
            )[j]).index == j by {
                if j < q.len() {
                    assert(q.push(issued.last())[j] == q[j]);
                }
            }
        } else {
            assert(markers_named(issued, name) == q);
        }
    }
}

/// Every message keeps the tracer's view valid: markers stay numbered per name, and where
/// backtraces are off every pending operation has an empty backtrace.
pub proof fn lemma_next_state_valid(s: ServerView, message: ServerMessage, micros: nat)
    requires
        s.valid(),
    ensures
        next_state(s, message, micros).valid(),
{
    let t = next_state(s, message, micros);
    match message {
        ServerMessage::Marker(name) => {
            lemma_numbered_push(s.issued, t.issued.last());
            assert(t.issued =~= s.issued.push(t.issued.last()));
        },
        _ => {
            assert forall|i: int|
                0 <= i < t.operations.len() && !t.store_backtrace implies (
                #[trigger] t.operations[i]).backtrace.len() == 0 by {
                if i < s.operations.len() {
                    assert(t.operations[i] == s.operations[i]);
                }
            }
        },
    }
}

/// Where backtraces are off, every operation that the tracer records has an empty
/// backtrace.
pub proof fn lemma_backtrace_disabled(s: ServerView, message: ServerMessage, micros: nat)
    requires
        s.valid(),
        !s.store_backtrace,
    ensures
        forall|i: int|
            0 <= i < next_state(s, message, micros).operations.len() ==> (
            #[trigger] next_state(s, message, micros).operations[i]).backtrace.len() == 0,
{
    lemma_next_state_valid(s, message, micros);
}

/// A marker's `first_operation_seq_no` is the global ordinal of the next operation that
/// the tracer records after it (the sentinel too), whether or not a frame was written in
/// between.
pub proof fn lemma_marker_seq_no_is_next_ordinal(
    s: ServerView,
    name: &'static str,
    next: ServerMessage,
    marker_micros: nat,
    next_micros: nat,
    bytes_written: usize,
)
    requires
        !(next is Marker),
    ensures
        ({
            let s1 = next_state(s, ServerMessage::Marker(name), marker_micros);
            let s2 = next_state(s1, next, next_micros);
            &&& s2.operations.len() == s1.operations.len() + 1
            &&& s1.markers.last().first_operation_seq_no == s2.ordinal(s1.operations.len() as int)
        }),
        ({
            let s1 = next_state(s, ServerMessage::Marker(name), marker_micros);
            let f = after_flush(s1, Some(bytes_written));
            let s2 = next_state(f, next, next_micros);
            &&& s2.operations.len() == 1
            &&& s1.markers.last().first_operation_seq_no == s2.ordinal(0)
        }),
{
}

/// The message that ends the session asks for exactly one more frame, the last, which
/// ends with the sentinel; after it the tracer takes no further message.
pub proof fn lemma_terminate_ends_session(s: ServerView, micros: nat)
    ensures
        next_action(s, ServerMessage::Terminate) == ServerAction::Shutdown,
        next_state(s, ServerMessage::Terminate, micros).terminated,
        !next_state(s, ServerMessage::Terminate, micros).accepts(),
        next_state(s, ServerMessage::Terminate, micros).frame().operations.last() == sentinel_view(
            micros,
        ),
{
}

/// With frames of one operation, every operation is flushed as soon as it is taken.
pub proof fn lemma_batch_of_one_flushes(s: ServerView, heap_operation: HeapOperation, micros: nat)
    requires
        s.batch_limit == 1,
    ensures
        next_action(s, ServerMessage::HeapOperation(heap_operation)) == ServerAction::Flush,
        next_state(s, ServerMessage::HeapOperation(heap_operation), micros).frame().operations.last()
            == operation_view(heap_operation, micros, s.store_backtrace),
{
}

/// The tracer keeps the order in which it receives operations: of two operations taken one
/// after the other, the second gets the next global ordinal, whether or not a frame was
/// written in between, and within one frame it stands right after the first.
pub proof fn lemma_operations_keep_order(
    s: ServerView,
    first: HeapOperation,
    second: HeapOperation,
    first_micros: nat,
    second_micros: nat,
    bytes_written: usize,
)
    ensures
        ({
            let s1 = next_state(s, ServerMessage::HeapOperation(first), first_micros);
            let s2 = next_state(s1, ServerMessage::HeapOperation(second), second_micros);
            let n = s.operations.len() as int;
            &&& s2.operations[n] == operation_view(first, first_micros, s.store_backtrace)
            &&& s2.operations[n + 1] == operation_view(second, second_micros, s.store_backtrace)
            &&& s2.ordinal(n + 1) == s2.ordinal(n) + 1
        }),
        ({
            let s1 = next_state(s, ServerMessage::HeapOperation(first), first_micros);
            let f = after_flush(s1, Some(bytes_written));
            let s2 = next_state(f, ServerMessage::HeapOperation(second), second_micros);
            &&& s1.ordinal(s.operations.len() as int) == s.next_ordinal()
            &&& s2.ordinal(0) == s.next_ordinal() + 1
        }),
{
}

} // verus!
