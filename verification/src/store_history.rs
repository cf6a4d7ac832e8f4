//! What becomes of stored data while the store is in use by others.

use vstd::prelude::*;

use crate::memory;
use crate::metadata::SegmentView;
use crate::server::{ActionView, Outcome};
use crate::store::{MasterView, ReplicaView};
use crate::store_client;
use crate::store_client::{GetStep, PutStep};
use crate::store_laws;
use crate::transfer;
use crate::transfer_laws;
use crate::wire;

verus! {

/// The master and what the segments hold, by name.
#[verifier::ext_equal]
pub struct StoreState {
    pub master: MasterView,
    pub memories: Map<Seq<char>, Seq<u8>>,
}

/// Something that happens to the store.
pub enum StoreOp {
    /// A node brings a segment of zero bytes.
    Register { name: Seq<char>, capacity: usize },
    /// A put is started.
    PutStart { client: Seq<char>, key: Seq<char>, size: nat },
    /// Data arrives at the bytes of a replica. Its object may be gone by then.
    Write { replica: ReplicaView, data: Seq<u8> },
    /// A put is ended.
    PutEnd { key: Seq<char>, now: u128 },
    /// An object is looked up.
    Query { key: Seq<char>, now: u128 },
    /// An object is removed.
    Remove { key: Seq<char> },
    /// The objects whose lease has run out are removed.
    Evict { now: u128 },
}

impl StoreState {
    /// The master is valid, its replicas do not overlap, and the segments are
    /// as large as it was told.
    pub open spec fn sound(self) -> bool {
        &&& self.master.valid()
        &&& store_laws::sound_layout(self.master)
        &&& store_laws::memories_match(self.memories, self.master)
    }

    /// The state after an operation.
    pub open spec fn apply(self, op: StoreOp) -> StoreState {
        match op {
            StoreOp::Register { name, capacity } => StoreState {
                master: self.master.register_segment(name, capacity as nat),
                memories: self.memories.insert(name, Seq::new(capacity as nat, |i: int| 0u8)),
            },
            StoreOp::PutStart { client, key, size } => StoreState {
                master: self.master.put_start(client, key, size),
                ..self
            },
            StoreOp::Write { replica, data } => StoreState {
                memories: store_laws::stored(self.memories, replica, data),
                ..self
            },
            StoreOp::PutEnd { key, now } => StoreState {
                master: self.master.put_end(key, now),
                ..self
            },
            StoreOp::Query { key, now } => StoreState {
                master: self.master.query(key, now),
                ..self
            },
            StoreOp::Remove { key } => StoreState { master: self.master.remove(key), ..self },
            StoreOp::Evict { now } => StoreState {
                master: self.master.run_eviction(now),
                ..self
            },
        }
    }

    /// The state after several operations.
    pub open spec fn apply_all(self, ops: Seq<StoreOp>) -> StoreState
        decreases ops.len(),
    {
        if ops.len() == 0 {
            self
        } else {
            self.apply_all(ops.drop_last()).apply(ops.last())
        }
    }

    /// Whether an operation is one that the store's users make and that lets
    /// the first replica of `key` be: segments are new, data fills bytes that
    /// were handed out for it and that are apart from the first replica of
    /// `key`, `key` is not removed, and its lease has not run out when someone
    /// looks.
    pub open spec fn spares(self, op: StoreOp, key: Seq<char>) -> bool {
        match op {
            StoreOp::Register { name, .. } => !self.master.allocators.contains_key(name),
            StoreOp::PutStart { .. } => true,
            StoreOp::Write { replica, data } => {
                &&& store_laws::handed_out(self.master, replica)
                &&& replica.size == data.len()
                &&& store_laws::apart(replica, self.master.objects[key].replicas[0])
            },
            StoreOp::PutEnd { key: other, now } => now + self.master.lease_ttl <= u128::MAX,
            StoreOp::Query { key: other, now } => other == key ==> self.master.found(
                key,
                now,
            ) is Some,
            StoreOp::Remove { key: other } => other != key,
            StoreOp::Evict { now } => self.master.found(key, now) is Some,
        }
    }

    /// Whether each of several operations, made one after the other, lets the
    /// first replica of `key` be.
    pub open spec fn spares_all(self, ops: Seq<StoreOp>, key: Seq<char>) -> bool
        decreases ops.len(),
    {
        ops.len() == 0 || (self.spares_all(ops.drop_last(), key) && self.apply_all(
            ops.drop_last(),
        ).spares(ops.last(), key))
    }

    /// Whether each of several operations, made one after the other, that
    /// registers a segment registers a new one.
    pub open spec fn registers_only_new(self, ops: Seq<StoreOp>) -> bool
        decreases ops.len(),
    {
        ops.len() == 0 || (self.registers_only_new(ops.drop_last()) && match ops.last() {
            StoreOp::Register { name, .. } => !self.apply_all(
                ops.drop_last(),
            ).master.allocators.contains_key(name),
            _ => true,
        })
    }

    /// Whether the first replica of `key` lies where `replica` does and holds
    /// `data`.
    pub open spec fn holds(self, key: Seq<char>, replica: ReplicaView, data: Seq<u8>) -> bool {
        &&& self.master.objects.contains_key(key)
        &&& store_laws::same_bytes(self.master.objects[key].replicas[0], replica)
        &&& store_laws::loaded(self.memories, replica) == data
    }
}

proof fn lemma_sound_after(state: StoreState, op: StoreOp, key: Seq<char>)
    requires
        state.sound(),
        state.spares(op, key),
    ensures
        state.apply(op).sound(),
{
    let master = state.master;
    match op {
        StoreOp::Register { name, capacity } => {
            store_laws::law_operations_keep_valid(master, name, capacity, key, key, 0, 0);
            store_laws::law_new_segment_keeps_layout(master, name, capacity as nat);
        },
        StoreOp::PutStart { client, key: other, size } => {
            store_laws::law_operations_keep_valid(master, key, 0, client, other, size, 0);
            store_laws::law_put_start_keeps_layout(master, client, other, size);
            let after = master.put_start(client, other, size);
            assert forall|name: Seq<char>| #[trigger]
                after.allocators.contains_key(name) implies master.allocators.contains_key(name)
                && after.allocators[name].capacity == master.allocators[name].capacity by {
                if master.placed_replica(size) is Some {
                    store_laws::lemma_placed_in_pool(master, size);
                }
            }
        },
        StoreOp::Write { replica, data } => {
            let after = state.apply(op);
            assert(after.memories[replica.segment_name].len()
                == state.memories[replica.segment_name].len());
        },
        StoreOp::PutEnd { key: other, now } => {
            store_laws::law_operations_keep_valid(master, key, 0, key, other, 0, now);
            store_laws::law_put_end_keeps_layout(master, other, now);
        },
        StoreOp::Query { key: other, now } => {
            store_laws::law_operations_keep_valid(master, key, 0, key, other, 0, now);
            store_laws::law_removing_keeps_layout(master, other, now);
        },
        StoreOp::Remove { key: other } => {
            store_laws::law_operations_keep_valid(master, key, 0, key, other, 0, 0);
            store_laws::law_removing_keeps_layout(master, other, 0);
        },
        StoreOp::Evict { now } => {
            store_laws::law_operations_keep_valid(master, key, 0, key, key, 0, now);
            store_laws::law_removing_keeps_layout(master, key, now);
        },
    }
}

proof fn lemma_holds_after(
    state: StoreState,
    op: StoreOp,
    key: Seq<char>,
    replica: ReplicaView,
    data: Seq<u8>,
)
    requires
        state.sound(),
        state.spares(op, key),
        state.holds(key, replica, data),
    ensures
        state.apply(op).holds(key, replica, data),
{
    let master = state.master;
    assert(master.objects[key].valid());
    assert(store_laws::has_replica(master, key, 0));
    match op {
        StoreOp::Register { name, .. } => {
            assert(replica.segment_name != name);
        },
        StoreOp::Write { replica: target, data: written } => {
            if target.segment_name == replica.segment_name {
                memory::law_write_leaves_other_ranges(
                    state.memories[replica.segment_name],
                    target.offset,
                    written,
                    replica.offset,
                    replica.size,
                );
            }
        },
        _ => {},
    }
}

/// Data that was written to the first replica of an object stays there,
/// whatever else is registered, put, looked up, removed or evicted, for as
/// long as the object is spared; and the store stays sound.
pub proof fn law_written_data_survives(
    state: StoreState,
    ops: Seq<StoreOp>,
    key: Seq<char>,
    replica: ReplicaView,
    data: Seq<u8>,
)
    requires
        state.sound(),
        state.holds(key, replica, data),
        state.spares_all(ops, key),
    ensures
        state.apply_all(ops).sound(),
        state.apply_all(ops).holds(key, replica, data),
    decreases ops.len(),
{
    if ops.len() > 0 {
        law_written_data_survives(state, ops.drop_last(), key, replica, data);
        let before = state.apply_all(ops.drop_last());
        lemma_sound_after(before, ops.last(), key);
        lemma_holds_after(before, ops.last(), key, replica, data);
    }
}

/// A put under `key` in three steps, and what else happens to the store before
/// each of them is made and after the last.
pub struct PutHistory {
    /// The store before the put.
    pub start: StoreState,
    pub client: Seq<char>,
    pub key: Seq<char>,
    pub data: Seq<u8>,
    /// What happens between the start of the put and the arrival of its data.
    pub before_write: Seq<StoreOp>,
    /// What happens between the arrival of the data and the end of the put.
    pub before_end: Seq<StoreOp>,
    /// The clock reading at which the put is ended.
    pub put_time: u128,
    /// What happens after the end of the put.
    pub before_get: Seq<StoreOp>,
}

impl PutHistory {
    /// The replica that the put is given.
    pub open spec fn placed(self) -> Option<ReplicaView> {
        self.start.master.placed_replica(self.data.len())
    }

    /// The store once the put has started.
    pub open spec fn started(self) -> StoreState {
        self.start.apply(
            StoreOp::PutStart { client: self.client, key: self.key, size: self.data.len() },
        )
    }

    /// The store when the data arrives.
    pub open spec fn waiting(self) -> StoreState {
        self.started().apply_all(self.before_write)
    }

    /// The store once the data has arrived.
    pub open spec fn written(self) -> StoreState {
        self.waiting().apply(StoreOp::Write { replica: self.placed()->0, data: self.data })
    }

    /// The store when the put is to be ended.
    pub open spec fn ready(self) -> StoreState {
        self.written().apply_all(self.before_end)
    }

    /// The store once the put has ended.
    pub open spec fn ended(self) -> StoreState {
        self.ready().apply(StoreOp::PutEnd { key: self.key, now: self.put_time })
    }

    /// The store in the end.
    pub open spec fn last(self) -> StoreState {
        self.ended().apply_all(self.before_get)
    }

    /// The put is the first under its key, it finds room, and what else
    /// happens lets its replica be.
    pub open spec fn undisturbed(self) -> bool {
        &&& self.start.sound()
        &&& !self.start.master.objects.contains_key(self.key)
        &&& self.placed() is Some
        &&& self.started().spares_all(self.before_write, self.key)
        &&& self.written().spares_all(self.before_end, self.key)
        &&& self.put_time + self.ready().master.lease_ttl <= u128::MAX
        &&& self.ended().spares_all(self.before_get, self.key)
    }
}

/// When the data of an undisturbed put arrives, the replica that the put was
/// given is there for it, and the store is sound.
proof fn lemma_waiting_for_data(history: PutHistory)
    requires
        history.undisturbed(),
    ensures
        ({
            let placed = history.placed()->0;
            let first = history.waiting().master.objects[history.key].replicas[0];
            &&& history.waiting().sound()
            &&& store_laws::has_replica(history.waiting().master, history.key, 0)
            &&& store_laws::same_bytes(first, placed)
            &&& store_laws::handed_out(history.waiting().master, placed)
            &&& placed.size == history.data.len()
        }),
{
    let placed = history.placed()->0;
    let started = history.started();
    lemma_sound_after(
        history.start,
        StoreOp::PutStart {
            client: history.client,
            key: history.key,
            size: history.data.len(),
        },
        history.key,
    );
    assert(started.master.objects[history.key].replicas =~= seq![placed]);
    law_written_data_survives(
        started,
        history.before_write,
        history.key,
        placed,
        store_laws::loaded(started.memories, placed),
    );
    assert(history.waiting().master.objects[history.key].valid());
    assert(store_laws::has_replica(history.waiting().master, history.key, 0));
}

/// A get gives back what a put stored, whatever happens between. A put under a
/// new key is started; other things happen; its data arrives; other things
/// happen; it is ended; other things happen. A get that finds the object then
/// reads the replica that the put was given, and that holds the data.
pub proof fn law_put_is_got_back(history: PutHistory, now: u128)
    requires
        history.undisturbed(),
        history.last().master.found(history.key, now) is Some,
    ensures
        history.ready().master.objects.contains_key(history.key),
        store_client::replica_to_read(history.last().master, history.key, now) == Some(
            history.placed()->0.committed(),
        ),
        store_laws::loaded(history.last().memories, history.placed()->0.committed())
            == history.data,
        history.last().sound(),
        store_laws::has_replica(history.last().master, history.key, 0),
        history.last().master.objects[history.key].replicas[0] == history.placed()->0.committed(),
{
    let placed = history.placed()->0;
    let key = history.key;
    let data = history.data;
    let waiting = history.waiting();
    let written = history.written();
    let ready = history.ready();
    let ended = history.ended();
    let last = history.last();

    lemma_waiting_for_data(history);
    assert(written.memories[placed.segment_name].len()
        == waiting.memories[placed.segment_name].len());
    memory::law_read_back_of_write(waiting.memories[placed.segment_name], placed.offset, data);
    assert(written.sound());
    law_written_data_survives(written, history.before_end, key, placed, data);

    lemma_sound_after(ready, StoreOp::PutEnd { key, now: history.put_time }, key);
    lemma_holds_after(ready, StoreOp::PutEnd { key, now: history.put_time }, key, placed, data);
    law_written_data_survives(ended, history.before_get, key, placed, data);

    assert(last.master.objects[key].valid());
    lemma_committed_after_all(ended, history.before_get, key, placed, data);
    store_laws::law_committed_object_is_read_from_first_replica(last.master.objects[key]);
}

/// The node that holds a replica serves it whatever was done to the store
/// before: it acknowledges a write of the replica's data and then holds it
/// there, and it answers a read with the replica's bytes, all of them and
/// nothing else.
pub proof fn law_exchanges_reach_replicas(state: StoreState, replica: ReplicaView, data: Seq<u8>)
    requires
        state.sound(),
        store_laws::handed_out(state.master, replica),
        replica.size == data.len(),
    ensures
        ({
            let memory = state.memories[replica.segment_name];
            &&& transfer_laws::answer(
                memory,
                transfer::write_exchange(replica.offset, data).message,
            ) == Outcome::replied(
                state.apply(StoreOp::Write { replica, data }).memories[replica.segment_name],
                seq![wire::ACK],
            )
            &&& transfer_laws::answer(
                memory,
                transfer::read_exchange(replica.offset, replica.size).message,
            ) == Outcome::replied(memory, store_laws::loaded(state.memories, replica))
        }),
{
    let memory = state.memories[replica.segment_name];
    assert(state.master.allocators[replica.segment_name].valid());
    transfer_laws::law_server_answers_write(memory, replica.offset as usize, data);
    transfer_laws::law_server_answers_read(
        memory,
        replica.offset as usize,
        replica.size as usize,
    );
}

/// A committed object stays committed while it is spared.
proof fn lemma_committed_after_all(
    state: StoreState,
    ops: Seq<StoreOp>,
    key: Seq<char>,
    replica: ReplicaView,
    data: Seq<u8>,
)
    requires
        state.sound(),
        state.holds(key, replica, data),
        state.master.objects[key].lease_deadline is Some,
        state.spares_all(ops, key),
    ensures
        state.apply_all(ops).master.objects[key].lease_deadline is Some,
    decreases ops.len(),
{
    if ops.len() > 0 {
        lemma_committed_after_all(state, ops.drop_last(), key, replica, data);
        law_written_data_survives(state, ops.drop_last(), key, replica, data);
    }
}

/// What is done to the store takes no segment away, keeps the size of each and
/// gives no byte of it back, as long as no known segment is registered again;
/// and it keeps the master valid.
pub proof fn law_nothing_is_given_back(state: StoreState, ops: Seq<StoreOp>, name: Seq<char>)
    requires
        state.master.valid(),
        state.registers_only_new(ops),
    ensures
        state.apply_all(ops).master.valid(),
        state.master.allocators.contains_key(name) ==> ({
            let before = state.master.allocators[name];
            let after = state.apply_all(ops).master.allocators[name];
            &&& state.apply_all(ops).master.allocators.contains_key(name)
            &&& after.capacity == before.capacity
            &&& after.offset >= before.offset
        }),
    decreases ops.len(),
{
    if ops.len() > 0 {
        law_nothing_is_given_back(state, ops.drop_last(), name);
        let master = state.apply_all(ops.drop_last()).master;
        match ops.last() {
            StoreOp::Register { name: new, capacity } => {
                store_laws::law_operations_keep_valid(master, new, capacity, new, new, 0, 0);
            },
            StoreOp::PutStart { client, key, size } => {
                store_laws::law_operations_keep_valid(master, key, 0, client, key, size, 0);
            },
            StoreOp::PutEnd { key, now } => {
                store_laws::law_operations_keep_valid(master, key, 0, key, key, 0, now);
            },
            StoreOp::Query { key, now } => {
                store_laws::law_operations_keep_valid(master, key, 0, key, key, 0, now);
            },
            StoreOp::Remove { key } => {
                store_laws::law_operations_keep_valid(master, key, 0, key, key, 0, 0);
            },
            StoreOp::Evict { now } => {
                store_laws::law_operations_keep_valid(master, name, 0, name, name, 0, now);
            },
            StoreOp::Write { .. } => {},
        }
    }
}

/// No byte is handed out twice: the replicas of any two puts have no byte in
/// common and end within their segments, whatever happens between the puts, and
/// also if the first object is removed, evicted or never committed. Only
/// registering a known segment again is left out, which frees it.
pub proof fn law_puts_never_overlap(
    start: StoreState,
    client: Seq<char>,
    key: Seq<char>,
    size: nat,
    between: Seq<StoreOp>,
    later_size: nat,
)
    requires
        start.master.valid(),
        start.master.placed_replica(size) is Some,
        ({
            let started = start.apply(StoreOp::PutStart { client, key, size });
            &&& started.registers_only_new(between)
            &&& started.apply_all(between).master.placed_replica(later_size) is Some
        }),
    ensures
        ({
            let last = start.apply(StoreOp::PutStart { client, key, size }).apply_all(
                between,
            ).master;
            let first = start.master.placed_replica(size)->0;
            let later = last.placed_replica(later_size)->0;
            &&& store_laws::apart(first, later)
            &&& store_laws::apart(later, first)
            &&& last.allocators.contains_key(first.segment_name)
            &&& first.offset + first.size <= last.allocators[first.segment_name].capacity
            &&& last.allocators.contains_key(later.segment_name)
            &&& later.offset + later.size <= last.allocators[later.segment_name].capacity
        }),
{
    let started = start.apply(StoreOp::PutStart { client, key, size });
    let last = started.apply_all(between).master;
    let first = start.master.placed_replica(size)->0;
    store_laws::lemma_placed_in_pool(start.master, size);
    store_laws::law_operations_keep_valid(start.master, key, 0, client, key, size, 0);
    law_nothing_is_given_back(started, between, first.segment_name);
    store_laws::lemma_placed_in_pool(last, later_size);
}

/// Data that arrives at any other replica of the store lets the first replica
/// of `key` be, whether that other replica was committed before its data came
/// or not.
pub proof fn law_data_of_stored_replicas_spares_others(
    state: StoreState,
    key: Seq<char>,
    other: Seq<char>,
    index: int,
    data: Seq<u8>,
)
    requires
        state.sound(),
        store_laws::has_replica(state.master, key, 0),
        store_laws::has_replica(state.master, other, index),
        other != key || index != 0,
        state.master.objects[other].replicas[index].size == data.len(),
    ensures
        state.spares(
            StoreOp::Write { replica: state.master.objects[other].replicas[index], data },
            key,
        ),
{
}

/// Data of one put lets the replica of another be, however late it arrives and
/// whatever became of its own object. There are two puts, with any operations
/// between and after them. If one of them gave `key` its first replica, then
/// the data of the other one spares `key`.
pub proof fn law_late_data_spares_others(
    start: StoreState,
    first_put: StoreOp,
    between: Seq<StoreOp>,
    later_put: StoreOp,
    after: Seq<StoreOp>,
    key: Seq<char>,
    data: Seq<u8>,
)
    requires
        start.master.valid(),
        first_put matches StoreOp::PutStart { size, .. } && start.master.placed_replica(
            size,
        ) is Some,
        start.apply(first_put).registers_only_new(between),
        later_put matches StoreOp::PutStart { size, .. } && start.apply(first_put).apply_all(
            between,
        ).master.placed_replica(size) is Some,
        start.apply(first_put).apply_all(between).apply(later_put).registers_only_new(after),
    ensures
        ({
            let middle = start.apply(first_put).apply_all(between);
            let last = middle.apply(later_put).apply_all(after);
            let first = start.master.placed_replica(first_put->PutStart_size)->0;
            let later = middle.master.placed_replica(later_put->PutStart_size)->0;
            let own = last.master.objects[key].replicas[0];
            &&& store_laws::same_bytes(own, later) && data.len() == first.size ==> last.spares(
                StoreOp::Write { replica: first, data },
                key,
            )
            &&& store_laws::same_bytes(own, first) && data.len() == later.size ==> last.spares(
                StoreOp::Write { replica: later, data },
                key,
            )
        }),
{
    let started = start.apply(first_put);
    let middle = started.apply_all(between);
    let resumed = middle.apply(later_put);
    if let StoreOp::PutStart { client, key: first_key, size } = first_put {
        if let StoreOp::PutStart { client: later_client, key: later_key, size: later_size } =
            later_put {
            let first = start.master.placed_replica(size)->0;
            let later = middle.master.placed_replica(later_size)->0;
            law_puts_never_overlap(start, client, first_key, size, between, later_size);
            store_laws::lemma_placed_in_pool(start.master, size);
            store_laws::law_operations_keep_valid(
                start.master,
                key,
                0,
                client,
                first_key,
                size,
                0,
            );
            law_nothing_is_given_back(started, between, first.segment_name);
            store_laws::lemma_placed_in_pool(middle.master, later_size);
            store_laws::law_operations_keep_valid(
                middle.master,
                key,
                0,
                later_client,
                later_key,
                later_size,
                0,
            );
            law_nothing_is_given_back(resumed, after, first.segment_name);
            law_nothing_is_given_back(resumed, after, later.segment_name);
        }
    }
}

/// Every segment of the master's pool is registered, under its own name.
pub open spec fn pool_is_registered(
    master: MasterView,
    segments: Map<Seq<char>, SegmentView>,
) -> bool {
    forall|name: Seq<char>| #[trigger]
        master.allocators.contains_key(name) ==> segments.contains_key(name)
            && segments[name].name == name
}

/// What the segments hold once the node `local_name` has done what a step of
/// its put says, and none if that fails: the data does not fit into the local
/// segment, or another node does not acknowledge it.
pub open spec fn put_performed(
    step: PutStep,
    data: Seq<u8>,
    local_name: Seq<char>,
    memories: Map<Seq<char>, Seq<u8>>,
) -> Option<Map<Seq<char>, Seq<u8>>> {
    match step {
        PutStep::NoSpace => None,
        PutStep::WriteLocal { offset } => if memory::in_bounds(
            offset as nat,
            data.len(),
            memories[local_name].len(),
        ) {
            Some(
                memories.insert(
                    local_name,
                    memory::overwrite(memories[local_name], offset as nat, data),
                ),
            )
        } else {
            None
        },
        PutStep::WriteRemote(call) => {
            let outcome = transfer_laws::answer(
                memories[call.remote@.name],
                call.exchange@.message,
            );
            if outcome.action == ActionView::Send(seq![wire::ACK]) {
                Some(memories.insert(call.remote@.name, outcome.memory))
            } else {
                None
            }
        },
    }
}

/// What the node `local_name` gets when it does what a step of its get says,
/// and none if there is nothing to get or that fails.
pub open spec fn get_performed(
    step: GetStep,
    local_name: Seq<char>,
    memories: Map<Seq<char>, Seq<u8>>,
) -> Option<Seq<u8>> {
    match step {
        GetStep::Absent => None,
        GetStep::ReadLocal { offset, size } => if memory::in_bounds(
            offset as nat,
            size as nat,
            memories[local_name].len(),
        ) {
            Some(memory::slice_of(memories[local_name], offset as nat, size as nat))
        } else {
            None
        },
        GetStep::ReadRemote(call) => match transfer_laws::answer(
            memories[call.remote@.name],
            call.exchange@.message,
        ).action {
            ActionView::Send(reply) => if reply.len() == call.exchange@.reply_length {
                Some(reply)
            } else {
                None
            },
            _ => None,
        },
    }
}

/// One client gets what another has put, whichever node holds the replica and
/// whatever happens between. The client `putter` puts data under a new key and
/// does what the step of its put says; that succeeds, the segments then hold
/// the data as in `history`, and the object is there to be committed. The client `getter`, which may be the same,
/// asks for the key while its lease lasts. The replica can be reached, and what
/// the step of the get brings is the data, all of it and nothing else.
pub proof fn law_client_gets_what_was_put(
    history: PutHistory,
    put_segments: Map<Seq<char>, SegmentView>,
    put_step: PutStep,
    getter: Seq<char>,
    get_segments: Map<Seq<char>, SegmentView>,
    get_step: GetStep,
    now: u128,
)
    requires
        history.undisturbed(),
        pool_is_registered(history.start.master, put_segments),
        put_step.serves(history.placed(), history.data, history.client, put_segments),
        pool_is_registered(history.last().master, get_segments),
        history.last().master.found(history.key, now) is Some,
        get_step.serves(
            store_client::replica_to_read(history.last().master, history.key, now),
            getter,
            get_segments,
        ),
    ensures
        !store_client::unreachable_replica(history.placed(), history.client, put_segments),
        put_performed(put_step, history.data, history.client, history.waiting().memories) == Some(
            history.written().memories,
        ),
        history.ready().master.objects.contains_key(history.key),
        !store_client::unreachable_replica(
            store_client::replica_to_read(history.last().master, history.key, now),
            getter,
            get_segments,
        ),
        get_performed(get_step, getter, history.last().memories) == Some(history.data),
{
    let placed = history.placed()->0;
    store_laws::lemma_placed_in_pool(history.start.master, history.data.len());
    lemma_waiting_for_data(history);
    law_exchanges_reach_replicas(history.waiting(), placed, history.data);
    law_put_is_got_back(history, now);
    law_exchanges_reach_replicas(history.last(), placed.committed(), history.data);
}

} // verus!
