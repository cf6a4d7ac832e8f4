//! What holds of the store as a whole.

use vstd::prelude::*;

use crate::error::TransferError;
use crate::memory;
use crate::metadata::SegmentView;
use crate::server::{ActionView, Outcome};
use crate::store;
use crate::store::{MasterView, ObjectView, ReplicaStatus, ReplicaView};
use crate::store_client;
use crate::store_client::{GetStep, PutStep};
use crate::transfer;
use crate::transfer_laws;
use crate::wire;
use crate::wire::OpCode;

verus! {

// ---------------------------------------------------------------- placement

/// Allocation is first fit: a put goes to the first registered segment that
/// has room, to the first byte there that was never handed out; it finds no
/// place only if no segment has room.
pub proof fn law_placement_is_first_fit(master: MasterView, size: nat)
    requires
        master.valid(),
    ensures
        match master.placed_replica(size) {
            Some(replica) => exists|i: int|
                0 <= i < master.segment_order.len() && #[trigger] master.segment_order[i]
                    == replica.segment_name && master.allocators[replica.segment_name].fits(size)
                    && replica.offset == master.allocators[replica.segment_name].offset
                    && replica.size == size && forall|j: int|
                    0 <= j < i ==> !master.allocators[#[trigger] master.segment_order[j]].fits(
                        size,
                    ),
            None => forall|name: Seq<char>| #[trigger]
                master.allocators.contains_key(name) ==> !master.allocators[name].fits(size),
        },
{
    store::lemma_first_fit(master.segment_order, master.allocators, size, 0);
    match master.placement(size) {
        Some(i) => {
            assert(master.segment_order[i] == master.placed_replica(size)->0.segment_name);
        },
        None => {
            assert forall|name: Seq<char>| #[trigger]
                master.allocators.contains_key(name) implies !master.allocators[name].fits(
                size,
            ) by {
                assert(master.segment_order.contains(name));
                let j = choose|j: int|
                    0 <= j < master.segment_order.len() && master.segment_order[j] == name;
            }
        },
    }
}

/// The replica that was placed lies in a segment of the pool.
pub proof fn lemma_placed_in_pool(master: MasterView, size: nat)
    requires
        master.valid(),
        master.placed_replica(size) is Some,
    ensures
        ({
            let replica = master.placed_replica(size)->0;
            &&& master.allocators.contains_key(replica.segment_name)
            &&& master.allocators[replica.segment_name].fits(size)
            &&& replica.offset == master.allocators[replica.segment_name].offset
            &&& replica.size == size
        }),
{
    store::lemma_first_fit(master.segment_order, master.allocators, size, 0);
    let i = master.placement(size)->0;
    assert(master.segment_order.contains(master.segment_order[i]));
}

/// Whether the object of `key` has a replica at position `i`.
pub open spec fn has_replica(master: MasterView, key: Seq<char>, i: int) -> bool {
    master.objects.contains_key(key) && 0 <= i < master.objects[key].replicas.len()
}

/// Whether two replicas have no byte in common.
pub open spec fn apart(a: ReplicaView, b: ReplicaView) -> bool {
    a.segment_name != b.segment_name || a.offset + a.size <= b.offset || b.offset + b.size
        <= a.offset
}

/// Whether two replicas are the same bytes.
pub open spec fn same_bytes(a: ReplicaView, b: ReplicaView) -> bool {
    &&& a.segment_name == b.segment_name
    &&& a.offset == b.offset
    &&& a.size == b.size
}

/// Whether a replica lies in the part of its segment that was handed out.
pub open spec fn handed_out(master: MasterView, replica: ReplicaView) -> bool {
    &&& master.allocators.contains_key(replica.segment_name)
    &&& replica.offset + replica.size <= master.allocators[replica.segment_name].offset
}

/// Every replica lies in the part of its segment that was handed out, and no
/// two replicas have a byte in common.
pub open spec fn sound_layout(master: MasterView) -> bool {
    &&& forall|key: Seq<char>, i: int| #[trigger]
        has_replica(master, key, i) ==> handed_out(master, master.objects[key].replicas[i])
    &&& forall|a: Seq<char>, i: int, b: Seq<char>, j: int|
        #![trigger has_replica(master, a, i), has_replica(master, b, j)]
        has_replica(master, a, i) && has_replica(master, b, j) && (a != b || i != j) ==> apart(
            master.objects[a].replicas[i],
            master.objects[b].replicas[j],
        )
}

/// A put never hands out bytes that a replica occupies: starting it keeps the
/// layout sound.
pub proof fn law_put_start_keeps_layout(
    master: MasterView,
    client: Seq<char>,
    key: Seq<char>,
    size: nat,
)
    requires
        master.valid(),
        sound_layout(master),
    ensures
        sound_layout(master.put_start(client, key, size)),
{
    if master.placed_replica(size) is Some {
        lemma_placed_in_pool(master, size);
        let replica = master.placed_replica(size)->0;
        let after = master.put_start(client, key, size);
        let count = master.object_for_put(client, key, size).replicas.len();
        assert forall|k: Seq<char>, i: int| #[trigger] has_replica(after, k, i) implies (if k == key
            && i == count {
            after.objects[k].replicas[i] == replica
        } else {
            has_replica(master, k, i) && after.objects[k].replicas[i]
                == master.objects[k].replicas[i]
        }) by {}
        assert forall|a: Seq<char>, i: int, b: Seq<char>, j: int|
            #![trigger has_replica(after, a, i), has_replica(after, b, j)]
            has_replica(after, a, i) && has_replica(after, b, j) && (a != b || i != j) implies apart(
            after.objects[a].replicas[i],
            after.objects[b].replicas[j],
        ) by {}
    }
}

/// Ending a put moves no replica: the layout stays sound.
pub proof fn law_put_end_keeps_layout(master: MasterView, key: Seq<char>, now: u128)
    requires
        sound_layout(master),
    ensures
        sound_layout(master.put_end(key, now)),
{
    let after = master.put_end(key, now);
    assert forall|k: Seq<char>, i: int| #[trigger] has_replica(after, k, i) implies has_replica(
        master,
        k,
        i,
    ) && after.objects[k].replicas[i].segment_name == master.objects[k].replicas[i].segment_name
        && after.objects[k].replicas[i].offset == master.objects[k].replicas[i].offset
        && after.objects[k].replicas[i].size == master.objects[k].replicas[i].size by {}
}

/// Queries, removals and evictions move no replica and give no byte back:
/// the layout stays sound and the allocators stay as they are.
pub proof fn law_removing_keeps_layout(master: MasterView, key: Seq<char>, now: u128)
    requires
        sound_layout(master),
    ensures
        sound_layout(master.query(key, now)),
        sound_layout(master.remove(key)),
        sound_layout(master.run_eviction(now)),
        master.query(key, now).allocators == master.allocators,
        master.remove(key).allocators == master.allocators,
        master.run_eviction(now).allocators == master.allocators,
{
    let removed = master.remove(key);
    assert forall|k: Seq<char>, i: int| #[trigger] has_replica(removed, k, i) implies has_replica(
        master,
        k,
        i,
    ) && removed.objects[k] == master.objects[k] by {}
    let evicted = master.run_eviction(now);
    assert forall|k: Seq<char>, i: int| #[trigger] has_replica(evicted, k, i) implies has_replica(
        master,
        k,
        i,
    ) && evicted.objects[k] == master.objects[k] by {}
}

/// A new segment brings no replica with it: the layout stays sound. (A
/// segment that was known before is handed out anew, over the replicas in
/// it.)
pub proof fn law_new_segment_keeps_layout(master: MasterView, name: Seq<char>, size: nat)
    requires
        sound_layout(master),
        !master.allocators.contains_key(name),
    ensures
        sound_layout(master.register_segment(name, size)),
{
    let after = master.register_segment(name, size);
    assert forall|k: Seq<char>, i: int| #[trigger] has_replica(after, k, i) implies has_replica(
        master,
        k,
        i,
    ) by {}
}

/// A master that knows nothing has a sound layout and is valid.
pub proof fn law_empty_master_is_sound(lease_ttl: u128)
    requires
        lease_ttl <= crate::clock::MAX_NANOS,
    ensures
        MasterView::empty(lease_ttl).valid(),
        sound_layout(MasterView::empty(lease_ttl)),
{
}

/// Every operation keeps a master valid.
pub proof fn law_operations_keep_valid(
    master: MasterView,
    name: Seq<char>,
    segment_size: usize,
    client: Seq<char>,
    key: Seq<char>,
    size: nat,
    now: u128,
)
    requires
        master.valid(),
    ensures
        master.register_segment(name, segment_size as nat).valid(),
        master.put_start(client, key, size).valid(),
        master.put_end(key, now).valid(),
        master.query(key, now).valid(),
        master.remove(key).valid(),
        master.run_eviction(now).valid(),
{
    store::lemma_register_keeps_valid(master, name, segment_size as nat);
    store::lemma_put_start_keeps_valid(master, client, key, size);
}

// ------------------------------------------------------------------- leases

/// A lease that has run out stays run out.
pub proof fn law_expiry_is_permanent(object: ObjectView, now: u128, later: u128)
    requires
        object.expired(now),
        now <= later,
    ensures
        object.expired(later),
{
}

/// A committed object is found until its lease has run out, and from then on
/// it is not.
pub proof fn law_committed_object_lives_for_its_lease(
    master: MasterView,
    key: Seq<char>,
    put_time: u128,
    now: u128,
)
    requires
        master.objects.contains_key(key),
        put_time + master.lease_ttl <= u128::MAX,
    ensures
        now < put_time + master.lease_ttl ==> master.put_end(key, put_time).found(key, now)
            == Some(master.objects[key].committed((put_time + master.lease_ttl) as u128)),
        now >= put_time + master.lease_ttl ==> master.put_end(key, put_time).found(key, now) is None,
{
}

/// A lease of zero is over at the next query: a query at the reading of the
/// commit, or at any later one, does not find the object.
pub proof fn law_lease_of_zero_is_over_at_once(
    master: MasterView,
    key: Seq<char>,
    put_time: u128,
    now: u128,
)
    requires
        master.lease_ttl == 0,
        put_time <= now,
    ensures
        master.put_end(key, put_time).found(key, now) is None,
{
}

/// A later commit never shortens a lease: whenever a query would have found
/// the object without it, a query finds the object with it, whether or not
/// another put was started between.
pub proof fn law_later_commit_keeps_lease(
    master: MasterView,
    key: Seq<char>,
    put_time: u128,
    client: Seq<char>,
    size: nat,
    later: u128,
    now: u128,
)
    requires
        put_time <= later,
        later + master.lease_ttl <= u128::MAX,
        master.put_end(key, put_time).found(key, now) is Some,
    ensures
        master.put_end(key, put_time).put_end(key, later).found(key, now) is Some,
        master.put_end(key, put_time).put_start(client, key, size).put_end(key, later).found(
            key,
            now,
        ) is Some,
{
}

/// An object that was never committed has no lease and never expires.
pub proof fn law_uncommitted_object_does_not_expire(
    master: MasterView,
    client: Seq<char>,
    key: Seq<char>,
    size: nat,
    now: u128,
)
    requires
        !master.objects.contains_key(key),
        master.placed_replica(size) is Some,
    ensures
        master.put_start(client, key, size).found(key, now) is Some,
        master.put_start(client, key, size).run_eviction(now).objects.contains_key(key),
{
}

/// Eviction is invisible: from its time on, every query finds after it what
/// it would have found without it.
pub proof fn law_eviction_is_invisible(
    master: MasterView,
    key: Seq<char>,
    evicted_at: u128,
    now: u128,
)
    requires
        evicted_at <= now,
    ensures
        master.run_eviction(evicted_at).found(key, now) == master.found(key, now),
{
}

/// After an eviction no object is left whose lease has run out at that time,
/// a second eviction at the same time changes nothing, and no object whose
/// lease is running is lost.
pub proof fn law_eviction_takes_exactly_the_expired(
    master: MasterView,
    key: Seq<char>,
    now: u128,
)
    ensures
        master.run_eviction(now).objects.contains_key(key) <==> master.objects.contains_key(key)
            && !master.objects[key].expired(now),
        master.run_eviction(now).run_eviction(now) == master.run_eviction(now),
{
    let once = master.run_eviction(now);
    assert(once.run_eviction(now) =~= once);
}

/// A query answers the same when it is asked again at the same time, and it
/// changes what is found under no other key.
pub proof fn law_query_is_repeatable(
    master: MasterView,
    key: Seq<char>,
    now: u128,
    other: Seq<char>,
    later: u128,
)
    ensures
        master.query(key, now).found(key, now) == master.found(key, now),
        master.query(key, now).query(key, now) == master.query(key, now),
        other != key ==> master.query(key, now).found(other, later) == master.found(other, later),
{
    assert(master.query(key, now).query(key, now) =~= master.query(key, now));
}

/// A removed object is not found, whatever the time, and a removal changes
/// what is found under no other key.
pub proof fn law_removed_object_is_gone(
    master: MasterView,
    key: Seq<char>,
    other: Seq<char>,
    now: u128,
)
    ensures
        master.remove(key).found(key, now) is None,
        other != key ==> master.remove(key).found(other, now) == master.found(other, now),
{
}

/// A put changes what is found under no other key.
pub proof fn law_put_leaves_other_objects(
    master: MasterView,
    client: Seq<char>,
    key: Seq<char>,
    size: nat,
    put_time: u128,
    other: Seq<char>,
    now: u128,
)
    requires
        other != key,
    ensures
        master.put_start(client, key, size).found(other, now) == master.found(other, now),
        master.put_end(key, put_time).found(other, now) == master.found(other, now),
{
}

// -------------------------------------------------------------- put and get

/// What the segments hold, by name. Each is as large as the master was told.
pub open spec fn memories_match(
    memories: Map<Seq<char>, Seq<u8>>,
    master: MasterView,
) -> bool {
    forall|name: Seq<char>| #[trigger]
        master.allocators.contains_key(name) ==> memories.contains_key(name)
            && memories[name].len() == master.allocators[name].capacity
}

/// The memories once `data` was written to the bytes of `replica`.
pub open spec fn stored(
    memories: Map<Seq<char>, Seq<u8>>,
    replica: ReplicaView,
    data: Seq<u8>,
) -> Map<Seq<char>, Seq<u8>> {
    memories.insert(
        replica.segment_name,
        memory::overwrite(memories[replica.segment_name], replica.offset, data),
    )
}

/// The bytes of `replica`.
pub open spec fn loaded(memories: Map<Seq<char>, Seq<u8>>, replica: ReplicaView) -> Seq<u8> {
    memory::slice_of(memories[replica.segment_name], replica.offset, replica.size)
}

proof fn lemma_first_complete(replicas: Seq<ReplicaView>, from: int)
    requires
        0 <= from,
    ensures
        match store_client::first_complete(replicas, from) {
            Some(i) => from <= i < replicas.len() && replicas[i].status == ReplicaStatus::Complete
                && forall|j: int|
                from <= j < i ==> (#[trigger] replicas[j]).status != ReplicaStatus::Complete,
            None => forall|j: int|
                from <= j < replicas.len() ==> (#[trigger] replicas[j]).status
                    != ReplicaStatus::Complete,
        },
    decreases replicas.len() - from,
{
    if from < replicas.len() && replicas[from].status != ReplicaStatus::Complete {
        lemma_first_complete(replicas, from + 1);
    }
}

/// An object is read from its first complete replica, and it can be read if
/// and only if it has one.
pub proof fn law_get_reads_first_complete_replica(object: ObjectView)
    ensures
        match store_client::readable_replica(object) {
            Some(replica) => exists|i: int|
                0 <= i < object.replicas.len() && #[trigger] object.replicas[i] == replica
                    && replica.status == ReplicaStatus::Complete && forall|j: int|
                    0 <= j < i ==> (#[trigger] object.replicas[j]).status
                        != ReplicaStatus::Complete,
            None => forall|i: int|
                0 <= i < object.replicas.len() ==> (#[trigger] object.replicas[i]).status
                    != ReplicaStatus::Complete,
        },
{
    lemma_first_complete(object.replicas, 0);
}

/// A put is in two phases: what was started under a new key cannot be read
/// until it is committed.
pub proof fn law_started_put_is_not_readable(
    master: MasterView,
    client: Seq<char>,
    key: Seq<char>,
    size: nat,
    now: u128,
)
    requires
        !master.objects.contains_key(key),
    ensures
        store_client::replica_to_read(master.put_start(client, key, size), key, now) is None,
{
    if master.placed_replica(size) is Some {
        let object = master.put_start(client, key, size).objects[key];
        lemma_first_complete(object.replicas, 0);
    }
}

/// A get gives back what a put stored: after a put under a new key, started,
/// written and committed, and for as long as its lease lasts, the replica that
/// is read holds the data, all of it and nothing else.
pub proof fn law_get_returns_what_was_put(
    master: MasterView,
    memories: Map<Seq<char>, Seq<u8>>,
    client: Seq<char>,
    key: Seq<char>,
    data: Seq<u8>,
    put_time: u128,
    now: u128,
)
    requires
        master.valid(),
        memories_match(memories, master),
        !master.objects.contains_key(key),
        master.placed_replica(data.len()) is Some,
        put_time + master.lease_ttl <= u128::MAX,
        now < put_time + master.lease_ttl,
    ensures
        ({
            let placed = master.placed_replica(data.len())->0;
            let after = master.put_start(client, key, data.len()).put_end(key, put_time);
            let replica = store_client::replica_to_read(after, key, now);
            &&& replica == Some(placed.committed())
            &&& loaded(stored(memories, placed, data), replica->0) == data
        }),
{
    lemma_placed_in_pool(master, data.len());
    let placed = master.placed_replica(data.len())->0;
    let started = master.put_start(client, key, data.len());
    let after = started.put_end(key, put_time);
    assert(started.objects[key].replicas =~= seq![placed]);
    assert(after.objects[key].replicas =~= seq![placed.committed()]);
    assert(after.found(key, now) == Some(after.objects[key]));
    lemma_first_complete(after.objects[key].replicas, 0);
    memory::law_read_back_of_write(memories[placed.segment_name], placed.offset, data);
}

/// A put stores its data where no other replica lies: the bytes of every
/// replica that was there stay as they are.
pub proof fn law_put_leaves_other_data(
    master: MasterView,
    memories: Map<Seq<char>, Seq<u8>>,
    data: Seq<u8>,
    other: Seq<char>,
    i: int,
)
    requires
        master.valid(),
        sound_layout(master),
        memories_match(memories, master),
        master.placed_replica(data.len()) is Some,
        has_replica(master, other, i),
    ensures
        ({
            let placed = master.placed_replica(data.len())->0;
            let replica = master.objects[other].replicas[i];
            loaded(stored(memories, placed, data), replica) == loaded(memories, replica)
        }),
{
    lemma_placed_in_pool(master, data.len());
    let placed = master.placed_replica(data.len())->0;
    let replica = master.objects[other].replicas[i];
    if replica.segment_name == placed.segment_name {
        memory::law_write_leaves_other_ranges(
            memories[placed.segment_name],
            placed.offset,
            data,
            replica.offset,
            replica.size,
        );
    }
}

/// An object that was committed is read from its first replica, and one that
/// was not cannot be read.
pub proof fn law_committed_object_is_read_from_first_replica(object: ObjectView)
    requires
        object.valid(),
    ensures
        store_client::readable_replica(object) == (if object.lease_deadline is Some {
            Some(object.replicas[0])
        } else {
            None
        }),
{
    lemma_first_complete(object.replicas, 0);
}

/// A second put under a key does not replace what the first one stored: a
/// committed object is still read from the replica that it was read from.
pub proof fn law_second_put_keeps_first_replica(
    master: MasterView,
    client: Seq<char>,
    key: Seq<char>,
    size: nat,
    put_time: u128,
    now: u128,
)
    requires
        master.valid(),
        master.objects.contains_key(key),
        master.objects[key].lease_deadline is Some,
        put_time + master.lease_ttl <= u128::MAX,
        now < put_time + master.lease_ttl,
    ensures
        store_client::readable_replica(master.objects[key]) is Some,
        store_client::replica_to_read(
            master.put_start(client, key, size).put_end(key, put_time),
            key,
            now,
        ) == store_client::readable_replica(master.objects[key]),
{
    lemma_first_complete(master.objects[key].replicas, 0);
    let after = master.put_start(client, key, size).put_end(key, put_time);
    assert(after.objects[key].replicas[0] == master.objects[key].replicas[0]);
    lemma_first_complete(after.objects[key].replicas, 0);
}

/// The exchanges by which a put and a get reach a replica on another node do
/// what they are for: the node acknowledges the write and then holds the data
/// in the replica's bytes, and it answers the read with exactly the data.
pub proof fn law_remote_replica_is_written_and_read(
    master: MasterView,
    memories: Map<Seq<char>, Seq<u8>>,
    data: Seq<u8>,
)
    requires
        master.valid(),
        memories_match(memories, master),
        master.placed_replica(data.len()) is Some,
    ensures
        ({
            let replica = master.placed_replica(data.len())->0;
            let written = transfer_laws::answer(
                memories[replica.segment_name],
                transfer::write_exchange(replica.offset, data).message,
            );
            let read = transfer_laws::answer(
                written.memory,
                transfer::read_exchange(replica.offset, replica.size).message,
            );
            &&& written.action == ActionView::Send(seq![wire::ACK])
            &&& memories.insert(replica.segment_name, written.memory) == stored(
                memories,
                replica,
                data,
            )
            &&& read.action == ActionView::Send(data)
            &&& read.memory == written.memory
        }),
{
    lemma_placed_in_pool(master, data.len());
    let replica = master.placed_replica(data.len())->0;
    let memory = memories[replica.segment_name];
    transfer_laws::law_server_answers_write(memory, replica.offset as usize, data);
    transfer_laws::law_remote_read_returns_what_was_written(memory, replica.offset as usize, data);
}

/// A read of any replica of a valid object is answered, also by a node whose
/// segment was registered anew with another size: with the replica's bytes if
/// they lie within what the node holds, and else with an error that ends the
/// connection.
pub proof fn law_replica_read_is_answered(object: ObjectView, i: int, held: Seq<u8>)
    requires
        object.valid(),
        0 <= i < object.replicas.len(),
    ensures
        ({
            let replica = object.replicas[i];
            let message = transfer::read_exchange(replica.offset, replica.size).message;
            transfer_laws::answer(held, message) == (if memory::in_bounds(
                replica.offset,
                replica.size,
                held.len(),
            ) {
                Outcome::replied(held, memory::slice_of(held, replica.offset, replica.size))
            } else {
                Outcome::finished(
                    held,
                    Err(
                        TransferError::OutOfBounds {
                            offset: replica.offset as usize,
                            length: replica.size as usize,
                            capacity: held.len() as usize,
                        },
                    ),
                )
            })
        }),
{
    let replica = object.replicas[i];
    transfer_laws::law_server_answers_read(held, replica.offset as usize, replica.size as usize);
}

// --------------------------------------------- what each operation changes

/// A put finds a place exactly if some registered segment has as many bytes
/// left, in numbers. It is then given the bytes that follow the last ones handed
/// out, in a segment that has that many left, with none before it in the order
/// of registration that has.
pub proof fn law_put_finds_room_where_bytes_are_left(master: MasterView, size: nat)
    requires
        master.valid(),
    ensures
        master.placed_replica(size) is Some <==> exists|name: Seq<char>| #[trigger]
            master.allocators.contains_key(name) && size <= master.allocators[name].capacity
                - master.allocators[name].offset,
        master.placed_replica(size) matches Some(replica) ==> {
            &&& master.allocators.contains_key(replica.segment_name)
            &&& size <= master.allocators[replica.segment_name].capacity
                - master.allocators[replica.segment_name].offset
            &&& replica.offset == master.allocators[replica.segment_name].offset
            &&& replica.size == size
            &&& replica.status == ReplicaStatus::Processing
            &&& forall|i: int, j: int|
                0 <= j < i < master.segment_order.len() && #[trigger] master.segment_order[i]
                    == replica.segment_name ==> size > master.allocators[
                    #[trigger] master.segment_order[j]
                ].capacity - master.allocators[master.segment_order[j]].offset
        },
{
    store::lemma_first_fit(master.segment_order, master.allocators, size, 0);
    law_placement_is_first_fit(master, size);
    match master.placement(size) {
        Some(i) => {
            assert(master.segment_order.contains(master.segment_order[i]));
            assert(master.allocators.contains_key(master.segment_order[i]));
        },
        None => {},
    }
}

/// A new master has nothing and grants the leases it was told to.
pub proof fn law_new_master_knows_nothing(lease_ttl: u128)
    ensures
        MasterView::empty(lease_ttl).objects == Map::<Seq<char>, ObjectView>::empty(),
        MasterView::empty(lease_ttl).allocators.dom() == Set::<Seq<char>>::empty(),
        MasterView::empty(lease_ttl).segment_order.len() == 0,
        MasterView::empty(lease_ttl).lease_ttl == lease_ttl,
{
    assert(MasterView::empty(lease_ttl).allocators.dom() =~= Set::<Seq<char>>::empty());
}

/// A segment that is registered has all its bytes free. A new one comes last in
/// the order; a known one keeps its place. No other segment, no object and no
/// lease changes.
pub proof fn law_registering_touches_one_segment(
    master: MasterView,
    name: Seq<char>,
    size: nat,
    other: Seq<char>,
)
    ensures
        ({
            let after = master.register_segment(name, size);
            &&& after.allocators.contains_key(name)
            &&& after.allocators[name].capacity == size
            &&& after.allocators[name].offset == 0
            &&& other != name ==> (after.allocators.contains_key(other)
                <==> master.allocators.contains_key(other)) && after.allocators[other]
                == master.allocators[other]
            &&& master.allocators.contains_key(name) ==> after.segment_order
                == master.segment_order
            &&& !master.allocators.contains_key(name) ==> after.segment_order.len()
                == master.segment_order.len() + 1 && after.segment_order.last() == name
                && after.segment_order.drop_last() == master.segment_order
            &&& after.objects == master.objects
            &&& after.lease_ttl == master.lease_ttl
        }),
{
    let after = master.register_segment(name, size);
    if !master.allocators.contains_key(name) {
        assert(after.segment_order.drop_last() =~= master.segment_order);
    }
}

/// A put that starts takes its bytes from one segment and adds its replica,
/// as the last one, to one object. An object that is there keeps its key, its
/// size, who created it, its lease and all its replicas; a new one is told by
/// this put and has no lease. Nothing else changes, and without room nothing
/// does.
pub proof fn law_put_start_adds_one_replica(
    master: MasterView,
    client: Seq<char>,
    key: Seq<char>,
    size: nat,
    other: Seq<char>,
)
    requires
        master.valid(),
    ensures
        ({
            let after = master.put_start(client, key, size);
            &&& master.placed_replica(size) is None ==> after == master
            &&& after.segment_order == master.segment_order
            &&& after.lease_ttl == master.lease_ttl
            &&& other != key ==> (after.objects.contains_key(other)
                <==> master.objects.contains_key(other)) && after.objects[other]
                == master.objects[other]
            &&& after.allocators.contains_key(other) <==> master.allocators.contains_key(other)
            &&& after.allocators[other].capacity == master.allocators[other].capacity
            &&& master.placed_replica(size) matches Some(replica) ==> {
                let object = after.objects[key];
                &&& after.allocators[other].offset == master.allocators[other].offset + (if other
                    == replica.segment_name {
                    size
                } else {
                    0
                })
                &&& after.objects.contains_key(key)
                &&& object.replicas.last() == replica
                &&& master.objects.contains_key(key) ==> {
                    &&& object.key == master.objects[key].key
                    &&& object.size == master.objects[key].size
                    &&& object.created_by == master.objects[key].created_by
                    &&& object.lease_deadline == master.objects[key].lease_deadline
                    &&& object.replicas.len() == master.objects[key].replicas.len() + 1
                    &&& object.replicas.drop_last() == master.objects[key].replicas
                }
                &&& !master.objects.contains_key(key) ==> {
                    &&& object.key == key
                    &&& object.size == size
                    &&& object.created_by == client
                    &&& object.lease_deadline is None
                    &&& object.replicas.len() == 1
                }
            }
        }),
{
    if master.placed_replica(size) is Some {
        lemma_placed_in_pool(master, size);
        let after = master.put_start(client, key, size);
        let found = master.object_for_put(client, key, size);
        assert(after.objects[key].replicas.drop_last() =~= found.replicas);
    }
}

/// Starting another put of an object that is there hides nothing: at every
/// reading a query finds the object after it exactly if it found it before,
/// with the same lease, and what it is read from is the same.
pub proof fn law_put_start_hides_nothing(
    master: MasterView,
    client: Seq<char>,
    key: Seq<char>,
    size: nat,
    now: u128,
)
    requires
        master.valid(),
        master.objects.contains_key(key),
    ensures
        ({
            let before = master.found(key, now);
            let after = master.put_start(client, key, size).found(key, now);
            &&& after is Some <==> before is Some
            &&& before is Some ==> after->0.lease_deadline == before->0.lease_deadline
                && after->0.replicas.len() >= before->0.replicas.len() && (forall|i: int|
                0 <= i < before->0.replicas.len() ==> #[trigger] after->0.replicas[i]
                    == before->0.replicas[i])
        }),
        store_client::replica_to_read(master.put_start(client, key, size), key, now)
            == store_client::replica_to_read(master, key, now),
{
    law_put_start_adds_one_replica(master, client, key, size, key);
    lemma_first_complete(master.objects[key].replicas, 0);
    lemma_first_complete(master.put_start(client, key, size).objects[key].replicas, 0);
    let after = master.put_start(client, key, size).objects[key];
    assert(after.valid()) by {
        store::lemma_put_start_keeps_valid(master, client, key, size);
    }
    law_committed_object_is_read_from_first_replica(master.objects[key]);
    law_committed_object_is_read_from_first_replica(after);
}

/// A put that ends commits one object: the replicas that were on their way are
/// complete, none of them moves, and the lease ends the lease time after the
/// reading. Nothing else changes, and without such an object nothing does.
pub proof fn law_put_end_commits_one_object(
    master: MasterView,
    key: Seq<char>,
    now: u128,
    other: Seq<char>,
)
    requires
        now + master.lease_ttl <= u128::MAX,
    ensures
        ({
            let after = master.put_end(key, now);
            &&& !master.objects.contains_key(key) ==> after == master
            &&& after.allocators == master.allocators
            &&& after.segment_order == master.segment_order
            &&& after.lease_ttl == master.lease_ttl
            &&& after.objects.contains_key(other) <==> master.objects.contains_key(other)
            &&& other != key ==> after.objects[other] == master.objects[other]
            &&& master.objects.contains_key(key) ==> {
                let before = master.objects[key];
                let object = after.objects[key];
                &&& object.key == before.key
                &&& object.size == before.size
                &&& object.created_by == before.created_by
                &&& object.lease_deadline is Some
                &&& object.lease_deadline->0 == now + master.lease_ttl
                &&& object.replicas.len() == before.replicas.len()
                &&& forall|i: int|
                    0 <= i < before.replicas.len() ==> (#[trigger] object.replicas[i]).segment_name
                        == before.replicas[i].segment_name && object.replicas[i].offset
                        == before.replicas[i].offset && object.replicas[i].size
                        == before.replicas[i].size && object.replicas[i].status == (
                    if before.replicas[i].status == ReplicaStatus::Processing {
                        ReplicaStatus::Complete
                    } else {
                        before.replicas[i].status
                    })
            }
        }),
{
}

/// A lease has run out exactly from its deadline on. A query finds an object
/// exactly if it is there and its lease has not run out, and finds it as it is;
/// it takes an object away exactly if its lease has run out.
pub proof fn law_query_judges_by_the_deadline(
    master: MasterView,
    key: Seq<char>,
    now: u128,
    other: Seq<char>,
)
    ensures
        ({
            let over = master.objects[key].lease_deadline is Some
                && master.objects[key].lease_deadline->0 <= now;
            let after = master.query(key, now);
            &&& master.objects[key].expired(now) <==> over
            &&& master.found(key, now) is Some <==> master.objects.contains_key(key) && !over
            &&& master.found(key, now) is Some ==> master.found(key, now)->0
                == master.objects[key]
            &&& after.objects.contains_key(other) <==> master.objects.contains_key(other) && !(
            other == key && over)
            &&& after.objects.contains_key(other) ==> after.objects[other]
                == master.objects[other]
            &&& after.allocators == master.allocators
            &&& after.segment_order == master.segment_order
            &&& after.lease_ttl == master.lease_ttl
        }),
{
}

/// A query that is made when the time since the clock's start is read as
/// `reading`, on a clock whose last reading was `last`, judges by the greater of
/// the two: an object whose deadline is not above the fresh reading is not
/// found, and one whose deadline is above both is.
pub proof fn law_query_judges_by_a_fresh_reading(
    master: MasterView,
    key: Seq<char>,
    last: u128,
    reading: u128,
    now: u128,
)
    requires
        last <= now,
        reading <= now,
        now == last || now == reading,
        master.objects.contains_key(key),
        master.objects[key].lease_deadline is Some,
    ensures
        master.objects[key].lease_deadline->0 <= reading ==> master.found(key, now) is None,
        master.objects[key].lease_deadline->0 > last && master.objects[key].lease_deadline->0
            > reading ==> master.found(key, now) == Some(master.objects[key]),
{
}

/// A removal takes one object away, and an eviction every object whose deadline
/// has come. Everything else stays.
pub proof fn law_removal_and_eviction_take_no_more(
    master: MasterView,
    key: Seq<char>,
    now: u128,
    other: Seq<char>,
)
    ensures
        ({
            let after = master.remove(key);
            &&& after.objects.contains_key(other) <==> master.objects.contains_key(other) && other
                != key
            &&& after.objects.contains_key(other) ==> after.objects[other]
                == master.objects[other]
            &&& after.allocators == master.allocators
            &&& after.segment_order == master.segment_order
            &&& after.lease_ttl == master.lease_ttl
        }),
        ({
            let after = master.run_eviction(now);
            &&& after.objects.contains_key(other) <==> master.objects.contains_key(other) && (
            master.objects[other].lease_deadline is None
                || master.objects[other].lease_deadline->0 > now)
            &&& after.objects.contains_key(other) ==> after.objects[other]
                == master.objects[other]
            &&& after.allocators == master.allocators
            &&& after.segment_order == master.segment_order
            &&& after.lease_ttl == master.lease_ttl
        }),
{
}

/// How a put reaches its replica: not at all without one, into the local segment
/// at the replica's offset if that is where it lies, and else with a write to
/// the registered node, at the replica's offset, of all the data.
pub proof fn law_put_step_leads_to_the_replica(
    step: PutStep,
    replica: Option<ReplicaView>,
    data: Seq<u8>,
    local_name: Seq<char>,
    segments: Map<Seq<char>, SegmentView>,
)
    requires
        step.serves(replica, data, local_name, segments),
    ensures
        replica is None <==> step == PutStep::NoSpace,
        replica is Some && replica->0.segment_name == local_name ==> (
        step matches PutStep::WriteLocal { offset } && offset == replica->0.offset),
        replica is Some && replica->0.segment_name != local_name ==> (
        step matches PutStep::WriteRemote(call) && segments.contains_key(replica->0.segment_name)
            && call.remote@ == segments[replica->0.segment_name] && call.exchange.message@.take(17)
            == wire::header_bytes(data.len(), replica->0.offset, OpCode::Write)
            && call.exchange.message@.skip(17) == data && call.exchange.reply_length == 1),
{
    if replica is Some {
        transfer::law_write_message_layout(replica->0.offset, data);
        let message = transfer::write_exchange(replica->0.offset, data).message;
        assert(message.skip(17) =~= data) by {
            assert forall|i: int| 0 <= i < data.len() implies message.skip(17)[i] == data[i] by {
                assert(message[17 + i] == data[i]);
            }
        }
    }
}

/// How a get reaches its replica: not at all without one, in the local segment
/// at the replica's bytes if that is where it lies, and else with a read of just
/// those bytes from the registered node.
pub proof fn law_get_step_leads_to_the_replica(
    step: GetStep,
    replica: Option<ReplicaView>,
    local_name: Seq<char>,
    segments: Map<Seq<char>, SegmentView>,
)
    requires
        step.serves(replica, local_name, segments),
    ensures
        replica is None <==> step == GetStep::Absent,
        replica is Some && replica->0.segment_name == local_name ==> (
        step matches GetStep::ReadLocal { offset, size } && offset == replica->0.offset && size
            == replica->0.size),
        replica is Some && replica->0.segment_name != local_name ==> (
        step matches GetStep::ReadRemote(call) && segments.contains_key(replica->0.segment_name)
            && call.remote@ == segments[replica->0.segment_name] && call.exchange.message@
            == wire::header_bytes(replica->0.size, replica->0.offset, OpCode::Read)
            && call.exchange.reply_length == replica->0.size),
{
}

/// A replica cannot be reached exactly if it lies in a segment that is neither
/// the local one nor registered.
pub proof fn law_replica_is_out_of_reach_only_unregistered(
    replica: Option<ReplicaView>,
    local_name: Seq<char>,
    segments: Map<Seq<char>, SegmentView>,
)
    ensures
        store_client::unreachable_replica(replica, local_name, segments) <==> replica is Some
            && replica->0.segment_name != local_name && !segments.contains_key(
            replica->0.segment_name,
        ),
{
}

/// What a get reads from: of an object that is there and whose deadline has not
/// come, the first replica that is complete. There is nothing to read exactly if
/// the object is not there, its deadline has come, or no replica is complete.
pub proof fn law_get_reads_a_live_complete_replica(master: MasterView, key: Seq<char>, now: u128)
    ensures
        ({
            let object = master.objects[key];
            let live = master.objects.contains_key(key) && (object.lease_deadline is None
                || object.lease_deadline->0 > now);
            match store_client::replica_to_read(master, key, now) {
                Some(replica) => live && exists|i: int|
                    0 <= i < object.replicas.len() && #[trigger] object.replicas[i] == replica
                        && replica.status == ReplicaStatus::Complete && forall|j: int|
                        0 <= j < i ==> (#[trigger] object.replicas[j]).status
                            != ReplicaStatus::Complete,
                None => live ==> forall|i: int|
                    0 <= i < object.replicas.len() ==> (#[trigger] object.replicas[i]).status
                        != ReplicaStatus::Complete,
            }
        }),
{
    lemma_first_complete(master.objects[key].replicas, 0);
}

} // verus!
