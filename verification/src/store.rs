//! The store's master: which objects there are, where their replicas lie and
//! how long they are kept.

use vstd::prelude::*;

use crate::allocator::{AllocatorView, BumpAllocator};
use crate::clock::{Clock, MAX_NANOS};
use crate::metadata::SegmentDesc;
use crate::name_map::NameMap;

verus! {

/// How far a replica has come.
#[derive(Debug, Clone, Copy, PartialEq, Eq, Structural)]
pub enum ReplicaStatus {
    Initialized,
    /// Space is allocated, the data is on its way.
    Processing,
    /// The data is in place.
    Complete,
    Removed,
}

/// Where one copy of an object lies.
#[derive(Debug, PartialEq, Eq)]
pub struct Replica {
    pub segment_name: String,
    pub offset: usize,
    pub size: usize,
    pub status: ReplicaStatus,
}

/// What a [`Replica`] says.
pub struct ReplicaView {
    pub segment_name: Seq<char>,
    pub offset: nat,
    pub size: nat,
    pub status: ReplicaStatus,
}

impl View for Replica {
    type V = ReplicaView;

    open spec fn view(&self) -> ReplicaView {
        ReplicaView {
            segment_name: self.segment_name@,
            offset: self.offset as nat,
            size: self.size as nat,
            status: self.status,
        }
    }
}

impl Clone for Replica {
    fn clone(&self) -> (copy: Self)
        ensures
            copy@ == self@,
    {
        Replica {
            segment_name: self.segment_name.clone(),
            offset: self.offset,
            size: self.size,
            status: self.status,
        }
    }
}

/// What the master knows of an object.
#[derive(Debug)]
pub struct ObjectMetadata {
    pub key: String,
    pub size: usize,
    pub replicas: Vec<Replica>,
    /// The clock reading at which the object expires. An object that was
    /// never committed has none.
    pub lease_deadline: Option<u128>,
    pub created_by: String,
}

/// What an [`ObjectMetadata`] says.
#[verifier::ext_equal]
pub struct ObjectView {
    pub key: Seq<char>,
    pub size: nat,
    pub replicas: Seq<ReplicaView>,
    pub lease_deadline: Option<u128>,
    pub created_by: Seq<char>,
}

impl View for ObjectMetadata {
    type V = ObjectView;

    open spec fn view(&self) -> ObjectView {
        ObjectView {
            key: self.key@,
            size: self.size as nat,
            replicas: self.replicas@.map_values(|replica: Replica| replica@),
            lease_deadline: self.lease_deadline,
            created_by: self.created_by@,
        }
    }
}

impl Clone for ObjectMetadata {
    fn clone(&self) -> (copy: Self)
        ensures
            copy@ == self@,
    {
        let copy = ObjectMetadata {
            key: self.key.clone(),
            size: self.size,
            replicas: self.replicas.clone(),
            lease_deadline: self.lease_deadline,
            created_by: self.created_by.clone(),
        };
        assert(copy@.replicas =~= self@.replicas);
        copy
    }
}

impl ReplicaView {
    /// The replica once its data is in place.
    pub open spec fn committed(self) -> ReplicaView {
        if self.status == ReplicaStatus::Processing {
            ReplicaView { status: ReplicaStatus::Complete, ..self }
        } else {
            self
        }
    }
}

impl ObjectView {
    /// There is a replica, every replica ends where `usize` can say, each is
    /// on its way or in place, those in place come first, and the object has a
    /// lease exactly if one is.
    pub open spec fn valid(self) -> bool {
        &&& self.replicas.len() > 0
        &&& forall|i: int|
            0 <= i < self.replicas.len() ==> (#[trigger] self.replicas[i]).offset
                + self.replicas[i].size <= usize::MAX
        &&& forall|i: int|
            0 <= i < self.replicas.len() ==> (#[trigger] self.replicas[i]).status
                == ReplicaStatus::Processing || self.replicas[i].status == ReplicaStatus::Complete
        &&& forall|i: int, j: int|
            0 <= i < j < self.replicas.len() && (#[trigger] self.replicas[j]).status
                == ReplicaStatus::Complete ==> (#[trigger] self.replicas[i]).status
                == ReplicaStatus::Complete
        &&& self.lease_deadline is Some <==> self.replicas[0].status == ReplicaStatus::Complete
    }

    /// Whether the object's lease has run out at the clock reading `now`.
    pub open spec fn expired(self, now: u128) -> bool {
        match self.lease_deadline {
            Some(deadline) => now >= deadline,
            None => false,
        }
    }

    /// The object once its replicas are in place, with a lease to `deadline`.
    pub open spec fn committed(self, deadline: u128) -> ObjectView {
        ObjectView {
            replicas: self.replicas.map_values(|replica: ReplicaView| replica.committed()),
            lease_deadline: Some(deadline),
            ..self
        }
    }
}

impl ObjectMetadata {
    /// Whether the object's lease has run out at the clock reading `now`.
    fn expired(&self, now: u128) -> (expired: bool)
        ensures
            expired == self@.expired(now),
    {
        match self.lease_deadline {
            Some(deadline) => now >= deadline,
            None => false,
        }
    }

    /// Marks the replicas that were on their way as being in place, and
    /// grants a lease to `deadline`.
    fn commit(&mut self, deadline: u128)
        ensures
            final(self)@ == old(self)@.committed(deadline),
    {
        let count = self.replicas.len();
        for i in 0..count
            invariant
                count == self.replicas@.len(),
                old(self)@.replicas.len() == count,
                self.key == old(self).key,
                self.size == old(self).size,
                self.created_by == old(self).created_by,
                forall|j: int| #![trigger self.replicas@[j]]
                    0 <= j < i ==> self.replicas@[j]@ == old(self)@.replicas[j].committed(),
                forall|j: int| #![trigger self.replicas@[j]]
                    i <= j < count ==> self.replicas@[j]@ == old(self)@.replicas[j],
        {
            if self.replicas[i].status == ReplicaStatus::Processing {
                self.replicas[i].status = ReplicaStatus::Complete;
            }
        }
        self.lease_deadline = Some(deadline);
        assert(self@ =~= old(self)@.committed(deadline));
    }
}

/// What the master knows: the objects, the allocator of each segment, the
/// segments in the order in which they were registered, and how long a lease
/// is.
#[verifier::ext_equal]
pub struct MasterView {
    pub objects: Map<Seq<char>, ObjectView>,
    pub allocators: Map<Seq<char>, AllocatorView>,
    pub segment_order: Seq<Seq<char>>,
    pub lease_ttl: u128,
}

/// The position of the first segment of `order`, from position `from` on,
/// that has `size` bytes left.
pub open spec fn first_fit(
    order: Seq<Seq<char>>,
    allocators: Map<Seq<char>, AllocatorView>,
    size: nat,
    from: int,
) -> Option<int>
    decreases order.len() - from,
{
    if from < 0 || from >= order.len() {
        None
    } else if allocators[order[from]].fits(size) {
        Some(from)
    } else {
        first_fit(order, allocators, size, from + 1)
    }
}

impl MasterView {
    /// The segments in order are those that have an allocator, each of them
    /// once. No allocator has handed out more than it has. Every object is
    /// found by its own key and is valid.
    pub open spec fn valid(self) -> bool {
        &&& self.segment_order.no_duplicates()
        &&& forall|name: Seq<char>|
            self.allocators.contains_key(name) <==> #[trigger] self.segment_order.contains(name)
        &&& forall|name: Seq<char>| #[trigger]
            self.allocators.contains_key(name) ==> self.allocators[name].valid()
        &&& forall|key: Seq<char>| #[trigger]
            self.objects.contains_key(key) ==> self.objects[key].key == key
                && self.objects[key].valid()
        &&& self.lease_ttl <= MAX_NANOS
    }

    /// A master that knows nothing.
    pub open spec fn empty(lease_ttl: u128) -> MasterView {
        MasterView {
            objects: Map::empty(),
            allocators: Map::empty(),
            segment_order: Seq::empty(),
            lease_ttl,
        }
    }

    /// The master once a segment has been registered. A segment that was
    /// known keeps its place in the order, and all of it is free again.
    pub open spec fn register_segment(self, name: Seq<char>, size: nat) -> MasterView {
        MasterView {
            allocators: self.allocators.insert(name, AllocatorView::fresh(size)),
            segment_order: if self.allocators.contains_key(name) {
                self.segment_order
            } else {
                self.segment_order.push(name)
            },
            ..self
        }
    }

    /// The position of the first segment that has `size` bytes left.
    pub open spec fn placement(self, size: nat) -> Option<int> {
        first_fit(self.segment_order, self.allocators, size, 0)
    }

    /// The replica that a put of `size` bytes is given.
    pub open spec fn placed_replica(self, size: nat) -> Option<ReplicaView> {
        match self.placement(size) {
            Some(i) => Some(
                ReplicaView {
                    segment_name: self.segment_order[i],
                    offset: self.allocators[self.segment_order[i]].offset,
                    size,
                    status: ReplicaStatus::Processing,
                },
            ),
            None => None,
        }
    }

    /// The object of `key` as a put finds it: the one that is there, or a new
    /// one without replicas.
    pub open spec fn object_for_put(
        self,
        client: Seq<char>,
        key: Seq<char>,
        size: nat,
    ) -> ObjectView {
        if self.objects.contains_key(key) {
            self.objects[key]
        } else {
            ObjectView {
                key,
                size,
                replicas: Seq::empty(),
                lease_deadline: None,
                created_by: client,
            }
        }
    }

    /// The master once a put has started: the segment that was chosen has
    /// handed out the bytes, and the object has one replica more. Without
    /// room for the bytes nothing changes.
    pub open spec fn put_start(self, client: Seq<char>, key: Seq<char>, size: nat) -> MasterView {
        match self.placed_replica(size) {
            Some(replica) => {
                let object = self.object_for_put(client, key, size);
                MasterView {
                    allocators: self.allocators.insert(
                        replica.segment_name,
                        self.allocators[replica.segment_name].bumped(size),
                    ),
                    objects: self.objects.insert(
                        key,
                        ObjectView { replicas: object.replicas.push(replica), ..object },
                    ),
                    ..self
                }
            },
            None => self,
        }
    }

    /// The master once a put has ended at the clock reading `now`.
    pub open spec fn put_end(self, key: Seq<char>, now: u128) -> MasterView {
        if self.objects.contains_key(key) {
            let deadline = (now + self.lease_ttl) as u128;
            MasterView {
                objects: self.objects.insert(key, self.objects[key].committed(deadline)),
                ..self
            }
        } else {
            self
        }
    }

    /// What a query for `key` finds at the clock reading `now`.
    pub open spec fn found(self, key: Seq<char>, now: u128) -> Option<ObjectView> {
        if self.objects.contains_key(key) && !self.objects[key].expired(now) {
            Some(self.objects[key])
        } else {
            None
        }
    }

    /// The master without the object of `key`.
    pub open spec fn remove(self, key: Seq<char>) -> MasterView {
        MasterView { objects: self.objects.remove(key), ..self }
    }

    /// The master after a query for `key` at the clock reading `now`: an
    /// object whose lease has run out is gone.
    pub open spec fn query(self, key: Seq<char>, now: u128) -> MasterView {
        if self.objects.contains_key(key) && self.objects[key].expired(now) {
            self.remove(key)
        } else {
            self
        }
    }

    /// The master without the objects whose lease has run out at the clock
    /// reading `now`.
    pub open spec fn run_eviction(self, now: u128) -> MasterView {
        MasterView {
            objects: self.objects.restrict(
                Set::new(
                    |key: Seq<char>|
                        self.objects.contains_key(key) && !self.objects[key].expired(now),
                ),
            ),
            ..self
        }
    }
}

/// The store's master.
pub struct MasterService {
    objects: NameMap<ObjectMetadata>,
    allocators: NameMap<BumpAllocator>,
    segment_order: Vec<String>,
    lease_ttl: u128,
    clock: Clock,
}

impl View for MasterService {
    type V = MasterView;

    closed spec fn view(&self) -> MasterView {
        MasterView {
            objects: self.objects@.map_values(|object: ObjectMetadata| object@),
            allocators: self.allocators@.map_values(|allocator: BumpAllocator| allocator@),
            segment_order: self.segment_order@.map_values(|name: String| name@),
            lease_ttl: self.lease_ttl,
        }
    }
}

impl MasterService {
    /// The clock that the leases run on. Its moments are not part of the
    /// view, which counts in its readings.
    pub closed spec fn clock(self) -> Clock {
        self.clock
    }

    /// The tables and the clock are in order, and what the tables say is
    /// valid.
    pub closed spec fn wf(self) -> bool {
        &&& self.objects.wf()
        &&& self.allocators.wf()
        &&& self.clock.wf()
        &&& self@.valid()
    }

    /// Whatever was done to it, what a master says is valid.
    pub proof fn law_master_is_valid(self)
        requires
            self.wf(),
        ensures
            self@.valid(),
    {
    }

    /// A master without segments and objects, whose leases last
    /// `default_lease` nanoseconds.
    pub fn new(default_lease: u128) -> (master: Self)
        requires
            default_lease <= MAX_NANOS,
        ensures
            master.wf(),
            master@ == MasterView::empty(default_lease),
            master.clock().last() == 0,
    {
        let master = MasterService {
            objects: NameMap::new(),
            allocators: NameMap::new(),
            segment_order: Vec::new(),
            lease_ttl: default_lease,
            clock: Clock::start(),
        };
        assert(master@ =~= MasterView::empty(default_lease));
        master
    }

    /// A reading of the clock that the leases run on, to hold against an
    /// object's `lease_deadline`.
    pub fn now(&self) -> (nanos: u128)
        requires
            self.wf(),
        ensures
            self.clock().last() <= nanos <= MAX_NANOS,
            exists|reading: u128| #[trigger]
                Clock::reads(self.clock().epoch(), reading) && reading <= MAX_NANOS && nanos == (
                if reading < self.clock().last() {
                    self.clock().last()
                } else {
                    reading
                }),
    {
        assert(self.clock().epoch() == self.clock.epoch());
        self.clock.now()
    }

    /// Takes a segment into the pool. A segment that was known keeps its
    /// place in the order, and all of it is free again.
    pub fn register_segment(&mut self, desc: SegmentDesc)
        requires
            old(self).wf(),
        ensures
            final(self).wf(),
            final(self)@ == old(self)@.register_segment(desc.name@, desc.size as nat),
            final(self).clock() == old(self).clock(),
    {
        if !self.allocators.contains_key(desc.name.as_str()) {
            self.segment_order.push(desc.name.clone());
        }
        let allocator = BumpAllocator::new(desc.size);
        self.allocators.insert(desc.name, allocator);
        assert(self@ =~= old(self)@.register_segment(desc.name@, desc.size as nat));
        proof {
            lemma_register_keeps_valid(old(self)@, desc.name@, desc.size as nat);
        }
    }

    /// The position of the first segment that has `size` bytes left.
    fn find_segment(&self, size: usize) -> (position: Option<usize>)
        requires
            self.wf(),
        ensures
            match position {
                Some(i) => self@.placement(size as nat) == Some(i as int) && i
                    < self@.segment_order.len(),
                None => self@.placement(size as nat) is None,
            },
    {
        let count = self.segment_order.len();
        for i in 0..count
            invariant
                self.wf(),
                count == self@.segment_order.len(),
                self@.placement(size as nat) == first_fit(
                    self@.segment_order,
                    self@.allocators,
                    size as nat,
                    i as int,
                ),
        {
            proof {
                self.lemma_segment_has_allocator(i as int);
            }
            match self.allocators.value_of(self.segment_order[i].as_str()) {
                Some(allocator) => {
                    let mut probe = *allocator;
                    if probe.allocate(size).is_some() {
                        return Some(i);
                    }
                },
                None => {},
            }
        }
        None
    }

    proof fn lemma_segment_has_allocator(self, i: int)
        requires
            self.wf(),
            0 <= i < self@.segment_order.len(),
        ensures
            self.segment_order@[i]@ == self@.segment_order[i],
            self.allocators@.contains_key(self@.segment_order[i]),
            self@.allocators[self@.segment_order[i]] == self.allocators@[self@.segment_order[i]]@,
            self@.allocators[self@.segment_order[i]].valid(),
    {
        assert(self@.segment_order.contains(self@.segment_order[i]));
    }

    /// Starts a put of `size` bytes under `key`: allocates them in the first
    /// segment that has room and notes a replica there whose data is on its
    /// way. Without room nothing changes.
    pub fn put_start(&mut self, client_name: &str, key: &str, size: usize) -> (replica: Option<
        Replica,
    >)
        requires
            old(self).wf(),
        ensures
            final(self).wf(),
            final(self)@ == old(self)@.put_start(client_name@, key@, size as nat),
            final(self).clock() == old(self).clock(),
            match replica {
                Some(replica) => old(self)@.placed_replica(size as nat) == Some(replica@),
                None => old(self)@.placed_replica(size as nat) is None,
            },
    {
        let position = match self.find_segment(size) {
            Some(position) => position,
            None => {
                return None;
            },
        };
        proof {
            lemma_first_fit(self@.segment_order, self@.allocators, size as nat, 0);
            self.lemma_segment_has_allocator(position as int);
            lemma_put_start_keeps_valid(self@, client_name@, key@, size as nat);
        }
        let segment_name = self.segment_order[position].clone();
        let mut allocator = match self.allocators.value_of(segment_name.as_str()) {
            Some(allocator) => *allocator,
            None => {
                return None;
            },
        };
        let offset = match allocator.allocate(size) {
            Some(offset) => offset,
            None => {
                return None;
            },
        };
        self.allocators.insert(segment_name.clone(), allocator);

        let replica = Replica { segment_name, offset, size, status: ReplicaStatus::Processing };
        let mut object = match self.objects.remove(key) {
            Some(object) => object,
            None => ObjectMetadata {
                key: key.to_owned(),
                size,
                replicas: Vec::new(),
                lease_deadline: None,
                created_by: client_name.to_owned(),
            },
        };
        let ghost found = object@;
        assert(found =~= old(self)@.object_for_put(client_name@, key@, size as nat));
        object.replicas.push(replica.clone());
        assert(object@.replicas =~= found.replicas.push(replica@));
        self.objects.insert(key.to_owned(), object);
        assert(self@ =~= old(self)@.put_start(client_name@, key@, size as nat));
        Some(replica)
    }

    /// Ends a put at the clock reading `now`: the replicas whose data was on
    /// its way are complete, and the object's lease starts. Returns whether
    /// there is such an object.
    pub fn put_end_at(&mut self, key: &str, now: u128) -> (committed: bool)
        requires
            old(self).wf(),
            old(self)@.objects.contains_key(key@) ==> now + old(self)@.lease_ttl <= u128::MAX,
        ensures
            final(self).wf(),
            final(self)@ == old(self)@.put_end(key@, now),
            final(self).clock() == old(self).clock(),
            committed == old(self)@.objects.contains_key(key@),
    {
        match self.objects.remove(key) {
            Some(object) => {
                let mut object = object;
                object.commit(now + self.lease_ttl);
                self.objects.insert(key.to_owned(), object);
                assert(self@ =~= old(self)@.put_end(key@, now));
                true
            },
            None => {
                assert(self@ =~= old(self)@);
                false
            },
        }
    }

    /// Ends a put: the replicas whose data was on its way are complete, and
    /// the object's lease starts now. Returns whether there is such an object.
    ///
    /// Of the clock reading no more is known than that it is not below the
    /// last one.
    pub fn put_end(&mut self, key: &str) -> (committed: bool)
        requires
            old(self).wf(),
        ensures
            final(self).wf(),
            final(self).clock().continues(old(self).clock()),
            final(self).clock().last() <= MAX_NANOS,
            exists|reading: u128| #[trigger]
                Clock::reads(old(self).clock().epoch(), reading) && reading <= MAX_NANOS
                    && final(self).clock().last() == (if reading < old(self).clock().last() {
                    old(self).clock().last()
                } else {
                    reading
                }),
            old(self)@.lease_ttl <= MAX_NANOS,
            final(self)@ == old(self)@.put_end(key@, final(self).clock().last()),
            committed == old(self)@.objects.contains_key(key@),
    {
        assert(self.clock().epoch() == self.clock.epoch());
        let now = self.clock.tick();
        self.put_end_at(key, now)
    }

    /// Looks an object up at the clock reading `now`. An object whose lease
    /// has run out is removed and not found.
    pub fn query_at(&mut self, key: &str, now: u128) -> (object: Option<ObjectMetadata>)
        requires
            old(self).wf(),
        ensures
            final(self).wf(),
            final(self)@ == old(self)@.query(key@, now),
            final(self).clock() == old(self).clock(),
            match object {
                Some(object) => old(self)@.found(key@, now) == Some(object@),
                None => old(self)@.found(key@, now) is None,
            },
    {
        let expired = match self.objects.value_of(key) {
            Some(object) => object.expired(now),
            None => false,
        };
        if expired {
            let _ = self.objects.remove(key);
            assert(self@ =~= old(self)@.query(key@, now));
            return None;
        }
        match self.objects.value_of(key) {
            Some(object) => Some(object.clone()),
            None => None,
        }
    }

    /// Looks an object up. An object whose lease has run out is removed and
    /// not found.
    ///
    /// Of the clock reading no more is known than that it is not below the
    /// last one.
    pub fn query(&mut self, key: &str) -> (object: Option<ObjectMetadata>)
        requires
            old(self).wf(),
        ensures
            final(self).wf(),
            final(self).clock().continues(old(self).clock()),
            final(self).clock().last() <= MAX_NANOS,
            exists|reading: u128| #[trigger]
                Clock::reads(old(self).clock().epoch(), reading) && reading <= MAX_NANOS
                    && final(self).clock().last() == (if reading < old(self).clock().last() {
                    old(self).clock().last()
                } else {
                    reading
                }) && (old(self)@.objects.contains_key(key@)
                    && old(self)@.objects[key@].lease_deadline is Some
                    && old(self)@.objects[key@].lease_deadline->0 <= reading ==> object is None),
            final(self)@ == old(self)@.query(key@, final(self).clock().last()),
            match object {
                Some(object) => old(self)@.found(key@, final(self).clock().last()) == Some(object@),
                None => old(self)@.found(key@, final(self).clock().last()) is None,
            },
    {
        assert(self.clock().epoch() == self.clock.epoch());
        let now = self.clock.tick();
        self.query_at(key, now)
    }

    /// Removes an object. Returns whether there was one. The bytes of its
    /// replicas stay allocated.
    pub fn remove(&mut self, key: &str) -> (removed: bool)
        requires
            old(self).wf(),
        ensures
            final(self).wf(),
            final(self)@ == old(self)@.remove(key@),
            final(self).clock() == old(self).clock(),
            removed == old(self)@.objects.contains_key(key@),
    {
        let removed = self.objects.remove(key).is_some();
        assert(self@ =~= old(self)@.remove(key@));
        removed
    }

    /// The keys of the objects whose lease has run out at the clock reading
    /// `now`.
    fn expired_keys(&self, now: u128) -> (keys: Vec<String>)
        requires
            self.wf(),
        ensures
            forall|i: int|
                0 <= i < keys@.len() ==> self@.objects.contains_key(#[trigger] keys@[i]@)
                    && self@.objects[keys@[i]@].expired(now),
            forall|key: Seq<char>| #[trigger]
                self@.objects.contains_key(key) && self@.objects[key].expired(now) ==> exists|i: int|
                    0 <= i < keys@.len() && #[trigger] keys@[i]@ == key,
    {
        let mut keys: Vec<String> = Vec::new();
        let count = self.objects.len();
        let ghost names = self.objects.names();
        for i in 0..count
            invariant
                self.wf(),
                names == self.objects.names(),
                count == names.len(),
                forall|j: int|
                    0 <= j < keys@.len() ==> self@.objects.contains_key(#[trigger] keys@[j]@)
                        && self@.objects[keys@[j]@].expired(now),
                forall|j: int|
                    0 <= j < i && self@.objects[#[trigger] names[j]].expired(now) ==> exists|k: int|

                        0 <= k < keys@.len() && #[trigger] keys@[k]@ == names[j],
        {
            let ghost before = keys@;
            if self.objects.value_at(i).expired(now) {
                keys.push(self.objects.name_at(i).clone());
                assert(keys@[before.len() as int]@ == names[i as int]);
                assert forall|j: int|
                    0 <= j < i && self@.objects[#[trigger] names[j]].expired(
                        now,
                    ) implies exists|k: int|
                    0 <= k < keys@.len() && #[trigger] keys@[k]@ == names[j] by {
                    let k = choose|k: int|
                        0 <= k < before.len() && #[trigger] before[k]@ == names[j];
                    assert(keys@[k]@ == names[j]);
                }
            }
        }
        assert forall|key: Seq<char>| #[trigger]
            self@.objects.contains_key(key) && self@.objects[key].expired(
                now,
            ) implies exists|i: int| 0 <= i < keys@.len() && #[trigger] keys@[i]@ == key by {
            self.objects.lemma_names();
            assert(names.contains(key));
            let j = choose|j: int| 0 <= j < names.len() && names[j] == key;
            assert(self@.objects[names[j]].expired(now));
        }
        keys
    }

    /// Removes every object whose lease has run out at the clock reading
    /// `now`, and no other.
    pub fn run_eviction_at(&mut self, now: u128)
        requires
            old(self).wf(),
        ensures
            final(self).wf(),
            final(self)@ == old(self)@.run_eviction(now),
            final(self).clock() == old(self).clock(),
    {
        let expired = self.expired_keys(now);
        let count = expired.len();
        let ghost before = self@;
        for i in 0..count
            invariant
                self.wf(),
                count == expired@.len(),
                before == old(self)@,
                self.clock() == old(self).clock(),
                self@.allocators == before.allocators,
                self@.segment_order == before.segment_order,
                self@.lease_ttl == before.lease_ttl,
                forall|j: int|
                    0 <= j < expired@.len() ==> before.objects.contains_key(
                        #[trigger] expired@[j]@,
                    ) && before.objects[expired@[j]@].expired(now),
                forall|key: Seq<char>| #[trigger]
                    self@.objects.contains_key(key) ==> before.objects.contains_key(key)
                        && self@.objects[key] == before.objects[key],
                forall|j: int| 0 <= j < i ==> !self@.objects.contains_key(#[trigger] expired@[j]@),
                forall|key: Seq<char>| #[trigger]
                    before.objects.contains_key(key) && !before.objects[key].expired(now)
                        ==> self@.objects.contains_key(key),
        {
            let _ = self.remove(expired[i].as_str());
        }
        assert(self@ =~= before.run_eviction(now)) by {
            assert forall|key: Seq<char>| #[trigger]
                self@.objects.contains_key(key) implies !before.objects[key].expired(now) by {
                if before.objects[key].expired(now) {
                    let j = choose|j: int| 0 <= j < expired@.len() && #[trigger] expired@[j]@ == key;
                    assert(!self@.objects.contains_key(expired@[j]@));
                }
            }
        }
    }

    /// Removes every object whose lease has run out, and no other.
    ///
    /// Of the clock reading no more is known than that it is not below the
    /// last one.
    pub fn run_eviction(&mut self)
        requires
            old(self).wf(),
        ensures
            final(self).wf(),
            final(self).clock().continues(old(self).clock()),
            final(self).clock().last() <= MAX_NANOS,
            exists|reading: u128| #[trigger]
                Clock::reads(old(self).clock().epoch(), reading) && reading <= MAX_NANOS
                    && final(self).clock().last() == (if reading < old(self).clock().last() {
                    old(self).clock().last()
                } else {
                    reading
                }),
            final(self)@ == old(self)@.run_eviction(final(self).clock().last()),
    {
        assert(self.clock().epoch() == self.clock.epoch());
        let now = self.clock.tick();
        self.run_eviction_at(now)
    }
}

/// [`first_fit`] gives the least position, from `from` on, of a segment that
/// has room, and none only if no segment from there on has.
pub proof fn lemma_first_fit(
    order: Seq<Seq<char>>,
    allocators: Map<Seq<char>, AllocatorView>,
    size: nat,
    from: int,
)
    requires
        0 <= from,
    ensures
        match first_fit(order, allocators, size, from) {
            Some(i) => from <= i < order.len() && allocators[order[i]].fits(size) && forall|j: int|
                from <= j < i ==> !allocators[#[trigger] order[j]].fits(size),
            None => forall|j: int|
                from <= j < order.len() ==> !allocators[#[trigger] order[j]].fits(size),
        },
    decreases order.len() - from,
{
    if from < order.len() && !allocators[order[from]].fits(size) {
        lemma_first_fit(order, allocators, size, from + 1);
    }
}

/// Starting a put keeps a master valid.
pub proof fn lemma_put_start_keeps_valid(
    master: MasterView,
    client: Seq<char>,
    key: Seq<char>,
    size: nat,
)
    requires
        master.valid(),
    ensures
        master.put_start(client, key, size).valid(),
{
    lemma_first_fit(master.segment_order, master.allocators, size, 0);
    if let Some(i) = master.placement(size) {
        let name = master.segment_order[i];
        assert(master.segment_order.contains(name));
        assert(master.allocators.contains_key(name));
        let after = master.put_start(client, key, size);
        assert(after.allocators.dom() =~= master.allocators.dom());
    }
}

/// Registering a segment keeps a master valid.
pub proof fn lemma_register_keeps_valid(master: MasterView, name: Seq<char>, size: nat)
    requires
        master.valid(),
        size <= usize::MAX,
    ensures
        master.register_segment(name, size).valid(),
{
    let after = master.register_segment(name, size);
    assert forall|other: Seq<char>|
        after.allocators.contains_key(other) <==> #[trigger] after.segment_order.contains(other) by {
        if !master.allocators.contains_key(name) {
            assert(!master.segment_order.contains(name));
            if master.segment_order.contains(other) {
                let i = choose|i: int|
                    0 <= i < master.segment_order.len() && master.segment_order[i] == other;
                assert(after.segment_order[i] == other);
            }
            assert(after.segment_order[master.segment_order.len() as int] == name);
        } else {
            assert(master.segment_order.contains(name));
        }
    }
    assert forall|i: int|
        0 <= i < master.segment_order.len() && !master.allocators.contains_key(
            name,
        ) implies #[trigger] master.segment_order[i] != name by {
        assert(master.segment_order.contains(master.segment_order[i]));
    }
    assert(after.segment_order.no_duplicates());
}

impl Replica {
    /// The view keeps every field.
    pub proof fn law_view_tells_all(self)
        ensures
            self@.segment_name == self.segment_name@,
            self@.offset == self.offset,
            self@.size == self.size,
            self@.status == self.status,
    {
    }
}

impl ObjectMetadata {
    /// The view keeps every field and every replica, in their order.
    pub proof fn law_view_tells_all(self)
        ensures
            self@.key == self.key@,
            self@.size == self.size,
            self@.lease_deadline == self.lease_deadline,
            self@.created_by == self.created_by@,
            self@.replicas.len() == self.replicas@.len(),
            forall|i: int|
                0 <= i < self.replicas@.len() ==> #[trigger] self@.replicas[i]
                    == self.replicas@[i]@,
    {
    }
}

} // verus!
