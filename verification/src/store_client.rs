//! The store as a node sees it: where to write what is put, and where to read
//! what is asked for.

use vstd::prelude::*;

use crate::clock::{Clock, MAX_NANOS};
use crate::error::TransferError;
use crate::metadata::{MetadataStore, SegmentDesc, SegmentView};
use crate::store::{MasterService, MasterView, ObjectMetadata, ObjectView, Replica, ReplicaStatus, ReplicaView};
use crate::transfer;
use crate::transfer_engine::{EngineView, RemoteExchange, TransferEngine};

verus! {

/// The position of the first replica, from position `from` on, whose data is
/// in place.
pub open spec fn first_complete(replicas: Seq<ReplicaView>, from: int) -> Option<int>
    decreases replicas.len() - from,
{
    if from < 0 || from >= replicas.len() {
        None
    } else if replicas[from].status == ReplicaStatus::Complete {
        Some(from)
    } else {
        first_complete(replicas, from + 1)
    }
}

/// The replica that an object is read from: the first one whose data is in
/// place.
pub open spec fn readable_replica(object: ObjectView) -> Option<ReplicaView> {
    match first_complete(object.replicas, 0) {
        Some(i) => Some(object.replicas[i]),
        None => None,
    }
}

/// The replica that an object is read from: the first one whose data is in
/// place.
pub fn source_replica(object: &ObjectMetadata) -> (replica: Option<&Replica>)
    ensures
        match replica {
            Some(replica) => readable_replica(object@) == Some(replica@),
            None => readable_replica(object@) is None,
        },
{
    let count = object.replicas.len();
    for i in 0..count
        invariant
            count == object.replicas@.len(),
            first_complete(object@.replicas, 0) == first_complete(object@.replicas, i as int),
    {
        if object.replicas[i].status == ReplicaStatus::Complete {
            return Some(&object.replicas[i]);
        }
    }
    None
}

/// How the data of a put gets to its replica.
#[derive(Debug, PartialEq, Eq)]
pub enum PutStep {
    /// Not at all: no segment has room for it.
    NoSpace,
    /// It is written into the local segment.
    WriteLocal { offset: usize },
    /// It is sent to another node, which acknowledges it.
    WriteRemote(RemoteExchange),
}

/// Where the data of a get comes from.
#[derive(Debug, PartialEq, Eq)]
pub enum GetStep {
    /// From nowhere: there is no such object, or its data is not in place.
    Absent,
    /// It is read from the local segment.
    ReadLocal { offset: usize, size: usize },
    /// It is what another node replies.
    ReadRemote(RemoteExchange),
}

impl PutStep {
    /// Whether this is how `data` gets to `replica`, for the node
    /// `local_name`.
    pub open spec fn serves(
        self,
        replica: Option<ReplicaView>,
        data: Seq<u8>,
        local_name: Seq<char>,
        segments: Map<Seq<char>, SegmentView>,
    ) -> bool {
        match replica {
            None => self == PutStep::NoSpace,
            Some(replica) => if replica.segment_name == local_name {
                self matches PutStep::WriteLocal { offset } && offset == replica.offset
            } else {
                self matches PutStep::WriteRemote(call) && segments.contains_key(
                    replica.segment_name,
                ) && call.remote@ == segments[replica.segment_name] && call.exchange@
                    == transfer::write_exchange(replica.offset, data)
            },
        }
    }
}

impl GetStep {
    /// Whether this is where the data of `replica` comes from, for the node
    /// `local_name`.
    pub open spec fn serves(
        self,
        replica: Option<ReplicaView>,
        local_name: Seq<char>,
        segments: Map<Seq<char>, SegmentView>,
    ) -> bool {
        match replica {
            None => self == GetStep::Absent,
            Some(replica) => if replica.segment_name == local_name {
                self matches GetStep::ReadLocal { offset, size } && offset == replica.offset
                    && size == replica.size
            } else {
                self matches GetStep::ReadRemote(call) && segments.contains_key(
                    replica.segment_name,
                ) && call.remote@ == segments[replica.segment_name] && call.exchange@
                    == transfer::read_exchange(replica.offset, replica.size)
            },
        }
    }
}

/// Whether a replica lies on a node that cannot be reached, because its
/// segment is neither the local one nor registered.
pub open spec fn unreachable_replica(
    replica: Option<ReplicaView>,
    local_name: Seq<char>,
    segments: Map<Seq<char>, SegmentView>,
) -> bool {
    match replica {
        Some(replica) => replica.segment_name != local_name && !segments.contains_key(
            replica.segment_name,
        ),
        None => false,
    }
}

/// What a get at the clock reading `now` reads from.
pub open spec fn replica_to_read(master: MasterView, key: Seq<char>, now: u128) -> Option<
    ReplicaView,
> {
    match master.found(key, now) {
        Some(object) => readable_replica(object),
        None => None,
    }
}

/// A node's access to the store.
pub struct StoreClient {
    engine: TransferEngine,
    local_name: String,
}

impl View for StoreClient {
    type V = EngineView;

    closed spec fn view(&self) -> EngineView {
        self.engine@
    }
}

impl StoreClient {
    /// The client goes by the name of its engine.
    pub closed spec fn wf(self) -> bool {
        &&& self.engine.wf()
        &&& self.local_name@ == self.engine@.local_name
    }

    /// A client for the node `local_name`, whose segment of `segment_size`
    /// bytes is served at `host` and `port`. The registry and the master
    /// learn of the segment.
    pub fn new(
        master: &mut MasterService,
        metadata: &mut MetadataStore,
        local_name: String,
        host: String,
        port: u16,
        segment_size: usize,
    ) -> (client: Self)
        requires
            old(master).wf(),
            old(metadata).wf(),
        ensures
            client.wf(),
            final(master).wf(),
            final(master).clock() == old(master).clock(),
            final(metadata).wf(),
            ({
                let desc = SegmentView {
                    name: local_name@,
                    host: host@,
                    port,
                    size: segment_size as nat,
                };
                &&& client@ == (EngineView {
                    local_desc: Some(desc),
                    ..EngineView::empty(local_name@)
                })
                &&& final(metadata)@ == old(metadata)@.insert(local_name@, desc)
                &&& final(master)@ == old(master)@.register_segment(
                    local_name@,
                    segment_size as nat,
                )
            }),
    {
        let mut engine = TransferEngine::new(local_name.clone());
        let desc = engine.register_local_memory(segment_size, host, port, metadata);
        master.register_segment(desc);
        StoreClient { engine, local_name }
    }

    /// The local segment.
    pub fn local_segment(&self) -> (desc: Option<SegmentDesc>)
        ensures
            match desc {
                Some(desc) => self@.local_desc == Some(desc@),
                None => self@.local_desc is None,
            },
    {
        self.engine.local_segment()
    }

    /// Starts a put: the master places a replica, and this says how the data
    /// gets there. A replica on a node that cannot be reached stays on its
    /// way.
    pub fn begin_put(
        &self,
        key: &str,
        data: &[u8],
        master: &mut MasterService,
        metadata: &MetadataStore,
    ) -> (result: Result<PutStep, TransferError>)
        requires
            self.wf(),
            old(master).wf(),
            metadata.wf(),
        ensures
            final(master).wf(),
            final(master).clock() == old(master).clock(),
            final(master)@ == old(master)@.put_start(self@.local_name, key@, data@.len()),
            ({
                let replica = old(master)@.placed_replica(data@.len());
                match result {
                    Ok(step) => !unreachable_replica(replica, self@.local_name, metadata@)
                        && step.serves(replica, data@, self@.local_name, metadata@),
                    Err(err) => unreachable_replica(replica, self@.local_name, metadata@) && (
                    err matches TransferError::MissingSegment(name) && name@
                        == replica->0.segment_name),
                }
            }),
    {
        match master.put_start(self.local_name.as_str(), key, data.len()) {
            None => Ok(PutStep::NoSpace),
            Some(replica) => {
                if replica.segment_name == self.local_name {
                    return Ok(PutStep::WriteLocal { offset: replica.offset });
                }
                match self.engine.write_remote_bytes(
                    replica.segment_name.as_str(),
                    replica.offset,
                    data,
                    metadata,
                ) {
                    Ok(call) => Ok(PutStep::WriteRemote(call)),
                    Err(err) => Err(err),
                }
            },
        }
    }

    /// Ends a put at the clock reading `now`, once its data was `written` or
    /// failed to be. Data that is in place is committed; the result says
    /// whether the object was still there. A failure is passed on, and the
    /// replica stays on its way.
    pub fn end_put_at(
        &self,
        key: &str,
        written: Result<(), TransferError>,
        now: u128,
        master: &mut MasterService,
    ) -> (result: Result<bool, TransferError>)
        requires
            old(master).wf(),
            written is Ok && old(master)@.objects.contains_key(key@) ==> now
                + old(master)@.lease_ttl <= u128::MAX,
        ensures
            final(master).wf(),
            final(master).clock() == old(master).clock(),
            match written {
                Ok(()) => final(master)@ == old(master)@.put_end(key@, now) && result == Ok::<
                    bool,
                    TransferError,
                >(old(master)@.objects.contains_key(key@)),
                Err(err) => final(master)@ == old(master)@ && result == Err::<bool, TransferError>(
                    err,
                ),
            },
    {
        match written {
            Ok(()) => Ok(master.put_end_at(key, now)),
            Err(err) => Err(err),
        }
    }

    /// Ends a put, once its data was `written` or failed to be. Data that is
    /// in place is committed; the result says whether the object was still
    /// there. A failure is passed on, and the replica stays on its way.
    ///
    /// Of the clock reading no more is known than that it is not below the
    /// last one.
    pub fn end_put(
        &self,
        key: &str,
        written: Result<(), TransferError>,
        master: &mut MasterService,
    ) -> (result: Result<bool, TransferError>)
        requires
            old(master).wf(),
        ensures
            final(master).wf(),
            written is Ok ==> exists|reading: u128| #[trigger]
                Clock::reads(old(master).clock().epoch(), reading) && reading <= MAX_NANOS
                    && final(master).clock().last() == (if reading < old(master).clock().last() {
                    old(master).clock().last()
                } else {
                    reading
                }),
            match written {
                Ok(()) => result == Ok::<bool, TransferError>(
                    old(master)@.objects.contains_key(key@),
                ) && final(master).clock().continues(old(master).clock())
                    && final(master).clock().last() <= MAX_NANOS && old(master)@.lease_ttl
                    <= MAX_NANOS
                    && final(master)@ == old(master)@.put_end(key@, final(master).clock().last()),
                Err(err) => final(master)@ == old(master)@ && final(master).clock()
                    == old(master).clock() && result == Err::<bool, TransferError>(
                    err,
                ),
            },
    {
        match written {
            Ok(()) => Ok(master.put_end(key)),
            Err(err) => Err(err),
        }
    }

    /// Starts a get of an object as the master knows it.
    pub fn read_object(
        &self,
        object: &ObjectMetadata,
        metadata: &MetadataStore,
    ) -> (result: Result<GetStep, TransferError>)
        requires
            self.wf(),
            metadata.wf(),
        ensures
            ({
                let replica = readable_replica(object@);
                match result {
                    Ok(step) => !unreachable_replica(replica, self@.local_name, metadata@)
                        && step.serves(replica, self@.local_name, metadata@),
                    Err(err) => unreachable_replica(replica, self@.local_name, metadata@) && (
                    err matches TransferError::MissingSegment(name) && name@
                        == replica->0.segment_name),
                }
            }),
    {
        match source_replica(object) {
            None => Ok(GetStep::Absent),
            Some(replica) => {
                if replica.segment_name == self.local_name {
                    return Ok(
                        GetStep::ReadLocal { offset: replica.offset, size: replica.size },
                    );
                }
                match self.engine.read_remote_bytes(
                    replica.segment_name.as_str(),
                    replica.offset,
                    replica.size,
                    metadata,
                ) {
                    Ok(call) => Ok(GetStep::ReadRemote(call)),
                    Err(err) => Err(err),
                }
            },
        }
    }

    /// Starts a get at the clock reading `now`: the master looks the object
    /// up, and this says where its data comes from.
    pub fn begin_get_at(
        &self,
        key: &str,
        now: u128,
        master: &mut MasterService,
        metadata: &MetadataStore,
    ) -> (result: Result<GetStep, TransferError>)
        requires
            self.wf(),
            old(master).wf(),
            metadata.wf(),
        ensures
            final(master).wf(),
            final(master).clock() == old(master).clock(),
            final(master)@ == old(master)@.query(key@, now),
            ({
                let replica = replica_to_read(old(master)@, key@, now);
                match result {
                    Ok(step) => !unreachable_replica(replica, self@.local_name, metadata@)
                        && step.serves(replica, self@.local_name, metadata@),
                    Err(err) => unreachable_replica(replica, self@.local_name, metadata@) && (
                    err matches TransferError::MissingSegment(name) && name@
                        == replica->0.segment_name),
                }
            }),
    {
        match master.query_at(key, now) {
            None => Ok(GetStep::Absent),
            Some(object) => self.read_object(&object, metadata),
        }
    }

    /// Starts a get: the master looks the object up, and this says where its
    /// data comes from.
    ///
    /// Of the clock reading no more is known than that it is not below the
    /// last one.
    pub fn begin_get(
        &self,
        key: &str,
        master: &mut MasterService,
        metadata: &MetadataStore,
    ) -> (result: Result<GetStep, TransferError>)
        requires
            self.wf(),
            old(master).wf(),
            metadata.wf(),
        ensures
            final(master).wf(),
            final(master).clock().continues(old(master).clock()),
            final(master).clock().last() <= MAX_NANOS,
            exists|reading: u128| #[trigger]
                Clock::reads(old(master).clock().epoch(), reading) && reading <= MAX_NANOS
                    && final(master).clock().last() == (if reading < old(master).clock().last() {
                    old(master).clock().last()
                } else {
                    reading
                }) && (old(master)@.objects.contains_key(key@)
                    && old(master)@.objects[key@].lease_deadline is Some
                    && old(master)@.objects[key@].lease_deadline->0 <= reading ==> result == Ok::<
                    GetStep,
                    TransferError,
                >(GetStep::Absent)),
            final(master)@ == old(master)@.query(key@, final(master).clock().last()),
            ({
                let replica = replica_to_read(old(master)@, key@, final(master).clock().last());
                match result {
                    Ok(step) => !unreachable_replica(replica, self@.local_name, metadata@)
                        && step.serves(replica, self@.local_name, metadata@),
                    Err(err) => unreachable_replica(replica, self@.local_name, metadata@) && (
                    err matches TransferError::MissingSegment(name) && name@
                        == replica->0.segment_name),
                }
            }),
    {
        match master.query(key) {
            None => Ok(GetStep::Absent),
            Some(object) => self.read_object(&object, metadata),
        }
    }
}

} // verus!
