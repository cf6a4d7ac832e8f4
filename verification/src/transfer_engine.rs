//! The transfer engine of one node: its local segment and its batches of
//! transfers.

use std::collections::HashMap;

use vstd::prelude::*;

use crate::batch;
use crate::batch::{BatchState, BatchView, TaskView, TransferStatus};
use crate::error::TransferError;
use crate::metadata::{MetadataStore, SegmentDesc, SegmentView};
use crate::transfer;
use crate::transfer::{Exchange, RequestView, TransferRequest};

verus! {

broadcast use vstd::std_specs::hash::group_hash_axioms;

/// How long to pause between two looks at a batch, in milliseconds.
pub const WAIT_PAUSE_MILLIS: u64 = 10;

/// A transfer that is to be carried out with the node that holds the segment
/// `remote`, as the task at `task_index` of its batch.
#[derive(Debug, PartialEq, Eq)]
pub struct Dispatch {
    pub task_index: usize,
    pub request: TransferRequest,
    pub remote: SegmentDesc,
}

/// What a [`Dispatch`] says.
pub struct DispatchView {
    pub task_index: nat,
    pub request: RequestView,
    pub remote: SegmentView,
}

impl View for Dispatch {
    type V = DispatchView;

    open spec fn view(&self) -> DispatchView {
        DispatchView {
            task_index: self.task_index as nat,
            request: self.request@,
            remote: self.remote@,
        }
    }
}

/// The task that a request becomes: one that is under way if its target is
/// known, and one that has failed if it is not.
pub open spec fn submitted_task(
    request: RequestView,
    segments: Map<Seq<char>, SegmentView>,
) -> TaskView {
    TaskView {
        request,
        status: if segments.contains_key(request.target_id) {
            TransferStatus::Pending
        } else {
            TransferStatus::Failed
        },
    }
}

/// The number of requests whose target is not known.
pub open spec fn missing_count(
    requests: Seq<RequestView>,
    segments: Map<Seq<char>, SegmentView>,
) -> nat
    decreases requests.len(),
{
    if requests.len() == 0 {
        0
    } else {
        missing_count(requests.drop_last(), segments) + (if segments.contains_key(
            requests.last().target_id,
        ) {
            0nat
        } else {
            1nat
        })
    }
}

/// A batch once `requests` have been submitted to it.
pub open spec fn submitted(
    batch: BatchView,
    requests: Seq<RequestView>,
    segments: Map<Seq<char>, SegmentView>,
) -> BatchView {
    BatchView {
        tasks: batch.tasks + requests.map_values(
            |request: RequestView| submitted_task(request, segments),
        ),
        completed_count: batch.completed_count + missing_count(requests, segments),
        has_failure: batch.has_failure || missing_count(requests, segments) > 0,
    }
}

/// The transfers to carry out for `requests`, in their order: those whose
/// target is known. The first request becomes the task at `start`.
pub open spec fn dispatches(
    requests: Seq<RequestView>,
    segments: Map<Seq<char>, SegmentView>,
    start: nat,
) -> Seq<DispatchView>
    decreases requests.len(),
{
    if requests.len() == 0 {
        Seq::empty()
    } else {
        let earlier = dispatches(requests.drop_last(), segments, start);
        let request = requests.last();
        if segments.contains_key(request.target_id) {
            earlier.push(
                DispatchView {
                    task_index: (start + requests.len() - 1) as nat,
                    request,
                    remote: segments[request.target_id],
                },
            )
        } else {
            earlier
        }
    }
}

/// One request more leads to one task more, and to a dispatch if its target
/// is known.
proof fn lemma_submit_one_more(
    batch: BatchView,
    requests: Seq<RequestView>,
    request: RequestView,
    segments: Map<Seq<char>, SegmentView>,
)
    ensures
        ({
            let before = submitted(batch, requests, segments);
            let after = submitted(batch, requests.push(request), segments);
            let index = batch.tasks.len() + requests.len();
            &&& before.tasks.len() == index
            &&& segments.contains_key(request.target_id) ==> after == before.with_pending(request)
            &&& !segments.contains_key(request.target_id) ==> after == before.with_pending(
                request,
            ).with_done(index, false)
        }),
        dispatches(requests.push(request), segments, batch.tasks.len()) == (
        if segments.contains_key(request.target_id) {
            dispatches(requests, segments, batch.tasks.len()).push(
                DispatchView {
                    task_index: batch.tasks.len() + requests.len(),
                    request,
                    remote: segments[request.target_id],
                },
            )
        } else {
            dispatches(requests, segments, batch.tasks.len())
        }),
{
    let before = submitted(batch, requests, segments);
    let after = submitted(batch, requests.push(request), segments);
    let index = batch.tasks.len() + requests.len();
    assert(requests.push(request).drop_last() =~= requests);
    if segments.contains_key(request.target_id) {
        assert(after =~= before.with_pending(request));
    } else {
        assert(after =~= before.with_pending(request).with_done(index, false));
    }
}

/// Adds `requests` to a batch and returns the transfers to carry out.
fn submit_all(
    batch: &mut BatchState,
    requests: &Vec<TransferRequest>,
    metadata: &MetadataStore,
) -> (todo: Vec<Dispatch>)
    requires
        old(batch)@.consistent(),
        metadata.wf(),
    ensures
        final(batch)@.consistent(),
        final(batch)@ == submitted(
            old(batch)@,
            requests@.map_values(|request: TransferRequest| request@),
            metadata@,
        ),
        todo@.map_values(|dispatch: Dispatch| dispatch@) == dispatches(
            requests@.map_values(|request: TransferRequest| request@),
            metadata@,
            old(batch)@.tasks.len(),
        ),
{
    let mut todo: Vec<Dispatch> = Vec::new();
    let ghost views = requests@.map_values(|request: TransferRequest| request@);
    let ghost start = old(batch)@.tasks.len();
    assert(views.take(0) =~= Seq::empty());
    assert(batch@ =~= submitted(batch@, views.take(0), metadata@));
    assert(todo@.map_values(|dispatch: Dispatch| dispatch@) =~= dispatches(
        views.take(0),
        metadata@,
        start,
    ));
    let count = requests.len();
    for i in 0..count
        invariant
            count == requests@.len(),
            views == requests@.map_values(|request: TransferRequest| request@),
            start == old(batch)@.tasks.len(),
            metadata.wf(),
            batch@.consistent(),
            batch@ == submitted(old(batch)@, views.take(i as int), metadata@),
            todo@.map_values(|dispatch: Dispatch| dispatch@) == dispatches(
                views.take(i as int),
                metadata@,
                start,
            ),
    {
        proof {
            lemma_submit_one_more(old(batch)@, views.take(i as int), views[i as int], metadata@);
            assert(views.take(i as int).push(views[i as int]) =~= views.take(i + 1));
            batch::law_adding_keeps_consistent(batch@, views[i as int]);
        }
        let ghost earlier = todo@;
        let request = &requests[i];
        let task_index = batch.add_pending(request.clone());
        match metadata.get_segment(request.target_id.as_str()) {
            Some(remote) => {
                let dispatch = Dispatch { task_index, request: request.clone(), remote };
                todo.push(dispatch);
                assert(todo@.map_values(|dispatch: Dispatch| dispatch@) =~= earlier.map_values(
                    |dispatch: Dispatch| dispatch@,
                ).push(dispatch@));
            },
            None => {
                proof {
                    batch.lemma_len();
                    batch::law_ending_keeps_consistent(batch@, task_index as nat, false);
                }
                batch.mark_task_done(task_index, false);
            },
        }
    }
    assert(views.take(count as int) =~= views);
    todo
}

/// What a node knows of its local segment and of its batches.
#[verifier::ext_equal]
pub struct EngineView {
    pub local_name: Seq<char>,
    pub local_desc: Option<SegmentView>,
    pub batches: Map<usize, BatchView>,
    pub next_batch_id: usize,
}

impl EngineView {
    /// Every batch is consistent.
    pub open spec fn valid(self) -> bool {
        forall|id: usize| #[trigger] self.batches.contains_key(id) ==> self.batches[id].consistent()
    }

    /// An engine without a local segment and without batches.
    pub open spec fn empty(local_name: Seq<char>) -> EngineView {
        EngineView { local_name, local_desc: None, batches: Map::empty(), next_batch_id: 0 }
    }

    /// The id that follows `id`. The ids wrap around.
    pub open spec fn id_after(id: usize) -> usize {
        if id == usize::MAX {
            0
        } else {
            (id + 1) as usize
        }
    }

    /// The engine with one more batch.
    pub open spec fn with_new_batch(self) -> EngineView {
        EngineView {
            batches: self.batches.insert(self.next_batch_id, BatchView::empty()),
            next_batch_id: Self::id_after(self.next_batch_id),
            ..self
        }
    }

    /// The engine with another state of a batch.
    pub open spec fn with_batch(self, id: usize, batch: BatchView) -> EngineView {
        EngineView { batches: self.batches.insert(id, batch), ..self }
    }

    /// Whether a task of a batch is under way.
    pub open spec fn task_is_pending(self, id: usize, index: nat) -> bool {
        self.batches.contains_key(id) && self.batches[id].is_pending(index)
    }

    /// Every batch has an id below the next one.
    pub open spec fn ids_below_next(self) -> bool {
        forall|id: usize| #[trigger] self.batches.contains_key(id) ==> id < self.next_batch_id
    }
}

/// An exchange to be carried out with the node that holds the segment
/// `remote`.
#[derive(Debug, PartialEq, Eq)]
pub struct RemoteExchange {
    pub remote: SegmentDesc,
    pub exchange: Exchange,
}

/// What to do after a look at a batch that is waited for.
#[derive(Debug, Clone, Copy, PartialEq, Eq, Structural)]
pub enum WaitStep {
    /// Wait no longer: this is how the batch ended.
    Done(TransferStatus),
    /// Pause for [`WAIT_PAUSE_MILLIS`] and look again.
    Pause,
}

/// What to do once a batch that is waited for was found in `status` at the
/// clock reading `now`. At the deadline a batch that has not ended counts as
/// failed.
pub fn wait_step(status: TransferStatus, now: u128, deadline: u128) -> (step: WaitStep)
    ensures
        step == (if status == TransferStatus::Completed || status == TransferStatus::Failed {
            WaitStep::Done(status)
        } else if now >= deadline {
            WaitStep::Done(TransferStatus::Failed)
        } else {
            WaitStep::Pause
        }),
{
    match status {
        TransferStatus::Completed | TransferStatus::Failed => WaitStep::Done(status),
        _ => {
            if now >= deadline {
                WaitStep::Done(TransferStatus::Failed)
            } else {
                WaitStep::Pause
            }
        },
    }
}

/// The transfer engine of one node.
pub struct TransferEngine {
    local_name: String,
    local_desc: Option<SegmentDesc>,
    batches: HashMap<usize, BatchState>,
    next_batch_id: usize,
}

impl View for TransferEngine {
    type V = EngineView;

    closed spec fn view(&self) -> EngineView {
        EngineView {
            local_name: self.local_name@,
            local_desc: match self.local_desc {
                Some(desc) => Some(desc@),
                None => None,
            },
            batches: self.batches@.map_values(|batch: BatchState| batch@),
            next_batch_id: self.next_batch_id,
        }
    }
}

impl TransferEngine {
    /// What the engine says is valid.
    pub open spec fn wf(self) -> bool {
        self@.valid()
    }

    /// An engine for the node `local_name`.
    pub fn new(local_name: String) -> (engine: Self)
        ensures
            engine.wf(),
            engine@ == EngineView::empty(local_name@),
    {
        let engine = TransferEngine {
            local_name,
            local_desc: None,
            batches: HashMap::new(),
            next_batch_id: 0,
        };
        assert(engine@ =~= EngineView::empty(local_name@));
        engine
    }

    /// Notes that the local segment of `size` bytes is served at `host` and
    /// `port`, tells the registry and returns the segment's description.
    pub fn register_local_memory(
        &mut self,
        size: usize,
        host: String,
        port: u16,
        metadata: &mut MetadataStore,
    ) -> (desc: SegmentDesc)
        requires
            old(self).wf(),
            old(metadata).wf(),
        ensures
            final(self).wf(),
            final(metadata).wf(),
            desc@ == (SegmentView {
                name: old(self)@.local_name,
                host: host@,
                port,
                size: size as nat,
            }),
            final(self)@ == (EngineView { local_desc: Some(desc@), ..old(self)@ }),
            final(metadata)@ == old(metadata)@.insert(old(self)@.local_name, desc@),
    {
        let desc = SegmentDesc { name: self.local_name.clone(), host, port, size };
        metadata.register_segment(desc.clone());
        self.local_desc = Some(desc.clone());
        assert(self@ =~= (EngineView { local_desc: Some(desc@), ..old(self)@ }));
        desc
    }

    /// The local segment, once it is registered.
    pub fn local_segment(&self) -> (desc: Option<SegmentDesc>)
        ensures
            match desc {
                Some(desc) => self@.local_desc == Some(desc@),
                None => self@.local_desc is None,
            },
    {
        match &self.local_desc {
            Some(desc) => Some(desc.clone()),
            None => None,
        }
    }

    /// The segment of this name.
    pub fn open_segment(&self, name: &str, metadata: &MetadataStore) -> (desc: Option<SegmentDesc>)
        requires
            metadata.wf(),
        ensures
            match desc {
                Some(desc) => metadata@.contains_key(name@) && desc@ == metadata@[name@],
                None => !metadata@.contains_key(name@),
            },
    {
        metadata.get_segment(name)
    }

    /// Opens a batch and returns its id. `batch_size` is how many transfers
    /// are expected; a batch takes any number of them.
    pub fn allocate_batch_id(&mut self, batch_size: usize) -> (id: usize)
        requires
            old(self).wf(),
        ensures
            final(self).wf(),
            id == old(self)@.next_batch_id,
            final(self)@ == old(self)@.with_new_batch(),
    {
        let id = self.next_batch_id;
        self.next_batch_id = id.wrapping_add(1);
        self.batches.insert(id, BatchState::new(batch_size));
        assert(self@ =~= old(self)@.with_new_batch());
        id
    }

    /// Submits `requests` to a batch and returns the transfers to carry out.
    /// A request whose target is not registered fails at once. The batch has
    /// to exist, and the local segment has to be registered.
    pub fn submit_transfer(
        &mut self,
        batch_id: usize,
        requests: Vec<TransferRequest>,
        metadata: &MetadataStore,
    ) -> (result: Result<Vec<Dispatch>, TransferError>)
        requires
            old(self).wf(),
            metadata.wf(),
        ensures
            final(self).wf(),
            !old(self)@.batches.contains_key(batch_id) ==> result == Err::<
                Vec<Dispatch>,
                TransferError,
            >(TransferError::UnknownBatch(batch_id)) && final(self)@ == old(self)@,
            old(self)@.batches.contains_key(batch_id) && old(self)@.local_desc is None ==> result
                == Err::<Vec<Dispatch>, TransferError>(TransferError::NoLocalMemory)
                && final(self)@ == old(self)@,
            old(self)@.batches.contains_key(batch_id) && old(self)@.local_desc is Some ==> ({
                let batch = old(self)@.batches[batch_id];
                let views = requests@.map_values(|request: TransferRequest| request@);
                &&& final(self)@ == old(self)@.with_batch(
                    batch_id,
                    submitted(batch, views, metadata@),
                )
                &&& forall|i: int|
                    0 <= i < batch.tasks.len() ==> #[trigger] final(self)@.batches[batch_id].tasks[i] == batch.tasks[i]
                &&& final(self)@.batches[batch_id].tasks.len() == batch.tasks.len()
                    + requests@.len()
                &&& final(self)@.batches[batch_id].completed_count == batch.completed_count
                    + views.filter(
                    |request: RequestView| !metadata@.contains_key(request.target_id),
                ).len()
                &&& result matches Ok(todo)
                &&& todo@.map_values(|dispatch: Dispatch| dispatch@) == dispatches(
                    views,
                    metadata@,
                    batch.tasks.len(),
                )
            }),
    {
        if !self.batches.contains_key(&batch_id) {
            return Err(TransferError::UnknownBatch(batch_id));
        }
        if self.local_desc.is_none() {
            return Err(TransferError::NoLocalMemory);
        }
        match self.batches.remove(&batch_id) {
            Some(batch) => {
                let mut batch = batch;
                assert(old(self)@.batches.contains_key(batch_id));
                proof {
                    law_submission_only_appends(
                        batch@,
                        requests@.map_values(|request: TransferRequest| request@),
                        metadata@,
                    );
                }
                let todo = submit_all(&mut batch, &requests, metadata);
                self.batches.insert(batch_id, batch);
                assert(self@ =~= old(self)@.with_batch(batch_id, batch@));
                Ok(todo)
            },
            None => Err(TransferError::UnknownBatch(batch_id)),
        }
    }

    /// How far a batch has come.
    pub fn get_transfer_status(&self, batch_id: usize) -> (result: Result<
        TransferStatus,
        TransferError,
    >)
        ensures
            result == (if self@.batches.contains_key(batch_id) {
                Ok::<TransferStatus, TransferError>(self@.batches[batch_id].overall_status())
            } else {
                Err::<TransferStatus, TransferError>(TransferError::UnknownBatch(batch_id))
            }),
    {
        match self.batches.get(&batch_id) {
            Some(batch) => Ok(batch.overall_status()),
            None => Err(TransferError::UnknownBatch(batch_id)),
        }
    }

    /// Whether a task of a batch is under way.
    pub fn task_is_pending(&self, batch_id: usize, index: usize) -> (pending: bool)
        ensures
            pending == self@.task_is_pending(batch_id, index as nat),
    {
        match self.batches.get(&batch_id) {
            Some(batch) => batch.is_pending(index),
            None => false,
        }
    }

    /// Notes that a transfer which was under way has ended.
    pub fn mark_task_done(&mut self, batch_id: usize, index: usize, success: bool)
        requires
            old(self).wf(),
            old(self)@.task_is_pending(batch_id, index as nat),
        ensures
            final(self).wf(),
            final(self)@ == old(self)@.with_batch(
                batch_id,
                old(self)@.batches[batch_id].with_done(index as nat, success),
            ),
    {
        match self.batches.remove(&batch_id) {
            Some(batch) => {
                let mut batch = batch;
                proof {
                    batch.lemma_len();
                    batch::law_ending_keeps_consistent(batch@, index as nat, success);
                }
                batch.mark_task_done(index, success);
                self.batches.insert(batch_id, batch);
                assert(self@ =~= old(self)@.with_batch(batch_id, batch@));
            },
            None => {},
        }
    }

    /// The exchange that writes `data` into the segment `target_id` from
    /// `target_offset` on.
    pub fn write_remote_bytes(
        &self,
        target_id: &str,
        target_offset: usize,
        data: &[u8],
        metadata: &MetadataStore,
    ) -> (result: Result<RemoteExchange, TransferError>)
        requires
            metadata.wf(),
        ensures
            match result {
                Ok(call) => metadata@.contains_key(target_id@) && call.remote@
                    == metadata@[target_id@] && call.exchange@ == transfer::write_exchange(
                    target_offset as nat,
                    data@,
                ),
                Err(err) => !metadata@.contains_key(target_id@) && (err matches
                    TransferError::MissingSegment(name) && name@ == target_id@),
            },
    {
        match metadata.get_segment(target_id) {
            Some(remote) => Ok(
                RemoteExchange { remote, exchange: transfer::write_bytes(target_offset, data) },
            ),
            None => Err(TransferError::MissingSegment(target_id.to_owned())),
        }
    }

    /// The exchange that reads `length` bytes of the segment `target_id` from
    /// `target_offset` on.
    pub fn read_remote_bytes(
        &self,
        target_id: &str,
        target_offset: usize,
        length: usize,
        metadata: &MetadataStore,
    ) -> (result: Result<RemoteExchange, TransferError>)
        requires
            metadata.wf(),
        ensures
            match result {
                Ok(call) => metadata@.contains_key(target_id@) && call.remote@
                    == metadata@[target_id@] && call.exchange@ == transfer::read_exchange(
                    target_offset as nat,
                    length as nat,
                ),
                Err(err) => !metadata@.contains_key(target_id@) && (err matches
                    TransferError::MissingSegment(name) && name@ == target_id@),
            },
    {
        match metadata.get_segment(target_id) {
            Some(remote) => Ok(
                RemoteExchange { remote, exchange: transfer::read_bytes(target_offset, length) },
            ),
            None => Err(TransferError::MissingSegment(target_id.to_owned())),
        }
    }
}

/// A new batch has an id that no other batch has, and it does not touch the
/// other batches, as long as the ids have not wrapped around.
pub proof fn law_batch_ids_are_fresh(engine: EngineView)
    requires
        engine.ids_below_next(),
        engine.next_batch_id < usize::MAX,
    ensures
        !engine.batches.contains_key(engine.next_batch_id),
        engine.with_new_batch().ids_below_next(),
        forall|id: usize| #[trigger]
            engine.batches.contains_key(id) ==> engine.with_new_batch().batches.contains_key(id)
                && engine.with_new_batch().batches[id] == engine.batches[id],
{
}

/// An engine starts with ids that are below the next one, and what happens to
/// a batch that exists keeps them so.
pub proof fn law_batch_updates_keep_ids(
    engine: EngineView,
    id: usize,
    batch: BatchView,
    local_name: Seq<char>,
)
    requires
        engine.ids_below_next(),
        engine.batches.contains_key(id),
    ensures
        EngineView::empty(local_name).ids_below_next(),
        engine.with_batch(id, batch).ids_below_next(),
        engine.with_batch(id, batch).next_batch_id == engine.next_batch_id,
{
}

impl Dispatch {
    /// The view keeps every field.
    pub proof fn law_view_tells_all(self)
        ensures
            self@.task_index == self.task_index,
            self@.request == self.request@,
            self@.remote == self.remote@,
    {
    }
}

/// A submission leaves every task that the batch already had exactly as it
/// was. Behind them comes one task for each request, in their order: under way
/// if its target is known, failed if it is not. The count of ended tasks grows
/// exactly by the number of requests whose target is unknown, and a failure is
/// noted exactly if there was one or there is such a request.
pub proof fn law_submission_only_appends(
    batch: BatchView,
    requests: Seq<RequestView>,
    segments: Map<Seq<char>, SegmentView>,
)
    ensures
        ({
            let after = submitted(batch, requests, segments);
            let start = batch.tasks.len();
            let unknown = requests.filter(
                |request: RequestView| !segments.contains_key(request.target_id),
            );
            &&& after.tasks.len() == start + requests.len()
            &&& forall|i: int| 0 <= i < start ==> #[trigger] after.tasks[i] == batch.tasks[i]
            &&& forall|i: int|
                start <= i < start + requests.len() ==> (#[trigger] after.tasks[i]).request
                    == requests[i - start]
            &&& forall|i: int|
                start <= i < start + requests.len() ==> (#[trigger] after.tasks[i]).status == (
                if segments.contains_key(requests[i - start].target_id) {
                    TransferStatus::Pending
                } else {
                    TransferStatus::Failed
                })
            &&& after.completed_count == batch.completed_count + unknown.len()
            &&& after.has_failure <==> batch.has_failure || unknown.len() > 0
        }),
{
    lemma_missing_count_is_filter(requests, segments);
}

proof fn lemma_missing_count_is_filter(
    requests: Seq<RequestView>,
    segments: Map<Seq<char>, SegmentView>,
)
    ensures
        missing_count(requests, segments) == requests.filter(
            |request: RequestView| !segments.contains_key(request.target_id),
        ).len(),
    decreases requests.len(),
{
    reveal(Seq::filter);
    if requests.len() > 0 {
        lemma_missing_count_is_filter(requests.drop_last(), segments);
    }
}

/// What is handed out for a submission is a transfer for each request whose
/// target is known, in their order: with the request as it is, for its own
/// task, and to the segment that is registered under its target's name.
pub proof fn law_dispatches_are_the_known_requests(
    requests: Seq<RequestView>,
    segments: Map<Seq<char>, SegmentView>,
    start: nat,
)
    ensures
        ({
            let todo = dispatches(requests, segments, start);
            let known = requests.filter(
                |request: RequestView| segments.contains_key(request.target_id),
            );
            &&& todo.len() == known.len()
            &&& forall|k: int|
                0 <= k < todo.len() ==> (#[trigger] todo[k]).request == known[k]
                    && todo[k].remote == segments[known[k].target_id] && start
                    <= todo[k].task_index < start + requests.len()
                    && requests[todo[k].task_index - start] == known[k]
        }),
    decreases requests.len(),
{
    reveal(Seq::filter);
    if requests.len() > 0 {
        let rest = requests.drop_last();
        law_dispatches_are_the_known_requests(rest, segments, start);
        let earlier = dispatches(rest, segments, start);
        let todo = dispatches(requests, segments, start);
        assert forall|k: int| 0 <= k < earlier.len() implies #[trigger] todo[k] == earlier[k]
            && requests[todo[k].task_index - start] == rest[earlier[k].task_index - start] by {}
    }
}

/// A new batch is empty and has the next id, and the id after it is one more.
/// A new state of a batch is that of its id alone. Nothing else that the engine
/// says changes.
pub proof fn law_engine_changes_one_batch(
    engine: EngineView,
    id: usize,
    batch: BatchView,
    other: usize,
    local_name: Seq<char>,
)
    ensures
        ({
            let opened = engine.with_new_batch();
            &&& opened.batches.contains_key(engine.next_batch_id)
            &&& opened.batches[engine.next_batch_id].tasks.len() == 0
            &&& opened.batches[engine.next_batch_id].completed_count == 0
            &&& !opened.batches[engine.next_batch_id].has_failure
            &&& engine.next_batch_id < usize::MAX ==> opened.next_batch_id == engine.next_batch_id
                + 1
            &&& engine.next_batch_id == usize::MAX ==> opened.next_batch_id == 0
            &&& other != engine.next_batch_id ==> (opened.batches.contains_key(other)
                <==> engine.batches.contains_key(other)) && opened.batches[other]
                == engine.batches[other]
            &&& opened.local_name == engine.local_name
            &&& opened.local_desc == engine.local_desc
        }),
        ({
            let updated = engine.with_batch(id, batch);
            &&& updated.batches.contains_key(id)
            &&& updated.batches[id] == batch
            &&& other != id ==> (updated.batches.contains_key(other)
                <==> engine.batches.contains_key(other)) && updated.batches[other]
                == engine.batches[other]
            &&& updated.next_batch_id == engine.next_batch_id
            &&& updated.local_name == engine.local_name
            &&& updated.local_desc == engine.local_desc
        }),
        engine.task_is_pending(id, other as nat) <==> engine.batches.contains_key(id) && other
            < engine.batches[id].tasks.len() && engine.batches[id].tasks[other as int].status
            == TransferStatus::Pending,
        EngineView::empty(local_name).local_name == local_name,
        EngineView::empty(local_name).local_desc is None,
        EngineView::empty(local_name).batches == Map::<usize, BatchView>::empty(),
        EngineView::empty(local_name).next_batch_id == 0,
{
}

/// Waiting for a batch tells how it ended, whatever the time. A batch that has
/// not ended is waited for until the deadline, and from then on it counts as
/// failed.
pub proof fn law_waiting_ends_with_the_batch_or_at_the_deadline(
    status: TransferStatus,
    now: u128,
    deadline: u128,
    step: WaitStep,
)
    requires
        call_ensures(wait_step, (status, now, deadline), step),
    ensures
        ({
            let ended = status == TransferStatus::Completed || status == TransferStatus::Failed;
            &&& ended ==> step == WaitStep::Done(status)
            &&& step == WaitStep::Pause <==> !ended && now < deadline
            &&& !ended && now >= deadline ==> step == WaitStep::Done(TransferStatus::Failed)
        }),
        WAIT_PAUSE_MILLIS == 10,
{
}

} // verus!
