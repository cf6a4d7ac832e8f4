//! The node that holds a segment and serves the requests of others.
//!
//! A connection is a sequence of steps. The caller performs an action and
//! hands back what came of it; a [`Session`] takes that event and answers
//! with the next action.

use vstd::prelude::*;

use crate::error::{IoError, IoErrorKind, TransferError};
use crate::memory;
use crate::wire;
use crate::wire::{OpCode, HEADER_LEN};

verus! {

/// How long a server pauses when no connection is waiting, in milliseconds.
pub const ACCEPT_PAUSE_MILLIS: u64 = 10;

/// What a server does once it has asked for a connection.
#[derive(Debug, Clone, Copy, PartialEq, Eq, Structural)]
pub enum AcceptAction {
    /// Serve the connection, and ask for the next.
    Serve,
    /// Pause for [`ACCEPT_PAUSE_MILLIS`], and ask again.
    Pause,
    /// Ask for no more connections.
    Stop,
}

/// What a server does once it has asked for a connection: `failure` is why
/// it got none.
pub fn after_accept(failure: Option<IoErrorKind>) -> (action: AcceptAction)
    ensures
        action == match failure {
            None => AcceptAction::Serve,
            Some(IoErrorKind::WouldBlock) => AcceptAction::Pause,
            Some(_) => AcceptAction::Stop,
        },
{
    match failure {
        None => AcceptAction::Serve,
        Some(IoErrorKind::WouldBlock) => AcceptAction::Pause,
        Some(_) => AcceptAction::Stop,
    }
}

/// What a connection is waiting for.
#[derive(Debug, Clone, Copy, PartialEq, Eq, Structural)]
pub enum SessionState {
    /// The header of the next request.
    Header,
    /// The data of a write.
    Payload { offset: usize, length: usize },
    /// That the answer has gone out.
    Reply,
    /// Nothing: the connection has ended.
    Finished,
}

/// What came of an action.
#[derive(Debug)]
pub enum SessionEvent {
    /// The header of a request has come.
    Header([u8; HEADER_LEN]),
    /// The data of a write has come.
    Payload(Vec<u8>),
    /// The answer has gone out.
    Sent,
    /// The stream failed.
    Failed(IoError),
}

/// What a [`SessionEvent`] says.
pub enum EventView {
    Header(Seq<u8>),
    Payload(Seq<u8>),
    Sent,
    Failed(IoError),
}

impl View for SessionEvent {
    type V = EventView;

    open spec fn view(&self) -> EventView {
        match *self {
            SessionEvent::Header(header) => EventView::Header(header@),
            SessionEvent::Payload(data) => EventView::Payload(data@),
            SessionEvent::Sent => EventView::Sent,
            SessionEvent::Failed(err) => EventView::Failed(err),
        }
    }
}

/// What to do next.
#[derive(Debug, PartialEq, Eq)]
pub enum SessionAction {
    /// Receive the header of a request.
    ReceiveHeader,
    /// Receive this many bytes of data.
    ReceivePayload(usize),
    /// Send these bytes.
    Send(Vec<u8>),
    /// End the connection.
    Finish(Result<(), TransferError>),
}

/// What a [`SessionAction`] says.
#[verifier::ext_equal]
pub enum ActionView {
    ReceiveHeader,
    ReceivePayload(nat),
    Send(Seq<u8>),
    Finish(Result<(), TransferError>),
}

impl View for SessionAction {
    type V = ActionView;

    open spec fn view(&self) -> ActionView {
        match *self {
            SessionAction::ReceiveHeader => ActionView::ReceiveHeader,
            SessionAction::ReceivePayload(length) => ActionView::ReceivePayload(length as nat),
            SessionAction::Send(data) => ActionView::Send(data@),
            SessionAction::Finish(result) => ActionView::Finish(result),
        }
    }
}

/// What a step leads to: the new state, the segment's memory and the next
/// action.
#[verifier::ext_equal]
pub struct Outcome {
    pub state: SessionState,
    pub memory: Seq<u8>,
    pub action: ActionView,
}

impl Outcome {
    /// The connection ends and the memory stays as it is.
    pub open spec fn finished(memory: Seq<u8>, result: Result<(), TransferError>) -> Outcome {
        Outcome { state: SessionState::Finished, memory, action: ActionView::Finish(result) }
    }

    /// The peer is sent `data`.
    pub open spec fn replied(memory: Seq<u8>, data: Seq<u8>) -> Outcome {
        Outcome { state: SessionState::Reply, memory, action: ActionView::Send(data) }
    }
}

/// Whether a failure to receive a header means that the peer has left.
pub open spec fn peer_has_left(kind: IoErrorKind) -> bool {
    kind == IoErrorKind::UnexpectedEof || kind == IoErrorKind::ConnectionReset || kind
        == IoErrorKind::ConnectionAborted
}

impl SessionState {
    /// Whether an event can come in this state.
    pub open spec fn accepts(self, event: EventView) -> bool {
        match event {
            EventView::Header(header) => self == SessionState::Header && header.len()
                == HEADER_LEN,
            EventView::Payload(data) => self matches SessionState::Payload { offset, length }
                && data.len() == length,
            EventView::Sent => self == SessionState::Reply,
            EventView::Failed(err) => self != SessionState::Finished,
        }
    }

    /// Where an event leads to from this state, when the segment holds
    /// `memory`.
    pub open spec fn step(self, event: EventView, memory: Seq<u8>) -> Outcome {
        match event {
            EventView::Header(header) => match wire::parse_header(header) {
                Err(err) => Outcome::finished(memory, Err(err)),
                Ok((length, offset, OpCode::Write)) => Outcome {
                    state: SessionState::Payload { offset, length },
                    memory,
                    action: ActionView::ReceivePayload(length as nat),
                },
                Ok((length, offset, OpCode::Read)) => if memory::in_bounds(
                    offset as nat,
                    length as nat,
                    memory.len(),
                ) {
                    Outcome::replied(
                        memory,
                        memory::slice_of(memory, offset as nat, length as nat),
                    )
                } else {
                    Outcome::finished(
                        memory,
                        Err(
                            TransferError::OutOfBounds {
                                offset,
                                length,
                                capacity: memory.len() as usize,
                            },
                        ),
                    )
                },
            },
            EventView::Payload(data) => {
                let offset = self->offset;
                if memory::in_bounds(offset as nat, data.len(), memory.len()) {
                    Outcome::replied(
                        memory::overwrite(memory, offset as nat, data),
                        seq![wire::ACK],
                    )
                } else {
                    Outcome::finished(
                        memory,
                        Err(
                            TransferError::OutOfBounds {
                                offset,
                                length: data.len() as usize,
                                capacity: memory.len() as usize,
                            },
                        ),
                    )
                }
            },
            EventView::Sent => Outcome {
                state: SessionState::Header,
                memory,
                action: ActionView::ReceiveHeader,
            },
            EventView::Failed(err) => Outcome::finished(
                memory,
                if self == SessionState::Header && peer_has_left(err.kind) {
                    Ok(())
                } else {
                    Err(TransferError::Io(err))
                },
            ),
        }
    }
}

/// One connection of a server.
#[derive(Debug)]
pub struct Session {
    state: SessionState,
}

impl View for Session {
    type V = SessionState;

    closed spec fn view(&self) -> SessionState {
        self.state
    }
}

impl Session {
    /// A connection that was just accepted. Its first action is to receive a
    /// header.
    pub fn new() -> (session: Self)
        ensures
            session@ == SessionState::Header,
    {
        Session { state: SessionState::Header }
    }

    /// What the connection is waiting for.
    pub fn state(&self) -> (state: SessionState)
        ensures
            state == self@,
    {
        self.state
    }

    /// Takes in what came of the last action and says what to do next.
    /// `memory` is the segment that the connection serves.
    pub fn step(&mut self, event: SessionEvent, memory: &mut Vec<u8>) -> (action: SessionAction)
        requires
            old(self)@.accepts(event@),
        ensures
            (Outcome { state: final(self)@, memory: final(memory)@, action: action@ })
                == old(self)@.step(event@, old(memory)@),
    {
        let (state, action) = match event {
            SessionEvent::Header(header) => self.on_header(&header, memory),
            SessionEvent::Payload(data) => self.on_payload(data, memory),
            SessionEvent::Sent => (SessionState::Header, SessionAction::ReceiveHeader),
            SessionEvent::Failed(err) => (
                SessionState::Finished,
                SessionAction::Finish(self.on_failure(err)),
            ),
        };
        self.state = state;
        assert((Outcome { state: self@, memory: memory@, action: action@ }) =~= old(self)@.step(
            event@,
            old(memory)@,
        ));
        action
    }

    /// The step that the header of a request leads to.
    fn on_header(&self, header: &[u8; HEADER_LEN], memory: &Vec<u8>) -> (next: (
        SessionState,
        SessionAction,
    ))
        ensures
            (Outcome { state: next.0, memory: memory@, action: next.1@ }) == self@.step(
                EventView::Header(header@),
                memory@,
            ),
    {
        let next = match wire::decode_header(header) {
            Err(err) => (SessionState::Finished, SessionAction::Finish(Err(err))),
            Ok((length, offset, opcode)) => match opcode {
                OpCode::Write => (
                    SessionState::Payload { offset, length },
                    SessionAction::ReceivePayload(length),
                ),
                OpCode::Read => match memory::read_range(memory, offset, length) {
                    Ok(data) => (SessionState::Reply, SessionAction::Send(data)),
                    Err(err) => (SessionState::Finished, SessionAction::Finish(Err(err))),
                },
            },
        };
        assert((Outcome { state: next.0, memory: memory@, action: next.1@ }) =~= self@.step(
            EventView::Header(header@),
            memory@,
        ));
        next
    }

    /// The step that the data of a write leads to.
    fn on_payload(&self, data: Vec<u8>, memory: &mut Vec<u8>) -> (next: (
        SessionState,
        SessionAction,
    ))
        requires
            self@.accepts(EventView::Payload(data@)),
        ensures
            (Outcome { state: next.0, memory: final(memory)@, action: next.1@ }) == self@.step(
                EventView::Payload(data@),
                old(memory)@,
            ),
    {
        let offset: usize = match self.state {
            SessionState::Payload { offset, .. } => offset,
            _ => 0,
        };
        let next = match memory::write_range(memory, offset, data.as_slice()) {
            Ok(()) => (SessionState::Reply, SessionAction::Send(vec![wire::ACK])),
            Err(err) => (SessionState::Finished, SessionAction::Finish(Err(err))),
        };
        assert((Outcome { state: next.0, memory: memory@, action: next.1@ }) =~= self@.step(
            EventView::Payload(data@),
            old(memory)@,
        ));
        next
    }

    /// How the connection ends when the stream fails.
    fn on_failure(&self, err: IoError) -> (result: Result<(), TransferError>)
        ensures
            result == (if self@ == SessionState::Header && peer_has_left(err.kind) {
                Ok::<(), TransferError>(())
            } else {
                Err::<(), TransferError>(TransferError::Io(err))
            }),
    {
        if self.state == SessionState::Header && (err.kind == IoErrorKind::UnexpectedEof || err.kind
            == IoErrorKind::ConnectionReset || err.kind == IoErrorKind::ConnectionAborted) {
            Ok(())
        } else {
            Err(TransferError::Io(err))
        }
    }
}

impl SessionEvent {
    /// The view keeps what came.
    pub proof fn law_view_tells_all(self)
        ensures
            match self {
                SessionEvent::Header(header) => self@ == EventView::Header(header@),
                SessionEvent::Payload(data) => self@ == EventView::Payload(data@),
                SessionEvent::Sent => self@ == EventView::Sent,
                SessionEvent::Failed(err) => self@ == EventView::Failed(err),
            },
    {
    }
}

impl SessionAction {
    /// The view keeps what is to be done.
    pub proof fn law_view_tells_all(self)
        ensures
            match self {
                SessionAction::ReceiveHeader => self@ == ActionView::ReceiveHeader,
                SessionAction::ReceivePayload(length) => self@ == ActionView::ReceivePayload(
                    length as nat,
                ),
                SessionAction::Send(data) => self@ == ActionView::Send(data@),
                SessionAction::Finish(result) => self@ == ActionView::Finish(result),
            },
    {
    }
}

/// A header is taken as it reads. A write makes the connection wait for just
/// its data; a read that lies within the segment is answered at once, with
/// each byte of the range; a read that does not, and a header that says
/// nothing, end the connection with the error. No byte of the segment changes.
pub proof fn law_header_is_taken_as_it_reads(header: Seq<u8>, memory: Seq<u8>)
    requires
        header.len() == HEADER_LEN,
    ensures
        ({
            let next = SessionState::Header.step(EventView::Header(header), memory);
            &&& SessionState::Header.accepts(EventView::Header(header))
            &&& next.memory == memory
            &&& match wire::parse_header(header) {
                Err(err) => next.state == SessionState::Finished && next.action
                    == ActionView::Finish(Err(err)),
                Ok((length, offset, OpCode::Write)) => next.state == (SessionState::Payload {
                    offset,
                    length,
                }) && next.action == ActionView::ReceivePayload(length as nat),
                Ok((length, offset, OpCode::Read)) => if offset + length <= memory.len() {
                    &&& next.state == SessionState::Reply
                    &&& next.action matches ActionView::Send(data)
                    &&& data.len() == length
                    &&& forall|i: int|
                        0 <= i < length ==> #[trigger] data[i] == memory[offset + i]
                } else {
                    &&& next.state == SessionState::Finished
                    &&& next.action == ActionView::Finish(
                        Err(
                            TransferError::OutOfBounds {
                                offset,
                                length,
                                capacity: memory.len() as usize,
                            },
                        ),
                    )
                },
            }
        }),
{
}

/// The data of a write that lies within the segment is put there, each byte in
/// its place, and acknowledged with a single 1; no other byte changes. Data
/// that does not fit changes no byte and ends the connection with the error.
pub proof fn law_payload_is_stored_and_acknowledged(
    offset: usize,
    data: Seq<u8>,
    memory: Seq<u8>,
)
    requires
        data.len() <= usize::MAX,
    ensures
        ({
            let state = SessionState::Payload { offset, length: data.len() as usize };
            let next = state.step(EventView::Payload(data), memory);
            &&& state.accepts(EventView::Payload(data))
            &&& next.memory.len() == memory.len()
            &&& offset + data.len() <= memory.len() ==> {
                &&& next.state == SessionState::Reply
                &&& next.action == ActionView::Send(seq![1u8])
                &&& forall|i: int|
                    0 <= i < data.len() ==> next.memory[offset + i] == #[trigger] data[i]
                &&& forall|j: int|
                    0 <= j < memory.len() && (j < offset || j >= offset + data.len())
                        ==> #[trigger] next.memory[j] == memory[j]
            }
            &&& offset + data.len() > memory.len() ==> {
                &&& next.state == SessionState::Finished
                &&& next.memory == memory
                &&& next.action == ActionView::Finish(
                    Err(
                        TransferError::OutOfBounds {
                            offset,
                            length: data.len() as usize,
                            capacity: memory.len() as usize,
                        },
                    ),
                )
            }
        }),
{
}

/// A stream that fails ends the connection and changes no byte. Between two
/// requests, a peer that closed, reset or aborted the connection has just
/// left; any other failure, and any failure within a request, is an error.
pub proof fn law_failure_ends_the_connection(state: SessionState, err: IoError, memory: Seq<u8>)
    requires
        state != SessionState::Finished,
    ensures
        ({
            let next = state.step(EventView::Failed(err), memory);
            let left = err.kind == IoErrorKind::UnexpectedEof || err.kind
                == IoErrorKind::ConnectionReset || err.kind == IoErrorKind::ConnectionAborted;
            &&& state.accepts(EventView::Failed(err))
            &&& next.state == SessionState::Finished
            &&& next.memory == memory
            &&& state == SessionState::Header && left ==> next.action == ActionView::Finish(Ok(()))
            &&& !(state == SessionState::Header && left) ==> next.action == ActionView::Finish(
                Err(TransferError::Io(err)),
            )
        }),
{
}

/// A server goes on as long as asking for a connection does not fail: it serves
/// what it is given, and stops exactly at a failure other than that none is
/// waiting.
pub proof fn law_server_stops_only_at_a_failure(failure: Option<IoErrorKind>, action: AcceptAction)
    requires
        call_ensures(after_accept, (failure,), action),
    ensures
        action == AcceptAction::Serve <==> failure is None,
        action == AcceptAction::Pause <==> failure == Some(IoErrorKind::WouldBlock),
        action == AcceptAction::Stop <==> failure is Some && failure->0
            != IoErrorKind::WouldBlock,
        ACCEPT_PAUSE_MILLIS == 10,
{
}

} // verus!
