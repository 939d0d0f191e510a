//! The serve loop as a state machine: what to do next on one connection,
//! given what the transport and the handler did last.
//!
//! The machine makes every decision of the loop; whoever drives it only
//! carries out the action it is given and reports back with the event that
//! the action ended in.

use vstd::prelude::*;
use crate::error::ProtocolError;
use crate::request::{content_length_of, parts_of, BodyModel, PartsModel, Request};
use crate::response::{head_bytes, response_head};
use crate::wire::{step, HeadModel, ReceivedHead, Step, StepModel, WireParser};

verus! {

/// The size of the buffer through which the response body is sent.
pub const TRANSMIT_BUFFER_SIZE: usize = 1024;

/// What the driver reports to the machine.
#[derive(Debug)]
pub enum Event<'a> {
    /// A read delivered these bytes; none means that the transport is
    /// closed.
    Received(&'a [u8]),
    /// The request was dispatched, and what answered it gave this status.
    Responded(u16),
    /// The bytes handed out last were written in full.
    Written,
    /// The response body put this many bytes into the transmit buffer;
    /// zero means that it has ended.
    Pulled(usize),
}

/// What the machine asks the driver to do next.
#[derive(Debug, PartialEq, Eq)]
pub enum Action {
    /// Read at most `max` bytes from the transport; report `Received`.
    Read { max: usize },
    /// Take the request, let the routes select what answers it, run that;
    /// report `Responded`.
    Dispatch,
    /// Write the head of the response; report `Written`.
    WriteHead(Vec<u8>),
    /// Pull at most `max` bytes of the response body into the transmit
    /// buffer; report `Pulled`.
    PullBody { max: usize },
    /// Write the first `len` bytes of the transmit buffer; report `Written`.
    WriteChunk { len: usize },
    /// Stop: the connection has been served, or has failed.
    Finish(Result<(), ProtocolError>),
}

/// The content of an `Action`.
pub enum ActionModel {
    Read { max: nat },
    Dispatch,
    WriteHead(Seq<u8>),
    PullBody { max: nat },
    WriteChunk { len: nat },
    /// Stop without an error.
    Finish,
    /// Stop because the head parser refused the bytes.
    FailMalformed,
    /// Stop for any other fault.
    Fail(ProtocolError),
}

impl View for Action {
    type V = ActionModel;

    open spec fn view(&self) -> ActionModel {
        match self {
            Action::Read { max } => ActionModel::Read { max: *max as nat },
            Action::Dispatch => ActionModel::Dispatch,
            Action::WriteHead(bytes) => ActionModel::WriteHead(bytes@),
            Action::PullBody { max } => ActionModel::PullBody { max: *max as nat },
            Action::WriteChunk { len } => ActionModel::WriteChunk { len: *len as nat },
            Action::Finish(Ok(_)) => ActionModel::Finish,
            Action::Finish(Err(ProtocolError::Parser(_))) => ActionModel::FailMalformed,
            Action::Finish(Err(e)) => ActionModel::Fail(*e),
        }
    }
}

/// Where the handling of a connection stands.
pub enum StageModel {
    /// Reading until the head is complete.
    AwaitingHead { received: Seq<u8>, capacity: nat, max_headers: nat },
    /// The head is complete and stands for a request; the request is being
    /// answered.
    Dispatch { received: Seq<u8>, head: HeadModel },
    /// The head of the response is being written.
    RespondHead,
    /// The response body is being pulled.
    RespondBody,
    /// A chunk of the response body is being written.
    WriteBody,
    /// Nothing is left to do.
    Done,
}

/// The event is one that the stage waits for.
pub open spec fn expects(stage: StageModel, event: Event<'_>) -> bool {
    match (stage, event) {
        (StageModel::AwaitingHead { received, capacity, .. }, Event::Received(chunk)) => received.len()
            + chunk@.len() <= capacity,
        (StageModel::Dispatch { .. }, Event::Responded(_)) => true,
        (StageModel::RespondHead, Event::Written) => true,
        (StageModel::RespondBody, Event::Pulled(len)) => len <= TRANSMIT_BUFFER_SIZE,
        (StageModel::WriteBody, Event::Written) => true,
        _ => false,
    }
}

/// The stage that follows `stage` on `event`, and the action to take.
pub open spec fn transition(stage: StageModel, event: Event<'_>) -> (StageModel, ActionModel) {
    match (stage, event) {
        (
            StageModel::AwaitingHead { received, capacity, max_headers },
            Event::Received(chunk),
        ) => match step(received, capacity, max_headers, chunk@) {
            StepModel::Closed => (StageModel::Done, ActionModel::Finish),
            StepModel::Partial(bytes) => (
                StageModel::AwaitingHead { received: bytes, capacity, max_headers },
                ActionModel::Read { max: (capacity - bytes.len()) as nat },
            ),
            StepModel::Complete(bytes, head) => match parts_of(head) {
                Ok(_) => (StageModel::Dispatch { received: bytes, head }, ActionModel::Dispatch),
                Err(e) => (StageModel::Done, ActionModel::Fail(e)),
            },
            StepModel::Malformed => (StageModel::Done, ActionModel::FailMalformed),
            StepModel::Failed(e) => (StageModel::Done, ActionModel::Fail(e)),
        },
        (StageModel::Dispatch { .. }, Event::Responded(status)) => (
            StageModel::RespondHead,
            ActionModel::WriteHead(head_bytes(status)),
        ),
        (StageModel::RespondHead, Event::Written) => (
            StageModel::RespondBody,
            ActionModel::PullBody { max: TRANSMIT_BUFFER_SIZE as nat },
        ),
        (StageModel::RespondBody, Event::Pulled(len)) => if len == 0 {
            (StageModel::Done, ActionModel::Finish)
        } else {
            (StageModel::WriteBody, ActionModel::WriteChunk { len: len as nat })
        },
        (StageModel::WriteBody, Event::Written) => (
            StageModel::RespondBody,
            ActionModel::PullBody { max: TRANSMIT_BUFFER_SIZE as nat },
        ),
        _ => (StageModel::Done, ActionModel::Finish),
    }
}

enum Stage {
    AwaitingHead(WireParser),
    Dispatch(ReceivedHead),
    RespondHead,
    RespondBody,
    WriteBody,
    Done,
}

/// The handling of one connection: one request, one response.
pub struct Connection {
    stage: Stage,
}

impl Connection {
    #[verifier::type_invariant]
    spec fn inv(&self) -> bool {
        match self.stage {
            Stage::AwaitingHead(parser) => parser.received().len() <= parser.capacity(),
            Stage::Dispatch(head) => parts_of(head@) is Ok,
            _ => true,
        }
    }

    /// Where the handling stands.
    pub closed spec fn stage(&self) -> StageModel {
        match self.stage {
            Stage::AwaitingHead(parser) => StageModel::AwaitingHead {
                received: parser.received(),
                capacity: parser.capacity(),
                max_headers: parser.max_headers(),
            },
            Stage::Dispatch(head) => StageModel::Dispatch { received: head.received(), head: head@ },
            Stage::RespondHead => StageModel::RespondHead,
            Stage::RespondBody => StageModel::RespondBody,
            Stage::WriteBody => StageModel::WriteBody,
            Stage::Done => StageModel::Done,
        }
    }

    /// Starts on a connection with the given parser: the first action is a
    /// read into the room that the parser's buffer has.
    pub fn open(parser: WireParser) -> (r: (Connection, Action))
        ensures
            r.0.stage() == (StageModel::AwaitingHead {
                received: parser.received(),
                capacity: parser.capacity(),
                max_headers: parser.max_headers(),
            }),
            r.1@ == (ActionModel::Read {
                max: (parser.capacity() - parser.received().len()) as nat,
            }),
    {
        let max = parser.room();
        (Connection { stage: Stage::AwaitingHead(parser) }, Action::Read { max })
    }

    /// Whether `event` is one that the machine waits for.
    pub fn accepts(&self, event: &Event<'_>) -> (r: bool)
        ensures
            r == expects(self.stage(), *event),
    {
        match (&self.stage, event) {
            (Stage::AwaitingHead(parser), Event::Received(chunk)) => chunk.len() <= parser.room(),
            (Stage::Dispatch(_), Event::Responded(_)) => true,
            (Stage::RespondHead, Event::Written) => true,
            (Stage::RespondBody, Event::Pulled(len)) => *len <= TRANSMIT_BUFFER_SIZE,
            (Stage::WriteBody, Event::Written) => true,
            _ => false,
        }
    }

    /// Whether nothing is left to do.
    pub fn is_done(&self) -> (r: bool)
        ensures
            r == (self.stage() is Done),
    {
        match &self.stage {
            Stage::Done => true,
            _ => false,
        }
    }

    /// The request that is being answered, while it is.
    pub fn request(&self) -> (r: Option<Request<'_>>)
        ensures
            match r {
                Some(request) => self.stage() matches StageModel::Dispatch { received, head }
                    && parts_of(head) == Ok::<PartsModel, ProtocolError>(request.parts@)
                    && request.body@ == (BodyModel {
                    content_length: content_length_of(head.headers) as nat,
                    yielded: 0,
                    buffered: received.skip(head.body_start as int),
                }),
                None => !(self.stage() is Dispatch),
            },
    {
        proof {
            use_type_invariant(self);
        }
        match &self.stage {
            Stage::Dispatch(head) => match Request::assemble(head) {
                Ok(request) => Some(request),
                Err(_) => vstd::pervasive::unreached(),
            },
            _ => None,
        }
    }

    /// Takes the event that the last action ended in and says what to do
    /// next.
    pub fn step(self, event: Event<'_>) -> (r: (Connection, Action))
        requires
            expects(self.stage(), event),
        ensures
            r.0.stage() == transition(self.stage(), event).0,
            r.1@ == transition(self.stage(), event).1,
    {
        proof {
            use_type_invariant(&self);
        }
        match (self.stage, event) {
            (Stage::AwaitingHead(parser), Event::Received(chunk)) => match parser.feed(chunk) {
                Step::Closed => (Connection { stage: Stage::Done }, Action::Finish(Ok(()))),
                Step::Partial(parser) => {
                    let max = parser.room();
                    (Connection { stage: Stage::AwaitingHead(parser) }, Action::Read { max })
                },
                Step::Complete(head) => {
                    let fault = match Request::assemble(&head) {
                        Ok(_) => None,
                        Err(e) => Some(e),
                    };
                    match fault {
                        None => (Connection { stage: Stage::Dispatch(head) }, Action::Dispatch),
                        Some(e) => (Connection { stage: Stage::Done }, Action::Finish(Err(e))),
                    }
                },
                Step::Failed(e) => (Connection { stage: Stage::Done }, Action::Finish(Err(e))),
            },
            (Stage::Dispatch(_), Event::Responded(status)) => (
                Connection { stage: Stage::RespondHead },
                Action::WriteHead(response_head(status)),
            ),
            (Stage::RespondHead, Event::Written) => (
                Connection { stage: Stage::RespondBody },
                Action::PullBody { max: TRANSMIT_BUFFER_SIZE },
            ),
            (Stage::RespondBody, Event::Pulled(len)) => if len == 0 {
                (Connection { stage: Stage::Done }, Action::Finish(Ok(())))
            } else {
                (Connection { stage: Stage::WriteBody }, Action::WriteChunk { len })
            },
            (Stage::WriteBody, Event::Written) => (
                Connection { stage: Stage::RespondBody },
                Action::PullBody { max: TRANSMIT_BUFFER_SIZE },
            ),
            _ => (Connection { stage: Stage::Done }, Action::Finish(Ok(()))),
        }
    }
}

/// A fault ends the handling before anything is written: the machine fails
/// only while it awaits the head, and is done when it does.
pub proof fn lemma_faults_before_response(stage: StageModel, event: Event<'_>)
    requires
        expects(stage, event),
        transition(stage, event).1 is Fail || transition(stage, event).1 is FailMalformed,
    ensures
        stage is AwaitingHead,
        transition(stage, event).0 is Done,
{
}

/// The response head is written once, right after the dispatch, and the
/// body only after it: a chunk is written only while the body is pulled,
/// which starts when the head has been written.
pub proof fn lemma_response_order(stage: StageModel, event: Event<'_>)
    requires
        expects(stage, event),
    ensures
        transition(stage, event).1 is WriteHead <==> stage is Dispatch,
        transition(stage, event).1 is WriteChunk ==> stage is RespondBody,
        transition(stage, event).0 is RespondBody ==> stage is RespondHead || stage is WriteBody,
        transition(stage, event).1 is Dispatch ==> stage is AwaitingHead,
{
}

} // verus!
