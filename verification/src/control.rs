//! The control socket: how a connection goes.
//!
//! A connection starts as a dialogue of requests and answers. Once it has
//! subscribed it only carries events.

use vstd::prelude::*;

use crate::protocol::{Ack, Cmd, Event, Frame, Payload, Request, Response};
use crate::text::concat2;

verus! {

/// What to do about the path of the socket when the daemon starts.
#[derive(Clone, Copy, Debug, PartialEq, Eq, Structural)]
pub enum SocketPlan {
    /// Nothing is in the way.
    Bind,
    /// What is there is dead: take it away first.
    Replace,
    /// Another daemon answers there.
    Refuse,
}

/// What to do about the path of the socket: whether something is there, and
/// whether it answers.
pub fn socket_plan(taken: bool, alive: bool) -> (r: SocketPlan)
    ensures
        r == if !taken {
            SocketPlan::Bind
        } else if alive {
            SocketPlan::Refuse
        } else {
            SocketPlan::Replace
        },
{
    if !taken {
        SocketPlan::Bind
    } else if alive {
        SocketPlan::Refuse
    } else {
        SocketPlan::Replace
    }
}

/// A connection.
pub struct Connection {
    subscribed: bool,
}

impl View for Connection {
    type V = bool;

    /// Whether the connection has subscribed.
    closed spec fn view(&self) -> bool {
        self.subscribed
    }
}

/// What follows from a line of the client.
#[derive(Debug, PartialEq, Eq)]
pub enum LineStep {
    /// Confirm with this answer, then send the state, then events.
    Subscribe(Response),
    /// Handle the command and answer under this number. `shutdown` tells
    /// whether the daemon ends once the answer is out.
    Handle { id: u64, cmd: Cmd, shutdown: bool },
    /// The line is no request: answer so and read on.
    Answer(Response),
    /// Events are on their way; the line is not read.
    Ignore,
}

/// The answer to a line that is no request. It has no number of its own.
pub open spec fn garbled(err: Seq<char>) -> Seq<char> {
    "неразобранный кадр: "@ + err
}

/// What follows from a line, as it was understood.
pub open spec fn line_step(
    subscribed: bool,
    request: Result<Request, String>,
    step: LineStep,
) -> bool {
    if subscribed {
        step is Ignore
    } else {
        match request {
            Ok(request) => if request.cmd is Subscribe {
                step matches LineStep::Subscribe(Response::Answer { id, ok }) && id == request.id
                    && (ok matches Payload::Ack(ack) && ack.done)
            } else {
                step == (LineStep::Handle {
                    id: request.id,
                    cmd: request.cmd,
                    shutdown: request.cmd is Shutdown,
                })
            },
            Err(err) => step matches LineStep::Answer(Response::Failure { id, err: text }) && id
                == 0 && text@ == garbled(err@),
        }
    }
}

/// What came over the bus of events.
#[derive(Debug, PartialEq, Eq)]
pub enum BusItem {
    Event(Event),
    /// Some events were lost.
    Lagged,
    Closed,
}

/// What follows from it for a connection that has subscribed.
#[derive(Debug, PartialEq, Eq)]
pub enum BusStep {
    Send(Frame),
    /// Send the whole state: it makes up for what was lost.
    SendState,
    End,
    /// The connection has not subscribed.
    Ignore,
}

impl Connection {
    pub fn new() -> (r: Self)
        ensures
            !r@,
    {
        Connection { subscribed: false }
    }

    /// Takes a line, as it was understood. Whether the daemon ends goes by
    /// the command, not by its answer: the same answer follows many
    /// commands.
    pub fn line(&mut self, request: Result<Request, String>) -> (r: LineStep)
        ensures
            line_step(old(self)@, request, r),
            final(self)@ == (old(self)@ || r is Subscribe),
    {
        if self.subscribed {
            return LineStep::Ignore;
        }
        match request {
            Ok(request) => {
                let Request { id, cmd } = request;
                if matches!(cmd, Cmd::Subscribe) {
                    self.subscribed = true;
                    return LineStep::Subscribe(
                        Response::Answer { id, ok: Payload::Ack(Ack::default()) },
                    );
                }
                let shutdown: bool = matches!(cmd, Cmd::Shutdown);
                LineStep::Handle { id, cmd, shutdown }
            },
            Err(err) => LineStep::Answer(
                Response::Failure {
                    id: 0,
                    err: concat2("неразобранный кадр: ", err.as_str()),
                },
            ),
        }
    }

    /// Takes what came over the bus.
    pub fn bus(&self, item: BusItem) -> (r: BusStep)
        ensures
            r == if !self@ {
                BusStep::Ignore
            } else {
                match item {
                    BusItem::Event(event) => BusStep::Send(Frame::Event(event)),
                    BusItem::Lagged => BusStep::SendState,
                    BusItem::Closed => BusStep::End,
                }
            },
    {
        if !self.subscribed {
            return BusStep::Ignore;
        }
        match item {
            BusItem::Event(event) => BusStep::Send(Frame::Event(event)),
            BusItem::Lagged => BusStep::SendState,
            BusItem::Closed => BusStep::End,
        }
    }
}

/// The answer to a command, and whether the daemon ends then: only after a
/// command to do so that was not refused.
pub fn answer(id: u64, outcome: Result<Payload, String>, shutdown: bool) -> (r: (Response, bool))
    ensures
        r.1 == (shutdown && outcome is Ok),
        match outcome {
            Ok(ok) => r.0 == (Response::Answer { id, ok }),
            Err(err) => r.0 == (Response::Failure { id, err }),
        },
{
    match outcome {
        Ok(ok) => (Response::Answer { id, ok }, shutdown),
        Err(err) => (Response::Failure { id, err }, false),
    }
}

/// An answer carries the number of its request, and only a command to shut
/// down can end the daemon.
pub proof fn lemma_only_shutdown_ends_the_daemon(
    subscribed: bool,
    request: Request,
    step: LineStep,
)
    requires
        line_step(subscribed, Ok(request), step),
    ensures
        step matches LineStep::Handle { id, shutdown, .. } ==> id == request.id && (shutdown
            <==> request.cmd is Shutdown),
        subscribed ==> step is Ignore,
{
}

/// Every line of the dialogue is answered by what it asks: a subscription
/// is confirmed under its number, a command is handled under its own, and a
/// line that is no request is answered with what is wrong with it, without
/// a number, and the dialogue goes on.
pub proof fn lemma_every_line_is_answered(
    request: Request,
    err: String,
    step: LineStep,
    other: LineStep,
)
    requires
        line_step(false, Ok(request), step),
        line_step(false, Err(err), other),
    ensures
        request.cmd is Subscribe ==> (step matches LineStep::Subscribe(Response::Answer { id, ok })
            && id == request.id && (ok matches Payload::Ack(ack) && ack.done)),
        !(request.cmd is Subscribe) ==> (step matches LineStep::Handle { id, cmd, .. } && id
            == request.id && cmd == request.cmd),
        other matches LineStep::Answer(Response::Failure { id, err: text }) && id == 0 && text@
            == "неразобранный кадр: "@ + err@,
{
}

} // verus!
