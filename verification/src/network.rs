//! What the network side hands to the authority: the registration of an
//! accepted connection, and the decisions of a connection's reader. The
//! reader itself reads lines from its stream and decodes them; what it then
//! does with each outcome is decided here.

use std::sync::mpsc::Sender;
use vstd::prelude::*;

use crate::messages::ClientMessage;
use crate::messages::InternalMessage;
use crate::messages::InternalMessageView;

verus! {

/// An accepted connection: the id of its player and the sending end of its
/// outbound channel.
pub struct PlayerConnection {
    pub player_id: String,
    pub sender: Sender<Vec<u8>>,
}

impl PlayerConnection {
    /// The event that registers this connection with the authority.
    pub fn registration(self) -> (event: InternalMessage)
        ensures
            event@ == (InternalMessageView::NewConnection { player_id: self.player_id@ }),
    {
        InternalMessage::NewConnection { player_id: self.player_id, sender: self.sender }
    }
}

/// What one read on a connection's stream brought.
#[derive(Clone, Copy, Debug)]
pub enum ReadOutcome {
    /// A line that decodes to a message.
    Message(ClientMessage),
    /// A line that does not decode.
    Malformed,
    /// The end of the stream.
    Closed,
    /// A failure of the stream.
    Failed,
}

/// What the reader does after one read.
pub enum ReaderStep {
    /// It passes the event on to the authority and reads on.
    Forward(InternalMessage),
    /// It drops the line and reads on; the connection stays alive.
    Skip,
    /// It passes this last event on to the authority and stops.
    Finish(InternalMessage),
}

/// The step that `outcome` asks for on the connection `id`: a message is
/// passed on as it is, a line that does not decode is dropped, and the end
/// or a failure of the stream is reported to the authority as a
/// `Disconnect` of this player, after which the reader stops.
pub open spec fn step_for(id: Seq<char>, outcome: ReadOutcome) -> (bool, Option<InternalMessageView>) {
    match outcome {
        ReadOutcome::Message(message) => (
            true,
            Some(InternalMessageView::ClientMessage { player_id: id, message }),
        ),
        ReadOutcome::Malformed => (true, None),
        ReadOutcome::Closed => (
            false,
            Some(
                InternalMessageView::ClientMessage {
                    player_id: id,
                    message: ClientMessage::Disconnect,
                },
            ),
        ),
        ReadOutcome::Failed => (
            false,
            Some(
                InternalMessageView::ClientMessage {
                    player_id: id,
                    message: ClientMessage::Disconnect,
                },
            ),
        ),
    }
}

impl ReaderStep {
    /// Whether the reader reads on after this step.
    pub open spec fn reads_on(&self) -> bool {
        !(self is Finish)
    }

    /// The event that this step passes on, if any.
    pub open spec fn event(&self) -> Option<InternalMessageView> {
        match self {
            ReaderStep::Forward(event) => Some(event@),
            ReaderStep::Skip => None,
            ReaderStep::Finish(event) => Some(event@),
        }
    }
}

/// Decides what the reader of connection `player_id` does after one read.
pub fn reader_step(player_id: &str, outcome: ReadOutcome) -> (step: ReaderStep)
    ensures
        (step.reads_on(), step.event()) == step_for(player_id@, outcome),
{
    match outcome {
        ReadOutcome::Message(message) => ReaderStep::Forward(
            InternalMessage::ClientMessage { player_id: player_id.to_owned(), message },
        ),
        ReadOutcome::Malformed => ReaderStep::Skip,
        ReadOutcome::Closed => ReaderStep::Finish(
            InternalMessage::ClientMessage {
                player_id: player_id.to_owned(),
                message: ClientMessage::Disconnect,
            },
        ),
        ReadOutcome::Failed => ReaderStep::Finish(
            InternalMessage::ClientMessage {
                player_id: player_id.to_owned(),
                message: ClientMessage::Disconnect,
            },
        ),
    }
}

} // verus!
