//! Interpretation of compositor replies. The transport itself is an opaque
//! per-request channel owned by the surrounding binary; it reduces each
//! reply to one of the shapes below, and the decisions on those shapes are
//! made here.

use vstd::prelude::*;
use crate::SessionError;
use crate::snapshot::LiveWindow;

verus! {

/// The shape of a reply to a window-list request.
pub enum WindowsReply {
    /// The expected reply: the current window list.
    WindowList(Vec<LiveWindow>),
    /// The channel answered with an error payload.
    ErrorPayload,
    /// The channel answered with some other, unexpected shape.
    UnexpectedShape,
}

/// The shape of a reply to an action request (spawn or move).
#[derive(Clone, Copy, Debug, PartialEq, Eq, Structural)]
pub enum AckReply {
    /// The action was acknowledged as handled.
    Handled,
    /// The channel answered with an error payload.
    ErrorPayload,
    /// The channel answered with some other, unexpected shape.
    UnexpectedShape,
}

/// Turn a window-list reply into the window list, or the error the reply
/// shape dictates: an error payload is a transport failure, any other
/// unexpected shape a protocol failure.
pub fn interpret_windows_reply(r: WindowsReply) -> (res: Result<Vec<LiveWindow>, SessionError>)
    ensures
        r matches WindowsReply::WindowList(ws) ==> res matches Ok(out) && out == ws,
        r is ErrorPayload ==> res == Err::<Vec<LiveWindow>, SessionError>(SessionError::Transport),
        r is UnexpectedShape ==> res == Err::<Vec<LiveWindow>, SessionError>(
            SessionError::Protocol,
        ),
{
    match r {
        WindowsReply::WindowList(ws) => Ok(ws),
        WindowsReply::ErrorPayload => Err(SessionError::Transport),
        WindowsReply::UnexpectedShape => Err(SessionError::Protocol),
    }
}

/// Whether an action reply counts as acknowledged. Only a handled reply
/// does; an error payload or any unexpected shape does not.
pub fn ack_ok(r: &AckReply) -> (b: bool)
    ensures
        b == (*r is Handled),
{
    match r {
        AckReply::Handled => true,
        AckReply::ErrorPayload => false,
        AckReply::UnexpectedShape => false,
    }
}

} // verus!
