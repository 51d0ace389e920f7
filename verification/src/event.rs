//! Backend-neutral input events and the message-carrying callbacks that turn
//! them into application messages.

use vstd::prelude::*;

verus! {

/// An input event, already converted from its native form by the backend's
/// event loop before it reaches the core.
#[derive(Clone, Debug, PartialEq)]
pub enum Event {
    /// A pointer click; carries no payload.
    Mouse,
    /// A text-input change; carries the field's current text.
    Input(String),
}

/// Implemented by the embedding application for its message type: how the
/// payload of a text-input event becomes a message.
pub trait InputMessage: Sized {
    fn from_input(value: String) -> Self;
}

/// An event handler attached to a node.  It carries only message values,
/// never a capture of application state: the dispatch loop owns the state and
/// is the only place that mutates it.
#[derive(Clone, Debug, PartialEq)]
pub enum Callback<MSG> {
    /// Emit this message for any event; the payload is ignored.
    Msg(MSG),
    /// Emit the message that [`InputMessage::from_input`] builds from the
    /// text of an input event.
    FromInput,
}

/// Invoke a callback on an event, producing the message to feed to the
/// dispatch loop.  Returns `None` exactly when an input-mapping callback
/// meets an event with no text payload: a kind mismatch is reported, never
/// silently repaired.
pub fn emit<MSG: Clone + InputMessage>(cb: &Callback<MSG>, ev: &Event) -> (r: Option<MSG>)
    ensures
        r is None <==> ((*cb) is FromInput && (*ev) is Mouse),
        (*cb matches Callback::Msg(m) ==> r matches Some(x) && cloned(m, x)),
{
    match cb {
        Callback::Msg(m) => Some(m.clone()),
        Callback::FromInput => match ev {
            Event::Input(value) => Some(MSG::from_input(value.clone())),
            Event::Mouse => None,
        },
    }
}

} // verus!
