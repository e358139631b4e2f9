//! Reply correlation for forwarded method calls.
//!
//! A method call is forwarded to a bus under a fresh serial, and the pair
//! (bus, fresh serial) is recorded against the client and the serial it
//! used. A reply names the fresh serial; looking it up gives back the
//! client and the serial to answer under.

use vstd::prelude::*;

use std::sync::Arc;

use zbus::message::Message;

use crate::error::MessageError;
use crate::routing::Route;
use crate::serial_map::{ClientId, PendingCall, SerialKey, SerialMap};

verus! {

/// Where the reply that refers to `reply_serial` on bus `route` goes, as
/// the pending calls `m` record it.
pub open spec fn spec_correlate(m: Map<SerialKey, PendingCall>, route: Route, reply_serial: u32) -> Option<(ClientId, u32)> {
    match m.get(SerialKey { route, serial: reply_serial }) {
        Some(p) => Some((p.client_id, p.client_serial)),
        None => None,
    }
}

/// Handle a reply from the bus `route` that refers to `reply_serial`: the
/// pending call it answers is removed, and its client and original serial
/// are returned (`None` when no call is pending under that serial). A reply
/// without a reply serial is `NoReplySerial` and changes nothing.
pub fn correlate_reply(serial_map: &mut SerialMap, route: Route, reply_serial: Option<u32>) -> (r: Result<Option<(ClientId, u32)>, MessageError>)
    requires
        old(serial_map).wf(),
    ensures
        final(serial_map).wf(),
        final(serial_map).timeout() == old(serial_map).timeout(),
        match reply_serial {
            Some(s) => r == Ok::<Option<(ClientId, u32)>, MessageError>(spec_correlate(old(serial_map)@, route, s))
                && final(serial_map)@ == old(serial_map)@.remove(SerialKey { route, serial: s }),
            None => (r matches Err(e) && e is NoReplySerial) && final(serial_map)@ == old(serial_map)@,
        },
{
    let s = match reply_serial {
        Some(s) => s,
        None => return Err(MessageError::NoReplySerial),
    };
    match serial_map.remove(route, s) {
        Some(p) => Ok(Some((p.client_id, p.client_serial))),
        None => Ok(None),
    }
}

/// Recording a forwarded call and then correlating the reply that refers
/// to it gives back the client and its serial, and leaves the other
/// pending calls as they were.
pub proof fn lemma_forward_then_reply(m: Map<SerialKey, PendingCall>, route: Route, forwarded: u32, call: PendingCall)
    ensures
        spec_correlate(m.insert(SerialKey { route, serial: forwarded }, call), route, forwarded)
            == Some((call.client_id, call.client_serial)),
        m.insert(SerialKey { route, serial: forwarded }, call).remove(SerialKey { route, serial: forwarded })
            == m.remove(SerialKey { route, serial: forwarded }),
{
    assert(m.insert(SerialKey { route, serial: forwarded }, call).remove(SerialKey { route, serial: forwarded })
        =~= m.remove(SerialKey { route, serial: forwarded }));
}

/// Replies on one bus never take the calls pending on the other: the same
/// serial on another bus correlates independently.
pub proof fn lemma_routes_independent(m: Map<SerialKey, PendingCall>, serial: u32, call: PendingCall)
    ensures
        spec_correlate(m.insert(SerialKey { route: Route::Host, serial }, call), Route::Container, serial)
            == spec_correlate(m, Route::Container, serial),
        spec_correlate(m.insert(SerialKey { route: Route::Container, serial }, call), Route::Host, serial)
            == spec_correlate(m, Route::Host, serial),
{
}

/// Information about a message and where it should go.
#[derive(Debug)]
pub struct RoutedMessage {
    /// The message to send.
    pub message: Arc<Message>,
    /// Where to send it.
    pub route: Route,
    /// The client that sent this message (for reply correlation).
    pub client_id: ClientId,
    /// The original serial number from the client.
    pub client_serial: u32,
}

impl RoutedMessage {
    /// Create a new routed message.
    pub fn new(message: Arc<Message>, route: Route, client_id: ClientId, client_serial: u32) -> (r: Self)
        ensures
            r.message == message,
            r.route == route,
            r.client_id == client_id,
            r.client_serial == client_serial,
    {
        RoutedMessage { message, route, client_id, client_serial }
    }
}

} // verus!
