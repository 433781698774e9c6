use vstd::prelude::*;
use vstd::utf8::{decode_utf8, valid_utf8};

verus! {

/// Topic filter that matches every topic.
pub const WILDCARD_TOPIC: &'static str = "#";

/// An event of a live connection's event loop, as far as routing needs it.
#[derive(Debug, Clone)]
pub enum InboundEvent {
    /// A message published on `topic`.
    Publish { topic: String, payload: Vec<u8> },
    /// The broker acknowledged the connection.
    ConnAck,
    /// Any other event.
    Other,
}

/// Where an event goes.
#[derive(Debug, Clone)]
pub enum Route {
    /// A command on the control topic, for the command handler.
    Command(String),
    /// A value to insert into the retention store.
    Store { topic: String, payload: String },
    /// Subscribe to `WILDCARD_TOPIC` at "at-most-once" quality.
    SubscribeAll,
    /// Log and discard.
    Ignore,
}

/// Text of a payload: its UTF-8 decoding, or empty where it is not valid UTF-8.
pub open spec fn payload_text(b: Seq<u8>) -> Seq<char> {
    if valid_utf8(b) {
        decode_utf8(b)
    } else {
        Seq::empty()
    }
}

/// Relies on `String::from_utf8`: it succeeds exactly on valid UTF-8 and
/// then holds the decoded characters.
#[verifier::external_body]
fn utf8_string(bytes: Vec<u8>) -> (r: Option<String>)
    ensures
        r is Some <==> valid_utf8(bytes@),
        r is Some ==> r->Some_0@ == decode_utf8(bytes@),
{
    String::from_utf8(bytes).ok()
}

/// The payload as text; a payload that is not valid UTF-8 reads as empty.
pub fn payload_to_text(bytes: Vec<u8>) -> (r: String)
    ensures
        r@ == payload_text(bytes@),
{
    match utf8_string(bytes) {
        Some(s) => s,
        None => String::new(),
    }
}

/// The route of an event: a publish on `control_topic` is a command, any
/// other publish goes to the store; a connection acknowledgement asks for
/// the wildcard subscription where `retention` is set; the rest is dropped.
pub fn route_event(event: InboundEvent, control_topic: &str, retention: bool) -> (r: Route)
    ensures
        match event {
            InboundEvent::Publish { topic, payload } => if topic@ == control_topic@ {
                r is Command && r->Command_0@ == payload_text(payload@)
            } else {
                r is Store && r->Store_topic@ == topic@ && r->Store_payload@ == payload_text(
                    payload@,
                )
            },
            InboundEvent::ConnAck => if retention {
                r is SubscribeAll
            } else {
                r is Ignore
            },
            InboundEvent::Other => r is Ignore,
        },
{
    match event {
        InboundEvent::Publish { topic, payload } => {
            let text = payload_to_text(payload);
            if topic == control_topic.to_owned() {
                Route::Command(text)
            } else {
                Route::Store { topic, payload: text }
            }
        },
        InboundEvent::ConnAck => if retention {
            Route::SubscribeAll
        } else {
            Route::Ignore
        },
        InboundEvent::Other => Route::Ignore,
    }
}

} // verus!
