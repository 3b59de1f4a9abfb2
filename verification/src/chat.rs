//! Dispatch rules for inbound envelopes, shared by both chat modes.
//!
//! The receive loop hands every inbound byte string to `handle_incoming`.
//! An announcement updates the identity registry; a text message is
//! resolved to a display name against the registry as it stood; bytes
//! that are no envelope are dropped, and only the one message is lost —
//! the loop goes on.

use vstd::prelude::*;
use vstd::slice::slice_to_vec;

use crate::envelope::{
    lemma_encode_injective, spec_body_from, spec_body_str, spec_body_tag, spec_encode_message,
    Message, MessageBody,
};
use crate::registry::{short_id, spec_resolve, spec_short_id, IdentityRegistry};
use crate::ChatError;

verus! {

/// What the receive loop should do with one inbound byte string.
///
/// `Announced` carries the sender's short identifier and the announced
/// name; `Chat` carries the resolved display name and the text; `Dropped`
/// says the bytes were discarded and why.
#[derive(Clone, Debug, PartialEq)]
pub enum Outcome {
    Announced { who: Vec<u8>, name: Vec<u8> },
    Chat { name: Vec<u8>, text: Vec<u8> },
    Dropped { reason: ChatError },
}

/// Applies one decoded message to the registry and says what to display.
pub fn handle_message(registry: &mut IdentityRegistry, m: &Message) -> (r: Outcome)
    requires
        old(registry).wf(),
    ensures
        final(registry).wf(),
        m.body is AboutMe ==> final(registry)@ == old(registry)@.insert(
            m.body->AboutMe_from@,
            m.body->AboutMe_name@,
        ) && r is Announced && r->Announced_who@ == spec_short_id(m.body->AboutMe_from@)
            && r->Announced_name@ == m.body->AboutMe_name@,
        m.body is Message ==> final(registry)@ == old(registry)@ && r is Chat && r->Chat_name@
            == spec_resolve(old(registry)@, m.body->Message_from@) && r->Chat_text@
            == m.body->Message_text@,
{
    match &m.body {
        MessageBody::AboutMe { from, name } => {
            let announced = slice_to_vec(name.as_slice());
            registry.upsert(*from, slice_to_vec(name.as_slice()));
            Outcome::Announced { who: short_id(from), name: announced }
        },
        MessageBody::Message { from, text } => {
            let display = registry.resolve(from);
            Outcome::Chat { name: display, text: slice_to_vec(text.as_slice()) }
        },
    }
}

/// Decodes one inbound byte string and applies it: the envelope logic of
/// the receive loop, with the socket and overlay reads left outside.
///
/// Whatever well-formed message the bytes encode — there is at most one —
/// is handled as `handle_message` does; anything else is dropped as
/// `MalformedEnvelope` with the registry untouched, and dropping is the
/// outcome exactly when the bytes encode no message.
pub fn handle_incoming(registry: &mut IdentityRegistry, bytes: &[u8]) -> (r: Outcome)
    requires
        old(registry).wf(),
    ensures
        final(registry).wf(),
        forall|m: Message|
            m.wf() && bytes@ == #[trigger] spec_encode_message(m) ==> ((m.body is AboutMe ==> final(registry)@ == old(registry)@.insert(m.body->AboutMe_from@, m.body->AboutMe_name@) && r
                is Announced && r->Announced_who@ == spec_short_id(m.body->AboutMe_from@)
                && r->Announced_name@ == m.body->AboutMe_name@) && (m.body is Message ==> final(registry)@ == old(registry)@ && r is Chat && r->Chat_name@ == spec_resolve(
                old(registry)@,
                m.body->Message_from@,
            ) && r->Chat_text@ == m.body->Message_text@)),
        r is Dropped ==> r->Dropped_reason == ChatError::MalformedEnvelope && final(registry)@
            == old(registry)@,
        (forall|m: Message| m.wf() ==> bytes@ != #[trigger] spec_encode_message(m)) <==> r is Dropped,
{
    match Message::from_bytes(bytes) {
        Err(e) => Outcome::Dropped { reason: e },
        Ok(m0) => {
            let r = handle_message(registry, &m0);
            proof {
                assert forall|m: Message| m.wf() && bytes@ == #[trigger] spec_encode_message(
                    m,
                ) implies spec_body_tag(m.body) == spec_body_tag(m0.body) && spec_body_from(m.body)
                    == spec_body_from(m0.body) && spec_body_str(m.body) == spec_body_str(
                    m0.body,
                ) by {
                    lemma_encode_injective(m, m0);
                }
                assert(!(r is Dropped));
            }
            r
        },
    }
}

} // verus!
