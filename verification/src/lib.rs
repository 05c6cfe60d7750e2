//! Relay-backed contact form library: payload encoding, note signing and
//! decryption, subscription filtering, and message forwarding logic.
use vstd::prelude::*;

pub mod forward;
pub mod html;
pub mod nostr;
pub mod payload;
pub mod session;

verus! {

/// Fixed event-kind tag that marks this application's notes on the relay.
pub const CONTACT_NOTE_KIND: u32 = 4242;

} // verus!
