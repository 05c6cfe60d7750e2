//! The relay session: its states and transitions, the subscription filter,
//! inbound message dispatch, and the error taxonomy.
//!
//! The connection itself is asynchronous network work and lives outside this
//! library; every decision the session takes — which state follows which
//! event, what a subscription asks for, which inbound messages reach the
//! forwarder and what text an error surfaces as — is made here.
use vstd::prelude::*;
use nostro2::notes::SignedNote;
use crate::CONTACT_NOTE_KIND;
use crate::forward::{format_telegram_message, spec_format};
use crate::nostr::{spec_decrypt_note, RelayHandler};

verus! {

/// How far back, in time units, a new subscription looks for stored events.
pub const LOOKBACK_WINDOW: u64 = 60;

/// The states a relay session passes through.
#[derive(Clone, Copy, PartialEq, Eq, Structural, Debug)]
pub enum SessionState {
    Disconnected,
    Connected,
    Sending,
    Subscribed,
    Closed,
}

/// What the outside connection reports back to the session.
#[derive(Clone, Copy, PartialEq, Eq, Structural, Debug)]
pub enum SessionEvent {
    ConnectOk,
    ConnectFailed,
    SendStarted,
    NoteSent,
    SendFailed,
    SubscribeOk,
    SubscribeFailed,
    MessageReceived,
    ConnectionClosed,
}

/// The state that follows an event: connect, then either one send or one
/// subscription; inbound messages leave a subscription standing; everything
/// else closes the session.
pub open spec fn spec_step(s: SessionState, e: SessionEvent) -> SessionState {
    match (s, e) {
        (SessionState::Disconnected, SessionEvent::ConnectOk) => SessionState::Connected,
        (SessionState::Connected, SessionEvent::SendStarted) => SessionState::Sending,
        (SessionState::Connected, SessionEvent::SubscribeOk) => SessionState::Subscribed,
        (SessionState::Subscribed, SessionEvent::MessageReceived) => SessionState::Subscribed,
        (_, _) => SessionState::Closed,
    }
}

/// Advances the session: exactly `spec_step`. In particular an inbound message,
/// of whatever variant, never ends an open subscription.
pub fn session_step(s: SessionState, e: SessionEvent) -> (r: SessionState)
    ensures
        r == spec_step(s, e),
        s is Subscribed && e is MessageReceived ==> r is Subscribed,
{
    match (s, e) {
        (SessionState::Disconnected, SessionEvent::ConnectOk) => SessionState::Connected,
        (SessionState::Connected, SessionEvent::SendStarted) => SessionState::Sending,
        (SessionState::Connected, SessionEvent::SubscribeOk) => SessionState::Subscribed,
        (SessionState::Subscribed, SessionEvent::MessageReceived) => SessionState::Subscribed,
        (_, _) => SessionState::Closed,
    }
}

/// What a subscription asks the relay for: this application's event kind,
/// the holder's own key as author, and a short lookback window.
pub struct NoteFilter {
    pub kinds: Vec<u32>,
    pub authors: Vec<String>,
    pub since: u64,
}

/// The relay protocol messages a subscription can yield, as a closed set of
/// variants; only `Event` carries a note.
pub enum InboundEvent {
    Event(SignedNote),
    SentOk,
    EndOfStored,
    SubscriptionClosed,
    Notice,
}

/// Errors of the relay layer; each surfaces as plain descriptive text.
#[derive(Clone, Copy, PartialEq, Eq, Structural, Debug)]
pub enum RelayError {
    Unavailable,
    ConnectError,
    SendError,
    SubscribeError,
    DecryptError,
}

/// The text an error surfaces as.
pub open spec fn spec_describe(e: RelayError) -> Seq<char> {
    match e {
        RelayError::Unavailable => "Could not connect to relay"@,
        RelayError::ConnectError => "Could not connect to relay"@,
        RelayError::SendError => "Could not send note"@,
        RelayError::SubscribeError => "Could not subscribe to relay"@,
        RelayError::DecryptError => "Could not decrypt note"@,
    }
}

impl RelayError {
    /// The plain text this error surfaces as: exactly `spec_describe`. Missing
    /// configuration and an unreachable relay read the same at the boundary.
    pub fn describe(&self) -> (r: String)
        ensures
            r@ == spec_describe(*self),
    {
        match self {
            RelayError::Unavailable => "Could not connect to relay".to_owned(),
            RelayError::ConnectError => "Could not connect to relay".to_owned(),
            RelayError::SendError => "Could not send note".to_owned(),
            RelayError::SubscribeError => "Could not subscribe to relay".to_owned(),
            RelayError::DecryptError => "Could not decrypt note".to_owned(),
        }
    }
}

/// The digits of a channel identifier: what follows an optional leading sign.
pub open spec fn channel_digits(s: Seq<char>) -> Seq<char> {
    if s.len() > 0 && s[0] == '-' {
        s.skip(1)
    } else {
        s
    }
}

/// A channel identifier that is a plain decimal number, optionally signed: a
/// numeric chat identifier. Anything else addresses a channel by username.
pub open spec fn spec_numeric_channel_id(s: Seq<char>) -> bool {
    channel_digits(s).len() > 0 && (forall|j: int|
        0 <= j < channel_digits(s).len() ==> ('0' as u32) <= (#[trigger] channel_digits(s)[j]
            as u32) <= ('9' as u32))
}

/// Decides how the channel identifier addresses the channel: `true` for a
/// numeric chat identifier, `false` for a username.
pub fn is_numeric_channel_id(s: &str) -> (r: bool)
    ensures
        r == spec_numeric_channel_id(s@),
{
    let len = s.unicode_len();
    let start: usize = if len > 0 && s.get_char(0) == '-' {
        1
    } else {
        0
    };
    let ghost digits = channel_digits(s@);
    if start == len {
        proof {
            if s@.len() > 0 && s@[0] == '-' {
                assert(s@.skip(1).len() == 0);
            }
            assert(digits.len() == 0);
        }
        return false;
    }
    let mut i: usize = start;
    while i < len
        invariant
            start <= i <= len,
            len == s@.len(),
            start == 0 || start == 1,
            start == 1 <==> (s@.len() > 0 && s@[0] == '-'),
            digits == channel_digits(s@),
            digits.len() == len - start,
            forall|j: int|
                0 <= j < i - start ==> ('0' as u32) <= (#[trigger] digits[j] as u32) <= (
                '9' as u32),
        decreases len - i,
    {
        let c = s.get_char(i);
        proof {
            assert(digits[i - start] == s@[i as int]);
        }
        let u = c as u32;
        proof {
            assert((digits[i - start] as u32) == u);
        }
        if !(0x30 <= u && u <= 0x39) {
            proof {
                assert(0 <= i - start < channel_digits(s@).len());
                assert((channel_digits(s@)[i - start] as u32) == u);
                assert(!spec_numeric_channel_id(s@));
            }
            return false;
        }
        i = i + 1;
    }
    true
}

/// The failure text for a rejected transmission, with the transport's own words.
pub fn send_error_text(detail: &str) -> (r: String)
    ensures
        r@ == "Could not send note: "@ + detail@,
{
    let mut out = String::new();
    out.append("Could not send note: ");
    out.append(detail);
    proof {
        assert(out@ =~= "Could not send note: "@ + detail@);
    }
    out
}

impl RelayHandler {
    /// The filter for this handler's subscription: only this application's
    /// event kind, only notes authored by the holder's own key, and only those
    /// from at most `LOOKBACK_WINDOW` time units before `now`.
    pub fn subscription_filter(&self, now: u64) -> (f: NoteFilter)
        ensures
            f.kinds@ == seq![CONTACT_NOTE_KIND],
            f.authors@ == seq![self.public_key],
            f.since <= now,
            now - f.since <= LOOKBACK_WINDOW,
            now >= LOOKBACK_WINDOW ==> f.since == now - LOOKBACK_WINDOW,
            now < LOOKBACK_WINDOW ==> f.since == 0,
    {
        let mut kinds: Vec<u32> = Vec::new();
        kinds.push(CONTACT_NOTE_KIND);
        let mut authors: Vec<String> = Vec::new();
        authors.push(self.public_key.clone());
        let since: u64 = if now >= LOOKBACK_WINDOW {
            now - LOOKBACK_WINDOW
        } else {
            0
        };
        proof {
            assert(kinds@ =~= seq![CONTACT_NOTE_KIND]);
            assert(authors@ =~= seq![self.public_key]);
        }
        NoteFilter { kinds, authors, since }
    }

    /// Handles one message of an open subscription: a note that decrypts yields
    /// the forwarder's text for its plaintext; a note that does not decrypt,
    /// and every other message variant, yields nothing and is skipped.
    pub fn process_relay_event(&self, event: &InboundEvent) -> (r: Option<String>)
        ensures
            !(event is Event) ==> r is None,
            event matches InboundEvent::Event(n) ==> (match spec_decrypt_note(
                self.private_key,
                *n,
            ) {
                Some(p) => r matches Some(t) && t@ == spec_format(p),
                None => r is None,
            }),
    {
        match event {
            InboundEvent::Event(note) => match self.decrypt_note(note) {
                Some(plain) => {
                    let text = format_telegram_message(plain.as_str());
                    proof {
                        assert(text@ == spec_format(plain@));
                    }
                    Some(text)
                },
                None => None,
            },
            _ => None,
        }
    }
}

} // verus!


