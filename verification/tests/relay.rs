use jaque_relay::nostr::RelayHandler;
use jaque_relay::payload::ContactMeRequest;
use jaque_relay::session::{
    is_numeric_channel_id, send_error_text, session_step, InboundEvent, RelayError, SessionEvent,
    SessionState,
};
use jaque_relay::CONTACT_NOTE_KIND;

use openssl::ec::{EcGroup, EcKey};
use openssl::nid::Nid;

/// A PEM-encoded secp256k1 private key whose scalar survives the handler's
/// hexadecimal round trip (no leading zero byte).
fn fresh_pem() -> Vec<u8> {
    let group = EcGroup::from_curve_name(Nid::SECP256K1).expect("curve");
    for _ in 0..64 {
        let key = EcKey::generate(&group).expect("generate");
        let pem = key.private_key_to_pem().expect("pem");
        if key.private_key().to_hex_str().expect("hex").len() == 64 {
            return pem;
        }
    }
    panic!("could not generate a key without leading zero bytes");
}

fn fresh_handler() -> RelayHandler {
    RelayHandler::new(
        Some("wss://relay.example".to_string()),
        Some(fresh_pem()),
        Some("chan-1".to_string()),
    )
    .expect("well-formed configuration must construct")
}

#[test]
fn construction_fails_when_any_value_is_missing() {
    let url = || Some("wss://relay.example".to_string());
    let pem = || Some(fresh_pem());
    let chan = || Some("chan-1".to_string());
    assert!(RelayHandler::new(None, pem(), chan()).is_none());
    assert!(RelayHandler::new(url(), None, chan()).is_none());
    assert!(RelayHandler::new(url(), pem(), None).is_none());
    assert!(RelayHandler::new(None, None, chan()).is_none());
    assert!(RelayHandler::new(None, pem(), None).is_none());
    assert!(RelayHandler::new(url(), None, None).is_none());
    assert!(RelayHandler::new(None, None, None).is_none());
}

#[test]
fn construction_fails_on_malformed_key_file() {
    let r = RelayHandler::new(
        Some("wss://relay.example".to_string()),
        Some(b"not a pem file".to_vec()),
        Some("chan-1".to_string()),
    );
    assert!(r.is_none());
}

#[test]
fn construction_keeps_the_given_configuration() {
    let h = fresh_handler();
    assert_eq!(h.relay_url, "wss://relay.example");
    assert_eq!(h.channel_id, "chan-1");
    assert_eq!(h.public_key.len(), 64);
}

#[test]
fn sign_then_decrypt_recovers_the_payload() {
    let h = fresh_handler();
    let text = ContactMeRequest {
        name: "Ana".to_string(),
        contact: "ana@x.com".to_string(),
        message: "Hola".to_string(),
    }
    .to_json_string();
    let note = h.sign_contact_note(&text).expect("signing must succeed");
    assert_eq!(note.get_kind(), CONTACT_NOTE_KIND);
    assert_eq!(note.get_pubkey(), h.public_key);
    let plain = h.decrypt_note(&note).expect("own note must decrypt");
    assert_eq!(plain, text);
}

#[test]
fn malformed_note_contents_are_skipped_without_fault() {
    let h = fresh_handler();
    let keys = nostro2::userkeys::UserKeys::new(
        "a992011980303ea8c43f66087634283026e7796e7fcea8b61710239e19ee28c8",
    )
    .expect("keys");
    // a post-`?` segment shorter than its `iv=` marker, one too short for a
    // whole initialization vector, and an empty vector
    let shapes = vec!["x?y", "QUJD?iv=QUJD", "QUJDQUJDQUJDQUJDQUJDQUJD?iv="];
    for content in shapes {
        let note = nostro2::notes::Note::new(&keys.get_public_key(), CONTACT_NOTE_KIND, content);
        let signed = keys.sign_nostr_event(note);
        assert_eq!(h.decrypt_note(&signed), None, "content {:?}", content);
        assert_eq!(h.process_relay_event(&InboundEvent::Event(signed)), None);
    }
}

#[test]
fn numeric_and_username_channel_ids_are_told_apart() {
    assert!(is_numeric_channel_id("12345"));
    assert!(is_numeric_channel_id("-1001234567890"));
    assert!(!is_numeric_channel_id("@mychannel"));
    assert!(!is_numeric_channel_id(""));
    assert!(!is_numeric_channel_id("-"));
    assert!(!is_numeric_channel_id("12a45"));
    assert!(!is_numeric_channel_id("12 45"));
}

#[test]
fn foreign_reader_never_recovers_the_plaintext() {
    let sender = fresh_handler();
    let reader = fresh_handler();
    let note = sender.sign_contact_note("secreto").expect("signing must succeed");
    assert_ne!(reader.decrypt_note(&note), Some("secreto".to_string()));
}

#[test]
fn received_note_reaches_the_forwarder_formatted() {
    let h = fresh_handler();
    let text = ContactMeRequest {
        name: "Ana".to_string(),
        contact: "ana@x.com".to_string(),
        message: "Hola".to_string(),
    }
    .to_json_string();
    let note = h.sign_contact_note(&text).expect("signing must succeed");
    let out = h.process_relay_event(&InboundEvent::Event(note));
    assert_eq!(out, Some("Jaque!\n\nAna, ana@x.com\nHola".to_string()));
}

#[test]
fn other_relay_messages_do_not_reach_the_forwarder() {
    let h = fresh_handler();
    assert_eq!(h.process_relay_event(&InboundEvent::SentOk), None);
    assert_eq!(h.process_relay_event(&InboundEvent::EndOfStored), None);
    assert_eq!(h.process_relay_event(&InboundEvent::SubscriptionClosed), None);
    assert_eq!(h.process_relay_event(&InboundEvent::Notice), None);
}

#[test]
fn undecryptable_note_is_skipped() {
    let h = fresh_handler();
    // a note whose content carries no ciphertext-and-IV shape at all
    let keys = nostro2::userkeys::UserKeys::new(
        "a992011980303ea8c43f66087634283026e7796e7fcea8b61710239e19ee28c8",
    )
    .expect("keys");
    let note = nostro2::notes::Note::new(&keys.get_public_key(), CONTACT_NOTE_KIND, "sin cifrar");
    let signed = keys.sign_nostr_event(note);
    assert_eq!(h.process_relay_event(&InboundEvent::Event(signed)), None);
}

#[test]
fn subscription_filter_looks_back_sixty_units() {
    let h = fresh_handler();
    let f = h.subscription_filter(1000);
    assert_eq!(f.kinds, vec![CONTACT_NOTE_KIND]);
    assert_eq!(f.authors, vec![h.public_key.clone()]);
    assert_eq!(f.since, 940);
    let early = h.subscription_filter(30);
    assert_eq!(early.since, 0);
    let now = h.subscription_filter(60);
    assert_eq!(now.since, 0);
}

#[test]
fn session_transitions_follow_the_protocol() {
    let step = session_step;
    assert_eq!(step(SessionState::Disconnected, SessionEvent::ConnectOk), SessionState::Connected);
    assert_eq!(step(SessionState::Disconnected, SessionEvent::ConnectFailed), SessionState::Closed);
    assert_eq!(step(SessionState::Connected, SessionEvent::SendStarted), SessionState::Sending);
    assert_eq!(step(SessionState::Connected, SessionEvent::SubscribeOk), SessionState::Subscribed);
    assert_eq!(step(SessionState::Connected, SessionEvent::SubscribeFailed), SessionState::Closed);
    assert_eq!(step(SessionState::Sending, SessionEvent::NoteSent), SessionState::Closed);
    assert_eq!(step(SessionState::Sending, SessionEvent::SendFailed), SessionState::Closed);
    assert_eq!(step(SessionState::Subscribed, SessionEvent::ConnectionClosed), SessionState::Closed);
}

#[test]
fn inbound_message_keeps_the_subscription_open() {
    assert_eq!(
        session_step(SessionState::Subscribed, SessionEvent::MessageReceived),
        SessionState::Subscribed
    );
}

#[test]
fn errors_surface_as_plain_text() {
    assert_eq!(RelayError::Unavailable.describe(), "Could not connect to relay");
    assert_eq!(RelayError::ConnectError.describe(), "Could not connect to relay");
    assert_eq!(RelayError::SendError.describe(), "Could not send note");
    assert_eq!(RelayError::SubscribeError.describe(), "Could not subscribe to relay");
    assert_eq!(RelayError::DecryptError.describe(), "Could not decrypt note");
    assert_eq!(
        send_error_text("relay closed the socket"),
        "Could not send note: relay closed the socket"
    );
}
