//! The Forwarder: maps decrypted plaintext to the human-readable channel message.
//!
//! A plaintext that is a canonical payload encoding becomes a templated greeting
//! embedding the three fields; any other plaintext — non-canonical JSON
//! included, by design — is wrapped verbatim under a generic header. The
//! system's own notes always carry the canonical encoding.
use vstd::prelude::*;
use crate::payload::{json_of, parse_contact_me, spec_parse_payload, lemma_parse_canonical};

verus! {

/// The channel message for a decrypted plaintext.
pub open spec fn spec_format(s: Seq<char>) -> Seq<char> {
    match spec_parse_payload(s) {
        Some(ncm) => "Jaque!\n\n"@ + ncm.0 + ", "@ + ncm.1 + "\n"@ + ncm.2,
        None => "Nuevo mensaje:\n\n"@ + s,
    }
}

/// Formats a decrypted plaintext for the channel: exactly `spec_format` of it.
pub fn format_telegram_message(plaintext: &str) -> (r: String)
    ensures
        r@ == spec_format(plaintext@),
{
    match parse_contact_me(plaintext) {
        Some(p) => {
            let mut out = String::new();
            out.append("Jaque!\n\n");
            out.append(p.name.as_str());
            out.append(", ");
            out.append(p.contact.as_str());
            out.append("\n");
            out.append(p.message.as_str());
            proof {
                assert(out@ =~= spec_format(plaintext@));
            }
            out
        },
        None => {
            let mut out = String::new();
            out.append("Nuevo mensaje:\n\n");
            out.append(plaintext);
            proof {
                assert(out@ =~= spec_format(plaintext@));
            }
            out
        },
    }
}

/// A plaintext that encodes a payload formats to the greeting holding the
/// payload's name, contact and message, in that order.
pub proof fn lemma_format_parsed(name: Seq<char>, contact: Seq<char>, message: Seq<char>)
    ensures
        spec_format(json_of(name, contact, message)) == "Jaque!\n\n"@ + name + ", "@ + contact
            + "\n"@ + message,
{
    lemma_parse_canonical(name, contact, message);
}

/// A plaintext that encodes no payload is kept verbatim under the generic header.
pub proof fn lemma_format_raw(s: Seq<char>)
    requires
        spec_parse_payload(s) is None,
    ensures
        spec_format(s) == "Nuevo mensaje:\n\n"@ + s,
{
}

} // verus!
